use vstd::prelude::*;

use crate::text::{trim, trim_string};

verus! {

/// The trimmed value of one hostname source, when it holds more than
/// whitespace.
pub open spec fn usable_source(source: Option<String>) -> Option<Seq<char>> {
    match source {
        Some(value) => if trim(value@).len() > 0 {
            Some(trim(value@))
        } else {
            None
        },
        None => None,
    }
}

/// The hostname from the first usable source, in the order given.
pub open spec fn hostname_spec(
    hostname_env: Option<String>,
    computername_env: Option<String>,
    etc_hostname: Option<String>,
) -> Option<Seq<char>> {
    if usable_source(hostname_env) is Some {
        usable_source(hostname_env)
    } else if usable_source(computername_env) is Some {
        usable_source(computername_env)
    } else {
        usable_source(etc_hostname)
    }
}

fn usable(source: Option<String>) -> (r: Option<String>)
    ensures
        match r {
            Some(v) => usable_source(source) == Some(v@),
            None => usable_source(source) is None,
        },
{
    match source {
        Some(value) => {
            let trimmed = trim_string(value.as_str());
            if trimmed.as_str().is_empty() {
                None
            } else {
                Some(trimmed)
            }
        },
        None => None,
    }
}

/// Picks the local hostname from, in order of preference, the `HOSTNAME`
/// variable, the `COMPUTERNAME` variable and the contents of `/etc/hostname`:
/// the first that holds more than whitespace, trimmed.
pub fn hostname_from_sources(
    hostname_env: Option<String>,
    computername_env: Option<String>,
    etc_hostname: Option<String>,
) -> (r: Option<String>)
    ensures
        match r {
            Some(v) => hostname_spec(hostname_env, computername_env, etc_hostname) == Some(v@),
            None => hostname_spec(hostname_env, computername_env, etc_hostname) is None,
        },
{
    if let Some(v) = usable(hostname_env) {
        return Some(v);
    }
    if let Some(v) = usable(computername_env) {
        return Some(v);
    }
    usable(etc_hostname)
}

} // verus!
