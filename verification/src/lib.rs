use vstd::prelude::*;

pub mod config_parse;
pub mod display_parse;
pub mod env_parse;
pub mod host_name;
pub mod keys;
pub mod layout_parse;
pub mod list_parse;
pub mod listener;
pub mod mode;
pub mod mouse;
pub mod mouse_laws;
pub mod option_scope;
pub mod pane_parse;
pub mod queue_parse;
pub mod sdk_waits;
pub mod session_leases;
pub mod session_parse;
pub mod shell_text;
pub mod shutdown;
pub mod source_files;
pub mod targets;
pub mod text;
pub mod tmux_compat;
pub mod tmux_compat_laws;
pub mod waits;

verus! {
} // verus!
