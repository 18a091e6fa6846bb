use vstd::prelude::*;

use crate::text::{join, trim_end};
use crate::tmux_compat::{
    brace_depth, brace_scan, commands_text, compatible_command_text,
    continues, depth_after_directive, filter_step, is_set_option_name, is_unbind_key_name,
    line_commands, line_directive, logical_lines, logical_state, physical_lines, set_option_request,
    CommandCheck, ConditionalDirective, FilterState, ParsedCommand, ParsedLine,
};
use crate::tmux_compat::has_format_job;

verus! {

/// A line of the filter adds nothing, or exactly one line: the commands that
/// the parser reported for it, all of them brought over, joined with ` ; `.
/// Nothing is added inside a skipped block or a conditional, nor for a
/// conditional directive.
pub proof fn law_filter_adds_only_accepted_command_lines(
    st: FilterState,
    line: Seq<char>,
    parsed: Option<ParsedLine>,
)
    ensures
        ({
            let next = filter_step(st, line, parsed);
            ||| next.kept == st.kept
            ||| {
                &&& st.block_depth == 0
                &&& st.conditional_depth == 0
                &&& line_directive(line) is None
                &&& line_commands(parsed) is Some
                &&& next.kept == st.kept + join(line_commands(parsed)->0, " ; "@) + "\n"@
            }
        }),
{
}

/// Inside a conditional block or a skipped command block, no line is kept.
pub proof fn law_nothing_kept_inside_blocks(
    st: FilterState,
    line: Seq<char>,
    parsed: Option<ParsedLine>,
)
    requires
        st.block_depth != 0 || st.conditional_depth != 0,
    ensures
        filter_step(st, line, parsed).kept == st.kept,
{
}

/// Command lists are all or nothing: a list is brought over exactly when
/// each of its commands is.
pub proof fn law_command_lists_all_or_nothing(cmds: Seq<ParsedCommand>)
    ensures
        commands_text(cmds) is Some <==> forall|i: int|
            0 <= i < cmds.len() ==> (#[trigger] compatible_command_text(cmds[i])) is Some,
    decreases cmds.len(),
{
    if cmds.len() > 0 {
        law_command_lists_all_or_nothing(cmds.drop_last());
        if commands_text(cmds) is Some {
            assert forall|i: int| 0 <= i < cmds.len() implies (#[trigger] compatible_command_text(
                cmds[i],
            )) is Some by {
                if i < cmds.len() - 1 {
                    assert(cmds.drop_last()[i] == cmds[i]);
                }
            }
        } else {
            if forall|i: int|
                0 <= i < cmds.len() ==> (#[trigger] compatible_command_text(cmds[i])) is Some {
                assert forall|i: int| 0 <= i < cmds.drop_last().len() implies (
                #[trigger] compatible_command_text(cmds.drop_last()[i])) is Some by {
                    assert(cmds.drop_last()[i] == cmds[i]);
                    assert(compatible_command_text(cmds[i]) is Some);
                }
                assert(compatible_command_text(cmds[cmds.len() - 1]) is Some);
            }
        }
    }
}

/// Only option settings and key unbindings are ever brought over; an option
/// setting never names a user `@` option nor runs a `#(` format job, and an
/// unbinding never removes all keys.
pub proof fn law_only_plain_options_and_single_unbinds(cmd: ParsedCommand)
    requires
        compatible_command_text(cmd) is Some,
    ensures
        is_set_option_name(cmd.name@) || is_unbind_key_name(cmd.name@),
        is_set_option_name(cmd.name@) ==> cmd.check is SetOption && match set_option_request(cmd) {
            Some(request) => {
                &&& !(request.option.len() > 0 && request.option[0] == '@')
                &&& !(request.value is Some && has_format_job(request.value->0))
            },
            None => false,
        },
        is_unbind_key_name(cmd.name@) && !is_set_option_name(cmd.name@) ==> match cmd.check {
            CommandCheck::UnbindKey { all, has_key, .. } => !all && has_key,
            _ => false,
        },
{
}

/// `%if` followed by `%endif` restores the conditional depth (below the
/// saturation point).
pub proof fn law_if_endif_restores_depth(depth: usize)
    requires
        depth < usize::MAX,
    ensures
        depth_after_directive(
            depth_after_directive(depth, ConditionalDirective::If),
            ConditionalDirective::Endif,
        ) == depth,
{
}

/// A line without `{` and `}` leaves the block depth as it was.
pub proof fn law_braceless_line_keeps_depth(line: Seq<char>, depth: usize)
    requires
        !line.contains('{'),
        !line.contains('}'),
    ensures
        brace_depth(line, depth) == depth,
    decreases line.len(),
{
    if line.len() > 0 {
        assert(!line.drop_last().contains('{')) by {
            if line.drop_last().contains('{') {
                let i = choose|i: int| 0 <= i < line.drop_last().len() && line.drop_last()[i] == '{';
                assert(line[i] == '{');
            }
        }
        assert(!line.drop_last().contains('}')) by {
            if line.drop_last().contains('}') {
                let i = choose|i: int| 0 <= i < line.drop_last().len() && line.drop_last()[i] == '}';
                assert(line[i] == '}');
            }
        }
        law_braceless_line_keeps_depth(line.drop_last(), depth);
        assert(line.last() != '{' && line.last() != '}') by {
            assert(line[line.len() - 1] == line.last());
        }
    }
}

proof fn lemma_logical_state_without_continuations(lines: Seq<Seq<char>>, k: int)
    requires
        0 <= k <= lines.len(),
        forall|i: int| 0 <= i < lines.len() ==> !continues(trim_end(#[trigger] lines[i])),
    ensures
        logical_state(lines, k) == (lines.take(k), Seq::<char>::empty()),
    decreases k,
{
    if k > 0 {
        lemma_logical_state_without_continuations(lines, k - 1);
        assert(lines.take(k) =~= lines.take(k - 1).push(lines[k - 1]));
        assert(Seq::<char>::empty() + lines[k - 1] =~= lines[k - 1]);
    } else {
        assert(lines.take(0) =~= Seq::<Seq<char>>::empty());
    }
}

/// A file in which no line ends in a continuation has its physical lines as
/// its logical lines.
pub proof fn law_no_continuation_keeps_lines(contents: Seq<char>)
    requires
        forall|i: int|
            0 <= i < physical_lines(contents).len() ==> !continues(
                trim_end(#[trigger] physical_lines(contents)[i]),
            ),
    ensures
        logical_lines(contents) == physical_lines(contents),
{
    let lines = physical_lines(contents);
    lemma_logical_state_without_continuations(lines, lines.len() as int);
    assert(lines.take(lines.len() as int) =~= lines);
}


/// The number of `{` in `s`.
pub open spec fn open_brace_count(s: Seq<char>) -> nat
    decreases s.len(),
{
    if s.len() == 0 {
        0
    } else {
        open_brace_count(s.drop_last()) + if s.last() == '{' {
            1nat
        } else {
            0nat
        }
    }
}

proof fn lemma_brace_scan_monotone(s: Seq<char>, d1: usize, d2: usize)
    requires
        d1 <= d2,
    ensures
        brace_scan(s, d1).quote == brace_scan(s, d2).quote,
        brace_scan(s, d1).escaped == brace_scan(s, d2).escaped,
        brace_scan(s, d1).stopped == brace_scan(s, d2).stopped,
        brace_scan(s, d1).depth <= brace_scan(s, d2).depth,
        brace_scan(s, d1).depth <= d1 + open_brace_count(s),
    decreases s.len(),
{
    if s.len() > 0 {
        lemma_brace_scan_monotone(s.drop_last(), d1, d2);
    }
}

/// The block depth after a line grows with the depth before it, never by
/// more than the line's `{` count, and a line without braces keeps it.
pub proof fn law_brace_depth_monotone_and_bounded(line: Seq<char>, d1: usize, d2: usize)
    requires
        d1 <= d2,
    ensures
        brace_depth(line, d1) <= brace_depth(line, d2),
        brace_depth(line, d1) <= d1 + open_brace_count(line),
        !line.contains('{') && !line.contains('}') ==> brace_depth(line, d1) == d1,
{
    lemma_brace_scan_monotone(line, d1, d2);
    if !line.contains('{') && !line.contains('}') {
        law_braceless_line_keeps_depth(line, d1);
    }
}

} // verus!
