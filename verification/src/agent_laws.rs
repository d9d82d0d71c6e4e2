//! What is concluded of the program in a pane: which agent it is, and whether that agent
//! waits, works or is idle.

use crate::agents::{
    argv0_base, base_name, bottom_lines, cells_text, command_index, filled, first_hit, found_on,
    judged, kept, logical_lines, lines_upto, matched, regex_finds, unpadded, PatternView,
    ReasonView, RulesView,
};
use crate::detection::{concluded, first_agent, in_group, DetectedView, NamesView};
use crate::jobs::job_order;
use crate::screen::Row;
use vstd::prelude::*;

verus! {

// ---------------------------------------------------------------------------
// Which agent it is
// ---------------------------------------------------------------------------

/// The name part of a path is what stands behind its last slash.
pub proof fn law_a_name_stands_behind_the_last_slash(path: Seq<char>)
    ensures
        ({
            let b = base_name(path);
            let k = path.len() - b.len();
            &&& 0 <= k <= path.len()
            &&& b == path.skip(k)
            &&& !b.contains('/')
            &&& k > 0 ==> path[k - 1] == '/'
        }),
    decreases path.len(),
{
    let b = base_name(path);
    if path.len() == 0 || path.last() == '/' {
        assert(b =~= path.skip(path.len() as int));
    } else {
        let rest = path.drop_last();
        law_a_name_stands_behind_the_last_slash(rest);
        let k = path.len() - b.len();
        assert(b =~= path.skip(k));
        if b.contains('/') {
            let j = choose|j: int| 0 <= j < b.len() && b[j] == '/';
            if j < b.len() - 1 {
                assert(base_name(rest)[j] == '/');
            }
        }
    }
}

proof fn lemma_command_index(commands: Seq<Seq<char>>, name: Seq<char>, i: int)
    requires
        0 <= i <= commands.len(),
    ensures
        match command_index(commands, name, i) {
            Some(k) => i <= k < commands.len() && commands[k] == name,
            None => forall|k: int| i <= k < commands.len() ==> #[trigger] commands[k] != name,
        },
    decreases commands.len() - i,
{
    if i < commands.len() && commands[i] != name {
        lemma_command_index(commands, name, i + 1);
    }
}

/// A process runs a configured command if that is what the system calls it or else the name
/// part of what it was started as, and it runs none if neither is configured.
pub proof fn law_a_process_is_known_by_either_name(
    commands: Seq<Seq<char>>,
    name: Seq<char>,
    argv0: Option<Seq<char>>,
)
    ensures
        ({
            let by_argv = argv0 matches Some(a) && base_name(a).len() > 0 && commands.contains(
                base_name(a),
            );
            &&& commands.contains(name) ==> matched(commands, name, argv0) == Some(name)
            &&& !commands.contains(name) && by_argv ==> matched(commands, name, argv0) == Some(
                base_name(argv0->0),
            )
            &&& !commands.contains(name) && !by_argv ==> matched(commands, name, argv0) is None
        }),
{
    lemma_command_index(commands, name, 0);
    if argv0_base(argv0) is Some {
        lemma_command_index(commands, argv0_base(argv0)->0, 0);
    }
}

proof fn lemma_first_agent(
    commands: Seq<Seq<char>>,
    pids: Seq<i32>,
    nm: spec_fn(i32) -> NamesView,
) -> (k: int)
    ensures
        match first_agent(commands, pids, nm) {
            Some((p, n, c)) => {
                &&& 0 <= k < pids.len() && pids[k] == p && n == nm(p)
                &&& matched(commands, n.name, n.argv0) == Some(c)
                &&& forall|j: int|
                    0 <= j < k ==> matched(commands, nm(#[trigger] pids[j]).name, nm(pids[j]).argv0)
                        is None
            },
            None => forall|j: int|
                0 <= j < pids.len() ==> matched(
                    commands,
                    nm(#[trigger] pids[j]).name,
                    nm(pids[j]).argv0,
                ) is None,
        },
    decreases pids.len(),
{
    if pids.len() == 0 {
        0
    } else if matched(commands, nm(pids[0]).name, nm(pids[0]).argv0) is Some {
        0
    } else {
        let rest = pids.skip(1);
        let k = lemma_first_agent(commands, rest, nm);
        assert forall|j: int| 0 <= j < pids.len() && (j == 0 || matched(
            commands,
            nm(#[trigger] rest[j - 1]).name,
            nm(rest[j - 1]).argv0,
        ) is None) implies matched(commands, nm(pids[j]).name, nm(pids[j]).argv0) is None by {}
        match first_agent(commands, pids, nm) {
            Some(_) => {
                assert forall|j: int| 0 <= j < k + 1 implies matched(
                    commands,
                    nm(#[trigger] pids[j]).name,
                    nm(pids[j]).argv0,
                ) is None by {
                    if j > 0 {
                        assert(rest[j - 1] == pids[j]);
                    }
                }
            },
            None => {
                assert forall|j: int| 0 <= j < pids.len() implies matched(
                    commands,
                    nm(#[trigger] pids[j]).name,
                    nm(pids[j]).argv0,
                ) is None by {
                    if j > 0 {
                        assert(rest[j - 1] == pids[j]);
                    }
                }
            },
        }
        k + 1
    }
}

/// A job is taken for the first of its processes that runs a configured command, in the
/// order of the walk and the leader first. It is taken for nothing only if none of them does.
pub proof fn law_the_first_agent_of_a_job_counts(
    commands: Seq<Seq<char>>,
    leader: i32,
    kids: spec_fn(i32) -> Seq<i32>,
    nm: spec_fn(i32) -> NamesView,
) -> (k: int)
    requires
        job_order(kids, leader).len() > 0,
        job_order(kids, leader)[0] == leader,
    ensures
        ({
            let all = job_order(kids, leader);
            match concluded(commands, leader, kids, nm) {
                DetectedView::Leader(c) => matched(commands, nm(leader).name, nm(leader).argv0)
                    == Some(c),
                DetectedView::Descendant(p, n, c) => {
                    &&& 0 < k < all.len() && all[k] == p && n == nm(p)
                    &&& matched(commands, n.name, n.argv0) == Some(c)
                    &&& forall|j: int|
                        0 <= j < k ==> matched(
                            commands,
                            nm(#[trigger] all[j]).name,
                            nm(all[j]).argv0,
                        ) is None
                },
                DetectedView::Nothing => forall|j: int|
                    0 <= j < all.len() ==> matched(
                        commands,
                        nm(#[trigger] all[j]).name,
                        nm(all[j]).argv0,
                    ) is None,
            }
        }),
{
    let all = job_order(kids, leader);
    let rest = all.skip(1);
    let k = lemma_first_agent(commands, rest, nm);
    assert forall|j: int| 0 < j < all.len() implies #[trigger] all[j] == rest[j - 1] by {}
    k + 1
}

/// Only children in the leader's own group belong to the job, all of them do, and they keep
/// their order.
pub proof fn law_a_parked_process_is_passed_over(
    children: Seq<i32>,
    groups: Seq<Option<i32>>,
    leader: i32,
    n: int,
) -> (at: Seq<int>)
    requires
        0 <= n <= children.len() == groups.len(),
    ensures
        ({
            let own = in_group(children, groups, leader, n);
            &&& at.len() == own.len()
            &&& forall|k: int|
                0 <= k < at.len() ==> 0 <= #[trigger] at[k] < n && own[k] == children[at[k]]
                    && groups[at[k]] == Some(leader)
            &&& forall|k: int, m: int| 0 <= k < m < at.len() ==> #[trigger] at[k] < #[trigger] at[m]
            &&& forall|i: int|
                0 <= i < n && #[trigger] groups[i] == Some(leader) ==> at.contains(i)
        }),
    decreases n,
{
    if n <= 0 {
        Seq::empty()
    } else {
        let before = law_a_parked_process_is_passed_over(children, groups, leader, n - 1);
        if groups[n - 1] == Some(leader) {
            let at = before.push(n - 1);
            assert forall|i: int| 0 <= i < n && #[trigger] groups[i] == Some(
                leader,
            ) implies at.contains(i) by {
                if i < n - 1 {
                    let j = choose|j: int| 0 <= j < before.len() && before[j] == i;
                    assert(at[j] == i);
                } else {
                    assert(at[before.len() as int] == i);
                }
            }
            at
        } else {
            before
        }
    }
}

// ---------------------------------------------------------------------------
// What it is doing
// ---------------------------------------------------------------------------

/// The patterns that are no regular expressions are left out, and the others keep their
/// order.
pub proof fn law_valid_patterns_keep_their_order(
    patterns: Seq<PatternView>,
    valid: Seq<bool>,
    n: int,
) -> (at: Seq<int>)
    requires
        0 <= n <= patterns.len() == valid.len(),
    ensures
        ({
            let own = kept(patterns, valid, n);
            &&& at.len() == own.len()
            &&& forall|k: int|
                0 <= k < at.len() ==> 0 <= #[trigger] at[k] < n && own[k] == patterns[at[k]]
                    && valid[at[k]]
            &&& forall|k: int, m: int| 0 <= k < m < at.len() ==> #[trigger] at[k] < #[trigger] at[m]
            &&& forall|i: int| 0 <= i < n && #[trigger] valid[i] ==> at.contains(i)
        }),
    decreases n,
{
    if n <= 0 {
        Seq::empty()
    } else {
        let before = law_valid_patterns_keep_their_order(patterns, valid, n - 1);
        if valid[n - 1] {
            let at = before.push(n - 1);
            assert forall|i: int| 0 <= i < n && #[trigger] valid[i] implies at.contains(i) by {
                if i < n - 1 {
                    let j = choose|j: int| 0 <= j < before.len() && before[j] == i;
                    assert(at[j] == i);
                } else {
                    assert(at[before.len() as int] == i);
                }
            }
            at
        } else {
            before
        }
    }
}

/// The pattern is for the agent, or for all, and is found on one of the lines.
pub open spec fn asks(p: PatternView, command: Seq<char>, lines: Seq<Seq<char>>) -> bool {
    &&& p.command is None || p.command == Some(command)
    &&& exists|j: int| 0 <= j < lines.len() && regex_finds(p.regex, #[trigger] lines[j])
}

proof fn lemma_first_hit(
    patterns: Seq<PatternView>,
    command: Seq<char>,
    lines: Seq<Seq<char>>,
    i: int,
)
    requires
        0 <= i <= patterns.len(),
    ensures
        match first_hit(patterns, command, found_on(patterns, lines), i) {
            Some(k) => {
                &&& i <= k < patterns.len()
                &&& asks(patterns[k], command, lines)
                &&& forall|m: int| i <= m < k ==> !asks(#[trigger] patterns[m], command, lines)
            },
            None => forall|m: int|
                i <= m < patterns.len() ==> !asks(#[trigger] patterns[m], command, lines),
        },
    decreases patterns.len() - i,
{
    if i < patterns.len() {
        let hits = found_on(patterns, lines);
        assert(hits[i] == patterns[i].found(lines));
        if !(patterns[i].applies(command) && hits[i]) {
            lemma_first_hit(patterns, command, lines, i + 1);
        }
    }
}

/// An agent needs input exactly while one of its questions is on the screen, and the first
/// pattern that finds one is named as the reason. Without a question it works as long as it
/// had output within the window, the end of it included, and is idle after that.
pub proof fn law_a_question_on_the_screen_means_waiting(
    rules: RulesView,
    command: Seq<char>,
    lines: Seq<Seq<char>>,
    since: u128,
)
    ensures
        ({
            let v = judged(rules, command, found_on(rules.patterns, lines), since);
            let asked = exists|k: int|
                0 <= k < rules.patterns.len() && asks(#[trigger] rules.patterns[k], command, lines);
            &&& (v.state is NeedsInput) == asked
            &&& (v.state is Working) == (!asked && since <= rules.working_nanos)
            &&& (v.state is Idle) == (!asked && since > rules.working_nanos)
            &&& asked ==> exists|k: int|
                0 <= k < rules.patterns.len() && asks(#[trigger] rules.patterns[k], command, lines)
                    && v.reason == ReasonView::Pattern(rules.patterns[k].name) && (forall|m: int|
                    0 <= m < k ==> !asks(#[trigger] rules.patterns[m], command, lines))
        }),
{
    lemma_first_hit(rules.patterns, command, lines, 0);
}

// ---------------------------------------------------------------------------
// What is on the screen
// ---------------------------------------------------------------------------

/// Only the spaces at the end of a line are dropped, and all of them.
pub proof fn law_only_the_padding_is_dropped(s: Seq<char>)
    ensures
        ({
            let t = unpadded(s);
            &&& t.len() <= s.len()
            &&& t == s.take(t.len() as int)
            &&& t.len() > 0 ==> t.last() != ' '
            &&& forall|i: int| t.len() <= i < s.len() ==> #[trigger] s[i] == ' '
        }),
    decreases s.len(),
{
    let t = unpadded(s);
    if s.len() > 0 && s.last() == ' ' {
        law_only_the_padding_is_dropped(s.drop_last());
        assert(t =~= s.take(t.len() as int));
        assert forall|i: int| t.len() <= i < s.len() implies #[trigger] s[i] == ' ' by {
            if i < s.len() - 1 {
                assert(s.drop_last()[i] == ' ');
            }
        }
    } else {
        assert(t =~= s.take(t.len() as int));
    }
}

proof fn lemma_plain_rows(rows: Seq<Row>, n: int)
    requires
        0 <= n <= rows.len(),
        forall|i: int| 0 <= i < n ==> !(#[trigger] rows[i]).wrapped,
    ensures
        lines_upto(rows, n).1 is None,
        lines_upto(rows, n).0.len() == n,
        forall|i: int|
            0 <= i < n ==> #[trigger] lines_upto(rows, n).0[i] == unpadded(
                cells_text(rows[i].cells@, rows[i].cells@.len() as int),
            ),
    decreases n,
{
    if n > 0 {
        lemma_plain_rows(rows, n - 1);
        assert(!rows[n - 1].wrapped);
    }
}

/// Rows that do not go on are one line each, in their order: the text of the row without its
/// padding.
pub proof fn law_every_row_is_a_line(rows: Seq<Row>)
    requires
        forall|i: int| 0 <= i < rows.len() ==> !(#[trigger] rows[i]).wrapped,
    ensures
        logical_lines(rows).len() == rows.len(),
        forall|i: int|
            0 <= i < rows.len() ==> #[trigger] logical_lines(rows)[i] == unpadded(
                cells_text(rows[i].cells@, rows[i].cells@.len() as int),
            ),
{
    lemma_plain_rows(rows, rows.len() as int);
}

proof fn lemma_filled(lines: Seq<Seq<char>>, n: int)
    requires
        0 <= n <= lines.len(),
    ensures
        0 <= filled(lines, n) <= n,
        filled(lines, n) > 0 ==> lines[filled(lines, n) - 1].len() > 0,
        forall|i: int| filled(lines, n) <= i < n ==> (#[trigger] lines[i]).len() == 0,
    decreases n,
{
    if n > 0 && lines[n - 1].len() == 0 {
        lemma_filled(lines, n - 1);
    }
}

/// What is looked at are the lines right above the empty end of the screen, as many as are
/// configured or as there are.
pub proof fn law_the_scan_covers_the_end_of_the_output(lines: Seq<Seq<char>>, most: usize) -> (end:
    int)
    ensures
        0 <= end <= lines.len(),
        forall|i: int| end <= i < lines.len() ==> (#[trigger] lines[i]).len() == 0,
        end > 0 ==> lines[end - 1].len() > 0,
        end <= most ==> bottom_lines(lines, most) == lines.take(end),
        end > most ==> bottom_lines(lines, most) == lines.subrange(end - most, end),
{
    lemma_filled(lines, lines.len() as int);
    let end = filled(lines, lines.len() as int);
    if end <= most {
        assert(bottom_lines(lines, most) =~= lines.take(end));
    }
    end
}

/// The text of a row is that of its cells, one behind the other: of each the character with
/// the marks on it, and nothing for the second half of a wide one.
pub proof fn law_a_row_reads_cell_by_cell(row: Row, n: int)
    requires
        0 <= n < row.cells@.len(),
    ensures
        ({
            let cell = row.cells@[n];
            let before = cells_text(row.cells@, n);
            let now = cells_text(row.cells@, n + 1);
            &&& cells_text(row.cells@, 0).len() == 0
            &&& cell.width == 0 ==> now == before
            &&& cell.width != 0 ==> now == before.push(cell.c) + cell.combining@
        }),
{
    let cell = row.cells@[n];
    let before = cells_text(row.cells@, n);
    let now = cells_text(row.cells@, n + 1);
    if cell.width == 0 {
        assert(now =~= before);
    } else {
        assert(now =~= before.push(cell.c) + cell.combining@);
    }
}

} // verus!
