//! Finding the agent in a pane's foreground job, and what is logged about it.

use crate::agents::{matched, AgentRules, ProcessNames};
use crate::jobs::{job_candidates, job_order, lists, JobWalk, MAX_CANDIDATES};
use crate::layout::{copy_opt, opt_text};
use crate::text::same_text;
use vstd::prelude::*;

verus! {

// ---------------------------------------------------------------------------
// The job
// ---------------------------------------------------------------------------

/// The names of a process as a mathematical value.
pub struct NamesView {
    pub name: Seq<char>,
    pub argv0: Option<Seq<char>>,
}

impl View for ProcessNames {
    type V = NamesView;

    open spec fn view(&self) -> NamesView {
        NamesView { name: self.name@, argv0: opt_text(self.argv0) }
    }
}

/// The names of a process are what the function gives.
pub open spec fn calls<N: Fn(i32) -> ProcessNames>(names: N, nm: spec_fn(i32) -> NamesView) -> bool {
    forall|p: i32, v: ProcessNames| #[trigger] call_ensures(names, (p,), v) ==> v@ == nm(p)
}

/// The configured command that a process runs.
pub open spec fn runs(commands: Seq<Seq<char>>, n: NamesView) -> Option<Seq<char>> {
    matched(commands, n.name, n.argv0)
}

/// The first process of a list that runs a configured command, its names, and the command.
pub open spec fn first_agent(
    commands: Seq<Seq<char>>,
    pids: Seq<i32>,
    nm: spec_fn(i32) -> NamesView,
) -> Option<(i32, NamesView, Seq<char>)>
    decreases pids.len(),
{
    if pids.len() == 0 {
        None
    } else {
        match runs(commands, nm(pids[0])) {
            Some(c) => Some((pids[0], nm(pids[0]), c)),
            None => first_agent(commands, pids.skip(1), nm),
        }
    }
}

/// What was found, as a mathematical value.
pub open spec fn agent_view(r: Option<(i32, ProcessNames, &str)>) -> Option<
    (i32, NamesView, Seq<char>),
> {
    match r {
        Some((p, n, c)) => Some((p, n@, c@)),
        None => None,
    }
}

/// The first process of a job that is a configured agent, with its names and the
/// command. No process behind it is looked at.
pub fn first_match<'a, C: Fn(i32) -> Vec<i32>, N: Fn(i32) -> ProcessNames>(
    rules: &'a AgentRules,
    walk: JobWalk<C>,
    names: N,
) -> (r: Option<(i32, ProcessNames, &'a str)>)
    requires
        walk.wf(),
        forall|p: i32| #[trigger] call_requires(walk.children.function(), (p,)),
        forall|p: i32| #[trigger] call_requires(names, (p,)),
    ensures
        forall|kids: spec_fn(i32) -> Seq<i32>, nm: spec_fn(i32) -> NamesView|
            #[trigger] lists(walk.children.function(), kids) && #[trigger] calls(names, nm) ==> agent_view(r)
                == first_agent(rules@.commands, walk.rest(kids), nm),
        r matches Some((p, n, c)) ==> call_ensures(names, (p,), n) && runs(rules@.commands, n@)
            == Some(c@),
{
    let mut walk2 = walk;
    loop
        invariant
            walk2.wf(),
            walk2.children.function() == walk.children.function(),
            forall|p: i32| #[trigger] call_requires(walk.children.function(), (p,)),
            forall|p: i32| #[trigger] call_requires(names, (p,)),
            forall|kids: spec_fn(i32) -> Seq<i32>, nm: spec_fn(i32) -> NamesView|
                #[trigger] lists(walk.children.function(), kids) && #[trigger] calls(names, nm)
                    ==> first_agent(rules@.commands, walk.rest(kids), nm) == first_agent(
                    rules@.commands,
                    walk2.rest(kids),
                    nm,
                ),
        decreases MAX_CANDIDATES - walk2.yielded,
    {
        match walk2.next() {
            Some(pid) => {
                let n: ProcessNames = names(pid);
                let argv0: Option<&str> = match &n.argv0 {
                    Some(a) => Some(a.as_str()),
                    None => None,
                };
                match rules.match_command(&n.name, argv0) {
                    Some(c) => {
                        return Some((pid, n, c));
                    },
                    None => {},
                }
            },
            None => {
                return None;
            },
        }
    }
}

/// What a sample concluded of a pane's foreground job.
#[derive(Debug)]
pub enum Detected {
    /// The leader itself is a configured agent.
    Leader(String),
    /// Something that the leader started is.
    Descendant { pid: i32, names: ProcessNames, command: String },
    /// Nothing in the job is.
    Nothing,
}

/// What was concluded, as a mathematical value.
pub enum DetectedView {
    Leader(Seq<char>),
    Descendant(i32, NamesView, Seq<char>),
    Nothing,
}

impl View for Detected {
    type V = DetectedView;

    open spec fn view(&self) -> DetectedView {
        match self {
            Detected::Leader(c) => DetectedView::Leader(c@),
            Detected::Descendant { pid, names, command } => DetectedView::Descendant(
                *pid,
                names@,
                command@,
            ),
            Detected::Nothing => DetectedView::Nothing,
        }
    }
}

/// What a job is taken for: the leader is tried first and on its own, then its
/// descendants in the job.
pub open spec fn concluded(
    commands: Seq<Seq<char>>,
    leader: i32,
    kids: spec_fn(i32) -> Seq<i32>,
    nm: spec_fn(i32) -> NamesView,
) -> DetectedView {
    match runs(commands, nm(leader)) {
        Some(c) => DetectedView::Leader(c),
        None => match first_agent(commands, job_order(kids, leader).skip(1), nm) {
            Some((p, n, c)) => DetectedView::Descendant(p, n, c),
            None => DetectedView::Nothing,
        },
    }
}

/// The children of a process that are in the leader's own group. A parked job is in
/// another one, and the pane that it left behind shows a shell.
pub open spec fn in_group(children: Seq<i32>, groups: Seq<Option<i32>>, leader: i32, n: int) -> Seq<i32>
    decreases n,
{
    if n <= 0 {
        Seq::empty()
    } else if groups[n - 1] == Some(leader) {
        in_group(children, groups, leader, n - 1).push(children[n - 1])
    } else {
        in_group(children, groups, leader, n - 1)
    }
}

/// The children of a process that are in the leader's own group.
pub fn same_group(children: &Vec<i32>, groups: &Vec<Option<i32>>, leader: i32) -> (r: Vec<i32>)
    requires
        groups@.len() == children@.len(),
    ensures
        r@ == in_group(children@, groups@, leader, children@.len() as int),
{
    let mut out: Vec<i32> = Vec::new();
    let mut i: usize = 0;
    while i < children.len()
        invariant
            i <= children.len(),
            groups@.len() == children@.len(),
            out@ == in_group(children@, groups@, leader, i as int),
        decreases children.len() - i,
    {
        match groups[i] {
            Some(g) => {
                if g == leader {
                    out.push(children[i]);
                }
            },
            None => {},
        }
        i += 1;
    }
    out
}

/// The agent that runs in the foreground of a pane, if any. `leader_names` are the names
/// of the leader of the foreground job; `children` lists the children of a process that
/// belong to the job, and `names` reads the names of a process. Where the leader is an agent
/// itself, neither has to be callable.
pub fn foreground_command<C: Fn(i32) -> Vec<i32>, N: Fn(i32) -> ProcessNames>(
    leader: i32,
    leader_names: &ProcessNames,
    children: C,
    names: N,
    rules: &AgentRules,
) -> (r: Detected)
    requires
        runs(rules@.commands, leader_names@) is None ==> forall|p: i32| #[trigger]
            call_requires(children, (p,)),
        runs(rules@.commands, leader_names@) is None ==> forall|p: i32| #[trigger]
            call_requires(names, (p,)),
    ensures
        forall|kids: spec_fn(i32) -> Seq<i32>, nm: spec_fn(i32) -> NamesView|
            #[trigger] lists(children, kids) && #[trigger] calls(names, nm) && nm(leader)
                == leader_names@ ==> r@ == concluded(rules@.commands, leader, kids, nm),
        runs(rules@.commands, leader_names@) matches Some(c) ==> r@ == DetectedView::Leader(c),
        r matches Detected::Descendant { pid, names: n, command } ==> call_ensures(
            names,
            (pid,),
            n,
        ) && runs(rules@.commands, n@) == Some(command@),
{
    let argv0: Option<&str> = match &leader_names.argv0 {
        Some(a) => Some(a.as_str()),
        None => None,
    };
    match rules.match_command(&leader_names.name, argv0) {
        Some(c) => {
            return Detected::Leader(c.to_owned());
        },
        None => {},
    }
    let mut walk = job_candidates(leader, children);
    let ghost whole = walk;
    let _ = walk.next();
    assert forall|kids: spec_fn(i32) -> Seq<i32>| #[trigger]
        lists(children, kids) implies walk.rest(kids) == job_order(kids, leader).skip(1) by {
        crate::jobs::law_the_leader_is_tried_first(kids, leader);
        assert(whole.rest(kids) == job_order(kids, leader));
    }
    match first_match(rules, walk, names) {
        Some((pid, found, command)) => Detected::Descendant {
            pid,
            names: found,
            command: command.to_owned(),
        },
        None => Detected::Nothing,
    }
}

// ---------------------------------------------------------------------------
// The log
// ---------------------------------------------------------------------------

/// How many answers are remembered before starting over.
pub const REMEMBERED: usize = 256;

/// An answer that was logged: the leader with its names, the descendant that was found,
/// and what the job was taken for.
#[derive(Debug)]
pub struct Answer {
    pub pid: i32,
    pub name: String,
    pub argv0: Option<String>,
    pub child: Option<i32>,
    pub command: Option<String>,
}

/// An answer as a mathematical value.
pub struct AnswerView {
    pub pid: i32,
    pub names: NamesView,
    pub child: Option<i32>,
    pub command: Option<Seq<char>>,
}

impl View for Answer {
    type V = AnswerView;

    open spec fn view(&self) -> AnswerView {
        AnswerView {
            pid: self.pid,
            names: NamesView { name: self.name@, argv0: opt_text(self.argv0) },
            child: self.child,
            command: opt_text(self.command),
        }
    }
}

/// The answers that were logged lately.
#[derive(Debug)]
pub struct DetectionLog {
    pub seen: Vec<Answer>,
}

impl View for DetectionLog {
    type V = Seq<AnswerView>;

    open spec fn view(&self) -> Seq<AnswerView> {
        Seq::new(self.seen@.len(), |i: int| self.seen@[i]@)
    }
}

/// The answer for a job.
pub open spec fn answer_for(pid: i32, names: NamesView, d: DetectedView) -> AnswerView {
    AnswerView {
        pid,
        names,
        child: match d {
            DetectedView::Descendant(p, _, _) => Some(p),
            _ => None,
        },
        command: match d {
            DetectedView::Leader(c) => Some(c),
            DetectedView::Descendant(_, _, c) => Some(c),
            DetectedView::Nothing => None,
        },
    }
}

/// The ordinary answer, of which nothing is said: the leader by its own name.
pub open spec fn ordinary(a: AnswerView) -> bool {
    a.child is None && a.command == Some(a.names.name)
}

/// The answers remembered after another one, and whether it is logged. They are all
/// forgotten when there are too many.
pub open spec fn remembered(seen: Seq<AnswerView>, a: AnswerView) -> (Seq<AnswerView>, bool) {
    if ordinary(a) {
        (seen, false)
    } else {
        let kept = if seen.len() >= REMEMBERED {
            Seq::empty()
        } else {
            seen
        };
        if kept.contains(a) {
            (kept, false)
        } else {
            (kept.push(a), true)
        }
    }
}

fn same_opt(a: &Option<String>, b: &Option<String>) -> (r: bool)
    ensures
        r == (opt_text(*a) == opt_text(*b)),
{
    match (a, b) {
        (Some(x), Some(y)) => same_text(x, y),
        (None, None) => true,
        _ => false,
    }
}

fn same_pid(a: Option<i32>, b: Option<i32>) -> (r: bool)
    ensures
        r == (a == b),
{
    match (a, b) {
        (Some(x), Some(y)) => x == y,
        (None, None) => true,
        _ => false,
    }
}

impl Answer {
    fn same(&self, other: &Answer) -> (r: bool)
        ensures
            r == (self@ == other@),
    {
        self.pid == other.pid && same_text(&self.name, &other.name) && same_opt(
            &self.argv0,
            &other.argv0,
        ) && same_pid(self.child, other.child) && same_opt(&self.command, &other.command)
    }
}

impl DetectionLog {
    /// Nothing was logged yet.
    pub fn new() -> (r: DetectionLog)
        ensures
            r@ == Seq::<AnswerView>::empty(),
    {
        let r = DetectionLog { seen: Vec::new() };
        assert(r@ =~= Seq::empty());
        r
    }

    /// Whether the answer for a job is to be logged: once per distinct answer, and not
    /// for the ordinary one.
    pub fn log_detection(&mut self, pid: i32, names: &ProcessNames, outcome: &Detected) -> (r: bool)
        ensures
            (final(self)@, r) == remembered(old(self)@, answer_for(pid, names@, outcome@)),
    {
        let (child, command): (Option<i32>, Option<String>) = match outcome {
            Detected::Leader(c) => (None, Some(c.clone())),
            Detected::Descendant { pid, command, .. } => (Some(*pid), Some(command.clone())),
            Detected::Nothing => (None, None),
        };
        let a = Answer {
            pid,
            name: names.name.clone(),
            argv0: copy_opt(&names.argv0),
            child,
            command,
        };
        assert(a@ == answer_for(pid, names@, outcome@));
        let own: bool = match &a.command {
            Some(c) => same_text(c, &a.name),
            None => false,
        };
        if a.child.is_none() && own {
            return false;
        }
        if self.seen.len() >= REMEMBERED {
            self.seen.clear();
            assert(self@ =~= Seq::empty());
        }
        let ghost kept = self@;
        let mut i: usize = 0;
        while i < self.seen.len()
            invariant
                i <= self.seen.len(),
                self@ == kept,
                a@ == answer_for(pid, names@, outcome@),
                !ordinary(a@),
                kept == (if old(self)@.len() >= REMEMBERED {
                    Seq::empty()
                } else {
                    old(self)@
                }),
                forall|k: int| 0 <= k < i ==> (#[trigger] kept[k]) != a@,
            decreases self.seen.len() - i,
        {
            if self.seen[i].same(&a) {
                assert(kept[i as int] == a@);
                return false;
            }
            i += 1;
        }
        self.seen.push(a);
        assert(self@ =~= kept.push(answer_for(pid, names@, outcome@)));
        true
    }
}

// ---------------------------------------------------------------------------
// Laws
// ---------------------------------------------------------------------------

/// The same answer is not logged twice in a row, however often the pane is sampled.
pub proof fn law_an_answer_is_logged_once(seen: Seq<AnswerView>, a: AnswerView)
    ensures
        remembered(seen, a).1 && remembered(seen, a).0.len() < REMEMBERED ==> !remembered(
            remembered(seen, a).0,
            a,
        ).1,
        ordinary(a) ==> remembered(seen, a) == (seen, false),
        seen.len() <= REMEMBERED ==> remembered(seen, a).0.len() <= REMEMBERED,
{
    let after = remembered(seen, a).0;
    if remembered(seen, a).1 {
        assert(after.last() == a);
        assert(after.contains(a));
    }
}

/// A configured leader is never overruled by what it started, and what is found is a
/// configured command of a process in the job.
pub proof fn law_a_configured_leader_decides(
    commands: Seq<Seq<char>>,
    leader: i32,
    kids: spec_fn(i32) -> Seq<i32>,
    nm: spec_fn(i32) -> NamesView,
)
    ensures
        runs(commands, nm(leader)) matches Some(c) ==> concluded(commands, leader, kids, nm)
            == DetectedView::Leader(c),
        concluded(commands, leader, kids, nm) matches DetectedView::Descendant(p, _, c)
            ==> job_order(kids, leader).contains(p) && runs(commands, nm(p)) == Some(c),
{
    let below = job_order(kids, leader).skip(1);
    lemma_first_agent(commands, below, nm);
    if let Some((p, _, c)) = first_agent(commands, below, nm) {
        let i = choose|i: int| 0 <= i < below.len() && below[i] == p;
        assert(job_order(kids, leader)[i + 1] == p);
    }
}

proof fn lemma_first_agent(
    commands: Seq<Seq<char>>,
    pids: Seq<i32>,
    nm: spec_fn(i32) -> NamesView,
)
    ensures
        first_agent(commands, pids, nm) matches Some((p, _, c)) ==> pids.contains(p) && runs(
            commands,
            nm(p),
        ) == Some(c),
    decreases pids.len(),
{
    if pids.len() > 0 {
        if runs(commands, nm(pids[0])) is None {
            lemma_first_agent(commands, pids.skip(1), nm);
            if let Some((p, _, _)) = first_agent(commands, pids.skip(1), nm) {
                let i = choose|i: int| 0 <= i < pids.skip(1).len() && pids.skip(1)[i] == p;
                assert(pids[i + 1] == p);
            }
        } else {
            assert(pids[0] == (first_agent(commands, pids, nm)->0).0);
        }
    }
}

} // verus!
