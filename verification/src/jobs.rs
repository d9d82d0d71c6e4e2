//! The processes of a foreground job, in the order in which they are tried.

use crate::lookup::Lookup;
use vstd::prelude::*;

verus! {

/// How many generations below the leader are looked at.
pub const MAX_DEPTH: u32 = 3;

/// How many processes are tried, the leader included.
pub const MAX_CANDIDATES: usize = 32;

/// The children of the first `n` processes of a generation, one after the other.
pub open spec fn children_of(kids: spec_fn(i32) -> Seq<i32>, parents: Seq<i32>, n: int) -> Seq<i32>
    decreases n,
{
    if n <= 0 {
        Seq::empty()
    } else {
        children_of(kids, parents, n - 1) + kids(parents[n - 1])
    }
}

/// The generations below one, `left` of them, one after the other.
pub open spec fn generations(kids: spec_fn(i32) -> Seq<i32>, parents: Seq<i32>, left: nat) -> Seq<i32>
    decreases left,
{
    if left == 0 {
        Seq::empty()
    } else {
        let next = children_of(kids, parents, parents.len() as int);
        next + generations(kids, next, (left - 1) as nat)
    }
}

/// The first `n` of a list, or all of it.
pub open spec fn at_most(s: Seq<i32>, n: int) -> Seq<i32> {
    if n <= 0 {
        Seq::empty()
    } else if n < s.len() {
        s.take(n)
    } else {
        s
    }
}

/// A job's processes: the leader, then its descendants generation by generation, as far as
/// they are tried.
pub open spec fn job_order(kids: spec_fn(i32) -> Seq<i32>, leader: i32) -> Seq<i32> {
    at_most(
        seq![leader] + generations(kids, seq![leader], MAX_DEPTH as nat),
        MAX_CANDIDATES as int,
    )
}

/// The children of a process are what the function gives.
pub open spec fn lists<F: Fn(i32) -> Vec<i32>>(children: F, kids: spec_fn(i32) -> Seq<i32>) -> bool {
    forall|p: i32, v: Vec<i32>| #[trigger] call_ensures(children, (p,), v) ==> v@ == kids(p)
}

/// How many processes of a generation have to be asked for their children, after the first
/// `n` of them were: all of it, or as many as give as many children as can be tried.
pub open spec fn asked_of(kids: spec_fn(i32) -> Seq<i32>, parents: Seq<i32>, n: int) -> int
    decreases parents.len() - n,
{
    if n >= parents.len() || children_of(kids, parents, n).len() >= MAX_CANDIDATES {
        n
    } else {
        asked_of(kids, parents, n + 1)
    }
}

/// The processes that a walk asks for their children, one for each call. Of a generation,
/// those from `from` on are still to be tried; `left` generations below it and `room`
/// processes are within the bounds.
pub open spec fn lookups(
    kids: spec_fn(i32) -> Seq<i32>,
    generation: Seq<i32>,
    from: int,
    left: nat,
    room: int,
) -> Seq<i32>
    decreases left,
{
    let ahead = generation.len() - from;
    if generation.len() == 0 || left == 0 || room <= ahead {
        Seq::empty()
    } else {
        let n = asked_of(kids, generation, 0);
        generation.take(n) + lookups(
            kids,
            children_of(kids, generation, n),
            0,
            (left - 1) as nat,
            room - ahead,
        )
    }
}

/// The processes of a job that are asked for their children, one for each call.
pub open spec fn job_lookups(kids: spec_fn(i32) -> Seq<i32>, leader: i32) -> Seq<i32> {
    lookups(kids, seq![leader], 0, MAX_DEPTH as nat, MAX_CANDIDATES as int)
}

/// The list is the whole, or a beginning of it that no bound lets one pass.
pub open spec fn is_enough(part: Seq<i32>, whole: Seq<i32>) -> bool {
    part == whole || (part.len() >= MAX_CANDIDATES && part.is_prefix_of(whole))
}

proof fn lemma_children_grow(
    kids: spec_fn(i32) -> Seq<i32>,
    parents: Seq<i32>,
    n: int,
    m: int,
)
    requires
        n <= m,
    ensures
        children_of(kids, parents, n).is_prefix_of(children_of(kids, parents, m)),
    decreases m - n,
{
    let part = children_of(kids, parents, n);
    if n < m && m > 0 {
        lemma_children_grow(kids, parents, n, m - 1);
        assert(part =~= children_of(kids, parents, m).subrange(0, part.len() as int));
    } else {
        assert(part =~= children_of(kids, parents, m).subrange(0, part.len() as int));
    }
}

/// As many processes are asked as are needed, and what they give is enough.
proof fn lemma_asked_of(kids: spec_fn(i32) -> Seq<i32>, parents: Seq<i32>, n: int)
    requires
        0 <= n <= parents.len(),
    ensures
        n <= asked_of(kids, parents, n) <= parents.len(),
        is_enough(
            children_of(kids, parents, asked_of(kids, parents, n)),
            children_of(kids, parents, parents.len() as int),
        ),
    decreases parents.len() - n,
{
    if n < parents.len() && children_of(kids, parents, n).len() < MAX_CANDIDATES {
        lemma_asked_of(kids, parents, n + 1);
    } else {
        lemma_children_grow(kids, parents, n, parents.len() as int);
    }
}

proof fn lemma_nobody_has_children(kids: spec_fn(i32) -> Seq<i32>, left: nat)
    ensures
        generations(kids, Seq::empty(), left) == Seq::<i32>::empty(),
    decreases left,
{
    if left > 0 {
        lemma_nobody_has_children(kids, (left - 1) as nat);
    }
}

/// A walk through a job. A generation is only asked for when the one before it is
/// exhausted.
pub struct JobWalk<F> {
    pub frontier: Vec<i32>,
    pub next: usize,
    pub depth: u32,
    pub yielded: usize,
    /// The walk is over for good.
    pub done: bool,
    pub children: Lookup<F>,
}

/// The foreground job's processes in the order in which they should be tried.
/// `children` lists the children of a process.
pub fn job_candidates<F: Fn(i32) -> Vec<i32>>(leader: i32, children: F) -> (r: JobWalk<F>)
    ensures
        r.starts(leader, children),
        forall|kids: spec_fn(i32) -> Seq<i32>| #[trigger] r.rest(kids) == job_order(kids, leader),
        forall|kids: spec_fn(i32) -> Seq<i32>| #[trigger]
            r.to_ask(kids) == job_lookups(kids, leader),
{
    let mut frontier: Vec<i32> = Vec::new();
    frontier.push(leader);
    assert(frontier@ =~= seq![leader]);
    let r = JobWalk {
        frontier,
        next: 0,
        depth: 0,
        yielded: 0,
        done: false,
        children: Lookup::new(children),
    };
    assert forall|kids: spec_fn(i32) -> Seq<i32>| #[trigger]
        r.rest(kids) == job_order(kids, leader) by {
        assert(r.frontier@.skip(0) =~= seq![leader]);
    }
    r
}

impl<F: Fn(i32) -> Vec<i32>> JobWalk<F> {
    /// The place in the generation is in range, and no bound is passed.
    pub open spec fn wf(self) -> bool {
        &&& self.next <= self.frontier@.len()
        &&& self.depth <= MAX_DEPTH
        &&& self.yielded <= MAX_CANDIDATES
    }

    /// A walk from a leader that has not begun.
    pub open spec fn starts(self, leader: i32, children: F) -> bool {
        &&& self.wf()
        &&& self.children.function() == children
        &&& self.children.asked() == Seq::<i32>::empty()
        &&& self.frontier@ == seq![leader]
        &&& self.next == 0 && self.depth == 0 && self.yielded == 0 && !self.done
    }

    /// What the walk still leads to, if the children are given by `kids`.
    pub open spec fn rest(self, kids: spec_fn(i32) -> Seq<i32>) -> Seq<i32> {
        if self.done {
            Seq::empty()
        } else {
            at_most(
                self.frontier@.skip(self.next as int) + generations(
                    kids,
                    self.frontier@,
                    (MAX_DEPTH - self.depth) as nat,
                ),
                MAX_CANDIDATES - self.yielded,
            )
        }
    }

    /// Which processes the walk will ask for their children, one for each call, if the
    /// children are given by `kids`.
    pub open spec fn to_ask(self, kids: spec_fn(i32) -> Seq<i32>) -> Seq<i32> {
        if self.done {
            Seq::empty()
        } else {
            lookups(
                kids,
                self.frontier@,
                self.next as int,
                (MAX_DEPTH - self.depth) as nat,
                MAX_CANDIDATES - self.yielded,
            )
        }
    }

    /// The next poll needs the children of the generation: all of it was tried, and no
    /// bound is reached.
    pub open spec fn asks(self) -> bool {
        &&& !self.done
        &&& self.yielded < MAX_CANDIDATES
        &&& self.next == self.frontier@.len()
        &&& self.depth < MAX_DEPTH
    }

    /// The function can be asked for the children of every process of the generation.
    pub open spec fn answers(self) -> bool {
        forall|k: int|
            0 <= k < self.frontier@.len() ==> call_requires(
                self.children.function(),
                (#[trigger] self.frontier@[k],),
            )
    }

    /// The calls since an earlier time are those for the first processes of its generation,
    /// one each, at least one.
    pub open spec fn asked_some(self, now: Self) -> bool {
        exists|n: int|
            {
                &&& 0 <= n <= self.frontier@.len()
                &&& self.frontier@.len() > 0 ==> n > 0
                &&& now.children.asked() == self.children.asked() + #[trigger] self.frontier@.take(n)
            }
    }

    /// One poll, from this state to another, gives `r`.
    pub open spec fn polled(self, now: Self, r: Option<i32>) -> bool {
        &&& now.wf()
        &&& now.children.function() == self.children.function()
        &&& r is Some ==> !now.done && now.yielded == self.yielded + 1
        &&& r is None ==> now.done && now.yielded == self.yielded
        &&& self.done ==> r is None && now == self
        &&& !self.asks() ==> now.frontier == self.frontier && now.depth == self.depth
            && now.children == self.children
        &&& self.asks() ==> self.asked_some(now) && now.depth == self.depth + 1
        &&& self.next < self.frontier@.len() && !self.done && self.yielded < MAX_CANDIDATES ==> r
            == Some(self.frontier@[self.next as int]) && now.next == self.next + 1
        &&& self.yielded >= MAX_CANDIDATES || (self.next == self.frontier@.len() && !self.asks())
            ==> r is None
        &&& self.asks() && r is Some ==> now.frontier@.len() > 0 && r == Some(now.frontier@[0])
            && now.next == 1
        &&& forall|kids: spec_fn(i32) -> Seq<i32>| #[trigger]
            lists(self.children.function(), kids) ==> self.leads(now, r, kids)
    }

    /// One poll gives the first of what is left, and what was asked is the first of what
    /// was to be asked.
    pub open spec fn leads(self, now: Self, r: Option<i32>, kids: spec_fn(i32) -> Seq<i32>) -> bool {
        &&& now.children.asked() + now.to_ask(kids) == self.children.asked() + self.to_ask(kids)
        &&& match r {
            Some(p) => {
                &&& self.rest(kids).len() > 0
                &&& p == self.rest(kids)[0]
                &&& now.rest(kids) == self.rest(kids).skip(1)
            },
            None => self.rest(kids).len() == 0 && now.rest(kids).len() == 0,
        }
    }

    /// The children of a generation, as many as can be tried at least. Each process is
    /// asked once, and none behind the last that is needed.
    fn expand(&mut self) -> (r: Vec<i32>)
        requires
            old(self).answers(),
        ensures
            final(self).frontier == old(self).frontier,
            final(self).next == old(self).next,
            final(self).depth == old(self).depth,
            final(self).yielded == old(self).yielded,
            final(self).done == old(self).done,
            final(self).children.function() == old(self).children.function(),
            old(self).asked_some(*final(self)),
            forall|kids: spec_fn(i32) -> Seq<i32>| #[trigger]
                lists(old(self).children.function(), kids) ==> {
                    let n = asked_of(kids, old(self).frontier@, 0);
                    &&& r@ == children_of(kids, old(self).frontier@, n)
                    &&& final(self).children.asked() == old(self).children.asked()
                        + old(self).frontier@.take(n)
                },
    {
        let ghost was = *self;
        let ghost f = self.children.function();
        let ghost parents = self.frontier@;
        let mut found: Vec<i32> = Vec::new();
        let mut i: usize = 0;
        while i < self.frontier.len() && found.len() < MAX_CANDIDATES
            invariant
                i <= self.frontier.len(),
                self.answers(),
                self.frontier == was.frontier,
                self.next == was.next,
                self.depth == was.depth,
                self.yielded == was.yielded,
                self.done == was.done,
                parents == was.frontier@,
                f == was.children.function(),
                self.children.function() == f,
                self.children.asked() == was.children.asked() + parents.take(i as int),
                i == 0 ==> found@.len() == 0,
                forall|kids: spec_fn(i32) -> Seq<i32>| #[trigger]
                    lists(f, kids) ==> found@ == children_of(kids, parents, i as int)
                        && asked_of(kids, parents, 0) == asked_of(kids, parents, i as int),
            decreases self.frontier.len() - i,
        {
            let ghost before = self.children.asked();
            let mut more: Vec<i32> = self.children.ask(self.frontier[i]);
            let ghost kin = more@;
            assert(forall|kids: spec_fn(i32) -> Seq<i32>| #[trigger]
                lists(f, kids) ==> kin == kids(parents[i as int]));
            found.append(&mut more);
            i += 1;
            assert(parents.take(i as int) =~= parents.take(i - 1).push(parents[i - 1]));
            assert(self.children.asked() =~= was.children.asked() + parents.take(i as int));
        }
        found
    }

    /// The next generation takes the place of one that is exhausted.
    proof fn lemma_refilled(was: Self, now: Self, kids: spec_fn(i32) -> Seq<i32>)
        requires
            was.wf(),
            !was.done,
            was.next == was.frontier@.len(),
            was.depth < MAX_DEPTH,
            was.yielded < MAX_CANDIDATES,
            now.frontier@ == children_of(kids, was.frontier@, asked_of(kids, was.frontier@, 0)),
            now.next == 0,
            now.depth == was.depth + 1,
            now.yielded == was.yielded,
            !now.done,
        ensures
            now.rest(kids) == was.rest(kids),
            now.frontier@.len() == 0 ==> was.rest(kids).len() == 0,
            was.to_ask(kids) == was.frontier@.take(asked_of(kids, was.frontier@, 0))
                + now.to_ask(kids),
            now.frontier@.len() == 0 ==> now.to_ask(kids).len() == 0,
    {
        lemma_asked_of(kids, was.frontier@, 0);
        assert(was.frontier@.len() == 0 ==> was.frontier@.take(0) + now.to_ask(kids)
            =~= was.to_ask(kids));
        let left = (MAX_DEPTH - was.depth) as nat;
        let all = children_of(kids, was.frontier@, was.frontier@.len() as int);
        assert(now.frontier@.skip(0) =~= now.frontier@);
        assert(was.frontier@.skip(was.next as int) =~= Seq::<i32>::empty());
        let below = generations(kids, was.frontier@, left);
        assert(Seq::<i32>::empty() + below =~= below);
        assert(below == all + generations(kids, all, (left - 1) as nat));
        if now.frontier@ != all {
            assert(now.rest(kids) =~= was.rest(kids));
        }
        if now.frontier@.len() == 0 {
            lemma_nobody_has_children(kids, (left - 1) as nat);
            assert(all =~= Seq::<i32>::empty());
        }
    }

    /// One process taken from a generation.
    proof fn lemma_taken(was: Self, now: Self, kids: spec_fn(i32) -> Seq<i32>)
        requires
            was.wf(),
            !was.done,
            was.next < was.frontier@.len(),
            was.yielded < MAX_CANDIDATES,
            now.frontier@ == was.frontier@,
            now.next == was.next + 1,
            now.depth == was.depth,
            now.yielded == was.yielded + 1,
            !now.done,
        ensures
            was.rest(kids).len() > 0,
            was.rest(kids)[0] == was.frontier@[was.next as int],
            now.rest(kids) == was.rest(kids).skip(1),
            now.to_ask(kids) == was.to_ask(kids),
    {
        let below = generations(kids, was.frontier@, (MAX_DEPTH - was.depth) as nat);
        let whole = was.frontier@.skip(was.next as int) + below;
        assert(now.frontier@.skip(now.next as int) + below =~= whole.skip(1));
        assert(now.rest(kids) =~= was.rest(kids).skip(1));
    }

    /// A walk that cannot go on.
    proof fn lemma_over(was: Self, kids: spec_fn(i32) -> Seq<i32>)
        requires
            was.wf(),
            was.done || was.yielded >= MAX_CANDIDATES || (was.next == was.frontier@.len()
                && was.depth >= MAX_DEPTH),
        ensures
            was.rest(kids).len() == 0,
            was.to_ask(kids) == Seq::<i32>::empty(),
    {
    }

    /// The next process of the job. After the last one there is none, however often one
    /// asks. The children of a generation are only asked for once all of it was tried: at
    /// no other time does the function have to be callable.
    pub fn next(&mut self) -> (r: Option<i32>)
        requires
            old(self).wf(),
            old(self).asks() ==> old(self).answers(),
        ensures
            old(self).polled(*final(self), r),
    {
        let ghost first = *self;
        if self.done || self.yielded >= MAX_CANDIDATES || (self.next == self.frontier.len()
            && self.depth >= MAX_DEPTH) {
            self.done = true;
            assert forall|kids: spec_fn(i32) -> Seq<i32>| #[trigger]
                lists(first.children.function(), kids) implies first.rest(kids).len() == 0
                && self.rest(kids).len() == 0 && first.to_ask(kids) == self.to_ask(kids) by {
                Self::lemma_over(first, kids);
                Self::lemma_over(*self, kids);
            }
            return None;
        }
        if self.next == self.frontier.len() {
            let deeper = self.expand();
            self.frontier = deeper;
            self.next = 0;
            self.depth = self.depth + 1;
            let ghost now = *self;
            assert forall|kids: spec_fn(i32) -> Seq<i32>| #[trigger]
                lists(first.children.function(), kids) implies now.rest(kids) == first.rest(kids)
                && now.children.asked() + now.to_ask(kids) == first.children.asked()
                + first.to_ask(kids) && (now.frontier@.len() == 0 ==> first.rest(kids).len() == 0
                && now.to_ask(kids).len() == 0) by {
                Self::lemma_refilled(first, now, kids);
                assert(now.children.asked() + now.to_ask(kids) =~= first.children.asked()
                    + first.to_ask(kids));
            }
            if self.frontier.len() == 0 {
                self.done = true;
                return None;
            }
        }
        let ghost was = *self;
        let pid: i32 = self.frontier[self.next];
        self.next = self.next + 1;
        self.yielded = self.yielded + 1;
        assert forall|kids: spec_fn(i32) -> Seq<i32>| #[trigger]
            lists(first.children.function(), kids) implies first.rest(kids).len() > 0
            && first.rest(kids)[0] == pid && self.rest(kids) == first.rest(kids).skip(1)
            && self.to_ask(kids) == was.to_ask(kids) by {
            Self::lemma_taken(was, *self, kids);
        }
        Some(pid)
    }

    /// All that is left of the walk.
    pub fn collect(self) -> (r: Vec<i32>)
        requires
            self.wf(),
            forall|p: i32| #[trigger] call_requires(self.children.function(), (p,)),
        ensures
            r@.len() <= MAX_CANDIDATES - self.yielded,
            forall|kids: spec_fn(i32) -> Seq<i32>| #[trigger]
                lists(self.children.function(), kids) ==> r@ == self.rest(kids),
    {
        let mut walk = self;
        let mut out: Vec<i32> = Vec::new();
        loop
            invariant
                walk.wf(),
                walk.children.function() == self.children.function(),
                out@.len() + self.yielded == walk.yielded,
                forall|p: i32| #[trigger] call_requires(self.children.function(), (p,)),
                forall|kids: spec_fn(i32) -> Seq<i32>| #[trigger]
                    lists(self.children.function(), kids) ==> self.rest(kids) == out@ + walk.rest(kids),
            decreases MAX_CANDIDATES - walk.yielded,
        {
            let ghost was = walk;
            let ghost had = out@;
            match walk.next() {
                Some(p) => {
                    out.push(p);
                    assert forall|kids: spec_fn(i32) -> Seq<i32>| #[trigger]
                        lists(self.children.function(), kids) implies self.rest(kids) == out@ + walk.rest(
                        kids,
                    ) by {
                        assert(had + was.rest(kids) =~= out@ + walk.rest(kids));
                    }
                },
                None => {
                    assert forall|kids: spec_fn(i32) -> Seq<i32>| #[trigger]
                        lists(self.children.function(), kids) implies out@ == self.rest(kids) by {
                        assert(out@ + was.rest(kids) =~= out@);
                    }
                    return out;
                },
            }
        }
    }
}

// ---------------------------------------------------------------------------
// Laws
// ---------------------------------------------------------------------------

/// The leader comes first, and no more processes are tried than allowed.
pub proof fn law_the_leader_is_tried_first(kids: spec_fn(i32) -> Seq<i32>, leader: i32)
    ensures
        0 < job_order(kids, leader).len() <= MAX_CANDIDATES,
        job_order(kids, leader)[0] == leader,
{
}

/// `p` is at most `depth` generations below the leader.
pub open spec fn descends(
    kids: spec_fn(i32) -> Seq<i32>,
    leader: i32,
    p: i32,
    depth: nat,
) -> bool
    decreases depth,
{
    p == leader || (depth > 0 && exists|q: i32|
        descends(kids, leader, q, (depth - 1) as nat) && #[trigger] kids(q).contains(p))
}

proof fn lemma_deeper(kids: spec_fn(i32) -> Seq<i32>, leader: i32, p: i32, a: nat, b: nat)
    requires
        descends(kids, leader, p, a),
        a <= b,
    ensures
        descends(kids, leader, p, b),
    decreases a,
{
    if p != leader {
        let q = choose|q: i32|
            descends(kids, leader, q, (a - 1) as nat) && #[trigger] kids(q).contains(p);
        lemma_deeper(kids, leader, q, (a - 1) as nat, (b - 1) as nat);
    }
}

proof fn lemma_children_descend(
    kids: spec_fn(i32) -> Seq<i32>,
    leader: i32,
    parents: Seq<i32>,
    n: int,
    depth: nat,
    k: int,
)
    requires
        0 <= n <= parents.len(),
        0 <= k < children_of(kids, parents, n).len(),
        forall|j: int| 0 <= j < parents.len() ==> descends(kids, leader, #[trigger] parents[j], depth),
    ensures
        descends(kids, leader, children_of(kids, parents, n)[k], depth + 1),
    decreases n,
{
    let before = children_of(kids, parents, n - 1);
    if k < before.len() {
        lemma_children_descend(kids, leader, parents, n - 1, depth, k);
    } else {
        let p = children_of(kids, parents, n)[k];
        assert(descends(kids, leader, parents[n - 1], depth));
        assert(kids(parents[n - 1])[k - before.len()] == p);
        assert(kids(parents[n - 1]).contains(p));
    }
}

proof fn lemma_generations(
    kids: spec_fn(i32) -> Seq<i32>,
    leader: i32,
    parents: Seq<i32>,
    left: nat,
    depth: nat,
    k: int,
)
    requires
        0 <= k < generations(kids, parents, left).len(),
        forall|j: int| 0 <= j < parents.len() ==> descends(kids, leader, #[trigger] parents[j], depth),
    ensures
        descends(kids, leader, generations(kids, parents, left)[k], depth + left),
    decreases left,
{
    let next = children_of(kids, parents, parents.len() as int);
    assert forall|j: int| 0 <= j < next.len() implies descends(
        kids,
        leader,
        #[trigger] next[j],
        depth + 1,
    ) by {
        lemma_children_descend(kids, leader, parents, parents.len() as int, depth, j);
    }
    if k < next.len() {
        lemma_deeper(kids, leader, next[k], depth + 1, depth + left);
    } else {
        lemma_generations(kids, leader, next, (left - 1) as nat, depth + 1, k - next.len());
    }
}

/// Every process that is tried belongs to the job, not too far below its leader.
pub proof fn law_the_walk_stays_in_the_job(kids: spec_fn(i32) -> Seq<i32>, leader: i32, k: int)
    requires
        0 <= k < job_order(kids, leader).len(),
    ensures
        descends(kids, leader, job_order(kids, leader)[k], MAX_DEPTH as nat),
{
    let start = seq![leader];
    if k > 0 {
        assert forall|j: int| 0 <= j < start.len() implies descends(
            kids,
            leader,
            #[trigger] start[j],
            0,
        ) by {}
        lemma_generations(kids, leader, start, MAX_DEPTH as nat, 0, k - 1);
    }
}

/// The walk is the beginning of the whole job, generation by generation: where it breaks
/// off early, only processes behind the bound are left out.
pub proof fn law_the_walk_is_breadth_first(kids: spec_fn(i32) -> Seq<i32>, leader: i32)
    ensures
        ({
            let whole = seq![leader] + generations(kids, seq![leader], MAX_DEPTH as nat);
            &&& job_order(kids, leader).is_prefix_of(whole)
            &&& job_order(kids, leader).len() < whole.len() ==> job_order(kids, leader).len()
                == MAX_CANDIDATES
        }),
{
    let whole = seq![leader] + generations(kids, seq![leader], MAX_DEPTH as nat);
    let walk = job_order(kids, leader);
    assert(walk =~= whole.subrange(0, walk.len() as int));
}

/// A walk from a leader that was polled again and again: `polls[i]` is what the poll from
/// `states[i]` to `states[i + 1]` gave.
pub open spec fn is_run<F: Fn(i32) -> Vec<i32>>(
    leader: i32,
    children: F,
    states: Seq<JobWalk<F>>,
    polls: Seq<Option<i32>>,
) -> bool {
    &&& states.len() == polls.len() + 1
    &&& states[0].starts(leader, children)
    &&& forall|i: int|
        0 <= i < polls.len() ==> states[i].polled(states[i + 1], #[trigger] polls[i])
}

/// The last polls gave what was tried of the generation.
spec fn just_tried<F>(w: JobWalk<F>, polls: Seq<Option<i32>>, i: int) -> bool {
    &&& w.next <= i
    &&& forall|k: int|
        0 <= k < w.next ==> #[trigger] polls[i - w.next + k] == Some(w.frontier@[k])
}

proof fn lemma_just_tried<F: Fn(i32) -> Vec<i32>>(
    leader: i32,
    children: F,
    states: Seq<JobWalk<F>>,
    polls: Seq<Option<i32>>,
    i: int,
)
    requires
        is_run(leader, children, states, polls),
        0 <= i <= polls.len(),
    ensures
        states[i].wf(),
        states[i].children.function() == children,
        !states[i].done ==> states[i].frontier@.len() > 0 && just_tried(states[i], polls, i),
    decreases i,
{
    if i > 0 {
        lemma_just_tried(leader, children, states, polls, i - 1);
        let was = states[i - 1];
        let now = states[i];
        assert(was.polled(now, polls[i - 1]));
        if !now.done {
            if was.next < was.frontier@.len() {
                assert forall|k: int| 0 <= k < now.next implies #[trigger] polls[i - now.next + k]
                    == Some(now.frontier@[k]) by {
                    if k < was.next {
                        assert(polls[(i - 1) - was.next + k] == Some(was.frontier@[k]));
                    }
                }
            } else {
                assert(was.asks() && now.next == 1);
            }
        }
    }
}

proof fn lemma_asked_so_far<F: Fn(i32) -> Vec<i32>>(
    kids: spec_fn(i32) -> Seq<i32>,
    leader: i32,
    children: F,
    states: Seq<JobWalk<F>>,
    polls: Seq<Option<i32>>,
    i: int,
)
    requires
        is_run(leader, children, states, polls),
        lists(children, kids),
        0 <= i <= polls.len(),
    ensures
        states[i].children.asked() + states[i].to_ask(kids) == job_lookups(kids, leader),
    decreases i,
{
    if i > 0 {
        lemma_asked_so_far(kids, leader, children, states, polls, i - 1);
        lemma_just_tried(leader, children, states, polls, i - 1);
        assert(states[i - 1].polled(states[i], polls[i - 1]));
        assert(lists(states[i - 1].children.function(), kids));
    } else {
        assert(states[0].children.asked() + states[0].to_ask(kids) =~= job_lookups(kids, leader));
    }
}

proof fn lemma_stays_over<F: Fn(i32) -> Vec<i32>>(
    leader: i32,
    children: F,
    states: Seq<JobWalk<F>>,
    polls: Seq<Option<i32>>,
    i: int,
    j: int,
)
    requires
        is_run(leader, children, states, polls),
        0 <= i <= j < polls.len(),
        polls[i] is None,
    ensures
        polls[j] is None,
        states[j + 1] == states[i + 1],
        states[j + 1].done,
    decreases j,
{
    assert(states[i].polled(states[i + 1], polls[i]));
    if i < j {
        lemma_stays_over(leader, children, states, polls, i, j - 1);
        assert(states[j].polled(states[j + 1], polls[j]));
    }
}

/// The first poll gives the leader, and asks for nobody's children.
pub proof fn law_the_leader_costs_no_lookup<F: Fn(i32) -> Vec<i32>>(
    leader: i32,
    children: F,
    states: Seq<JobWalk<F>>,
    polls: Seq<Option<i32>>,
)
    requires
        is_run(leader, children, states, polls),
        polls.len() > 0,
    ensures
        polls[0] == Some(leader),
        states[1].children.asked() == Seq::<i32>::empty(),
{
    assert(states[0].polled(states[1], polls[0]));
}

/// Children are asked for as late as can be: where a poll asks at all, the polls before it
/// gave the whole generation, and it asks each of its first processes once, in order.
pub proof fn law_a_generation_is_asked_once_it_is_exhausted<F: Fn(i32) -> Vec<i32>>(
    leader: i32,
    children: F,
    states: Seq<JobWalk<F>>,
    polls: Seq<Option<i32>>,
    i: int,
)
    requires
        is_run(leader, children, states, polls),
        0 <= i < polls.len(),
        states[i + 1].children.asked() != states[i].children.asked(),
    ensures
        ({
            let generation = states[i].frontier@;
            &&& generation.len() <= i
            &&& polls.subrange(i - generation.len(), i) == Seq::new(
                generation.len(),
                |k: int| Some(generation[k]),
            )
            &&& states[i].asked_some(states[i + 1])
        }),
{
    lemma_just_tried(leader, children, states, polls, i);
    assert(states[i].polled(states[i + 1], polls[i]));
    let w = states[i];
    let g = w.frontier@;
    assert(w.asks());
    assert forall|k: int| 0 <= k < g.len() implies polls.subrange(i - g.len(), i)[k] == Some(
        g[k],
    ) by {
        assert(polls[i - w.next + k] == Some(w.frontier@[k]));
    }
    assert(polls.subrange(i - g.len(), i) =~= Seq::new(g.len(), |k: int| Some(g[k])));
}

/// After a poll that gives nothing, every later one gives nothing, and nobody's children
/// are asked for any more.
pub proof fn law_an_ended_walk_stays_ended<F: Fn(i32) -> Vec<i32>>(
    leader: i32,
    children: F,
    states: Seq<JobWalk<F>>,
    polls: Seq<Option<i32>>,
    i: int,
    j: int,
)
    requires
        is_run(leader, children, states, polls),
        0 <= i <= j < polls.len(),
        polls[i] is None,
    ensures
        polls[j] is None,
        states[j + 1].children.asked() == states[i + 1].children.asked(),
{
    lemma_stays_over(leader, children, states, polls, i, j);
}

/// What a walk asks is fixed by the job: never more than the job's lookups, in their order,
/// and all of them once it has ended.
pub proof fn law_every_lookup_is_made_once<F: Fn(i32) -> Vec<i32>>(
    kids: spec_fn(i32) -> Seq<i32>,
    leader: i32,
    children: F,
    states: Seq<JobWalk<F>>,
    polls: Seq<Option<i32>>,
    i: int,
)
    requires
        is_run(leader, children, states, polls),
        lists(children, kids),
        0 <= i < polls.len(),
    ensures
        states[i + 1].children.asked().is_prefix_of(job_lookups(kids, leader)),
        polls[i] is None ==> states[i + 1].children.asked() == job_lookups(kids, leader),
{
    lemma_asked_so_far(kids, leader, children, states, polls, i + 1);
    let asked = states[i + 1].children.asked();
    assert(asked =~= job_lookups(kids, leader).subrange(0, asked.len() as int));
    if polls[i] is None {
        lemma_stays_over(leader, children, states, polls, i, i);
        assert(asked =~= asked + states[i + 1].to_ask(kids));
    }
}

proof fn lemma_childless(kids: spec_fn(i32) -> Seq<i32>, leader: i32)
    requires
        kids(leader).len() == 0,
    ensures
        job_order(kids, leader) == seq![leader],
        job_lookups(kids, leader) == seq![leader],
{
    let start = seq![leader];
    assert(start[0] == leader);
    assert(children_of(kids, start, 0) =~= Seq::<i32>::empty());
    assert(children_of(kids, start, 1) =~= Seq::<i32>::empty());
    lemma_nobody_has_children(kids, (MAX_DEPTH - 1) as nat);
    assert(generations(kids, start, MAX_DEPTH as nat) =~= Seq::<i32>::empty());
    assert(job_order(kids, leader) =~= start);
    reveal_with_fuel(lookups, 2);
    assert(asked_of(kids, start, 1) == 1);
    assert(asked_of(kids, start, 0) == 1);
    assert(job_lookups(kids, leader) =~= start);
}

/// A leader without children is the whole job, and costs exactly one call, for its own
/// children.
pub proof fn law_a_childless_leader_costs_one_lookup<F: Fn(i32) -> Vec<i32>>(
    kids: spec_fn(i32) -> Seq<i32>,
    leader: i32,
    children: F,
    states: Seq<JobWalk<F>>,
    polls: Seq<Option<i32>>,
    i: int,
)
    requires
        is_run(leader, children, states, polls),
        lists(children, kids),
        kids(leader).len() == 0,
        0 <= i < polls.len(),
    ensures
        job_order(kids, leader) == seq![leader],
        states[i + 1].children.asked().len() <= 1,
        polls[i] is None ==> states[i + 1].children.asked() == seq![leader],
{
    lemma_childless(kids, leader);
    law_every_lookup_is_made_once(kids, leader, children, states, polls, i);
}

} // verus!
