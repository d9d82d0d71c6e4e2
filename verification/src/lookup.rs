//! A function that lists the children of processes, with a record of its calls.

use vstd::prelude::*;

verus! {

/// A function that lists the children of a process. It can only be called through
/// [`Lookup::ask`], which keeps a record of the processes it was asked about.
pub struct Lookup<F> {
    function: F,
    record: Ghost<Seq<i32>>,
}

impl<F: Fn(i32) -> Vec<i32>> Lookup<F> {
    /// The function itself.
    pub closed spec fn function(self) -> F {
        self.function
    }

    /// The processes that were asked about, one for each call, in order.
    pub closed spec fn asked(self) -> Seq<i32> {
        self.record@
    }

    /// A function that was not called yet.
    pub fn new(function: F) -> (r: Self)
        ensures
            r.function() == function,
            r.asked() == Seq::<i32>::empty(),
    {
        Lookup { function, record: Ghost(Seq::empty()) }
    }

    /// Call the function once.
    pub fn ask(&mut self, pid: i32) -> (r: Vec<i32>)
        requires
            call_requires(old(self).function(), (pid,)),
        ensures
            call_ensures(old(self).function(), (pid,), r),
            final(self).function() == old(self).function(),
            final(self).asked() == old(self).asked().push(pid),
    {
        proof {
            self.record@ = self.record@.push(pid);
        }
        (self.function)(pid)
    }
}

} // verus!
