use vstd::prelude::*;

use crate::component::Component;
use crate::sim_manager::SimManager;

verus! {

/// Drives a group of components: runs their lifecycle hooks and
/// repeatedly polls each of them for incoming work, consulting the
/// coordinator's termination vote to know when to stop.
pub struct SimDispatcher<C: Component> {
    pub components: Vec<C>,
}

impl<C: Component> SimDispatcher<C> {
    pub fn new(components: Vec<C>) -> (r: Self)
        ensures
            r.components == components,
    {
        SimDispatcher { components }
    }

    /// Calls each component's init hook once, in registration order,
    /// before the run starts.
    pub fn init(&mut self, mgr: &mut SimManager)
        ensures
            final(self).components@.len() == old(self).components@.len(),
    {
        let ghost n = self.components@.len();
        let mut done: Vec<C> = Vec::new();
        while self.components.len() > 0
            invariant
                done@.len() + self.components@.len() == n,
            decreases self.components@.len(),
        {
            let mut c = self.components.remove(0);
            c.init(mgr);
            done.push(c);
        }
        self.components = done;
    }

    /// One polling pass: calls each component's poll hook once, in order.
    pub fn poll_pass(&mut self, mgr: &mut SimManager)
        ensures
            final(self).components@.len() == old(self).components@.len(),
    {
        let ghost n = self.components@.len();
        let mut done: Vec<C> = Vec::new();
        while self.components.len() > 0
            invariant
                done@.len() + self.components@.len() == n,
            decreases self.components@.len(),
        {
            let mut c = self.components.remove(0);
            c.poll_recv(mgr);
            done.push(c);
        }
        self.components = done;
    }

    /// Polls the whole group, checking after each full pass whether the
    /// coordinator's termination vote passes, for at most `passes`
    /// rounds. Returns whether the vote passed: `true` guarantees that no
    /// component forbids ending any more.
    pub fn run(&mut self, mgr: &mut SimManager, passes: u64) -> (r: bool)
        ensures
            final(self).components@.len() == old(self).components@.len(),
            r ==> final(mgr).component_do_not_end_set@.len() == 0,
    {
        let ghost n = self.components@.len();
        let mut k: u64 = 0;
        while k < passes
            invariant
                n == old(self).components@.len(),
                self.components@.len() == n,
            decreases passes - k,
        {
            self.poll_pass(mgr);
            if mgr.sim_can_end() {
                return true;
            }
            k = k + 1;
        }
        false
    }
}

} // verus!
