//! A side effect that is kept ready for the end of a scope.
use crate::debug_metrics::DebugMetricsTrait;
use vstd::prelude::*;

verus! {

/// Exclusive access to an engine, together with what is to be done with it
/// once: `run` does it and gives the access up.
pub struct DropHook<'a, DM, CallFn> where DM: DebugMetricsTrait + ?Sized, CallFn: Fn(&mut DM) {
    pub debug_metrics: &'a mut DM,
    pub call_fn: CallFn,
}

impl<'a, DM, CallFn> DropHook<'a, DM, CallFn> where
    DM: DebugMetricsTrait + ?Sized,
    CallFn: Fn(&mut DM),
 {
    pub fn new(debug_metrics: &'a mut DM, call_fn: CallFn) -> (r: Self)
        ensures
            r.call_fn == call_fn,
            (*r.debug_metrics)@ == (*old(debug_metrics))@,
            (*final(r.debug_metrics))@ == (*final(debug_metrics))@,
    {
        DropHook { debug_metrics, call_fn }
    }

    /// Calls the closure, once, with the engine, and ends the hook.
    pub fn run(self)
        requires
            forall|d: &mut DM| #[trigger] self.call_fn.requires((d,)),
        ensures
            exists|d: &mut DM|
                (*d)@ == (*old(self.debug_metrics))@ && (*final(d))@ == (*final(self.debug_metrics))@
                    && #[trigger] self.call_fn.ensures((d,), ()),
    {
        let DropHook { debug_metrics, call_fn } = self;
        call_fn(debug_metrics);
    }
}

} // verus!
