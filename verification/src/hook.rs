//! A hook that is handed a running engine.
//!
//! After the engine has built its managers, it invokes the hook, if one is registered,
//! with handles to them, so that services can be attached in the same process.
use vstd::prelude::*;
use crate::chain::Chain;

verus! {

/// Handles to a running engine. `M` holds its managers.
pub struct EngineHandles<M> {
    pub chain: Chain,
    pub engine_key: [u8; 32],
    pub managers: M,
    pub rpc_url: String,
    pub rpc_user: String,
    pub rpc_pass: String,
}

/// The place of the hook.
pub struct HookSlot<H> {
    hook: Option<H>,
}

impl<H> View for HookSlot<H> {
    type V = Option<H>;

    closed spec fn view(&self) -> Option<H> {
        self.hook
    }
}

impl<H> HookSlot<H> {
    /// A place without a hook.
    pub fn new() -> (r: HookSlot<H>)
        ensures
            r@ == None::<H>,
    {
        HookSlot { hook: None }
    }
}

/// Registers a hook. Only the first one counts.
pub fn set_engine_hook<H>(slot: &mut HookSlot<H>, hook: H)
    ensures
        final(slot)@ == match old(slot)@ {
            None => Some(hook),
            Some(h) => Some(h),
        },
{
    if slot.hook.is_none() {
        slot.hook = Some(hook);
    }
}

/// The registered hook, if any.
pub fn engine_hook<H>(slot: &HookSlot<H>) -> (r: Option<&H>)
    ensures
        match r {
            None => slot@ is None,
            Some(h) => slot@ == Some(*h),
        },
{
    match &slot.hook {
        None => None,
        Some(h) => Some(h),
    }
}

/// The first hook that is registered stays, and there is a hook after every registration.
pub proof fn theorem_first_hook_stays<H>()
    ensures
        forall|slot: &mut HookSlot<H>, hook: H| #[trigger]
            call_ensures(set_engine_hook::<H>, (slot, hook), ()) ==> {
                &&& final(slot)@ is Some
                &&& slot@ is Some ==> final(slot)@ == slot@
                &&& slot@ is None ==> final(slot)@ == Some(hook)
            },
{
}

/// Asking for the hook gives the one that is registered.
pub proof fn theorem_registered_hook_is_given<H>(slot: HookSlot<H>, r: Option<&H>)
    requires
        call_ensures(engine_hook::<H>, (&slot,), r),
    ensures
        r is Some <==> slot@ is Some,
        r is Some ==> *(r->0) == slot@->0,
{
}

} // verus!
