use std::collections::HashMap;
use vstd::prelude::*;

use crate::rsknet_server::RskynetContext;

verus! {

broadcast use vstd::std_specs::hash::group_hash_axioms;

/// The registry of services: handles are handed out in order, starting at 1.
pub struct RskynetHandle {
    pub handle_index: u32,
    pub slot: HashMap<u32, RskynetContext>,
}

impl RskynetHandle {
    /// Every registered service sits under its own handle, which is at most
    /// the last handle handed out, and is well formed.
    pub open spec fn wf(&self) -> bool {
        forall|h: u32| #[trigger]
            self.slot@.contains_key(h) ==> {
                &&& 1 <= h <= self.handle_index
                &&& self.slot@[h].handle == h
                &&& self.slot@[h].wf()
            }
    }

    pub fn new() -> (r: Self)
        ensures
            r.handle_index == 0,
            r.slot@ == Map::<u32, RskynetContext>::empty(),
            r.wf(),
    {
        let slot = HashMap::new();
        RskynetHandle { handle_index: 0, slot }
    }

    /// Registers `context` under the next handle and returns that handle.
    pub fn handle_register(&mut self, context: RskynetContext) -> (handle: u32)
        requires
            old(self).handle_index < u32::MAX,
        ensures
            handle == old(self).handle_index + 1,
            final(self).handle_index == handle,
            old(self).wf() ==> !old(self).slot@.contains_key(handle),
            final(self).slot@ == old(self).slot@.insert(handle, context.with_handle(handle)),
            old(self).wf() && context.queue.wf() ==> final(self).wf(),
    {
        self.handle_index = self.handle_index + 1;
        let mut context = context;
        context.set_handle(self.handle_index);
        self.slot.insert(self.handle_index, context);
        self.handle_index
    }

    pub fn get_context(&self, handle_id: u32) -> (ctx: &RskynetContext)
        requires
            self.slot@.contains_key(handle_id),
        ensures
            *ctx == self.slot@[handle_id],
    {
        match self.slot.get(&handle_id) {
            Some(ctx) => ctx,
            None => vstd::pervasive::unreached(),
        }
    }

    /// Whether a service is registered under `handle_id`.
    pub fn has_context(&self, handle_id: u32) -> (b: bool)
        ensures
            b == self.slot@.contains_key(handle_id),
    {
        self.slot.contains_key(&handle_id)
    }

    /// Takes the service under `handle_id` out of the registry.
    pub(crate) fn take_context(&mut self, handle_id: u32) -> (ctx: RskynetContext)
        requires
            old(self).slot@.contains_key(handle_id),
        ensures
            ctx == old(self).slot@[handle_id],
            final(self).slot@ == old(self).slot@.remove(handle_id),
            final(self).handle_index == old(self).handle_index,
    {
        match self.slot.remove(&handle_id) {
            Some(ctx) => ctx,
            None => vstd::pervasive::unreached(),
        }
    }

    /// Puts a service back under `handle_id`.
    pub(crate) fn put_context(&mut self, handle_id: u32, ctx: RskynetContext)
        ensures
            final(self).slot@ == old(self).slot@.insert(handle_id, ctx),
            final(self).handle_index == old(self).handle_index,
    {
        self.slot.insert(handle_id, ctx);
    }
}

} // verus!
