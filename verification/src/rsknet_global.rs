use vstd::prelude::*;
use vstd::utf8::encode_utf8;

use crate::rsknet_handle::RskynetHandle;
use crate::rsknet_mq::{GlobalQueue, RuskynetMsg};
use crate::rsknet_server::{RskynetCallback, RskynetContext};
use crate::rsknet_socket::GlobalReqRecord;

verus! {

/// The state that every thread of the runtime shares: the service
/// registry, the global queue of scheduled services, and the counter of
/// socket requests.
pub struct RsknetGlobal {
    pub handles: RskynetHandle,
    pub global_mq: GlobalQueue,
    pub global_req: GlobalReqRecord,
}

impl RsknetGlobal {
    pub open spec fn ctxs(&self) -> Map<u32, RskynetContext> {
        self.handles.slot@
    }

    pub open spec fn sched(&self) -> Seq<u32> {
        self.global_mq@
    }

    /// The messages waiting for service `h`, oldest first.
    pub open spec fn pending(&self, h: u32) -> Seq<RuskynetMsg> {
        self.ctxs()[h].queue.pending()
    }

    /// The scheduling invariant: the global queue names registered services
    /// only, each at most once, and names exactly those that have messages
    /// waiting.
    pub open spec fn wf(&self) -> bool {
        &&& self.handles.wf()
        &&& self.sched().no_duplicates()
        &&& forall|i: int|
            0 <= i < self.sched().len() ==> #[trigger] self.ctxs().contains_key(self.sched()[i])
                && self.ctxs()[self.sched()[i]].queue.in_global
        &&& forall|h: u32| #[trigger]
            self.ctxs().contains_key(h) && self.ctxs()[h].queue.in_global ==> self.sched().contains(
                h,
            )
    }

    /// `new` is `old` after `msg` was delivered to service `dest`.
    pub open spec fn delivered(old: RsknetGlobal, new: RsknetGlobal, dest: u32, msg: RuskynetMsg) -> bool {
        &&& new.ctxs() == old.ctxs().insert(dest, new.ctxs()[dest])
        &&& RskynetContext::pushed(old.ctxs()[dest], new.ctxs()[dest], msg)
        &&& new.sched() == (if old.ctxs()[dest].queue.in_global {
            old.sched()
        } else {
            old.sched().push(dest)
        })
        &&& new.handles.handle_index == old.handles.handle_index
        &&& new.global_req == old.global_req
    }

    pub proof fn lemma_delivered_wf(old: RsknetGlobal, new: RsknetGlobal, dest: u32, msg: RuskynetMsg)
        requires
            old.wf(),
            old.ctxs().contains_key(dest),
            RsknetGlobal::delivered(old, new, dest, msg),
        ensures
            new.wf(),
    {
        assert(new.ctxs().contains_key(dest));
        assert forall|h: u32| #[trigger] new.ctxs().contains_key(h) implies {
            &&& 1 <= h <= new.handles.handle_index
            &&& new.ctxs()[h].handle == h
            &&& new.ctxs()[h].wf()
        } by {
            assert(old.ctxs().contains_key(h));
        }
        if !old.ctxs()[dest].queue.in_global {
            assert(!old.sched().contains(dest));
        }
        assert forall|i: int| 0 <= i < new.sched().len() implies #[trigger] new.ctxs().contains_key(
            new.sched()[i],
        ) && new.ctxs()[new.sched()[i]].queue.in_global by {
            if i < old.sched().len() {
                assert(old.ctxs().contains_key(old.sched()[i]));
            }
        }
        assert forall|h: u32| #[trigger]
            new.ctxs().contains_key(h) && new.ctxs()[h].queue.in_global implies new.sched().contains(
            h,
        ) by {
            if h == dest {
                if !old.ctxs()[dest].queue.in_global {
                    assert(new.sched()[new.sched().len() - 1] == dest);
                }
            } else {
                assert(old.ctxs().contains_key(h));
                let j = choose|j: int| 0 <= j < old.sched().len() && old.sched()[j] == h;
                assert(new.sched()[j] == h);
            }
        }
    }

    /// Changes that keep every service's handle and queue, and the global
    /// queue, keep the scheduling invariant.
    pub proof fn lemma_wf_frame(old: RsknetGlobal, new: RsknetGlobal)
        requires
            old.wf(),
            new.ctxs().dom() == old.ctxs().dom(),
            forall|h: u32|
                #![trigger new.ctxs()[h]]
                old.ctxs().contains_key(h) ==> new.ctxs()[h].handle == old.ctxs()[h].handle
                    && new.ctxs()[h].queue == old.ctxs()[h].queue,
            new.sched() == old.sched(),
            new.handles.handle_index == old.handles.handle_index,
        ensures
            new.wf(),
    {
        assert forall|h: u32| #[trigger] new.ctxs().contains_key(h) implies {
            &&& 1 <= h <= new.handles.handle_index
            &&& new.ctxs()[h].handle == h
            &&& new.ctxs()[h].wf()
        } by {
            assert(old.ctxs().contains_key(h));
        }
        assert forall|i: int| 0 <= i < new.sched().len() implies #[trigger] new.ctxs().contains_key(
            new.sched()[i],
        ) && new.ctxs()[new.sched()[i]].queue.in_global by {
            assert(old.ctxs().contains_key(old.sched()[i]));
        }
        assert forall|h: u32| #[trigger]
            new.ctxs().contains_key(h) && new.ctxs()[h].queue.in_global implies new.sched().contains(
            h,
        ) by {
            assert(old.ctxs().contains_key(h));
        }
    }

    /// Registering a fresh, unscheduled service with an empty queue keeps
    /// the scheduling invariant.
    pub proof fn lemma_registered_wf(old: RsknetGlobal, new: RsknetGlobal, handle: u32)
        requires
            old.wf(),
            handle == old.handles.handle_index + 1,
            new.handles.handle_index == handle,
            new.ctxs() == old.ctxs().insert(handle, new.ctxs()[handle]),
            new.ctxs()[handle].handle == handle,
            new.ctxs()[handle].wf(),
            !new.ctxs()[handle].queue.in_global,
            new.sched() == old.sched(),
        ensures
            new.wf(),
            !old.ctxs().contains_key(handle),
    {
        assert forall|h: u32| #[trigger] new.ctxs().contains_key(h) implies {
            &&& 1 <= h <= new.handles.handle_index
            &&& new.ctxs()[h].handle == h
            &&& new.ctxs()[h].wf()
        } by {
            if h != handle {
                assert(old.ctxs().contains_key(h));
            }
        }
        assert forall|i: int| 0 <= i < new.sched().len() implies #[trigger] new.ctxs().contains_key(
            new.sched()[i],
        ) && new.ctxs()[new.sched()[i]].queue.in_global by {
            assert(old.ctxs().contains_key(old.sched()[i]));
        }
        assert forall|h: u32| #[trigger]
            new.ctxs().contains_key(h) && new.ctxs()[h].queue.in_global implies new.sched().contains(
            h,
        ) by {
            assert(old.ctxs().contains_key(h));
        }
    }

    pub fn new() -> (g: Self)
        ensures
            g.ctxs() == Map::<u32, RskynetContext>::empty(),
            g.sched() == Seq::<u32>::empty(),
            g.handles.handle_index == 0,
            g.global_req.id == 0,
            g.wf(),
    {
        RsknetGlobal {
            handles: RskynetHandle::new(),
            global_mq: GlobalQueue::new(),
            global_req: GlobalReqRecord::new(),
        }
    }
}

impl RsknetGlobal {
    /// The worker's step: takes the service at the front of the global
    /// queue and hands out all of its waiting messages, oldest first. The
    /// service leaves the global queue with an empty queue of its own.
    /// Nothing when no service is scheduled.
    pub fn dispatch_next(&mut self) -> (r: Option<(u32, Vec<RuskynetMsg>)>)
        requires
            old(self).wf(),
        ensures
            final(self).wf(),
            final(self).handles.handle_index == old(self).handles.handle_index,
            final(self).global_req == old(self).global_req,
            old(self).sched().len() == 0 ==> r is None && final(self).ctxs() == old(self).ctxs()
                && final(self).sched() == old(self).sched(),
            old(self).sched().len() > 0 ==> {
                let h = old(self).sched()[0];
                &&& r is Some
                &&& (r->0).0 == h
                &&& (r->0).1@ == old(self).pending(h)
                &&& (r->0).1@.len() > 0
                &&& final(self).sched() == old(self).sched().drop_first()
                &&& final(self).ctxs() == old(self).ctxs().insert(h, final(self).ctxs()[h])
                &&& final(self).pending(h) == Seq::<RuskynetMsg>::empty()
                &&& !final(self).ctxs()[h].queue.in_global
                &&& final(self).ctxs()[h].handle == old(self).ctxs()[h].handle
                &&& final(self).ctxs()[h].cb == old(self).ctxs()[h].cb
                &&& final(self).ctxs()[h].session_id == old(self).ctxs()[h].session_id
            },
    {
        match self.global_mq.pop_queue() {
            None => None,
            Some(h) => {
                proof {
                    assert(old(self).ctxs().contains_key(old(self).sched()[0]));
                }
                let mut ctx = self.handles.take_context(h);
                let msgs = ctx.queue.get_msg();
                self.handles.put_context(h, ctx);
                proof {
                    let o = *old(self);
                    let n = *self;
                    assert(n.ctxs() =~= o.ctxs().insert(h, n.ctxs()[h]));
                    assert forall|k: u32| #[trigger] n.ctxs().contains_key(k) implies {
                        &&& 1 <= k <= n.handles.handle_index
                        &&& n.ctxs()[k].handle == k
                        &&& n.ctxs()[k].wf()
                    } by {
                        assert(o.ctxs().contains_key(k));
                    }
                    assert forall|i: int| 0 <= i < n.sched().len() implies #[trigger] n.ctxs().contains_key(
                        n.sched()[i],
                    ) && n.ctxs()[n.sched()[i]].queue.in_global by {
                        assert(n.sched()[i] == o.sched()[i + 1]);
                        assert(o.ctxs().contains_key(o.sched()[i + 1]));
                        assert(o.sched()[i + 1] != o.sched()[0]);
                    }
                    assert forall|k: u32| #[trigger]
                        n.ctxs().contains_key(k) && n.ctxs()[k].queue.in_global implies n.sched().contains(
                        k,
                    ) by {
                        assert(o.ctxs().contains_key(k));
                        let j = choose|j: int| 0 <= j < o.sched().len() && o.sched()[j] == k;
                        assert(j != 0);
                        assert(n.sched()[j - 1] == k);
                    }
                }
                match msgs {
                    Some(m) => Some((h, m)),
                    None => vstd::pervasive::unreached(),
                }
            },
        }
    }

    /// Takes the callback of service `handle` out of its slot, before the
    /// callback runs.
    pub fn take_cb(&mut self, handle: u32) -> (cb: Option<RskynetCallback>)
        requires
            old(self).wf(),
            old(self).ctxs().contains_key(handle),
        ensures
            cb == old(self).ctxs()[handle].cb,
            final(self).ctxs() == old(self).ctxs().insert(handle, old(self).ctxs()[handle].with_cb(None)),
            final(self).sched() == old(self).sched(),
            final(self).handles.handle_index == old(self).handles.handle_index,
            final(self).global_req == old(self).global_req,
            final(self).wf(),
    {
        let mut ctx = self.handles.take_context(handle);
        let cb = ctx.cb;
        ctx.cb = None;
        self.handles.put_context(handle, ctx);
        proof {
            assert(self.ctxs() =~= old(self).ctxs().insert(handle, old(self).ctxs()[handle].with_cb(None)));
            RsknetGlobal::lemma_wf_frame(*old(self), *self);
        }
        cb
    }

    /// Puts `cb` back in the slot of service `handle` after it ran, unless
    /// the callback installed another one meanwhile.
    pub fn restore_cb(&mut self, handle: u32, cb: RskynetCallback)
        requires
            old(self).wf(),
            old(self).ctxs().contains_key(handle),
        ensures
            final(self).ctxs() == old(self).ctxs().insert(
                handle,
                old(self).ctxs()[handle].with_cb(
                    if old(self).ctxs()[handle].cb is None {
                        Some(cb)
                    } else {
                        old(self).ctxs()[handle].cb
                    },
                ),
            ),
            final(self).sched() == old(self).sched(),
            final(self).handles.handle_index == old(self).handles.handle_index,
            final(self).global_req == old(self).global_req,
            final(self).wf(),
    {
        let mut ctx = self.handles.take_context(handle);
        if ctx.cb.is_none() {
            ctx.cb = Some(cb);
        }
        self.handles.put_context(handle, ctx);
        proof {
            assert(self.ctxs() =~= old(self).ctxs().insert(handle, self.ctxs()[handle]));
            RsknetGlobal::lemma_wf_frame(*old(self), *self);
        }
    }

    /// Installs `cb` as the callback of service `handle`.
    pub fn set_cb(&mut self, handle: u32, cb: RskynetCallback)
        requires
            old(self).wf(),
            old(self).ctxs().contains_key(handle),
        ensures
            final(self).ctxs() == old(self).ctxs().insert(handle, old(self).ctxs()[handle].with_cb(Some(cb))),
            final(self).sched() == old(self).sched(),
            final(self).handles.handle_index == old(self).handles.handle_index,
            final(self).global_req == old(self).global_req,
            final(self).wf(),
    {
        let mut ctx = self.handles.take_context(handle);
        ctx.cb = Some(cb);
        self.handles.put_context(handle, ctx);
        proof {
            assert(self.ctxs() =~= old(self).ctxs().insert(handle, old(self).ctxs()[handle].with_cb(Some(cb))));
            RsknetGlobal::lemma_wf_frame(*old(self), *self);
        }
    }
}

/// A registered service has messages waiting exactly when it is in the
/// global queue, and then it is there once.
pub proof fn law_scheduled_once(g: RsknetGlobal, h: u32)
    requires
        g.wf(),
        g.ctxs().contains_key(h),
    ensures
        g.pending(h).len() > 0 <==> g.sched().contains(h),
        forall|i: int, j: int|
            0 <= i < g.sched().len() && 0 <= j < g.sched().len() && g.sched()[i] == h && g.sched()[j]
                == h ==> i == j,
{
    assert(g.handles.slot@.contains_key(h));
    if g.sched().contains(h) {
        let i = choose|i: int| 0 <= i < g.sched().len() && g.sched()[i] == h;
        assert(g.ctxs().contains_key(g.sched()[i]));
    }
}

/// Messages delivered to a service wait in the order they were delivered,
/// and the service is scheduled once however many arrive.
pub proof fn law_delivery_order(
    g0: RsknetGlobal,
    g1: RsknetGlobal,
    g2: RsknetGlobal,
    d: u32,
    m1: RuskynetMsg,
    m2: RuskynetMsg,
)
    requires
        g0.wf(),
        g0.ctxs().contains_key(d),
        RsknetGlobal::delivered(g0, g1, d, m1),
        RsknetGlobal::delivered(g1, g2, d, m2),
    ensures
        g2.pending(d) == g0.pending(d).push(m1).push(m2),
        g2.wf(),
        g2.sched().contains(d),
        g2.sched().len() == g0.sched().len() + (if g0.ctxs()[d].queue.in_global {
            0int
        } else {
            1int
        }),
{
    RsknetGlobal::lemma_delivered_wf(g0, g1, d, m1);
    assert(g1.ctxs().contains_key(d));
    RsknetGlobal::lemma_delivered_wf(g1, g2, d, m2);
    assert(g2.ctxs().contains_key(d));
    law_scheduled_once(g2, d);
}

/// Each new service gets a handle that no service had before, and the
/// handles of successive services increase.
pub proof fn law_fresh_handles(
    g0: RsknetGlobal,
    g1: RsknetGlobal,
    g2: RsknetGlobal,
    h1: u32,
    h2: u32,
    a1: Seq<u8>,
    a2: Seq<u8>,
)
    requires
        g0.wf(),
        RsknetGlobal::launched(g0, g1, h1, a1),
        RsknetGlobal::launched(g1, g2, h2, a2),
    ensures
        !g0.ctxs().contains_key(h1),
        !g0.ctxs().contains_key(h2),
        h1 < h2,
        g2.ctxs().contains_key(h1),
        g2.ctxs().contains_key(h2),
{
    assert(g1.ctxs().contains_key(h1));
    if g0.ctxs().contains_key(h2) {
        assert(g0.handles.slot@.contains_key(h2));
    }
}

/// Fresh session numbers that one service takes increase strictly, so no
/// two of them are equal.
pub proof fn law_fresh_sessions_increase(
    g0: RsknetGlobal,
    g1: RsknetGlobal,
    g2: RsknetGlobal,
    src: u32,
    d1: u32,
    d2: u32,
    m1: RuskynetMsg,
    m2: RuskynetMsg,
)
    requires
        g0.ctxs().contains_key(src),
        RsknetGlobal::sent(g0, g1, src, (g0.ctxs()[src].session_id + 1) as u32, d1, m1),
        RsknetGlobal::sent(g1, g2, src, (g1.ctxs()[src].session_id + 1) as u32, d2, m2),
        g1.ctxs()[src].session_id < u32::MAX,
        g0.ctxs()[src].session_id < u32::MAX,
    ensures
        g0.ctxs()[src].session_id < g1.ctxs()[src].session_id < g2.ctxs()[src].session_id,
{
}

/// `snlua bootstrap`
pub open spec fn bootstrap_arg() -> Seq<char> {
    seq!['s', 'n', 'l', 'u', 'a', ' ', 'b', 'o', 'o', 't', 's', 't', 'r', 'a', 'p']
}

/// Starts the first service, the Lua `bootstrap` script; returns its handle.
pub fn boot_strap(g: &mut RsknetGlobal) -> (handle: u32)
    requires
        old(g).wf(),
        old(g).handles.handle_index < u32::MAX,
    ensures
        RsknetGlobal::launched(*old(g), *final(g), handle, encode_utf8(bootstrap_arg())),
        final(g).wf(),
{
    let arg = "snlua bootstrap";
    proof {
        reveal_strlit("snlua bootstrap");
        assert(arg@ =~= bootstrap_arg());
    }
    RskynetContext::new(g, arg)
}

/// The service registered under `handle`.
pub fn get_ctx_by_handle(g: &RsknetGlobal, handle: u32) -> (ctx: &RskynetContext)
    requires
        g.ctxs().contains_key(handle),
    ensures
        *ctx == g.ctxs()[handle],
{
    g.handles.get_context(handle)
}

} // verus!
