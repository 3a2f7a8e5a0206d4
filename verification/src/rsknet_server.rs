use vstd::prelude::*;

use crate::rsknet_global::RsknetGlobal;
use crate::rsknet_mq::{msg_is, GlobalQueue, MessageQueue, RuskynetMsg};
use crate::rsknet_text::{dec_chars, text_bytes, u32_to_string};
use vstd::utf8::encode_utf8;
use vstd::string::StringSliceAdditionalSpecFns;

verus! {

broadcast use vstd::std_specs::hash::group_hash_axioms;

/// The callback a service runs on its next message: the loader that starts
/// the service's script, or the handler that the script installed.
#[derive(PartialEq, Eq, Structural, Clone, Copy, Debug)]
pub enum RskynetCallback {
    Launch,
    Lua,
}

/// One service: its handle, its session counter, its callback and its
/// message queue.
pub struct RskynetContext {
    pub cb: Option<RskynetCallback>,
    pub session_id: u32,
    pub handle: u32,
    pub queue: MessageQueue,
}

impl RskynetContext {
    pub open spec fn wf(&self) -> bool {
        &&& self.queue.wf()
        &&& self.queue.handle == self.handle
    }

    /// This service, renamed to `handle`.
    pub open spec fn with_handle(self, handle: u32) -> RskynetContext {
        RskynetContext {
            handle: handle,
            queue: MessageQueue { handle: handle, ..self.queue },
            ..self
        }
    }

    /// `new` is `old` with `msg` appended to its queue and the queue scheduled.
    pub open spec fn pushed(old: RskynetContext, new: RskynetContext, msg: RuskynetMsg) -> bool {
        &&& new.queue.pending() == old.queue.pending().push(msg)
        &&& new.queue.queue is Some
        &&& new.queue.in_global
        &&& new.queue.handle == old.queue.handle
        &&& new.handle == old.handle
        &&& new.cb == old.cb
        &&& new.session_id == old.session_id
    }

    /// This service with its session counter at `session_id`.
    pub open spec fn with_session(self, session_id: u32) -> RskynetContext {
        RskynetContext { session_id: session_id, ..self }
    }

    /// This service with its callback slot holding `cb`.
    pub open spec fn with_cb(self, cb: Option<RskynetCallback>) -> RskynetContext {
        RskynetContext { cb: cb, ..self }
    }

    pub fn set_handle(&mut self, handle: u32)
        ensures
            *final(self) == old(self).with_handle(handle),
    {
        self.handle = handle;
        self.queue.set_handle(handle);
    }

    /// Appends `msg` to this service's queue and, if the service was not
    /// scheduled yet, schedules it at the back of the global queue.
    pub fn push_msg(&mut self, msg: RuskynetMsg, global_mq: &mut GlobalQueue)
        ensures
            RskynetContext::pushed(*old(self), *final(self), msg),
            final(global_mq)@ == (if old(self).queue.in_global {
                old(global_mq)@
            } else {
                old(global_mq)@.push(old(self).queue.handle)
            }),
    {
        self.queue.push_msg(msg);
        if !self.queue.in_global {
            self.queue.in_global = true;
            global_mq.push_queue(self.queue.handle);
        }
    }
}

/// Delivers `msg` to the service `destination`; returns 0.
pub fn context_push(g: &mut RsknetGlobal, destination: u32, msg: RuskynetMsg) -> (r: u32)
    requires
        old(g).wf(),
        old(g).ctxs().contains_key(destination),
    ensures
        r == 0,
        RsknetGlobal::delivered(*old(g), *final(g), destination, msg),
        final(g).wf(),
{
    let mut ctx = g.handles.take_context(destination);
    ctx.push_msg(msg, &mut g.global_mq);
    g.handles.put_context(destination, ctx);
    proof {
        assert(g.ctxs() =~= old(g).ctxs().insert(destination, g.ctxs()[destination]));
        RsknetGlobal::lemma_delivered_wf(*old(g), *g, destination, msg);
    }
    0
}

/// Delivers a message `(ptype, data, session, source)` to the service
/// `destination`; returns 1.
pub fn rsknet_send(
    g: &mut RsknetGlobal,
    source: u32,
    destination: u32,
    ptype: u32,
    session: u32,
    data: Vec<u8>,
) -> (r: u32)
    requires
        old(g).wf(),
        old(g).ctxs().contains_key(destination),
    ensures
        r == 1,
        RsknetGlobal::delivered(*old(g), *final(g), destination, final(g).pending(destination).last()),
        msg_is(final(g).pending(destination).last(), ptype, data@, session, source),
        final(g).wf(),
{
    let msg = RuskynetMsg::new(ptype, data, session, source);
    context_push(g, destination, msg);
    1
}

/// `LAUNCH`
pub open spec fn cmd_launch() -> Seq<char> {
    seq!['L', 'A', 'U', 'N', 'C', 'H']
}

/// `TIMEOUT`
pub open spec fn cmd_timeout() -> Seq<char> {
    seq!['T', 'I', 'M', 'E', 'O', 'U', 'T']
}

/// The protocol number of responses.
pub const PTYPE_RESPONSE: u32 = 1;

impl RskynetContext {
    /// Creates a service, registers it under the next handle, and sends it
    /// its launch message: `arg` from itself, protocol 0, session 0.
    /// Returns the new handle.
    pub fn new(g: &mut RsknetGlobal, arg: &str) -> (handle: u32)
        requires
            old(g).wf(),
            old(g).handles.handle_index < u32::MAX,
        ensures
            RsknetGlobal::launched(*old(g), *final(g), handle, arg.spec_bytes()),
            final(g).wf(),
    {
        let queue = MessageQueue::new();
        let ctx = RskynetContext {
            cb: Some(RskynetCallback::Launch),
            session_id: 1,
            handle: 1,
            queue,
        };
        let handle = g.handles.handle_register(ctx);
        let ghost mid = *g;
        proof {
            RsknetGlobal::lemma_registered_wf(*old(g), mid, handle);
        }
        let data = arg.as_bytes_vec();
        rsknet_send(g, handle, handle, 0, 0, data);
        proof {
            assert(g.ctxs() =~= old(g).ctxs().insert(handle, g.ctxs()[handle]));
        }
        handle
    }
}

impl RsknetGlobal {
    /// `new` is `old` after service `src` set its session counter to `sid`
    /// and then sent `msg` to service `des`.
    pub open spec fn sent(
        old: RsknetGlobal,
        new: RsknetGlobal,
        src: u32,
        sid: u32,
        des: u32,
        msg: RuskynetMsg,
    ) -> bool {
        let src_after = old.ctxs()[src].with_session(sid);
        &&& new.ctxs().dom() == old.ctxs().dom()
        &&& forall|h: u32|
            #![trigger new.ctxs()[h]]
            old.ctxs().contains_key(h) && h != src && h != des ==> new.ctxs()[h] == old.ctxs()[h]
        &&& if des == src {
            RskynetContext::pushed(src_after, new.ctxs()[des], msg)
        } else {
            &&& new.ctxs()[src] == src_after
            &&& RskynetContext::pushed(old.ctxs()[des], new.ctxs()[des], msg)
        }
        &&& new.sched() == (if old.ctxs()[des].queue.in_global {
            old.sched()
        } else {
            old.sched().push(des)
        })
        &&& new.handles.handle_index == old.handles.handle_index
        &&& new.global_req == old.global_req
    }

    /// `new` is `old` after a service was created under `handle` and sent
    /// its launch message with `arg` as data.
    pub open spec fn launched(old: RsknetGlobal, new: RsknetGlobal, handle: u32, arg: Seq<u8>) -> bool {
        &&& handle == old.handles.handle_index + 1
        &&& new.handles.handle_index == handle
        &&& !old.ctxs().contains_key(handle)
        &&& new.ctxs() == old.ctxs().insert(handle, new.ctxs()[handle])
        &&& new.ctxs()[handle].handle == handle
        &&& new.ctxs()[handle].cb == Some(RskynetCallback::Launch)
        &&& new.ctxs()[handle].session_id == 1
        &&& new.ctxs()[handle].queue.in_global
        &&& new.pending(handle).len() == 1
        &&& msg_is(new.pending(handle)[0], 0, arg, 0, handle)
        &&& new.sched() == old.sched().push(handle)
        &&& new.global_req == old.global_req
    }

    /// The sending service `handle` sends `data` to service `des` with
    /// protocol `ptype`. A `session` of 0 asks for a fresh session number
    /// from the sender's counter; any other is used as it is. Returns the
    /// session of the message.
    pub fn rsknet_send(&mut self, handle: u32, des: u32, ptype: u32, session: u32, data: String) -> (sid: u32)
        requires
            old(self).wf(),
            old(self).ctxs().contains_key(handle),
            old(self).ctxs().contains_key(des),
            session == 0 ==> old(self).ctxs()[handle].session_id < u32::MAX,
        ensures
            sid == (if session == 0 {
                (old(self).ctxs()[handle].session_id + 1) as u32
            } else {
                session
            }),
            RsknetGlobal::sent(
                *old(self),
                *final(self),
                handle,
                (if session == 0 {
                    sid
                } else {
                    old(self).ctxs()[handle].session_id
                }),
                des,
                final(self).pending(des).last(),
            ),
            msg_is(final(self).pending(des).last(), ptype, encode_utf8(data@), sid, handle),
            final(self).wf(),
    {
        let mut ctx = self.handles.take_context(handle);
        let new_sid = if session == 0 {
            ctx.session_id = ctx.session_id + 1;
            ctx.session_id
        } else {
            session
        };
        self.handles.put_context(handle, ctx);
        let ghost mid = *self;
        proof {
            assert(mid.ctxs() =~= old(self).ctxs().insert(handle, mid.ctxs()[handle]));
            RsknetGlobal::lemma_wf_frame(*old(self), mid);
        }
        let msg = RuskynetMsg::new(ptype, text_bytes(&data), new_sid, handle);
        context_push(self, des, msg);
        proof {
            assert(self.ctxs().dom() =~= old(self).ctxs().dom());
        }
        new_sid
    }

    /// Runs the command `cmd` of service `handle`:
    /// `LAUNCH` creates a service started with `pram` and answers its
    /// handle; `TIMEOUT` takes a fresh session number, sends the service a
    /// `TIMEOUT` response in that session, and answers the session; any
    /// other command answers nothing.
    pub fn rsknet_command(&mut self, handle: u32, cmd: String, pram: String) -> (r: Option<String>)
        requires
            old(self).wf(),
            old(self).ctxs().contains_key(handle),
            cmd@ == cmd_launch() ==> old(self).handles.handle_index < u32::MAX,
            cmd@ == cmd_timeout() ==> old(self).ctxs()[handle].session_id < u32::MAX,
        ensures
            final(self).wf(),
            cmd@ == cmd_launch() ==> {
                let h = final(self).handles.handle_index;
                &&& RsknetGlobal::launched(*old(self), *final(self), h, encode_utf8(pram@))
                &&& r is Some
                &&& r->0@ == dec_chars(h as nat)
            },
            cmd@ == cmd_timeout() ==> {
                let sid = (old(self).ctxs()[handle].session_id + 1) as u32;
                &&& RsknetGlobal::sent(
                    *old(self),
                    *final(self),
                    handle,
                    sid,
                    handle,
                    final(self).pending(handle).last(),
                )
                &&& msg_is(
                    final(self).pending(handle).last(),
                    PTYPE_RESPONSE,
                    encode_utf8(cmd_timeout()),
                    sid,
                    handle,
                )
                &&& r is Some
                &&& r->0@ == dec_chars(sid as nat)
            },
            cmd@ != cmd_launch() && cmd@ != cmd_timeout() ==> r is None && *final(self) == *old(
                self,
            ),
    {
        let launch = String::from_str("LAUNCH");
        let timeout = String::from_str("TIMEOUT");
        proof {
            reveal_strlit("LAUNCH");
            reveal_strlit("TIMEOUT");
            assert(launch@ =~= cmd_launch());
            assert(timeout@ =~= cmd_timeout());
        }
        let is_launch = cmd.eq(&launch);
        let is_timeout = cmd.eq(&timeout);
        if is_launch {
            let h = RskynetContext::new(self, pram.as_str());
            Some(u32_to_string(h))
        } else if is_timeout {
            let sid = self.rsknet_send(handle, handle, PTYPE_RESPONSE, 0, timeout);
            Some(u32_to_string(sid))
        } else {
            proof {
                assert(cmd@ != cmd_launch());
                assert(cmd@ != cmd_timeout());
            }
            None
        }
    }
}

} // verus!
