use std::collections::VecDeque;
use vstd::prelude::*;

verus! {

/// One message delivered to a service.
pub struct RuskynetMsg {
    pub proto_type: u32,
    pub data: Vec<u8>,
    pub session: u32,
    pub source: u32,
}

/// `m` is the message `(proto_type, data, session, source)`.
pub open spec fn msg_is(m: RuskynetMsg, proto_type: u32, data: Seq<u8>, session: u32, source: u32) -> bool {
    &&& m.proto_type == proto_type
    &&& m.data@ == data
    &&& m.session == session
    &&& m.source == source
}

impl RuskynetMsg {
    pub fn new(proto_type: u32, data: Vec<u8>, session: u32, source: u32) -> (msg: Self)
        ensures
            msg.proto_type == proto_type,
            msg.data@ == data@,
            msg.session == session,
            msg.source == source,
    {
        RuskynetMsg { proto_type, data, session, source }
    }
}

/// The message queue of one service.
///
/// `queue` is created on the first push and handed out whole by `get_msg`;
/// `in_global` records whether the service is scheduled in the global queue.
pub struct MessageQueue {
    pub handle: u32,
    pub in_global: bool,
    pub queue: Option<Vec<RuskynetMsg>>,
}

impl MessageQueue {
    /// The messages waiting in this queue, oldest first.
    pub open spec fn pending(&self) -> Seq<RuskynetMsg> {
        match self.queue {
            Some(v) => v@,
            None => Seq::empty(),
        }
    }

    /// A queue holds a vector exactly when it holds at least one message,
    /// and it is scheduled exactly when it holds messages.
    pub open spec fn wf(&self) -> bool {
        &&& (self.queue is Some ==> self.pending().len() > 0)
        &&& (self.in_global <==> self.queue is Some)
    }

    pub fn new() -> (q: Self)
        ensures
            q.handle == 0,
            !q.in_global,
            q.queue is None,
            q.pending() == Seq::<RuskynetMsg>::empty(),
            q.wf(),
    {
        MessageQueue { handle: 0, in_global: false, queue: None }
    }

    pub fn set_handle(&mut self, handle_id: u32)
        ensures
            final(self).handle == handle_id,
            final(self).in_global == old(self).in_global,
            final(self).queue == old(self).queue,
    {
        self.handle = handle_id;
    }

    /// `new` is `old` with `msg` appended.
    pub open spec fn pushed(old: MessageQueue, new: MessageQueue, msg: RuskynetMsg) -> bool {
        &&& new.pending() == old.pending().push(msg)
        &&& new.queue is Some
        &&& new.handle == old.handle
        &&& new.in_global == old.in_global
    }

    /// `new` is `old` after all of its messages were taken out as `msgs`.
    pub open spec fn taken(old: MessageQueue, new: MessageQueue, msgs: Option<Vec<RuskynetMsg>>) -> bool {
        &&& msgs == old.queue
        &&& new.queue is None
        &&& new.pending() == Seq::<RuskynetMsg>::empty()
        &&& !new.in_global
        &&& new.handle == old.handle
    }

    /// Appends `msg` at the end of the queue.
    pub fn push_msg(&mut self, msg: RuskynetMsg)
        ensures
            MessageQueue::pushed(*old(self), *final(self), msg),
    {
        match self.queue.take() {
            None => {
                let mut new_vec = Vec::new();
                new_vec.push(msg);
                self.queue = Some(new_vec);
            },
            Some(mut temp) => {
                temp.push(msg);
                self.queue = Some(temp);
            },
        }
    }

    /// Takes every waiting message out of the queue and marks the queue as
    /// no longer scheduled.
    pub fn get_msg(&mut self) -> (msgs: Option<Vec<RuskynetMsg>>)
        ensures
            MessageQueue::taken(*old(self), *final(self), msgs),
    {
        self.in_global = false;
        self.queue.take()
    }
}

/// After `k >= 1` pushes onto a queue that holds no vector, `get_msg` hands
/// out exactly the pushed messages in push order, and the `get_msg` right
/// after it hands out nothing. `qs[i + 1]` is the queue after pushing
/// `msgs[i]` onto `qs[i]`.
pub proof fn law_get_msg_returns_pushes_in_order(
    qs: Seq<MessageQueue>,
    msgs: Seq<RuskynetMsg>,
    q1: MessageQueue,
    r1: Option<Vec<RuskynetMsg>>,
    q2: MessageQueue,
    r2: Option<Vec<RuskynetMsg>>,
)
    requires
        msgs.len() >= 1,
        qs.len() == msgs.len() + 1,
        qs[0].queue is None,
        forall|i: int| 0 <= i < msgs.len() ==> MessageQueue::pushed(#[trigger] qs[i], qs[i + 1], msgs[i]),
        MessageQueue::taken(qs[msgs.len() as int], q1, r1),
        MessageQueue::taken(q1, q2, r2),
    ensures
        r1 is Some,
        r1->0@ == msgs,
        r2 is None,
{
    let k = msgs.len() as int;
    assert forall|i: int| 0 <= i <= k implies #[trigger] qs[i].pending() == msgs.take(i) by {
        lemma_pushes_prefix(qs, msgs, i);
    }
    assert(msgs.take(k) =~= msgs);
    assert(MessageQueue::pushed(qs[k - 1], qs[k], msgs[k - 1]));
}

proof fn lemma_pushes_prefix(qs: Seq<MessageQueue>, msgs: Seq<RuskynetMsg>, i: int)
    requires
        qs.len() == msgs.len() + 1,
        qs[0].queue is None,
        forall|j: int| 0 <= j < msgs.len() ==> MessageQueue::pushed(#[trigger] qs[j], qs[j + 1], msgs[j]),
        0 <= i <= msgs.len(),
    ensures
        qs[i].pending() == msgs.take(i),
    decreases i,
{
    if i == 0 {
        assert(msgs.take(0) =~= Seq::<RuskynetMsg>::empty());
    } else {
        lemma_pushes_prefix(qs, msgs, i - 1);
        assert(MessageQueue::pushed(qs[i - 1], qs[i], msgs[i - 1]));
        assert(msgs.take(i - 1).push(msgs[i - 1]) =~= msgs.take(i));
    }
}

/// The global queue of scheduled services, each named by its handle.
pub struct GlobalQueue {
    global_que: Option<VecDeque<u32>>,
}

impl GlobalQueue {
    /// The scheduled handles, the next one to run first.
    pub closed spec fn view(&self) -> Seq<u32> {
        match self.global_que {
            Some(q) => q@,
            None => Seq::empty(),
        }
    }

    pub fn new() -> (g: Self)
        ensures
            g@ == Seq::<u32>::empty(),
    {
        GlobalQueue { global_que: None }
    }

    /// Schedules `queue` (a service handle) at the back.
    pub fn push_queue(&mut self, queue: u32)
        ensures
            final(self)@ == old(self)@.push(queue),
    {
        match self.global_que.take() {
            None => {
                let mut temp = VecDeque::new();
                temp.push_back(queue);
                self.global_que = Some(temp);
            },
            Some(mut temp) => {
                temp.push_back(queue);
                self.global_que = Some(temp);
            },
        }
    }

    /// Takes the handle at the front, if any.
    pub fn pop_queue(&mut self) -> (r: Option<u32>)
        ensures
            old(self)@.len() == 0 ==> r is None && final(self)@ == old(self)@,
            old(self)@.len() > 0 ==> r == Some(old(self)@[0]) && final(self)@ == old(
                self,
            )@.drop_first(),
    {
        match self.global_que.take() {
            None => None,
            Some(mut temp) => {
                let r = temp.pop_front();
                self.global_que = Some(temp);
                r
            },
        }
    }
}

} // verus!
