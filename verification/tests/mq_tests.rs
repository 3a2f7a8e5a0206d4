use ruskynet::rsknet_monitor::RskynetMonitor;
use ruskynet::rsknet_mq::{GlobalQueue, MessageQueue, RuskynetMsg};
use ruskynet::rsknet_socket::GlobalReqRecord;

fn msg(session: u32) -> RuskynetMsg {
    RuskynetMsg::new(3, vec![session as u8, 9], session, 7)
}

#[test]
fn message_fields() {
    let m = RuskynetMsg::new(1, b"hi".to_vec(), 4, 2);
    assert_eq!(m.proto_type, 1);
    assert_eq!(m.data, b"hi".to_vec());
    assert_eq!(m.session, 4);
    assert_eq!(m.source, 2);
}

#[test]
fn new_queue_is_empty_and_unscheduled() {
    let mut q = MessageQueue::new();
    assert_eq!(q.handle, 0);
    assert!(!q.in_global);
    assert!(q.queue.is_none());
    assert!(q.get_msg().is_none());
}

#[test]
fn queue_hands_out_messages_in_push_order() {
    let mut q = MessageQueue::new();
    q.set_handle(5);
    q.in_global = true;
    q.push_msg(msg(1));
    q.push_msg(msg(2));
    q.push_msg(msg(3));
    assert!(q.in_global);
    let got = q.get_msg().unwrap();
    let sessions: Vec<u32> = got.iter().map(|m| m.session).collect();
    assert_eq!(sessions, vec![1, 2, 3]);
    assert!(!q.in_global);
    assert!(q.queue.is_none());
    assert_eq!(q.handle, 5);
    assert!(q.get_msg().is_none());
}

#[test]
fn global_queue_is_first_in_first_out() {
    let mut g = GlobalQueue::new();
    assert_eq!(g.pop_queue(), None);
    g.push_queue(4);
    g.push_queue(2);
    g.push_queue(9);
    assert_eq!(g.pop_queue(), Some(4));
    g.push_queue(1);
    assert_eq!(g.pop_queue(), Some(2));
    assert_eq!(g.pop_queue(), Some(9));
    assert_eq!(g.pop_queue(), Some(1));
    assert_eq!(g.pop_queue(), None);
}

#[test]
fn monitor_lets_one_check_through_per_wake_up() {
    let mut m = RskynetMonitor::new();
    assert!(!m.wait_data());
    m.wake_up();
    m.wake_up();
    assert!(m.wait_data());
    assert!(!m.wait_data());
    m.wake_up();
    assert!(m.wait_data());
}

#[test]
fn request_numbers_count_up_from_one() {
    let mut r = GlobalReqRecord::new();
    assert_eq!(r.id, 0);
    assert_eq!(r.add_req(), 1);
    assert_eq!(r.add_req(), 2);
    assert_eq!(r.add_req(), 3);
    assert_eq!(r.id, 3);
}

#[test]
fn pushes_onto_a_fresh_queue_come_back_in_order_once() {
    let mut q = MessageQueue::new();
    for s in 1..=5u32 {
        q.push_msg(msg(s));
    }
    let got = q.get_msg().unwrap();
    let sessions: Vec<u32> = got.iter().map(|m| m.session).collect();
    assert_eq!(sessions, vec![1, 2, 3, 4, 5]);
    assert!(q.get_msg().is_none());
}
