use ruskynet::rsknet_global::{boot_strap, get_ctx_by_handle, RsknetGlobal};
use ruskynet::rsknet_mq::RuskynetMsg;
use ruskynet::rsknet_server::{context_push, rsknet_send, RskynetCallback, RskynetContext};
use ruskynet::service_snlua::launch_service_file;

#[test]
fn bootstrap_is_handle_one_with_its_launch_message() {
    let mut g = RsknetGlobal::new();
    let h = boot_strap(&mut g);
    assert_eq!(h, 1);
    let ctx = get_ctx_by_handle(&g, 1);
    assert_eq!(ctx.handle, 1);
    assert_eq!(ctx.queue.handle, 1);
    assert_eq!(ctx.session_id, 1);
    assert_eq!(ctx.cb, Some(RskynetCallback::Launch));
    assert!(ctx.queue.in_global);
    let (dh, msgs) = g.dispatch_next().unwrap();
    assert_eq!(dh, 1);
    assert_eq!(msgs.len(), 1);
    assert_eq!(msgs[0].data, b"snlua bootstrap".to_vec());
    assert_eq!((msgs[0].proto_type, msgs[0].session, msgs[0].source), (0, 0, 1));
    assert!(g.dispatch_next().is_none());
    assert!(!get_ctx_by_handle(&g, 1).queue.in_global);
}

#[test]
fn launched_services_get_increasing_handles() {
    let mut g = RsknetGlobal::new();
    assert_eq!(RskynetContext::new(&mut g, "snlua a"), 1);
    assert_eq!(RskynetContext::new(&mut g, "snlua b"), 2);
    assert_eq!(g.handles.handle_index, 2);
    assert!(g.handles.has_context(1) && g.handles.has_context(2) && !g.handles.has_context(3));
    assert_eq!(g.dispatch_next().unwrap().0, 1);
    assert_eq!(g.dispatch_next().unwrap().0, 2);
}

#[test]
fn send_with_session_zero_takes_a_fresh_session() {
    let mut g = RsknetGlobal::new();
    let a = boot_strap(&mut g);
    let b = RskynetContext::new(&mut g, "snlua b");
    g.dispatch_next();
    g.dispatch_next();
    assert_eq!(g.rsknet_send(a, b, 2, 0, "one".to_string()), 2);
    assert_eq!(g.rsknet_send(a, b, 2, 0, "two".to_string()), 3);
    assert_eq!(g.rsknet_send(a, b, 2, 77, "three".to_string()), 77);
    assert_eq!(get_ctx_by_handle(&g, a).session_id, 3);
    let (h, msgs) = g.dispatch_next().unwrap();
    assert_eq!(h, b);
    let datas: Vec<Vec<u8>> = msgs.iter().map(|m| m.data.clone()).collect();
    assert_eq!(datas, vec![b"one".to_vec(), b"two".to_vec(), b"three".to_vec()]);
    let sessions: Vec<u32> = msgs.iter().map(|m| m.session).collect();
    assert_eq!(sessions, vec![2, 3, 77]);
    assert!(msgs.iter().all(|m| m.source == a && m.proto_type == 2));
    assert!(g.dispatch_next().is_none());
}

#[test]
fn a_busy_service_is_scheduled_once() {
    let mut g = RsknetGlobal::new();
    let a = boot_strap(&mut g);
    let b = RskynetContext::new(&mut g, "snlua b");
    g.rsknet_send(b, a, 1, 5, "x".to_string());
    g.rsknet_send(b, a, 1, 6, "y".to_string());
    let (h1, m1) = g.dispatch_next().unwrap();
    let (h2, m2) = g.dispatch_next().unwrap();
    assert_eq!((h1, m1.len()), (a, 3));
    assert_eq!((h2, m2.len()), (b, 1));
    assert!(g.dispatch_next().is_none());
}

#[test]
fn command_timeout_answers_a_fresh_session() {
    let mut g = RsknetGlobal::new();
    let a = boot_strap(&mut g);
    g.dispatch_next();
    let r = g.rsknet_command(a, "TIMEOUT".to_string(), String::new());
    assert_eq!(r, Some("2".to_string()));
    let (h, msgs) = g.dispatch_next().unwrap();
    assert_eq!(h, a);
    assert_eq!(msgs[0].data, b"TIMEOUT".to_vec());
    assert_eq!((msgs[0].proto_type, msgs[0].session, msgs[0].source), (1, 2, a));
}

#[test]
fn command_launch_answers_the_new_handle() {
    let mut g = RsknetGlobal::new();
    let a = boot_strap(&mut g);
    let r = g.rsknet_command(a, "LAUNCH".to_string(), "snlua worker".to_string());
    assert_eq!(r, Some("2".to_string()));
    g.dispatch_next();
    let (h, msgs) = g.dispatch_next().unwrap();
    assert_eq!(h, 2);
    assert_eq!(msgs[0].data, b"snlua worker".to_vec());
    assert_eq!(msgs[0].source, 2);
}

#[test]
fn unknown_command_answers_nothing() {
    let mut g = RsknetGlobal::new();
    let a = boot_strap(&mut g);
    assert_eq!(g.rsknet_command(a, "EXIT".to_string(), String::new()), None);
    assert_eq!(get_ctx_by_handle(&g, a).session_id, 1);
}

#[test]
fn free_send_and_push_deliver() {
    let mut g = RsknetGlobal::new();
    let a = boot_strap(&mut g);
    g.dispatch_next();
    assert_eq!(rsknet_send(&mut g, 9, a, 4, 8, b"raw".to_vec()), 1);
    assert_eq!(context_push(&mut g, a, RuskynetMsg::new(6, b"sock".to_vec(), 0, 0)), 0);
    let (_, msgs) = g.dispatch_next().unwrap();
    assert_eq!(msgs.len(), 2);
    assert_eq!((msgs[0].source, msgs[0].session, msgs[0].proto_type), (9, 8, 4));
    assert_eq!(msgs[1].data, b"sock".to_vec());
}

#[test]
fn callback_slot_keeps_a_newly_installed_callback() {
    let mut g = RsknetGlobal::new();
    let a = boot_strap(&mut g);
    let cb = g.take_cb(a).unwrap();
    assert_eq!(cb, RskynetCallback::Launch);
    assert_eq!(get_ctx_by_handle(&g, a).cb, None);
    g.set_cb(a, RskynetCallback::Lua);
    g.restore_cb(a, cb);
    assert_eq!(get_ctx_by_handle(&g, a).cb, Some(RskynetCallback::Lua));
    let cb = g.take_cb(a).unwrap();
    g.restore_cb(a, cb);
    assert_eq!(get_ctx_by_handle(&g, a).cb, Some(RskynetCallback::Lua));
}

#[test]
fn launch_names_the_script() {
    assert_eq!(launch_service_file(b"snlua bootstrap"), Some("bootstrap.lua".to_string()));
    assert_eq!(launch_service_file(b"  snlua   worker extra"), Some("worker.lua".to_string()));
    assert_eq!(launch_service_file(b"snlua"), None);
    assert_eq!(launch_service_file(&[0xc3]), None);
}
