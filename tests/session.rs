use rexa::codec::{tokenize, TokenTree};
use rexa::handshake::SigningKey;
use rexa::locator::NodeLocator;
use rexa::manager::CapTpSessionManager;
use rexa::msg::{DescExport, DescImport, DescImportObject};
use rexa::resolver::{already_resolved_reply, ResolveError, Resolver};
use rexa::session::{
    BootstrapEvent, CapTpSession, Event, RecvError, RemoteObject, SendError, Step,
};
use rexa::tables::ExportManager;

fn session(name: &str, peer: &str, seed: u8) -> CapTpSession {
    let key = SigningKey::from_bytes([seed; 32]);
    let peer_key = SigningKey::from_bytes([seed.wrapping_add(1); 32]).verifying_key();
    CapTpSession::new(key, peer_key, NodeLocator::new(peer.to_string(), name.to_string()))
}

fn receive(s: &mut CapTpSession, bytes: &[u8]) -> Result<Step, RecvError> {
    let (tree, n) = tokenize(bytes).unwrap();
    assert_eq!(n, bytes.len());
    s.recv_event(tree)
}

fn sym(s: &str) -> TokenTree {
    TokenTree::Symbol(s.to_string())
}

#[test]
fn fetch_round_trip() {
    let mut a = session("mock", "b", 1);
    let mut b = session("mock", "a", 3);
    let (mut resolver, answer) = Resolver::new();
    let resolver_id = 100;
    let request = b.fetch(vec![1, 2, 3], resolver_id).unwrap();
    let fetch = match receive(&mut a, &request).unwrap() {
        Step::Event(Event::Bootstrap(BootstrapEvent::Fetch { swiss, resolver })) => {
            assert_eq!(swiss, vec![1, 2, 3]);
            resolver
        }
        other => panic!("unexpected {:?}", other),
    };
    let reply = fetch.fulfill(DescExport { position: 42 }, None, DescImport::bootstrap());
    let bytes = a.send_msg(&reply.to_tokens()).unwrap();
    match receive(&mut b, &bytes).unwrap() {
        Step::Deliver { object, args, .. } => {
            assert_eq!(object, resolver_id);
            resolver.deliver(args).unwrap();
        }
        other => panic!("unexpected {:?}", other),
    }
    let args = futures::executor::block_on(answer.receiver).unwrap().unwrap();
    let obj = b.fetch_reply(args).unwrap();
    assert_eq!(obj.position.position, 42);
    assert_eq!(b.into_remote_object(DescExport { position: 42 }), Some(obj));
}

#[test]
fn deliver_and_with_promise_fulfilled() {
    let mut a = session("mock", "b", 1);
    let mut b = session("mock", "a", 3);
    let handler = 7;
    let pos = a.export_object(handler).unwrap();
    b.record_import(pos.position);
    let target = b.into_remote_object(DescExport { position: pos.position }).unwrap();
    let (mut resolver, answer) = Resolver::new();
    let call = b.deliver_and(&target, vec![sym("ping")], 200).unwrap();
    let caller = match receive(&mut a, &call).unwrap() {
        Step::Deliver { object, args, resolver } => {
            assert_eq!(object, handler);
            assert_eq!(args.len(), 1);
            assert_eq!(args[0].encode(), sym("ping").encode());
            resolver
        }
        other => panic!("unexpected {:?}", other),
    };
    let reply = caller.fulfill(vec![sym("pong")], None, DescImport::bootstrap());
    let bytes = a.send_msg(&reply.to_tokens()).unwrap();
    match receive(&mut b, &bytes).unwrap() {
        Step::Deliver { object, args, .. } => {
            assert_eq!(object, 200);
            resolver.deliver(args).unwrap();
        }
        other => panic!("unexpected {:?}", other),
    }
    let result = futures::executor::block_on(answer.receiver).unwrap().unwrap();
    assert_eq!(result.len(), 1);
    assert_eq!(result[0].encode(), sym("pong").encode());
}

#[test]
fn broken_promise() {
    let mut a = session("mock", "b", 1);
    let mut b = session("mock", "a", 3);
    let pos = a.export_object(7).unwrap();
    b.record_import(pos.position);
    let target = b.into_remote_object(DescExport { position: pos.position }).unwrap();
    let (mut resolver, answer) = Resolver::new();
    let call = b.deliver_and(&target, vec![sym("ping")], 200).unwrap();
    let caller = match receive(&mut a, &call).unwrap() {
        Step::Deliver { resolver, .. } => resolver,
        other => panic!("unexpected {:?}", other),
    };
    let reply = caller.break_promise(TokenTree::Str("nope".to_string()));
    let bytes = a.send_msg(&reply.to_tokens()).unwrap();
    match receive(&mut b, &bytes).unwrap() {
        Step::DeliverOnly { object, args } => {
            assert_eq!(object, 200);
            resolver.deliver(args).unwrap();
        }
        other => panic!("unexpected {:?}", other),
    }
    let reason = futures::executor::block_on(answer.receiver).unwrap().unwrap_err();
    assert_eq!(reason.encode(), TokenTree::Str("nope".to_string()).encode());
}

#[test]
fn unknown_target_breaks_the_callers_promise() {
    let mut a = session("mock", "b", 1);
    let mut b = session("mock", "a", 3);
    let target = RemoteObject { position: DescExport { position: 9999 } };
    let (mut resolver, answer) = Resolver::new();
    let call = b.deliver_and(&target, vec![sym("ping")], 200).unwrap();
    let reply = match receive(&mut a, &call).unwrap() {
        Step::Reply(reply) => reply,
        other => panic!("unexpected {:?}", other),
    };
    assert!(!a.is_aborted());
    let bytes = a.send_msg(&reply.to_tokens()).unwrap();
    match receive(&mut b, &bytes).unwrap() {
        Step::DeliverOnly { object, args } => {
            assert_eq!(object, 200);
            resolver.deliver(args).unwrap();
        }
        other => panic!("unexpected {:?}", other),
    }
    let reason = futures::executor::block_on(answer.receiver).unwrap().unwrap_err();
    assert_eq!(reason.encode(), TokenTree::Str("unknown delivery target".to_string()).encode());
}

#[test]
fn unknown_target_of_a_one_way_delivery_is_an_error() {
    let mut a = session("mock", "b", 1);
    let b = session("mock", "a", 3);
    let target = RemoteObject { position: DescExport { position: 9999 } };
    let bytes = b.deliver_only(&target, vec![sym("ping")]).unwrap();
    match receive(&mut a, &bytes) {
        Err(RecvError::UnknownTarget(pos, args)) => {
            assert_eq!(pos, 9999);
            assert_eq!(args.len(), 1);
        }
        other => panic!("unexpected {:?}", other),
    }
}

#[test]
fn abort_propagation() {
    let mut a = session("mock", "b", 1);
    let mut b = session("mock", "a", 3);
    let bytes = a.abort("bye".to_string()).unwrap();
    assert!(a.is_aborted());
    match receive(&mut b, &bytes).unwrap() {
        Step::Event(Event::Abort(reason)) => assert_eq!(reason, "bye"),
        other => panic!("unexpected {:?}", other),
    }
    let target = b.get_remote_bootstrap();
    match b.deliver(&target, vec![], None, DescImport::bootstrap()) {
        Err(SendError::SessionAborted(reason)) => assert_eq!(reason, "bye"),
        other => panic!("unexpected {:?}", other),
    }
    match receive(&mut b, &TokenTree::Int(1).encode()) {
        Err(RecvError::SessionAborted(reason)) => assert_eq!(reason, "bye"),
        other => panic!("unexpected {:?}", other),
    }
}

#[test]
fn abort_twice_is_abort_once() {
    let mut a = session("mock", "b", 1);
    assert!(a.abort("one".to_string()).is_ok());
    assert!(matches!(a.abort("two".to_string()), Err(SendError::SessionAbortedLocally)));
    assert!(a.is_aborted());
    assert!(matches!(a.send_msg(&TokenTree::Int(1)), Err(SendError::SessionAbortedLocally)));
    assert!(matches!(
        a.recv_event(TokenTree::Int(1)),
        Err(RecvError::SessionAbortedLocally)
    ));
}

#[test]
fn export_positions_increase_from_one() {
    let mut s = session("mock", "b", 1);
    let first = s.export_object(10).unwrap().position;
    let second = s.export_object(11).unwrap().position;
    let third = s.export_object(12).unwrap().position;
    assert_eq!((first, second, third), (1, 2, 3));
    assert_eq!(s.exported(2), Some(11));
    assert_eq!(s.exported(0), None);
    let mut table = ExportManager::new();
    let q1 = table.export_object(5).unwrap().position;
    assert_eq!(table.remove(q1), Some(5));
    let q2 = table.export_object(6).unwrap().position;
    assert!(q2 > q1);
    assert_eq!(table.get(q1), None);
}

#[test]
fn resolver_resolves_once() {
    let (mut resolver, answer) = Resolver::new();
    assert_eq!(resolver.fulfill(vec![TokenTree::Int(1)]), Ok(()));
    assert_eq!(
        resolver.break_promise(TokenTree::Str("late".to_string())),
        Err(ResolveError::AlreadyResolved)
    );
    assert_eq!(resolver.fulfill(vec![]), Err(ResolveError::AlreadyResolved));
    let args = futures::executor::block_on(answer.receiver).unwrap().unwrap();
    assert_eq!(args.len(), 1);
    let caller = rexa::resolver::GenericResolver::new(None, DescImport::Object(DescImportObject { position: 5 }));
    let reply = already_resolved_reply(caller);
    assert_eq!(reply.to_desc.position, 5);
    assert_eq!(reply.args[1].encode(), TokenTree::Str("promise already resolved".to_string()).encode());
}

#[test]
fn resolver_without_a_waiter_is_abandoned() {
    let (mut resolver, answer) = Resolver::new();
    drop(answer);
    assert_eq!(resolver.fulfill(vec![]), Err(ResolveError::Abandoned));
    assert_eq!(resolver.fulfill(vec![]), Err(ResolveError::AlreadyResolved));
    assert_eq!(resolver.deliver(vec![sym("other")]), Err(ResolveError::UnknownVerb));
}

#[test]
fn imports_decide_remote_objects() {
    let mut s = session("mock", "b", 1);
    assert!(s.into_remote_object(DescExport { position: 0 }).is_some());
    assert!(s.into_remote_object(DescExport { position: 4 }).is_none());
    s.record_import(4);
    assert_eq!(s.into_remote_object(DescExport { position: 4 }).unwrap().position.position, 4);
}

#[test]
fn bootstrap_calls_other_than_fetch_are_errors() {
    let mut a = session("mock", "b", 1);
    let b = session("mock", "a", 3);
    let boot = b.get_remote_bootstrap();
    let bytes = b.deliver_only(&boot, vec![sym("deposit-gift")]).unwrap();
    assert!(matches!(receive(&mut a, &bytes), Err(RecvError::Bootstrap(_))));
    let bytes = b
        .deliver(&boot, vec![sym("withdraw-gift")], None, DescImport::bootstrap())
        .unwrap();
    assert!(matches!(receive(&mut a, &bytes), Err(RecvError::Bootstrap(_))));
    let bytes = b
        .deliver(&boot, vec![sym("fetch"), TokenTree::Int(3)], None, DescImport::bootstrap())
        .unwrap();
    assert!(matches!(receive(&mut a, &bytes), Err(RecvError::Bootstrap(_))));
}

#[test]
fn non_operations_fail_to_decode() {
    let mut a = session("mock", "b", 1);
    assert!(matches!(a.recv_event(TokenTree::Int(1)), Err(RecvError::Decode(_))));
}

#[test]
fn session_deduplication() {
    let mut manager: CapTpSessionManager<u32> = CapTpSessionManager::new();
    assert!(manager.get("peer").is_none());
    manager.finalize_session("peer".to_string(), 1);
    assert_eq!(manager.get("peer"), Some(&1));
    assert_eq!(manager.get("peer"), Some(&1));
    manager.finalize_session("other".to_string(), 2);
    manager.finalize_session("peer".to_string(), 3);
    assert_eq!(manager.get("peer"), Some(&3));
    assert_eq!(manager.get("other"), Some(&2));
}

#[test]
fn gift_and_fetch_to_calls_reach_the_bootstrap() {
    let mut a = session("mock", "b", 1);
    let b = session("mock", "a", 3);
    let bytes = b.fetch_to(vec![9], Some(4), DescImport::bootstrap()).unwrap();
    match receive(&mut a, &bytes).unwrap() {
        Step::Event(Event::Bootstrap(BootstrapEvent::Fetch { swiss, resolver })) => {
            assert_eq!(swiss, vec![9]);
            assert_eq!(resolver.base.answer_pos, Some(4));
        }
        other => panic!("unexpected {:?}", other),
    }
    let bytes = b.deposit_gift(5, DescImport::Object(DescImportObject { position: 2 })).unwrap();
    match receive(&mut a, &bytes) {
        Err(RecvError::Bootstrap(args)) => {
            assert_eq!(args.len(), 3);
            assert_eq!(args[0].encode(), sym("deposit-gift").encode());
        }
        other => panic!("unexpected {:?}", other),
    }
}

#[test]
fn fulfill_and_exports_a_resolver() {
    let mut a = session("mock", "b", 1);
    let mut b = session("mock", "a", 3);
    let pos = a.export_object(7).unwrap();
    let caller = rexa::resolver::GenericResolver::new(None, DescImport::Object(pos));
    let bytes = b.fulfill_and(caller, vec![TokenTree::Int(1)], 300).unwrap();
    assert_eq!(b.exported(1), Some(300));
    match receive(&mut a, &bytes).unwrap() {
        Step::Deliver { object, args, resolver } => {
            assert_eq!(object, 7);
            assert_eq!(args[0].encode(), sym("fulfill").encode());
            assert_eq!(resolver.resolve_me_desc, DescImport::Object(DescImportObject { position: 1 }));
        }
        other => panic!("unexpected {:?}", other),
    }
}

#[test]
fn receive_check_follows_aborts() {
    let mut a = session("mock", "b", 1);
    assert!(a.check_recv().is_ok());
    a.set_remote_abort("gone".to_string());
    assert!(matches!(a.check_recv(), Err(RecvError::SessionAborted(r)) if r == "gone"));
    a.local_abort();
    assert!(matches!(a.check_recv(), Err(RecvError::SessionAbortedLocally)));
}

#[test]
fn swiss_registry_maps_numbers_to_objects() {
    let mut r = rexa::tables::SwissRegistry::new();
    assert_eq!(r.insert(vec![1, 2, 3], 5), None);
    assert_eq!(r.insert(vec![1, 2, 3], 6), Some(5));
    assert_eq!(r.get(&[1, 2, 3]), Some(6));
    assert_eq!(r.get(&[1]), None);
    assert_eq!(r.remove(&[1, 2, 3]), Some(6));
    assert_eq!(r.get(&[1, 2, 3]), None);
}

#[test]
fn fetch_accepts_a_symbol_swiss_number() {
    let mut a = session("mock", "b", 1);
    let b = session("mock", "a", 3);
    let boot = b.get_remote_bootstrap();
    let bytes = b
        .deliver(&boot, vec![sym("fetch"), sym("abc")], None, DescImport::bootstrap())
        .unwrap();
    match receive(&mut a, &bytes).unwrap() {
        Step::Event(Event::Bootstrap(BootstrapEvent::Fetch { swiss, .. })) => assert_eq!(swiss, b"abc".to_vec()),
        other => panic!("unexpected {:?}", other),
    }
}

#[test]
fn resolver_hands_over_what_it_was_given() {
    let (mut resolver, answer) = Resolver::new();
    let (sender, value) = resolver.take_fulfill(vec![TokenTree::Int(8)]).unwrap();
    assert!(matches!(resolver.take_break(TokenTree::Int(1)), Err(ResolveError::AlreadyResolved)));
    match &value {
        Ok(args) => assert_eq!(args[0].encode(), TokenTree::Int(8).encode()),
        Err(_) => panic!("expected arguments"),
    }
    assert!(sender.send(value).is_ok());
    let args = futures::executor::block_on(answer.receiver).unwrap().unwrap();
    assert_eq!(args[0].encode(), TokenTree::Int(8).encode());

    let (mut resolver, answer) = Resolver::new();
    assert_eq!(resolver.break_promise(TokenTree::Str("no".to_string())), Ok(()));
    let reason = futures::executor::block_on(answer.receiver).unwrap().unwrap_err();
    assert_eq!(reason.encode(), TokenTree::Str("no".to_string()).encode());
}
