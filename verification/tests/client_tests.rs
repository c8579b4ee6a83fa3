use print_ui::client::{Action, Client};
use std::cell::RefCell;
use std::rc::Rc;
use print_ui::json::{Json, Member};
use print_ui::router::{RouteError, RpcOperations};

fn key(s: &str) -> Vec<u8> {
    s.as_bytes().to_vec()
}

fn obj(members: Vec<(&str, Json)>) -> Json {
    Json::Obj(
        members
            .into_iter()
            .map(|(k, v)| Member { key: key(k), value: v })
            .collect(),
    )
}

#[test]
fn new_view_request_and_response() {
    // send `new_view` for a.txt, then inject the engine's response: the
    // callback registered for id 0 receives Ok("view-id-1").
    let mut client: Client<&str> = Client::new();
    let (id, line) = client.send_request(
        "new_view",
        obj(vec![("file_path", Json::Str(key("a.txt")))]),
        "the new_view callback",
    );
    assert_eq!(id, 0);
    assert_eq!(
        String::from_utf8(line).unwrap(),
        "{\"method\":\"new_view\",\"params\":{\"file_path\":\"a.txt\"},\"id\":0}\n"
    );
    match client.process_line(b"{\"id\":0,\"result\":\"view-id-1\"}") {
        Action::Complete(cb, result) => {
            assert_eq!(cb, "the new_view callback");
            assert_eq!(result, Ok(Json::Str(key("view-id-1"))));
        }
        other => panic!("expected completion, got {:?}", other),
    }
}

#[test]
fn responses_correlate_by_id_not_order() {
    // two requests, responses injected in reverse order: each callback
    // receives the result bearing its own identifier.
    let mut client: Client<u32> = Client::new();
    let (id0, _) = client.send_request("a", obj(vec![]), 100);
    let (id1, _) = client.send_request("b", obj(vec![]), 101);
    assert_eq!((id0, id1), (0, 1));
    match client.process_line(b"{\"id\":1,\"result\":\"for-b\"}") {
        Action::Complete(cb, result) => {
            assert_eq!(cb, 101);
            assert_eq!(result, Ok(Json::Str(key("for-b"))));
        }
        other => panic!("expected completion of id 1, got {:?}", other),
    }
    match client.process_line(b"{\"id\":0,\"result\":\"for-a\"}") {
        Action::Complete(cb, result) => {
            assert_eq!(cb, 100);
            assert_eq!(result, Ok(Json::Str(key("for-a"))));
        }
        other => panic!("expected completion of id 0, got {:?}", other),
    }
}

#[test]
fn callbacks_fire_exactly_once() {
    let mut client: Client<u32> = Client::new();
    let (id, _) = client.send_request("a", obj(vec![]), 7);
    assert!(matches!(
        client.process_line(b"{\"id\":0,\"result\":null}"),
        Action::Complete(7, Ok(Json::Null))
    ));
    // a duplicate response finds nothing to complete
    match client.process_line(b"{\"id\":0,\"result\":null}") {
        Action::Stale(sid) => assert_eq!(sid, id),
        other => panic!("expected a stale response, got {:?}", other),
    }
}

#[test]
fn theme_changed_notification_is_delivered() {
    let mut client: Client<u32> = Client::new();
    let line = b"{\"method\":\"theme_changed\",\"params\":{\"name\":\"InspiredGitHub\",\"theme\":{\"foreground\":{\"r\":0,\"g\":0,\"b\":0,\"a\":255}}}}";
    match client.process_line(line) {
        Action::Deliver(RpcOperations::ThemeChanged(tc)) => {
            assert_eq!(tc.name, key("InspiredGitHub"));
            assert_eq!(
                tc.theme,
                obj(vec![(
                    "foreground",
                    obj(vec![
                        ("r", Json::Num(key("0"))),
                        ("g", Json::Num(key("0"))),
                        ("b", Json::Num(key("0"))),
                        ("a", Json::Num(key("255"))),
                    ]),
                )])
            );
        }
        other => panic!("expected a theme change, got {:?}", other),
    }
}

#[test]
fn unknown_notification_is_recorded_and_stream_continues() {
    let mut client: Client<u32> = Client::new();
    match client.process_line(b"{\"method\":\"not_a_real_method\",\"params\":{}}") {
        Action::Unrouted(RouteError::UnknownMethod(m)) => {
            assert_eq!(m, key("not_a_real_method"));
        }
        other => panic!("expected an unknown-method diagnostic, got {:?}", other),
    }
    // the stream keeps serving subsequent events
    assert!(matches!(
        client.process_line(b"{\"method\":\"alert\",\"params\":{\"msg\":\"hi\"}}"),
        Action::Deliver(RpcOperations::Alert(_))
    ));
}

#[test]
fn unknown_inbound_request_gets_error_response() {
    let mut client: Client<u32> = Client::new();
    match client.process_line(b"{\"method\":\"paint_it_blue\",\"params\":{},\"id\":7}") {
        Action::Reply(line) => {
            assert_eq!(
                String::from_utf8(line).unwrap(),
                "{\"id\":7,\"error\":\"unknown method\"}\n"
            );
        }
        other => panic!("expected an error reply, got {:?}", other),
    }
    // the connection stays open and keeps working
    assert!(client.is_connected());
    assert!(matches!(
        client.process_line(b"{\"method\":\"alert\",\"params\":{\"msg\":\"x\"}}"),
        Action::Deliver(RpcOperations::Alert(_))
    ));
}

#[test]
fn measure_width_request_is_handed_inbound() {
    let mut client: Client<u32> = Client::new();
    match client.process_line(b"{\"method\":\"measure_width\",\"params\":[{\"id\":1}],\"id\":3}") {
        Action::Inbound(RpcOperations::MeasureWidth((id, mw))) => {
            assert_eq!(id, 3);
            assert_eq!(mw.queries, Json::Arr(vec![obj(vec![("id", Json::Num(key("1"))),])]));
        }
        other => panic!("expected an inbound request, got {:?}", other),
    }
    let reply = client.respond(3, Ok(Json::Arr(vec![Json::Num(key("120"))])));
    assert_eq!(
        String::from_utf8(reply).unwrap(),
        "{\"id\":3,\"result\":[120]}\n"
    );
}

#[test]
fn malformed_line_does_not_stop_the_loop() {
    let mut client: Client<u32> = Client::new();
    let lines: Vec<Vec<u8>> = vec![
        b"this is not a frame".to_vec(),
        b"{\"method\":\"alert\",\"params\":{\"msg\":\"after\"}}".to_vec(),
    ];
    let actions = client.process_lines(&lines);
    assert_eq!(actions.len(), 2);
    assert!(matches!(actions[0], Action::Malformed));
    assert!(matches!(
        &actions[1],
        Action::Deliver(RpcOperations::Alert(a)) if a.msg == key("after")
    ));
}

#[test]
fn notifications_are_delivered_in_wire_order() {
    let mut client: Client<u32> = Client::new();
    let lines: Vec<Vec<u8>> = vec![
        b"{\"method\":\"alert\",\"params\":{\"msg\":\"one\"}}".to_vec(),
        b"{\"method\":\"alert\",\"params\":{\"msg\":\"two\"}}".to_vec(),
        b"{\"method\":\"alert\",\"params\":{\"msg\":\"three\"}}".to_vec(),
    ];
    let actions = client.process_lines(&lines);
    let delivered: Vec<&Vec<u8>> = actions
        .iter()
        .filter_map(|a| match a {
            Action::Deliver(RpcOperations::Alert(al)) => Some(&al.msg),
            _ => None,
        })
        .collect();
    assert_eq!(delivered, vec![&key("one"), &key("two"), &key("three")]);
}

#[test]
fn send_notification_writes_one_line() {
    let mut client: Client<u32> = Client::new();
    let line = client.send_notification(
        "resize",
        obj(vec![
            ("width", Json::Num(key("1024"))),
            ("height", Json::Num(key("768"))),
        ]),
    );
    assert_eq!(
        String::from_utf8(line).unwrap(),
        "{\"method\":\"resize\",\"params\":{\"width\":1024,\"height\":768}}\n"
    );
}

#[test]
fn callbacks_run_as_closures_from_actions() {
    let seen: Rc<RefCell<Vec<Result<Json, Json>>>> = Rc::new(RefCell::new(Vec::new()));
    let seen2 = seen.clone();
    let mut client: Client<Box<dyn FnOnce(Result<Json, Json>)>> = Client::new();
    let (_, _) = client.send_request(
        "new_view",
        obj(vec![]),
        Box::new(move |r| seen2.borrow_mut().push(r)),
    );
    if let Action::Complete(cb, result) = client.process_line(b"{\"id\":0,\"result\":\"v\"}") {
        cb(result);
    } else {
        panic!("expected completion");
    }
    assert_eq!(&*seen.borrow(), &vec![Ok(Json::Str(key("v")))]);
}

#[test]
fn disconnect_drains_every_pending_request() {
    let mut client: Client<u32> = Client::new();
    client.send_request("a", obj(vec![]), 1);
    client.send_request("b", obj(vec![]), 2);
    let drained = client.disconnect();
    assert!(!client.is_connected());
    assert_eq!(drained, vec![(0, 1), (1, 2)]);
    assert_eq!(client.pending_count(), 0);
}
