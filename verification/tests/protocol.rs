use uuis::choices::ClientRequest;
use uuis::codec::{encode_server_event, parse_client_request, parse_registration};
use uuis::session::{ConnAction, ConnEvent, Connection, Coordinator};
use uuis::types::{Event, Matcher, Registration, ServerEvent, SubscriptionMask};

fn default_registration() -> Registration {
    Registration {
        protocol_version: 0,
        subscribe_to: SubscriptionMask::default(),
        matcher: Matcher::Fuzzy,
    }
}

#[test]
fn version_gate_sends_one_too_old_and_never_registered() {
    let mut conn = Connection::new(7);
    let too_new = Registration { protocol_version: 1, ..default_registration() };
    let acts = conn.step(ConnEvent::Register(too_new));
    assert_eq!(acts.len(), 2);
    assert!(matches!(acts[0], ConnAction::Send(ServerEvent::ServerTooOld(0))));
    assert!(matches!(acts[1], ConnAction::Close));
    // whatever follows, the finished connection stays silent
    let more = conn.step(ConnEvent::Request(ClientRequest::Stop));
    assert!(more.is_empty());
    let more = conn.step(ConnEvent::Disconnected);
    assert!(more.is_empty());
}

#[test]
fn idle_server_registers_without_busy() {
    let mut server = Coordinator::new();
    let a = server.accept();
    assert_eq!(a, 0);
    let acts = server.handle(a, ConnEvent::Register(default_registration()));
    assert_eq!(acts.len(), 1);
    assert!(matches!(acts[0], ConnAction::RequestHandoff(Matcher::Fuzzy)));
    let acts = server.handle(a, ConnEvent::HandoffReady);
    assert_eq!(acts.len(), 1);
    assert!(matches!(acts[0], ConnAction::Send(ServerEvent::Registered(0))));
}

#[test]
fn busy_server_queues_second_client_then_registers_it() {
    let mut server = Coordinator::new();
    let a = server.accept();
    server.handle(a, ConnEvent::Register(default_registration()));
    server.handle(a, ConnEvent::HandoffReady);

    let b = server.accept();
    assert_eq!(b, 1);
    let acts = server.handle(b, ConnEvent::Register(default_registration()));
    assert_eq!(acts.len(), 1);
    assert!(matches!(acts[0], ConnAction::Send(ServerEvent::Busy)));

    // client A stops; its session finalizes and releases the lock
    let acts = server.handle(a, ConnEvent::Request(ClientRequest::Stop));
    assert!(matches!(acts[0], ConnAction::Dispatch(ClientRequest::Stop)));
    assert!(matches!(acts[1], ConnAction::ReleaseLock));
    assert!(matches!(acts[2], ConnAction::Close));

    let acts = server.grant(b);
    assert!(matches!(acts[0], ConnAction::RequestHandoff(_)));
    let acts = server.handle(b, ConnEvent::HandoffReady);
    assert!(matches!(acts[0], ConnAction::Send(ServerEvent::Registered(1))));
}

#[test]
fn at_most_one_connection_active() {
    let mut server = Coordinator::new();
    let a = server.accept();
    server.handle(a, ConnEvent::Register(default_registration()));
    server.handle(a, ConnEvent::HandoffReady);
    let b = server.accept();
    server.handle(b, ConnEvent::Register(default_registration()));
    let active = server
        .conns
        .iter()
        .filter(|c| matches!(c.phase, uuis::session::ConnPhase::Active))
        .count();
    assert_eq!(active, 1);
}

#[test]
fn disconnect_without_stop_dispatches_exactly_one_stop() {
    let mut server = Coordinator::new();
    let a = server.accept();
    let mut stops = 0;
    let mut all = Vec::new();
    all.extend(server.handle(a, ConnEvent::Register(default_registration())));
    all.extend(server.handle(a, ConnEvent::HandoffReady));
    all.extend(server.handle(a, ConnEvent::Request(ClientRequest::SetInput(String::from("x")))));
    all.extend(server.handle(a, ConnEvent::Disconnected));
    all.extend(server.handle(a, ConnEvent::Disconnected));
    for act in &all {
        if matches!(act, ConnAction::Dispatch(ClientRequest::Stop)) {
            stops += 1;
        }
    }
    assert_eq!(stops, 1);
}

#[test]
fn bad_request_line_keeps_session_alive() {
    let mut server = Coordinator::new();
    let a = server.accept();
    server.handle(a, ConnEvent::Register(default_registration()));
    server.handle(a, ConnEvent::HandoffReady);
    let acts = server.handle(a, ConnEvent::BadLine);
    assert!(acts.is_empty());
    assert!(matches!(server.conns[a].phase, uuis::session::ConnPhase::Active));
}

#[test]
fn forwarding_respects_the_mask() {
    let mask = SubscriptionMask::default();
    assert!(matches!(
        uuis::session::forward_one(Event::Select(Some(3)), mask),
        Some(ServerEvent::Select(Some(3)))
    ));
    assert!(matches!(
        uuis::session::forward_one(Event::WindowClosed, mask),
        Some(ServerEvent::WindowClosed)
    ));
    assert!(uuis::session::forward_one(Event::CursorMove(1), mask).is_none());
    assert!(uuis::session::forward_one(Event::InputChange(String::from("a")), mask).is_none());

    let all = mask
        .with(uuis::types::Subscription::CursorMove)
        .with(uuis::types::Subscription::InputChange);
    assert!(matches!(
        uuis::session::forward_one(Event::CursorMove(1), all),
        Some(ServerEvent::CursorMove(1))
    ));
    assert!(matches!(
        uuis::session::forward_one(Event::InputChange(String::from("a")), all),
        Some(ServerEvent::InputChange(_))
    ));
}

#[test]
fn encode_control_messages() {
    assert_eq!(encode_server_event(&ServerEvent::Busy), b"{\"key\":\"busy\"}\n");
    assert_eq!(
        encode_server_event(&ServerEvent::Registered(4)),
        b"{\"key\":\"registered\",\"data\":4}\n"
    );
    assert_eq!(
        encode_server_event(&ServerEvent::ServerTooOld(0)),
        b"{\"key\":\"server_too_old\",\"data\":0}\n"
    );
    assert_eq!(
        encode_server_event(&ServerEvent::Registered(1234567890)),
        b"{\"key\":\"registered\",\"data\":1234567890}\n"
    );
}

#[test]
fn encode_relayed_events() {
    assert_eq!(
        encode_server_event(&ServerEvent::Select(Some(2))),
        b"{\"key\":\"select\",\"data\":2}\n"
    );
    assert_eq!(
        encode_server_event(&ServerEvent::Select(None)),
        b"{\"key\":\"select\",\"data\":null}\n"
    );
    assert_eq!(
        encode_server_event(&ServerEvent::CursorMove(0)),
        b"{\"key\":\"cursor_move\",\"data\":0}\n"
    );
    assert_eq!(
        encode_server_event(&ServerEvent::WindowClosed),
        b"{\"key\":\"window_closed\"}\n"
    );
}

#[test]
fn encode_escapes_text() {
    let e = ServerEvent::InputChange(String::from("a\"b\\c\nd"));
    assert_eq!(
        encode_server_event(&e),
        b"{\"key\":\"input_change\",\"data\":\"a\\\"b\\\\c\\nd\"}\n"
    );
    let ctl = ServerEvent::InputChange(String::from("\u{1}"));
    assert_eq!(
        encode_server_event(&ctl),
        b"{\"key\":\"input_change\",\"data\":\"\\u0001\"}\n"
    );
}

#[test]
fn registration_defaults_apply() {
    let reg = parse_registration(&b"{\"protocol_version\":0}".to_vec()).unwrap();
    assert_eq!(reg.protocol_version, 0);
    assert_eq!(reg.subscribe_to, SubscriptionMask::default());
    assert!(reg.subscribe_to.select && reg.subscribe_to.window_closed);
    assert!(!reg.subscribe_to.cursor_move && !reg.subscribe_to.input_change);
    assert_eq!(reg.matcher, Matcher::Fuzzy);
}

#[test]
fn registration_with_flags_and_matcher() {
    let line = b"{\"protocol_version\":0,\"subscribe_to\":[\"cursor_move\",\"select\"],\"matcher\":\"none\"}".to_vec();
    let reg = parse_registration(&line).unwrap();
    assert!(reg.subscribe_to.select && reg.subscribe_to.cursor_move);
    assert!(!reg.subscribe_to.window_closed && !reg.subscribe_to.input_change);
    assert_eq!(reg.matcher, Matcher::Off);

    let empty = parse_registration(&b"{\"protocol_version\":0,\"subscribe_to\":[]}".to_vec()).unwrap();
    assert_eq!(empty.subscribe_to, SubscriptionMask::empty());
}

#[test]
fn registration_bad_lines_are_refused() {
    assert!(parse_registration(&b"".to_vec()).is_none());
    assert!(parse_registration(&b"not json".to_vec()).is_none());
    assert!(parse_registration(&b"{\"protocol_version\":256}".to_vec()).is_none());
    assert!(parse_registration(&b"{\"protocol_version\":0,\"subscribe_to\":[\"bogus\"]}".to_vec()).is_none());
    assert!(parse_registration(&b"{\"protocol_version\":0}x".to_vec()).is_none());
    assert!(parse_registration(&b"{\"protocol_version\":0,\"matcher\":\"smart\"}".to_vec()).is_none());
}

#[test]
fn too_new_version_still_parses_and_is_rejected_by_the_gate() {
    let reg = parse_registration(&b"{\"protocol_version\":9}".to_vec()).unwrap();
    assert_eq!(reg.protocol_version, 9);
    assert!(!uuis::version_supported(reg.protocol_version));
    assert!(uuis::version_supported(0));
}

#[test]
fn parse_stop_and_set_input() {
    assert!(matches!(
        parse_client_request(&b"{\"key\":\"stop\"}".to_vec()),
        Some(ClientRequest::Stop)
    ));
    match parse_client_request(&b"{\"key\":\"set_input\",\"data\":\"he\\\"llo\"}".to_vec()) {
        Some(ClientRequest::SetInput(t)) => assert_eq!(t, "he\"llo"),
        other => panic!("unexpected parse: {:?}", other),
    }
}

#[test]
fn parse_set_input_utf8() {
    // two-byte UTF-8 sequences pass through unchanged
    let line = "{\"key\":\"set_input\",\"data\":\"héllo\"}".as_bytes().to_vec();
    match parse_client_request(&line) {
        Some(ClientRequest::SetInput(t)) => assert_eq!(t, "héllo"),
        other => panic!("unexpected parse: {:?}", other),
    }
    // a bare invalid byte inside the string is refused
    let mut bad = b"{\"key\":\"set_input\",\"data\":\"".to_vec();
    bad.push(0xff);
    bad.extend_from_slice(b"\"}");
    assert!(parse_client_request(&bad).is_none());
}

#[test]
fn parse_set_choices_sorts_and_dedups() {
    let line = b"{\"key\":\"set_choices\",\"data\":{\"options\":[{\"priority\":5,\"id\":2,\"text\":\"b\"},{\"priority\":1,\"id\":9,\"text\":\"z\"},{\"priority\":5,\"id\":2,\"text\":\"b\"}],\"selected\":1}}".to_vec();
    match parse_client_request(&line) {
        Some(ClientRequest::SetChoices(cs)) => {
            assert_eq!(cs.len(), 2);
            assert_eq!(cs.options[0].priority, 1);
            assert_eq!(cs.options[0].id, 9);
            assert_eq!(cs.options[1].priority, 5);
            assert_eq!(cs.options[1].id, 2);
            assert_eq!(cs.selected, Some(1));
        },
        other => panic!("unexpected parse: {:?}", other),
    }
}

#[test]
fn parse_set_choices_optional_members() {
    let line = b"{\"key\":\"set_choices\",\"data\":{\"options\":[{\"id\":1,\"text\":\"a\"}]}}".to_vec();
    match parse_client_request(&line) {
        Some(ClientRequest::SetChoices(cs)) => {
            assert_eq!(cs.len(), 1);
            assert_eq!(cs.options[0].priority, 0);
            assert_eq!(cs.selected, None);
        },
        other => panic!("unexpected parse: {:?}", other),
    }
    let null_sel = b"{\"key\":\"set_choices\",\"data\":{\"options\":[],\"selected\":null}}".to_vec();
    match parse_client_request(&null_sel) {
        Some(ClientRequest::SetChoices(cs)) => {
            assert!(cs.is_empty());
            assert_eq!(cs.selected, None);
        },
        other => panic!("unexpected parse: {:?}", other),
    }
}

#[test]
fn registration_accepts_whitespace_between_tokens() {
    let line = b" { \"protocol_version\" : 0 ,\t\"matcher\" : \"none\" } ".to_vec();
    let reg = parse_registration(&line).unwrap();
    assert_eq!(reg.protocol_version, 0);
    assert_eq!(reg.matcher, Matcher::Off);
    let spaced = b"{\"protocol_version\": 0}".to_vec();
    assert!(parse_registration(&spaced).is_some());
}

#[test]
fn registration_accepts_members_in_any_order() {
    let line = b"{\"matcher\":\"none\",\"subscribe_to\":[\"select\"],\"protocol_version\":3}".to_vec();
    let reg = parse_registration(&line).unwrap();
    assert_eq!(reg.protocol_version, 3);
    assert_eq!(reg.matcher, Matcher::Off);
    assert!(reg.subscribe_to.select && !reg.subscribe_to.window_closed);
}

#[test]
fn registration_refuses_duplicate_members() {
    let line = b"{\"protocol_version\":0,\"protocol_version\":1}".to_vec();
    assert!(parse_registration(&line).is_none());
}

#[test]
fn request_accepts_data_before_key() {
    let line = b"{\"data\":\"hi\",\"key\":\"set_input\"}".to_vec();
    match parse_client_request(&line) {
        Some(ClientRequest::SetInput(t)) => assert_eq!(t, "hi"),
        other => panic!("unexpected parse: {:?}", other),
    }
    let choices = b"{ \"data\" : {\"selected\":0,\"options\":[ {\"text\":\"a\",\"id\":1} ]}, \"key\":\"set_choices\" }".to_vec();
    match parse_client_request(&choices) {
        Some(ClientRequest::SetChoices(cs)) => {
            assert_eq!(cs.len(), 1);
            assert_eq!(cs.options[0].id, 1);
            assert_eq!(cs.options[0].text.as_str(), "a");
            assert_eq!(cs.selected, Some(0));
        },
        other => panic!("unexpected parse: {:?}", other),
    }
}

#[test]
fn stop_accepts_a_null_payload() {
    assert!(matches!(
        parse_client_request(&b"{\"key\":\"stop\",\"data\":null}".to_vec()),
        Some(ClientRequest::Stop)
    ));
    assert!(parse_client_request(&b"{\"key\":\"stop\",\"data\":1}".to_vec()).is_none());
}

#[test]
fn strings_accept_unicode_escapes() {
    let line = b"{\"key\":\"set_input\",\"data\":\"\\u0041\\u00e9\\u20ac\\ud83d\\ude00\"}".to_vec();
    match parse_client_request(&line) {
        Some(ClientRequest::SetInput(t)) => assert_eq!(t, "A\u{e9}\u{20ac}\u{1f600}"),
        other => panic!("unexpected parse: {:?}", other),
    }
    // a lone surrogate is refused
    let lone = b"{\"key\":\"set_input\",\"data\":\"\\ud800\"}".to_vec();
    assert!(parse_client_request(&lone).is_none());
    let trailing_only = b"{\"key\":\"set_input\",\"data\":\"\\ude00\"}".to_vec();
    assert!(parse_client_request(&trailing_only).is_none());
}

#[test]
fn parse_request_refuses_bad_lines() {
    assert!(parse_client_request(&b"".to_vec()).is_none());
    assert!(parse_client_request(&b"{\"key\":\"quit\"}".to_vec()).is_none());
    assert!(parse_client_request(&b"{\"key\":\"stop\"}trailing".to_vec()).is_none());
    assert!(parse_client_request(&b"{\"key\":\"set_input\"}".to_vec()).is_none());
    assert!(parse_client_request(&b"{\"key\":\"set_choices\",\"data\":{\"options\":[{\"id\":1}]}}".to_vec()).is_none());
}

#[test]
fn choice_ordering_breaks_ties_by_text() {
    let line = b"{\"key\":\"set_choices\",\"data\":{\"options\":[{\"id\":1,\"text\":\"pear\"},{\"id\":1,\"text\":\"fig\"}]}}".to_vec();
    match parse_client_request(&line) {
        Some(ClientRequest::SetChoices(cs)) => {
            assert_eq!(cs.options[0].text.as_str(), "fig");
            assert_eq!(cs.options[1].text.as_str(), "pear");
        },
        other => panic!("unexpected parse: {:?}", other),
    }
}
