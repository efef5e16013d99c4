use datex_cli::workbench::{
    comhub_lines, handle_all_events, metadata_lines, title_line, ComHubInfo, InputEvent,
    InterfaceInfo, KeyCode, SocketDirection, SocketInfo, SpanStyle, StyledLine, Workbench,
};

fn texts(l: &StyledLine) -> Vec<(String, SpanStyle)> {
    l.spans.iter().map(|s| (s.text.clone(), s.style)).collect()
}

fn t(s: &str, st: SpanStyle) -> (String, SpanStyle) {
    (s.to_string(), st)
}

#[test]
fn comhub_view_lines() {
    let info = ComHubInfo {
        interfaces: vec![
            InterfaceInfo {
                channel: "websocket".to_string(),
                name: Some("ws://x".to_string()),
                sockets: vec![
                    SocketInfo { direction: SocketDirection::InOut, endpoint: Some("@b".to_string()) },
                    SocketInfo { direction: SocketDirection::In, endpoint: None },
                ],
            },
            InterfaceInfo { channel: "tcp".to_string(), name: None, sockets: vec![] },
        ],
        endpoint_socket_count: 12,
    };
    let lines = comhub_lines(&info);
    assert_eq!(lines.len(), 3 + 1 + 2 + 1);
    assert_eq!(
        texts(&lines[0]),
        vec![t("Registered Interfaces: ", SpanStyle::Plain), t("2", SpanStyle::Plain)]
    );
    assert_eq!(texts(&lines[1]), vec![t("Connected Sockets: ", SpanStyle::Plain), t("12", SpanStyle::Plain)]);
    assert_eq!(texts(&lines[2]), vec![t("", SpanStyle::Plain)]);
    assert_eq!(texts(&lines[3]), vec![t("websocket (ws://x)", SpanStyle::Bold)]);
    assert_eq!(
        texts(&lines[4]),
        vec![
            t("  \u{2B24} ", SpanStyle::Green),
            t(" \u{25C0}\u{2500}\u{2500}\u{25B6} ", SpanStyle::Plain),
            t("@b", SpanStyle::Plain)
        ]
    );
    assert_eq!(
        texts(&lines[5]),
        vec![
            t("  \u{2B24} ", SpanStyle::Green),
            t(" \u{2500}\u{2500}\u{25B6} ", SpanStyle::Plain),
            t("unknown", SpanStyle::Plain)
        ]
    );
    assert_eq!(texts(&lines[6]), vec![t("tcp", SpanStyle::Bold)]);
}

#[test]
fn metadata_and_title() {
    let lines = metadata_lines("@alice", "0.0.12");
    assert_eq!(texts(&lines[0]), vec![t("Endpoint: ", SpanStyle::Plain), t("@alice", SpanStyle::Bold)]);
    assert_eq!(texts(&lines[1]), vec![t("Version: ", SpanStyle::Plain), t("0.0.12", SpanStyle::Bold)]);
    assert_eq!(
        texts(&title_line("0.0.12")),
        vec![t(" DATEX Workbench ", SpanStyle::Bold), t("v0.0.12 ", SpanStyle::Dim)]
    );
}

#[test]
fn workbench_quits_on_q() {
    let mut w = Workbench::new();
    assert!(!w.should_exit());
    w.handle_events(InputEvent::Key(KeyCode::Char('x'), true));
    w.handle_events(InputEvent::Key(KeyCode::Char('q'), false));
    w.handle_events(InputEvent::Other);
    assert!(!w.should_exit());
    w.handle_events(InputEvent::Key(KeyCode::Char('q'), true));
    assert!(w.should_exit());
    w.handle_events(InputEvent::Key(KeyCode::Other, true));
    assert!(w.should_exit());
}

#[test]
fn workbench_event_sequences() {
    let mut w = Workbench::new();
    handle_all_events(&mut w, &vec![InputEvent::Other, InputEvent::Key(KeyCode::Char('a'), true)]);
    assert!(!w.should_exit());
    handle_all_events(&mut w, &vec![InputEvent::Key(KeyCode::Char('q'), true), InputEvent::Other]);
    assert!(w.should_exit());
    let mut v = Workbench::new();
    v.handle_key_event(KeyCode::Char('q'));
    assert!(v.should_exit());
    let mut u = Workbench::new();
    u.exit();
    assert!(u.should_exit());
}
