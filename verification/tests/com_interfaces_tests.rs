use datex_cli::com_interfaces::{
    answerer_on_signal, check_websocket_url_scheme, make_data_channel_init, make_dx_description,
    make_ice_server, make_sdp_description, tcp_read_step, http_request_succeeded,
    serial_read_step, ice_gathering_signal, IceGathering, websocket_read_step,
    ComInterfaceCreateError, OffererNegotiation, RTCIceCandidateInitDX, RTCIceServerDX,
    RTCSdpType, RTCSdpTypeDX, RTCSessionDescriptionDX, ReadOutcome,
    SerialClientInterfaceSetupData, SerialClientInterfaceSetupDataNative, SignalAction, SocketStep,
    TCPServerInterfaceSetupData, TCPServerInterfaceSetupDataNative, WebRTCInterfaceSetupData,
    WebRTCRoleDX, WebRTCSignalDX, WebSocketIncoming,
};

fn invalid(r: Result<impl Sized, ComInterfaceCreateError>) -> String {
    match r {
        Err(ComInterfaceCreateError::InvalidSetupData(m)) => m,
        Ok(_) => panic!("expected an error"),
    }
}

#[test]
fn serial_port_names() {
    let none = SerialClientInterfaceSetupDataNative(SerialClientInterfaceSetupData { port_name: None, baud_rate: 9600 });
    assert_eq!(invalid(none.port_name()), "Port name is required");
    let empty = SerialClientInterfaceSetupDataNative(SerialClientInterfaceSetupData {
        port_name: Some(String::new()),
        baud_rate: 9600,
    });
    assert_eq!(invalid(empty.port_name()), "Port name cannot be empty");
    let ok = SerialClientInterfaceSetupDataNative(SerialClientInterfaceSetupData {
        port_name: Some("/dev/ttyUSB0".to_string()),
        baud_rate: 9600,
    });
    assert!(matches!(ok.port_name(), Ok(n) if n == "/dev/ttyUSB0"));
}

#[test]
fn tcp_server_address() {
    let d = TCPServerInterfaceSetupDataNative(TCPServerInterfaceSetupData { host: None, port: 5088 });
    assert_eq!(d.address(), "0.0.0.0:5088");
    let h = TCPServerInterfaceSetupDataNative(TCPServerInterfaceSetupData {
        host: Some("invalid-address".to_string()),
        port: 0,
    });
    assert_eq!(h.address(), "invalid-address:0");
}

#[test]
fn websocket_url_schemes() {
    assert!(check_websocket_url_scheme(Some("ws")).is_ok());
    assert!(check_websocket_url_scheme(Some("wss")).is_ok());
    assert_eq!(invalid(check_websocket_url_scheme(Some("http"))), "Invalid WebSocket URL scheme");
    assert_eq!(invalid(check_websocket_url_scheme(None)), "Invalid WebSocket URL");
}

#[test]
fn socket_reads() {
    assert_eq!(tcp_read_step(ReadOutcome::Closed), SocketStep::Close);
    assert_eq!(tcp_read_step(ReadOutcome::Data(7)), SocketStep::Yield(7));
    assert_eq!(tcp_read_step(ReadOutcome::Failed), SocketStep::FailAndClose);
    assert_eq!(websocket_read_step(WebSocketIncoming::Binary(3)), SocketStep::Yield(3));
    assert_eq!(websocket_read_step(WebSocketIncoming::OtherMessage), SocketStep::FailAndClose);
    assert_eq!(websocket_read_step(WebSocketIncoming::Error), SocketStep::FailAndClose);
    assert_eq!(websocket_read_step(WebSocketIncoming::End), SocketStep::Close);
}

#[test]
fn webrtc_mappings() {
    let s = make_ice_server(RTCIceServerDX {
        urls: vec!["stun:x".to_string()],
        username: None,
        credential: Some("c".to_string()),
    });
    assert_eq!(s.urls, vec!["stun:x".to_string()]);
    assert_eq!(s.username, "");
    assert_eq!(s.credential, "c");
    let setup = WebRTCInterfaceSetupData {
        role: WebRTCRoleDX::Offerer,
        data_channel_label: "datex".to_string(),
        ordered: true,
        negotiated_data_channel_id: Some(4),
        ice_servers: vec![],
    };
    let init = make_data_channel_init(&setup);
    assert!(init.ordered);
    assert_eq!(init.negotiated, Some(4));
    let d = make_dx_description(RTCSdpType::Pranswer, "v=0".to_string());
    assert_eq!(d.sdp_type, RTCSdpTypeDX::Unspecified);
    assert_eq!(d.sdp, "v=0");
    assert_eq!(make_dx_description(RTCSdpType::Offer, String::new()).sdp_type, RTCSdpTypeDX::Offer);
    assert_eq!(make_dx_description(RTCSdpType::Answer, String::new()).sdp_type, RTCSdpTypeDX::Answer);
}

const SDP: &str = "v=0\r\no=- 123456789 2 IN IP4 127.0.0.1\r\ns=-\r\nt=0 0\r\n";

fn dx(t: RTCSdpTypeDX, sdp: &str) -> RTCSessionDescriptionDX {
    RTCSessionDescriptionDX { sdp_type: t, sdp: sdp.to_string() }
}

#[test]
fn sdp_descriptions() {
    let offer = make_sdp_description(dx(RTCSdpTypeDX::Offer, SDP)).unwrap();
    assert_eq!(offer.sdp_type(), RTCSdpType::Offer);
    assert_eq!(offer.sdp(), SDP);
    // read back, the description is the one it was parsed from
    let back = make_dx_description(offer.sdp_type(), offer.sdp().clone());
    assert_eq!((back.sdp_type, back.sdp.as_str()), (RTCSdpTypeDX::Offer, SDP));
    let inner = offer.into_description();
    assert_eq!(inner.sdp_type, webrtc::peer_connection::RTCSdpType::Offer);
    assert_eq!(inner.sdp, SDP);
    let answer = make_sdp_description(dx(RTCSdpTypeDX::Answer, SDP)).unwrap();
    assert_eq!(answer.sdp_type(), RTCSdpType::Answer);
    assert_eq!(answer.sdp(), SDP);
    assert_eq!(answer.into_description().sdp_type, webrtc::peer_connection::RTCSdpType::Answer);
    assert!(make_sdp_description(dx(RTCSdpTypeDX::Offer, "no sdp")).is_err());
    assert!(make_sdp_description(dx(RTCSdpTypeDX::Answer, "")).is_err());
    assert!(matches!(
        make_sdp_description(dx(RTCSdpTypeDX::Unspecified, SDP)),
        Err(e) if e == "invalid WebRTC SDP type: unspecified"
    ));
}

fn desc(t: RTCSdpTypeDX, sdp: &str) -> WebRTCSignalDX {
    WebRTCSignalDX::Description(RTCSessionDescriptionDX { sdp_type: t, sdp: sdp.to_string() })
}

fn candidate() -> WebRTCSignalDX {
    WebRTCSignalDX::IceCandidate(RTCIceCandidateInitDX {
        candidate: "c".to_string(),
        sdp_mid: None,
        sdp_mline_index: Some(0),
        username_fragment: None,
    })
}

#[test]
fn offerer_negotiation() {
    let mut n = OffererNegotiation::new();
    assert_eq!(n.on_channel_open(true), Ok(false));
    assert!(matches!(n.on_signal(candidate()), Ok(SignalAction::AddIceCandidate(c)) if c.candidate == "c"));
    assert!(matches!(n.on_signal(WebRTCSignalDX::EndOfCandidates), Ok(SignalAction::Ignore)));
    assert!(!n.finished(true));
    assert!(matches!(n.on_signal(desc(RTCSdpTypeDX::Answer, "answer-sdp")), Err(_)));
    assert!(!n.got_answer);
    assert!(matches!(
        n.on_signal(desc(RTCSdpTypeDX::Answer, SDP)),
        Ok(SignalAction::AcceptDescription(d)) if d.sdp() == SDP
            && d.sdp_type() == RTCSdpType::Answer
    ));
    assert!(n.got_answer);
    assert!(!n.finished(false));
    assert!(n.finished(true));
    assert_eq!(n.on_channel_open(true), Ok(true));
    assert_eq!(n.on_channel_open(false), Err("data channel closed before open".to_string()));
    let mut m = OffererNegotiation::new();
    assert!(matches!(m.on_signal(desc(RTCSdpTypeDX::Offer, "x")), Err(e) if e == "expected WebRTC answer"));
    assert!(!m.got_answer);
}

#[test]
fn answerer_signals() {
    assert!(matches!(
        answerer_on_signal(desc(RTCSdpTypeDX::Offer, SDP)),
        Ok(SignalAction::AcceptDescription(d)) if d.sdp() == SDP
            && d.sdp_type() == RTCSdpType::Offer
    ));
    assert!(matches!(answerer_on_signal(desc(RTCSdpTypeDX::Offer, "offer-sdp")), Err(_)));
    assert!(matches!(answerer_on_signal(desc(RTCSdpTypeDX::Answer, "x")), Err(e) if e == "expected WebRTC offer"));
    assert!(matches!(answerer_on_signal(desc(RTCSdpTypeDX::Unspecified, "x")), Err(e) if e == "expected WebRTC offer"));
    assert!(matches!(answerer_on_signal(candidate()), Ok(SignalAction::AddIceCandidate(_))));
    assert!(matches!(answerer_on_signal(WebRTCSignalDX::EndOfCandidates), Ok(SignalAction::Ignore)));
}

#[test]
fn offerer_takes_parsed_answer() {
    let mut n = OffererNegotiation::new();
    assert!(matches!(n.on_answer(Err("bad sdp".to_string())), Err(e) if e == "bad sdp"));
    assert!(!n.got_answer);
    let parsed = make_sdp_description(dx(RTCSdpTypeDX::Answer, SDP));
    assert!(matches!(n.on_answer(parsed), Ok(SignalAction::AcceptDescription(d)) if d.sdp() == SDP));
    assert!(n.got_answer);
}

#[test]
fn http_status_decides_sending() {
    assert!(http_request_succeeded(200));
    assert!(http_request_succeeded(299));
    assert!(!http_request_succeeded(199));
    assert!(!http_request_succeeded(300));
    assert!(!http_request_succeeded(404));
}

#[test]
fn serial_reads() {
    assert_eq!(serial_read_step(ReadOutcome::Data(3)), SocketStep::Yield(3));
    assert_eq!(serial_read_step(ReadOutcome::Data(0)), SocketStep::FailAndClose);
    assert_eq!(serial_read_step(ReadOutcome::Closed), SocketStep::FailAndClose);
    assert_eq!(serial_read_step(ReadOutcome::Failed), SocketStep::FailAndClose);
}

#[test]
fn ice_gathering_signals() {
    let c = RTCIceCandidateInitDX {
        candidate: "c".to_string(),
        sdp_mid: None,
        sdp_mline_index: Some(0),
        username_fragment: None,
    };
    assert!(matches!(
        ice_gathering_signal(IceGathering::Candidate(Some(c))),
        Some(WebRTCSignalDX::IceCandidate(x)) if x.candidate == "c"
    ));
    assert!(ice_gathering_signal(IceGathering::Candidate(None)).is_none());
    assert!(matches!(ice_gathering_signal(IceGathering::Complete), Some(WebRTCSignalDX::EndOfCandidates)));
}
