//! Decisions of the native communication interfaces: checking their setup
//! data, reading their sockets, mapping WebRTC setup data, and the WebRTC
//! offer/answer negotiation.
use vstd::prelude::*;
use vstd::string::*;

use crate::text::{chars_of, push_char, push_str, decimal, usize_to_string};

use webrtc::peer_connection::RTCSdpType as PeerSdpType;
use webrtc::peer_connection::RTCSessionDescription;

verus! {

/// Why an interface could not be created.
pub enum ComInterfaceCreateError {
    /// The setup data is not usable, with the reason.
    InvalidSetupData(String),
}

/// Whether `r` refuses the setup data with the reason `msg`.
pub open spec fn is_invalid_setup<T>(r: Result<T, ComInterfaceCreateError>, msg: Seq<char>) -> bool {
    match r {
        Err(ComInterfaceCreateError::InvalidSetupData(m)) => m@ == msg,
        _ => false,
    }
}

/// Setup data of a serial client interface.
pub struct SerialClientInterfaceSetupData {
    pub port_name: Option<String>,
    pub baud_rate: u32,
}

/// The serial client interface of this platform.
pub struct SerialClientInterfaceSetupDataNative(pub SerialClientInterfaceSetupData);

impl SerialClientInterfaceSetupDataNative {
    /// The port to open: a port name is required and must not be empty.
    pub fn port_name(&self) -> (r: Result<String, ComInterfaceCreateError>)
        ensures
            match self.0.port_name {
                None => is_invalid_setup(r, "Port name is required"@),
                Some(n) => if n@.len() == 0 {
                    is_invalid_setup(r, "Port name cannot be empty"@)
                } else {
                    r == Ok::<String, ComInterfaceCreateError>(n)
                },
            },
    {
        match &self.0.port_name {
            None => Err(
                ComInterfaceCreateError::InvalidSetupData(String::from_str("Port name is required")),
            ),
            Some(n) => {
                let cs = chars_of(n.as_str());
                if cs.len() == 0 {
                    Err(
                        ComInterfaceCreateError::InvalidSetupData(
                            String::from_str("Port name cannot be empty"),
                        ),
                    )
                } else {
                    Ok(n.clone())
                }
            },
        }
    }
}

/// Setup data of a TCP server interface.
pub struct TCPServerInterfaceSetupData {
    pub host: Option<String>,
    pub port: u16,
}

/// The TCP server interface of this platform.
pub struct TCPServerInterfaceSetupDataNative(pub TCPServerInterfaceSetupData);

impl TCPServerInterfaceSetupDataNative {
    /// The address the server binds to, which is also the interface's name:
    /// the host (`0.0.0.0` when none is given), a colon and the port.
    pub fn address(&self) -> (r: String)
        ensures
            r@ == match self.0.host {
                Some(h) => h@,
                None => "0.0.0.0"@,
            } + seq![':'] + decimal(self.0.port as nat),
    {
        let mut r = match &self.0.host {
            Some(h) => h.clone(),
            None => String::from_str("0.0.0.0"),
        };
        push_char(&mut r, ':');
        let port = usize_to_string(self.0.port as usize);
        push_str(&mut r, port.as_str());
        r
    }
}

/// A WebSocket client accepts `ws` and `wss` URLs only; `scheme` is the
/// scheme of the parsed URL, `None` when the URL did not parse.
pub fn check_websocket_url_scheme(scheme: Option<&str>) -> (r: Result<(), ComInterfaceCreateError>)
    ensures
        match scheme {
            None => is_invalid_setup(r, "Invalid WebSocket URL"@),
            Some(s) => if s@ == "ws"@ || s@ == "wss"@ {
                r is Ok
            } else {
                is_invalid_setup(r, "Invalid WebSocket URL scheme"@)
            },
        },
{
    match scheme {
        None => Err(ComInterfaceCreateError::InvalidSetupData(String::from_str("Invalid WebSocket URL"))),
        Some(s) => {
            let given = String::from_str(s);
            if given == String::from_str("ws") || given == String::from_str("wss") {
                Ok(())
            } else {
                Err(
                    ComInterfaceCreateError::InvalidSetupData(
                        String::from_str("Invalid WebSocket URL scheme"),
                    ),
                )
            }
        },
    }
}

/// What a read from a stream socket returned.
pub enum ReadOutcome {
    /// The peer closed the connection (a read of 0 bytes).
    Closed,
    /// This many bytes were read.
    Data(usize),
    /// The read failed.
    Failed,
}

/// What a socket's incoming data stream does next.
#[derive(Clone, Copy, Debug, PartialEq, Eq, Structural)]
pub enum SocketStep {
    /// End the stream.
    Close,
    /// Hand on the first `n` bytes read and read again.
    Yield(usize),
    /// Hand on an error and end the stream.
    FailAndClose,
}

/// A TCP socket hands on what it reads until the peer closes the
/// connection or a read fails.
pub fn tcp_read_step(outcome: ReadOutcome) -> (r: SocketStep)
    ensures
        r == match outcome {
            ReadOutcome::Closed => SocketStep::Close,
            ReadOutcome::Data(n) => SocketStep::Yield(n),
            ReadOutcome::Failed => SocketStep::FailAndClose,
        },
{
    match outcome {
        ReadOutcome::Closed => SocketStep::Close,
        ReadOutcome::Data(n) => SocketStep::Yield(n),
        ReadOutcome::Failed => SocketStep::FailAndClose,
    }
}

/// A serial port hands on what it reads; a read of nothing, or one that
/// fails, ends the stream with an error.
pub fn serial_read_step(outcome: ReadOutcome) -> (r: SocketStep)
    ensures
        r == match outcome {
            ReadOutcome::Data(n) => if n > 0 {
                SocketStep::Yield(n)
            } else {
                SocketStep::FailAndClose
            },
            _ => SocketStep::FailAndClose,
        },
{
    match outcome {
        ReadOutcome::Data(n) => if n > 0 {
            SocketStep::Yield(n)
        } else {
            SocketStep::FailAndClose
        },
        _ => SocketStep::FailAndClose,
    }
}

/// What a WebSocket stream gave next.
pub enum WebSocketIncoming {
    /// A binary message of this many bytes.
    Binary(usize),
    /// A message of another kind.
    OtherMessage,
    /// An error.
    Error,
    /// The end of the stream.
    End,
}

/// A WebSocket hands on binary messages; any other message or an error ends
/// the stream with an error, and the end of the stream closes it.
pub fn websocket_read_step(incoming: WebSocketIncoming) -> (r: SocketStep)
    ensures
        r == match incoming {
            WebSocketIncoming::Binary(n) => SocketStep::Yield(n),
            WebSocketIncoming::OtherMessage => SocketStep::FailAndClose,
            WebSocketIncoming::Error => SocketStep::FailAndClose,
            WebSocketIncoming::End => SocketStep::Close,
        },
{
    match incoming {
        WebSocketIncoming::Binary(n) => SocketStep::Yield(n),
        WebSocketIncoming::OtherMessage => SocketStep::FailAndClose,
        WebSocketIncoming::Error => SocketStep::FailAndClose,
        WebSocketIncoming::End => SocketStep::Close,
    }
}

/// Whether an HTTP request was answered with a success status (200 to 299):
/// otherwise sending the block failed.
pub fn http_request_succeeded(status: u16) -> (r: bool)
    ensures
        r == (200 <= status < 300),
{
    200 <= status && status < 300
}

/// A STUN/TURN server as the WebRTC setup data gives it.
pub struct RTCIceServerDX {
    pub urls: Vec<String>,
    pub username: Option<String>,
    pub credential: Option<String>,
}

/// A STUN/TURN server as the WebRTC peer connection takes it.
pub struct RTCIceServer {
    pub urls: Vec<String>,
    pub username: String,
    pub credential: String,
}

/// The server with a missing user name or credential written as empty.
pub fn make_ice_server(server: RTCIceServerDX) -> (r: RTCIceServer)
    ensures
        r.urls == server.urls,
        r.username@ == match server.username {
            Some(u) => u@,
            None => Seq::<char>::empty(),
        },
        r.credential@ == match server.credential {
            Some(c) => c@,
            None => Seq::<char>::empty(),
        },
{
    RTCIceServer {
        urls: server.urls,
        username: match server.username {
            Some(u) => u,
            None => String::new(),
        },
        credential: match server.credential {
            Some(c) => c,
            None => String::new(),
        },
    }
}

/// The role of a WebRTC peer.
#[derive(Clone, Copy, Debug, PartialEq, Eq, Structural)]
pub enum WebRTCRoleDX {
    Offerer,
    Answerer,
}

/// Setup data of a WebRTC interface.
pub struct WebRTCInterfaceSetupData {
    pub role: WebRTCRoleDX,
    pub data_channel_label: String,
    pub ordered: bool,
    pub negotiated_data_channel_id: Option<u16>,
    pub ice_servers: Vec<RTCIceServerDX>,
}

/// Options of the data channel a WebRTC offerer opens.
#[derive(Clone, Copy, Debug, PartialEq, Eq, Structural)]
pub struct RTCDataChannelInit {
    pub ordered: bool,
    pub negotiated: Option<u16>,
}

/// The data channel is ordered as the setup asks, and negotiated with the
/// id the setup gives, if any.
pub fn make_data_channel_init(setup: &WebRTCInterfaceSetupData) -> (r: RTCDataChannelInit)
    ensures
        r == (RTCDataChannelInit {
            ordered: setup.ordered,
            negotiated: setup.negotiated_data_channel_id,
        }),
{
    RTCDataChannelInit { ordered: setup.ordered, negotiated: setup.negotiated_data_channel_id }
}

/// Type of a session description in signaling messages.
#[derive(Clone, Copy, Debug, PartialEq, Eq, Structural)]
pub enum RTCSdpTypeDX {
    Unspecified,
    Offer,
    Answer,
}

/// Type of a session description of the peer connection.
#[derive(Clone, Copy, Debug, PartialEq, Eq, Structural)]
pub enum RTCSdpType {
    Unspecified,
    Offer,
    Pranswer,
    Answer,
    Rollback,
}

/// A session description in signaling messages.
pub struct RTCSessionDescriptionDX {
    pub sdp_type: RTCSdpTypeDX,
    pub sdp: String,
}

/// The signaling type of a peer-connection description type: offers and
/// answers keep their type, any other becomes unspecified.
pub open spec fn dx_sdp_type(t: RTCSdpType) -> RTCSdpTypeDX {
    match t {
        RTCSdpType::Offer => RTCSdpTypeDX::Offer,
        RTCSdpType::Answer => RTCSdpTypeDX::Answer,
        _ => RTCSdpTypeDX::Unspecified,
    }
}

/// The signaling type of a peer-connection description: offers and answers
/// keep their type, any other becomes unspecified.
pub fn make_dx_sdp_type(t: RTCSdpType) -> (r: RTCSdpTypeDX)
    ensures
        r == dx_sdp_type(t),
{
    match t {
        RTCSdpType::Offer => RTCSdpTypeDX::Offer,
        RTCSdpType::Answer => RTCSdpTypeDX::Answer,
        _ => RTCSdpTypeDX::Unspecified,
    }
}

/// A signaling description of the peer connection's description.
pub fn make_dx_description(sdp_type: RTCSdpType, sdp: String) -> (r: RTCSessionDescriptionDX)
    ensures
        r.sdp_type == dx_sdp_type(sdp_type),
        r.sdp == sdp,
{
    RTCSessionDescriptionDX { sdp_type: make_dx_sdp_type(sdp_type), sdp }
}

/// A session description of the peer connection (type and SDP text,
/// parsed by the WebRTC stack).
#[verifier::external_type_specification]
#[verifier::external_body]
pub struct ExRTCSessionDescription(RTCSessionDescription);

/// The error text with which `RTCSessionDescription::offer` refuses `sdp`,
/// or `None` where it parses it.
pub uninterp spec fn offer_sdp_error(sdp: Seq<char>) -> Option<Seq<char>>;

/// The error text with which `RTCSessionDescription::answer` refuses `sdp`,
/// or `None` where it parses it.
pub uninterp spec fn answer_sdp_error(sdp: Seq<char>) -> Option<Seq<char>>;

/// A session description that the WebRTC stack parsed, with its type and
/// its SDP text.
pub struct ParsedSessionDescription {
    sdp_type: RTCSdpType,
    sdp: String,
    description: RTCSessionDescription,
}

impl ParsedSessionDescription {
    /// The type of the description.
    pub closed spec fn kind(&self) -> RTCSdpType {
        self.sdp_type
    }

    /// The SDP text of the description.
    pub closed spec fn sdp_text(&self) -> Seq<char> {
        self.sdp@
    }

    /// The type of the description.
    pub fn sdp_type(&self) -> (r: RTCSdpType)
        ensures
            r == self.kind(),
    {
        self.sdp_type
    }

    /// The SDP text of the description.
    pub fn sdp(&self) -> (r: &String)
        ensures
            r@ == self.sdp_text(),
    {
        &self.sdp
    }

    /// The description as the peer connection takes it.
    pub fn into_description(self) -> RTCSessionDescription {
        self.description
    }
}

/// `RTCSessionDescription::offer`: parses `sdp` into an offer, which keeps
/// the text as its SDP. It fails, with the parser's error as text, exactly
/// when the text is no valid SDP; which texts those are is named, not
/// spelled out.
#[verifier::external_body]
fn session_description_offer(sdp: String) -> (r: Result<ParsedSessionDescription, String>)
    ensures
        match r {
            Ok(d) => offer_sdp_error(sdp@) is None && d.kind() == RTCSdpType::Offer && d.sdp_text()
                == sdp@,
            Err(e) => offer_sdp_error(sdp@) == Some(e@),
        },
{
    match RTCSessionDescription::offer(sdp) {
        Ok(d) => {
            let sdp_type = match d.sdp_type {
                PeerSdpType::Offer => RTCSdpType::Offer,
                PeerSdpType::Pranswer => RTCSdpType::Pranswer,
                PeerSdpType::Answer => RTCSdpType::Answer,
                PeerSdpType::Rollback => RTCSdpType::Rollback,
                _ => RTCSdpType::Unspecified,
            };
            Ok(ParsedSessionDescription { sdp_type, sdp: d.sdp.clone(), description: d })
        },
        Err(e) => Err(e.to_string()),
    }
}

/// `RTCSessionDescription::answer`: parses `sdp` into an answer, which
/// keeps the text as its SDP. It fails, with the parser's error as text,
/// exactly when the text is no valid SDP; which texts those are is named,
/// not spelled out.
#[verifier::external_body]
fn session_description_answer(sdp: String) -> (r: Result<ParsedSessionDescription, String>)
    ensures
        match r {
            Ok(d) => answer_sdp_error(sdp@) is None && d.kind() == RTCSdpType::Answer && d.sdp_text()
                == sdp@,
            Err(e) => answer_sdp_error(sdp@) == Some(e@),
        },
{
    match RTCSessionDescription::answer(sdp) {
        Ok(d) => {
            let sdp_type = match d.sdp_type {
                PeerSdpType::Offer => RTCSdpType::Offer,
                PeerSdpType::Pranswer => RTCSdpType::Pranswer,
                PeerSdpType::Answer => RTCSdpType::Answer,
                PeerSdpType::Rollback => RTCSdpType::Rollback,
                _ => RTCSdpType::Unspecified,
            };
            Ok(ParsedSessionDescription { sdp_type, sdp: d.sdp.clone(), description: d })
        },
        Err(e) => Err(e.to_string()),
    }
}

/// Why a signaling description cannot become a peer-connection
/// description, or `None` where it can.
pub open spec fn sdp_description_error(d: RTCSessionDescriptionDX) -> Option<Seq<char>> {
    match d.sdp_type {
        RTCSdpTypeDX::Offer => offer_sdp_error(d.sdp@),
        RTCSdpTypeDX::Answer => answer_sdp_error(d.sdp@),
        RTCSdpTypeDX::Unspecified => Some("invalid WebRTC SDP type: unspecified"@),
    }
}

/// Whether `r` is what `make_sdp_description` gives for `d`: where `d` is
/// an offer or an answer whose SDP parses, a description of that type with
/// that SDP text (so that it reads back as `d`), else the reason.
pub open spec fn is_sdp_description_of(r: Result<ParsedSessionDescription, String>, d: RTCSessionDescriptionDX) -> bool {
    match r {
        Ok(p) => sdp_description_error(d) is None && dx_sdp_type(p.kind()) == d.sdp_type
            && p.kind() != RTCSdpType::Unspecified && p.sdp_text() == d.sdp@,
        Err(e) => sdp_description_error(d) == Some(e@),
    }
}

/// The peer-connection description of a signaling description: offers and
/// answers are parsed as such; an unspecified description is refused.
pub fn make_sdp_description(description: RTCSessionDescriptionDX) -> (r: Result<ParsedSessionDescription, String>)
    ensures
        is_sdp_description_of(r, description),
{
    match description.sdp_type {
        RTCSdpTypeDX::Offer => session_description_offer(description.sdp),
        RTCSdpTypeDX::Answer => session_description_answer(description.sdp),
        RTCSdpTypeDX::Unspecified => Err(String::from_str("invalid WebRTC SDP type: unspecified")),
    }
}

/// An ICE candidate in signaling messages.
pub struct RTCIceCandidateInitDX {
    pub candidate: String,
    pub sdp_mid: Option<String>,
    pub sdp_mline_index: Option<u16>,
    pub username_fragment: Option<String>,
}

/// A signaling message between two WebRTC peers.
pub enum WebRTCSignalDX {
    Description(RTCSessionDescriptionDX),
    IceCandidate(RTCIceCandidateInitDX),
    EndOfCandidates,
}

/// What the WebRTC stack reported while gathering ICE candidates.
pub enum IceGathering {
    /// A gathered candidate in its signaling form, or `None` where it could
    /// not be converted to one.
    Candidate(Option<RTCIceCandidateInitDX>),
    /// Gathering is complete.
    Complete,
}

/// The signal sent to the other peer for a gathering event: each candidate
/// that could be converted, and the end of candidates once gathering is
/// complete; nothing for a candidate that could not be converted.
pub fn ice_gathering_signal(event: IceGathering) -> (r: Option<WebRTCSignalDX>)
    ensures
        r == match event {
            IceGathering::Candidate(Some(c)) => Some(WebRTCSignalDX::IceCandidate(c)),
            IceGathering::Candidate(None) => None::<WebRTCSignalDX>,
            IceGathering::Complete => Some(WebRTCSignalDX::EndOfCandidates),
        },
{
    match event {
        IceGathering::Candidate(Some(c)) => Some(WebRTCSignalDX::IceCandidate(c)),
        IceGathering::Candidate(None) => None,
        IceGathering::Complete => Some(WebRTCSignalDX::EndOfCandidates),
    }
}

/// What a peer does with a signaling message it received.
pub enum SignalAction {
    /// Take this description of the other peer (an answer for the offerer,
    /// an offer for the answerer).
    AcceptDescription(ParsedSessionDescription),
    /// Add this ICE candidate of the other peer.
    AddIceCandidate(RTCIceCandidateInitDX),
    /// Nothing to do.
    Ignore,
}

/// Whether `r` takes the description that `parsed` holds, or fails as it
/// does.
pub open spec fn takes_description(r: Result<SignalAction, String>, parsed: Result<ParsedSessionDescription, String>) -> bool {
    match parsed {
        Ok(d) => r == Ok::<SignalAction, String>(SignalAction::AcceptDescription(d)),
        Err(e) => r == Err::<SignalAction, String>(e),
    }
}

/// Whether `r` takes the description that `d` becomes, or fails with the
/// reason it cannot become one.
pub open spec fn accepts_description(r: Result<SignalAction, String>, d: RTCSessionDescriptionDX) -> bool {
    match r {
        Ok(SignalAction::AcceptDescription(p)) => is_sdp_description_of(Ok(p), d),
        Err(e) => sdp_description_error(d) == Some(e@),
        _ => false,
    }
}

/// Whether `r` adds the candidate `c`.
pub open spec fn adds_candidate(r: Result<SignalAction, String>, c: RTCIceCandidateInitDX) -> bool {
    match r {
        Ok(SignalAction::AddIceCandidate(x)) => x == c,
        _ => false,
    }
}

/// Whether `r` ignores the signal.
pub open spec fn ignores(r: Result<SignalAction, String>) -> bool {
    match r {
        Ok(SignalAction::Ignore) => true,
        _ => false,
    }
}

/// The negotiation state of the offering peer: whether the answer was taken.
pub struct OffererNegotiation {
    pub got_answer: bool,
}

impl OffererNegotiation {
    /// No answer yet.
    pub fn new() -> (n: Self)
        ensures
            !n.got_answer,
    {
        OffererNegotiation { got_answer: false }
    }

    /// The data channel opened (`opened`) or closed before opening: closing
    /// first fails the negotiation; opening finishes it when the answer was
    /// taken. Returns whether the negotiation is finished.
    pub fn on_channel_open(&self, opened: bool) -> (r: Result<bool, String>)
        ensures
            opened ==> r == Ok::<bool, String>(self.got_answer),
            !opened ==> r is Err && r->Err_0@ == "data channel closed before open"@,
    {
        if opened {
            Ok(self.got_answer)
        } else {
            Err(String::from_str("data channel closed before open"))
        }
    }

    /// The answer of the other peer, as `make_sdp_description` parsed it: a
    /// parsed answer is taken, a refused one fails the negotiation.
    pub fn on_answer(&mut self, parsed: Result<ParsedSessionDescription, String>) -> (r: Result<SignalAction, String>)
        ensures
            final(self).got_answer == (old(self).got_answer || parsed is Ok),
            takes_description(r, parsed),
    {
        match parsed {
            Ok(d) => {
                self.got_answer = true;
                Ok(SignalAction::AcceptDescription(d))
            },
            Err(e) => Err(e),
        }
    }

    /// A signaling message from the answering peer: an answer is parsed and
    /// taken, any other description fails the negotiation, candidates are
    /// added and the end of candidates is ignored.
    pub fn on_signal(&mut self, signal: WebRTCSignalDX) -> (r: Result<SignalAction, String>)
        ensures
            final(self).got_answer == offerer_step(old(self).got_answer, signal).0,
            r is Ok == offerer_step(old(self).got_answer, signal).1,
            match signal {
                WebRTCSignalDX::Description(d) => if d.sdp_type == RTCSdpTypeDX::Answer {
                    accepts_description(r, d)
                } else {
                    r is Err && r->Err_0@ == "expected WebRTC answer"@
                },
                WebRTCSignalDX::IceCandidate(c) => adds_candidate(r, c),
                WebRTCSignalDX::EndOfCandidates => ignores(r),
            },
    {
        match signal {
            WebRTCSignalDX::Description(d) => {
                if d.sdp_type != RTCSdpTypeDX::Answer {
                    return Err(String::from_str("expected WebRTC answer"));
                }
                let parsed = make_sdp_description(d);
                self.on_answer(parsed)
            },
            WebRTCSignalDX::IceCandidate(c) => Ok(SignalAction::AddIceCandidate(c)),
            WebRTCSignalDX::EndOfCandidates => Ok(SignalAction::Ignore),
        }
    }

    /// After a signaling message was handled: the negotiation is finished
    /// when the answer was taken and the data channel is open.
    pub fn finished(&self, channel_open: bool) -> (r: bool)
        ensures
            r == (self.got_answer && channel_open),
    {
        self.got_answer && channel_open
    }
}

/// A signaling message for the answering peer: an offer is parsed and
/// taken (and ends the exchange), any other description fails it,
/// candidates are added and the end of candidates is ignored.
pub fn answerer_on_signal(signal: WebRTCSignalDX) -> (r: Result<SignalAction, String>)
    ensures
        match signal {
            WebRTCSignalDX::Description(d) => if d.sdp_type == RTCSdpTypeDX::Offer {
                accepts_description(r, d)
            } else {
                r is Err && r->Err_0@ == "expected WebRTC offer"@
            },
            WebRTCSignalDX::IceCandidate(c) => adds_candidate(r, c),
            WebRTCSignalDX::EndOfCandidates => ignores(r),
        },
{
    match signal {
        WebRTCSignalDX::Description(d) => {
            if d.sdp_type != RTCSdpTypeDX::Offer {
                return Err(String::from_str("expected WebRTC offer"));
            }
            match make_sdp_description(d) {
                Ok(description) => Ok(SignalAction::AcceptDescription(description)),
                Err(e) => Err(e),
            }
        },
        WebRTCSignalDX::IceCandidate(c) => Ok(SignalAction::AddIceCandidate(c)),
        WebRTCSignalDX::EndOfCandidates => Ok(SignalAction::Ignore),
    }
}

/// The offerer's answer state after a signal, and whether the signal is
/// accepted (not an error).
pub open spec fn offerer_step(got: bool, s: WebRTCSignalDX) -> (bool, bool) {
    match s {
        WebRTCSignalDX::Description(d) => if d.sdp_type == RTCSdpTypeDX::Answer
            && sdp_description_error(d) is None {
            (true, true)
        } else {
            (got, false)
        },
        _ => (got, true),
    }
}

/// The offerer's answer state after `signals`, in order, from `got`.
pub open spec fn offerer_after(got: bool, signals: Seq<WebRTCSignalDX>) -> bool
    decreases signals.len(),
{
    if signals.len() == 0 {
        got
    } else {
        offerer_step(offerer_after(got, signals.drop_last()), signals.last()).0
    }
}

/// Whether `s` is an answer whose SDP parses.
pub open spec fn is_answer(s: WebRTCSignalDX) -> bool {
    s matches WebRTCSignalDX::Description(d) && d.sdp_type == RTCSdpTypeDX::Answer
        && sdp_description_error(d) is None
}

/// Law: while the offerer accepts every signal it gets, it has taken an
/// answer exactly when one of the signals was an answer whose SDP parses;
/// the negotiation
/// (see `finished`) cannot finish before that.
pub proof fn lemma_offerer_needs_answer(signals: Seq<WebRTCSignalDX>)
    requires
        forall|i: int| 0 <= i < signals.len() ==> offerer_step(false, #[trigger] signals[i]).1,
    ensures
        offerer_after(false, signals) <==> exists|i: int|
            0 <= i < signals.len() && is_answer(#[trigger] signals[i]),
    decreases signals.len(),
{
    if signals.len() > 0 {
        let d = signals.drop_last();
        assert forall|i: int| 0 <= i < d.len() implies offerer_step(false, #[trigger] d[i]).1 by {
            assert(d[i] == signals[i]);
        }
        lemma_offerer_needs_answer(d);
        if exists|i: int| 0 <= i < d.len() && is_answer(#[trigger] d[i]) {
            let i = choose|i: int| 0 <= i < d.len() && is_answer(#[trigger] d[i]);
            assert(signals[i] == d[i]);
        }
        if exists|i: int| 0 <= i < signals.len() && is_answer(#[trigger] signals[i]) {
            let i = choose|i: int| 0 <= i < signals.len() && is_answer(#[trigger] signals[i]);
            if i < d.len() {
                assert(d[i] == signals[i]);
            }
        }
        assert(offerer_step(false, signals[signals.len() - 1]).1);
    }
}

} // verus!
