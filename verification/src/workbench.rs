//! The terminal workbench: when it quits, and the text of its views (the
//! title, the runtime information and the communication hub).
use vstd::prelude::*;
use vstd::string::*;

use crate::text::{decimal, push_str, usize_to_string};

verus! {

/// How a piece of text is shown.
#[derive(Clone, Copy, Debug, PartialEq, Eq, Structural)]
pub enum SpanStyle {
    Plain,
    Bold,
    Dim,
    Green,
}

/// A piece of text with its style.
pub struct StyledSpan {
    pub text: String,
    pub style: SpanStyle,
}

/// A line of styled pieces of text.
pub struct StyledLine {
    pub spans: Vec<StyledSpan>,
}

/// A line as plain values: its pieces of text with their styles.
pub open spec fn line_view(l: StyledLine) -> Seq<(Seq<char>, SpanStyle)> {
    l.spans@.map_values(|s: StyledSpan| (s.text@, s.style))
}

/// Lines as plain values.
pub open spec fn lines_view(ls: Seq<StyledLine>) -> Seq<Seq<(Seq<char>, SpanStyle)>> {
    ls.map_values(|l: StyledLine| line_view(l))
}

fn span(text: String, style: SpanStyle) -> (s: StyledSpan)
    ensures
        s.text == text,
        s.style == style,
{
    StyledSpan { text, style }
}

fn line2(a: StyledSpan, b: StyledSpan) -> (l: StyledLine)
    ensures
        line_view(l) == seq![(a.text@, a.style), (b.text@, b.style)],
{
    let mut spans = Vec::new();
    spans.push(a);
    spans.push(b);
    let l = StyledLine { spans };
    assert(line_view(l) =~= seq![(a.text@, a.style), (b.text@, b.style)]);
    l
}

/// Direction of a socket.
#[derive(Clone, Copy, Debug, PartialEq, Eq, Structural)]
pub enum SocketDirection {
    In,
    Out,
    InOut,
}

/// A socket of an interface: its direction and the endpoint it reaches, if
/// known.
pub struct SocketInfo {
    pub direction: SocketDirection,
    pub endpoint: Option<String>,
}

/// An interface registered with the communication hub.
pub struct InterfaceInfo {
    pub channel: String,
    pub name: Option<String>,
    pub sockets: Vec<SocketInfo>,
}

/// What the communication hub view shows: the registered interfaces and the
/// number of sockets connected to endpoints.
pub struct ComHubInfo {
    pub interfaces: Vec<InterfaceInfo>,
    pub endpoint_socket_count: usize,
}

/// The arrow shown for a socket direction.
pub open spec fn arrow_spec(d: SocketDirection) -> Seq<char> {
    match d {
        SocketDirection::In => " \u{2500}\u{2500}\u{25B6} "@,
        SocketDirection::Out => " \u{25C0}\u{2500}\u{2500} "@,
        SocketDirection::InOut => " \u{25C0}\u{2500}\u{2500}\u{25B6} "@,
    }
}

/// The line shown for a socket: a green dot, the arrow of its direction and
/// its endpoint (`unknown` when there is none).
pub open spec fn socket_line_spec(s: SocketInfo) -> Seq<(Seq<char>, SpanStyle)> {
    seq![
        ("  \u{2B24} "@, SpanStyle::Green),
        (arrow_spec(s.direction), SpanStyle::Plain),
        (
            match s.endpoint {
                Some(e) => e@,
                None => "unknown"@,
            },
            SpanStyle::Plain,
        ),
    ]
}

/// The label of an interface: its channel, followed by its name in
/// parentheses when it has one.
pub open spec fn interface_label_spec(i: InterfaceInfo) -> Seq<char> {
    match i.name {
        Some(n) => i.channel@ + " ("@ + n@ + ")"@,
        None => i.channel@,
    }
}

/// The lines shown for one interface: its label in bold, then a line per
/// socket.
pub open spec fn interface_lines_spec(i: InterfaceInfo) -> Seq<Seq<(Seq<char>, SpanStyle)>> {
    seq![seq![(interface_label_spec(i), SpanStyle::Bold)]] + i.sockets@.map_values(
        |s: SocketInfo| socket_line_spec(s),
    )
}

/// The lines shown for interfaces `is`, in order.
pub open spec fn interfaces_lines_spec(is: Seq<InterfaceInfo>) -> Seq<Seq<(Seq<char>, SpanStyle)>>
    decreases is.len(),
{
    if is.len() == 0 {
        Seq::empty()
    } else {
        interfaces_lines_spec(is.drop_last()) + interface_lines_spec(is.last())
    }
}

/// The communication hub view: the number of registered interfaces, the
/// number of connected sockets, an empty line, then each interface with its
/// sockets.
pub open spec fn comhub_lines_spec(info: ComHubInfo) -> Seq<Seq<(Seq<char>, SpanStyle)>> {
    seq![
        seq![
            ("Registered Interfaces: "@, SpanStyle::Plain),
            (decimal(info.interfaces@.len()), SpanStyle::Plain),
        ],
        seq![
            ("Connected Sockets: "@, SpanStyle::Plain),
            (decimal(info.endpoint_socket_count as nat), SpanStyle::Plain),
        ],
        seq![(Seq::<char>::empty(), SpanStyle::Plain)],
    ] + interfaces_lines_spec(info.interfaces@)
}

fn socket_line(s: &SocketInfo) -> (l: StyledLine)
    ensures
        line_view(l) == socket_line_spec(*s),
{
    let dot = span(String::from_str("  \u{2B24} "), SpanStyle::Green);
    let arrow = match s.direction {
        SocketDirection::In => String::from_str(" \u{2500}\u{2500}\u{25B6} "),
        SocketDirection::Out => String::from_str(" \u{25C0}\u{2500}\u{2500} "),
        SocketDirection::InOut => String::from_str(" \u{25C0}\u{2500}\u{2500}\u{25B6} "),
    };
    let endpoint = match &s.endpoint {
        Some(e) => e.clone(),
        None => String::from_str("unknown"),
    };
    let mut spans = Vec::new();
    spans.push(dot);
    spans.push(span(arrow, SpanStyle::Plain));
    spans.push(span(endpoint, SpanStyle::Plain));
    let l = StyledLine { spans };
    assert(line_view(l) =~= socket_line_spec(*s));
    l
}

fn interface_label(i: &InterfaceInfo) -> (t: String)
    ensures
        t@ == interface_label_spec(*i),
{
    match &i.name {
        Some(n) => {
            let mut t = i.channel.clone();
            push_str(&mut t, " (");
            push_str(&mut t, n.as_str());
            push_str(&mut t, ")");
            t
        },
        None => i.channel.clone(),
    }
}

/// The lines of the communication hub view (see `comhub_lines_spec`).
pub fn comhub_lines(info: &ComHubInfo) -> (r: Vec<StyledLine>)
    ensures
        lines_view(r@) == comhub_lines_spec(*info),
{
    let mut r: Vec<StyledLine> = Vec::new();
    r.push(
        line2(
            span(String::from_str("Registered Interfaces: "), SpanStyle::Plain),
            span(usize_to_string(info.interfaces.len()), SpanStyle::Plain),
        ),
    );
    r.push(
        line2(
            span(String::from_str("Connected Sockets: "), SpanStyle::Plain),
            span(usize_to_string(info.endpoint_socket_count), SpanStyle::Plain),
        ),
    );
    let mut blank = Vec::new();
    blank.push(span(String::new(), SpanStyle::Plain));
    let blank_line = StyledLine { spans: blank };
    assert(line_view(blank_line) =~= seq![(Seq::<char>::empty(), SpanStyle::Plain)]);
    r.push(blank_line);
    let ghost head = lines_view(r@);
    let mut k: usize = 0;
    assert(info.interfaces@.take(0) =~= Seq::<InterfaceInfo>::empty());
    while k < info.interfaces.len()
        invariant
            k <= info.interfaces@.len(),
            lines_view(r@) == head + interfaces_lines_spec(info.interfaces@.take(k as int)),
        decreases info.interfaces@.len() - k,
    {
        let iface = &info.interfaces[k];
        let ghost before = lines_view(r@);
        let mut label = Vec::new();
        label.push(span(interface_label(iface), SpanStyle::Bold));
        let label_line = StyledLine { spans: label };
        assert(line_view(label_line) =~= seq![(interface_label_spec(*iface), SpanStyle::Bold)]);
        r.push(label_line);
        let mut j: usize = 0;
        while j < iface.sockets.len()
            invariant
                j <= iface.sockets@.len(),
                lines_view(r@) == before + seq![seq![(interface_label_spec(*iface), SpanStyle::Bold)]]
                    + iface.sockets@.take(j as int).map_values(|s: SocketInfo| socket_line_spec(s)),
            decreases iface.sockets@.len() - j,
        {
            let l = socket_line(&iface.sockets[j]);
            let ghost prev = lines_view(r@);
            r.push(l);
            proof {
                assert(lines_view(r@) =~= prev.push(line_view(l)));
                assert(iface.sockets@.take(j + 1).map_values(|s: SocketInfo| socket_line_spec(s))
                    =~= iface.sockets@.take(j as int).map_values(|s: SocketInfo| socket_line_spec(s)).push(
                    socket_line_spec(iface.sockets@[j as int]),
                ));
            }
            j = j + 1;
        }
        proof {
            assert(iface.sockets@.take(iface.sockets@.len() as int) =~= iface.sockets@);
            let t = info.interfaces@.take(k + 1);
            assert(t.drop_last() =~= info.interfaces@.take(k as int));
            assert(t.last() == *iface);
            assert(lines_view(r@) =~= head + interfaces_lines_spec(t));
        }
        k = k + 1;
    }
    proof {
        assert(info.interfaces@.take(info.interfaces@.len() as int) =~= info.interfaces@);
        assert(lines_view(r@) =~= comhub_lines_spec(*info));
    }
    r
}

/// The index, among the lines of interfaces `is`, of the label line of
/// interface `a`: each earlier interface takes its label line and one line
/// per socket.
pub open spec fn interface_line_index(is: Seq<InterfaceInfo>, a: int) -> int
    decreases a,
{
    if a <= 0 {
        0
    } else {
        interface_line_index(is, a - 1) + 1 + is[a - 1].sockets@.len()
    }
}

proof fn lemma_interfaces_lines_at(is: Seq<InterfaceInfo>, a: int, b: int)
    requires
        0 <= a < is.len(),
        0 <= b < is[a].sockets@.len(),
    ensures
        interface_line_index(is, a) + 1 + b < interfaces_lines_spec(is).len(),
        interfaces_lines_spec(is)[interface_line_index(is, a) + 1 + b] == socket_line_spec(
            is[a].sockets@[b],
        ),
    decreases is.len(),
{
    let d = is.drop_last();
    let n = is.len() - 1;
    let big = interfaces_lines_spec(d);
    let last = interface_lines_spec(is.last());
    assert(interfaces_lines_spec(is) == big + last);
    assert forall|i: int| 0 <= i < d.len() implies d[i] == is[i] by {}
    lemma_interfaces_lines_len(d);
    lemma_interface_line_index_prefix(is, d, n);
    lemma_interface_line_index_prefix(is, d, a);
    let idx = interface_line_index(is, a) + 1 + b;
    lemma_interface_line_index_mono(is, 0, a);
    if a < n {
        assert(d[a] == is[a]);
        lemma_interfaces_lines_at(d, a, b);
        assert(idx < big.len());
        assert((big + last)[idx] == big[idx]);
    } else {
        assert(big.len() == interface_line_index(is, a));
        assert(last[1 + b] == socket_line_spec(is[a].sockets@[b]));
        assert((big + last)[idx] == last[1 + b]);
        assert(last.len() == 1 + is[a].sockets@.len());
    }
}

proof fn lemma_interface_line_index_prefix(is: Seq<InterfaceInfo>, d: Seq<InterfaceInfo>, k: int)
    requires
        0 <= k <= d.len() <= is.len(),
        forall|i: int| 0 <= i < d.len() ==> d[i] == is[i],
    ensures
        interface_line_index(d, k) == interface_line_index(is, k),
    decreases k,
{
    if k > 0 {
        lemma_interface_line_index_prefix(is, d, k - 1);
    }
}

proof fn lemma_interface_line_index_mono(is: Seq<InterfaceInfo>, a: int, b: int)
    requires
        a <= b,
    ensures
        interface_line_index(is, a) <= interface_line_index(is, b),
    decreases b - a,
{
    if a < b {
        lemma_interface_line_index_mono(is, a, b - 1);
    }
}

proof fn lemma_interfaces_lines_len(is: Seq<InterfaceInfo>)
    ensures
        interfaces_lines_spec(is).len() == interface_line_index(is, is.len() as int),
    decreases is.len(),
{
    if is.len() > 0 {
        let d = is.drop_last();
        lemma_interfaces_lines_len(d);
        assert forall|i: int| 0 <= i < d.len() implies d[i] == is[i] by {}
        lemma_interface_line_index_prefix(is, d, d.len() as int);
    }
}

/// The arrow drawn for a socket of direction `d`: incoming `──▶`, outgoing
/// `◀──`, both ways `◀──▶`, each between spaces.
pub open spec fn direction_arrow(d: SocketDirection) -> Seq<char> {
    match d {
        SocketDirection::In => seq![' ', '\u{2500}', '\u{2500}', '\u{25B6}', ' '],
        SocketDirection::Out => seq![' ', '\u{25C0}', '\u{2500}', '\u{2500}', ' '],
        SocketDirection::InOut => seq![' ', '\u{25C0}', '\u{2500}', '\u{2500}', '\u{25B6}', ' '],
    }
}

/// Law: in the communication hub view, socket `b` of interface `a` is
/// shown on its own line, after the three heading lines, the lines of the
/// earlier interfaces and the label of its interface: a green dot, the
/// arrow of its direction (`──▶` in, `◀──` out, `◀──▶` both ways), and its
/// endpoint, or `unknown`. Sockets of different directions get different
/// arrows.
pub proof fn lemma_comhub_socket_lines(info: ComHubInfo, a: int, b: int)
    requires
        0 <= a < info.interfaces@.len(),
        0 <= b < info.interfaces@[a].sockets@.len(),
    ensures
        ({
            let s = info.interfaces@[a].sockets@[b];
            let line = comhub_lines_spec(info)[3 + interface_line_index(info.interfaces@, a) + 1 + b];
            &&& line.len() == 3
            &&& line[0] == (seq![' ', ' ', '\u{2B24}', ' '], SpanStyle::Green)
            &&& line[1] == (direction_arrow(s.direction), SpanStyle::Plain)
            &&& line[2] == (
                match s.endpoint {
                    Some(e) => e@,
                    None => seq!['u', 'n', 'k', 'n', 'o', 'w', 'n'],
                },
                SpanStyle::Plain,
            )
        }),
        forall|d1: SocketDirection, d2: SocketDirection|
            d1 != d2 ==> #[trigger] arrow_spec(d1) != #[trigger] arrow_spec(d2),
{
    lemma_interfaces_lines_at(info.interfaces@, a, b);
    let k = interface_line_index(info.interfaces@, a) + 1 + b;
    lemma_interface_line_index_mono(info.interfaces@, 0, a);
    let all = comhub_lines_spec(info);
    assert(all[3 + k] == interfaces_lines_spec(info.interfaces@)[k]);
    reveal_strlit("  \u{2B24} ");
    reveal_strlit(" \u{2500}\u{2500}\u{25B6} ");
    reveal_strlit(" \u{25C0}\u{2500}\u{2500} ");
    reveal_strlit(" \u{25C0}\u{2500}\u{2500}\u{25B6} ");
    reveal_strlit("unknown");
    let s = info.interfaces@[a].sockets@[b];
    assert(arrow_spec(s.direction) =~= direction_arrow(s.direction));
    assert("  \u{2B24} "@ =~= seq![' ', ' ', '\u{2B24}', ' ']);
    assert("unknown"@ =~= seq!['u', 'n', 'k', 'n', 'o', 'w', 'n']);
    assert forall|d1: SocketDirection, d2: SocketDirection| d1 != d2 implies #[trigger] arrow_spec(d1)
        != #[trigger] arrow_spec(d2) by {
        assert(arrow_spec(d1) =~= direction_arrow(d1));
        assert(arrow_spec(d2) =~= direction_arrow(d2));
        if direction_arrow(d1).len() == direction_arrow(d2).len() {
            assert(direction_arrow(d1)[1] != direction_arrow(d2)[1] || direction_arrow(d1)[3]
                != direction_arrow(d2)[3]);
        }
    }
}

/// The runtime information view: the endpoint and the version, in bold.
pub open spec fn metadata_lines_spec(endpoint: Seq<char>, version: Seq<char>) -> Seq<
    Seq<(Seq<char>, SpanStyle)>,
> {
    seq![
        seq![("Endpoint: "@, SpanStyle::Plain), (endpoint, SpanStyle::Bold)],
        seq![("Version: "@, SpanStyle::Plain), (version, SpanStyle::Bold)],
    ]
}

/// The lines of the runtime information view.
pub fn metadata_lines(endpoint: &str, version: &str) -> (r: Vec<StyledLine>)
    ensures
        lines_view(r@) == metadata_lines_spec(endpoint@, version@),
{
    let mut r = Vec::new();
    r.push(
        line2(
            span(String::from_str("Endpoint: "), SpanStyle::Plain),
            span(String::from_str(endpoint), SpanStyle::Bold),
        ),
    );
    r.push(
        line2(
            span(String::from_str("Version: "), SpanStyle::Plain),
            span(String::from_str(version), SpanStyle::Bold),
        ),
    );
    assert(lines_view(r@) =~= metadata_lines_spec(endpoint@, version@));
    r
}

/// The title line: the name in bold and the version, dimmed.
pub fn title_line(version: &str) -> (l: StyledLine)
    ensures
        line_view(l) == seq![
            (" DATEX Workbench "@, SpanStyle::Bold),
            ("v"@ + version@ + " "@, SpanStyle::Dim),
        ],
{
    let mut v = String::from_str("v");
    push_str(&mut v, version);
    push_str(&mut v, " ");
    line2(span(String::from_str(" DATEX Workbench "), SpanStyle::Bold), span(v, SpanStyle::Dim))
}

/// A key on the keyboard.
#[derive(Clone, Copy, Debug, PartialEq, Eq, Structural)]
pub enum KeyCode {
    Char(char),
    Other,
}

/// An event from the terminal.
#[derive(Clone, Copy, Debug, PartialEq, Eq, Structural)]
pub enum InputEvent {
    /// A key event, and whether the key was pressed (not released or repeated).
    Key(KeyCode, bool),
    /// Any other event.
    Other,
}

/// The workbench's own state: whether it is to quit.
pub struct Workbench {
    exit: bool,
}

impl Workbench {
    /// Whether the workbench is to quit.
    pub closed spec fn exiting(&self) -> bool {
        self.exit
    }

    /// A workbench that keeps running.
    pub fn new() -> (w: Self)
        ensures
            !w.exiting(),
    {
        Workbench { exit: false }
    }

    /// Whether the main loop is to stop.
    pub fn should_exit(&self) -> (r: bool)
        ensures
            r == self.exiting(),
    {
        self.exit
    }

    /// Handles an event from the terminal: only a pressed key is handled.
    pub fn handle_events(&mut self, event: InputEvent)
        ensures
            final(self).exiting() == (old(self).exiting() || event == InputEvent::Key(
                KeyCode::Char('q'),
                true,
            )),
    {
        match event {
            InputEvent::Key(code, true) => self.handle_key_event(code),
            _ => {},
        }
    }

    /// `q` quits; other keys do nothing.
    pub fn handle_key_event(&mut self, code: KeyCode)
        ensures
            final(self).exiting() == (old(self).exiting() || code == KeyCode::Char('q')),
    {
        match code {
            KeyCode::Char('q') => self.exit(),
            _ => {},
        }
    }

    /// Marks the workbench to quit.
    pub fn exit(&mut self)
        ensures
            final(self).exiting(),
    {
        self.exit = true;
    }
}

/// Law: the workbench quits after a sequence of events exactly when one of
/// them is a press of `q`, and once it is to quit it stays so.
pub open spec fn exits_after(start: bool, events: Seq<InputEvent>) -> bool {
    start || exists|i: int|
        0 <= i < events.len() && #[trigger] events[i] == InputEvent::Key(KeyCode::Char('q'), true)
}

/// Handles the events in order.
pub fn handle_all_events(w: &mut Workbench, events: &Vec<InputEvent>)
    ensures
        final(w).exiting() == exits_after(old(w).exiting(), events@),
{
    let ghost start = w.exiting();
    let mut i: usize = 0;
    while i < events.len()
        invariant
            i <= events@.len(),
            w.exiting() == exits_after(start, events@.take(i as int)),
        decreases events@.len() - i,
    {
        w.handle_events(events[i]);
        proof {
            let t = events@.take(i + 1);
            if exits_after(start, events@.take(i as int)) && !start {
                let j = choose|j: int|
                    0 <= j < events@.take(i as int).len() && #[trigger] events@.take(i as int)[j]
                        == InputEvent::Key(KeyCode::Char('q'), true);
                assert(t[j] == events@.take(i as int)[j]);
            }
            if events@[i as int] == InputEvent::Key(KeyCode::Char('q'), true) {
                assert(t[i as int] == events@[i as int]);
            }
            if exits_after(start, t) && !start {
                let j = choose|j: int|
                    0 <= j < t.len() && #[trigger] t[j] == InputEvent::Key(KeyCode::Char('q'), true);
                if j < i {
                    assert(events@.take(i as int)[j] == t[j]);
                }
            }
        }
        i = i + 1;
    }
    assert(events@.take(events@.len() as int) =~= events@);
}

} // verus!
