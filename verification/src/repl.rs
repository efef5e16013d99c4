//! REPL logic: the options it starts with, how an input line is read as a
//! command, and what is answered to each command.
use vstd::prelude::*;
use vstd::string::*;

use crate::config::{path_join, push_path};
use crate::text::{chars_of, push_char, push_str, split_ranges, split_ranges_ok, split_at_char, text_lines, trim_cr};

verus! {

/// Options the REPL starts with.
pub struct ReplOptions {
    pub verbose: bool,
    pub config_path: Option<String>,
}

impl Default for ReplOptions {
    fn default() -> (r: Self)
        ensures
            !r.verbose,
            r.config_path is None,
    {
        ReplOptions { verbose: false, config_path: None }
    }
}

/// What a line typed into the REPL asks for.
pub enum ReplLine {
    /// Clear the screen.
    Clear,
    /// Show information about the communication hub.
    ComHubInfo,
    /// Show a dump of the local memory.
    LocalMemoryDump,
    /// Record a trace to the endpoint written after `trace `.
    Trace(String),
    /// Execute the line as a script.
    Execute(String),
}

/// Whether `c` is whitespace as `char::is_whitespace` has it: whether it
/// has the Unicode `White_Space` property (tab to carriage return, space,
/// next line, no-break space, Ogham space mark, the spaces from en quad to
/// hair space, line and paragraph separator, narrow no-break space, medium
/// mathematical space, ideographic space).
pub open spec fn is_white_space(c: char) -> bool {
    let u = c as u32;
    ||| 0x9 <= u <= 0xd
    ||| u == 0x20 || u == 0x85 || u == 0xa0 || u == 0x1680
    ||| 0x2000 <= u <= 0x200a
    ||| u == 0x2028 || u == 0x2029 || u == 0x202f || u == 0x205f || u == 0x3000
}

/// Whether `c` is whitespace (`char::is_whitespace`).
pub fn char_is_whitespace(c: char) -> (b: bool)
    ensures
        b == is_white_space(c),
{
    let u = c as u32;
    (0x9 <= u && u <= 0xd) || u == 0x20 || u == 0x85 || u == 0xa0 || u == 0x1680 || (0x2000 <= u
        && u <= 0x200a) || u == 0x2028 || u == 0x2029 || u == 0x202f || u == 0x205f || u == 0x3000
}

/// Index of the first character of `s` at or after `i` that is not whitespace.
pub open spec fn skip_white_from(s: Seq<char>, i: int) -> int
    decreases s.len() - i,
{
    if i >= s.len() || !is_white_space(s[i]) {
        i
    } else {
        skip_white_from(s, i + 1)
    }
}

/// One past the last character of `s` before `j` that is not whitespace,
/// not going below `lo`.
pub open spec fn trim_end_from(s: Seq<char>, lo: int, j: int) -> int
    decreases j - lo,
{
    if j <= lo || !is_white_space(s[j - 1]) {
        j
    } else {
        trim_end_from(s, lo, j - 1)
    }
}

/// `str::trim`: `s` without leading and trailing whitespace.
pub open spec fn trim_spec(s: Seq<char>) -> Seq<char> {
    let a = skip_white_from(s, 0);
    s.subrange(a, trim_end_from(s, a, s.len() as int))
}

/// The word `trace` followed by a space.
pub open spec fn trace_prefix() -> Seq<char> {
    seq!['t', 'r', 'a', 'c', 'e', ' ']
}

/// How the REPL reads a line: the trimmed line `clear`, `com` or `mem` is a
/// command of its own; otherwise a line that starts with `trace ` asks for a
/// trace to the endpoint written after it, and any other line is executed.
pub open spec fn classify_spec(line: Seq<char>) -> (int, Seq<char>) {
    let t = trim_spec(line);
    if t == seq!['c', 'l', 'e', 'a', 'r'] {
        (0, Seq::empty())
    } else if t == seq!['c', 'o', 'm'] {
        (1, Seq::empty())
    } else if t == seq!['m', 'e', 'm'] {
        (2, Seq::empty())
    } else if line.len() >= 6 && line.take(6) == trace_prefix() {
        (3, line.skip(6))
    } else {
        (4, line)
    }
}

/// Law: each command is recognised exactly when the trimmed line is that
/// command word: `clear`, `com`, or `mem` for the memory dump. A line that
/// is none of them and does not begin with `trace ` is executed unchanged,
/// so a line such as `memory` or `members = 1`, which only begins with
/// `mem`, is executed and never taken for the memory dump.
pub proof fn lemma_classify_commands(line: Seq<char>)
    ensures
        classify_spec(line).0 == 0 <==> trim_spec(line) == seq!['c', 'l', 'e', 'a', 'r'],
        classify_spec(line).0 == 1 <==> trim_spec(line) == seq!['c', 'o', 'm'],
        classify_spec(line).0 == 2 <==> trim_spec(line) == seq!['m', 'e', 'm'],
        classify_spec(line).0 == 3 ==> line.len() >= 6 && line.take(6) == seq![
            't',
            'r',
            'a',
            'c',
            'e',
            ' ',
        ] && classify_spec(line).1 == line.skip(6),
        (trim_spec(line) != seq!['c', 'l', 'e', 'a', 'r'] && trim_spec(line) != seq!['c', 'o', 'm']
            && trim_spec(line) != seq!['m', 'e', 'm'] && !(line.len() >= 6 && line.take(6) == seq![
            't',
            'r',
            'a',
            'c',
            'e',
            ' ',
        ])) ==> classify_spec(line) == (4int, line),
{
}

/// The classification of a `ReplLine` in the numbering of `classify_spec`.
pub open spec fn repl_line_view(l: ReplLine) -> (int, Seq<char>) {
    match l {
        ReplLine::Clear => (0, Seq::empty()),
        ReplLine::ComHubInfo => (1, Seq::empty()),
        ReplLine::LocalMemoryDump => (2, Seq::empty()),
        ReplLine::Trace(e) => (3, e@),
        ReplLine::Execute(x) => (4, x@),
    }
}

fn trim_bounds(cs: &Vec<char>) -> (r: (usize, usize))
    ensures
        r.0 == skip_white_from(cs@, 0),
        r.1 == trim_end_from(cs@, r.0 as int, cs@.len() as int),
        r.0 <= r.1 <= cs@.len(),
{
    let mut a: usize = 0;
    while a < cs.len() && char_is_whitespace(cs[a])
        invariant
            a <= cs@.len(),
            skip_white_from(cs@, 0) == skip_white_from(cs@, a as int),
        decreases cs@.len() - a,
    {
        a = a + 1;
    }
    let mut b: usize = cs.len();
    while b > a && char_is_whitespace(cs[b - 1])
        invariant
            a <= b <= cs@.len(),
            trim_end_from(cs@, a as int, cs@.len() as int) == trim_end_from(cs@, a as int, b as int),
        decreases b,
    {
        b = b - 1;
    }
    (a, b)
}

fn range_equals(cs: &Vec<char>, from: usize, to: usize, word: &str) -> (r: bool)
    requires
        from <= to <= cs@.len(),
    ensures
        r == (cs@.subrange(from as int, to as int) == word@),
{
    let w = chars_of(word);
    if to - from != w.len() {
        return false;
    }
    let mut i: usize = 0;
    while i < w.len()
        invariant
            w@ == word@,
            from <= to <= cs@.len(),
            to - from == w@.len(),
            i <= w@.len(),
            forall|j: int| 0 <= j < i ==> cs@[from + j] == w@[j],
        decreases w@.len() - i,
    {
        if cs[from + i] != w[i] {
            assert(cs@.subrange(from as int, to as int)[i as int] != word@[i as int]);
            return false;
        }
        i = i + 1;
    }
    assert(cs@.subrange(from as int, to as int) =~= word@);
    true
}

fn string_from(cs: &Vec<char>, from: usize) -> (s: String)
    requires
        from <= cs@.len(),
    ensures
        s@ == cs@.skip(from as int),
{
    let s = crate::text::string_of_range(cs, from, cs.len());
    assert(cs@.subrange(from as int, cs@.len() as int) =~= cs@.skip(from as int));
    s
}

/// Reads a line typed into the REPL as a command.
pub fn classify_repl_line(line: &str) -> (r: ReplLine)
    ensures
        repl_line_view(r) == classify_spec(line@),
{
    let cs = chars_of(line);
    let (a, b) = trim_bounds(&cs);
    proof {
        reveal_strlit("clear");
        reveal_strlit("com");
        reveal_strlit("mem");
        reveal_strlit("trace ");
        assert("clear"@ =~= seq!['c', 'l', 'e', 'a', 'r']);
        assert("com"@ =~= seq!['c', 'o', 'm']);
        assert("mem"@ =~= seq!['m', 'e', 'm']);
        assert("trace "@ =~= trace_prefix());
        assert(trim_spec(line@) == cs@.subrange(a as int, b as int));
    }
    if range_equals(&cs, a, b, "clear") {
        return ReplLine::Clear;
    }
    if range_equals(&cs, a, b, "com") {
        return ReplLine::ComHubInfo;
    }
    if range_equals(&cs, a, b, "mem") {
        return ReplLine::LocalMemoryDump;
    }
    if cs.len() >= 6 && range_equals(&cs, 0, 6, "trace ") {
        assert(cs@.subrange(0, 6) =~= cs@.take(6));
        return ReplLine::Trace(string_from(&cs, 6));
    }
    proof {
        if cs@.len() >= 6 {
            assert(cs@.subrange(0, 6) =~= cs@.take(6));
        }
    }
    ReplLine::Execute(string_from(&cs, 0))
}

/// What the REPL prints when the text after `trace ` is not an endpoint.
pub fn invalid_endpoint_message() -> (s: String)
    ensures
        s@ == "Invalid endpoint format. Use 'trace <endpoint>'."@,
{
    String::from_str("Invalid endpoint format. Use 'trace <endpoint>'.")
}

/// The answer to a memory dump request, given the dump if there is one.
pub fn memory_dump_response(dump: Option<String>) -> (s: String)
    ensures
        s@ == match dump {
            Some(d) => "Memory Dump:\n\n"@ + d@,
            None => "<Memory dump not available>"@,
        },
{
    match dump {
        Some(d) => {
            let mut s = String::from_str("Memory Dump:\n\n");
            push_str(&mut s, d.as_str());
            s
        },
        None => String::from_str("<Memory dump not available>"),
    }
}

/// The answer to a trace request, given the recorded trace if there is one.
pub fn trace_response(trace: Option<String>) -> (s: String)
    ensures
        s@ == match trace {
            Some(t) => t@,
            None => "Could not create trace"@,
        },
{
    match trace {
        Some(t) => t,
        None => String::from_str("Could not create trace"),
    }
}

/// How executing a line ended: a compiler error, an execution error (each
/// with its message), or a value (shown decompiled) or none.
pub enum ExecutionOutcome {
    CompilerError(String),
    ExecutionError(String),
    Value(Option<String>),
}

/// The lines of a value shown after the first one are indented by two
/// spaces to line up with the prompt.
pub open spec fn indent_lines(lines: Seq<Seq<char>>) -> Seq<char>
    decreases lines.len(),
{
    if lines.len() == 0 {
        Seq::empty()
    } else if lines.len() == 1 {
        lines[0]
    } else {
        indent_lines(lines.drop_last()) + seq!['\n', ' ', ' '] + lines.last()
    }
}

/// The answer to executing a line.
pub open spec fn execution_response_spec(outcome: ExecutionOutcome) -> Option<Seq<char>> {
    match outcome {
        ExecutionOutcome::CompilerError(e) => Some(
            "\x1b[31m[Compiler Error] "@ + e@ + "\x1b[0m"@,
        ),
        ExecutionOutcome::ExecutionError(e) => Some(
            "\x1b[31m[Execution Error] "@ + e@ + "\x1b[0m"@,
        ),
        ExecutionOutcome::Value(Some(v)) => Some(seq!['<', ' '] + indent_lines(text_lines(v@))),
        ExecutionOutcome::Value(None) => None,
    }
}

/// Indents every line of `text` but the first by two spaces (lines as
/// `str::lines` yields them) and joins them with `'\n'`.
pub fn indent_continuation_lines(text: &str) -> (s: String)
    ensures
        s@ == indent_lines(text_lines(text@)),
{
    let cs = chars_of(text);
    let segs = split_ranges(&cs, '\n');
    let ghost p = split_at_char(cs@, '\n');
    let ghost lines = text_lines(cs@);
    let n = segs.len();
    let count = if segs[n - 1].0 == segs[n - 1].1 {
        n - 1
    } else {
        n
    };
    proof {
        assert(p[n - 1] == cs@.subrange(segs@[n - 1].0 as int, segs@[n - 1].1 as int));
    }
    let mut out = String::new();
    let mut k: usize = 0;
    while k < count
        invariant
            split_ranges_ok(cs@, '\n', segs@),
            p == split_at_char(cs@, '\n'),
            lines == text_lines(cs@),
            cs@ == text@,
            n == segs@.len(),
            count <= n,
            lines.len() == count,
            k <= count,
            out@ == indent_lines(lines.take(k as int)),
        decreases count - k,
    {
        let (s, e) = segs[k];
        let te = if k + 1 < n && e > s && cs[e - 1] == '\r' {
            e - 1
        } else {
            e
        };
        proof {
            assert(segs@[k as int].0 <= segs@[k as int].1);
            assert(p[k as int] == cs@.subrange(s as int, e as int));
            assert(lines[k as int] =~= cs@.subrange(s as int, te as int));
            assert(lines.take(k + 1).drop_last() =~= lines.take(k as int));
            assert(lines.take(k + 1).last() == lines[k as int]);
        }
        let line = crate::text::string_of_range(&cs, s, te);
        if k > 0 {
            push_char(&mut out, '\n');
            push_char(&mut out, ' ');
            push_char(&mut out, ' ');
            push_str(&mut out, line.as_str());
            proof {
                let prev = indent_lines(lines.take(k as int));
                assert(prev.push('\n').push(' ').push(' ') + line@ =~= prev + seq!['\n', ' ', ' ']
                    + line@);
            }
        } else {
            push_str(&mut out, line.as_str());
            assert(lines.take(0) =~= Seq::<Seq<char>>::empty());
            assert(Seq::<char>::empty() + line@ =~= line@);
        }
        k = k + 1;
    }
    assert(lines.take(count as int) =~= lines);
    out
}

/// The answer to executing a line: errors in red with their kind, a value
/// after `< ` with its further lines indented, nothing for no value.
pub fn execution_response(outcome: ExecutionOutcome) -> (r: Option<String>)
    ensures
        match execution_response_spec(outcome) {
            Some(t) => r is Some && r->0@ == t,
            None => r is None,
        },
{
    match outcome {
        ExecutionOutcome::CompilerError(e) => {
            let mut s = String::from_str("\x1b[31m[Compiler Error] ");
            push_str(&mut s, e.as_str());
            push_str(&mut s, "\x1b[0m");
            Some(s)
        },
        ExecutionOutcome::ExecutionError(e) => {
            let mut s = String::from_str("\x1b[31m[Execution Error] ");
            push_str(&mut s, e.as_str());
            push_str(&mut s, "\x1b[0m");
            Some(s)
        },
        ExecutionOutcome::Value(Some(v)) => {
            let mut s = String::new();
            push_char(&mut s, '<');
            push_char(&mut s, ' ');
            let body = indent_continuation_lines(v.as_str());
            push_str(&mut s, body.as_str());
            assert(s@ =~= seq!['<', ' '] + body@);
            Some(s)
        },
        ExecutionOutcome::Value(None) => None,
    }
}

/// What running one REPL command gave: the communication hub's metadata,
/// the memory dump (if there is one), the trace (if one could be made), or
/// the outcome of executing a script.
pub enum CommandOutcome {
    ComHubInfo(String),
    LocalMemoryDump(Option<String>),
    Trace(Option<String>),
    Execute(ExecutionOutcome),
}

/// The answer the REPL prints for a command, given what running it gave.
pub open spec fn repl_response_spec(outcome: CommandOutcome) -> Option<Seq<char>> {
    match outcome {
        CommandOutcome::ComHubInfo(m) => Some(m@),
        CommandOutcome::LocalMemoryDump(d) => Some(
            match d {
                Some(d) => "Memory Dump:\n\n"@ + d@,
                None => "<Memory dump not available>"@,
            },
        ),
        CommandOutcome::Trace(t) => Some(
            match t {
                Some(t) => t@,
                None => "Could not create trace"@,
            },
        ),
        CommandOutcome::Execute(e) => execution_response_spec(e),
    }
}

/// The one answer the REPL sends back for a command it ran: the metadata,
/// the memory dump, the trace, or the answer to the script's execution.
pub fn repl_response(outcome: CommandOutcome) -> (r: Option<String>)
    ensures
        match repl_response_spec(outcome) {
            Some(t) => r is Some && r->0@ == t,
            None => r is None,
        },
{
    match outcome {
        CommandOutcome::ComHubInfo(m) => Some(m),
        CommandOutcome::LocalMemoryDump(d) => Some(memory_dump_response(d)),
        CommandOutcome::Trace(t) => Some(trace_response(t)),
        CommandOutcome::Execute(e) => execution_response(e),
    }
}

/// Where the REPL keeps its history, under the DATEX base directory.
pub fn repl_history_path(datex_base_path: &str) -> (p: String)
    ensures
        p@ == path_join(datex_base_path@, "repl-history.txt"@),
{
    push_path(datex_base_path, "repl-history.txt")
}

} // verus!
