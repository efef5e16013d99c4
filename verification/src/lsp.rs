//! Language-server logic: conversions between document positions and byte
//! offsets, the completion prefix at a position, the per-file store of
//! spanned compiler errors, variable lookups for completion and hover, and
//! the visitors that locate expressions and declarations.
use vstd::prelude::*;
use vstd::string::*;

pub mod expression_finder;
pub mod type_hint_collector;
pub mod variable_declaration_finder;

use crate::text::{
    byte_offsets, chars_of, split_ranges, split_ranges_ok, string_of_range, byte_len,
    lemma_byte_len_ge_len, lemma_split_nonempty, lemma_split_total, pieces_len, lemma_byte_len_push,
    lemma_byte_len_subrange, lemma_char_byte_len_bounds, split_at_char, lemma_split_piece_at,
    lemma_pieces_len_mono, lemma_ranges_pieces, utf16_len, lemma_utf16_len_le_byte_len,
    lemma_utf16_len_bmp,
};

verus! {

/// A position in a document: zero-based line and character.
#[derive(Clone, Copy, Debug, PartialEq, Eq, Structural)]
pub struct Position {
    pub line: u32,
    pub character: u32,
}

/// A range in a document.
#[derive(Clone, Copy, Debug, PartialEq, Eq, Structural)]
pub struct Range {
    pub start: Position,
    pub end: Position,
}

/// Byte offset of the first character of line `k` of `text`: every byte of
/// the lines before it, each with its `'\n'` (a `'\r'` before the `'\n'`
/// included).
pub open spec fn line_start_byte(text: Seq<char>, k: int) -> int {
    byte_len(text.take(pieces_len(split_at_char(text, '\n'), k))) as int
}

/// Byte index of character `ch` of line `line` of `text`, the lines being
/// the pieces between `'\n'` characters: the bytes of every character
/// before it. `None` when the line does not exist or the character lies
/// beyond the end of the line.
pub open spec fn line_char_to_byte_index_spec(text: Seq<char>, line: int, ch: int) -> Option<int> {
    let p = split_at_char(text, '\n');
    if 0 <= line < p.len() && 0 <= ch <= p[line].len() {
        Some(byte_len(text.take(pieces_len(p, line) + ch)) as int)
    } else {
        None
    }
}

/// The first character index of `l`, from `j` on, whose prefix holds at
/// least `t` bytes (the first character boundary at or after byte `t`);
/// the length of `l` when there is none.
pub open spec fn first_char_at_or_after(l: Seq<char>, t: int, j: int) -> int
    decreases l.len() - j,
{
    if j >= l.len() {
        l.len() as int
    } else if byte_len(l.take(j)) >= t {
        j
    } else {
        first_char_at_or_after(l, t, j + 1)
    }
}

/// The line of `text`, counted from line `k` on, whose bytes (with its
/// `'\n'`, or the end of the text) hold `offset`, with the character index
/// within that line of the first character boundary at or after `offset`.
pub open spec fn locate_offset(text: Seq<char>, offset: int, k: int) -> Option<(int, int)>
    decreases split_at_char(text, '\n').len() - k,
{
    let p = split_at_char(text, '\n');
    if k < 0 || k >= p.len() {
        None
    } else if offset <= line_start_byte(text, k) + byte_len(p[k]) {
        Some((k, first_char_at_or_after(p[k], offset - line_start_byte(text, k), 0)))
    } else {
        locate_offset(text, offset, k + 1)
    }
}

/// The position (an LSP position: the character counted in UTF-16 code
/// units) that `byte_offset_to_position` gives for `offset`.
pub open spec fn byte_offset_to_position_spec(text: Seq<char>, offset: int) -> Option<Position> {
    match locate_offset(text, offset, 0) {
        Some(lc) => Some(
            Position {
                line: lc.0 as u32,
                character: utf16_len(split_at_char(text, '\n')[lc.0].take(lc.1)) as u32,
            },
        ),
        None => None,
    }
}

proof fn lemma_offs_range(cs: Seq<char>, offs: Seq<usize>, a: int, b: int)
    requires
        offs.len() == cs.len() + 1,
        forall|i: int| 0 <= i <= cs.len() ==> #[trigger] offs[i] == byte_len(cs.take(i)),
        0 <= a <= b <= cs.len(),
    ensures
        offs[b] - offs[a] == byte_len(cs.subrange(a, b)),
        offs[a] <= offs[b],
{
    lemma_byte_len_subrange(cs, a, b);
}

proof fn lemma_newline_byte(cs: Seq<char>, offs: Seq<usize>, e: int)
    requires
        offs.len() == cs.len() + 1,
        forall|i: int| 0 <= i <= cs.len() ==> #[trigger] offs[i] == byte_len(cs.take(i)),
        0 <= e < cs.len(),
        (cs[e] as u32) < 0x80,
    ensures
        offs[e + 1] == offs[e] + 1,
{
    assert(cs.take(e + 1) =~= cs.take(e).push(cs[e]));
    lemma_byte_len_push(cs.take(e), cs[e]);
    lemma_char_byte_len_bounds(cs[e]);
}

/// Character index within `cs` whose prefix holds exactly `b` bytes.
pub open spec fn is_char_boundary_of(cs: Seq<char>, b: int) -> bool {
    exists|m: int| 0 <= m <= cs.len() && byte_len(cs.take(m)) == b
}

/// The word characters that end a text: letters, digits and `'_'`, back to
/// the last other character.
pub open spec fn trailing_word(s: Seq<char>) -> Seq<char>
    decreases s.len(),
{
    if s.len() == 0 {
        Seq::<char>::empty()
    } else if is_alphanumeric(s.last()) || s.last() == '_' {
        trailing_word(s.drop_last()).push(s.last())
    } else {
        Seq::<char>::empty()
    }
}

/// Whether `char::is_alphanumeric` holds of `c` (Unicode Alphabetic or Numeric).
pub uninterp spec fn is_alphanumeric(c: char) -> bool;

/// `char::is_alphanumeric`: true exactly for the characters that Unicode
/// classes as Alphabetic or Numeric. The contract names the result, which
/// depends on `c` alone; it does not spell out the Unicode tables.
#[verifier::external_body]
fn char_is_alphanumeric(c: char) -> (b: bool)
    ensures
        b == is_alphanumeric(c),
{
    c.is_alphanumeric()
}

/// A compiler error together with the document range it covers.
pub struct SpannedCompilerError<E> {
    pub range: Range,
    pub error: E,
}

/// A compiler error as the language server receives it: a group of errors,
/// an error with a byte span of the file, or an error without a span.
pub enum CompilerErrorTree<E> {
    Multiple(Vec<CompilerErrorTree<E>>),
    Spanned(E, usize, usize),
    Other(E),
}

/// The document range of the byte range `start..end` of `text`; an end that
/// lies on no line maps to line 0, character 0.
pub open spec fn document_range_spec(start: int, end: int, text: Seq<char>) -> Range {
    Range {
        start: match byte_offset_to_position_spec(text, start) {
            Some(p) => p,
            None => Position { line: 0, character: 0 },
        },
        end: match byte_offset_to_position_spec(text, end) {
            Some(p) => p,
            None => Position { line: 0, character: 0 },
        },
    }
}

/// The errors that `collect_compiler_errors` records for `t`, in order:
/// one per spanned or unspanned error, groups flattened in order.
pub open spec fn leaf_errors<E>(t: CompilerErrorTree<E>, text: Seq<char>) -> Seq<
    SpannedCompilerError<E>,
>
    decreases t,
{
    match t {
        CompilerErrorTree::Multiple(v) => leaf_errors_list(v@, text),
        CompilerErrorTree::Spanned(e, s, en) => seq![
            SpannedCompilerError { range: document_range_spec(s as int, en as int, text), error: e },
        ],
        CompilerErrorTree::Other(e) => seq![
            SpannedCompilerError {
                range: document_range_spec(0, byte_len(text) as int, text),
                error: e,
            },
        ],
    }
}

pub open spec fn leaf_errors_list<E>(v: Seq<CompilerErrorTree<E>>, text: Seq<char>) -> Seq<
    SpannedCompilerError<E>,
>
    decreases v,
{
    if v.len() == 0 {
        Seq::empty()
    } else {
        leaf_errors(v[0], text) + leaf_errors_list(v.subrange(1, v.len() as int), text)
    }
}

/// Map from file path to errors, read off a list of entries (a later entry
/// for the same path overrides an earlier one; the store keeps paths distinct).
pub open spec fn store_map<E>(s: Seq<(String, Vec<SpannedCompilerError<E>>)>) -> Map<
    Seq<char>,
    Seq<SpannedCompilerError<E>>,
>
    decreases s.len(),
{
    if s.len() == 0 {
        Map::empty()
    } else {
        store_map(s.drop_last()).insert(s.last().0@, s.last().1@)
    }
}

/// No path has two entries.
pub open spec fn distinct_paths<E>(s: Seq<(String, Vec<SpannedCompilerError<E>>)>) -> bool {
    forall|i: int, j: int|
        0 <= i < s.len() && 0 <= j < s.len() && i != j ==> #[trigger] s[i].0@ != #[trigger] s[j].0@
}

proof fn lemma_store_dom<E>(s: Seq<(String, Vec<SpannedCompilerError<E>>)>, k: Seq<char>)
    ensures
        store_map(s).dom().contains(k) <==> exists|j: int| 0 <= j < s.len() && #[trigger] s[j].0@ == k,
    decreases s.len(),
{
    if s.len() > 0 {
        lemma_store_dom(s.drop_last(), k);
        if store_map(s.drop_last()).dom().contains(k) {
            let j = choose|j: int| 0 <= j < s.drop_last().len() && #[trigger] s.drop_last()[j].0@ == k;
            assert(s[j] == s.drop_last()[j]);
        }
        if exists|j: int| 0 <= j < s.len() && #[trigger] s[j].0@ == k {
            let j = choose|j: int| 0 <= j < s.len() && #[trigger] s[j].0@ == k;
            if j < s.len() - 1 {
                assert(s.drop_last()[j] == s[j]);
            }
        }
    }
}

proof fn lemma_store_get<E>(s: Seq<(String, Vec<SpannedCompilerError<E>>)>, j: int)
    requires
        distinct_paths(s),
        0 <= j < s.len(),
    ensures
        store_map(s).dom().contains(s[j].0@),
        store_map(s)[s[j].0@] == s[j].1@,
    decreases s.len(),
{
    if j < s.len() - 1 {
        let d = s.drop_last();
        assert(d[j] == s[j]);
        assert(distinct_paths(d)) by {
            assert forall|a: int, b: int| 0 <= a < d.len() && 0 <= b < d.len() && a != b implies #[trigger] d[a].0@ != #[trigger] d[b].0@ by {
                assert(d[a] == s[a] && d[b] == s[b]);
            }
        }
        lemma_store_get(d, j);
        assert(s[j].0@ != s[s.len() - 1].0@);
    }
}

proof fn lemma_store_remove<E>(s: Seq<(String, Vec<SpannedCompilerError<E>>)>, i: int)
    requires
        distinct_paths(s),
        0 <= i < s.len(),
    ensures
        store_map(s.remove(i)) =~= store_map(s).remove(s[i].0@),
        distinct_paths(s.remove(i)),
    decreases s.len(),
{
    let r = s.remove(i);
    assert forall|a: int, b: int| 0 <= a < r.len() && 0 <= b < r.len() && a != b implies #[trigger] r[a].0@ != #[trigger] r[b].0@ by {
        let a0 = if a < i { a } else { a + 1 };
        let b0 = if b < i { b } else { b + 1 };
        assert(r[a] == s[a0] && r[b] == s[b0]);
    }
    let d = s.drop_last();
    assert(distinct_paths(d)) by {
        assert forall|a: int, b: int| 0 <= a < d.len() && 0 <= b < d.len() && a != b implies #[trigger] d[a].0@ != #[trigger] d[b].0@ by {
            assert(d[a] == s[a] && d[b] == s[b]);
        }
    }
    if i == s.len() - 1 {
        assert(r =~= d);
        lemma_store_dom(d, s[i].0@);
        if store_map(d).dom().contains(s[i].0@) {
            let j = choose|j: int| 0 <= j < d.len() && #[trigger] d[j].0@ == s[i].0@;
            assert(d[j] == s[j]);
        }
    } else {
        lemma_store_remove(d, i);
        assert(r.drop_last() =~= d.remove(i));
        assert(r.last() == s.last());
        assert(s[i].0@ != s[s.len() - 1].0@);
    }
}

/// What the language server keeps between requests: for each file path,
/// the compiler errors of its last compilation that failed.
pub struct LanguageServerBackend<E> {
    spanned_compiler_errors: Vec<(String, Vec<SpannedCompilerError<E>>)>,
}

impl<E> View for LanguageServerBackend<E> {
    type V = Map<Seq<char>, Seq<SpannedCompilerError<E>>>;

    closed spec fn view(&self) -> Self::V {
        store_map(self.spanned_compiler_errors@)
    }
}

impl<E> LanguageServerBackend<E> {
    /// No file path has two entries.
    pub closed spec fn wf(&self) -> bool {
        distinct_paths(self.spanned_compiler_errors@)
    }

    /// A backend that knows of no errors.
    pub fn new() -> (b: Self)
        ensures
            b.wf(),
            b@ == Map::<Seq<char>, Seq<SpannedCompilerError<E>>>::empty(),
    {
        LanguageServerBackend { spanned_compiler_errors: Vec::new() }
    }

    fn find_entry(&self, path: &String) -> (r: Option<usize>)
        requires
            self.wf(),
        ensures
            match r {
                Some(i) => i < self.spanned_compiler_errors@.len()
                    && self.spanned_compiler_errors@[i as int].0@ == path@,
                None => !self@.dom().contains(path@),
            },
    {
        let mut i: usize = 0;
        while i < self.spanned_compiler_errors.len()
            invariant
                i <= self.spanned_compiler_errors@.len(),
                forall|j: int| 0 <= j < i ==> #[trigger] self.spanned_compiler_errors@[j].0@ != path@,
            decreases self.spanned_compiler_errors@.len() - i,
        {
            if self.spanned_compiler_errors[i].0 == *path {
                return Some(i);
            }
            i = i + 1;
        }
        proof {
            lemma_store_dom(self.spanned_compiler_errors@, path@);
        }
        None
    }

    /// The errors recorded for `path`, if any.
    pub fn compiler_errors(&self, path: &str) -> (r: Option<&Vec<SpannedCompilerError<E>>>)
        requires
            self.wf(),
        ensures
            match r {
                Some(v) => self@.dom().contains(path@) && v@ == self@[path@],
                None => !self@.dom().contains(path@),
            },
    {
        let key = String::from_str(path);
        match self.find_entry(&key) {
            Some(i) => {
                proof {
                    lemma_store_get(self.spanned_compiler_errors@, i as int);
                }
                Some(&self.spanned_compiler_errors[i].1)
            },
            None => None,
        }
    }

    /// Clears all compiler errors associated with the given file path.
    pub fn clear_compiler_errors(&mut self, path: &str)
        requires
            old(self).wf(),
        ensures
            final(self).wf(),
            final(self)@ == old(self)@.remove(path@),
    {
        let key = String::from_str(path);
        match self.find_entry(&key) {
            Some(i) => {
                proof {
                    lemma_store_remove(self.spanned_compiler_errors@, i as int);
                }
                self.spanned_compiler_errors.remove(i);
            },
            None => {
                assert(self@ =~= old(self)@.remove(path@));
            },
        }
    }

    /// Appends `err` to the errors recorded for `path`, creating the entry
    /// when there is none.
    fn push_compiler_error(&mut self, path: &str, err: SpannedCompilerError<E>)
        requires
            old(self).wf(),
        ensures
            final(self).wf(),
            final(self)@ == old(self)@.insert(path@, errors_or_empty(old(self)@, path@).push(err)),
    {
        let ghost old_view = self@;
        let key = String::from_str(path);
        let mut errs: Vec<SpannedCompilerError<E>> = Vec::new();
        match self.find_entry(&key) {
            Some(i) => {
                proof {
                    lemma_store_get(self.spanned_compiler_errors@, i as int);
                    lemma_store_remove(self.spanned_compiler_errors@, i as int);
                }
                let (_, e) = self.spanned_compiler_errors.remove(i);
                errs = e;
            },
            None => {
                assert(self@.remove(path@) =~= self@);
            },
        }
        proof {
            assert(errs@ == errors_or_empty(old_view, path@));
            assert(self@ == old_view.remove(path@));
            lemma_store_dom(self.spanned_compiler_errors@, path@);
        }
        errs.push(err);
        let ghost before = self.spanned_compiler_errors@;
        self.spanned_compiler_errors.push((key, errs));
        proof {
            let after = self.spanned_compiler_errors@;
            assert(after.drop_last() =~= before);
            assert forall|a: int, b: int| 0 <= a < after.len() && 0 <= b < after.len() && a != b implies #[trigger] after[a].0@ != #[trigger] after[b].0@ by {
                if a < before.len() {
                    assert(after[a] == before[a]);
                }
                if b < before.len() {
                    assert(after[b] == before[b]);
                }
            }
            assert(self@ =~= old_view.insert(path@, errors_or_empty(old_view, path@).push(err)));
        }
    }
}

impl<E> LanguageServerBackend<E> {
    /// Converts a (line, character) pair to a byte index in the given text.
    /// Lines and characters are zero-indexed; a line is a piece between
    /// `'\n'` characters, and a character a Unicode scalar value.
    /// Returns None if the line or character is out of bounds.
    pub fn line_char_to_byte_index(text: &str, line: usize, character: usize) -> (r: Option<usize>)
        ensures
            match line_char_to_byte_index_spec(text@, line as int, character as int) {
                Some(b) => r == Some(b as usize) && 0 <= b <= usize::MAX,
                None => r is None,
            },
    {
        let cs = chars_of(text);
        let offs = byte_offsets(&cs);
        let segs = split_ranges(&cs, '\n');
        if line >= segs.len() {
            return None;
        }
        let (s, e) = segs[line];
        proof {
            lemma_ranges_pieces(cs@, '\n', segs@, line as int);
            assert(segs@[line as int].0 <= segs@[line as int].1 <= cs@.len());
        }
        if character > e - s {
            return None;
        }
        Some(offs[s + character])
    }

    /// Converts a byte offset to an LSP position (line and character) in the
    /// file content: the line whose bytes, with its `'\n'`, hold the offset,
    /// and the UTF-16 code units of that line before the first character
    /// boundary at or after the offset. `None` past the end of the text.
    pub fn byte_offset_to_position(&self, byte_offset: usize, file_content: &str) -> (r: Option<
        Position,
    >)
        ensures
            r == byte_offset_to_position_spec(file_content@, byte_offset as int),
    {
        Self::offset_to_position(byte_offset, file_content)
    }

    fn offset_to_position(byte_offset: usize, file_content: &str) -> (r: Option<Position>)
        ensures
            r == byte_offset_to_position_spec(file_content@, byte_offset as int),
    {
        let cs = chars_of(file_content);
        let offs = byte_offsets(&cs);
        let segs = split_ranges(&cs, '\n');
        let ghost p = split_at_char(cs@, '\n');
        let n = segs.len();
        proof {
            assert(offs@[0] == byte_len(cs@.take(0)));
            lemma_ranges_pieces(cs@, '\n', segs@, 0);
        }
        let mut k: usize = 0;
        while k < n
            invariant
                split_ranges_ok(cs@, '\n', segs@),
                p == split_at_char(cs@, '\n'),
                cs@ == file_content@,
                n == segs@.len(),
                offs@.len() == cs@.len() + 1,
                forall|i: int| 0 <= i <= cs@.len() ==> #[trigger] offs@[i] == byte_len(cs@.take(i)),
                k <= n,
                k < n ==> offs@[segs@[k as int].0 as int] <= byte_offset,
                locate_offset(cs@, byte_offset as int, 0) == locate_offset(
                    cs@,
                    byte_offset as int,
                    k as int,
                ),
            decreases n - k,
        {
            let (s, e) = segs[k];
            proof {
                lemma_ranges_pieces(cs@, '\n', segs@, k as int);
                assert(segs@[k as int].0 <= segs@[k as int].1 <= cs@.len());
                assert(p[k as int] == cs@.subrange(s as int, e as int));
                lemma_offs_range(cs@, offs@, s as int, e as int);
                assert(line_start_byte(cs@, k as int) == offs@[s as int]);
            }
            let start = offs[s];
            let line_bytes = offs[e] - offs[s];
            if byte_offset - start <= line_bytes {
                let t = byte_offset - start;
                let ghost l = p[k as int];
                let mut j: usize = 0;
                let mut units: usize = 0;
                proof {
                    assert(l.take(0) =~= Seq::<char>::empty());
                }
                while j < e - s
                    invariant
                        cs@ == file_content@,
                        l == p[k as int],
                        p == split_at_char(cs@, '\n'),
                        units == utf16_len(l.take(j as int)),
                        l == cs@.subrange(s as int, e as int),
                        s <= e <= cs@.len(),
                        offs@.len() == cs@.len() + 1,
                        forall|i: int| 0 <= i <= cs@.len() ==> #[trigger] offs@[i] == byte_len(cs@.take(i)),
                        j <= e - s,
                        first_char_at_or_after(l, t as int, 0) == first_char_at_or_after(l, t as int, j as int),
                        locate_offset(cs@, byte_offset as int, 0) == Some((k as int, first_char_at_or_after(l, t as int, 0))),
                    decreases e - s - j,
                {
                    proof {
                        assert(l.take(j as int) =~= cs@.subrange(s as int, s + j));
                        lemma_offs_range(cs@, offs@, s as int, s + j);
                    }
                    let b = offs[s + j] - offs[s];
                    if b >= t {
                        proof {
                            assert(l.len() == e - s);
                            assert(byte_len(l.take(j as int)) == b);
                            assert(first_char_at_or_after(l, t as int, j as int) == j as int);
                        }
                        return Some(Position { line: k as u32, character: units as u32 });
                    }
                    let c = cs[s + j];
                    proof {
                        assert(l.take(j + 1) =~= l.take(j as int).push(c));
                        assert(l.take(j + 1).drop_last() =~= l.take(j as int));
                        lemma_utf16_len_le_byte_len(l.take(j + 1));
                        assert(l.take(j + 1) =~= cs@.subrange(s as int, s + j + 1));
                        lemma_offs_range(cs@, offs@, s as int, s + j + 1);
                    }
                    units = if (c as u32) >= 0x10000 {
                        units + 2
                    } else {
                        units + 1
                    };
                    j = j + 1;
                }
                proof {
                    assert(l.take(j as int) =~= l);
                }
                return Some(Position { line: k as u32, character: units as u32 });
            }
            proof {
                if k + 1 < n {
                    let kk = k as int;
                    assert(segs@[kk + 1].0 == segs@[kk].1 + 1);
                    assert(cs@[segs@[kk].1 as int] == '\n');
                    lemma_newline_byte(cs@, offs@, e as int);
                }
            }
            k = k + 1;
        }
        None
    }

    /// Converts a byte range (start, end) to a document range; an end that
    /// lies on no line becomes line 0, character 0.
    pub fn convert_byte_range_to_document_range(&self, start: usize, end: usize, file_content: &str) -> (r: Range)
        ensures
            r == document_range_spec(start as int, end as int, file_content@),
    {
        Self::byte_range_to_range(start, end, file_content)
    }

    fn byte_range_to_range(start: usize, end: usize, file_content: &str) -> (r: Range)
        ensures
            r == document_range_spec(start as int, end as int, file_content@),
    {
        let s = match Self::offset_to_position(start, file_content) {
            Some(p) => p,
            None => Position { line: 0, character: 0 },
        };
        let e = match Self::offset_to_position(end, file_content) {
            Some(p) => p,
            None => Position { line: 0, character: 0 },
        };
        Range { start: s, end: e }
    }

    /// Converts a position (line and character) to a byte offset in the file
    /// content; 0 when the position is out of bounds.
    pub fn position_to_byte_offset(&self, file_content: &str, line: u32, character: u32) -> (r: usize)
        ensures
            r as int == position_offset_spec(file_content@, line as int, character as int),
    {
        match Self::line_char_to_byte_index(file_content, line as usize, character as usize) {
            Some(b) => b,
            None => 0,
        }
    }
}

/// The errors of `m` after `new` were recorded for `path`: an entry is made
/// only when there is something to record.
pub open spec fn with_errors<E>(
    m: Map<Seq<char>, Seq<SpannedCompilerError<E>>>,
    path: Seq<char>,
    new: Seq<SpannedCompilerError<E>>,
) -> Map<Seq<char>, Seq<SpannedCompilerError<E>>> {
    if new.len() == 0 {
        m
    } else {
        m.insert(path, errors_or_empty(m, path) + new)
    }
}

proof fn lemma_with_errors_concat<E>(
    m: Map<Seq<char>, Seq<SpannedCompilerError<E>>>,
    path: Seq<char>,
    a: Seq<SpannedCompilerError<E>>,
    b: Seq<SpannedCompilerError<E>>,
)
    ensures
        with_errors(with_errors(m, path, a), path, b) =~= with_errors(m, path, a + b),
{
    if a.len() == 0 {
        assert(a + b =~= b);
    } else if b.len() == 0 {
        assert(a + b =~= a);
    } else {
        assert(errors_or_empty(m, path) + a + b =~= errors_or_empty(m, path) + (a + b));
    }
}

proof fn lemma_leaf_errors_list_push<E>(
    v: Seq<CompilerErrorTree<E>>,
    x: CompilerErrorTree<E>,
    text: Seq<char>,
)
    ensures
        leaf_errors_list(v.push(x), text) =~= leaf_errors_list(v, text) + leaf_errors(x, text),
    decreases v.len(),
{
    let w = v.push(x);
    if v.len() == 0 {
        let e = Seq::<CompilerErrorTree<E>>::empty();
        assert(w.subrange(1, w.len() as int) =~= e);
        assert(leaf_errors_list(e, text) == Seq::<SpannedCompilerError<E>>::empty());
        assert(leaf_errors_list(v, text) == Seq::<SpannedCompilerError<E>>::empty());
        assert(w[0] == x);
        assert(leaf_errors_list(w, text) == leaf_errors(x, text) + leaf_errors_list(e, text));
        assert(leaf_errors(x, text) + Seq::<SpannedCompilerError<E>>::empty() =~= leaf_errors(x, text));
        assert(Seq::<SpannedCompilerError<E>>::empty() + leaf_errors(x, text) =~= leaf_errors(x, text));
    } else {
        let rest = v.subrange(1, v.len() as int);
        lemma_leaf_errors_list_push(rest, x, text);
        assert(w.subrange(1, w.len() as int) =~= rest.push(x));
        assert(w[0] == v[0]);
        assert(leaf_errors_list(w, text) == leaf_errors(v[0], text) + leaf_errors_list(rest.push(x), text));
        assert(leaf_errors_list(v, text) == leaf_errors(v[0], text) + leaf_errors_list(rest, text));
        assert(leaf_errors(v[0], text) + (leaf_errors_list(rest, text) + leaf_errors(x, text)) =~= (leaf_errors(v[0], text) + leaf_errors_list(rest, text)) + leaf_errors(x, text));
    }
}

impl<E> LanguageServerBackend<E> {
    /// Recursively collects spanned compiler errors into the store: an
    /// error with a span is recorded with the document range of its span, one
    /// without a span with the range of the whole file, and a group error by
    /// collecting each of its errors in turn.
    pub fn collect_compiler_errors(
        &mut self,
        compiler_error: CompilerErrorTree<E>,
        path: &str,
        file_content: &str,
    )
        requires
            old(self).wf(),
        ensures
            final(self).wf(),
            final(self)@ == with_errors(old(self)@, path@, leaf_errors(compiler_error, file_content@)),
        decreases compiler_error,
    {
        let ghost whole = compiler_error;
        match compiler_error {
            CompilerErrorTree::Multiple(mut errors) => {
                let ghost orig = errors@;
                let ghost start = self@;
                let ghost mut i: int = 0;
                assert(orig.take(0) =~= Seq::<CompilerErrorTree<E>>::empty());
                assert(start =~= with_errors(start, path@, leaf_errors_list(orig.take(0), file_content@)));
                while errors.len() > 0
                    invariant
                        self.wf(),
                        0 <= i <= orig.len(),
                        errors@ == orig.subrange(i, orig.len() as int),
                        whole == compiler_error,
                        decreases_to!(whole => orig),
                        self@ == with_errors(start, path@, leaf_errors_list(orig.take(i), file_content@)),
                    decreases errors@.len(),
                {
                    let err = errors.remove(0);
                    proof {
                        assert(err == orig[i]);
                        assert(decreases_to!(orig => orig[i]));
                        assert(decreases_to!(whole => err));
                    }
                    let ghost before = self@;
                    self.collect_compiler_errors(err, path, file_content);
                    proof {
                        lemma_with_errors_concat(start, path@, leaf_errors_list(orig.take(i), file_content@), leaf_errors(err, file_content@));
                        assert(orig.take(i + 1) =~= orig.take(i).push(orig[i]));
                        lemma_leaf_errors_list_push(orig.take(i), orig[i], file_content@);
                        i = i + 1;
                    }
                }
                proof {
                    assert(orig.take(i) =~= orig);
                }
            },
            CompilerErrorTree::Spanned(err, s, e) => {
                let range = Self::byte_range_to_range(s, e, file_content);
                self.push_compiler_error(path, SpannedCompilerError { range, error: err });
                proof {
                    let new = leaf_errors(whole, file_content@);
                    assert(errors_or_empty(old(self)@, path@).push(new[0]) =~= errors_or_empty(old(self)@, path@) + new);
                }
            },
            CompilerErrorTree::Other(err) => {
                let len = file_content.as_bytes().len();
                let range = Self::byte_range_to_range(0, len, file_content);
                self.push_compiler_error(path, SpannedCompilerError { range, error: err });
                proof {
                    let new = leaf_errors(whole, file_content@);
                    assert(errors_or_empty(old(self)@, path@).push(new[0]) =~= errors_or_empty(old(self)@, path@) + new);
                }
            },
        }
    }

    /// Records the outcome of compiling `content` for `path`: the errors of
    /// an earlier compilation are dropped, and when this one failed its
    /// errors are collected.
    pub fn update_file_contents(
        &mut self,
        path: &str,
        content: &str,
        outcome: Result<(), CompilerErrorTree<E>>,
    )
        requires
            old(self).wf(),
        ensures
            final(self).wf(),
            final(self)@ == match outcome {
                Ok(_) => old(self)@.remove(path@),
                Err(e) => with_errors(old(self)@.remove(path@), path@, leaf_errors(e, content@)),
            },
    {
        self.clear_compiler_errors(path);
        match outcome {
            Ok(_) => {},
            Err(e) => {
                self.collect_compiler_errors(e, path, content);
            },
        }
    }
}

/// Line `k + 1` starts right after the bytes of line `k` and its `'\n'`.
proof fn lemma_line_start_step(text: Seq<char>, k: int)
    requires
        0 <= k < split_at_char(text, '\n').len() - 1,
    ensures
        line_start_byte(text, k + 1) == line_start_byte(text, k) + byte_len(
            split_at_char(text, '\n')[k],
        ) + 1,
{
    let p = split_at_char(text, '\n');
    lemma_split_piece_at(text, '\n', k);
    lemma_split_piece_at(text, '\n', k + 1);
    lemma_pieces_len_mono(p, 0, k);
    let a = pieces_len(p, k);
    let e = a + p[k].len();
    assert(pieces_len(p, k + 1) == e + 1);
    lemma_byte_len_subrange(text, a, e);
    assert(text.take(e + 1) =~= text.take(e).push(text[e]));
    lemma_byte_len_push(text.take(e), text[e]);
    assert(text[e] == '\n');
    lemma_char_byte_len_bounds(text[e]);
}

/// The bytes before character `j` of line `k`: the line's start and the
/// bytes of the line's first `j` characters.
proof fn lemma_line_prefix(text: Seq<char>, k: int, j: int)
    requires
        0 <= k < split_at_char(text, '\n').len(),
        0 <= j <= split_at_char(text, '\n')[k].len(),
    ensures
        byte_len(text.take(pieces_len(split_at_char(text, '\n'), k) + j)) == line_start_byte(text, k)
            + byte_len(split_at_char(text, '\n')[k].take(j)),
        byte_len(split_at_char(text, '\n')[k].take(j)) <= byte_len(split_at_char(text, '\n')[k]),
{
    let p = split_at_char(text, '\n');
    lemma_split_piece_at(text, '\n', k);
    lemma_pieces_len_mono(p, 0, k);
    let a = pieces_len(p, k);
    lemma_byte_len_subrange(text, a, a + j);
    assert(p[k].take(j) =~= text.subrange(a, a + j));
    lemma_byte_len_subrange(p[k], j, p[k].len() as int);
    assert(p[k].take(p[k].len() as int) =~= p[k]);
}

proof fn lemma_line_start_mono(text: Seq<char>, a: int, b: int)
    requires
        0 <= a <= b < split_at_char(text, '\n').len(),
    ensures
        line_start_byte(text, a) <= line_start_byte(text, b),
    decreases b - a,
{
    if a < b {
        lemma_line_start_mono(text, a, b - 1);
        lemma_line_start_step(text, b - 1);
    }
}

/// The first boundary at or after the bytes of the first `j` characters is
/// character `j`.
proof fn lemma_first_char_exact(l: Seq<char>, i: int, j: int)
    requires
        0 <= i <= j <= l.len(),
    ensures
        first_char_at_or_after(l, byte_len(l.take(j)) as int, i) == j,
    decreases j - i,
{
    if i < j {
        lemma_byte_len_take_strict(l, i, j);
        lemma_first_char_exact(l, i + 1, j);
    }
}

/// Scanning from line `k`, an offset within the bytes of line `line` is
/// found on that line.
proof fn lemma_locate_line(text: Seq<char>, offset: int, k: int, line: int)
    requires
        0 <= k <= line < split_at_char(text, '\n').len(),
        line_start_byte(text, line) <= offset <= line_start_byte(text, line) + byte_len(
            split_at_char(text, '\n')[line],
        ),
    ensures
        locate_offset(text, offset, k) == Some(
            (
                line,
                first_char_at_or_after(
                    split_at_char(text, '\n')[line],
                    offset - line_start_byte(text, line),
                    0,
                ),
            ),
        ),
    decreases line - k,
{
    if k < line {
        lemma_line_start_step(text, k);
        lemma_line_start_mono(text, k + 1, line);
        lemma_locate_line(text, offset, k + 1, line);
    }
}

/// The line, from line `k` on, that holds character `m` of the text (or the
/// `'\n'` or end right after its characters).
proof fn lemma_find_line(text: Seq<char>, m: int, k: int) -> (r: int)
    requires
        0 <= k < split_at_char(text, '\n').len(),
        pieces_len(split_at_char(text, '\n'), k) <= m <= text.len(),
    ensures
        k <= r < split_at_char(text, '\n').len(),
        pieces_len(split_at_char(text, '\n'), r) <= m <= pieces_len(split_at_char(text, '\n'), r)
            + split_at_char(text, '\n')[r].len(),
    decreases split_at_char(text, '\n').len() - k,
{
    let p = split_at_char(text, '\n');
    if m <= pieces_len(p, k) + p[k].len() {
        k
    } else {
        if k == p.len() - 1 {
            lemma_split_total(text, '\n');
            assert(p.last() == p[k]);
        }
        lemma_find_line(text, m, k + 1)
    }
}

/// The offset of a character boundary lies on the line that holds the
/// character, at that character.
proof fn lemma_locate_boundary(text: Seq<char>, m: int) -> (r: int)
    requires
        0 <= m <= text.len(),
    ensures
        0 <= r < split_at_char(text, '\n').len(),
        pieces_len(split_at_char(text, '\n'), r) <= m <= pieces_len(split_at_char(text, '\n'), r)
            + split_at_char(text, '\n')[r].len(),
        locate_offset(text, byte_len(text.take(m)) as int, 0) == Some(
            (r, m - pieces_len(split_at_char(text, '\n'), r)),
        ),
{
    let p = split_at_char(text, '\n');
    lemma_split_nonempty(text, '\n');
    let r = lemma_find_line(text, m, 0);
    let j = m - pieces_len(p, r);
    lemma_line_prefix(text, r, j);
    let off = byte_len(text.take(m)) as int;
    lemma_locate_line(text, off, 0, r);
    lemma_first_char_exact(p[r], 0, j);
    r
}

/// Whether the characters of line `line` of `text` before character `ch`
/// all lie in the Basic Multilingual Plane, where a character is one UTF-16
/// code unit.
pub open spec fn line_prefix_in_bmp(text: Seq<char>, line: int, ch: int) -> bool {
    forall|i: int|
        0 <= i < ch && i < split_at_char(text, '\n')[line].len() ==> (#[trigger] split_at_char(
            text,
            '\n',
        )[line][i] as u32) < 0x10000
}

/// Whether the characters of its line before the position of `offset` all
/// lie in the Basic Multilingual Plane.
pub open spec fn offset_line_prefix_in_bmp(text: Seq<char>, offset: int) -> bool {
    match locate_offset(text, offset, 0) {
        Some(lc) => line_prefix_in_bmp(text, lc.0, lc.1),
        None => true,
    }
}

proof fn lemma_prefix_units(text: Seq<char>, line: int, ch: int)
    requires
        0 <= line < split_at_char(text, '\n').len(),
        0 <= ch <= split_at_char(text, '\n')[line].len(),
        line_prefix_in_bmp(text, line, ch),
    ensures
        utf16_len(split_at_char(text, '\n')[line].take(ch)) == ch,
{
    let l = split_at_char(text, '\n')[line];
    assert forall|i: int| 0 <= i < l.take(ch).len() implies (#[trigger] l.take(ch)[i] as u32) < 0x10000 by {
        assert(l.take(ch)[i] == l[i]);
    }
    lemma_utf16_len_bmp(l.take(ch));
}

/// Law: `byte_offset_to_position` undoes `line_char_to_byte_index`: the
/// byte index of a position in a text maps back to that position, where the
/// characters of its line before it are one UTF-16 code unit each (the
/// first counts characters, the second UTF-16 code units).
pub proof fn lemma_position_round_trip(text: Seq<char>, line: int, ch: int, offset: int)
    requires
        line_char_to_byte_index_spec(text, line, ch) == Some(offset),
        line_prefix_in_bmp(text, line, ch),
    ensures
        byte_offset_to_position_spec(text, offset) == Some(
            Position { line: line as u32, character: ch as u32 },
        ),
{
    let p = split_at_char(text, '\n');
    lemma_line_prefix(text, line, ch);
    lemma_locate_line(text, offset, 0, line);
    lemma_first_char_exact(p[line], 0, ch);
    lemma_prefix_units(text, line, ch);
}

/// The position of a character boundary, as `locate_offset` finds it, fits
/// a `Position` and reads back as the offset.
proof fn lemma_boundary_position(text: Seq<char>, offset: int) -> (r: (int, int))
    requires
        is_char_boundary_of(text, offset),
        byte_len(text) <= u32::MAX,
    ensures
        locate_offset(text, offset, 0) == Some(r),
        0 <= r.0 <= u32::MAX,
        0 <= r.1 <= u32::MAX,
        r.1 <= split_at_char(text, '\n')[r.0].len(),
        line_char_to_byte_index_spec(text, r.0, r.1) == Some(offset),
        pieces_len(split_at_char(text, '\n'), r.0) + r.1 == choose|m: int|
            0 <= m <= text.len() && byte_len(text.take(m)) == offset,
{
    let p = split_at_char(text, '\n');
    let m = choose|m: int| 0 <= m <= text.len() && byte_len(text.take(m)) == offset;
    let r = lemma_locate_boundary(text, m);
    lemma_byte_len_ge_len(text);
    lemma_pieces_len_mono(p, 0, r);
    let j = m - pieces_len(p, r);
    assert(pieces_len(p, r) + j == m);
    (r, j)
}

/// Law: `line_char_to_byte_index` undoes `byte_offset_to_position`: every
/// offset of a character boundary of a text (from 0 to its length) maps to
/// a position whose byte index is that offset, where the characters of its
/// line before it are one UTF-16 code unit each, for a text whose positions
/// fit the `u32` fields of a `Position`.
pub proof fn lemma_offset_round_trip(text: Seq<char>, offset: int)
    requires
        is_char_boundary_of(text, offset),
        offset_line_prefix_in_bmp(text, offset),
        byte_len(text) <= u32::MAX,
    ensures
        byte_offset_to_position_spec(text, offset) matches Some(pos)
            && line_char_to_byte_index_spec(text, pos.line as int, pos.character as int) == Some(
            offset,
        ),
{
    let r = lemma_boundary_position(text, offset);
    lemma_prefix_units(text, r.0, r.1);
}

/// Whether position `a` comes no later than position `b` in a document.
pub open spec fn position_le(a: Position, b: Position) -> bool {
    a.line < b.line || (a.line == b.line && a.character <= b.character)
}

/// Law: a byte range between two character boundaries of a text becomes a
/// document range whose ends map back to the range's ends, its start no
/// later than its end, where the characters of each end's line before it
/// are one UTF-16 code unit each, for a text whose positions fit the `u32`
/// fields of a `Position`.
pub proof fn lemma_range_round_trip(text: Seq<char>, start: int, end: int)
    requires
        is_char_boundary_of(text, start),
        is_char_boundary_of(text, end),
        offset_line_prefix_in_bmp(text, start),
        offset_line_prefix_in_bmp(text, end),
        start <= end,
        byte_len(text) <= u32::MAX,
    ensures
        line_char_to_byte_index_spec(
            text,
            document_range_spec(start, end, text).start.line as int,
            document_range_spec(start, end, text).start.character as int,
        ) == Some(start),
        line_char_to_byte_index_spec(
            text,
            document_range_spec(start, end, text).end.line as int,
            document_range_spec(start, end, text).end.character as int,
        ) == Some(end),
        position_le(document_range_spec(start, end, text).start, document_range_spec(start, end, text).end),
{
    let p = split_at_char(text, '\n');
    let rs = lemma_boundary_position(text, start);
    let re = lemma_boundary_position(text, end);
    lemma_prefix_units(text, rs.0, rs.1);
    lemma_prefix_units(text, re.0, re.1);
    let ms = choose|m: int| 0 <= m <= text.len() && byte_len(text.take(m)) == start;
    let me = choose|m: int| 0 <= m <= text.len() && byte_len(text.take(m)) == end;
    if ms > me {
        lemma_byte_len_take_strict(text, me, ms);
    }
    if rs.0 > re.0 {
        lemma_pieces_len_mono(p, re.0 + 1, rs.0);
    }
}

/// Law: an error without a span is recorded with the range of the whole
/// file: from line 0, character 0 to the end of the last line, after every
/// byte of the file (the number of lines less one, and the UTF-16 length of
/// the last line).
pub proof fn lemma_unspanned_error_range<E>(e: E, text: Seq<char>)
    ensures
        leaf_errors(CompilerErrorTree::Other(e), text).len() == 1,
        leaf_errors(CompilerErrorTree::Other(e), text)[0].error == e,
        leaf_errors(CompilerErrorTree::Other(e), text)[0].range == (Range {
            start: Position { line: 0, character: 0 },
            end: Position {
                line: (split_at_char(text, '\n').len() - 1) as u32,
                character: utf16_len(split_at_char(text, '\n').last()) as u32,
            },
        }),
{
    let p = split_at_char(text, '\n');
    lemma_split_nonempty(text, '\n');
    lemma_split_total(text, '\n');
    let n = p.len() as int;
    assert(text.take(0) =~= Seq::<char>::empty());
    let r0 = lemma_locate_boundary(text, 0);
    lemma_pieces_len_mono(p, 0, r0);
    assert(r0 == 0);
    assert(p[0].take(0) =~= Seq::<char>::empty());
    assert(byte_len(text.take(0)) == 0);
    assert(text.take(text.len() as int) =~= text);
    let r = lemma_locate_boundary(text, text.len() as int);
    if r < n - 1 {
        lemma_pieces_len_mono(p, r + 1, n - 1);
        assert(p.last() == p[n - 1]);
    }
    assert(r == n - 1);
    assert(p.last() == p[n - 1]);
    assert(p[n - 1].take(p[n - 1].len() as int) =~= p[n - 1]);
}

/// The byte offset of a position is always a character boundary.
proof fn lemma_position_offset_boundary(text: Seq<char>, line: int, ch: int)
    ensures
        is_char_boundary_of(text, position_offset_spec(text, line, ch)),
{
    let p = split_at_char(text, '\n');
    match line_char_to_byte_index_spec(text, line, ch) {
        Some(b) => {
            lemma_split_piece_at(text, '\n', line);
            lemma_pieces_len_mono(p, 0, line);
            let m = pieces_len(p, line) + ch;
            assert(0 <= m <= text.len() && byte_len(text.take(m)) == b);
        },
        None => {
            assert(text.take(0) =~= Seq::<char>::empty());
            assert(byte_len(text.take(0)) == 0);
        },
    }
}

/// The character count of the prefix of `text` that holds `b` bytes.
pub open spec fn char_index_of_byte(text: Seq<char>, b: int) -> int {
    choose|m: int| 0 <= m <= text.len() && byte_len(text.take(m)) == b
}

/// The byte offset that `position_to_byte_offset` gives for a position.
pub open spec fn position_offset_spec(text: Seq<char>, line: int, ch: int) -> int {
    match line_char_to_byte_index_spec(text, line, ch) {
        Some(b) => b,
        None => 0,
    }
}

/// The word that ends right before byte `b` of `text`.
pub open spec fn previous_word_spec(text: Seq<char>, b: int) -> Seq<char> {
    trailing_word(text.take(char_index_of_byte(text, b)))
}

proof fn lemma_byte_len_take_strict(s: Seq<char>, a: int, b: int)
    requires
        0 <= a < b <= s.len(),
    ensures
        byte_len(s.take(a)) < byte_len(s.take(b)),
{
    lemma_byte_len_subrange(s, a, b);
    lemma_byte_len_ge_len(s.subrange(a, b));
}

/// A variable known to the compiler workspace, as completion and hover
/// show it.
pub struct VariableInfo {
    pub name: String,
    pub shape: String,
    pub var_type: Option<String>,
}

impl VariableInfo {
    /// A copy of this variable.
    pub fn duplicate(&self) -> (r: VariableInfo)
        ensures
            r == *self,
    {
        VariableInfo {
            name: self.name.clone(),
            shape: self.shape.clone(),
            var_type: match &self.var_type {
                Some(t) => Some(t.clone()),
                None => None,
            },
        }
    }
}

/// Whether `prefix` is a prefix of `s`.
pub open spec fn has_prefix(s: Seq<char>, prefix: Seq<char>) -> bool {
    prefix.len() <= s.len() && s.take(prefix.len() as int) == prefix
}

/// Law: a text starts with a prefix exactly when the prefix is no longer
/// than the text and each character of the prefix is the character of the
/// text at the same place; so every text starts with itself and with the
/// empty text, and never with a longer one.
pub proof fn lemma_has_prefix(s: Seq<char>, prefix: Seq<char>)
    ensures
        has_prefix(s, prefix) <==> (prefix.len() <= s.len() && forall|i: int|
            0 <= i < prefix.len() ==> s[i] == prefix[i]),
        has_prefix(s, s),
        has_prefix(s, Seq::<char>::empty()),
        prefix.len() > s.len() ==> !has_prefix(s, prefix),
{
    if prefix.len() <= s.len() && forall|i: int| 0 <= i < prefix.len() ==> s[i] == prefix[i] {
        assert(s.take(prefix.len() as int) =~= prefix);
    }
    if has_prefix(s, prefix) {
        assert forall|i: int| 0 <= i < prefix.len() implies s[i] == prefix[i] by {
            assert(s.take(prefix.len() as int)[i] == s[i]);
        }
    }
    assert(s.take(s.len() as int) =~= s);
    assert(s.take(0) =~= Seq::<char>::empty());
}

/// `str::starts_with` with a string pattern.
pub fn starts_with(s: &str, prefix: &str) -> (r: bool)
    ensures
        r == has_prefix(s@, prefix@),
{
    let a = chars_of(s);
    let b = chars_of(prefix);
    if b.len() > a.len() {
        return false;
    }
    let mut i: usize = 0;
    while i < b.len()
        invariant
            a@ == s@,
            b@ == prefix@,
            b@.len() <= a@.len(),
            i <= b@.len(),
            forall|j: int| 0 <= j < i ==> a@[j] == b@[j],
        decreases b@.len() - i,
    {
        if a[i] != b[i] {
            proof {
                assert(s@.take(prefix@.len() as int)[i as int] == a@[i as int]);
            }
            return false;
        }
        i = i + 1;
    }
    assert(s@.take(prefix@.len() as int) =~= prefix@);
    true
}

/// The variables of `files`, file by file, whose names start with `prefix`.
pub open spec fn variables_with_prefix(files: Seq<Seq<VariableInfo>>, prefix: Seq<char>) -> Seq<
    VariableInfo,
>
    decreases files.len(),
{
    if files.len() == 0 {
        Seq::empty()
    } else {
        variables_with_prefix(files.drop_last(), prefix) + files.last().filter(
            |v: VariableInfo| has_prefix(v.name@, prefix),
        )
    }
}

/// The variable with index `id` in the first file, from file `k` on, that
/// has that many variables.
pub open spec fn variable_by_id_from(files: Seq<Seq<VariableInfo>>, id: int, k: int) -> Option<
    VariableInfo,
>
    decreases files.len() - k,
{
    if k < 0 || k >= files.len() {
        None
    } else if id < files[k].len() {
        Some(files[k][id])
    } else {
        variable_by_id_from(files, id, k + 1)
    }
}

/// The variables of each file, as plain values.
pub open spec fn files_view(files: Seq<Vec<VariableInfo>>) -> Seq<Seq<VariableInfo>> {
    files.map_values(|f: Vec<VariableInfo>| f@)
}

impl<E> LanguageServerBackend<E> {
    /// Retrieves the text immediately preceding the given position in the
    /// document: the letters, digits and underscores that end the text before
    /// the position. This is used for autocompletion suggestions.
    pub fn get_previous_text_at_position(&self, file_content: &str, line: u32, character: u32) -> (r: String)
        ensures
            r@ == previous_word_spec(
                file_content@,
                position_offset_spec(file_content@, line as int, character as int),
            ),
    {
        proof {
            lemma_position_offset_boundary(file_content@, line as int, character as int);
        }
        let byte_offset = self.position_to_byte_offset(file_content, line, character);
        let cs = chars_of(file_content);
        let offs = byte_offsets(&cs);
        let ghost b = byte_offset as int;
        let mut m: usize = 0;
        while m < cs.len() && offs[m] != byte_offset
            invariant
                m <= cs@.len(),
                offs@.len() == cs@.len() + 1,
                forall|i: int| 0 <= i <= cs@.len() ==> #[trigger] offs@[i] == byte_len(cs@.take(i)),
                forall|i: int| 0 <= i < m ==> byte_len(cs@.take(i)) != b,
                b == byte_offset as int,
            decreases cs@.len() - m,
        {
            m = m + 1;
        }
        proof {
            let w = choose|w: int| 0 <= w <= cs@.len() && byte_len(cs@.take(w)) == b;
            if m < w {
                lemma_byte_len_take_strict(cs@, m as int, w);
            }
            if w < m {
                assert(byte_len(cs@.take(w)) != b);
            }
            assert(w == m);
            assert(char_index_of_byte(file_content@, b) == m);
        }
        let mut j: usize = m;
        while j > 0 && (char_is_alphanumeric(cs[j - 1]) || cs[j - 1] == '_')
            invariant
                j <= m <= cs@.len(),
                trailing_word(cs@.take(m as int)) == trailing_word(cs@.take(j as int)) + cs@.subrange(j as int, m as int),
            decreases j,
        {
            proof {
                let t = cs@.take(j as int);
                assert(t.drop_last() =~= cs@.take(j - 1));
                assert(t.last() == cs@[j - 1]);
                assert(cs@.subrange(j - 1, m as int) =~= seq![cs@[j - 1]] + cs@.subrange(j as int, m as int));
                assert(trailing_word(cs@.take(j - 1)).push(cs@[j - 1]) + cs@.subrange(j as int, m as int)
                    =~= trailing_word(cs@.take(j - 1)) + cs@.subrange(j - 1, m as int));
            }
            j = j - 1;
        }
        proof {
            if j > 0 {
                let t = cs@.take(j as int);
                assert(t.last() == cs@[j - 1]);
            } else {
                assert(cs@.take(0) =~= Seq::<char>::empty());
            }
            assert(trailing_word(cs@.take(j as int)) =~= Seq::<char>::empty());
            assert(Seq::<char>::empty() + cs@.subrange(j as int, m as int) =~= cs@.subrange(j as int, m as int));
        }
        string_of_range(&cs, j, m)
    }

    /// Finds all variables in the workspace whose names start with the given
    /// prefix; `files` holds the variables of each file of the workspace.
    pub fn find_variable_starting_with(&self, files: &Vec<Vec<VariableInfo>>, prefix: &str) -> (r: Vec<VariableInfo>)
        ensures
            r@ == variables_with_prefix(files_view(files@), prefix@),
    {
        let mut results: Vec<VariableInfo> = Vec::new();
        let mut f: usize = 0;
        while f < files.len()
            invariant
                f <= files@.len(),
                results@ == variables_with_prefix(files_view(files@.take(f as int)), prefix@),
            decreases files@.len() - f,
        {
            let vars = &files[f];
            let ghost base = results@;
            let mut i: usize = 0;
            while i < vars.len()
                invariant
                    vars == files@[f as int],
                    i <= vars@.len(),
                    results@ == base + vars@.take(i as int).filter(|v: VariableInfo| has_prefix(v.name@, prefix@)),
                decreases vars@.len() - i,
            {
                let keep = starts_with(vars[i].name.as_str(), prefix);
                proof {
                    let pred = |v: VariableInfo| has_prefix(v.name@, prefix@);
                    assert(vars@.take(i + 1) =~= vars@.take(i as int).push(vars@[i as int]));
                    vars@.take(i as int).lemma_filter_push(vars@[i as int], pred);
                }
                if keep {
                    results.push(vars[i].duplicate());
                    proof {
                        let pred = |v: VariableInfo| has_prefix(v.name@, prefix@);
                        assert(base + vars@.take(i as int).filter(pred).push(vars@[i as int]) =~= (base + vars@.take(i as int).filter(pred)).push(vars@[i as int]));
                    }
                }
                i = i + 1;
            }
            proof {
                let v2 = files_view(files@.take(f + 1));
                assert(v2.drop_last() =~= files_view(files@.take(f as int)));
                assert(v2.last() == vars@);
                assert(vars@.take(vars@.len() as int) =~= vars@);
            }
            f = f + 1;
        }
        assert(files@.take(files@.len() as int) =~= files@);
        results
    }

    /// Retrieves variable metadata by its index: the variable with that index
    /// in the first file that has one.
    pub fn get_variable_by_id(&self, files: &Vec<Vec<VariableInfo>>, id: usize) -> (r: Option<VariableInfo>)
        ensures
            r == variable_by_id_from(files_view(files@), id as int, 0),
    {
        let mut f: usize = 0;
        while f < files.len()
            invariant
                f <= files@.len(),
                variable_by_id_from(files_view(files@), id as int, 0) == variable_by_id_from(files_view(files@), id as int, f as int),
            decreases files@.len() - f,
        {
            if id < files[f].len() {
                return Some(files[f][id].duplicate());
            }
            f = f + 1;
        }
        None
    }
}

/// How completion and hover describe a variable: its shape, its name, a
/// colon and its type.
pub fn describe_variable(shape: &str, name: &str, var_type: &str) -> (r: String)
    ensures
        r@ == shape@ + seq![' '] + name@ + seq![':', ' '] + var_type@,
{
    let mut r = String::from_str(shape);
    crate::text::push_char(&mut r, ' ');
    crate::text::push_str(&mut r, name);
    crate::text::push_char(&mut r, ':');
    crate::text::push_char(&mut r, ' ');
    crate::text::push_str(&mut r, var_type);
    r
}

/// A completion suggestion: the variable's name, and its description.
pub struct CompletionEntry {
    pub label: String,
    pub detail: String,
}

/// The description of a variable whose type is known.
pub open spec fn variable_detail_spec(v: VariableInfo) -> Seq<char> {
    v.shape@ + seq![' '] + v.name@ + seq![':', ' '] + v.var_type->0@
}

impl<E> LanguageServerBackend<E> {
    /// The completion suggestions for `prefix`: every variable of the
    /// workspace whose name starts with it, labelled with its name and
    /// described by its shape, name and type. Every such variable has a type.
    pub fn completion_items(&self, files: &Vec<Vec<VariableInfo>>, prefix: &str) -> (r: Vec<
        CompletionEntry,
    >)
        requires
            forall|i: int|
                0 <= i < variables_with_prefix(files_view(files@), prefix@).len()
                    ==> (#[trigger] variables_with_prefix(files_view(files@), prefix@)[i]).var_type is Some,
        ensures
            r@.len() == variables_with_prefix(files_view(files@), prefix@).len(),
            forall|i: int|
                0 <= i < r@.len() ==> #[trigger] r@[i].label@ == variables_with_prefix(
                    files_view(files@),
                    prefix@,
                )[i].name@ && r@[i].detail@ == variable_detail_spec(
                    variables_with_prefix(files_view(files@), prefix@)[i],
                ),
    {
        let vars = self.find_variable_starting_with(files, prefix);
        let ghost vs = variables_with_prefix(files_view(files@), prefix@);
        let mut r: Vec<CompletionEntry> = Vec::new();
        let mut i: usize = 0;
        while i < vars.len()
            invariant
                vars@ == vs,
                forall|j: int| 0 <= j < vs.len() ==> (#[trigger] vs[j]).var_type is Some,
                i <= vars@.len(),
                r@.len() == i,
                forall|j: int|
                    0 <= j < i ==> #[trigger] r@[j].label@ == vs[j].name@ && r@[j].detail@
                        == variable_detail_spec(vs[j]),
            decreases vars@.len() - i,
        {
            let v = &vars[i];
            assert(vs[i as int].var_type is Some);
            let ty = match &v.var_type {
                Some(t) => t.as_str(),
                None => "",
            };
            let detail = describe_variable(v.shape.as_str(), v.name.as_str(), ty);
            r.push(CompletionEntry { label: v.name.clone(), detail });
            i = i + 1;
        }
        r
    }

    /// The hover text of a variable named `name` with index `id`: its shape,
    /// the name, and its type. The variable exists and its type is known.
    pub fn hover_text(&self, files: &Vec<Vec<VariableInfo>>, id: usize, name: &str) -> (r: String)
        requires
            variable_by_id_from(files_view(files@), id as int, 0) is Some,
            variable_by_id_from(files_view(files@), id as int, 0)->0.var_type is Some,
        ensures
            r@ == variable_by_id_from(files_view(files@), id as int, 0)->0.shape@ + seq![' '] + name@
                + seq![':', ' '] + variable_by_id_from(files_view(files@), id as int, 0)->0.var_type->0@,
    {
        let v = self.get_variable_by_id(files, id);
        match v {
            Some(v) => {
                let ty = match &v.var_type {
                    Some(t) => t.as_str(),
                    None => "",
                };
                describe_variable(v.shape.as_str(), name, ty)
            },
            None => String::new(),
        }
    }
}

/// The errors recorded under `path`, or none.
pub open spec fn errors_or_empty<E>(m: Map<Seq<char>, Seq<SpannedCompilerError<E>>>, path: Seq<char>) -> Seq<SpannedCompilerError<E>> {
    if m.dom().contains(path) {
        m[path]
    } else {
        Seq::empty()
    }
}

} // verus!
