//! Text model shared by the library: UTF-8 byte lengths of character
//! sequences, splitting at a separator character, the line view of a text,
//! and small exec helpers that move between `&str`, `String` and `Vec<char>`.
use vstd::prelude::*;
use vstd::string::*;
use vstd::utf8::*;

verus! {

/// Number of bytes in the UTF-8 encoding of `c`.
pub open spec fn char_byte_len(c: char) -> nat {
    encode_scalar(c as u32).len()
}

/// Number of bytes in the UTF-8 encoding of `cs` (what `str::len` returns).
pub open spec fn byte_len(cs: Seq<char>) -> nat {
    encode_utf8(cs).len()
}

pub proof fn lemma_char_byte_len_bounds(c: char)
    ensures
        1 <= char_byte_len(c) <= 4,
        (c as u32) < 0x80 ==> char_byte_len(c) == 1,
        (c as u32) >= 0x10000 ==> char_byte_len(c) == 4,
{
    char_is_scalar(c);
}

pub proof fn lemma_encode_utf8_concat(a: Seq<char>, b: Seq<char>)
    ensures
        encode_utf8(a + b) =~= encode_utf8(a) + encode_utf8(b),
    decreases a.len(),
{
    if a.len() == 0 {
        assert(a + b =~= b);
    } else {
        lemma_encode_utf8_concat(a.drop_first(), b);
        assert((a + b).drop_first() =~= a.drop_first() + b);
        assert((a + b)[0] == a[0]);
    }
}

pub proof fn lemma_byte_len_concat(a: Seq<char>, b: Seq<char>)
    ensures
        byte_len(a + b) == byte_len(a) + byte_len(b),
{
    lemma_encode_utf8_concat(a, b);
}

pub proof fn lemma_byte_len_single(c: char)
    ensures
        byte_len(seq![c]) == char_byte_len(c),
{
    assert(seq![c].drop_first() =~= Seq::<char>::empty());
    assert(encode_utf8(Seq::<char>::empty()) =~= Seq::<u8>::empty());
    assert(encode_utf8(seq![c]) =~= encode_scalar(c as u32) + encode_utf8(
        Seq::<char>::empty(),
    ));
}

pub proof fn lemma_byte_len_push(a: Seq<char>, c: char)
    ensures
        byte_len(a.push(c)) == byte_len(a) + char_byte_len(c),
{
    assert(a.push(c) =~= a + seq![c]);
    lemma_byte_len_concat(a, seq![c]);
    lemma_byte_len_single(c);
}

/// Bytes of a range of a character sequence are the difference of the
/// bytes of its two prefixes.
pub proof fn lemma_byte_len_subrange(s: Seq<char>, a: int, b: int)
    requires
        0 <= a <= b <= s.len(),
    ensures
        byte_len(s.take(b)) == byte_len(s.take(a)) + byte_len(s.subrange(a, b)),
{
    assert(s.take(b) =~= s.take(a) + s.subrange(a, b));
    lemma_byte_len_concat(s.take(a), s.subrange(a, b));
}

pub proof fn lemma_byte_len_ge_len(s: Seq<char>)
    ensures
        byte_len(s) >= s.len(),
    decreases s.len(),
{
    if s.len() > 0 {
        lemma_byte_len_ge_len(s.drop_last());
        assert(s =~= s.drop_last().push(s.last()));
        lemma_byte_len_push(s.drop_last(), s.last());
        lemma_char_byte_len_bounds(s.last());
    }
}

/// A text made only of ASCII characters has one byte per character.
pub open spec fn all_ascii(s: Seq<char>) -> bool {
    forall|i: int| 0 <= i < s.len() ==> (#[trigger] s[i] as u32) < 0x80
}

pub proof fn lemma_byte_len_ascii(s: Seq<char>)
    requires
        all_ascii(s),
    ensures
        byte_len(s) == s.len(),
    decreases s.len(),
{
    if s.len() > 0 {
        let p = s.drop_last();
        assert(all_ascii(p)) by {
            assert forall|i: int| 0 <= i < p.len() implies (#[trigger] p[i] as u32) < 0x80 by {
                assert(p[i] == s[i]);
            }
        }
        lemma_byte_len_ascii(p);
        assert(s =~= p.push(s.last()));
        lemma_byte_len_push(p, s.last());
        assert((s[s.len() - 1] as u32) < 0x80);
        lemma_char_byte_len_bounds(s.last());
    }
}

/// Number of UTF-16 code units of `c`: two outside the Basic Multilingual
/// Plane, else one.
pub open spec fn char_utf16_len(c: char) -> nat {
    if (c as u32) >= 0x10000 {
        2
    } else {
        1
    }
}

/// Number of UTF-16 code units of `cs`.
pub open spec fn utf16_len(cs: Seq<char>) -> nat
    decreases cs.len(),
{
    if cs.len() == 0 {
        0
    } else {
        utf16_len(cs.drop_last()) + char_utf16_len(cs.last())
    }
}

/// A text has no more UTF-16 code units than UTF-8 bytes.
pub proof fn lemma_utf16_len_le_byte_len(cs: Seq<char>)
    ensures
        utf16_len(cs) <= byte_len(cs),
    decreases cs.len(),
{
    if cs.len() > 0 {
        lemma_utf16_len_le_byte_len(cs.drop_last());
        assert(cs =~= cs.drop_last().push(cs.last()));
        lemma_byte_len_push(cs.drop_last(), cs.last());
        lemma_char_byte_len_bounds(cs.last());
    }
}

/// Within the Basic Multilingual Plane, UTF-16 code units are characters.
pub proof fn lemma_utf16_len_bmp(cs: Seq<char>)
    requires
        forall|i: int| 0 <= i < cs.len() ==> (#[trigger] cs[i] as u32) < 0x10000,
    ensures
        utf16_len(cs) == cs.len(),
    decreases cs.len(),
{
    if cs.len() > 0 {
        let d = cs.drop_last();
        assert forall|i: int| 0 <= i < d.len() implies (#[trigger] d[i] as u32) < 0x10000 by {
            assert(d[i] == cs[i]);
        }
        lemma_utf16_len_bmp(d);
        assert((cs[cs.len() - 1] as u32) < 0x10000);
    }
}

/// Width in bytes of the UTF-8 encoding of `c` (`char::len_utf8`).
pub fn utf8_width(c: char) -> (n: usize)
    ensures
        n == char_byte_len(c),
        1 <= n <= 4,
{
    let u = c as u32;
    proof {
        char_is_scalar(c);
    }
    if u < 0x80 {
        1
    } else if u < 0x800 {
        2
    } else if u < 0x10000 {
        3
    } else {
        4
    }
}

/// The characters of `text`, in order.
pub fn chars_of(text: &str) -> (v: Vec<char>)
    ensures
        v@ == text@,
        byte_len(text@) <= usize::MAX,
{
    let bytes = text.as_bytes();
    let ghost n = bytes.len();
    assert(bytes@.len() == byte_len(text@));
    let mut v: Vec<char> = Vec::new();
    for c in it: text.chars()
        invariant
            it.seq() == text@,
            v@ == it.seq().take(it.index() as int),
    {
        v.push(c);
        assert(it.seq().take(it.index() + 1) =~= it.seq().take(it.index() as int).push(c));
    }
    assert(v@ =~= text@);
    v
}

/// `offs[i]` is the number of bytes of the first `i` characters of `cs`.
pub fn byte_offsets(cs: &Vec<char>) -> (offs: Vec<usize>)
    requires
        byte_len(cs@) <= usize::MAX,
    ensures
        offs@.len() == cs@.len() + 1,
        forall|i: int| 0 <= i <= cs@.len() ==> #[trigger] offs@[i] == byte_len(cs@.take(i)),
{
    let mut offs: Vec<usize> = Vec::new();
    offs.push(0);
    let mut acc: usize = 0;
    let mut i: usize = 0;
    assert(cs@.take(0) =~= Seq::<char>::empty());
    while i < cs.len()
        invariant
            byte_len(cs@) <= usize::MAX,
            i <= cs@.len(),
            offs@.len() == i + 1,
            acc == byte_len(cs@.take(i as int)),
            forall|j: int| 0 <= j <= i ==> #[trigger] offs@[j] == byte_len(cs@.take(j)),
        decreases cs@.len() - i,
    {
        let w = utf8_width(cs[i]);
        proof {
            assert(cs@.take(i + 1) =~= cs@.take(i as int).push(cs@[i as int]));
            lemma_byte_len_push(cs@.take(i as int), cs@[i as int]);
            lemma_byte_len_subrange(cs@, i + 1, cs@.len() as int);
            assert(cs@.take(cs@.len() as int) =~= cs@);
        }
        acc = acc + w;
        offs.push(acc);
        i = i + 1;
    }
    offs
}

/// Splitting a sequence at every occurrence of `sep` (`str::split` with a
/// character pattern): always at least one piece; `n` separators give
/// `n + 1` pieces, the separators themselves are dropped.
pub open spec fn split_at_char(s: Seq<char>, sep: char) -> Seq<Seq<char>>
    decreases s.len(),
{
    if s.len() == 0 {
        seq![Seq::<char>::empty()]
    } else {
        let p = split_at_char(s.drop_last(), sep);
        if s.last() == sep {
            p.push(Seq::<char>::empty())
        } else {
            p.update(p.len() - 1, p.last().push(s.last()))
        }
    }
}

pub proof fn lemma_split_nonempty(s: Seq<char>, sep: char)
    ensures
        split_at_char(s, sep).len() >= 1,
    decreases s.len(),
{
    if s.len() > 0 {
        lemma_split_nonempty(s.drop_last(), sep);
    }
}

/// Piece boundaries of `split_at_char(s, sep)`: piece `k` is
/// `s[r[k].0 .. r[k].1]`, consecutive pieces are separated by exactly one `sep`.
pub open spec fn split_ranges_ok(s: Seq<char>, sep: char, r: Seq<(usize, usize)>) -> bool {
    &&& r.len() == split_at_char(s, sep).len()
    &&& r.len() >= 1
    &&& r[0].0 == 0
    &&& r[r.len() - 1].1 == s.len()
    &&& forall|k: int| 0 <= k < r.len() ==> #[trigger] r[k].0 <= r[k].1 <= s.len()
    &&& forall|k: int|
        0 <= k < r.len() - 1 ==> #[trigger] r[k + 1].0 == r[k].1 + 1 && s[r[k].1 as int] == sep
    &&& forall|k: int, j: int|
        #![trigger s[j], r[k]]
        0 <= k < r.len() && r[k].0 <= j < r[k].1 ==> s[j] != sep
    &&& forall|k: int|
        0 <= k < r.len() ==> #[trigger] split_at_char(s, sep)[k] == s.subrange(
            r[k].0 as int,
            r[k].1 as int,
        )
}

/// Computes the boundaries of the pieces of `cs` split at `sep`.
pub fn split_ranges(cs: &Vec<char>, sep: char) -> (r: Vec<(usize, usize)>)
    ensures
        split_ranges_ok(cs@, sep, r@),
{
    let mut r: Vec<(usize, usize)> = Vec::new();
    let mut start: usize = 0;
    let mut i: usize = 0;
    assert(cs@.take(0) =~= Seq::<char>::empty());
    while i < cs.len()
        invariant
            i <= cs@.len(),
            start <= i,
            r@.len() + 1 == split_at_char(cs@.take(i as int), sep).len(),
            r@.len() == 0 ==> start == 0,
            r@.len() > 0 ==> start == r@[r@.len() - 1].1 + 1,
            r@.len() > 0 ==> r@[0].0 == 0,
            forall|k: int| 0 <= k < r@.len() ==> #[trigger] r@[k].0 <= r@[k].1 < i,
            forall|k: int|
                0 <= k < r@.len() - 1 ==> #[trigger] r@[k + 1].0 == r@[k].1 + 1,
            forall|k: int| 0 <= k < r@.len() ==> cs@[(#[trigger] r@[k]).1 as int] == sep,
            forall|k: int, j: int|
                #![trigger cs@[j], r@[k]]
                0 <= k < r@.len() && r@[k].0 <= j < r@[k].1 ==> cs@[j] != sep,
            forall|j: int| start <= j < i ==> #[trigger] cs@[j] != sep,
            forall|k: int|
                0 <= k < r@.len() ==> #[trigger] split_at_char(cs@.take(i as int), sep)[k]
                    == cs@.subrange(r@[k].0 as int, r@[k].1 as int),
            split_at_char(cs@.take(i as int), sep)[r@.len() as int] == cs@.subrange(
                start as int,
                i as int,
            ),
        decreases cs@.len() - i,
    {
        let ghost old_r = r@;
        let ghost p = split_at_char(cs@.take(i as int), sep);
        let ghost t = cs@.take(i + 1);
        proof {
            assert(t.drop_last() =~= cs@.take(i as int));
            assert(t.last() == cs@[i as int]);
        }
        if cs[i] == sep {
            r.push((start, i));
            start = i + 1;
            proof {
                let q = split_at_char(t, sep);
                assert(q == p.push(Seq::<char>::empty()));
                assert forall|k: int| 0 <= k < r@.len() implies #[trigger] q[k] == cs@.subrange(
                    r@[k].0 as int,
                    r@[k].1 as int,
                ) by {
                    if k < old_r.len() {
                        assert(r@[k] == old_r[k]);
                    }
                }
                assert(q[r@.len() as int] =~= cs@.subrange(start as int, i + 1));
                assert forall|k: int, j: int|
                    #![trigger cs@[j], r@[k]]
                    0 <= k < r@.len() && r@[k].0 <= j < r@[k].1 implies cs@[j] != sep by {
                    if k < old_r.len() {
                        assert(r@[k] == old_r[k]);
                    }
                }
            }
        } else {
            proof {
                let q = split_at_char(t, sep);
                assert(q == p.update(p.len() - 1, p.last().push(cs@[i as int])));
                assert(p.last() == p[r@.len() as int]);
                assert(cs@.subrange(start as int, i + 1) =~= cs@.subrange(
                    start as int,
                    i as int,
                ).push(cs@[i as int]));
            }
        }
        i = i + 1;
    }
    r.push((start, i));
    proof {
        assert(cs@.take(cs@.len() as int) =~= cs@);
    }
    r
}

/// Characters of the first `k` pieces, with one separator after each.
pub open spec fn pieces_len(p: Seq<Seq<char>>, k: int) -> int
    decreases k,
{
    if k <= 0 {
        0
    } else {
        pieces_len(p, k - 1) + p[k - 1].len() + 1
    }
}

pub proof fn lemma_pieces_len_congruent(p: Seq<Seq<char>>, q: Seq<Seq<char>>, k: int)
    requires
        forall|i: int| 0 <= i < k ==> p[i] == q[i],
    ensures
        pieces_len(p, k) == pieces_len(q, k),
    decreases k,
{
    if k > 0 {
        lemma_pieces_len_congruent(p, q, k - 1);
    }
}

/// The pieces of a split, with the separators between them, make up the
/// whole sequence.
pub proof fn lemma_split_total(s: Seq<char>, sep: char)
    ensures
        pieces_len(split_at_char(s, sep), split_at_char(s, sep).len() - 1) + split_at_char(
            s,
            sep,
        ).last().len() == s.len(),
    decreases s.len(),
{
    lemma_split_nonempty(s, sep);
    if s.len() > 0 {
        let d = s.drop_last();
        lemma_split_total(d, sep);
        lemma_split_nonempty(d, sep);
        let p = split_at_char(d, sep);
        let q = split_at_char(s, sep);
        let n = p.len();
        lemma_pieces_len_congruent(p, q, n - 1);
        if s.last() == sep {
            assert(pieces_len(q, n as int) == pieces_len(q, n - 1) + q[n - 1].len() + 1);
            assert(q[n - 1] == p[n - 1]);
        }
    }
}

/// Where piece `k` of a split lies in the split sequence: it starts at
/// character `pieces_len(p, k)`, and it is followed by the separator unless
/// it is the last piece.
pub proof fn lemma_split_piece_at(s: Seq<char>, sep: char, k: int)
    requires
        0 <= k < split_at_char(s, sep).len(),
    ensures
        pieces_len(split_at_char(s, sep), k) + split_at_char(s, sep)[k].len() <= s.len(),
        split_at_char(s, sep)[k] == s.subrange(
            pieces_len(split_at_char(s, sep), k),
            pieces_len(split_at_char(s, sep), k) + split_at_char(s, sep)[k].len(),
        ),
        k < split_at_char(s, sep).len() - 1 ==> s[pieces_len(split_at_char(s, sep), k)
            + split_at_char(s, sep)[k].len()] == sep,
    decreases s.len(),
{
    let q = split_at_char(s, sep);
    if s.len() == 0 {
        assert(q[0] =~= s.subrange(0, 0));
    } else {
        let d = s.drop_last();
        lemma_split_nonempty(d, sep);
        lemma_split_total(d, sep);
        let p = split_at_char(d, sep);
        let n = p.len();
        if k <= n - 1 {
            lemma_split_piece_at(d, sep, k);
            lemma_pieces_len_congruent(p, q, k);
            lemma_pieces_len_mono(p, 0, k);
            let a = pieces_len(p, k);
            assert(pieces_len(q, k) == a);
            if k < n - 1 {
                assert(q[k] == p[k]);
                assert(d.subrange(a, a + p[k].len()) =~= s.subrange(a, a + p[k].len()));
                lemma_split_piece_at(d, sep, k + 1);
                assert(pieces_len(p, k + 1) == a + p[k].len() + 1);
                assert(d[a + p[k].len()] == sep);
                assert(s[a + p[k].len()] == d[a + p[k].len()]);
            } else if s.last() == sep {
                assert(q[k] == p[k]);
                assert(d.subrange(a, a + p[k].len()) =~= s.subrange(a, a + p[k].len()));
                assert(p.last() == p[k]);
                assert(a + p[k].len() == d.len());
                assert(s[d.len() as int] == s.last());
            } else {
                assert(q[k] == p[k].push(s.last()));
                assert(q[k] =~= s.subrange(a, a + q[k].len()));
            }
        } else {
            assert(s.last() == sep);
            assert(k == n);
            lemma_pieces_len_congruent(p, q, n - 1);
            assert(pieces_len(q, n as int) == pieces_len(q, n - 1) + q[n - 1].len() + 1);
            assert(q[n - 1] == p[n - 1]);
            assert(q[k] =~= s.subrange(s.len() as int, s.len() as int));
        }
    }
}

/// The piece starts only grow.
pub proof fn lemma_pieces_len_mono(p: Seq<Seq<char>>, a: int, b: int)
    requires
        a <= b,
    ensures
        pieces_len(p, a) <= pieces_len(p, b),
        a >= 0 ==> pieces_len(p, b) >= b - a + pieces_len(p, a),
    decreases b - a,
{
    if a < b {
        lemma_pieces_len_mono(p, a, b - 1);
    }
}

/// The boundaries that `split_ranges` computes are where the pieces lie.
pub proof fn lemma_ranges_pieces(s: Seq<char>, sep: char, r: Seq<(usize, usize)>, k: int)
    requires
        split_ranges_ok(s, sep, r),
        0 <= k < r.len(),
    ensures
        r[k].0 == pieces_len(split_at_char(s, sep), k),
        r[k].1 - r[k].0 == split_at_char(s, sep)[k].len(),
    decreases k,
{
    let p = split_at_char(s, sep);
    assert(p[k] == s.subrange(r[k].0 as int, r[k].1 as int));
    if k > 0 {
        lemma_ranges_pieces(s, sep, r, k - 1);
        let j = k - 1;
        assert(r[j + 1].0 == r[j].1 + 1);
    }
}

/// `cs` without a final `'\r'`, if it has one.
pub open spec fn trim_cr(cs: Seq<char>) -> Seq<char> {
    if cs.len() > 0 && cs.last() == '\r' {
        cs.drop_last()
    } else {
        cs
    }
}

/// The lines of a text as `str::lines` yields them: the pieces between
/// `'\n'` characters, a `'\r'` just before a `'\n'` removed, and no final
/// empty line when the text ends with `'\n'` (or is empty).
pub open spec fn text_lines(s: Seq<char>) -> Seq<Seq<char>> {
    let p = split_at_char(s, '\n');
    let n = p.len();
    let k = if n > 0 && p[n - 1].len() == 0 {
        n - 1
    } else {
        n as int
    };
    Seq::new(
        k as nat,
        |i: int|
            if i < n - 1 {
                trim_cr(p[i])
            } else {
                p[i]
            },
    )
}

/// Appends one character to a string (`String::push`).
#[verifier::external_body]
pub(crate) fn push_char(s: &mut String, c: char)
    ensures
        final(s)@ == old(s)@.push(c),
{
    s.push(c);
}

/// The string made of the characters `cs[from..to]`.
pub fn string_of_range(cs: &Vec<char>, from: usize, to: usize) -> (s: String)
    requires
        from <= to <= cs@.len(),
    ensures
        s@ == cs@.subrange(from as int, to as int),
{
    let mut s = String::new();
    let mut i = from;
    while i < to
        invariant
            from <= i <= to <= cs@.len(),
            s@ == cs@.subrange(from as int, i as int),
        decreases to - i,
    {
        push_char(&mut s, cs[i]);
        assert(cs@.subrange(from as int, i + 1) =~= cs@.subrange(from as int, i as int).push(
            cs@[i as int],
        ));
        i = i + 1;
    }
    s
}

/// Appends `t` to `s`.
pub fn push_str(s: &mut String, t: &str)
    ensures
        final(s)@ == old(s)@ + t@,
{
    s.append(t);
}

/// Decimal digits of `n` (what `to_string` writes for an unsigned integer).
pub open spec fn decimal(n: nat) -> Seq<char>
    decreases n,
{
    if n < 10 {
        seq![digit_char(n)]
    } else {
        decimal(n / 10).push(digit_char(n % 10))
    }
}

pub open spec fn digit_char(d: nat) -> char {
    if d == 0 {
        '0'
    } else if d == 1 {
        '1'
    } else if d == 2 {
        '2'
    } else if d == 3 {
        '3'
    } else if d == 4 {
        '4'
    } else if d == 5 {
        '5'
    } else if d == 6 {
        '6'
    } else if d == 7 {
        '7'
    } else if d == 8 {
        '8'
    } else {
        '9'
    }
}

fn digit(d: usize) -> (c: char)
    requires
        d < 10,
    ensures
        c == digit_char(d as nat),
{
    if d == 0 {
        '0'
    } else if d == 1 {
        '1'
    } else if d == 2 {
        '2'
    } else if d == 3 {
        '3'
    } else if d == 4 {
        '4'
    } else if d == 5 {
        '5'
    } else if d == 6 {
        '6'
    } else if d == 7 {
        '7'
    } else if d == 8 {
        '8'
    } else {
        '9'
    }
}

/// Decimal representation of `n`.
pub fn usize_to_string(n: usize) -> (s: String)
    ensures
        s@ == decimal(n as nat),
    decreases n,
{
    if n < 10 {
        let mut s = String::new();
        push_char(&mut s, digit(n));
        assert(s@ =~= seq![digit_char(n as nat)]);
        s
    } else {
        let mut s = usize_to_string(n / 10);
        push_char(&mut s, digit(n % 10));
        s
    }
}

} // verus!
