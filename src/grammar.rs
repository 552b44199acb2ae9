//! The character grammar of an identification string:
//! `START name SEP ids [SEP powders] END`, where every data character carries
//! the integer `codepoint - OFFSET`.
use vstd::prelude::*;

verus! {

/// Opens an identification string.
pub const START_CHAR: char = '\u{F5FF0}';

/// Closes an identification string.
pub const END_CHAR: char = '\u{F5FF1}';

/// Separates the segments of an identification string.
pub const SEPARATOR: char = '\u{F5FF2}';

/// The code point that stands for the integer 0.
pub const OFFSET: i32 = 0xF5000;

/// The integer that a character carries.
pub open spec fn payload(c: char) -> i32 {
    (c as int - 0xF5000) as i32
}

/// The integers that a sequence of characters carries.
pub open spec fn payloads(s: Seq<char>) -> Seq<i32> {
    s.map_values(|c: char| payload(c))
}

/// `s` without its leading start markers.
pub open spec fn trim_start(s: Seq<char>) -> Seq<char>
    decreases s.len(),
{
    if s.len() > 0 && s[0] == START_CHAR {
        trim_start(s.drop_first())
    } else {
        s
    }
}

/// `s` without its trailing end markers.
pub open spec fn trim_end(s: Seq<char>) -> Seq<char>
    decreases s.len(),
{
    if s.len() > 0 && s.last() == END_CHAR {
        trim_end(s.drop_last())
    } else {
        s
    }
}

/// The pieces between separators: each separator closes the current piece
/// and opens a new, empty one.
pub open spec fn split_pieces(s: Seq<char>) -> Seq<Seq<char>>
    decreases s.len(),
{
    if s.len() == 0 {
        seq![Seq::empty()]
    } else {
        let prev = split_pieces(s.drop_last());
        if s.last() == SEPARATOR {
            prev.push(Seq::empty())
        } else {
            prev.update(prev.len() - 1, prev.last().push(s.last()))
        }
    }
}

/// The pieces between separators, where a separator at the very end ends the
/// last piece instead of opening an empty one.
pub open spec fn split_terminated(s: Seq<char>) -> Seq<Seq<char>> {
    let p = split_pieces(s);
    if p.last().len() == 0 {
        p.drop_last()
    } else {
        p
    }
}

/// The segments of an identification string.
pub open spec fn segments(raw: Seq<char>) -> Seq<Seq<char>> {
    split_terminated(trim_end(trim_start(raw)))
}

/// Splitting always gives at least one piece.
pub proof fn lemma_split_pieces_nonempty(s: Seq<char>)
    ensures
        split_pieces(s).len() >= 1,
    decreases s.len(),
{
    if s.len() > 0 {
        lemma_split_pieces_nonempty(s.drop_last());
    }
}

/// Characters without a separator extend the last piece.
pub proof fn lemma_split_extend(p: Seq<char>, s: Seq<char>)
    requires
        !s.contains(SEPARATOR),
    ensures
        split_pieces(p + s) == split_pieces(p).update(
            split_pieces(p).len() - 1,
            split_pieces(p).last() + s,
        ),
    decreases s.len(),
{
    lemma_split_pieces_nonempty(p);
    let pp = split_pieces(p);
    if s.len() == 0 {
        assert(p + s =~= p);
        assert(pp.last() + s =~= pp.last());
        assert(pp.update(pp.len() - 1, pp.last() + s) =~= pp);
    } else {
        let init = s.drop_last();
        assert(!init.contains(SEPARATOR)) by {
            if init.contains(SEPARATOR) {
                let j = choose|j: int| 0 <= j < init.len() && init[j] == SEPARATOR;
                assert(s[j] == SEPARATOR);
            }
        }
        assert(s.last() != SEPARATOR) by {
            assert(s[s.len() - 1] == s.last());
        }
        lemma_split_extend(p, init);
        assert((p + s).drop_last() =~= p + init);
        assert((p + s).last() == s.last());
        assert((pp.last() + init).push(s.last()) =~= pp.last() + s);
        assert(split_pieces(p + init).update(
            pp.len() - 1,
            split_pieces(p + init).last().push(s.last()),
        ) =~= pp.update(pp.len() - 1, pp.last() + s));
    }
}

/// The characters of `s`.
pub fn chars_of(s: &str) -> (r: Vec<char>)
    ensures
        r@ == s@,
{
    let n = s.unicode_len();
    let mut r: Vec<char> = Vec::new();
    let mut i: usize = 0;
    while i < n
        invariant
            n == s@.len(),
            i <= n,
            r@ == s@.subrange(0, i as int),
        decreases n - i,
    {
        r.push(s.get_char(i));
        i = i + 1;
    }
    r
}

/// The integer that a character carries.
pub fn payload_of(c: char) -> (r: i32)
    ensures
        r == payload(c),
{
    (c as u32) as i32 - OFFSET
}

/// The character that carries the integer `n`.
pub open spec fn code_char(n: int) -> char {
    (n + 0xF5000) as char
}

/// A character built from a small integer carries that integer.
pub proof fn lemma_code_char(n: int)
    requires
        -0x1000 <= n <= 0x1000,
    ensures
        code_char(n) as int == n + 0xF5000,
        payload(code_char(n)) == n,
{
}

/// Relies on `char::from_u32`: the character with code point `n` when `n` is
/// a Unicode scalar value, and `None` otherwise.
#[verifier::external_body]
fn char_from_u32(n: u32) -> (r: Option<char>)
    ensures
        (n <= 0xD7FF || 0xE000 <= n <= 0x10FFFF) ==> r == Some(n as char),
        !(n <= 0xD7FF || 0xE000 <= n <= 0x10FFFF) ==> r is None,
{
    char::from_u32(n)
}

/// Relies on `String::push`: it appends one character.
#[verifier::external_body]
pub(crate) fn push_char(s: &mut String, c: char)
    ensures
        final(s)@ == old(s)@.push(c),
{
    s.push(c)
}

/// The character that carries the integer `n`.
pub fn data_char(n: i32) -> (c: char)
    requires
        -0x1000 <= n <= 0x1000,
    ensures
        c == code_char(n as int),
        payload(c) == n,
{
    let code = (n + OFFSET) as u32;
    match char_from_u32(code) {
        Some(c) => c,
        None => START_CHAR,
    }
}

/// The integers that the characters `s[a..b]` carry.
pub fn payloads_in(s: &Vec<char>, a: usize, b: usize) -> (r: Vec<i32>)
    requires
        a <= b <= s@.len(),
    ensures
        r@ == payloads(s@.subrange(a as int, b as int)),
{
    let mut r: Vec<i32> = Vec::new();
    let mut i: usize = a;
    while i < b
        invariant
            a <= i <= b <= s@.len(),
            r@ == payloads(s@.subrange(a as int, i as int)),
        decreases b - i,
    {
        r.push(payload_of(s[i]));
        assert(payloads(s@.subrange(a as int, i + 1)) =~= payloads(s@.subrange(a as int, i as int)).push(payload(s@[i as int])));
        i = i + 1;
    }
    r
}

/// The pieces of `s` that a list of bounds picks out.
pub open spec fn pieces_of(s: Seq<char>, r: Seq<(usize, usize)>) -> Seq<Seq<char>> {
    r.map_values(|p: (usize, usize)| s.subrange(p.0 as int, p.1 as int))
}

/// The bounds of the segments of `s`: segment `k` is `s[r[k].0 .. r[k].1]`.
pub fn segment_bounds(s: &Vec<char>) -> (r: Vec<(usize, usize)>)
    ensures
        forall|k: int| 0 <= k < r@.len() ==> #[trigger] r@[k].0 <= r@[k].1 <= s@.len(),
        pieces_of(s@, r@) == segments(s@),
{
    let n = s.len();
    let mut lo: usize = 0;
    assert(s@.subrange(0, n as int) =~= s@);
    while lo < n && s[lo] == START_CHAR
        invariant
            n == s@.len(),
            lo <= n,
            trim_start(s@) == trim_start(s@.subrange(lo as int, n as int)),
        decreases n - lo,
    {
        assert(s@.subrange(lo as int, n as int).drop_first() =~= s@.subrange(
            lo + 1,
            n as int,
        ));
        lo = lo + 1;
    }
    let ghost t0 = s@.subrange(lo as int, n as int);
    assert(trim_start(s@) == t0);
    let mut hi: usize = n;
    while hi > lo && s[hi - 1] == END_CHAR
        invariant
            n == s@.len(),
            lo <= hi <= n,
            t0 == s@.subrange(lo as int, n as int),
            trim_end(t0) == trim_end(s@.subrange(lo as int, hi as int)),
        decreases hi,
    {
        assert(s@.subrange(lo as int, hi as int).drop_last() =~= s@.subrange(
            lo as int,
            hi - 1,
        ));
        hi = hi - 1;
    }
    let ghost t = s@.subrange(lo as int, hi as int);
    assert(trim_end(trim_start(s@)) == t);
    let mut r: Vec<(usize, usize)> = Vec::new();
    let mut start: usize = lo;
    let mut i: usize = lo;
    assert(t.subrange(0, 0) =~= Seq::<char>::empty());
    assert(s@.subrange(lo as int, lo as int) =~= Seq::<char>::empty());
    assert(pieces_of(s@, r@) =~= Seq::<Seq<char>>::empty());
    assert(split_pieces(t.subrange(0, 0)) =~= pieces_of(s@, r@).push(
        s@.subrange(lo as int, lo as int),
    ));
    while i < hi
        invariant
            n == s@.len(),
            lo <= start <= i <= hi <= n,
            t == s@.subrange(lo as int, hi as int),
            split_pieces(t.subrange(0, i - lo)) == pieces_of(s@, r@).push(
                s@.subrange(start as int, i as int),
            ),
            forall|k: int| 0 <= k < r@.len() ==> #[trigger] r@[k].0 <= r@[k].1 <= i,
        decreases hi - i,
    {
        let ghost prev = t.subrange(0, i - lo);
        let ghost next = t.subrange(0, i + 1 - lo);
        let ghost mapped = pieces_of(s@, r@);
        let ghost cur = s@.subrange(start as int, i as int);
        assert(next.drop_last() =~= prev);
        assert(next.last() == s@[i as int]);
        if s[i] == SEPARATOR {
            r.push((start, i));
            assert(pieces_of(s@, r@) =~= mapped.push(cur));
            start = i + 1;
            assert(s@.subrange(start as int, i + 1) =~= Seq::<char>::empty());
            assert(split_pieces(next) =~= pieces_of(s@, r@).push(
                s@.subrange(start as int, i + 1),
            ));
        } else {
            assert(s@.subrange(start as int, i + 1) =~= cur.push(s@[i as int]));
            assert(split_pieces(next) =~= pieces_of(s@, r@).push(
                s@.subrange(start as int, i + 1),
            ));
        }
        i = i + 1;
    }
    assert(t.subrange(0, hi - lo) =~= t);
    let ghost mapped = pieces_of(s@, r@);
    let ghost cur = s@.subrange(start as int, hi as int);
    if start < hi {
        r.push((start, hi));
        assert(pieces_of(s@, r@) =~= mapped.push(cur));
    } else {
        assert(mapped.push(cur).drop_last() =~= mapped);
    }
    r
}

} // verus!
