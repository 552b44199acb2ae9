//! Which gathering spots a material query asks for.
use crate::grammar::{chars_of, push_char};
use vstd::prelude::*;

verus! {

/// `c` in upper case if it is an ASCII letter.
pub open spec fn ascii_upper(c: char) -> char {
    if 'a' <= c <= 'z' {
        (c as int - 32) as char
    } else {
        c
    }
}

/// `s` with its ASCII letters in upper case.
pub open spec fn upper_spec(s: Seq<char>) -> Seq<char> {
    s.map_values(|c: char| ascii_upper(c))
}

/// Whether `needle` occurs in `hay` as a run of characters.
pub open spec fn contains_spec(hay: Seq<char>, needle: Seq<char>) -> bool {
    exists|i: int| 0 <= i <= hay.len() - needle.len() && #[trigger] hay.subrange(i, i + needle.len()) == needle
}

/// `s` with its ASCII letters in upper case.
pub fn to_ascii_upper(s: &str) -> (r: String)
    ensures
        r@ == upper_spec(s@),
{
    let cs = chars_of(s);
    let mut out = String::new();
    let mut i: usize = 0;
    while i < cs.len()
        invariant
            i <= cs@.len(),
            cs@ == s@,
            out@ == upper_spec(s@.subrange(0, i as int)),
        decreases cs@.len() - i,
    {
        let c = cs[i];
        let u = if 'a' <= c && c <= 'z' {
            ((c as u8) - 32) as char
        } else {
            c
        };
        push_char(&mut out, u);
        assert(upper_spec(s@.subrange(0, i + 1)) =~= upper_spec(s@.subrange(0, i as int)).push(
            ascii_upper(c),
        ));
        i = i + 1;
    }
    assert(s@.subrange(0, cs@.len() as int) =~= s@);
    out
}

/// Whether `needle` occurs in `hay` at `at`.
fn occurs_at(hay: &Vec<char>, needle: &Vec<char>, at: usize) -> (r: bool)
    requires
        at + needle@.len() <= hay@.len(),
    ensures
        r == (hay@.subrange(at as int, at + needle@.len()) == needle@),
{
    let n = hay.len();
    let mut k: usize = 0;
    while k < needle.len()
        invariant
            at + needle@.len() <= hay@.len(),
            n == hay@.len(),
            k <= needle@.len(),
            forall|j: int| 0 <= j < k ==> hay@[at + j] == needle@[j],
        decreases needle@.len() - k,
    {
        if hay[at + k] != needle[k] {
            assert(hay@.subrange(at as int, at + needle@.len())[k as int] != needle@[k as int]);
            return false;
        }
        k = k + 1;
    }
    assert(hay@.subrange(at as int, at + needle@.len()) =~= needle@);
    true
}

/// Whether `needle` occurs in `hay`.
pub fn contains_text(hay: &Vec<char>, needle: &Vec<char>) -> (r: bool)
    ensures
        r == contains_spec(hay@, needle@),
{
    if needle.len() == 0 {
        assert(hay@.subrange(0, 0 + needle@.len() as int) =~= needle@);
        return true;
    }
    if needle.len() > hay.len() {
        return false;
    }
    let last = hay.len() - needle.len();
    let mut i: usize = 0;
    while i <= last
        invariant
            last == hay@.len() - needle@.len(),
            needle@.len() >= 1,
            hay@.len() == hay.len(),
            i <= last + 1,
            forall|j: int|
                0 <= j < i ==> #[trigger] hay@.subrange(j, j + needle@.len()) != needle@,
        decreases last + 1 - i,
    {
        if occurs_at(hay, needle, i) {
            return true;
        }
        i = i + 1;
    }
    false
}

/// Whether a gathering spot of kind `spot` answers the query `material`:
/// one of the two, the query in upper case, holds the other.
pub fn material_matches(spot: &str, material: &str) -> (r: bool)
    ensures
        r == (contains_spec(spot@, upper_spec(material@)) || contains_spec(
            upper_spec(material@),
            spot@,
        )),
{
    let wanted = to_ascii_upper(material);
    let w = chars_of(wanted.as_str());
    let t = chars_of(spot);
    contains_text(&t, &w) || contains_text(&w, &t)
}

/// The texts of a list of strings.
pub open spec fn texts(v: Seq<String>) -> Seq<Seq<char>> {
    v.map_values(|k: String| k@)
}

/// Each text of `s` once, where it first occurs.
pub open spec fn distinct_spec(s: Seq<Seq<char>>) -> Seq<Seq<char>>
    decreases s.len(),
{
    if s.len() == 0 {
        Seq::empty()
    } else {
        let prev = distinct_spec(s.drop_last());
        if prev.contains(s.last()) {
            prev
        } else {
            prev.push(s.last())
        }
    }
}

/// Each resource kind once, where it first occurs.
pub fn distinct_kinds(kinds: &Vec<String>) -> (r: Vec<String>)
    ensures
        texts(r@) == distinct_spec(texts(kinds@)),
{
    let mut r: Vec<String> = Vec::new();
    let mut i: usize = 0;
    assert(texts(kinds@).subrange(0, 0) =~= Seq::<Seq<char>>::empty());
    assert(texts(r@) =~= Seq::<Seq<char>>::empty());
    while i < kinds.len()
        invariant
            i <= kinds@.len(),
            texts(r@) == distinct_spec(texts(kinds@).subrange(0, i as int)),
        decreases kinds@.len() - i,
    {
        let ghost seen = texts(r@);
        let ghost next = texts(kinds@).subrange(0, i + 1);
        assert(next.drop_last() =~= texts(kinds@).subrange(0, i as int));
        assert(next.last() == kinds@[i as int]@);
        let mut found = false;
        let mut j: usize = 0;
        while j < r.len()
            invariant
                i < kinds@.len(),
                j <= r@.len(),
                seen == texts(r@),
                found <==> exists|k: int| 0 <= k < j && #[trigger] seen[k] == kinds@[i as int]@,
            decreases r@.len() - j,
        {
            assert(seen[j as int] == r@[j as int]@);
            if r[j] == kinds[i] {
                found = true;
            }
            j = j + 1;
        }
        assert(found <==> seen.contains(kinds@[i as int]@));
        if !found {
            r.push(kinds[i].clone());
            assert(texts(r@) =~= seen.push(kinds@[i as int]@));
        }
        i = i + 1;
    }
    assert(texts(kinds@).subrange(0, kinds@.len() as int) =~= texts(kinds@));
    r
}

} // verus!
