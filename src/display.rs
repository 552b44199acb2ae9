//! Writing stat values as text.
use crate::grammar::push_char;
use vstd::prelude::*;

verus! {

/// The decimal digit character for `d`.
pub open spec fn digit_char(d: int) -> char {
    (d + 48) as char
}

/// The decimal digits of `n`, most significant first.
pub open spec fn digits(n: nat) -> Seq<char>
    decreases n,
{
    if n < 10 {
        seq![digit_char(n as int)]
    } else {
        digits(n / 10).push(digit_char((n % 10) as int))
    }
}

/// A stat value as it is shown: with a plus sign when positive.
pub open spec fn signed_text(n: int) -> Seq<char> {
    if n > 0 {
        seq!['+'] + digits(n as nat)
    } else if n == 0 {
        seq!['0']
    } else {
        seq!['-'] + digits((-n) as nat)
    }
}

/// The digits of `n` above its last one: none for a single digit.
spec fn leading_digits(n: nat) -> Seq<char> {
    if n == 0 {
        Seq::empty()
    } else {
        digits(n)
    }
}

/// A stat value as it is shown: with a plus sign when positive.
pub fn formatnum(num: i64) -> (r: String)
    ensures
        r@ == signed_text(num as int),
{
    let mut out = String::new();
    if num == 0 {
        push_char(&mut out, '0');
        return out;
    }
    if num > 0 {
        push_char(&mut out, '+');
    } else {
        push_char(&mut out, '-');
    }
    let mag: u64 = if num > 0 {
        num as u64
    } else {
        (-(num as i128)) as u64
    };
    let ghost head = out@;
    let mut m: u64 = mag;
    let mut rev: Vec<char> = Vec::new();
    assert(rev@.reverse() =~= Seq::<char>::empty());
    assert(leading_digits(m as nat) + rev@.reverse() =~= digits(mag as nat));
    while m > 0
        invariant
            leading_digits(m as nat) + rev@.reverse() == digits(mag as nat),
            m <= mag,
            mag > 0,
        decreases m,
    {
        let d = (m % 10) as u32;
        let c = if d == 0 { '0' } else if d == 1 { '1' } else if d == 2 { '2' } else if d == 3 {
            '3'
        } else if d == 4 { '4' } else if d == 5 { '5' } else if d == 6 { '6' } else if d == 7 {
            '7'
        } else if d == 8 { '8' } else { '9' };
        assert(c == digit_char(d as int));
        let ghost before = rev@;
        rev.push(c);
        assert(rev@.reverse() =~= seq![c] + before.reverse());
        assert(digits(m as nat) == leading_digits((m / 10) as nat).push(c));
        assert(leading_digits((m / 10) as nat) + rev@.reverse() =~= leading_digits((m / 10) as nat).push(c) + before.reverse());
        m = m / 10;
    }
    let mut j: usize = rev.len();
    while j > 0
        invariant
            j <= rev@.len(),
            out@ == head + rev@.reverse().subrange(0, rev@.len() - j),
        decreases j,
    {
        j = j - 1;
        push_char(&mut out, rev[j]);
        assert(out@ =~= head + rev@.reverse().subrange(0, rev@.len() - j));
    }
    assert(rev@.reverse().subrange(0, rev@.len() as int) =~= digits(mag as nat));
    out
}

} // verus!
