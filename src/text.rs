//! Decimal text of integers, built and proved here.

use vstd::prelude::*;

verus! {

/// The decimal digit for `d`.
pub open spec fn digit_char(d: nat) -> char {
    if d == 0 {
        '0'
    } else if d == 1 {
        '1'
    } else if d == 2 {
        '2'
    } else if d == 3 {
        '3'
    } else if d == 4 {
        '4'
    } else if d == 5 {
        '5'
    } else if d == 6 {
        '6'
    } else if d == 7 {
        '7'
    } else if d == 8 {
        '8'
    } else {
        '9'
    }
}

/// The decimal text of `n`, without leading zeros.
pub open spec fn decimal(n: nat) -> Seq<char>
    decreases n,
{
    if n < 10 {
        seq![digit_char(n)]
    } else {
        decimal(n / 10).push(digit_char(n % 10))
    }
}

/// `k` zeros.
pub open spec fn zeros(k: int) -> Seq<char>
    decreases k,
{
    if k <= 0 {
        Seq::empty()
    } else {
        zeros(k - 1).push('0')
    }
}

/// The decimal text of `v` padded with zeros to at least `width` characters,
/// the sign counted in the width.
pub open spec fn padded(v: int, width: nat) -> Seq<char> {
    if v >= 0 {
        zeros(width - decimal(v as nat).len()) + decimal(v as nat)
    } else {
        seq!['-'] + zeros(width - 1 - decimal((-v) as nat).len()) + decimal((-v) as nat)
    }
}

fn digit(d: u64) -> (c: char)
    requires
        d < 10,
    ensures
        c == digit_char(d as nat),
{
    if d == 0 {
        '0'
    } else if d == 1 {
        '1'
    } else if d == 2 {
        '2'
    } else if d == 3 {
        '3'
    } else if d == 4 {
        '4'
    } else if d == 5 {
        '5'
    } else if d == 6 {
        '6'
    } else if d == 7 {
        '7'
    } else if d == 8 {
        '8'
    } else {
        '9'
    }
}

/// Appends the decimal text of `n` to `out`.
pub fn push_decimal(out: &mut Vec<char>, n: u64)
    ensures
        final(out)@ == old(out)@ + decimal(n as nat),
    decreases n,
{
    if n >= 10 {
        push_decimal(out, n / 10);
    }
    out.push(digit(n % 10));
    assert(final(out)@ =~= old(out)@ + decimal(n as nat)) by {
        if n >= 10 {
            assert(decimal(n as nat) == decimal((n / 10) as nat).push(digit_char((n % 10) as nat)));
        }
    }
}

fn push_zeros(out: &mut Vec<char>, k: usize)
    ensures
        final(out)@ == old(out)@ + zeros(k as int),
{
    let mut i: usize = 0;
    while i < k
        invariant
            i <= k,
            out@ == old(out)@ + zeros(i as int),
        decreases k - i,
    {
        out.push('0');
        assert(zeros(i + 1) == zeros(i as int).push('0'));
        assert(out@ =~= old(out)@ + zeros(i + 1));
        i = i + 1;
    }
}

/// Appends the text of `v` padded with zeros to `width` characters.
pub fn push_padded(out: &mut Vec<char>, v: i64, width: usize)
    ensures
        final(out)@ == old(out)@ + padded(v as int, width as nat),
{
    let n: u64 = if v >= 0 {
        v as u64
    } else if v == i64::MIN {
        9_223_372_036_854_775_808
    } else {
        (-v) as u64
    };
    let mut digits: Vec<char> = Vec::new();
    push_decimal(&mut digits, n);
    assert(digits@ =~= decimal(n as nat));
    let sign: usize = if v >= 0 {
        0
    } else {
        out.push('-');
        1
    };
    let fill: usize = if width > sign && width - sign > digits.len() {
        width - sign - digits.len()
    } else {
        0
    };
    assert(zeros(fill as int) == zeros(width - sign - digits@.len())) by {
        if fill == 0 {
            assert(zeros(width - sign - digits@.len()) == Seq::<char>::empty());
            assert(zeros(0) == Seq::<char>::empty());
        }
    }
    push_zeros(out, fill);
    out.append(&mut digits);
    assert(final(out)@ =~= old(out)@ + padded(v as int, width as nat));
}

/// Relies on `String`'s `FromIterator<char>`: the string holds the characters
/// in order.
#[verifier::external_body]
pub(crate) fn string_of_chars(chars: &Vec<char>) -> (r: String)
    ensures
        r@ == chars@,
{
    chars.iter().collect()
}

/// Appends the characters of `s` to `out`.
pub fn push_str(out: &mut Vec<char>, s: &str)
    ensures
        final(out)@ == old(out)@ + s@,
{
    let n = s.unicode_len();
    let mut i: usize = 0;
    while i < n
        invariant
            n == s@.len(),
            i <= n,
            out@ == old(out)@ + s@.subrange(0, i as int),
        decreases n - i,
    {
        out.push(s.get_char(i));
        assert(out@ =~= old(out)@ + s@.subrange(0, i + 1));
        i = i + 1;
    }
    assert(s@.subrange(0, n as int) =~= s@);
}

/// Whether `s` and `t` hold the same characters.
pub fn same_text(s: &str, t: &str) -> (r: bool)
    ensures
        r == (s@ == t@),
{
    let n = s.unicode_len();
    if n != t.unicode_len() {
        return false;
    }
    let mut i: usize = 0;
    while i < n
        invariant
            n == s@.len(),
            n == t@.len(),
            i <= n,
            forall|j: int| 0 <= j < i ==> s@[j] == t@[j],
        decreases n - i,
    {
        if s.get_char(i) != t.get_char(i) {
            return false;
        }
        i = i + 1;
    }
    assert(s@ =~= t@);
    true
}

} // verus!

