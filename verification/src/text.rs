//! Small verified helpers for building strings out of characters.

use vstd::prelude::*;

use crate::token::{hex_digit, hex_digit_of};

verus! {

/// Appends one character to a string.
///
/// Trusted: calls `String::push`, which the standard library documents as
/// appending the given `char` to the end of the string.
#[verifier::external_body]
pub fn push_char(s: &mut String, c: char)
    ensures
        final(s)@ == old(s)@.push(c),
{
    s.push(c);
}

/// A `Vec<char>` holding the characters of `text`, in order.
pub fn chars_of(text: &str) -> (v: Vec<char>)
    ensures
        v@ == text@,
{
    let mut v: Vec<char> = Vec::new();
    for c in it: text.chars()
        invariant
            v@ == it.seq().take(it.index() as int),
    {
        v.push(c);
    }
    v
}

/// Appends every character of `text` to `s`.
pub fn push_str(s: &mut String, text: &str)
    ensures
        final(s)@ == old(s)@ + text@,
{
    let ghost before = s@;
    for c in it: text.chars()
        invariant
            s@ == before + it.seq().take(it.index() as int),
    {
        push_char(s, c);
    }
}

/// A new string holding `chars[from..to]`.
pub fn string_of_range(chars: &Vec<char>, from: usize, to: usize) -> (s: String)
    requires
        from <= to <= chars@.len(),
    ensures
        s@ == chars@.subrange(from as int, to as int),
{
    let mut s = String::new();
    let mut i = from;
    while i < to
        invariant
            from <= i <= to <= chars@.len(),
            s@ == chars@.subrange(from as int, i as int),
        decreases to - i,
    {
        push_char(&mut s, chars[i]);
        i = i + 1;
    }
    s
}

/// The decimal digits of `n`.
pub open spec fn digits_text(n: nat) -> Seq<char>
    decreases n,
{
    if n < 10 {
        seq![hex_digit_of(n as int)]
    } else {
        digits_text(n / 10).push(hex_digit_of((n % 10) as int))
    }
}

/// The number a string of decimal digits stands for.
pub open spec fn decimal_value(s: Seq<char>) -> int
    decreases s.len(),
{
    if s.len() == 0 {
        0
    } else {
        decimal_value(s.drop_last()) * 10 + (s.last() as int - '0' as int)
    }
}

/// The decimal digits of `n` are digits, read back as `n`, and start with
/// a `0` only where `n` is 0.
pub proof fn lemma_digits_text_reads_back(n: nat)
    ensures
        digits_text(n).len() >= 1,
        forall|k: int| 0 <= k < digits_text(n).len() ==> '0' <= #[trigger] digits_text(n)[k] <= '9',
        decimal_value(digits_text(n)) == n,
        n > 0 ==> digits_text(n)[0] != '0',
    decreases n,
{
    if n < 10 {
        let s = digits_text(n);
        assert(s.drop_last() =~= Seq::<char>::empty());
        assert(s.last() as int == '0' as int + n);
        assert(decimal_value(s.drop_last()) == 0);
        assert(decimal_value(s) == decimal_value(s.drop_last()) * 10 + (s.last() as int - '0' as int));
    } else {
        lemma_digits_text_reads_back(n / 10);
        let s = digits_text(n);
        let d = hex_digit_of((n % 10) as int);
        assert(s.drop_last() =~= digits_text(n / 10));
        assert(s.last() == d);
        assert(d as int == '0' as int + n % 10);
        assert((n / 10) * 10 + n % 10 == n) by (nonlinear_arith);
        assert(decimal_value(s) == decimal_value(s.drop_last()) * 10 + (s.last() as int - '0' as int));
        assert(s[0] == digits_text(n / 10)[0]);
        assert forall|k: int| 0 <= k < s.len() implies '0' <= #[trigger] s[k] <= '9' by {
            if k < s.len() - 1 {
                assert(s[k] == digits_text(n / 10)[k]);
            }
        }
    }
}

/// Appends the decimal digits of `n`.
pub fn push_digits(out: &mut String, n: u64)
    ensures
        final(out)@ == old(out)@ + digits_text(n as nat),
    decreases n,
{
    if n >= 10 {
        push_digits(out, n / 10);
    }
    push_char(out, hex_digit((n % 10) as u32));
    proof {
        if n >= 10 {
            assert(final(out)@ =~= old(out)@ + digits_text(n as nat));
        }
    }
}

} // verus!
