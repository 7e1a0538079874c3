//! Decimal numerals: reading a digit string as a number and printing a
//! number back at a fixed width, with the round-trip laws the identifier
//! codec rests on.

use vstd::prelude::*;

verus! {

pub open spec fn is_digit(c: char) -> bool {
    '0' <= c && c <= '9'
}

pub open spec fn digit_val(c: char) -> int {
    c as int - '0' as int
}

pub open spec fn digit_char(d: int) -> char {
    ((d + '0' as int) as u8) as char
}

pub open spec fn all_digits(s: Seq<char>) -> bool {
    forall|i: int| 0 <= i < s.len() ==> is_digit(#[trigger] s[i])
}

/// The number a digit string denotes (most significant digit first).
pub open spec fn seq_val(s: Seq<char>) -> int
    decreases s.len(),
{
    if s.len() == 0 {
        0
    } else {
        seq_val(s.drop_last()) * 10 + digit_val(s.last())
    }
}

pub open spec fn pow10(w: nat) -> int
    decreases w,
{
    if w == 0 {
        1
    } else {
        10 * pow10((w - 1) as nat)
    }
}

/// `n` printed as exactly `w` decimal digits (zero-padded on the left;
/// truncated to the low digits if it does not fit).
pub open spec fn fmt_digits(n: int, w: nat) -> Seq<char>
    decreases w,
{
    if w == 0 {
        Seq::empty()
    } else {
        fmt_digits(n / 10, (w - 1) as nat).push(digit_char(n % 10))
    }
}

pub proof fn lemma_pow10_pos(w: nat)
    ensures
        pow10(w) >= 1,
    decreases w,
{
    if w > 0 {
        lemma_pow10_pos((w - 1) as nat);
    }
}

pub proof fn lemma_pow10_mono(a: nat, b: nat)
    requires
        a <= b,
    ensures
        pow10(a) <= pow10(b),
    decreases b,
{
    if a < b {
        lemma_pow10_mono(a, (b - 1) as nat);
        lemma_pow10_pos((b - 1) as nat);
    }
}

/// A `w`-digit string denotes a number below `pow10(w)`.
pub proof fn lemma_seq_val_bound(s: Seq<char>)
    requires
        all_digits(s),
    ensures
        0 <= seq_val(s) < pow10(s.len()),
    decreases s.len(),
{
    if s.len() == 0 {
    } else {
        let s0 = s.drop_last();
        assert(all_digits(s0));
        lemma_seq_val_bound(s0);
        assert(is_digit(s.last()));
        assert(0 <= digit_val(s.last()) <= 9);
        assert(seq_val(s0) * 10 + 9 < pow10(s0.len()) * 10) by (nonlinear_arith)
            requires
                seq_val(s0) < pow10(s0.len()),
        ;
        assert(seq_val(s0) * 10 >= 0) by (nonlinear_arith)
            requires
                seq_val(s0) >= 0,
        ;
        assert(pow10(s.len()) == 10 * pow10(s0.len()));
    }
}

pub proof fn lemma_fmt_digits_len(n: int, w: nat)
    ensures
        fmt_digits(n, w).len() == w,
    decreases w,
{
    if w > 0 {
        lemma_fmt_digits_len(n / 10, (w - 1) as nat);
    }
}

/// Printing what a full-width digit string denotes gives the string back.
pub proof fn lemma_fmt_of_val(s: Seq<char>)
    requires
        all_digits(s),
    ensures
        fmt_digits(seq_val(s), s.len()) == s,
    decreases s.len(),
{
    if s.len() == 0 {
        assert(fmt_digits(0, 0) =~= s);
    } else {
        let s0 = s.drop_last();
        let d = digit_val(s.last());
        assert(all_digits(s0));
        lemma_seq_val_bound(s0);
        lemma_fmt_of_val(s0);
        let v0 = seq_val(s0);
        let v = seq_val(s);
        assert(v == v0 * 10 + d);
        assert(is_digit(s.last()));
        assert(0 <= d <= 9);
        assert(v / 10 == v0 && v % 10 == d) by (nonlinear_arith)
            requires
                v == v0 * 10 + d,
                0 <= d <= 9,
                v0 >= 0,
        ;
        assert(digit_char(d) == s.last()) by {
            assert('0' as int == 48);
            assert(48 <= s.last() as int <= 57);
            assert(((s.last() as int - 48 + 48) as u8) as char == s.last());
        }
        assert(fmt_digits(v, s.len()) == fmt_digits(v0, s0.len()).push(digit_char(d)));
        assert(fmt_digits(v, s.len()) =~= s);
    }
}

/// Printed digits are digits, and they denote the printed number.
pub proof fn lemma_val_of_fmt(n: int, w: nat)
    requires
        0 <= n < pow10(w),
    ensures
        all_digits(fmt_digits(n, w)),
        seq_val(fmt_digits(n, w)) == n,
    decreases w,
{
    if w == 0 {
        assert(fmt_digits(n, 0) =~= Seq::<char>::empty());
    } else {
        let q = n / 10;
        let d = n % 10;
        assert(0 <= d <= 9 && n == q * 10 + d && q >= 0) by (nonlinear_arith)
            requires
                n >= 0,
                q == n / 10,
                d == n % 10,
        ;
        assert(q < pow10((w - 1) as nat)) by (nonlinear_arith)
            requires
                n < pow10(w),
                pow10(w) == 10 * pow10((w - 1) as nat),
                q == n / 10,
                n >= 0,
        ;
        lemma_val_of_fmt(q, (w - 1) as nat);
        let t = fmt_digits(q, (w - 1) as nat);
        lemma_fmt_digits_len(q, (w - 1) as nat);
        assert(is_digit(digit_char(d)) && digit_val(digit_char(d)) == d) by {
            assert('0' as int == 48);
        }
        let s = t.push(digit_char(d));
        assert(s.drop_last() =~= t);
        assert(all_digits(s)) by {
            assert(forall|i: int| 0 <= i < t.len() ==> is_digit(#[trigger] s[i]));
            assert(s[t.len() as int] == digit_char(d));
        }
        assert(seq_val(s) == seq_val(t) * 10 + digit_val(digit_char(d)));
    }
}

/// Widening the print width of a fitting number only adds a leading zero.
pub proof fn lemma_fmt_widen(n: int, w: nat)
    requires
        0 <= n < pow10(w),
    ensures
        fmt_digits(n, w + 1) == seq!['0'] + fmt_digits(n, w),
    decreases w,
{
    if w == 0 {
        assert(n == 0);
        assert(digit_char(0) == '0') by {
            assert('0' as int == 48);
        }
        assert(fmt_digits(0, 1) =~= seq!['0'] + fmt_digits(0, 0));
    } else {
        let q = n / 10;
        let d = n % 10;
        assert(q >= 0 && q < pow10((w - 1) as nat)) by (nonlinear_arith)
            requires
                0 <= n < pow10(w),
                pow10(w) == 10 * pow10((w - 1) as nat),
                q == n / 10,
        ;
        lemma_fmt_widen(q, (w - 1) as nat);
        assert(fmt_digits(n, w + 1) == fmt_digits(q, w).push(digit_char(d)));
        assert(fmt_digits(q, w) == seq!['0'] + fmt_digits(q, (w - 1) as nat));
        assert((seq!['0'] + fmt_digits(q, (w - 1) as nat)).push(digit_char(d)) =~= seq!['0']
            + fmt_digits(q, (w - 1) as nat).push(digit_char(d)));
    }
}

} // verus!
