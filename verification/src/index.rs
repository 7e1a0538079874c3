//! Publication identifiers: the legacy `subject/YYMMNNN` grammar and the
//! modern `YYMM.NNNNN` grammar, their parser, and the canonical formatter.
//!
//! The year and month decode to a calendar date whose day is always the
//! first (the day carries no meaning). Sequence numbers drop leading zeros
//! on input and are re-padded on output: three digits for legacy
//! identifiers, five for modern ones.

use vstd::prelude::*;
use vstd::string::StrSliceExecFns;
use vstd::string::StringExecFns;

use crate::digits::{
    all_digits, digit_val, fmt_digits, is_digit, lemma_fmt_of_val, lemma_fmt_widen,
    lemma_seq_val_bound, pow10, seq_val,
};
use crate::errors::Error;
use crate::strutil::chars_to_string;
use crate::subject::{spec_from_string, Subject};

verus! {

/// A parsed identifier. `Old` carries the subject named before the slash;
/// `New` has none.
#[derive(Debug)]
pub enum Index {
    Old { year: u32, month: u32, idx: u32, sub: Subject },
    New { year: u32, month: u32, idx: u32 },
}

impl Clone for Index {
    fn clone(&self) -> (r: Self)
        ensures
            r == *self,
    {
        match self {
            Index::Old { year, month, idx, sub } => Index::Old {
                year: *year,
                month: *month,
                idx: *idx,
                sub: sub.clone(),
            },
            Index::New { year, month, idx } => Index::New {
                year: *year,
                month: *month,
                idx: *idx,
            },
        }
    }
}

/// Two-digit years wrap at 1969: `69`–`99` mean the 20th century,
/// `00`–`68` the 21st.
pub open spec fn year_of(yy: int) -> int {
    if yy <= 68 {
        2000 + yy
    } else {
        1900 + yy
    }
}

/// `YYMM.NNNN` or `YYMM.NNNNN`: a dot after four digits, then a four or
/// five digit tail.
pub open spec fn is_modern(s: Seq<char>) -> bool {
    &&& s.len() == 9 || s.len() == 10
    &&& s[4] == '.'
    &&& forall|i: int| 0 <= i < s.len() && i != 4 ==> is_digit(#[trigger] s[i])
}

pub open spec fn modern_yy(s: Seq<char>) -> int {
    seq_val(s.subrange(0, 2))
}

pub open spec fn modern_month(s: Seq<char>) -> int {
    seq_val(s.subrange(2, 4))
}

pub open spec fn modern_seq(s: Seq<char>) -> int {
    seq_val(s.subrange(5, s.len() as int))
}

/// A modern string whose month names a calendar month.
pub open spec fn modern_ok(s: Seq<char>) -> bool {
    is_modern(s) && 1 <= modern_month(s) <= 12
}

pub open spec fn is_sub_char(c: char) -> bool {
    ('a' <= c && c <= 'z') || ('A' <= c && c <= 'Z') || c == '-'
}

pub open spec fn is_token(s: Seq<char>) -> bool {
    s.len() >= 1 && forall|i: int| 0 <= i < s.len() ==> is_sub_char(#[trigger] s[i])
}

/// A subject token, optionally followed by a dot and a sub-subject token.
pub open spec fn is_subject_prefix(s: Seq<char>) -> bool {
    ||| is_token(s)
    ||| exists|k: int|
        0 <= k < s.len() && s[k] == '.' && is_token(s.subrange(0, k)) && is_token(
            s.subrange(k + 1, s.len() as int),
        )
}

/// `<subject>(.<subsubject>)?/YYMMNNN`: a subject prefix, a slash, then
/// exactly seven digits.
pub open spec fn is_legacy(s: Seq<char>) -> bool {
    &&& s.len() >= 9
    &&& s[s.len() - 8] == '/'
    &&& is_subject_prefix(s.subrange(0, s.len() - 8))
    &&& forall|i: int| s.len() - 7 <= i < s.len() ==> is_digit(#[trigger] s[i])
}

pub open spec fn legacy_prefix(s: Seq<char>) -> Seq<char> {
    s.subrange(0, s.len() - 8)
}

pub open spec fn legacy_yy(s: Seq<char>) -> int {
    seq_val(s.subrange(s.len() - 7, s.len() - 5))
}

pub open spec fn legacy_month(s: Seq<char>) -> int {
    seq_val(s.subrange(s.len() - 5, s.len() - 3))
}

pub open spec fn legacy_seq(s: Seq<char>) -> int {
    seq_val(s.subrange(s.len() - 3, s.len() as int))
}

/// A legacy string whose month names a calendar month.
pub open spec fn legacy_ok(s: Seq<char>) -> bool {
    is_legacy(s) && 1 <= legacy_month(s) <= 12
}

impl Index {
    /// Ranges every parsed identifier satisfies: a representable year, a
    /// calendar month, and a sequence number that fits its fixed width.
    pub open spec fn wf(self) -> bool {
        match self {
            Index::New { year, month, idx } => {
                &&& 1969 <= year <= 2068
                &&& 1 <= month <= 12
                &&& idx < 100000
            },
            Index::Old { year, month, idx, sub } => {
                &&& 1969 <= year <= 2068
                &&& 1 <= month <= 12
                &&& idx < 1000
            },
        }
    }

    /// The canonical string form: `YYMM.NNNNN` for modern identifiers,
    /// `YYMMNNN` for legacy ones (the subject is carried separately).
    pub open spec fn spec_format(self) -> Seq<char> {
        match self {
            Index::New { year, month, idx } => fmt_digits(year as int % 100, 2) + fmt_digits(
                month as int,
                2,
            ) + seq!['.'] + fmt_digits(idx as int, 5),
            Index::Old { year, month, idx, sub } => fmt_digits(year as int % 100, 2) + fmt_digits(
                month as int,
                2,
            ) + fmt_digits(idx as int, 3),
        }
    }
}

/// What `parse` must return: a modern identifier when the modern grammar
/// matches, else a legacy one when the legacy grammar matches.
pub open spec fn parse_post(s: Seq<char>, ix: Index) -> bool {
    if modern_ok(s) {
        ix matches Index::New { year, month, idx } && year as int == year_of(modern_yy(s))
            && month as int == modern_month(s) && idx as int == modern_seq(s)
    } else {
        legacy_ok(s) && (ix matches Index::Old { year, month, idx, sub } && year as int == year_of(
            legacy_yy(s),
        ) && month as int == legacy_month(s) && idx as int == legacy_seq(s) && spec_from_string(
            legacy_prefix(s),
            sub,
        ))
    }
}

/// Append `n` to `v` as exactly `w` decimal digits, zero-padded.
fn push_digits(v: &mut Vec<char>, n: u32, w: u32)
    ensures
        final(v)@ == old(v)@ + fmt_digits(n as int, w as nat),
    decreases w,
{
    if w == 0 {
        proof {
            assert(old(v)@ + fmt_digits(n as int, 0) =~= old(v)@);
        }
        return ;
    }
    push_digits(v, n / 10, w - 1);
    let d = n % 10;
    let c = ((48 + d as u8)) as char;
    v.push(c);
    proof {
        assert(c == crate::digits::digit_char(n as int % 10));
        assert((n / 10) as int == n as int / 10);
        assert(fmt_digits(n as int, w as nat) == fmt_digits(n as int / 10, (w - 1) as nat).push(
            crate::digits::digit_char(n as int % 10),
        ));
        assert((old(v)@ + fmt_digits(n as int / 10, (w - 1) as nat)).push(c) =~= old(v)@
            + fmt_digits(n as int, w as nat));
    }
}

impl Index {
    /// The canonical string form of this identifier.
    pub fn format(&self) -> (r: String)
        ensures
            r@ == self.spec_format(),
    {
        let mut v: Vec<char> = Vec::new();
        match self {
            Index::New { year, month, idx } => {
                push_digits(&mut v, *year % 100, 2);
                push_digits(&mut v, *month, 2);
                v.push('.');
                push_digits(&mut v, *idx, 5);
                proof {
                    assert(v@ =~= self.spec_format());
                }
            },
            Index::Old { year, month, idx, sub } => {
                push_digits(&mut v, *year % 100, 2);
                push_digits(&mut v, *month, 2);
                push_digits(&mut v, *idx, 3);
                proof {
                    assert(v@ =~= self.spec_format());
                }
            },
        }
        chars_to_string(&v)
    }

    /// Whether this identifier satisfies the ranges `wf` asks for.
    pub fn is_wf(&self) -> (r: bool)
        ensures
            r == self.wf(),
    {
        match self {
            Index::New { year, month, idx } => 1969 <= *year && *year <= 2068 && 1 <= *month
                && *month <= 12 && *idx < 100000,
            Index::Old { year, month, idx, sub } => 1969 <= *year && *year <= 2068 && 1 <= *month
                && *month <= 12 && *idx < 1000,
        }
    }

    /// Whether a detail URL can be built: a legacy identifier needs its
    /// subject's code for the path segment.
    pub open spec fn url_ok(self) -> bool {
        match self {
            Index::Old { sub, .. } => sub.code_ok(),
            Index::New { .. } => true,
        }
    }

    /// The detail-page URL: the base path, a subject segment for legacy
    /// identifiers, then the canonical identifier string.
    pub fn to_detail_url(&self) -> (r: String)
        requires
            self.url_ok(),
        ensures
            r@ == "https://arxiv.org/abs/"@ + (match self {
                Index::Old { sub, .. } => sub.spec_code() + seq!['/'],
                Index::New { .. } => Seq::<char>::empty(),
            }) + self.spec_format(),
    {
        let mut out = String::new();
        out.append("https://arxiv.org/abs/");
        match self {
            Index::Old { sub, .. } => {
                out.append(sub.as_str());
                out.append("/");
                proof {
                    reveal_strlit("/");
                    assert(out@ =~= "https://arxiv.org/abs/"@ + (sub.spec_code() + seq!['/']));
                }
            },
            Index::New { .. } => {
                proof {
                    assert(out@ =~= "https://arxiv.org/abs/"@ + Seq::<char>::empty());
                }
            },
        }
        let tail = self.format();
        out.append(tail.as_str());
        out
    }
}

/// The tail of a modern string, zero-padded to five digits.
pub open spec fn pad5(t: Seq<char>) -> Seq<char> {
    if t.len() == 5 {
        t
    } else {
        seq!['0'] + t
    }
}

/// Law: a modern-form string round-trips. Formatting what `parse` read
/// reproduces the string with its tail zero-padded to five digits and the
/// year and month preserved; a string whose tail already has five digits
/// comes back exactly.
pub proof fn lemma_modern_round_trip(s: Seq<char>, ix: Index)
    requires
        modern_ok(s),
        parse_post(s, ix),
    ensures
        ix.spec_format() == s.subrange(0, 5) + pad5(s.subrange(5, s.len() as int)),
        s.len() == 10 ==> ix.spec_format() == s,
{
    let yy = s.subrange(0, 2);
    let mm = s.subrange(2, 4);
    let tail = s.subrange(5, s.len() as int);
    assert(all_digits(yy) && all_digits(mm) && all_digits(tail));
    lemma_seq_val_bound(yy);
    lemma_seq_val_bound(mm);
    lemma_seq_val_bound(tail);
    assert(pow10(2) == 100) by {
        reveal_with_fuel(pow10, 3);
    }
    lemma_fmt_of_val(yy);
    lemma_fmt_of_val(mm);
    lemma_fmt_of_val(tail);
    let year = year_of(seq_val(yy));
    assert(year % 100 == seq_val(yy)) by (nonlinear_arith)
        requires
            0 <= seq_val(yy) < 100,
            year == 2000 + seq_val(yy) || year == 1900 + seq_val(yy),
    ;
    if s.len() == 10 {
        assert(ix.spec_format() =~= s.subrange(0, 5) + pad5(tail));
        assert(s.subrange(0, 5) + pad5(tail) =~= s);
    } else {
        assert(tail.len() == 4);
        lemma_fmt_widen(seq_val(tail), 4);
        assert(fmt_digits(seq_val(tail), 5) == seq!['0'] + tail);
        assert(ix.spec_format() =~= s.subrange(0, 5) + pad5(tail));
    }
}

/// Law: a legacy-form string round-trips. Formatting what `parse` read
/// reproduces the seven-digit numeric part exactly, three-digit sequence
/// width included, and the identifier keeps the subject named before the
/// slash.
pub proof fn lemma_legacy_round_trip(s: Seq<char>, ix: Index)
    requires
        legacy_ok(s),
        !modern_ok(s),
        parse_post(s, ix),
    ensures
        ix.spec_format() == s.subrange(s.len() - 7, s.len() as int),
        ix matches Index::Old { sub, .. } && spec_from_string(legacy_prefix(s), sub),
{
    let yy = s.subrange(s.len() - 7, s.len() - 5);
    let mm = s.subrange(s.len() - 5, s.len() - 3);
    let tail = s.subrange(s.len() - 3, s.len() as int);
    assert(all_digits(yy) && all_digits(mm) && all_digits(tail));
    lemma_seq_val_bound(yy);
    lemma_seq_val_bound(mm);
    lemma_seq_val_bound(tail);
    assert(pow10(2) == 100) by {
        reveal_with_fuel(pow10, 3);
    }
    lemma_fmt_of_val(yy);
    lemma_fmt_of_val(mm);
    lemma_fmt_of_val(tail);
    let year = year_of(seq_val(yy));
    assert(year % 100 == seq_val(yy)) by (nonlinear_arith)
        requires
            0 <= seq_val(yy) < 100,
            year == 2000 + seq_val(yy) || year == 1900 + seq_val(yy),
    ;
    assert(ix.spec_format() =~= s.subrange(s.len() - 7, s.len() as int));
}

/// Law: the canonical string of a well-formed modern identifier parses
/// back to that identifier, so the two directions of the codec are
/// mutually inverse on canonical modern strings.
pub proof fn lemma_format_then_parse(ix: Index)
    requires
        ix.wf(),
        ix is New,
    ensures
        modern_ok(ix.spec_format()),
        parse_post(ix.spec_format(), ix),
{
    let s = ix.spec_format();
    let year = ix->New_year as int;
    let month = ix->New_month as int;
    let idx = ix->New_idx as int;
    let yy = year % 100;
    assert(pow10(2) == 100 && pow10(5) == 100000) by {
        reveal_with_fuel(pow10, 6);
    }
    assert(0 <= yy < 100) by (nonlinear_arith)
        requires
            1969 <= year <= 2068,
            yy == year % 100,
    ;
    let fy = fmt_digits(yy, 2);
    let fm = fmt_digits(month, 2);
    let fi = fmt_digits(idx, 5);
    crate::digits::lemma_val_of_fmt(yy, 2);
    crate::digits::lemma_val_of_fmt(month, 2);
    crate::digits::lemma_val_of_fmt(idx, 5);
    crate::digits::lemma_fmt_digits_len(yy, 2);
    crate::digits::lemma_fmt_digits_len(month, 2);
    crate::digits::lemma_fmt_digits_len(idx, 5);
    assert(s.len() == 10);
    assert(s.subrange(0, 2) =~= fy);
    assert(s.subrange(2, 4) =~= fm);
    assert(s[4] == '.');
    assert(s.subrange(5, s.len() as int) =~= fi);
    assert(is_modern(s)) by {
        assert forall|i: int| 0 <= i < s.len() && i != 4 implies is_digit(s[i]) by {
            if i < 2 {
                assert(s[i] == fy[i]);
            } else if i < 4 {
                assert(s[i] == fm[i - 2]);
            } else {
                assert(s[i] == fi[i - 5]);
            }
        }
    }
    assert(modern_month(s) == month);
    assert(modern_yy(s) == yy);
    assert(modern_seq(s) == idx);
    assert(year_of(yy) == year) by (nonlinear_arith)
        requires
            1969 <= year <= 2068,
            yy == year % 100,
    ;
}

/// Read the digits of `s` between `from` and `to` as a number, or report
/// that some character there is not a digit.
fn scan_digits(s: &str, from: usize, to: usize) -> (r: Option<u32>)
    requires
        from <= to <= s@.len(),
        to - from <= 7,
    ensures
        match r {
            Some(v) => {
                &&& forall|i: int| from <= i < to ==> is_digit(#[trigger] s@[i])
                &&& v as int == seq_val(s@.subrange(from as int, to as int))
            },
            None => !(forall|i: int| from <= i < to ==> is_digit(#[trigger] s@[i])),
        },
{
    let mut i: usize = from;
    let mut val: u32 = 0;
    proof {
        assert(s@.subrange(from as int, from as int) =~= Seq::<char>::empty());
    }
    while i < to
        invariant
            from <= i <= to <= s@.len(),
            to - from <= 7,
            forall|j: int| from <= j < i ==> is_digit(#[trigger] s@[j]),
            val as int == seq_val(s@.subrange(from as int, i as int)),
            all_digits(s@.subrange(from as int, i as int)),
        decreases to - i,
    {
        let c = s.get_char(i);
        let u = c as u32;
        if u < 48 || u > 57 {
            proof {
                assert(!is_digit(s@[i as int]));
            }
            return None;
        }
        proof {
            assert(is_digit(s@[i as int]));
            lemma_seq_val_bound(s@.subrange(from as int, i as int));
            assert(pow10((i - from) as nat) <= pow10(6)) by {
                reveal_with_fuel(pow10, 8);
                crate::digits::lemma_pow10_mono((i - from) as nat, 6);
            }
            assert(pow10(6) == 1000000) by {
                reveal_with_fuel(pow10, 8);
            }
        }
        let d = u - 48;
        let old_val = val;
        val = val * 10 + d;
        proof {
            let pre = s@.subrange(from as int, i as int);
            let post = s@.subrange(from as int, i + 1);
            assert(post.drop_last() =~= pre);
            assert(post.last() == s@[i as int]);
            assert(digit_val(s@[i as int]) == d as int);
            assert(seq_val(post) == seq_val(pre) * 10 + d as int);
        }
        i = i + 1;
    }
    Some(val)
}

/// Parse an identifier string against the two grammars, modern first.
/// Anything matching neither (or naming no calendar month) is invalid.
pub fn parse(s: &str) -> (r: Result<Index, Error>)
    ensures
        r is Ok <==> modern_ok(s@) || legacy_ok(s@),
        r matches Ok(ix) ==> parse_post(s@, ix) && ix.wf(),
        r matches Err(e) ==> e == Error::InvalidIdentifier,
{
    let n = s.unicode_len();
    if (n == 9 || n == 10) && (s.get_char(4) as u32) == 46 {
        // A dot at position four: only the modern grammar can match, and
        // the legacy grammar cannot (its seven-digit tail would cover the
        // dot).
        proof {
            assert(s@[4] == '.');
            assert(!is_digit('.'));
            assert(!is_legacy(s@)) by {
                if is_legacy(s@) {
                    assert(s@.len() - 7 <= 4 < s@.len());
                    assert(is_digit(s@[4]));
                }
            }
        }
        let yy = scan_digits(s, 0, 2);
        let mm = scan_digits(s, 2, 4);
        let tail = scan_digits(s, 5, n);
        match (yy, mm, tail) {
            (Some(yy), Some(mm), Some(ti)) => {
                if 1 <= mm && mm <= 12 {
                    proof {
                        assert(is_modern(s@));
                        assert(modern_yy(s@) == yy as int);
                        assert(modern_month(s@) == mm as int);
                        assert(modern_seq(s@) == ti as int);
                        lemma_seq_val_bound(s@.subrange(0, 2));
                        assert(pow10(2) == 100) by {
                            reveal_with_fuel(pow10, 3);
                        }
                        lemma_seq_val_bound(s@.subrange(5, s@.len() as int));
                        assert(pow10(5) == 100000) by {
                            reveal_with_fuel(pow10, 6);
                        }
                        crate::digits::lemma_pow10_mono((s@.len() - 5) as nat, 5);
                    }
                    let year: u32 = if yy <= 68 {
                        2000 + yy
                    } else {
                        1900 + yy
                    };
                    Ok(Index::New { year, month: mm, idx: ti })
                } else {
                    proof {
                        assert(!modern_ok(s@));
                    }
                    Err(Error::InvalidIdentifier)
                }
            },
            _ => {
                proof {
                    assert(!is_modern(s@)) by {
                        if is_modern(s@) {
                            assert(forall|i: int| 0 <= i < 2 ==> is_digit(#[trigger] s@[i]));
                            assert(forall|i: int| 2 <= i < 4 ==> is_digit(#[trigger] s@[i]));
                            assert(forall|i: int|
                                5 <= i < s@.len() ==> is_digit(#[trigger] s@[i]));
                        }
                    }
                }
                Err(Error::InvalidIdentifier)
            },
        }
    } else {
        proof {
            assert(!is_modern(s@)) by {
                if is_modern(s@) {
                    assert(s@[4] == '.');
                    assert(s@[4] as u32 == 46);
                }
            }
        }
        if n >= 9 && (s.get_char(n - 8) as u32) == 47 {
            proof {
                assert(s@[s@.len() - 8] == '/');
            }
            let p = n - 8;
            let tail = scan_digits(s, n - 7, n);
            let pref_ok = check_subject_prefix(s, p);
            match tail {
                Some(ti) if pref_ok => {
                    let yy_d = scan_digits(s, n - 7, n - 5);
                    let mm_d = scan_digits(s, n - 5, n - 3);
                    let ix_d = scan_digits(s, n - 3, n);
                    proof {
                        assert(forall|i: int|
                            s@.len() - 7 <= i < s@.len() - 5 ==> is_digit(#[trigger] s@[i]));
                        assert(forall|i: int|
                            s@.len() - 5 <= i < s@.len() - 3 ==> is_digit(#[trigger] s@[i]));
                        assert(forall|i: int|
                            s@.len() - 3 <= i < s@.len() ==> is_digit(#[trigger] s@[i]));
                    }
                    let yy = yy_d.unwrap();
                    let mm = mm_d.unwrap();
                    let ix = ix_d.unwrap();
                    if 1 <= mm && mm <= 12 {
                        proof {
                            assert(is_legacy(s@));
                            lemma_seq_val_bound(s@.subrange(s@.len() - 7, s@.len() - 5));
                            lemma_seq_val_bound(s@.subrange(s@.len() - 3, s@.len() as int));
                            assert(pow10(2) == 100 && pow10(3) == 1000) by {
                                reveal_with_fuel(pow10, 4);
                            }
                        }
                        let year: u32 = if yy <= 68 {
                            2000 + yy
                        } else {
                            1900 + yy
                        };
                        let pref = s.substring_char(0, p);
                        let sub = Subject::from_string(pref);
                        Ok(Index::Old { year, month: mm, idx: ix, sub })
                    } else {
                        proof {
                            assert(!legacy_ok(s@));
                        }
                        Err(Error::InvalidIdentifier)
                    }
                },
                _ => {
                    proof {
                        if !pref_ok {
                            assert(!is_legacy(s@));
                        } else {
                            assert(!(forall|i: int|
                                s@.len() - 7 <= i < s@.len() ==> is_digit(#[trigger] s@[i])));
                            assert(!is_legacy(s@));
                        }
                    }
                    Err(Error::InvalidIdentifier)
                },
            }
        } else {
            proof {
                assert(!is_legacy(s@)) by {
                    if is_legacy(s@) {
                        assert(s@[s@.len() - 8] == '/');
                        assert(s@[s@.len() - 8] as u32 == 47);
                    }
                }
            }
            Err(Error::InvalidIdentifier)
        }
    }
}

/// Decide whether the first `p` characters form a subject prefix.
fn check_subject_prefix(s: &str, p: usize) -> (r: bool)
    requires
        p <= s@.len(),
    ensures
        r == is_subject_prefix(s@.subrange(0, p as int)),
{
    let pre = Ghost(s@.subrange(0, p as int));
    if p == 0 {
        proof {
            assert(!is_token(pre@));
            assert(!is_subject_prefix(pre@));
        }
        return false;
    }
    let mut i: usize = 0;
    let mut dot: Option<usize> = None;
    let mut ok = true;
    while i < p
        invariant
            0 < p <= s@.len(),
            pre@ == s@.subrange(0, p as int),
            0 <= i <= p,
            match dot {
                Some(k) => k < i && s@[k as int] == '.' && forall|j: int|
                    0 <= j < k ==> s@[j] != '.',
                None => forall|j: int| 0 <= j < i ==> s@[j] != '.',
            },
            ok <==> (forall|j: int|
                0 <= j < i && (dot matches Some(k) ==> j != k) ==> is_sub_char(#[trigger] s@[j])),
            !ok ==> (exists|j: int| 0 <= j < i && s@[j] != '.' && !is_sub_char(#[trigger] s@[j]))
                || (exists|j: int, k: int| 0 <= k < j < i && s@[j] == '.' && s@[k] == '.'),
        decreases p - i,
    {
        let c = s.get_char(i);
        let u = c as u32;
        if u == 46 {
            proof {
                assert(s@[i as int] == '.');
                assert(!is_sub_char('.'));
            }
            if dot.is_none() {
                dot = Some(i);
            } else {
                ok = false;
            }
        } else {
            proof {
                assert(s@[i as int] != '.');
            }
            let sub_ok = (97 <= u && u <= 122) || (65 <= u && u <= 90) || u == 45;
            proof {
                assert(sub_ok == is_sub_char(s@[i as int]));
            }
            if !sub_ok {
                ok = false;
            }
        }
        i = i + 1;
    }
    proof {
        assert(forall|j: int| 0 <= j < p ==> pre@[j] == s@[j]);
    }
    if !ok {
        proof {
            if exists|j: int| 0 <= j < p && s@[j] != '.' && !is_sub_char(#[trigger] s@[j]) {
                let j = choose|j: int| 0 <= j < p && s@[j] != '.' && !is_sub_char(#[trigger] s@[j]);
                assert(!is_token(pre@)) by {
                    assert(!is_sub_char(pre@[j]));
                }
                assert forall|k: int|
                    0 <= k < pre@.len() && pre@[k] == '.' implies !(is_token(pre@.subrange(0, k))
                    && is_token(pre@.subrange(k + 1, pre@.len() as int))) by {
                    assert(j != k);
                    if j < k {
                        assert(pre@.subrange(0, k)[j] == s@[j]);
                        assert(!is_sub_char(pre@.subrange(0, k)[j]));
                    } else {
                        assert(pre@.subrange(k + 1, pre@.len() as int)[j - k - 1] == s@[j]);
                        assert(!is_sub_char(pre@.subrange(k + 1, pre@.len() as int)[j - k - 1]));
                    }
                }
            } else {
                let (j, k) = choose|j: int, k: int|
                    0 <= k < j < p && s@[j] == '.' && s@[k] == '.';
                assert(!is_token(pre@)) by {
                    assert(!is_sub_char(pre@[j]));
                }
                assert forall|k2: int|
                    0 <= k2 < pre@.len() && pre@[k2] == '.' implies !(is_token(pre@.subrange(0, k2))
                    && is_token(pre@.subrange(k2 + 1, pre@.len() as int))) by {
                    if k2 < j {
                        assert(pre@.subrange(k2 + 1, pre@.len() as int)[j - k2 - 1] == s@[j]);
                        assert(!is_sub_char(pre@.subrange(k2 + 1, pre@.len() as int)[j - k2 - 1]));
                    } else {
                        assert(pre@.subrange(0, k2)[k] == s@[k]);
                        assert(!is_sub_char(pre@.subrange(0, k2)[k]));
                    }
                }
            }
            assert(!is_subject_prefix(pre@));
        }
        return false;
    }
    match dot {
        None => {
            proof {
                assert(is_token(pre@)) by {
                    assert(forall|j: int| 0 <= j < p ==> is_sub_char(#[trigger] s@[j]));
                }
            }
            true
        },
        Some(k) => {
            let r = 1 <= k && k + 1 < p;
            proof {
                let left = pre@.subrange(0, k as int);
                let right = pre@.subrange(k + 1, pre@.len() as int);
                assert(forall|j: int| 0 <= j < p && j != k ==> is_sub_char(#[trigger] s@[j]));
                assert(!is_token(pre@)) by {
                    assert(pre@[k as int] == '.');
                    assert(!is_sub_char(pre@[k as int]));
                }
                if r {
                    assert(forall|j: int| 0 <= j < left.len() ==> is_sub_char(#[trigger] left[j]));
                    assert(forall|j: int|
                        0 <= j < right.len() ==> is_sub_char(#[trigger] right[j]));
                    assert(is_token(left) && is_token(right));
                    assert(is_subject_prefix(pre@));
                } else {
                    assert(forall|k2: int|
                        0 <= k2 < pre@.len() && pre@[k2] == '.' ==> k2 == k) by {
                        assert(forall|j: int| 0 <= j < p && j != k ==> s@[j] != '.');
                    }
                    assert(!is_subject_prefix(pre@)) by {
                        if is_subject_prefix(pre@) {
                            let k2 = choose|k2: int|
                                0 <= k2 < pre@.len() && pre@[k2] == '.' && is_token(
                                    pre@.subrange(0, k2),
                                ) && is_token(pre@.subrange(k2 + 1, pre@.len() as int));
                            assert(k2 == k);
                            if k == 0 {
                                assert(!is_token(pre@.subrange(0, k2)));
                            } else {
                                assert(pre@.subrange(k2 + 1, pre@.len() as int).len() == 0);
                            }
                        }
                    }
                }
            }
            r
        },
    }
}

} // verus!
