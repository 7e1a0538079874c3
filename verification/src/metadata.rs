//! The structured metadata of one publication, as the detail-page
//! collaborator must yield it: title, ordered authors, abstract, subject
//! list and the one subject marked primary.

use vstd::prelude::*;
use vstd::string::StrSliceExecFns;

use crate::index::Index;
use crate::subject::{spec_from_string, Subject};

verus! {

/// One publication's metadata record.
#[derive(Debug)]
pub struct MetaData {
    pub index: Index,
    pub title: String,
    pub auth: Vec<String>,
    pub abs: String,
    pub sub: Vec<Subject>,
    pub prim_sub: Subject,
}

/// The canonical codes of a subject list, in order.
pub open spec fn sub_codes(subs: Seq<Subject>) -> Seq<Seq<char>>
    decreases subs.len(),
{
    if subs.len() == 0 {
        Seq::empty()
    } else {
        sub_codes(subs.drop_last()).push(subs.last().spec_code())
    }
}

pub proof fn lemma_sub_codes_len(subs: Seq<Subject>)
    ensures
        sub_codes(subs).len() == subs.len(),
        forall|k: int| 0 <= k < subs.len() ==> sub_codes(subs)[k] == subs[k].spec_code(),
    decreases subs.len(),
{
    if subs.len() > 0 {
        lemma_sub_codes_len(subs.drop_last());
    }
}

impl MetaData {
    /// A record the store can hold: a well-formed identifier and subjects
    /// whose codes can be produced.
    pub open spec fn wf(self) -> bool {
        &&& self.index.wf()
        &&& self.prim_sub.code_ok()
        &&& forall|i: int| 0 <= i < self.sub@.len() ==> self.sub@[i].code_ok()
    }

    /// Whether this record satisfies `wf`.
    pub fn is_wf(&self) -> (r: bool)
        ensures
            r == self.wf(),
    {
        if !self.index.is_wf() {
            return false;
        }
        if !self.prim_sub.has_code() {
            return false;
        }
        let mut i: usize = 0;
        while i < self.sub.len()
            invariant
                0 <= i <= self.sub@.len(),
                forall|k: int| 0 <= k < i ==> (#[trigger] self.sub@[k]).code_ok(),
            decreases self.sub@.len() - i,
        {
            if !self.sub[i].has_code() {
                return false;
            }
            i = i + 1;
        }
        true
    }
}

/// The position of the first `"; "` separator at or after `i`, or
/// `s.len()` when none follows.
pub open spec fn find_sep(s: Seq<char>, i: int) -> int
    decreases s.len() - i when 0 <= i <= s.len()
{
    if i + 1 >= s.len() {
        s.len() as int
    } else if s[i] == ';' && s[i + 1] == ' ' {
        i
    } else {
        find_sep(s, i + 1)
    }
}

/// The fields of `s` from `i` on, split on `"; "`.
pub open spec fn split_fields(s: Seq<char>, i: int) -> Seq<Seq<char>>
    decreases s.len() - i when 0 <= i <= s.len() via split_fields_decreases
{
    let p = find_sep(s, i);
    if p >= s.len() {
        seq![s.subrange(i, s.len() as int)]
    } else {
        seq![s.subrange(i, p)] + split_fields(s, p + 2)
    }
}

#[via_fn]
proof fn split_fields_decreases(s: Seq<char>, i: int) {
    lemma_find_sep_range(s, i);
}

pub proof fn lemma_find_sep_range(s: Seq<char>, i: int)
    requires
        0 <= i <= s.len(),
    ensures
        i <= find_sep(s, i) <= s.len(),
        find_sep(s, i) < s.len() ==> find_sep(s, i) + 2 <= s.len(),
    decreases s.len() - i,
{
    if i + 1 >= s.len() {
    } else if s[i] == ';' && s[i + 1] == ' ' {
    } else {
        lemma_find_sep_range(s, i + 1);
    }
}

/// Scan for the first `"; "` separator at or after `from`.
fn scan_sep(s: &str, from: usize) -> (r: usize)
    requires
        from <= s@.len(),
    ensures
        r == find_sep(s@, from as int),
        from <= r <= s@.len(),
        r < s@.len() ==> r + 2 <= s@.len(),
{
    let n = s.unicode_len();
    let mut i: usize = from;
    while n - i > 1 && !(s.get_char(i) == ';' && s.get_char(i + 1) == ' ')
        invariant
            n == s@.len(),
            from <= i <= n,
            find_sep(s@, from as int) == find_sep(s@, i as int),
        decreases n - i,
    {
        i = i + 1;
    }
    proof {
        lemma_find_sep_range(s@, from as int);
    }
    if n - i > 1 {
        i
    } else {
        n
    }
}

/// Resolve each `"; "`-separated field of `s` from `start` on, appending
/// the subjects to `out` in field order.
fn push_subjects(s: &str, start: usize, out: &mut Vec<Subject>)
    requires
        start <= s@.len(),
    ensures
        final(out)@.len() == old(out)@.len() + split_fields(s@, start as int).len(),
        forall|k: int| 0 <= k < old(out)@.len() ==> final(out)@[k] == old(out)@[k],
        forall|k: int|
            0 <= k < split_fields(s@, start as int).len() ==> spec_from_string(
                split_fields(s@, start as int)[k],
                #[trigger] final(out)@[old(out)@.len() + k],
            ),
    decreases s@.len() - start,
{
    let n = s.unicode_len();
    let p = scan_sep(s, start);
    if p >= n {
        out.push(Subject::from_string(s.substring_char(start, n)));
        proof {
            assert(split_fields(s@, start as int) == seq![
                s@.subrange(start as int, s@.len() as int),
            ]);
        }
    } else {
        out.push(Subject::from_string(s.substring_char(start, p)));
        let ghost mid = out@;
        push_subjects(s, p + 2, out);
        proof {
            let split0 = split_fields(s@, start as int);
            let rest = split_fields(s@, p + 2);
            assert(split0 == seq![s@.subrange(start as int, p as int)] + rest);
            assert forall|k: int|
                0 <= k < split0.len() implies spec_from_string(
                split0[k],
                out@[old(out)@.len() + k],
            ) by {
                if k == 0 {
                    assert(split0[0] == s@.subrange(start as int, p as int));
                    assert(out@[old(out)@.len() as int] == mid[old(out)@.len() as int]);
                } else {
                    assert(split0[k] == rest[k - 1]);
                    assert(spec_from_string(rest[k - 1], out@[mid.len() + (k - 1)]));
                    assert(mid.len() + (k - 1) == old(out)@.len() + k);
                }
            }
        }
    }
}

/// Split a detail page's subject cell on its fixed `"; "` delimiter and
/// resolve each field through the catalog.
pub fn parse_subject_list(s: &str) -> (r: Vec<Subject>)
    ensures
        r@.len() == split_fields(s@, 0).len(),
        forall|k: int|
            0 <= k < r@.len() ==> spec_from_string(split_fields(s@, 0)[k], #[trigger] r@[k]),
{
    let mut out: Vec<Subject> = Vec::new();
    push_subjects(s, 0, &mut out);
    proof {
        assert forall|k: int| 0 <= k < out@.len() implies spec_from_string(
            split_fields(s@, 0)[k],
            out@[k],
        ) by {
            assert(spec_from_string(split_fields(s@, 0)[k], out@[0 + k]));
        }
    }
    out
}

/// Clone a list of author names, keeping the values.
pub fn clone_strings(v: &Vec<String>) -> (r: Vec<String>)
    ensures
        r@ == v@,
{
    let mut out: Vec<String> = Vec::new();
    let mut i: usize = 0;
    while i < v.len()
        invariant
            i <= v@.len(),
            out@ == v@.subrange(0, i as int),
        decreases v@.len() - i,
    {
        out.push(v[i].clone());
        proof {
            assert(out@ =~= v@.subrange(0, i + 1));
        }
        i = i + 1;
    }
    proof {
        assert(v@.subrange(0, v@.len() as int) =~= v@);
    }
    out
}

/// Clone a subject list, keeping the values.
pub fn clone_subjects(v: &Vec<Subject>) -> (r: Vec<Subject>)
    ensures
        r@ == v@,
{
    let mut out: Vec<Subject> = Vec::new();
    let mut i: usize = 0;
    while i < v.len()
        invariant
            i <= v@.len(),
            out@ == v@.subrange(0, i as int),
        decreases v@.len() - i,
    {
        out.push(v[i].clone());
        proof {
            assert(out@ =~= v@.subrange(0, i + 1));
        }
        i = i + 1;
    }
    proof {
        assert(v@.subrange(0, v@.len() as int) =~= v@);
    }
    out
}

impl Clone for MetaData {
    fn clone(&self) -> (r: Self)
        ensures
            r.index == self.index,
            r.title == self.title,
            r.auth@ == self.auth@,
            r.abs == self.abs,
            r.sub@ == self.sub@,
            r.prim_sub == self.prim_sub,
    {
        MetaData {
            index: self.index.clone(),
            title: self.title.clone(),
            auth: clone_strings(&self.auth),
            abs: self.abs.clone(),
            sub: clone_subjects(&self.sub),
            prim_sub: self.prim_sub.clone(),
        }
    }
}

} // verus!
