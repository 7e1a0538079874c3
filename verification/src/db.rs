//! The persistence store: five relations keyed by the canonical
//! identifier string, with the invariants the rest of the system rests
//! on — unique paper keys, unique relation rows, referential integrity,
//! and a per-subject watermark that never decreases.

use vstd::prelude::*;
use vstd::pervasive::VecAdditionalExecFns;

use crate::errors::Error;
use crate::index::Index;
use crate::metadata::{sub_codes, MetaData};
use crate::pin::Pin;
use crate::strutil::str_eq;
use crate::subject::{spec_from_string, Subject};

verus! {

/// One row of the paper relation.
#[derive(Debug)]
pub struct PaperRow {
    pub arxiv_id: String,
    pub title: String,
    pub abstract_: String,
    pub prim_sub: String,
}

/// One row of the author relation; unique per (identifier, name).
#[derive(Debug)]
pub struct AuthorRow {
    pub arxiv_id: String,
    pub auth: String,
}

/// One row of the subject-tag relation; unique per (identifier, code).
#[derive(Debug)]
pub struct SubjectRow {
    pub arxiv_id: String,
    pub sub: String,
}

/// One row of the pin relation; `ref_id` chains to an earlier pin.
#[derive(Debug)]
pub struct PinRow {
    pub id: String,
    pub ref_id: Option<String>,
    pub arxiv_id: String,
    pub published_at: i64,
}

/// One row of the watermark relation: the latest feed batch fully
/// processed for a subject.
#[derive(Debug)]
pub struct TimeRow {
    pub subject: String,
    pub rss_time: i64,
}

/// The store: every relation held in insertion order.
#[derive(Debug)]
pub struct Store {
    pub papers: Vec<PaperRow>,
    pub authors: Vec<AuthorRow>,
    pub subjects: Vec<SubjectRow>,
    pub pins: Vec<PinRow>,
    pub update_time: Vec<TimeRow>,
}

/// The author names recorded for `id`, in insertion order.
pub open spec fn author_entries(rows: Seq<AuthorRow>, id: Seq<char>) -> Seq<String>
    decreases rows.len(),
{
    if rows.len() == 0 {
        Seq::empty()
    } else {
        let init = author_entries(rows.drop_last(), id);
        if rows.last().arxiv_id@ == id {
            init.push(rows.last().auth)
        } else {
            init
        }
    }
}

/// The subject codes recorded for `id`, in insertion order.
pub open spec fn subject_entries(rows: Seq<SubjectRow>, id: Seq<char>) -> Seq<Seq<char>>
    decreases rows.len(),
{
    if rows.len() == 0 {
        Seq::empty()
    } else {
        let init = subject_entries(rows.drop_last(), id);
        if rows.last().arxiv_id@ == id {
            init.push(rows.last().sub@)
        } else {
            init
        }
    }
}

/// The watermark stored for a subject code, or the sentinel epoch `0`
/// when the subject has no recorded events.
pub open spec fn wm_of(rows: Seq<TimeRow>, code: Seq<char>) -> int
    decreases rows.len(),
{
    if rows.len() == 0 {
        0
    } else if rows.last().subject@ == code {
        rows.last().rss_time as int
    } else {
        wm_of(rows.drop_last(), code)
    }
}

/// The first pin recorded for `id`, if any.
pub open spec fn first_pin_from(rows: Seq<PinRow>, id: Seq<char>, i: int) -> Option<PinRow>
    decreases rows.len() - i when 0 <= i <= rows.len()
{
    if i >= rows.len() {
        None
    } else if rows[i].arxiv_id@ == id {
        Some(rows[i])
    } else {
        first_pin_from(rows, id, i + 1)
    }
}

impl Store {
    pub open spec fn has_paper(self, id: Seq<char>) -> bool {
        exists|i: int| 0 <= i < self.papers@.len() && self.papers@[i].arxiv_id@ == id
    }

    pub open spec fn paper_at(self, id: Seq<char>) -> int {
        choose|i: int| 0 <= i < self.papers@.len() && self.papers@[i].arxiv_id@ == id
    }

    pub open spec fn paper_row(self, id: Seq<char>) -> PaperRow {
        self.papers@[self.paper_at(id)]
    }

    pub open spec fn has_pin(self, pid: Seq<char>) -> bool {
        exists|i: int| 0 <= i < self.pins@.len() && self.pins@[i].id@ == pid
    }

    pub open spec fn spec_watermark(self, code: Seq<char>) -> int {
        wm_of(self.update_time@, code)
    }

    /// The store's invariant: unique keys, unique relation rows, and
    /// every relation row referring to an existing paper (pins may also
    /// chain back to an earlier pin).
    pub open spec fn wf(self) -> bool {
        &&& forall|i: int, j: int|
            0 <= i < j < self.papers@.len() ==> self.papers@[i].arxiv_id@
                != self.papers@[j].arxiv_id@
        &&& forall|i: int|
            0 <= i < self.authors@.len() ==> self.has_paper(#[trigger] self.authors@[i].arxiv_id@)
        &&& forall|i: int, j: int|
            0 <= i < j < self.authors@.len() ==> !(self.authors@[i].arxiv_id@
                == self.authors@[j].arxiv_id@ && self.authors@[i].auth@
                == self.authors@[j].auth@)
        &&& forall|i: int|
            0 <= i < self.subjects@.len() ==> self.has_paper(#[trigger] self.subjects@[i].arxiv_id@)
        &&& forall|i: int, j: int|
            0 <= i < j < self.subjects@.len() ==> !(self.subjects@[i].arxiv_id@
                == self.subjects@[j].arxiv_id@ && self.subjects@[i].sub@
                == self.subjects@[j].sub@)
        &&& forall|i: int|
            0 <= i < self.pins@.len() ==> self.has_paper(#[trigger] self.pins@[i].arxiv_id@)
        &&& forall|i: int, j: int|
            0 <= i < j < self.pins@.len() ==> self.pins@[i].id@ != self.pins@[j].id@
        &&& forall|i: int|
            0 <= i < self.pins@.len() ==> ((#[trigger] self.pins@[i].ref_id) matches Some(rid)
                ==> exists|j: int| 0 <= j < i && self.pins@[j].id@ == rid@)
        &&& forall|i: int, j: int|
            0 <= i < j < self.update_time@.len() ==> self.update_time@[i].subject@
                != self.update_time@[j].subject@
    }

    /// A fresh, empty store.
    pub fn new() -> (r: Store)
        ensures
            r.wf(),
            r.papers@.len() == 0,
            r.authors@.len() == 0,
            r.subjects@.len() == 0,
            r.pins@.len() == 0,
            r.update_time@.len() == 0,
    {
        Store {
            papers: Vec::new(),
            authors: Vec::new(),
            subjects: Vec::new(),
            pins: Vec::new(),
            update_time: Vec::new(),
        }
    }

    /// The watermark for a subject: the stored timestamp, or the sentinel
    /// epoch when the subject has no recorded events.
    pub fn last(&self, sub: &Subject) -> (r: i64)
        requires
            self.wf(),
            sub.code_ok(),
        ensures
            r == self.spec_watermark(sub.spec_code()),
    {
        let code = sub.as_str();
        let n = self.update_time.len();
        let mut i: usize = 0;
        while i < n
            invariant
                n == self.update_time@.len(),
                0 <= i <= n,
                code@ == sub.spec_code(),
                forall|j: int| 0 <= j < i ==> self.update_time@[j].subject@ != code@,
                self.wf(),
            decreases n - i,
        {
            if str_eq(self.update_time[i].subject.as_str(), code) {
                proof {
                    lemma_wm_lookup(self.update_time@, code@, i as int);
                }
                return self.update_time[i].rss_time;
            }
            i = i + 1;
        }
        proof {
            lemma_wm_absent(self.update_time@, code@);
        }
        0
    }
}

/// The conditions under which `insert_paper` accepts a record: a fresh
/// key, and no duplicate author or subject rows within the record.
pub open spec fn insert_accepts(s: Store, md: MetaData) -> bool {
    &&& !s.has_paper(md.index.spec_format())
    &&& forall|i: int, j: int| 0 <= i < j < md.auth@.len() ==> md.auth@[i]@ != md.auth@[j]@
    &&& forall|i: int, j: int|
        0 <= i < j < md.sub@.len() ==> md.sub@[i].spec_code() != md.sub@[j].spec_code()
}

/// What holds after a successful `insert_paper`: one new paper row, the
/// record's author and subject rows in input order, everything else
/// untouched, and the watermark advanced exactly when the batch
/// timestamp is newer.
pub open spec fn insert_post(s1: Store, s2: Store, subj: Subject, md: MetaData, tm: i64) -> bool {
    let id = md.index.spec_format();
    &&& s2.papers@.len() == s1.papers@.len() + 1
    &&& s2.papers@.subrange(0, s1.papers@.len() as int) == s1.papers@
    &&& s2.papers@.last().arxiv_id@ == id
    &&& s2.papers@.last().title == md.title
    &&& s2.papers@.last().abstract_ == md.abs
    &&& s2.papers@.last().prim_sub@ == md.prim_sub.spec_code()
    &&& author_entries(s2.authors@, id) == md.auth@
    &&& forall|o: Seq<char>|
        o != id ==> #[trigger] author_entries(s2.authors@, o) == author_entries(s1.authors@, o)
    &&& subject_entries(s2.subjects@, id) == sub_codes(md.sub@)
    &&& forall|o: Seq<char>|
        o != id ==> #[trigger] subject_entries(s2.subjects@, o) == subject_entries(s1.subjects@, o)
    &&& s2.pins@ == s1.pins@
    &&& forall|c: Seq<char>|
        #[trigger] s2.spec_watermark(c) == if c == subj.spec_code() && tm > s1.spec_watermark(c) {
            tm as int
        } else {
            s1.spec_watermark(c)
        }
    &&& forall|x: Seq<char>| #[trigger] s2.has_paper(x) <==> (s1.has_paper(x) || x == id)
}

/// Whether some value occurs twice in the list.
fn has_dup_strings(v: &Vec<String>) -> (r: bool)
    ensures
        r == exists|i: int, j: int| 0 <= i < j < v@.len() && v@[i]@ == v@[j]@,
{
    let n = v.len();
    let mut i: usize = 0;
    while i < n
        invariant
            n == v@.len(),
            0 <= i <= n,
            forall|a: int, b: int| 0 <= a < b < v@.len() && b < i ==> v@[a]@ != v@[b]@,
        decreases n - i,
    {
        let mut j: usize = 0;
        while j < i
            invariant
                n == v@.len(),
                0 <= j <= i < n,
                forall|a: int| 0 <= a < j ==> v@[a]@ != v@[i as int]@,
            decreases i - j,
        {
            if str_eq(v[j].as_str(), v[i].as_str()) {
                return true;
            }
            j = j + 1;
        }
        i = i + 1;
    }
    false
}

/// A relation in which no row carries `id` records nothing for it.
proof fn lemma_author_entries_absent(rows: Seq<AuthorRow>, id: Seq<char>)
    requires
        forall|j: int| 0 <= j < rows.len() ==> rows[j].arxiv_id@ != id,
    ensures
        author_entries(rows, id) == Seq::<String>::empty(),
    decreases rows.len(),
{
    if rows.len() > 0 {
        lemma_author_entries_absent(rows.drop_last(), id);
    }
}

proof fn lemma_subject_entries_absent(rows: Seq<SubjectRow>, id: Seq<char>)
    requires
        forall|j: int| 0 <= j < rows.len() ==> rows[j].arxiv_id@ != id,
    ensures
        subject_entries(rows, id) == Seq::<Seq<char>>::empty(),
    decreases rows.len(),
{
    if rows.len() > 0 {
        lemma_subject_entries_absent(rows.drop_last(), id);
    }
}

impl Store {
    /// The position of the paper row keyed by `id`, if stored.
    fn find_paper(&self, id: &str) -> (r: Option<usize>)
        ensures
            match r {
                Some(i) => i < self.papers@.len() && self.papers@[i as int].arxiv_id@ == id@,
                None => !self.has_paper(id@),
            },
    {
        let n = self.papers.len();
        let mut i: usize = 0;
        while i < n
            invariant
                n == self.papers@.len(),
                0 <= i <= n,
                forall|j: int| 0 <= j < i ==> self.papers@[j].arxiv_id@ != id@,
            decreases n - i,
        {
            if str_eq(self.papers[i].arxiv_id.as_str(), id) {
                return Some(i);
            }
            i = i + 1;
        }
        None
    }

    /// The position of the watermark row for `code`, if stored.
    fn find_time_row(&self, code: &str) -> (r: Option<usize>)
        ensures
            match r {
                Some(i) => i < self.update_time@.len() && self.update_time@[i as int].subject@
                    == code@,
                None => forall|j: int|
                    0 <= j < self.update_time@.len() ==> self.update_time@[j].subject@ != code@,
            },
    {
        let n = self.update_time.len();
        let mut i: usize = 0;
        while i < n
            invariant
                n == self.update_time@.len(),
                0 <= i <= n,
                forall|j: int| 0 <= j < i ==> self.update_time@[j].subject@ != code@,
            decreases n - i,
        {
            if str_eq(self.update_time[i].subject.as_str(), code) {
                return Some(i);
            }
            i = i + 1;
        }
        None
    }

    /// Advance the watermark of `subj` to `tm` when `tm` is strictly
    /// newer than the stored value; otherwise leave it alone. No other
    /// relation is touched.
    fn advance_watermark(&mut self, subj: &Subject, tm: i64)
        requires
            old(self).wf(),
            subj.code_ok(),
        ensures
            final(self).wf(),
            final(self).papers == old(self).papers,
            final(self).authors == old(self).authors,
            final(self).subjects == old(self).subjects,
            final(self).pins == old(self).pins,
            forall|c: Seq<char>|
                #[trigger] final(self).spec_watermark(c) == if c == subj.spec_code() && tm > old(
                    self,
                ).spec_watermark(c) {
                    tm as int
                } else {
                    old(self).spec_watermark(c)
                },
    {
        let cur = self.last(subj);
        if tm <= cur {
            return ;
        }
        let code_owned = subj.as_str().to_owned();
        let ghost rows1 = self.update_time@;
        match self.find_time_row(code_owned.as_str()) {
            Some(i) => {
                let row = TimeRow { subject: code_owned, rss_time: tm };
                let ghost rowg = row;
                self.update_time.set(i, row);
                proof {
                    assert forall|c: Seq<char>|
                        #[trigger] wm_of(self.update_time@, c) == if c == subj.spec_code() {
                            tm as int
                        } else {
                            wm_of(rows1, c)
                        } by {
                        lemma_wm_update(rows1, i as int, rowg, c);
                    }
                }
            },
            None => {
                self.update_time.push(TimeRow { subject: code_owned, rss_time: tm });
                proof {
                    assert forall|c: Seq<char>|
                        #[trigger] wm_of(self.update_time@, c) == if c == subj.spec_code() {
                            tm as int
                        } else {
                            wm_of(rows1, c)
                        } by {
                        assert(self.update_time@.drop_last() =~= rows1);
                    }
                }
            },
        }
    }

    /// Write one record: the paper row, an author row per name in input
    /// order, a subject row per code, and — only when the batch
    /// timestamp is strictly newer than the stored watermark for
    /// `subj` — the advanced watermark. The whole write applies as one
    /// unit: on any rejection the store is unchanged.
    pub fn insert_paper(&mut self, subj: &Subject, md: &MetaData, tm: i64) -> (r: Result<
        (),
        Error,
    >)
        requires
            old(self).wf(),
            md.wf(),
            subj.code_ok(),
        ensures
            final(self).wf(),
            match r {
                Ok(_) => insert_accepts(*old(self), *md) && insert_post(
                    *old(self),
                    *final(self),
                    *subj,
                    *md,
                    tm,
                ),
                Err(e) => {
                    &&& e == Error::PersistenceFailure
                    &&& *final(self) == *old(self)
                    &&& !insert_accepts(*old(self), *md)
                },
            },
    {
        let id = md.index.format();
        if self.find_paper(id.as_str()).is_some() {
            return Err(Error::PersistenceFailure);
        }
        if has_dup_strings(&md.auth) {
            return Err(Error::PersistenceFailure);
        }
        let mut codes: Vec<String> = Vec::new();
        let mut k: usize = 0;
        while k < md.sub.len()
            invariant
                0 <= k <= md.sub@.len(),
                codes@.len() == k,
                forall|a: int| 0 <= a < k ==> codes@[a]@ == md.sub@[a].spec_code(),
                md.wf(),
            decreases md.sub@.len() - k,
        {
            codes.push(md.sub[k].as_str().to_owned());
            k = k + 1;
        }
        if has_dup_strings(&codes) {
            return Err(Error::PersistenceFailure);
        }
        let ghost s1 = *self;
        let ghost idv = md.index.spec_format();
        proof {
            assert(!s1.has_paper(idv));
            assert forall|i: int, j: int| 0 <= i < j < md.sub@.len() implies md.sub@[i].spec_code()
                != md.sub@[j].spec_code() by {
                assert(codes@[i]@ == md.sub@[i].spec_code());
                assert(codes@[j]@ == md.sub@[j].spec_code());
            }
            assert(insert_accepts(s1, *md));
            assert(forall|j: int|
                0 <= j < s1.authors@.len() ==> (#[trigger] s1.authors@[j].arxiv_id@) != idv);
            assert(forall|j: int|
                0 <= j < s1.subjects@.len() ==> (#[trigger] s1.subjects@[j].arxiv_id@) != idv);
            lemma_author_entries_absent(s1.authors@, idv);
            lemma_subject_entries_absent(s1.subjects@, idv);
        }
        // the watermark first: it touches no other relation
        self.advance_watermark(subj, tm);
        let ghost swm = *self;
        // the paper row
        self.papers.push(
            PaperRow {
                arxiv_id: id.clone(),
                title: md.title.clone(),
                abstract_: md.abs.clone(),
                prim_sub: md.prim_sub.as_str().to_owned(),
            },
        );
        let ghost s2 = *self;
        proof {
            assert forall|c: Seq<char>|
                #[trigger] s2.spec_watermark(c) == if c == subj.spec_code() && tm
                    > s1.spec_watermark(c) {
                    tm as int
                } else {
                    s1.spec_watermark(c)
                } by {
                assert(s2.update_time@ == swm.update_time@);
                assert(swm.spec_watermark(c) == if c == subj.spec_code() && tm
                    > s1.spec_watermark(c) {
                    tm as int
                } else {
                    s1.spec_watermark(c)
                });
            }
            assert(s2.papers@.drop_last() =~= s1.papers@);
            assert(s2.papers@.subrange(0, s1.papers@.len() as int) =~= s1.papers@);
            assert(s2.papers@.last().arxiv_id@ == idv);
            assert forall|x: Seq<char>| #[trigger] s2.has_paper(x) <==> (s1.has_paper(x) || x
                == idv) by {
                if s2.has_paper(x) {
                    let i = choose|i: int|
                        0 <= i < s2.papers@.len() && s2.papers@[i].arxiv_id@ == x;
                    if i < s1.papers@.len() {
                        assert(s1.papers@[i] == s2.papers@[i]);
                        assert(s1.has_paper(x));
                    }
                }
                if s1.has_paper(x) {
                    let i = choose|i: int|
                        0 <= i < s1.papers@.len() && s1.papers@[i].arxiv_id@ == x;
                    assert(s2.papers@[i].arxiv_id@ == x);
                }
                if x == idv {
                    assert(s2.papers@[s2.papers@.len() - 1].arxiv_id@ == x);
                }
            }
        }
        // the author rows, in input order
        let mut a: usize = 0;
        while a < md.auth.len()
            invariant
                0 <= a <= md.auth@.len(),
                self.authors@.len() == s2.authors@.len() + a,
                self.authors@.subrange(0, s2.authors@.len() as int) == s2.authors@,
                forall|j: int|
                    0 <= j < a ==> (#[trigger] self.authors@[s2.authors@.len() + j]).arxiv_id@
                        == idv && self.authors@[s2.authors@.len() + j].auth == md.auth@[j],
                self.papers == s2.papers,
                self.subjects == s2.subjects,
                self.pins == s2.pins,
                self.update_time == s2.update_time,
                idv == md.index.spec_format(),
                id@ == idv,
            decreases md.auth@.len() - a,
        {
            self.authors.push(AuthorRow { arxiv_id: id.clone(), auth: md.auth[a].clone() });
            proof {
                assert(self.authors@.subrange(0, s2.authors@.len() as int)
                    =~= self.authors@.drop_last().subrange(0, s2.authors@.len() as int));
            }
            a = a + 1;
        }
        proof {
            lemma_entries_append_authors(self.authors@, s2.authors@, idv, md.auth@);
        }
        // the subject rows, in input order
        let ghost s3 = *self;
        let mut c: usize = 0;
        while c < codes.len()
            invariant
                0 <= c <= codes@.len(),
                codes@.len() == md.sub@.len(),
                forall|a2: int| 0 <= a2 < codes@.len() ==> codes@[a2]@ == md.sub@[a2].spec_code(),
                self.subjects@.len() == s3.subjects@.len() + c,
                self.subjects@.subrange(0, s3.subjects@.len() as int) == s3.subjects@,
                forall|j: int|
                    0 <= j < c ==> (#[trigger] self.subjects@[s3.subjects@.len() + j]).arxiv_id@
                        == idv && self.subjects@[s3.subjects@.len() + j].sub@ == codes@[j]@,
                self.papers == s3.papers,
                self.authors == s3.authors,
                self.pins == s3.pins,
                self.update_time == s3.update_time,
                idv == md.index.spec_format(),
                id@ == idv,
            decreases codes@.len() - c,
        {
            self.subjects.push(SubjectRow { arxiv_id: id.clone(), sub: codes[c].clone() });
            proof {
                assert(self.subjects@.subrange(0, s3.subjects@.len() as int)
                    =~= self.subjects@.drop_last().subrange(0, s3.subjects@.len() as int));
            }
            c = c + 1;
        }
        proof {
            crate::metadata::lemma_sub_codes_len(md.sub@);
            assert(codes@.map_values(|x: String| x@) =~= sub_codes(md.sub@));
            lemma_entries_append_subjects(self.subjects@, s3.subjects@, idv, sub_codes(md.sub@));
            lemma_insert_shape(s1, s2, s3, *self, *subj, *md, tm, idv);
        }
        Ok(())
    }
}

/// Appending rows that all carry `id` extends `id`'s entries by exactly
/// those rows and leaves every other identifier's entries alone.
proof fn lemma_entries_append_authors(
    rows: Seq<AuthorRow>,
    base: Seq<AuthorRow>,
    id: Seq<char>,
    names: Seq<String>,
)
    requires
        rows.len() == base.len() + names.len(),
        rows.subrange(0, base.len() as int) == base,
        forall|j: int|
            0 <= j < names.len() ==> (#[trigger] rows[base.len() + j]).arxiv_id@ == id
                && rows[base.len() + j].auth == names[j],
    ensures
        author_entries(rows, id) == author_entries(base, id) + names,
        forall|o: Seq<char>|
            o != id ==> #[trigger] author_entries(rows, o) == author_entries(base, o),
    decreases names.len(),
{
    if names.len() == 0 {
        assert(rows =~= base);
        assert(author_entries(base, id) + names =~= author_entries(base, id));
    } else {
        let rows0 = rows.drop_last();
        assert(rows0.subrange(0, base.len() as int) =~= base);
        lemma_entries_append_authors(rows0, base, id, names.drop_last());
        assert(rows.last() == rows[base.len() + names.len() - 1]);
        assert(rows.last().arxiv_id@ == id);
        assert(author_entries(rows, id) == author_entries(rows0, id).push(rows.last().auth));
        assert(author_entries(base, id) + names.drop_last() + seq![names.last()] =~= author_entries(
            base,
            id,
        ) + names);
        assert(author_entries(rows0, id).push(rows.last().auth) =~= author_entries(rows0, id)
            + seq![names.last()]);
        assert forall|o: Seq<char>| o != id implies #[trigger] author_entries(rows, o)
            == author_entries(base, o) by {
            assert(author_entries(rows, o) == author_entries(rows0, o));
        }
    }
}

proof fn lemma_entries_append_subjects(
    rows: Seq<SubjectRow>,
    base: Seq<SubjectRow>,
    id: Seq<char>,
    tags: Seq<Seq<char>>,
)
    requires
        rows.len() == base.len() + tags.len(),
        rows.subrange(0, base.len() as int) == base,
        forall|j: int|
            0 <= j < tags.len() ==> (#[trigger] rows[base.len() + j]).arxiv_id@ == id
                && rows[base.len() + j].sub@ == tags[j],
    ensures
        subject_entries(rows, id) == subject_entries(base, id) + tags,
        forall|o: Seq<char>|
            o != id ==> #[trigger] subject_entries(rows, o) == subject_entries(base, o),
    decreases tags.len(),
{
    if tags.len() == 0 {
        assert(rows =~= base);
        assert(subject_entries(base, id) + tags =~= subject_entries(base, id));
    } else {
        let rows0 = rows.drop_last();
        assert(rows0.subrange(0, base.len() as int) =~= base);
        lemma_entries_append_subjects(rows0, base, id, tags.drop_last());
        assert(rows.last() == rows[base.len() + tags.len() - 1]);
        assert(rows.last().arxiv_id@ == id);
        assert(subject_entries(rows, id) == subject_entries(rows0, id).push(rows.last().sub@));
        assert(subject_entries(base, id) + tags.drop_last() + seq![tags.last()]
            =~= subject_entries(base, id) + tags);
        assert(subject_entries(rows0, id).push(rows.last().sub@) =~= subject_entries(rows0, id)
            + seq![tags.last()]);
        assert forall|o: Seq<char>| o != id implies #[trigger] subject_entries(rows, o)
            == subject_entries(base, o) by {
            assert(subject_entries(rows, o) == subject_entries(rows0, o));
        }
    }
}

/// The final bookkeeping of `insert_paper`: from the staged states, the
/// post-state is well-formed and satisfies the insert contract.
proof fn lemma_insert_shape(
    s1: Store,
    s2: Store,
    s3: Store,
    s4: Store,
    subj: Subject,
    md: MetaData,
    tm: i64,
    idv: Seq<char>,
)
    requires
        s1.wf(),
        md.wf(),
        subj.code_ok(),
        insert_accepts(s1, md),
        idv == md.index.spec_format(),
        // s2: s1 plus the watermark change and the paper row
        s2.papers@.len() == s1.papers@.len() + 1,
        s2.papers@.subrange(0, s1.papers@.len() as int) == s1.papers@,
        s2.papers@.last().arxiv_id@ == idv,
        s2.papers@.last().title == md.title,
        s2.papers@.last().abstract_ == md.abs,
        s2.papers@.last().prim_sub@ == md.prim_sub.spec_code(),
        s2.authors == s1.authors,
        s2.subjects == s1.subjects,
        s2.pins == s1.pins,
        forall|c: Seq<char>|
            #[trigger] s2.spec_watermark(c) == if c == subj.spec_code() && tm > s1.spec_watermark(c) {
                tm as int
            } else {
                s1.spec_watermark(c)
            },
        forall|i: int, j: int|
            0 <= i < j < s2.update_time@.len() ==> s2.update_time@[i].subject@
                != s2.update_time@[j].subject@,
        forall|x: Seq<char>| #[trigger] s2.has_paper(x) <==> (s1.has_paper(x) || x == idv),
        // s3: s2 plus the author rows
        s3.authors@.len() == s2.authors@.len() + md.auth@.len(),
        s3.authors@.subrange(0, s2.authors@.len() as int) == s2.authors@,
        forall|j: int|
            0 <= j < md.auth@.len() ==> (#[trigger] s3.authors@[s2.authors@.len() + j]).arxiv_id@
                == idv && s3.authors@[s2.authors@.len() + j].auth == md.auth@[j],
        s3.papers == s2.papers,
        s3.subjects == s2.subjects,
        s3.pins == s2.pins,
        s3.update_time == s2.update_time,
        author_entries(s3.authors@, idv) == author_entries(s2.authors@, idv) + md.auth@,
        forall|o: Seq<char>|
            o != idv ==> #[trigger] author_entries(s3.authors@, o) == author_entries(
                s2.authors@,
                o,
            ),
        // s4: s3 plus the subject rows
        s4.subjects@.len() == s3.subjects@.len() + md.sub@.len(),
        s4.subjects@.subrange(0, s3.subjects@.len() as int) == s3.subjects@,
        forall|j: int|
            0 <= j < md.sub@.len() ==> (#[trigger] s4.subjects@[s3.subjects@.len() + j]).arxiv_id@
                == idv && s4.subjects@[s3.subjects@.len() + j].sub@ == sub_codes(md.sub@)[j],
        s4.papers == s3.papers,
        s4.authors == s3.authors,
        s4.pins == s3.pins,
        s4.update_time == s3.update_time,
        subject_entries(s4.subjects@, idv) == subject_entries(s3.subjects@, idv) + sub_codes(
            md.sub@,
        ),
        forall|o: Seq<char>|
            o != idv ==> #[trigger] subject_entries(s4.subjects@, o) == subject_entries(
                s3.subjects@,
                o,
            ),
        author_entries(s1.authors@, idv) == Seq::<String>::empty(),
        subject_entries(s1.subjects@, idv) == Seq::<Seq<char>>::empty(),
    ensures
        s4.wf(),
        insert_post(s1, s4, subj, md, tm),
{
    crate::metadata::lemma_sub_codes_len(md.sub@);
    assert(s2.authors@ == s1.authors@ && s2.subjects@ == s1.subjects@ && s2.pins@ == s1.pins@);
    assert(s3.papers@ == s2.papers@ && s3.subjects@ == s2.subjects@ && s3.pins@ == s2.pins@);
    assert(s4.papers@ == s3.papers@ && s4.authors@ == s3.authors@ && s4.pins@ == s3.pins@);
    assert(s4.update_time@ == s2.update_time@);
    assert(author_entries(s4.authors@, idv) =~= md.auth@);
    assert(subject_entries(s4.subjects@, idv) =~= sub_codes(md.sub@));
    assert forall|i: int|
        s1.authors@.len() <= i < s4.authors@.len() implies (#[trigger] s4.authors@[i]).arxiv_id@
        == idv && s4.authors@[i].auth == md.auth@[i - s1.authors@.len()] by {
        assert(s3.authors@[s2.authors@.len() + (i - s1.authors@.len())].arxiv_id@ == idv);
        assert(s3.authors@[s2.authors@.len() + (i - s1.authors@.len())].auth == md.auth@[i
            - s1.authors@.len()]);
    }
    assert forall|i: int|
        s1.subjects@.len() <= i < s4.subjects@.len() implies (#[trigger] s4.subjects@[i]).arxiv_id@
        == idv && s4.subjects@[i].sub@ == sub_codes(md.sub@)[i - s1.subjects@.len()] by {
        assert(s4.subjects@[s3.subjects@.len() + (i - s1.subjects@.len())].arxiv_id@ == idv);
        assert(s4.subjects@[s3.subjects@.len() + (i - s1.subjects@.len())].sub@ == sub_codes(
            md.sub@,
        )[i - s1.subjects@.len()]);
    }
    assert forall|i: int| 0 <= i < s1.authors@.len() implies s4.authors@[i] == s1.authors@[i] by {
        assert(s3.authors@.subrange(0, s2.authors@.len() as int)[i] == s2.authors@[i]);
    }
    assert forall|i: int|
        0 <= i < s1.subjects@.len() implies s4.subjects@[i] == s1.subjects@[i] by {
        assert(s4.subjects@.subrange(0, s3.subjects@.len() as int)[i] == s3.subjects@[i]);
    }
    assert forall|i: int| 0 <= i < s1.papers@.len() implies s4.papers@[i] == s1.papers@[i] by {
        assert(s2.papers@.subrange(0, s1.papers@.len() as int)[i] == s1.papers@[i]);
    }
    assert forall|x: Seq<char>| #[trigger] s4.has_paper(x) <==> (s1.has_paper(x) || x == idv) by {
        assert(s4.papers@ == s2.papers@);
    }
    // papers unique
    assert forall|i: int, j: int| 0 <= i < j < s4.papers@.len() implies s4.papers@[i].arxiv_id@
        != s4.papers@[j].arxiv_id@ by {
        if j < s1.papers@.len() {
            assert(s4.papers@[i] == s1.papers@[i] && s4.papers@[j] == s1.papers@[j]);
        } else {
            assert(s4.papers@[i] == s1.papers@[i]);
            assert(s4.papers@[j].arxiv_id@ == idv);
            if s4.papers@[i].arxiv_id@ == idv {
                assert(s1.has_paper(idv));
            }
        }
    }
    // authors: referential integrity and uniqueness
    assert forall|i: int| 0 <= i < s4.authors@.len() implies s4.has_paper(
        #[trigger] s4.authors@[i].arxiv_id@,
    ) by {
        if i < s1.authors@.len() {
            assert(s4.authors@[i] == s1.authors@[i]);
            assert(s1.has_paper(s1.authors@[i].arxiv_id@));
        } else {
            assert(s4.authors@[i].arxiv_id@ == idv);
        }
    }
    assert forall|i: int, j: int| 0 <= i < j < s4.authors@.len() implies !(s4.authors@[i].arxiv_id@
        == s4.authors@[j].arxiv_id@ && s4.authors@[i].auth@ == s4.authors@[j].auth@) by {
        if j < s1.authors@.len() {
            assert(s4.authors@[i] == s1.authors@[i] && s4.authors@[j] == s1.authors@[j]);
        } else if i < s1.authors@.len() {
            assert(s4.authors@[i] == s1.authors@[i]);
            assert(s4.authors@[j].arxiv_id@ == idv);
            if s4.authors@[i].arxiv_id@ == idv {
                assert(s1.has_paper(s1.authors@[i].arxiv_id@));
            }
        } else {
            assert(s4.authors@[i].auth == md.auth@[i - s1.authors@.len()]);
            assert(s4.authors@[j].auth == md.auth@[j - s1.authors@.len()]);
        }
    }
    // subjects: referential integrity and uniqueness
    assert forall|i: int| 0 <= i < s4.subjects@.len() implies s4.has_paper(
        #[trigger] s4.subjects@[i].arxiv_id@,
    ) by {
        if i < s1.subjects@.len() {
            assert(s4.subjects@[i] == s1.subjects@[i]);
            assert(s1.has_paper(s1.subjects@[i].arxiv_id@));
        } else {
            assert(s4.subjects@[i].arxiv_id@ == idv);
        }
    }
    assert forall|i: int, j: int| 0 <= i < j < s4.subjects@.len() implies !(
    s4.subjects@[i].arxiv_id@ == s4.subjects@[j].arxiv_id@ && s4.subjects@[i].sub@
        == s4.subjects@[j].sub@) by {
        if j < s1.subjects@.len() {
            assert(s4.subjects@[i] == s1.subjects@[i] && s4.subjects@[j] == s1.subjects@[j]);
        } else if i < s1.subjects@.len() {
            assert(s4.subjects@[i] == s1.subjects@[i]);
            assert(s4.subjects@[j].arxiv_id@ == idv);
            if s4.subjects@[i].arxiv_id@ == idv {
                assert(s1.has_paper(s1.subjects@[i].arxiv_id@));
            }
        } else {
            assert(s4.subjects@[i].sub@ == sub_codes(md.sub@)[i - s1.subjects@.len()]);
            assert(s4.subjects@[j].sub@ == sub_codes(md.sub@)[j - s1.subjects@.len()]);
            assert(sub_codes(md.sub@)[i - s1.subjects@.len()] == md.sub@[i
                - s1.subjects@.len()].spec_code());
            assert(sub_codes(md.sub@)[j - s1.subjects@.len()] == md.sub@[j
                - s1.subjects@.len()].spec_code());
        }
    }
    // pins: untouched rows over a grown paper relation
    assert forall|i: int| 0 <= i < s4.pins@.len() implies s4.has_paper(
        #[trigger] s4.pins@[i].arxiv_id@,
    ) by {
        assert(s4.pins@[i] == s1.pins@[i]);
        assert(s1.has_paper(s1.pins@[i].arxiv_id@));
    }
    assert(forall|i: int, j: int|
        0 <= i < j < s4.pins@.len() ==> s4.pins@[i].id@ != s4.pins@[j].id@) by {
        assert(s4.pins@ == s1.pins@);
    }
    assert forall|i: int|
        0 <= i < s4.pins@.len() implies ((#[trigger] s4.pins@[i].ref_id) matches Some(rid)
        ==> exists|j: int| 0 <= j < i && s4.pins@[j].id@ == rid@) by {
        assert(s4.pins@ == s1.pins@);
        assert(s4.pins@[i] == s1.pins@[i]);
    }
    // the insert contract, clause by clause
    assert forall|o: Seq<char>| o != idv implies #[trigger] author_entries(s4.authors@, o)
        == author_entries(s1.authors@, o) by {
        assert(author_entries(s3.authors@, o) == author_entries(s2.authors@, o));
    }
    assert forall|o: Seq<char>| o != idv implies #[trigger] subject_entries(s4.subjects@, o)
        == subject_entries(s1.subjects@, o) by {
        assert(subject_entries(s4.subjects@, o) == subject_entries(s3.subjects@, o));
    }
    assert forall|c: Seq<char>|
        #[trigger] s4.spec_watermark(c) == if c == subj.spec_code() && tm > s1.spec_watermark(c) {
            tm as int
        } else {
            s1.spec_watermark(c)
        } by {
        assert(s2.spec_watermark(c) == if c == subj.spec_code() && tm > s1.spec_watermark(c) {
            tm as int
        } else {
            s1.spec_watermark(c)
        });
    }
    assert forall|x: Seq<char>| #[trigger] s4.has_paper(x) <==> (s1.has_paper(x) || x == idv) by {
        assert(s2.has_paper(x) <==> (s1.has_paper(x) || x == idv));
    }
    assert(s4.papers@.subrange(0, s1.papers@.len() as int) == s1.papers@);
    assert(s4.papers@.last() == s2.papers@.last());
}

/// How a reconstructed record relates to a stored paper row: same title
/// and abstract, subjects and authors read back from the relation rows in
/// stored order, each code resolved through the catalog.
pub open spec fn get_post(s: Store, row: PaperRow, md: MetaData) -> bool {
    &&& md.title == row.title
    &&& md.abs == row.abstract_
    &&& spec_from_string(row.prim_sub@, md.prim_sub)
    &&& md.auth@ == author_entries(s.authors@, row.arxiv_id@)
    &&& md.sub@.len() == subject_entries(s.subjects@, row.arxiv_id@).len()
    &&& forall|k: int|
        0 <= k < md.sub@.len() ==> spec_from_string(
            subject_entries(s.subjects@, row.arxiv_id@)[k],
            #[trigger] md.sub@[k],
        )
}

/// The indexes below `n` satisfying `pred`, in increasing order.
pub open spec fn matching_indexes(n: nat, pred: spec_fn(int) -> bool) -> Seq<int>
    decreases n,
{
    if n == 0 {
        Seq::empty()
    } else {
        let init = matching_indexes((n - 1) as nat, pred);
        if pred(n - 1) {
            init.push(n - 1)
        } else {
            init
        }
    }
}

/// A stored identifier string that `parse` would read back.
pub open spec fn parseable(id: Seq<char>) -> bool {
    crate::index::modern_ok(id) || crate::index::legacy_ok(id)
}

/// Whether the paper at index `i` carries one of `codes` as a subject tag.
pub open spec fn tag_pred(s: Store, codes: Seq<Seq<char>>) -> spec_fn(int) -> bool {
    |i: int|
        exists|j: int|
            0 <= j < s.subjects@.len() && s.subjects@[j].arxiv_id@ == s.papers@[i].arxiv_id@
                && codes.contains(s.subjects@[j].sub@)
}

/// Whether the paper at index `i` has `code` as its primary subject.
pub open spec fn prim_pred(s: Store, code: Seq<char>) -> spec_fn(int) -> bool {
    |i: int| s.papers@[i].prim_sub@ == code
}

/// Whether the paper at index `i` has one of `names` among its authors.
pub open spec fn auth_pred(s: Store, names: Seq<Seq<char>>) -> spec_fn(int) -> bool {
    |i: int|
        exists|j: int|
            0 <= j < s.authors@.len() && s.authors@[j].arxiv_id@ == s.papers@[i].arxiv_id@
                && names.contains(s.authors@[j].auth@)
}

/// What the list queries return on success: one record per matching
/// paper, in stored order, each reconstructed like `by_id` does and
/// keyed by the re-parsed identifier.
pub open spec fn list_post(s: Store, pred: spec_fn(int) -> bool, v: Seq<MetaData>) -> bool {
    let mi = matching_indexes(s.papers@.len(), pred);
    &&& v.len() == mi.len()
    &&& forall|k: int|
        0 <= k < mi.len() ==> get_post(s, s.papers@[mi[k]], #[trigger] v[k])
            && crate::index::parse_post(s.papers@[mi[k]].arxiv_id@, v[k].index)
}

/// Every matching row's identifier parses back.
pub open spec fn list_ok(s: Store, pred: spec_fn(int) -> bool) -> bool {
    let mi = matching_indexes(s.papers@.len(), pred);
    forall|k: int| 0 <= k < mi.len() ==> parseable(#[trigger] s.papers@[mi[k]].arxiv_id@)
}

/// Whether some stored value equals `s`.
fn contains_str(v: &Vec<String>, s: &str) -> (r: bool)
    ensures
        r == exists|k: int| 0 <= k < v@.len() && v@[k]@ == s@,
{
    let n = v.len();
    let mut i: usize = 0;
    while i < n
        invariant
            n == v@.len(),
            0 <= i <= n,
            forall|k: int| 0 <= k < i ==> v@[k]@ != s@,
        decreases n - i,
    {
        if str_eq(v[i].as_str(), s) {
            return true;
        }
        i = i + 1;
    }
    false
}

impl Store {
    /// Rebuild the record of the paper row at `i`, under identifier `ix`.
    fn assemble(&self, i: usize, ix: Index) -> (md: MetaData)
        requires
            self.wf(),
            i < self.papers@.len(),
        ensures
            get_post(*self, self.papers@[i as int], md),
            md.index == ix,
    {
        let row_id: &String = &self.papers[i].arxiv_id;
        let ghost idv = row_id@;
        let mut auth: Vec<String> = Vec::new();
        let mut j: usize = 0;
        while j < self.authors.len()
            invariant
                0 <= j <= self.authors@.len(),
                i < self.papers@.len(),
                idv == self.papers@[i as int].arxiv_id@,
                row_id@ == idv,
                auth@ == author_entries(self.authors@.subrange(0, j as int), idv),
            decreases self.authors@.len() - j,
        {
            proof {
                assert(self.authors@.subrange(0, j + 1).drop_last() =~= self.authors@.subrange(
                    0,
                    j as int,
                ));
                assert(self.authors@.subrange(0, j + 1).last() == self.authors@[j as int]);
            }
            if str_eq(self.authors[j].arxiv_id.as_str(), row_id.as_str()) {
                auth.push(self.authors[j].auth.clone());
            }
            j = j + 1;
        }
        proof {
            assert(self.authors@.subrange(0, self.authors@.len() as int) =~= self.authors@);
        }
        let mut sub: Vec<Subject> = Vec::new();
        let mut j2: usize = 0;
        while j2 < self.subjects.len()
            invariant
                0 <= j2 <= self.subjects@.len(),
                i < self.papers@.len(),
                idv == self.papers@[i as int].arxiv_id@,
                row_id@ == idv,
                sub@.len() == subject_entries(self.subjects@.subrange(0, j2 as int), idv).len(),
                forall|k: int|
                    0 <= k < sub@.len() ==> spec_from_string(
                        subject_entries(self.subjects@.subrange(0, j2 as int), idv)[k],
                        #[trigger] sub@[k],
                    ),
            decreases self.subjects@.len() - j2,
        {
            let ghost pre = self.subjects@.subrange(0, j2 as int);
            let ghost post = self.subjects@.subrange(0, j2 + 1);
            proof {
                assert(post.drop_last() =~= pre);
                assert(post.last() == self.subjects@[j2 as int]);
            }
            if str_eq(self.subjects[j2].arxiv_id.as_str(), row_id.as_str()) {
                sub.push(Subject::from_string(self.subjects[j2].sub.as_str()));
                proof {
                    assert(subject_entries(post, idv) == subject_entries(pre, idv).push(
                        self.subjects@[j2 as int].sub@,
                    ));
                }
            }
            j2 = j2 + 1;
        }
        proof {
            assert(self.subjects@.subrange(0, self.subjects@.len() as int) =~= self.subjects@);
        }
        let prim_sub = Subject::from_string(self.papers[i].prim_sub.as_str());
        MetaData {
            index: ix,
            title: self.papers[i].title.clone(),
            auth,
            abs: self.papers[i].abstract_.clone(),
            sub,
            prim_sub,
        }
    }

    /// Look one paper up by its identifier and rebuild its record from
    /// the relations.
    pub fn by_id(&self, idx: &Index) -> (r: Result<MetaData, Error>)
        requires
            self.wf(),
        ensures
            r is Ok <==> self.has_paper(idx.spec_format()),
            r matches Ok(md) ==> get_post(*self, self.paper_row(idx.spec_format()), md)
                && md.index == *idx,
            r matches Err(e) ==> e == Error::PersistenceFailure,
    {
        let id = idx.format();
        match self.find_paper(id.as_str()) {
            Some(i) => {
                proof {
                    assert(self.has_paper(id@));
                    assert(self.paper_at(id@) == i as int) by {
                        let w = self.paper_at(id@);
                        assert(0 <= w < self.papers@.len() && self.papers@[w].arxiv_id@ == id@);
                    }
                }
                Ok(self.assemble(i, idx.clone()))
            },
            None => Err(Error::PersistenceFailure),
        }
    }
}

impl Store {
    /// Resolve the papers at `picks` — the indexes matching `pred`, in
    /// order — re-parsing each stored identifier.
    fn resolve(&self, picks: &Vec<usize>, pred: Ghost<spec_fn(int) -> bool>) -> (r: Result<
        Vec<MetaData>,
        Error,
    >)
        requires
            self.wf(),
            picks@.map_values(|u: usize| u as int) == matching_indexes(
                self.papers@.len(),
                pred@,
            ),
            forall|k: int| 0 <= k < picks@.len() ==> (#[trigger] picks@[k]) < self.papers@.len(),
        ensures
            r is Ok <==> list_ok(*self, pred@),
            r matches Ok(v) ==> list_post(*self, pred@, v@),
            r matches Err(e) ==> e == Error::InvalidIdentifier,
    {
        let ghost mi = matching_indexes(self.papers@.len(), pred@);
        let mut out: Vec<MetaData> = Vec::new();
        let mut k: usize = 0;
        while k < picks.len()
            invariant
                self.wf(),
                0 <= k <= picks@.len(),
                picks@.map_values(|u: usize| u as int) == mi,
                mi == matching_indexes(self.papers@.len(), pred@),
                forall|k2: int|
                    0 <= k2 < picks@.len() ==> (#[trigger] picks@[k2]) < self.papers@.len(),
                out@.len() == k,
                forall|k2: int|
                    0 <= k2 < k ==> get_post(*self, self.papers@[mi[k2]], #[trigger] out@[k2])
                        && crate::index::parse_post(
                        self.papers@[mi[k2]].arxiv_id@,
                        out@[k2].index,
                    ),
                forall|k2: int|
                    0 <= k2 < k ==> parseable(#[trigger] self.papers@[mi[k2]].arxiv_id@),
            decreases picks@.len() - k,
        {
            let i = picks[k];
            proof {
                assert(picks@.map_values(|u: usize| u as int)[k as int] == mi[k as int]);
            }
            match crate::index::parse(self.papers[i].arxiv_id.as_str()) {
                Ok(ix) => {
                    out.push(self.assemble(i, ix));
                },
                Err(_) => {
                    proof {
                        assert(!parseable(self.papers@[mi[k as int]].arxiv_id@));
                        assert(!list_ok(*self, pred@));
                    }
                    return Err(Error::InvalidIdentifier);
                },
            }
            k = k + 1;
        }
        proof {
            assert(picks@.map_values(|u: usize| u as int).len() == picks@.len());
        }
        Ok(out)
    }

    /// The records tagged with any of the given subjects, deduplicated by
    /// paper and resolved like `by_id`, in stored paper order.
    pub fn by_subs(&self, subs: &Vec<Subject>) -> (r: Result<Vec<MetaData>, Error>)
        requires
            self.wf(),
            forall|k: int| 0 <= k < subs@.len() ==> (#[trigger] subs@[k]).code_ok(),
        ensures
            r is Ok <==> list_ok(*self, tag_pred(*self, sub_codes(subs@))),
            r matches Ok(v) ==> list_post(*self, tag_pred(*self, sub_codes(subs@)), v@),
            r matches Err(e) ==> e == Error::InvalidIdentifier,
    {
        let ghost codesv = sub_codes(subs@);
        let ghost pred = tag_pred(*self, codesv);
        let mut codes: Vec<String> = Vec::new();
        let mut k: usize = 0;
        while k < subs.len()
            invariant
                0 <= k <= subs@.len(),
                codes@.len() == k,
                forall|a: int| 0 <= a < k ==> codes@[a]@ == subs@[a].spec_code(),
                forall|a: int| 0 <= a < subs@.len() ==> (#[trigger] subs@[a]).code_ok(),
            decreases subs@.len() - k,
        {
            codes.push(subs[k].as_str().to_owned());
            k = k + 1;
        }
        proof {
            crate::metadata::lemma_sub_codes_len(subs@);
            assert forall|x: Seq<char>| #[trigger] codesv.contains(x) <==> exists|a: int|
                0 <= a < codes@.len() && codes@[a]@ == x by {
                if codesv.contains(x) {
                    let a = choose|a: int| 0 <= a < codesv.len() && codesv[a] == x;
                    assert(codes@[a]@ == x);
                }
                if exists|a: int| 0 <= a < codes@.len() && codes@[a]@ == x {
                    let a = choose|a: int| 0 <= a < codes@.len() && codes@[a]@ == x;
                    assert(codesv[a] == x);
                }
            }
        }
        let mut picks: Vec<usize> = Vec::new();
        let mut i: usize = 0;
        while i < self.papers.len()
            invariant
                self.wf(),
                0 <= i <= self.papers@.len(),
                pred == tag_pred(*self, codesv),
                forall|x: Seq<char>|
                    #[trigger] codesv.contains(x) <==> exists|a: int|
                        0 <= a < codes@.len() && codes@[a]@ == x,
                picks@.map_values(|u: usize| u as int) == matching_indexes(i as nat, pred),
                forall|k2: int|
                    0 <= k2 < picks@.len() ==> (#[trigger] picks@[k2]) < self.papers@.len(),
            decreases self.papers@.len() - i,
        {
            let mut hit = false;
            let mut j: usize = 0;
            while j < self.subjects.len() && !hit
                invariant
                    0 <= j <= self.subjects@.len(),
                    i < self.papers@.len(),
                    forall|x: Seq<char>|
                        #[trigger] codesv.contains(x) <==> exists|a: int|
                            0 <= a < codes@.len() && codes@[a]@ == x,
                    hit ==> exists|j2: int|
                        0 <= j2 < self.subjects@.len() && self.subjects@[j2].arxiv_id@
                            == self.papers@[i as int].arxiv_id@ && codesv.contains(
                            self.subjects@[j2].sub@,
                        ),
                    !hit ==> forall|j2: int|
                        0 <= j2 < j ==> !(self.subjects@[j2].arxiv_id@
                            == self.papers@[i as int].arxiv_id@ && codesv.contains(
                            #[trigger] self.subjects@[j2].sub@,
                        )),
                decreases self.subjects@.len() - j,
            {
                if str_eq(self.subjects[j].arxiv_id.as_str(), self.papers[i].arxiv_id.as_str())
                    && contains_str(&codes, self.subjects[j].sub.as_str()) {
                    hit = true;
                    proof {
                        assert(codesv.contains(self.subjects@[j as int].sub@));
                    }
                }
                j = j + 1;
            }
            proof {
                assert(hit == pred(i as int));
                assert(matching_indexes((i + 1) as nat, pred) == if pred(i as int) {
                    matching_indexes(i as nat, pred).push(i as int)
                } else {
                    matching_indexes(i as nat, pred)
                });
            }
            if hit {
                picks.push(i);
                proof {
                    assert(picks@.map_values(|u: usize| u as int) =~= matching_indexes(
                        (i + 1) as nat,
                        pred,
                    ));
                }
            }
            i = i + 1;
        }
        self.resolve(&picks, Ghost(pred))
    }

    /// The records whose primary subject is `sub`, in stored paper order.
    pub fn by_prim_sub(&self, sub: &Subject) -> (r: Result<Vec<MetaData>, Error>)
        requires
            self.wf(),
            sub.code_ok(),
        ensures
            r is Ok <==> list_ok(*self, prim_pred(*self, sub.spec_code())),
            r matches Ok(v) ==> list_post(*self, prim_pred(*self, sub.spec_code()), v@),
            r matches Err(e) ==> e == Error::InvalidIdentifier,
    {
        let ghost pred = prim_pred(*self, sub.spec_code());
        let code = sub.as_str();
        let mut picks: Vec<usize> = Vec::new();
        let mut i: usize = 0;
        while i < self.papers.len()
            invariant
                self.wf(),
                0 <= i <= self.papers@.len(),
                code@ == sub.spec_code(),
                pred == prim_pred(*self, sub.spec_code()),
                picks@.map_values(|u: usize| u as int) == matching_indexes(i as nat, pred),
                forall|k2: int|
                    0 <= k2 < picks@.len() ==> (#[trigger] picks@[k2]) < self.papers@.len(),
            decreases self.papers@.len() - i,
        {
            let hit = str_eq(self.papers[i].prim_sub.as_str(), code);
            proof {
                assert(hit == pred(i as int));
            }
            if hit {
                picks.push(i);
                proof {
                    assert(picks@.map_values(|u: usize| u as int) =~= matching_indexes(
                        (i + 1) as nat,
                        pred,
                    ));
                }
            }
            i = i + 1;
        }
        self.resolve(&picks, Ghost(pred))
    }

    /// The records having any of the given author names, in stored paper
    /// order.
    pub fn by_auths(&self, auths: &Vec<String>) -> (r: Result<Vec<MetaData>, Error>)
        requires
            self.wf(),
        ensures
            r is Ok <==> list_ok(*self, auth_pred(*self, auths@.map_values(|x: String| x@))),
            r matches Ok(v) ==> list_post(
                *self,
                auth_pred(*self, auths@.map_values(|x: String| x@)),
                v@,
            ),
            r matches Err(e) ==> e == Error::InvalidIdentifier,
    {
        let ghost namesv = auths@.map_values(|x: String| x@);
        let ghost pred = auth_pred(*self, namesv);
        proof {
            assert forall|x: Seq<char>| #[trigger] namesv.contains(x) <==> exists|a: int|
                0 <= a < auths@.len() && auths@[a]@ == x by {
                if namesv.contains(x) {
                    let a = choose|a: int| 0 <= a < namesv.len() && namesv[a] == x;
                    assert(auths@[a]@ == x);
                }
                if exists|a: int| 0 <= a < auths@.len() && auths@[a]@ == x {
                    let a = choose|a: int| 0 <= a < auths@.len() && auths@[a]@ == x;
                    assert(namesv[a] == x);
                }
            }
        }
        let mut picks: Vec<usize> = Vec::new();
        let mut i: usize = 0;
        while i < self.papers.len()
            invariant
                self.wf(),
                0 <= i <= self.papers@.len(),
                pred == auth_pred(*self, namesv),
                forall|x: Seq<char>|
                    #[trigger] namesv.contains(x) <==> exists|a: int|
                        0 <= a < auths@.len() && auths@[a]@ == x,
                picks@.map_values(|u: usize| u as int) == matching_indexes(i as nat, pred),
                forall|k2: int|
                    0 <= k2 < picks@.len() ==> (#[trigger] picks@[k2]) < self.papers@.len(),
            decreases self.papers@.len() - i,
        {
            let mut hit = false;
            let mut j: usize = 0;
            while j < self.authors.len() && !hit
                invariant
                    0 <= j <= self.authors@.len(),
                    i < self.papers@.len(),
                    forall|x: Seq<char>|
                        #[trigger] namesv.contains(x) <==> exists|a: int|
                            0 <= a < auths@.len() && auths@[a]@ == x,
                    hit ==> exists|j2: int|
                        0 <= j2 < self.authors@.len() && self.authors@[j2].arxiv_id@
                            == self.papers@[i as int].arxiv_id@ && namesv.contains(
                            self.authors@[j2].auth@,
                        ),
                    !hit ==> forall|j2: int|
                        0 <= j2 < j ==> !(self.authors@[j2].arxiv_id@
                            == self.papers@[i as int].arxiv_id@ && namesv.contains(
                            #[trigger] self.authors@[j2].auth@,
                        )),
                decreases self.authors@.len() - j,
            {
                if str_eq(self.authors[j].arxiv_id.as_str(), self.papers[i].arxiv_id.as_str())
                    && contains_str(auths, self.authors[j].auth.as_str()) {
                    hit = true;
                    proof {
                        assert(namesv.contains(self.authors@[j as int].auth@));
                    }
                }
                j = j + 1;
            }
            proof {
                assert(hit == pred(i as int));
            }
            if hit {
                picks.push(i);
                proof {
                    assert(picks@.map_values(|u: usize| u as int) =~= matching_indexes(
                        (i + 1) as nat,
                        pred,
                    ));
                }
            }
            i = i + 1;
        }
        self.resolve(&picks, Ghost(pred))
    }

    /// The position of the pin row keyed by `pid`, if stored.
    fn find_pin(&self, pid: &str) -> (r: Option<usize>)
        ensures
            match r {
                Some(i) => i < self.pins@.len() && self.pins@[i as int].id@ == pid@,
                None => !self.has_pin(pid@),
            },
    {
        let n = self.pins.len();
        let mut i: usize = 0;
        while i < n
            invariant
                n == self.pins@.len(),
                0 <= i <= n,
                forall|j: int| 0 <= j < i ==> self.pins@[j].id@ != pid@,
            decreases n - i,
        {
            if str_eq(self.pins[i].id.as_str(), pid) {
                return Some(i);
            }
            i = i + 1;
        }
        None
    }

    /// Store a publish handle for a paper, optionally chained to a prior
    /// handle. Rejected when the handle exists already, the paper is
    /// unknown, or the chained handle is unknown.
    pub fn insert_pin(&mut self, pin: &Pin, refp: Option<&Pin>, idx: &Index, published_at: i64)
        -> (r: Result<(), Error>)
        requires
            old(self).wf(),
        ensures
            final(self).wf(),
            match r {
                Ok(_) => {
                    &&& !old(self).has_pin(pin.id@)
                    &&& old(self).has_paper(idx.spec_format())
                    &&& (refp matches Some(rp) ==> old(self).has_pin(rp.id@))
                    &&& final(self).pins@.len() == old(self).pins@.len() + 1
                    &&& final(self).pins@.subrange(0, old(self).pins@.len() as int) == old(
                        self,
                    ).pins@
                    &&& final(self).pins@.last().id == pin.id
                    &&& final(self).pins@.last().arxiv_id@ == idx.spec_format()
                    &&& final(self).pins@.last().published_at == published_at
                    &&& (match refp {
                        Some(rp) => final(self).pins@.last().ref_id matches Some(s) && s
                            == rp.id,
                        None => final(self).pins@.last().ref_id is None,
                    })
                    &&& final(self).papers == old(self).papers
                    &&& final(self).authors == old(self).authors
                    &&& final(self).subjects == old(self).subjects
                    &&& final(self).update_time == old(self).update_time
                },
                Err(e) => {
                    &&& e == Error::PersistenceFailure
                    &&& *final(self) == *old(self)
                    &&& !(!old(self).has_pin(pin.id@) && old(self).has_paper(idx.spec_format())
                        && (refp matches Some(rp) ==> old(self).has_pin(rp.id@)))
                },
            },
    {
        let id = idx.format();
        if self.find_pin(pin.id.as_str()).is_some() {
            return Err(Error::PersistenceFailure);
        }
        if self.find_paper(id.as_str()).is_none() {
            return Err(Error::PersistenceFailure);
        }
        let ref_id: Option<String> = match refp {
            Some(rp) => {
                if self.find_pin(rp.id.as_str()).is_none() {
                    return Err(Error::PersistenceFailure);
                }
                Some(rp.id.clone())
            },
            None => None,
        };
        let ghost s1 = *self;
        self.pins.push(
            PinRow { id: pin.id.clone(), ref_id, arxiv_id: id, published_at },
        );
        proof {
            assert(self.pins@.subrange(0, s1.pins@.len() as int) =~= s1.pins@);
            assert forall|x: Seq<char>| s1.has_paper(x) implies #[trigger] self.has_paper(x) by {
                let w = choose|w: int| 0 <= w < s1.papers@.len() && s1.papers@[w].arxiv_id@ == x;
                assert(self.papers@[w].arxiv_id@ == x);
            }
            assert forall|i: int| 0 <= i < self.authors@.len() implies self.has_paper(
                #[trigger] self.authors@[i].arxiv_id@,
            ) by {
                assert(s1.has_paper(s1.authors@[i].arxiv_id@));
            }
            assert forall|i: int| 0 <= i < self.subjects@.len() implies self.has_paper(
                #[trigger] self.subjects@[i].arxiv_id@,
            ) by {
                assert(s1.has_paper(s1.subjects@[i].arxiv_id@));
            }
            assert forall|i: int| 0 <= i < self.pins@.len() implies self.has_paper(
                #[trigger] self.pins@[i].arxiv_id@,
            ) by {
                if i < s1.pins@.len() {
                    assert(self.pins@[i] == s1.pins@[i]);
                    assert(s1.has_paper(s1.pins@[i].arxiv_id@));
                    let w = choose|w: int|
                        0 <= w < s1.papers@.len() && s1.papers@[w].arxiv_id@
                            == s1.pins@[i].arxiv_id@;
                    assert(self.papers@[w].arxiv_id@ == self.pins@[i].arxiv_id@);
                } else {
                    assert(self.pins@[i].arxiv_id@ == idx.spec_format());
                    let w = choose|w: int|
                        0 <= w < s1.papers@.len() && s1.papers@[w].arxiv_id@
                            == idx.spec_format();
                    assert(self.papers@[w].arxiv_id@ == idx.spec_format());
                }
            }
            assert forall|i: int, j: int| 0 <= i < j < self.pins@.len() implies self.pins@[i].id@
                != self.pins@[j].id@ by {
                if j < s1.pins@.len() {
                    assert(self.pins@[i] == s1.pins@[i] && self.pins@[j] == s1.pins@[j]);
                } else {
                    assert(self.pins@[i] == s1.pins@[i]);
                    assert(self.pins@[j].id@ == pin.id@);
                    if s1.pins@[i].id@ == pin.id@ {
                        assert(s1.has_pin(pin.id@));
                    }
                }
            }
            assert forall|i: int|
                0 <= i < self.pins@.len() implies ((#[trigger] self.pins@[i].ref_id) matches Some(
                rid,
            ) ==> exists|j: int| 0 <= j < i && self.pins@[j].id@ == rid@) by {
                if i < s1.pins@.len() {
                    assert(self.pins@[i] == s1.pins@[i]);
                    if s1.pins@[i].ref_id is Some {
                        let rid2 = s1.pins@[i].ref_id.unwrap();
                        let j = choose|j: int| 0 <= j < i && s1.pins@[j].id@ == rid2@;
                        assert(self.pins@[j] == s1.pins@[j]);
                    }
                } else {
                    if self.pins@[i].ref_id is Some {
                        let rid2 = self.pins@[i].ref_id.unwrap();
                        assert(s1.has_pin(rid2@));
                        let j = choose|j: int|
                            0 <= j < s1.pins@.len() && s1.pins@[j].id@ == rid2@;
                        assert(self.pins@[j] == s1.pins@[j]);
                    }
                }
            }
        }
        Ok(())
    }

    /// The first stored pin for a paper, in insertion order; which pin is
    /// returned when several exist is the store's choice.
    pub fn by_arxiv_id(&self, idx: &Index) -> (r: Result<Pin, Error>)
        requires
            self.wf(),
        ensures
            r is Ok <==> first_pin_from(self.pins@, idx.spec_format(), 0) is Some,
            r matches Ok(p) ==> p.id == first_pin_from(self.pins@, idx.spec_format(), 0).unwrap().id,
            r matches Err(e) ==> e == Error::PersistenceFailure,
    {
        let id = idx.format();
        let n = self.pins.len();
        let mut i: usize = 0;
        while i < n
            invariant
                n == self.pins@.len(),
                0 <= i <= n,
                id@ == idx.spec_format(),
                first_pin_from(self.pins@, id@, 0) == first_pin_from(self.pins@, id@, i as int),
            decreases n - i,
        {
            if str_eq(self.pins[i].arxiv_id.as_str(), id.as_str()) {
                return Ok(Pin { id: self.pins[i].id.clone() });
            }
            i = i + 1;
        }
        Err(Error::PersistenceFailure)
    }
}

/// Law: a subject with no recorded events has the sentinel-epoch
/// watermark.
pub proof fn lemma_sentinel_watermark(s: Store, code: Seq<char>)
    requires
        forall|j: int| 0 <= j < s.update_time@.len() ==> s.update_time@[j].subject@ != code,
    ensures
        s.spec_watermark(code) == 0,
{
    lemma_wm_absent(s.update_time@, code);
}

/// Law: across one `insert_paper`, no subject's watermark decreases; the
/// written subject's watermark stays put when the batch timestamp is not
/// newer, and advances to exactly that timestamp when it is.
pub proof fn lemma_watermark_advance(
    s1: Store,
    s2: Store,
    subj: Subject,
    md: MetaData,
    tm: i64,
    code: Seq<char>,
)
    requires
        insert_post(s1, s2, subj, md, tm),
    ensures
        s2.spec_watermark(code) >= s1.spec_watermark(code),
        tm <= s1.spec_watermark(subj.spec_code()) ==> s2.spec_watermark(subj.spec_code())
            == s1.spec_watermark(subj.spec_code()),
        tm > s1.spec_watermark(subj.spec_code()) ==> s2.spec_watermark(subj.spec_code())
            == tm as int,
{
    assert(s2.spec_watermark(code) == if code == subj.spec_code() && tm > s1.spec_watermark(code) {
        tm as int
    } else {
        s1.spec_watermark(code)
    });
    assert(s2.spec_watermark(subj.spec_code()) == if tm > s1.spec_watermark(subj.spec_code()) {
        tm as int
    } else {
        s1.spec_watermark(subj.spec_code())
    });
}

/// Law: storing a record and reading it back by its identifier preserves
/// the title, the abstract, the ordered author list, and the subjects by
/// code; subjects drawn from the known catalog come back identical.
pub proof fn lemma_insert_then_get(
    s1: Store,
    s2: Store,
    subj: Subject,
    md: MetaData,
    md2: MetaData,
    tm: i64,
)
    requires
        s1.wf(),
        s2.wf(),
        md.wf(),
        insert_accepts(s1, md),
        insert_post(s1, s2, subj, md, tm),
        get_post(s2, s2.paper_row(md.index.spec_format()), md2),
    ensures
        md2.title == md.title,
        md2.abs == md.abs,
        spec_from_string(md.prim_sub.spec_code(), md2.prim_sub),
        md2.auth@ == md.auth@,
        md2.sub@.len() == md.sub@.len(),
        forall|k: int|
            0 <= k < md.sub@.len() ==> spec_from_string(
                md.sub@[k].spec_code(),
                #[trigger] md2.sub@[k],
            ),
        !(md.prim_sub is Others) ==> md2.prim_sub == md.prim_sub,
        (forall|k: int| 0 <= k < md.sub@.len() ==> !((#[trigger] md.sub@[k]) is Others))
            ==> md2.sub@ == md.sub@,
{
    let id = md.index.spec_format();
    crate::metadata::lemma_sub_codes_len(md.sub@);
    assert(s2.paper_at(id) == s2.papers@.len() - 1) by {
        let w = s2.paper_at(id);
        assert(s2.has_paper(id)) by {
            assert(s2.papers@[s2.papers@.len() - 1].arxiv_id@ == id);
        }
        assert(0 <= w < s2.papers@.len() && s2.papers@[w].arxiv_id@ == id);
        if w < s2.papers@.len() - 1 {
            assert(s2.papers@[w] == s2.papers@.subrange(0, s1.papers@.len() as int)[w]);
            assert(s1.has_paper(id));
        }
    }
    assert(s2.paper_row(id) == s2.papers@.last());
    if !(md.prim_sub is Others) {
        crate::subject::lemma_known_subject_round_trip(md.prim_sub);
    }
    if forall|k: int| 0 <= k < md.sub@.len() ==> !((#[trigger] md.sub@[k]) is Others) {
        assert forall|k: int| 0 <= k < md.sub@.len() implies md2.sub@[k] == md.sub@[k] by {
            crate::subject::lemma_known_subject_round_trip(md.sub@[k]);
            assert(spec_from_string(md.sub@[k].spec_code(), md2.sub@[k]));
        }
        assert(md2.sub@ =~= md.sub@);
    }
}

/// In a relation with unique subjects, the watermark is the matching
/// row's time.
proof fn lemma_wm_lookup(rows: Seq<TimeRow>, code: Seq<char>, i: int)
    requires
        0 <= i < rows.len(),
        rows[i].subject@ == code,
        forall|a: int, b: int| 0 <= a < b < rows.len() ==> rows[a].subject@ != rows[b].subject@,
    ensures
        wm_of(rows, code) == rows[i].rss_time,
    decreases rows.len(),
{
    if i == rows.len() - 1 {
        assert(rows.last() == rows[i]);
    } else {
        assert(rows.last().subject@ != code);
        assert(rows.drop_last()[i] == rows[i]);
        lemma_wm_lookup(rows.drop_last(), code, i);
    }
}

/// A subject with no row has the sentinel watermark.
proof fn lemma_wm_absent(rows: Seq<TimeRow>, code: Seq<char>)
    requires
        forall|j: int| 0 <= j < rows.len() ==> rows[j].subject@ != code,
    ensures
        wm_of(rows, code) == 0,
    decreases rows.len(),
{
    if rows.len() > 0 {
        lemma_wm_absent(rows.drop_last(), code);
    }
}

/// Replacing the one row of subject `c` changes only that subject's
/// watermark.
proof fn lemma_wm_update(rows: Seq<TimeRow>, i: int, r: TimeRow, code: Seq<char>)
    requires
        0 <= i < rows.len(),
        r.subject@ == rows[i].subject@,
        forall|a: int, b: int| 0 <= a < b < rows.len() ==> rows[a].subject@ != rows[b].subject@,
    ensures
        wm_of(rows.update(i, r), code) == if code == r.subject@ {
            r.rss_time as int
        } else {
            wm_of(rows, code)
        },
    decreases rows.len(),
{
    let rows2 = rows.update(i, r);
    assert(forall|a: int, b: int|
        0 <= a < b < rows2.len() ==> rows2[a].subject@ != rows2[b].subject@);
    if code == r.subject@ {
        lemma_wm_lookup(rows2, code, i);
    } else {
        if i == rows.len() - 1 {
            assert(rows2.last() == r);
            assert(rows2.drop_last() =~= rows.drop_last());
        } else {
            assert(rows2.last() == rows.last());
            if rows.last().subject@ == code {
            } else {
                assert(rows2.drop_last() =~= rows.drop_last().update(i, r));
                lemma_wm_update(rows.drop_last(), i, r, code);
            }
        }
    }
}

} // verus!
