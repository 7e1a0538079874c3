//! One polling cycle as a state machine. The cycle decides; its driver
//! performs the outside work — fetching a feed, fetching a detail page,
//! publishing — and reports each outcome back as an event.
//!
//! Per subject, in configuration order: fetch the feed; skip the whole
//! subject when its batch timestamp is not newer than the stored
//! watermark; otherwise persist and publish each item in feed order.
//! Any failure aborts the whole cycle; items persisted earlier in the
//! same cycle stay committed.

use vstd::prelude::*;
use vstd::string::StrSliceExecFns;

use crate::db::{insert_accepts, insert_post, Store};
use crate::errors::Error;
use crate::db::parseable;
use crate::index::{parse_post, Index};
use crate::metadata::MetaData;
use crate::pin::Pin;
use crate::subject::Subject;
use crate::times::{batch_instant, parse_batch_timestamp};

verus! {

/// Where the cycle stands: what outside work it is waiting on.
#[derive(Clone, Copy, Debug, PartialEq, Eq, Structural)]
pub enum Phase {
    /// Waiting for the current subject's feed.
    AwaitFeed,
    /// Waiting for the current item's detail page.
    AwaitMeta,
    /// Waiting for the publishing collaborator's handle.
    AwaitPublish,
    /// Every subject processed.
    Done,
    /// Aborted; the stored error says why.
    Failed,
}

/// The position of the first colon at or after `i`, or `s.len()`.
pub open spec fn find_colon(s: Seq<char>, i: int) -> int
    decreases s.len() - i when 0 <= i <= s.len()
{
    if i >= s.len() {
        s.len() as int
    } else if s[i] == ':' {
        i
    } else {
        find_colon(s, i + 1)
    }
}

/// The third colon-separated field of a feed item token, if the token
/// has one (`prefix:host:identifier`).
pub open spec fn guid_token(s: Seq<char>) -> Option<Seq<char>> {
    let p1 = find_colon(s, 0);
    if p1 >= s.len() {
        None
    } else {
        let p2 = find_colon(s, p1 + 1);
        if p2 >= s.len() {
            None
        } else {
            Some(s.subrange(p2 + 1, find_colon(s, p2 + 1)))
        }
    }
}

/// A feed item token that yields an identifier: it carries a third
/// colon-separated field and that field matches one of the grammars.
pub open spec fn guid_readable(s: Seq<char>) -> bool {
    guid_token(s) is Some && parseable(guid_token(s).unwrap())
}

/// Scan for the first colon at or after `from`.
fn scan_colon(s: &str, from: usize) -> (r: usize)
    requires
        from <= s@.len(),
    ensures
        r == find_colon(s@, from as int),
        from <= r <= s@.len(),
{
    let n = s.unicode_len();
    let mut i: usize = from;
    while i < n && !(s.get_char(i) == ':')
        invariant
            n == s@.len(),
            from <= i <= n,
            find_colon(s@, from as int) == find_colon(s@, i as int),
        decreases n - i,
    {
        i = i + 1;
    }
    i
}

/// Read the identifier out of a feed item token: the text after the
/// second colon, up to a third colon or the end, parsed against the two
/// identifier grammars.
pub fn parse_guid(s: &str) -> (r: Result<Index, Error>)
    ensures
        match guid_token(s@) {
            None => r matches Err(e) && e == Error::InvalidIdentifier,
            Some(t) => {
                &&& r is Ok <==> parseable(t)
                &&& (r matches Ok(ix) ==> parse_post(t, ix) && ix.wf())
                &&& (r matches Err(e) ==> e == Error::InvalidIdentifier)
            },
        },
{
    let n = s.unicode_len();
    let p1 = scan_colon(s, 0);
    if p1 >= n {
        return Err(Error::InvalidIdentifier);
    }
    let p2 = scan_colon(s, p1 + 1);
    if p2 >= n {
        return Err(Error::InvalidIdentifier);
    }
    let p3 = scan_colon(s, p2 + 1);
    let tok = s.substring_char(p2 + 1, p3);
    crate::index::parse(tok)
}

/// One polling cycle over the configured subjects.
#[derive(Debug)]
pub struct Cycle {
    pub subjects: Vec<Subject>,
    pub sub_pos: usize,
    pub batch_ts: i64,
    pub pending: Vec<Index>,
    pub item_pos: usize,
    pub current: Option<MetaData>,
    pub phase: Phase,
    pub err: Option<Error>,
}

impl Cycle {
    /// The machine's own invariant: positions in range, subjects with
    /// producible codes, pending items well-formed.
    pub open spec fn wf(self) -> bool {
        &&& forall|k: int| 0 <= k < self.subjects@.len() ==> (#[trigger] self.subjects@[k]).code_ok()
        &&& (self.phase is AwaitFeed ==> self.sub_pos < self.subjects@.len())
        &&& (self.phase is AwaitMeta || self.phase is AwaitPublish ==> self.sub_pos
            < self.subjects@.len() && self.item_pos < self.pending@.len())
        &&& forall|k: int| 0 <= k < self.pending@.len() ==> (#[trigger] self.pending@[k]).wf()
        &&& (self.phase is AwaitPublish ==> self.current is Some)
    }

    /// The subject currently being polled.
    pub open spec fn spec_subject(self) -> Subject {
        self.subjects@[self.sub_pos as int]
    }

    /// The item currently being fetched or published.
    pub open spec fn spec_item(self) -> Index {
        self.pending@[self.item_pos as int]
    }

    /// A cycle over the given subjects, in configuration order.
    pub fn begin(subjects: Vec<Subject>) -> (r: Cycle)
        requires
            forall|k: int| 0 <= k < subjects@.len() ==> (#[trigger] subjects@[k]).code_ok(),
        ensures
            r.wf(),
            r.subjects@ == subjects@,
            r.sub_pos == 0,
            subjects@.len() == 0 ==> r.phase is Done,
            subjects@.len() > 0 ==> r.phase is AwaitFeed,
    {
        let phase = if subjects.len() == 0 {
            Phase::Done
        } else {
            Phase::AwaitFeed
        };
        Cycle {
            subjects,
            sub_pos: 0,
            batch_ts: 0,
            pending: Vec::new(),
            item_pos: 0,
            current: None,
            phase,
            err: None,
        }
    }

    /// Where the cycle stands.
    pub fn phase(&self) -> (r: Phase)
        ensures
            r == self.phase,
    {
        self.phase
    }

    /// The error a failed cycle stopped on.
    pub fn error(&self) -> (r: Option<Error>)
        ensures
            r == self.err,
    {
        self.err
    }

    /// The subject whose feed the driver must fetch next.
    pub fn poll_subject(&self) -> (r: &Subject)
        requires
            self.wf(),
            self.phase is AwaitFeed,
        ensures
            *r == self.spec_subject(),
    {
        &self.subjects[self.sub_pos]
    }

    /// The detail URL of the item the driver must fetch next, when one
    /// can be built for it.
    pub fn fetch_url(&self) -> (r: Result<String, Error>)
        requires
            self.wf(),
            self.phase is AwaitMeta,
        ensures
            r is Ok <==> self.spec_item().url_ok(),
            r matches Ok(u) ==> u@ == "https://arxiv.org/abs/"@ + (match self.spec_item() {
                Index::Old { sub, .. } => sub.spec_code() + seq!['/'],
                Index::New { .. } => Seq::<char>::empty(),
            }) + self.spec_item().spec_format(),
            r matches Err(e) ==> e == Error::InvalidIdentifier,
    {
        let ix = &self.pending[self.item_pos];
        let ok = match ix {
            Index::Old { sub, .. } => sub.has_code(),
            Index::New { .. } => true,
        };
        if ok {
            Ok(ix.to_detail_url())
        } else {
            Err(Error::InvalidIdentifier)
        }
    }

    /// The item whose metadata the driver must fetch next.
    pub fn current_item(&self) -> (r: Index)
        requires
            self.wf(),
            self.phase is AwaitMeta || self.phase is AwaitPublish,
        ensures
            r == self.spec_item(),
    {
        self.pending[self.item_pos].clone()
    }

    /// The record being published.
    pub fn current_meta(&self) -> (r: &MetaData)
        requires
            self.wf(),
            self.phase is AwaitPublish,
        ensures
            self.current matches Some(c) && *r == c,
    {
        self.current.as_ref().unwrap()
    }

    /// Move to the next subject, or finish the cycle.
    fn advance_subject(&mut self)
        requires
            forall|k: int|
                0 <= k < old(self).subjects@.len() ==> (#[trigger] old(self).subjects@[k]).code_ok(),
            forall|k: int|
                0 <= k < old(self).pending@.len() ==> (#[trigger] old(self).pending@[k]).wf(),
            old(self).sub_pos < old(self).subjects@.len(),
        ensures
            final(self).wf(),
            final(self).subjects == old(self).subjects,
            final(self).pending == old(self).pending,
            final(self).item_pos == old(self).item_pos,
            final(self).batch_ts == old(self).batch_ts,
            final(self).err == old(self).err,
            final(self).sub_pos == old(self).sub_pos + 1,
            final(self).phase is AwaitFeed || final(self).phase is Done,
            (final(self).phase is AwaitFeed <==> old(self).sub_pos + 1 < old(self).subjects@.len()),
    {
        let n = self.subjects.len();
        self.sub_pos = self.sub_pos + 1;
        self.current = None;
        if self.sub_pos < n {
            self.phase = Phase::AwaitFeed;
        } else {
            self.phase = Phase::Done;
        }
    }

    /// The feed arrived. Read its batch timestamp; skip the whole
    /// subject when it is not newer than the stored watermark (batch
    /// filtering — the feed carries one timestamp for its whole
    /// payload); otherwise queue every item, in feed order. Returns
    /// whether the subject's items will be processed.
    pub fn feed_ok(&mut self, store: &Store, last_build: &str, guids: &Vec<String>) -> (r: Result<
        bool,
        Error,
    >)
        requires
            old(self).wf(),
            old(self).phase is AwaitFeed,
            store.wf(),
        ensures
            final(self).wf(),
            final(self).subjects == old(self).subjects,
            // success is owed: the call fails exactly when the batch
            // timestamp cannot be read, or the batch is due for
            // processing and some item token cannot
            r is Err <==> (batch_instant(last_build@) is None || (batch_instant(last_build@).unwrap() > store.spec_watermark(old(self).spec_subject().spec_code()) && exists|
                k: int,
            | 0 <= k < guids@.len() && !guid_readable(#[trigger] guids@[k]@))),
            match r {
                Ok(processed) => {
                    &&& batch_instant(last_build@) matches Some(ts)
                    &&& (processed <==> batch_instant(last_build@).unwrap() > store.spec_watermark(
                        old(self).spec_subject().spec_code(),
                    ))
                    &&& (!processed ==> {
                        &&& final(self).sub_pos == old(self).sub_pos + 1
                        &&& (final(self).phase is AwaitFeed <==> old(self).sub_pos + 1 < old(self).subjects@.len())
                        &&& (final(self).phase is Done <==> old(self).sub_pos + 1 >= old(self).subjects@.len())
                    })
                    &&& (processed ==> {
                        &&& final(self).batch_ts as int == batch_instant(last_build@).unwrap()
                        &&& final(self).pending@.len() == guids@.len()
                        &&& forall|k: int|
                            0 <= k < guids@.len() ==> (guid_token(guids@[k]@) matches Some(t)
                                && parse_post(t, #[trigger] final(self).pending@[k]))
                        &&& (guids@.len() > 0 ==> final(self).phase is AwaitMeta && final(self).item_pos == 0 && final(self).sub_pos == old(self).sub_pos)
                        &&& (guids@.len() == 0 ==> {
                            &&& final(self).sub_pos == old(self).sub_pos + 1
                            &&& (final(self).phase is AwaitFeed <==> old(self).sub_pos + 1 < old(self).subjects@.len())
                            &&& (final(self).phase is Done <==> old(self).sub_pos + 1 >= old(self).subjects@.len())
                        })
                    })
                },
                Err(e) => {
                    &&& final(self).phase is Failed
                    &&& final(self).err == Some(e)
                    &&& (batch_instant(last_build@) is None ==> e == Error::NetworkFailure)
                    &&& (batch_instant(last_build@) is Some ==> e == Error::InvalidIdentifier)
                },
            },
    {
        let ts = match parse_batch_timestamp(last_build) {
            Some(ts) => ts,
            None => {
                // a feed whose clock cannot be read is a garbled response
                self.phase = Phase::Failed;
                self.err = Some(Error::NetworkFailure);
                return Err(Error::NetworkFailure);
            },
        };
        let wm = store.last(&self.subjects[self.sub_pos]);
        if ts <= wm {
            self.advance_subject();
            return Ok(false);
        }
        let mut pending: Vec<Index> = Vec::new();
        let mut k: usize = 0;
        while k < guids.len()
            invariant
                *self == *old(self),
                self.wf(),
                self.phase is AwaitFeed,
                store.wf(),
                batch_instant(last_build@) == Some(ts as int),
                ts > store.spec_watermark(old(self).spec_subject().spec_code()),
                0 <= k <= guids@.len(),
                pending@.len() == k,
                forall|k2: int| 0 <= k2 < k ==> guid_readable(#[trigger] guids@[k2]@),
                forall|k2: int|
                    0 <= k2 < k ==> parse_post(
                        guid_token(guids@[k2]@).unwrap(),
                        #[trigger] pending@[k2],
                    ),
                forall|k2: int| 0 <= k2 < k ==> (#[trigger] pending@[k2]).wf(),
            decreases guids@.len() - k,
        {
            match parse_guid(guids[k].as_str()) {
                Ok(ix) => {
                    proof {
                        assert(guid_readable(guids@[k as int]@));
                    }
                    pending.push(ix);
                },
                Err(e) => {
                    proof {
                        assert(!guid_readable(guids@[k as int]@));
                    }
                    self.phase = Phase::Failed;
                    self.err = Some(e);
                    return Err(e);
                },
            }
            k = k + 1;
        }
        self.batch_ts = ts;
        self.pending = pending;
        self.item_pos = 0;
        if self.pending.len() == 0 {
            self.advance_subject();
        } else {
            self.phase = Phase::AwaitMeta;
        }
        Ok(true)
    }

    /// The feed could not be fetched: the cycle aborts.
    pub fn feed_failed(&mut self, e: Error)
        requires
            old(self).wf(),
        ensures
            final(self).wf(),
            final(self).phase is Failed,
            final(self).err == Some(e),
    {
        self.phase = Phase::Failed;
        self.err = Some(e);
    }

    /// The current item's metadata arrived: persist it under the batch
    /// timestamp. A store rejection aborts the cycle; earlier items stay
    /// committed.
    pub fn meta_ok(&mut self, store: &mut Store, md: MetaData) -> (r: Result<(), Error>)
        requires
            old(self).wf(),
            old(self).phase is AwaitMeta,
            old(store).wf(),
            md.wf(),
            md.index == old(self).spec_item(),
        ensures
            final(self).wf(),
            final(store).wf(),
            final(self).subjects == old(self).subjects,
            // success is owed: the write goes through exactly when the
            // store accepts the record
            r is Ok <==> insert_accepts(*old(store), md),
            match r {
                Ok(_) => {
                    &&& insert_post(
                        *old(store),
                        *final(store),
                        old(self).spec_subject(),
                        md,
                        old(self).batch_ts,
                    )
                    &&& final(self).phase is AwaitPublish
                    &&& final(self).item_pos == old(self).item_pos
                    &&& final(self).pending == old(self).pending
                    &&& final(self).sub_pos == old(self).sub_pos
                    &&& final(self).batch_ts == old(self).batch_ts
                    &&& final(self).current matches Some(c) && c.index == md.index
                },
                Err(e) => {
                    &&& e == Error::PersistenceFailure
                    &&& *final(store) == *old(store)
                    &&& final(self).phase is Failed
                    &&& final(self).err == Some(e)
                },
            },
    {
        match store.insert_paper(&self.subjects[self.sub_pos], &md, self.batch_ts) {
            Ok(_) => {
                self.current = Some(md);
                self.phase = Phase::AwaitPublish;
                Ok(())
            },
            Err(e) => {
                self.phase = Phase::Failed;
                self.err = Some(e);
                Err(e)
            },
        }
    }

    /// The current item's metadata could not be fetched — a layout
    /// drift, a transport failure, or a rejection: the cycle aborts.
    pub fn meta_failed(&mut self, e: Error)
        requires
            old(self).wf(),
        ensures
            final(self).wf(),
            final(self).phase is Failed,
            final(self).err == Some(e),
    {
        self.phase = Phase::Failed;
        self.err = Some(e);
    }

    /// The item was handed to the publishing collaborator: record the
    /// returned handle, unchained, and move to the next item or the next
    /// subject.
    pub fn publish_ok(&mut self, store: &mut Store, pin: &Pin, published_at: i64) -> (r: Result<
        (),
        Error,
    >)
        requires
            old(self).wf(),
            old(self).phase is AwaitPublish,
            old(store).wf(),
        ensures
            final(self).wf(),
            final(store).wf(),
            final(self).subjects == old(self).subjects,
            // success is owed: recording fails exactly when the handle
            // is taken or the paper is unknown
            r is Ok <==> (!old(store).has_pin(pin.id@) && old(store).has_paper(
                old(self).spec_item().spec_format(),
            )),
            match r {
                Ok(_) => {
                    &&& final(store).pins@.len() == old(store).pins@.len() + 1
                    &&& final(store).pins@.last().id == pin.id
                    &&& final(store).pins@.last().arxiv_id@ == old(self).spec_item().spec_format()
                    &&& final(store).pins@.last().ref_id is None
                    &&& final(store).pins@.last().published_at == published_at
                    &&& final(store).pins@.subrange(0, old(store).pins@.len() as int) == old(
                        store,
                    ).pins@
                    &&& final(store).papers == old(store).papers
                    &&& final(store).authors == old(store).authors
                    &&& final(store).subjects == old(store).subjects
                    &&& final(store).update_time == old(store).update_time
                    &&& final(self).batch_ts == old(self).batch_ts
                    &&& (final(self).phase is AwaitMeta <==> old(self).item_pos + 1 < old(self).pending@.len())
                    &&& (final(self).phase is AwaitMeta ==> {
                        &&& final(self).item_pos == old(self).item_pos + 1
                        &&& final(self).pending == old(self).pending
                        &&& final(self).sub_pos == old(self).sub_pos
                    })
                    &&& (!(final(self).phase is AwaitMeta) ==> {
                        &&& final(self).sub_pos == old(self).sub_pos + 1
                        &&& (final(self).phase is AwaitFeed <==> old(self).sub_pos + 1 < old(self).subjects@.len())
                        &&& (final(self).phase is Done <==> old(self).sub_pos + 1 >= old(self).subjects@.len())
                    })
                },
                Err(e) => {
                    &&& e == Error::PersistenceFailure
                    &&& *final(store) == *old(store)
                    &&& final(self).phase is Failed
                    &&& final(self).err == Some(e)
                },
            },
    {
        let ix = self.pending[self.item_pos].clone();
        match store.insert_pin(pin, None, &ix, published_at) {
            Ok(_) => {
                let plen = self.pending.len();
                proof {
                    assert(self.item_pos < plen);
                }
                self.item_pos = self.item_pos + 1;
                if self.item_pos < self.pending.len() {
                    self.phase = Phase::AwaitMeta;
                } else {
                    self.advance_subject();
                }
                Ok(())
            },
            Err(e) => {
                self.phase = Phase::Failed;
                self.err = Some(e);
                Err(e)
            },
        }
    }

    /// Publishing failed — an expired credential or a rejection: the
    /// cycle aborts.
    pub fn publish_failed(&mut self, e: Error)
        requires
            old(self).wf(),
        ensures
            final(self).wf(),
            final(self).phase is Failed,
            final(self).err == Some(e),
    {
        self.phase = Phase::Failed;
        self.err = Some(e);
    }
}


} // verus!
