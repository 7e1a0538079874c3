//! The polling configuration: which feed source to read and which
//! subjects to poll, in configuration order.

use vstd::prelude::*;

use crate::strutil::str_eq;
use crate::subject::{spec_from_string, Subject};

verus! {

/// The scraping configuration. `source` defaults to the feed source when
/// absent.
#[derive(Debug)]
pub struct Scraper {
    pub source: Option<String>,
    pub subject: Vec<String>,
}

impl Scraper {
    /// Whether the configured source is one this build can read: only
    /// the feed source (`rss`) is.
    pub open spec fn source_ok(self) -> bool {
        match self.source {
            Some(s) => s@ == "rss"@,
            None => true,
        }
    }

    /// The subjects to poll, in configuration order, or nothing when the
    /// configured source is unknown.
    pub fn plan_subjects(&self) -> (r: Option<Vec<Subject>>)
        ensures
            r is Some <==> self.source_ok(),
            r matches Some(v) ==> v@.len() == self.subject@.len() && forall|k: int|
                0 <= k < v@.len() ==> spec_from_string(self.subject@[k]@, #[trigger] v@[k]),
    {
        match &self.source {
            Some(s) => {
                if !str_eq(s.as_str(), "rss") {
                    return None;
                }
            },
            None => {},
        }
        let mut out: Vec<Subject> = Vec::new();
        let mut i: usize = 0;
        while i < self.subject.len()
            invariant
                0 <= i <= self.subject@.len(),
                out@.len() == i,
                forall|k: int|
                    0 <= k < i ==> spec_from_string(self.subject@[k]@, #[trigger] out@[k]),
            decreases self.subject@.len() - i,
        {
            out.push(Subject::from_string(self.subject[i].as_str()));
            i = i + 1;
        }
        Some(out)
    }
}

} // verus!
