//! A publish handle: the identifier the publishing collaborator returns
//! for a delivered item, and the reader that extracts one from a
//! pin-page address.

use vstd::prelude::*;
use vstd::string::StrSliceExecFns;

use crate::digits::{all_digits, is_digit};
use crate::errors::Error;

verus! {

/// A handle to a published item.
#[derive(Debug)]
pub struct Pin {
    pub id: String,
}

impl Clone for Pin {
    fn clone(&self) -> (r: Self)
        ensures
            r.id == self.id,
    {
        Pin { id: self.id.clone() }
    }
}

impl Pin {
    /// A handle with the given identifier.
    pub fn new(id: &str) -> (r: Pin)
        ensures
            r.id@ == id@,
    {
        Pin { id: id.to_owned() }
    }
}

impl Default for Pin {
    /// The placeholder handle used where no prior pin exists.
    fn default() -> (r: Self)
        ensures
            r.id@ == "0"@,
    {
        Pin { id: String::from_str("0") }
    }
}

pub open spec fn is_prefix(p: Seq<char>, s: Seq<char>) -> bool {
    p.len() <= s.len() && s.subrange(0, p.len() as int) == p
}

/// The stem in front of the numeric handle of a pin-page address, with
/// scheme and host prefix each optional.
pub open spec fn stem_of(s: Seq<char>) -> Option<Seq<char>> {
    if is_prefix("https://www.zhihu.com/pin/"@, s) {
        Some("https://www.zhihu.com/pin/"@)
    } else if is_prefix("https://zhihu.com/pin/"@, s) {
        Some("https://zhihu.com/pin/"@)
    } else if is_prefix("www.zhihu.com/pin/"@, s) {
        Some("www.zhihu.com/pin/"@)
    } else if is_prefix("zhihu.com/pin/"@, s) {
        Some("zhihu.com/pin/"@)
    } else {
        None
    }
}

/// The numeric handle of a pin-page address: what follows the stem, less
/// at most one trailing slash, when that is one or more digits.
pub open spec fn spec_pin_id(s: Seq<char>) -> Option<Seq<char>> {
    match stem_of(s) {
        None => None,
        Some(st) => {
            let body = if s.len() > st.len() && s.last() == '/' {
                s.subrange(st.len() as int, s.len() - 1)
            } else {
                s.subrange(st.len() as int, s.len() as int)
            };
            if body.len() >= 1 && all_digits(body) {
                Some(body)
            } else {
                None
            }
        },
    }
}

/// Whether `s` begins with `pre`, character for character.
fn starts_with(s: &str, pre: &str) -> (r: bool)
    requires
        pre@.len() <= s@.len(),
    ensures
        r == is_prefix(pre@, s@),
{
    let m = pre.unicode_len();
    let mut i: usize = 0;
    while i < m
        invariant
            m == pre@.len() <= s@.len(),
            0 <= i <= m,
            forall|j: int| 0 <= j < i ==> s@[j] == pre@[j],
        decreases m - i,
    {
        if s.get_char(i) != pre.get_char(i) {
            proof {
                assert(s@.subrange(0, pre@.len() as int)[i as int] != pre@[i as int]);
            }
            return false;
        }
        i = i + 1;
    }
    proof {
        assert(s@.subrange(0, pre@.len() as int) =~= pre@);
    }
    true
}

/// Read the numeric handle out of a pin-page address.
pub fn parse_pin_url(s: &str) -> (r: Result<Pin, Error>)
    ensures
        r is Ok <==> spec_pin_id(s@) is Some,
        r matches Ok(p) ==> p.id@ == spec_pin_id(s@).unwrap(),
        r matches Err(e) ==> e == Error::InvalidIdentifier,
{
    let n = s.unicode_len();
    let s0 = "https://www.zhihu.com/pin/";
    let s1 = "https://zhihu.com/pin/";
    let s2 = "www.zhihu.com/pin/";
    let s3 = "zhihu.com/pin/";
    let stem: &str = if s0.unicode_len() <= n && starts_with(s, s0) {
        s0
    } else if s1.unicode_len() <= n && starts_with(s, s1) {
        s1
    } else if s2.unicode_len() <= n && starts_with(s, s2) {
        s2
    } else if s3.unicode_len() <= n && starts_with(s, s3) {
        s3
    } else {
        proof {
            assert(stem_of(s@) is None);
        }
        return Err(Error::InvalidIdentifier);
    };
    proof {
        assert(stem_of(s@) == Some(stem@));
    }
    let sl = stem.unicode_len();
    let end = if n > sl && (s.get_char(n - 1) as u32) == 47 {
        proof {
            assert(s@.last() == '/');
        }
        n - 1
    } else {
        n
    };
    let ghost body = s@.subrange(sl as int, end as int);
    if end <= sl {
        proof {
            assert(body.len() == 0);
        }
        return Err(Error::InvalidIdentifier);
    }
    let mut i: usize = sl;
    while i < end
        invariant
            sl < end <= n,
            sl <= i <= end,
            n == s@.len(),
            sl == stem@.len(),
            body == s@.subrange(sl as int, end as int),
            spec_pin_id(s@) == if all_digits(body) {
                Some(body)
            } else {
                None::<Seq<char>>
            },
            forall|j: int| sl <= j < i ==> is_digit(#[trigger] s@[j]),
        decreases end - i,
    {
        let u = s.get_char(i) as u32;
        if u < 48 || u > 57 {
            proof {
                assert(!is_digit(s@[i as int]));
                assert(!all_digits(body)) by {
                    assert(body[i - sl] == s@[i as int]);
                }
            }
            return Err(Error::InvalidIdentifier);
        }
        proof {
            assert(is_digit(s@[i as int]));
        }
        i = i + 1;
    }
    let digits = s.substring_char(sl, end);
    proof {
        assert(all_digits(body));
        assert(spec_pin_id(s@) == Some(body));
    }
    Ok(Pin::new(digits))
}

} // verus!
