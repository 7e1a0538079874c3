//! Subject taxonomy: a closed set of known {code, display} pairs plus a
//! fallback variant carrying raw text for anything unrecognized.

use vstd::prelude::*;
use vstd::string::StrSliceExecFns;

use crate::strutil::str_eq;

verus! {

/// A publication subject. Known variants map between a short code
/// (`math.CT`) and a display string (`Category Theory (math.CT)`);
/// `Others` keeps whatever raw text was seen.
#[allow(non_camel_case_types)]
#[derive(Debug, PartialEq)]
pub enum Subject {
    math_CT,
    math_HO,
    math_LO,
    cs_LO,
    cs_PL,
    Others(String),
}

pub open spec fn is_delim(c: char) -> bool {
    c == '(' || c == ')'
}

/// Index of the first parenthesis at or after `i`, or `s.len()` if none.
pub open spec fn find_delim(s: Seq<char>, i: int) -> int
    decreases s.len() - i when 0 <= i <= s.len()
{
    if i >= s.len() {
        s.len() as int
    } else if is_delim(s[i]) {
        i
    } else {
        find_delim(s, i + 1)
    }
}

/// Whether the raw text has a parenthesized segment to extract a code from.
pub open spec fn has_delim(s: Seq<char>) -> bool {
    find_delim(s, 0) < s.len()
}

/// The segment between the first parenthesis and the following one
/// (or the end): the code inside a `Display Name (code)` string.
pub open spec fn spec_strip(s: Seq<char>) -> Seq<char> {
    let a = find_delim(s, 0);
    let b = find_delim(s, a + 1);
    s.subrange(a + 1, b)
}

impl Subject {
    /// The canonical short code, as a sequence of characters.
    pub open spec fn spec_code(self) -> Seq<char> {
        match self {
            Subject::math_CT => "math.CT"@,
            Subject::math_HO => "math.HO"@,
            Subject::math_LO => "math.LO"@,
            Subject::cs_LO => "cs.LO"@,
            Subject::cs_PL => "cs.PL"@,
            Subject::Others(s) => spec_strip(s@),
        }
    }

    /// The display form, as a sequence of characters.
    pub open spec fn spec_display(self) -> Seq<char> {
        match self {
            Subject::math_CT => "Category Theory (math.CT)"@,
            Subject::math_HO => "History and Overview (math.HO)"@,
            Subject::math_LO => "Logic (math.LO)"@,
            Subject::cs_LO => "Logic in Computer Science (cs.LO)"@,
            Subject::cs_PL => "Programming Languages (cs.PL)"@,
            Subject::Others(s) => s@,
        }
    }

    /// A code can be produced: either a known variant, or raw text with a
    /// parenthesized segment.
    pub open spec fn code_ok(self) -> bool {
        match self {
            Subject::Others(s) => has_delim(s@),
            _ => true,
        }
    }
}

/// The known variant whose code or display form is `s`, if any.
pub open spec fn spec_from_known(s: Seq<char>) -> Option<Subject> {
    if s == "math.CT"@ || s == "Category Theory (math.CT)"@ {
        Some(Subject::math_CT)
    } else if s == "math.HO"@ || s == "History and Overview (math.HO)"@ {
        Some(Subject::math_HO)
    } else if s == "math.LO"@ || s == "Logic (math.LO)"@ {
        Some(Subject::math_LO)
    } else if s == "cs.LO"@ || s == "Logic in Computer Science (cs.LO)"@ {
        Some(Subject::cs_LO)
    } else if s == "cs.PL"@ || s == "Programming Languages (cs.PL)"@ {
        Some(Subject::cs_PL)
    } else {
        None
    }
}

/// What `Subject::from_string` must return for input `s`.
pub open spec fn spec_from_string(s: Seq<char>, r: Subject) -> bool {
    match spec_from_known(s) {
        Some(v) => r == v,
        None => r matches Subject::Others(t) && t@ == s,
    }
}

impl Clone for Subject {
    fn clone(&self) -> (r: Self)
        ensures
            r == *self,
    {
        match self {
            Subject::math_CT => Subject::math_CT,
            Subject::math_HO => Subject::math_HO,
            Subject::math_LO => Subject::math_LO,
            Subject::cs_LO => Subject::cs_LO,
            Subject::cs_PL => Subject::cs_PL,
            Subject::Others(s) => Subject::Others(s.clone()),
        }
    }
}

impl Subject {
    /// Match `s` against the known table of codes and display strings;
    /// keep the raw text on no match.
    pub fn from_string(s: &str) -> (r: Subject)
        ensures
            spec_from_string(s@, r),
    {
        if str_eq(s, "math.CT") || str_eq(s, "Category Theory (math.CT)") {
            Subject::math_CT
        } else if str_eq(s, "math.HO") || str_eq(s, "History and Overview (math.HO)") {
            Subject::math_HO
        } else if str_eq(s, "math.LO") || str_eq(s, "Logic (math.LO)") {
            Subject::math_LO
        } else if str_eq(s, "cs.LO") || str_eq(s, "Logic in Computer Science (cs.LO)") {
            Subject::cs_LO
        } else if str_eq(s, "cs.PL") || str_eq(s, "Programming Languages (cs.PL)") {
            Subject::cs_PL
        } else {
            Subject::Others(s.to_owned())
        }
    }

    /// The canonical short code, used as storage key and feed-path segment.
    pub fn as_str(&self) -> (r: &str)
        requires
            self.code_ok(),
        ensures
            r@ == self.spec_code(),
    {
        match self {
            Subject::math_CT => "math.CT",
            Subject::math_HO => "math.HO",
            Subject::math_LO => "math.LO",
            Subject::cs_LO => "cs.LO",
            Subject::cs_PL => "cs.PL",
            Subject::Others(s) => Subject::strip(s.as_str()),
        }
    }

    /// The human-readable form; raw text is returned unchanged.
    pub fn as_display(&self) -> (r: &str)
        ensures
            r@ == self.spec_display(),
    {
        match self {
            Subject::math_CT => "Category Theory (math.CT)",
            Subject::math_HO => "History and Overview (math.HO)",
            Subject::math_LO => "Logic (math.LO)",
            Subject::cs_LO => "Logic in Computer Science (cs.LO)",
            Subject::cs_PL => "Programming Languages (cs.PL)",
            Subject::Others(s) => s.as_str(),
        }
    }

    /// Whether a code can be produced for this subject.
    pub fn has_code(&self) -> (r: bool)
        ensures
            r == self.code_ok(),
    {
        match self {
            Subject::Others(s) => {
                let n = s.as_str().unicode_len();
                let mut a: usize = 0;
                while a < n && !(s.as_str().get_char(a) == '(' || s.as_str().get_char(a) == ')')
                    invariant
                        n == s@.len(),
                        0 <= a <= n,
                        find_delim(s@, 0) == find_delim(s@, a as int),
                    decreases n - a,
                {
                    a = a + 1;
                }
                a < n
            },
            _ => true,
        }
    }

    /// Extract the parenthesized segment of a `Display Name (code)` string.
    pub fn strip(s: &str) -> (r: &str)
        requires
            has_delim(s@),
        ensures
            r@ == spec_strip(s@),
    {
        let n = s.unicode_len();
        let mut a: usize = 0;
        while a < n && !(s.get_char(a) == '(' || s.get_char(a) == ')')
            invariant
                n == s@.len(),
                0 <= a <= n,
                find_delim(s@, 0) == find_delim(s@, a as int),
            decreases n - a,
        {
            a = a + 1;
        }
        proof {
            assert(find_delim(s@, a as int) == a as int);
            assert(a < n);
        }
        let mut b: usize = a + 1;
        while b < n && !(s.get_char(b) == '(' || s.get_char(b) == ')')
            invariant
                n == s@.len(),
                a + 1 <= b <= n,
                find_delim(s@, a + 1) == find_delim(s@, b as int),
            decreases n - b,
        {
            b = b + 1;
        }
        proof {
            assert(find_delim(s@, b as int) == b as int);
        }
        s.substring_char(a + 1, b)
    }
}

/// Law: for every known variant, parsing its own code yields the variant back.
pub proof fn lemma_known_subject_round_trip(v: Subject)
    requires
        !(v is Others),
    ensures
        spec_from_known(v.spec_code()) == Some(v),
{
    reveal_strlit("math.CT");
    reveal_strlit("math.HO");
    reveal_strlit("math.LO");
    reveal_strlit("cs.LO");
    reveal_strlit("cs.PL");
    reveal_strlit("Category Theory (math.CT)");
    reveal_strlit("History and Overview (math.HO)");
    reveal_strlit("Logic (math.LO)");
    reveal_strlit("Logic in Computer Science (cs.LO)");
    reveal_strlit("Programming Languages (cs.PL)");
    match v {
        Subject::math_CT => {
            assert(spec_from_known("math.CT"@) == Some(Subject::math_CT));
        },
        Subject::math_HO => {
            assert("math.HO"@ != "math.CT"@) by {
                assert("math.HO"@[5] != "math.CT"@[5]);
            }
            assert(spec_from_known("math.HO"@) == Some(Subject::math_HO));
        },
        Subject::math_LO => {
            assert("math.LO"@[5] != "math.CT"@[5]);
            assert("math.LO"@[5] != "math.HO"@[5]);
            assert(spec_from_known("math.LO"@) == Some(Subject::math_LO));
        },
        Subject::cs_LO => {
            assert("cs.LO"@.len() != "math.CT"@.len());
            assert(spec_from_known("cs.LO"@) == Some(Subject::cs_LO));
        },
        Subject::cs_PL => {
            assert("cs.PL"@[3] != "cs.LO"@[3]);
            assert(spec_from_known("cs.PL"@) == Some(Subject::cs_PL));
        },
        Subject::Others(_) => {
        },
    }
}

/// Law: parsing a known display string also yields the matching variant,
/// so code and display forms name the same subject.
pub proof fn lemma_known_display_round_trip(v: Subject)
    requires
        !(v is Others),
    ensures
        spec_from_known(v.spec_display()) == Some(v),
{
    reveal_strlit("math.CT");
    reveal_strlit("math.HO");
    reveal_strlit("math.LO");
    reveal_strlit("cs.LO");
    reveal_strlit("cs.PL");
    reveal_strlit("Category Theory (math.CT)");
    reveal_strlit("History and Overview (math.HO)");
    reveal_strlit("Logic (math.LO)");
    reveal_strlit("Logic in Computer Science (cs.LO)");
    reveal_strlit("Programming Languages (cs.PL)");
    match v {
        Subject::math_CT => {
            assert("Category Theory (math.CT)"@.len() != "math.CT"@.len());
            assert(spec_from_known("Category Theory (math.CT)"@) == Some(Subject::math_CT));
        },
        Subject::math_HO => {
            assert("History and Overview (math.HO)"@[0] != "Category Theory (math.CT)"@[0]);
            assert(spec_from_known("History and Overview (math.HO)"@) == Some(Subject::math_HO));
        },
        Subject::math_LO => {
            assert("Logic (math.LO)"@.len() != "Category Theory (math.CT)"@.len());
            assert(spec_from_known("Logic (math.LO)"@) == Some(Subject::math_LO));
        },
        Subject::cs_LO => {
            assert("Logic in Computer Science (cs.LO)"@.len() != "Category Theory (math.CT)"@.len());
            assert(spec_from_known("Logic in Computer Science (cs.LO)"@) == Some(Subject::cs_LO));
        },
        Subject::cs_PL => {
            assert("Programming Languages (cs.PL)"@[0] != "Category Theory (math.CT)"@[0]);
            assert(spec_from_known("Programming Languages (cs.PL)"@) == Some(Subject::cs_PL));
        },
        Subject::Others(_) => {
        },
    }
}

} // verus!
