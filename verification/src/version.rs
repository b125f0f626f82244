//! Release versions: a totally ordered, string-round-trippable identifier,
//! and requirements that select one version out of a candidate set.

use vstd::prelude::*;

use crate::digits::{
    all_digits, dec_digits, digits_val, is_digit, lemma_canonical_digits_unique,
    lemma_dec_digits_form, lemma_dec_digits_val, parse_u64_canonical, push_u64_dec,
};
use crate::text::{chars_to_string, find_char, str_to_chars};

verus! {

/// A release identifier: three numeric components, ordered lexicographically.
#[derive(Clone, Copy, Debug, PartialEq, Eq, Structural)]
pub struct Version {
    pub major: u64,
    pub minor: u64,
    pub patch: u64,
}

/// Errors of the version component.
#[derive(Clone, Copy, Debug, PartialEq, Eq, Structural)]
pub enum VersionError {
    InvalidVersionString,
}

/// The canonical string form of a version: the three components in canonical
/// decimal, separated by dots.
pub open spec fn spec_version_str(v: Version) -> Seq<char> {
    dec_digits(v.major as nat) + seq!['.'] + dec_digits(v.minor as nat) + seq!['.'] + dec_digits(
        v.patch as nat,
    )
}

/// The total order on versions: compare major, then minor, then patch.
pub open spec fn spec_version_le(a: Version, b: Version) -> bool {
    ||| a.major < b.major
    ||| (a.major == b.major && a.minor < b.minor)
    ||| (a.major == b.major && a.minor == b.minor && a.patch <= b.patch)
}

/// Two digit runs followed by the same separator and arbitrary tails split at
/// the separator: digit runs cannot absorb it.
proof fn lemma_sep_split(x1: Seq<char>, y1: Seq<char>, x2: Seq<char>, y2: Seq<char>, c: char)
    requires
        all_digits(x1),
        all_digits(x2),
        !is_digit(c),
        x1 + seq![c] + y1 == x2 + seq![c] + y2,
    ensures
        x1 == x2,
        y1 == y2,
{
    let s = x1 + seq![c] + y1;
    if x1.len() == x2.len() {
        assert forall|i: int| 0 <= i < x1.len() implies x1[i] == x2[i] by {
            assert((x1 + seq![c] + y1)[i] == x1[i]);
            assert((x2 + seq![c] + y2)[i] == x2[i]);
        }
        assert(x1 =~= x2);
        assert((x1 + seq![c] + y1).len() == x1.len() + 1 + y1.len());
        assert((x2 + seq![c] + y2).len() == x2.len() + 1 + y2.len());
        assert(y1.len() == y2.len());
        assert forall|i: int| 0 <= i < y1.len() implies y1[i] == y2[i] by {
            assert((x1 + seq![c] + y1)[x1.len() + 1 + i] == y1[i]);
            assert((x2 + seq![c] + y2)[x2.len() + 1 + i] == y2[i]);
        }
        assert(y1 =~= y2);
    } else if x1.len() < x2.len() {
        assert(s[x1.len() as int] == c);
        assert(s[x1.len() as int] == x2[x1.len() as int]);
        assert(is_digit(x2[x1.len() as int]));
        assert(false);
    } else {
        assert(s[x2.len() as int] == x1[x2.len() as int]);
        assert(s[x2.len() as int] == c);
        assert(is_digit(x1[x2.len() as int]));
        assert(false);
    }
}

/// The canonical string form determines the version: rendering is injective.
pub proof fn lemma_version_str_injective(v1: Version, v2: Version)
    requires
        spec_version_str(v1) == spec_version_str(v2),
    ensures
        v1 == v2,
{
    let a1 = dec_digits(v1.major as nat);
    let b1 = dec_digits(v1.minor as nat);
    let c1 = dec_digits(v1.patch as nat);
    let a2 = dec_digits(v2.major as nat);
    let b2 = dec_digits(v2.minor as nat);
    let c2 = dec_digits(v2.patch as nat);
    lemma_dec_digits_form(v1.major as nat);
    lemma_dec_digits_form(v1.minor as nat);
    lemma_dec_digits_form(v2.major as nat);
    lemma_dec_digits_form(v2.minor as nat);
    assert(spec_version_str(v1) =~= a1 + seq!['.'] + (b1 + seq!['.'] + c1));
    assert(spec_version_str(v2) =~= a2 + seq!['.'] + (b2 + seq!['.'] + c2));
    lemma_sep_split(a1, b1 + seq!['.'] + c1, a2, b2 + seq!['.'] + c2, '.');
    lemma_sep_split(b1, c1, b2, c2, '.');
    lemma_dec_digits_val(v1.major as nat);
    lemma_dec_digits_val(v2.major as nat);
    lemma_dec_digits_val(v1.minor as nat);
    lemma_dec_digits_val(v2.minor as nat);
    lemma_dec_digits_val(v1.patch as nat);
    lemma_dec_digits_val(v2.patch as nat);
}

/// Facts about the shape of a rendered version string: where its two dots
/// stand and what fills the runs between them.
proof fn lemma_version_str_structure(v: Version)
    ensures
        ({
            let s = spec_version_str(v);
            let la = dec_digits(v.major as nat).len() as int;
            let lb = dec_digits(v.minor as nat).len() as int;
            let lc = dec_digits(v.patch as nat).len() as int;
            &&& s.len() == la + lb + lc + 2
            &&& s[la] == '.'
            &&& s[la + 1 + lb] == '.'
            &&& s.subrange(0, la) == dec_digits(v.major as nat)
            &&& s.subrange(la + 1, la + 1 + lb) == dec_digits(v.minor as nat)
            &&& s.subrange(la + 1 + lb + 1, s.len() as int) == dec_digits(v.patch as nat)
            &&& forall|j: int| 0 <= j < s.len() && j != la && j != la + 1 + lb ==> is_digit(#[trigger] s[j])
        }),
{
    let s = spec_version_str(v);
    let a = dec_digits(v.major as nat);
    let b = dec_digits(v.minor as nat);
    let c = dec_digits(v.patch as nat);
    lemma_dec_digits_form(v.major as nat);
    lemma_dec_digits_form(v.minor as nat);
    lemma_dec_digits_form(v.patch as nat);
    let la = a.len() as int;
    let lb = b.len() as int;
    assert(s.subrange(0, la) =~= a);
    assert(s.subrange(la + 1, la + 1 + lb) =~= b);
    assert(s.subrange(la + 1 + lb + 1, s.len() as int) =~= c);
    assert forall|j: int| 0 <= j < s.len() && j != la && j != la + 1 + lb implies is_digit(
        #[trigger] s[j],
    ) by {
        if j < la {
            assert(s[j] == a[j]);
        } else if j < la + 1 + lb {
            assert(s[j] == b[j - la - 1]);
        } else {
            assert(s[j] == c[j - (la + 1 + lb + 1)]);
        }
    }
}

impl Version {
    /// The version as its canonical string.
    pub fn to_string(&self) -> (s: String)
        ensures
            s@ == spec_version_str(*self),
    {
        let mut out: Vec<char> = Vec::new();
        push_u64_dec(&mut out, self.major);
        out.push('.');
        push_u64_dec(&mut out, self.minor);
        out.push('.');
        push_u64_dec(&mut out, self.patch);
        assert(out@ =~= spec_version_str(*self));
        chars_to_string(&out)
    }

    /// Read a version out of a character vector. Succeeds exactly on the
    /// canonical string form of some version, and returns that version.
    #[verifier::rlimit(60)]
    pub fn parse_chars(s: &Vec<char>) -> (r: Result<Version, VersionError>)
        ensures
            r is Ok ==> s@ == spec_version_str(r->Ok_0),
            forall|v: Version| s@ == spec_version_str(v) ==> r is Ok && r->Ok_0 == v,
    {
        let n = s.len();
        let p1_opt = find_char(s, 0, '.');
        let p1 = match p1_opt {
            Some(p) => p,
            None => 0,
        };
        if p1_opt.is_none() {
            proof {
                assert forall|v: Version| s@ != spec_version_str(v) by {
                    if s@ == spec_version_str(v) {
                        lemma_version_str_structure(v);
                        let la = dec_digits(v.major as nat).len() as int;
                        assert(s@[la] == '.');
                    }
                }
            }
            return Err(VersionError::InvalidVersionString);
        }
        assert(p1 < n);
        // p1 is the first dot; on a rendered version it closes the major run,
        // because the major run itself holds digits only.
        proof {
            assert forall|v: Version| s@ == spec_version_str(v) implies p1 == dec_digits(
                v.major as nat,
            ).len() by {
                lemma_version_str_structure(v);
                let la = dec_digits(v.major as nat).len() as int;
                assert(s@[la] == '.');
                if p1 < la {
                    assert(is_digit(s@[p1 as int]));
                }
            }
        }
        let major = match parse_u64_canonical(s, 0, p1) {
            Some(m) => m,
            None => {
                proof {
                    assert forall|v: Version| s@ != spec_version_str(v) by {
                        if s@ == spec_version_str(v) {
                            lemma_version_str_structure(v);
                            lemma_dec_digits_form(v.major as nat);
                            lemma_dec_digits_val(v.major as nat);
                            let la = dec_digits(v.major as nat).len() as int;
                            assert(s@.subrange(0, p1 as int) == dec_digits(v.major as nat));
                        }
                    }
                }
                return Err(VersionError::InvalidVersionString);
            },
        };
        let p2_opt = find_char(s, p1 + 1, '.');
        let p2 = match p2_opt {
            Some(p) => p,
            None => 0,
        };
        if p2_opt.is_none() {
            proof {
                assert forall|v: Version| s@ != spec_version_str(v) by {
                    if s@ == spec_version_str(v) {
                        lemma_version_str_structure(v);
                        let la = dec_digits(v.major as nat).len() as int;
                        let lb = dec_digits(v.minor as nat).len() as int;
                        assert(s@[la + 1 + lb] == '.');
                    }
                }
            }
            return Err(VersionError::InvalidVersionString);
        }
        assert(p1 + 1 <= p2 < n);
        // p2 is the first dot after the major run's dot; on a rendered version
        // it closes the minor run.
        proof {
            assert forall|v: Version| s@ == spec_version_str(v) implies p2 == p1 + 1 + dec_digits(
                v.minor as nat,
            ).len() by {
                lemma_version_str_structure(v);
                let la = dec_digits(v.major as nat).len() as int;
                let lb = dec_digits(v.minor as nat).len() as int;
                assert(s@[la + 1 + lb] == '.');
                if p2 < la + 1 + lb {
                    assert(is_digit(s@[p2 as int]));
                }
            }
        }
        let minor = match parse_u64_canonical(s, p1 + 1, p2) {
            Some(m) => m,
            None => {
                proof {
                    assert forall|v: Version| s@ != spec_version_str(v) by {
                        if s@ == spec_version_str(v) {
                            lemma_version_str_structure(v);
                            lemma_dec_digits_form(v.minor as nat);
                            lemma_dec_digits_val(v.minor as nat);
                            let la = dec_digits(v.major as nat).len() as int;
                            let lb = dec_digits(v.minor as nat).len() as int;
                            assert(s@.subrange(p1 + 1, p2 as int) =~= s@.subrange(
                                la + 1,
                                la + 1 + lb,
                            ));
                        }
                    }
                }
                return Err(VersionError::InvalidVersionString);
            },
        };
        let patch = match parse_u64_canonical(s, p2 + 1, n) {
            Some(m) => m,
            None => {
                proof {
                    assert forall|v: Version| s@ != spec_version_str(v) by {
                        if s@ == spec_version_str(v) {
                            lemma_version_str_structure(v);
                            lemma_dec_digits_form(v.patch as nat);
                            lemma_dec_digits_val(v.patch as nat);
                            let la = dec_digits(v.major as nat).len() as int;
                            let lb = dec_digits(v.minor as nat).len() as int;
                            assert(s@.subrange(p2 + 1, n as int) =~= s@.subrange(
                                la + 1 + lb + 1,
                                s@.len() as int,
                            ));
                        }
                    }
                }
                return Err(VersionError::InvalidVersionString);
            },
        };
        let v = Version { major, minor, patch };
        proof {
            let sa = s@.subrange(0, p1 as int);
            let sb = s@.subrange(p1 + 1, p2 as int);
            let sc = s@.subrange(p2 + 1, n as int);
            lemma_canonical_digits_unique(sa);
            lemma_canonical_digits_unique(sb);
            lemma_canonical_digits_unique(sc);
            assert(s@ =~= sa + seq!['.'] + sb + seq!['.'] + sc);
            assert(s@ == spec_version_str(v));
            assert forall|v2: Version| s@ == spec_version_str(v2) implies v == v2 by {
                lemma_version_str_injective(v, v2);
            }
        }
        Ok(v)
    }

    /// Read a version out of its canonical string form.
    pub fn parse(s: &str) -> (r: Result<Version, VersionError>)
        ensures
            r is Ok ==> s@ == spec_version_str(r->Ok_0),
            forall|v: Version| s@ == spec_version_str(v) ==> r is Ok && r->Ok_0 == v,
    {
        let chars = str_to_chars(s);
        Self::parse_chars(&chars)
    }

    /// Whether this version precedes or equals the other in the total order.
    pub fn le(&self, other: &Version) -> (r: bool)
        ensures
            r == spec_version_le(*self, *other),
    {
        if self.major != other.major {
            self.major < other.major
        } else if self.minor != other.minor {
            self.minor < other.minor
        } else {
            self.patch <= other.patch
        }
    }
}

/// A constraint over versions: either any version, preferring the maximum
/// available, or one exact version.
#[derive(Clone, Copy, Debug, PartialEq, Eq, Structural)]
pub enum VersionReq {
    Latest,
    Exact(Version),
}

impl VersionReq {
    /// The requirement demanding exactly the given version.
    pub fn exact(version: Version) -> (r: VersionReq)
        ensures
            r == VersionReq::Exact(version),
    {
        VersionReq::Exact(version)
    }

    /// Whether a version satisfies this requirement: `Latest` accepts any
    /// version, `Exact(x)` accepts exactly `x`.
    pub open spec fn spec_matches(self, v: Version) -> bool {
        match self {
            VersionReq::Latest => true,
            VersionReq::Exact(x) => v == x,
        }
    }

    /// Whether a version satisfies this requirement.
    pub fn matches(&self, v: &Version) -> (r: bool)
        ensures
            r == self.spec_matches(*v),
    {
        match self {
            VersionReq::Latest => true,
            VersionReq::Exact(x) => *v == *x,
        }
    }
}

/// What it means for `v` to be the version a requirement selects out of a
/// candidate set: the unique exact match, or the maximum of the set.
pub open spec fn spec_selects(candidates: Seq<Version>, req: VersionReq, v: Version) -> bool {
    match req {
        VersionReq::Latest => candidates.contains(v) && forall|i: int|
            0 <= i < candidates.len() ==> spec_version_le(#[trigger] candidates[i], v),
        VersionReq::Exact(x) => candidates.contains(x) && v == x,
    }
}

/// Select the version a requirement picks out of a candidate set: the exact
/// match for `Exact`, the maximum candidate for `Latest`; `None` exactly when
/// no candidate satisfies the requirement.
pub fn find_best_match(candidates: &Vec<Version>, req: &VersionReq) -> (r: Option<Version>)
    ensures
        r is Some ==> spec_selects(candidates@, *req, r->0),
        r is None ==> forall|i: int|
            0 <= i < candidates@.len() ==> !req.spec_matches(#[trigger] candidates@[i]),
        *req is Latest ==> (r is Some <==> candidates@.len() > 0),
{
    let rq = *req;
    match rq {
        VersionReq::Exact(x) => {
            let mut i: usize = 0;
            while i < candidates.len()
                invariant
                    i <= candidates@.len(),
                    forall|j: int| 0 <= j < i ==> candidates@[j] != x,
                    *req == VersionReq::Exact(x),
                decreases candidates@.len() - i,
            {
                if candidates[i] == x {
                    assert(candidates@.contains(x)) by {
                        assert(candidates@[i as int] == x);
                    }
                    return Some(x);
                }
                i = i + 1;
            }
            None
        },
        VersionReq::Latest => {
            if candidates.len() == 0 {
                return None;
            }
            let mut best = candidates[0];
            let mut i: usize = 1;
            assert(candidates@.contains(best)) by {
                assert(candidates@[0] == best);
            }
            while i < candidates.len()
                invariant
                    1 <= i <= candidates@.len(),
                    candidates@.contains(best),
                    forall|j: int| 0 <= j < i ==> spec_version_le(#[trigger] candidates@[j], best),
                    *req == VersionReq::Latest,
                decreases candidates@.len() - i,
            {
                if best.le(&candidates[i]) {
                    best = candidates[i];
                    assert(candidates@.contains(best)) by {
                        assert(candidates@[i as int] == best);
                    }
                }
                i = i + 1;
            }
            Some(best)
        },
    }
}

} // verus!
