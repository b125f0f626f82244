//! Calendar dates identifying channel instances, rendered as "YYYY-MM-DD".

use vstd::prelude::*;

use crate::digits::{
    all_digits, digits_val, fixed_digits, is_digit, lemma_fixed_digits_unique,
    lemma_fixed_digits_val, lemma_pow10_small, parse_u64_run, push_u64_fixed,
};

verus! {

/// A calendar date, as the channel catalog spells it: year, month and day,
/// zero padded to four, two and two digits.
#[derive(Clone, Copy, Debug, PartialEq, Eq, Structural)]
pub struct Date {
    pub year: u64,
    pub month: u64,
    pub day: u64,
}

/// A well-formed date: the fields fit their fixed widths and calendar ranges.
pub open spec fn spec_date_wf(d: Date) -> bool {
    &&& d.year <= 9999
    &&& 1 <= d.month <= 12
    &&& 1 <= d.day <= 31
}

/// The canonical string form of a date: "YYYY-MM-DD".
pub open spec fn spec_date_str(d: Date) -> Seq<char> {
    fixed_digits(d.year as nat, 4) + seq!['-'] + fixed_digits(d.month as nat, 2) + seq!['-']
        + fixed_digits(d.day as nat, 2)
}

/// The shape of a rendered date: ten characters, dashes at four and seven,
/// digits elsewhere.
pub proof fn lemma_date_str_form(d: Date)
    requires
        spec_date_wf(d),
    ensures
        ({
            let s = spec_date_str(d);
            &&& s.len() == 10
            &&& s[4] == '-'
            &&& s[7] == '-'
            &&& s.subrange(0, 4) == fixed_digits(d.year as nat, 4)
            &&& s.subrange(5, 7) == fixed_digits(d.month as nat, 2)
            &&& s.subrange(8, 10) == fixed_digits(d.day as nat, 2)
            &&& forall|j: int| 0 <= j < 10 && j != 4 && j != 7 ==> is_digit(#[trigger] s[j])
        }),
{
    let s = spec_date_str(d);
    let y = fixed_digits(d.year as nat, 4);
    let m = fixed_digits(d.month as nat, 2);
    let dd = fixed_digits(d.day as nat, 2);
    lemma_pow10_small();
    lemma_fixed_digits_val(d.year as nat, 4);
    lemma_fixed_digits_val(d.month as nat, 2);
    lemma_fixed_digits_val(d.day as nat, 2);
    assert(s.subrange(0, 4) =~= y);
    assert(s.subrange(5, 7) =~= m);
    assert(s.subrange(8, 10) =~= dd);
    assert forall|j: int| 0 <= j < 10 && j != 4 && j != 7 implies is_digit(#[trigger] s[j]) by {
        if j < 4 {
            assert(s[j] == y[j]);
        } else if j < 7 {
            assert(s[j] == m[j - 5]);
        } else {
            assert(s[j] == dd[j - 8]);
        }
    }
}

/// The rendering determines the date: no two well-formed dates share it.
pub proof fn lemma_date_str_injective(d1: Date, d2: Date)
    requires
        spec_date_wf(d1),
        spec_date_wf(d2),
        spec_date_str(d1) == spec_date_str(d2),
    ensures
        d1 == d2,
{
    lemma_date_str_form(d1);
    lemma_date_str_form(d2);
    lemma_pow10_small();
    lemma_fixed_digits_val(d1.year as nat, 4);
    lemma_fixed_digits_val(d1.month as nat, 2);
    lemma_fixed_digits_val(d1.day as nat, 2);
    lemma_fixed_digits_val(d2.year as nat, 4);
    lemma_fixed_digits_val(d2.month as nat, 2);
    lemma_fixed_digits_val(d2.day as nat, 2);
    assert(spec_date_str(d1).subrange(0, 4) == spec_date_str(d2).subrange(0, 4));
    assert(spec_date_str(d1).subrange(5, 7) == spec_date_str(d2).subrange(5, 7));
    assert(spec_date_str(d1).subrange(8, 10) == spec_date_str(d2).subrange(8, 10));
}

impl Date {
    /// Append the canonical rendering of this date.
    pub fn push_chars(&self, out: &mut Vec<char>)
        ensures
            final(out)@ == old(out)@ + spec_date_str(*self),
    {
        push_u64_fixed(out, self.year, 4);
        out.push('-');
        push_u64_fixed(out, self.month, 2);
        out.push('-');
        push_u64_fixed(out, self.day, 2);
        assert(out@ =~= old(out)@ + spec_date_str(*self));
    }

    /// Read the ten characters at `from` as a date. Succeeds exactly on the
    /// canonical string form of some well-formed date, and returns that date.
    pub fn parse_at(s: &Vec<char>, from: usize) -> (r: Option<Date>)
        requires
            from + 10 <= s@.len(),
        ensures
            r is Some ==> spec_date_wf(r->0) && s@.subrange(from as int, from + 10)
                == spec_date_str(r->0),
            forall|d: Date|
                spec_date_wf(d) && s@.subrange(from as int, from + 10) == spec_date_str(d)
                    ==> r is Some && r->0 == d,
    {
        let ghost sub = s@.subrange(from as int, from + 10);
        proof {
            assert forall|d: Date| spec_date_wf(d) && sub == spec_date_str(d) implies sub[4] == '-'
                && sub[7] == '-' && all_digits(sub.subrange(0, 4)) && all_digits(
                sub.subrange(5, 7),
            ) && all_digits(sub.subrange(8, 10)) by {
                lemma_date_str_form(d);
                lemma_pow10_small();
                assert(all_digits(sub.subrange(0, 4))) by {
                    assert(sub.subrange(0, 4) == fixed_digits(d.year as nat, 4));
                    lemma_fixed_digits_val(d.year as nat, 4);
                }
                assert(all_digits(sub.subrange(5, 7))) by {
                    assert(sub.subrange(5, 7) == fixed_digits(d.month as nat, 2));
                    lemma_fixed_digits_val(d.month as nat, 2);
                }
                assert(all_digits(sub.subrange(8, 10))) by {
                    assert(sub.subrange(8, 10) == fixed_digits(d.day as nat, 2));
                    lemma_fixed_digits_val(d.day as nat, 2);
                }
            }
            assert(sub[4] == s@[from + 4]);
            assert(sub[7] == s@[from + 7]);
            assert(s@.subrange(from as int, from + 4) =~= sub.subrange(0, 4));
            assert(s@.subrange(from + 5, from + 7) =~= sub.subrange(5, 7));
            assert(s@.subrange(from + 8, from + 10) =~= sub.subrange(8, 10));
        }
        let n = s.len();
        assert(from + 10 <= n);
        if !(s[from + 4] == '-' && s[from + 7] == '-') {
            return None;
        }
        let year = match parse_u64_run(s, from, from + 4) {
            Some(n) => n,
            None => {
                return None;
            },
        };
        let month = match parse_u64_run(s, from + 5, from + 7) {
            Some(n) => n,
            None => {
                return None;
            },
        };
        let day = match parse_u64_run(s, from + 8, from + 10) {
            Some(n) => n,
            None => {
                return None;
            },
        };
        if !(month >= 1 && month <= 12 && day >= 1 && day <= 31) {
            proof {
                assert forall|d: Date| !(spec_date_wf(d) && sub == spec_date_str(d)) by {
                    if spec_date_wf(d) && sub == spec_date_str(d) {
                        lemma_date_str_form(d);
                        lemma_pow10_small();
                        lemma_fixed_digits_val(d.month as nat, 2);
                        lemma_fixed_digits_val(d.day as nat, 2);
                        assert(month == digits_val(sub.subrange(5, 7)));
                        assert(day == digits_val(sub.subrange(8, 10)));
                    }
                }
            }
            return None;
        }
        let d = Date { year, month, day };
        proof {
            let sy = sub.subrange(0, 4);
            let sm = sub.subrange(5, 7);
            let sd = sub.subrange(8, 10);
            lemma_fixed_digits_unique(sy);
            lemma_fixed_digits_unique(sm);
            lemma_fixed_digits_unique(sd);
            assert(sub =~= sy + seq!['-'] + sm + seq!['-'] + sd);
            assert(sub == spec_date_str(d));
            assert(spec_date_wf(d));
            assert forall|d2: Date| spec_date_wf(d2) && sub == spec_date_str(d2) implies d == d2 by {
                lemma_date_str_injective(d, d2);
            }
        }
        Some(d)
    }
}

} // verus!
