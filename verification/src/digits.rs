//! Decimal digit strings: canonical rendering of numbers and strict parsing,
//! with the lemmas tying the two directions together.

use vstd::prelude::*;

verus! {

/// The character for one decimal digit value.
pub open spec fn digit_char(d: int) -> char {
    if d == 0 {
        '0'
    } else if d == 1 {
        '1'
    } else if d == 2 {
        '2'
    } else if d == 3 {
        '3'
    } else if d == 4 {
        '4'
    } else if d == 5 {
        '5'
    } else if d == 6 {
        '6'
    } else if d == 7 {
        '7'
    } else if d == 8 {
        '8'
    } else {
        '9'
    }
}

/// Whether a character is a decimal digit.
pub open spec fn is_digit(c: char) -> bool {
    c == '0' || c == '1' || c == '2' || c == '3' || c == '4' || c == '5' || c == '6' || c == '7'
        || c == '8' || c == '9'
}

/// The numeric value of a digit character.
pub open spec fn digit_val(c: char) -> int {
    if c == '0' {
        0
    } else if c == '1' {
        1
    } else if c == '2' {
        2
    } else if c == '3' {
        3
    } else if c == '4' {
        4
    } else if c == '5' {
        5
    } else if c == '6' {
        6
    } else if c == '7' {
        7
    } else if c == '8' {
        8
    } else {
        9
    }
}

/// Whether every character of a string is a decimal digit.
pub open spec fn all_digits(s: Seq<char>) -> bool {
    forall|i: int| 0 <= i < s.len() ==> is_digit(#[trigger] s[i])
}

/// The number denoted by a digit string, most significant digit first.
pub open spec fn digits_val(s: Seq<char>) -> int
    decreases s.len(),
{
    if s.len() == 0 {
        0
    } else {
        digits_val(s.drop_last()) * 10 + digit_val(s.last())
    }
}

/// The canonical decimal rendering of a number: no leading zero, except "0" itself.
pub open spec fn dec_digits(n: nat) -> Seq<char>
    decreases n,
{
    if n < 10 {
        seq![digit_char(n as int)]
    } else {
        dec_digits(n / 10).push(digit_char((n % 10) as int))
    }
}

/// The `width` least significant decimal digits of a number, zero padded.
pub open spec fn fixed_digits(n: nat, width: nat) -> Seq<char>
    decreases width,
{
    if width == 0 {
        Seq::empty()
    } else {
        fixed_digits(n / 10, (width - 1) as nat).push(digit_char((n % 10) as int))
    }
}

/// Ten to the `w`.
pub open spec fn pow10(w: nat) -> nat
    decreases w,
{
    if w == 0 {
        1nat
    } else {
        10 * pow10((w - 1) as nat)
    }
}

/// A canonical digit string: nonempty, digits only, no leading zero unless it is "0".
pub open spec fn is_canonical_digits(s: Seq<char>) -> bool {
    &&& s.len() > 0
    &&& all_digits(s)
    &&& (s.len() > 1 ==> s[0] != '0')
}

pub proof fn lemma_digits_val_push(t: Seq<char>, d: char)
    ensures
        digits_val(t.push(d)) == digits_val(t) * 10 + digit_val(d),
{
    assert(t.push(d).drop_last() =~= t);
    assert(t.push(d).last() == d);
}

pub proof fn lemma_digits_val_single(c: char)
    ensures
        digits_val(seq![c]) == digit_val(c),
{
    let s = seq![c];
    assert(s.last() == c);
    assert(s.drop_last() =~= Seq::<char>::empty());
    assert(digits_val(Seq::<char>::empty()) == 0);
    assert(digits_val(s) == digits_val(s.drop_last()) * 10 + digit_val(s.last()));
}

pub proof fn lemma_digit_char_val(d: int)
    requires
        0 <= d < 10,
    ensures
        is_digit(digit_char(d)),
        digit_val(digit_char(d)) == d,
{
}

pub proof fn lemma_digit_val_char(c: char)
    requires
        is_digit(c),
    ensures
        0 <= digit_val(c) < 10,
        digit_char(digit_val(c)) == c,
{
}

/// A digit string denotes a number in [0, 10^len).
pub proof fn lemma_digits_val_bounds(s: Seq<char>)
    requires
        all_digits(s),
    ensures
        0 <= digits_val(s) < pow10(s.len()),
    decreases s.len(),
{
    if s.len() == 0 {
    } else {
        let t = s.drop_last();
        assert(all_digits(t));
        lemma_digits_val_bounds(t);
        lemma_digit_val_char(s.last());
        let a = digits_val(t);
        let p = pow10(t.len());
        assert(a * 10 + digit_val(s.last()) < 10 * p) by (nonlinear_arith)
            requires
                0 <= a < p,
                0 <= digit_val(s.last()) < 10,
        ;
        assert(a * 10 >= 0) by (nonlinear_arith)
            requires
                a >= 0,
        ;
    }
}

/// A digit string whose first character is not '0' denotes a positive number.
pub proof fn lemma_digits_val_pos(s: Seq<char>)
    requires
        all_digits(s),
        s.len() > 0,
        s[0] != '0',
    ensures
        digits_val(s) >= 1,
    decreases s.len(),
{
    lemma_digit_val_char(s[0]);
    if s.len() == 1 {
        assert(s =~= seq![s[0]]);
        lemma_digits_val_single(s[0]);
    } else {
        let t = s.drop_last();
        assert(t[0] == s[0]);
        assert(all_digits(t));
        lemma_digits_val_pos(t);
        lemma_digit_val_char(s.last());
        assert(digits_val(t) * 10 >= 10) by (nonlinear_arith)
            requires
                digits_val(t) >= 1,
        ;
    }
}

/// The canonical rendering consists of digits, has no leading zero, and is
/// one character long exactly for numbers below ten.
pub proof fn lemma_dec_digits_form(n: nat)
    ensures
        all_digits(dec_digits(n)),
        dec_digits(n).len() >= 1,
        n >= 1 ==> dec_digits(n)[0] != '0',
        n < 10 <==> dec_digits(n).len() == 1,
        is_canonical_digits(dec_digits(n)),
    decreases n,
{
    if n < 10 {
        lemma_digit_char_val(n as int);
    } else {
        lemma_dec_digits_form(n / 10);
        lemma_digit_char_val((n % 10) as int);
        let s = dec_digits(n);
        let t = dec_digits(n / 10);
        assert(s == t.push(digit_char((n % 10) as int)));
        assert(forall|i: int| 0 <= i < s.len() ==> is_digit(#[trigger] s[i])) by {
            assert(forall|i: int| 0 <= i < t.len() ==> s[i] == #[trigger] t[i]);
        }
        assert(s[0] == t[0]);
    }
}

/// Rendering then reading back yields the same number.
pub proof fn lemma_dec_digits_val(n: nat)
    ensures
        digits_val(dec_digits(n)) == n,
    decreases n,
{
    if n < 10 {
        assert(dec_digits(n) == seq![digit_char(n as int)]);
        lemma_digits_val_single(digit_char(n as int));
        lemma_digit_char_val(n as int);
    } else {
        lemma_dec_digits_val(n / 10);
        let t = dec_digits(n / 10);
        let d = digit_char((n % 10) as int);
        lemma_digits_val_push(t, d);
        lemma_digit_char_val((n % 10) as int);
        vstd::arithmetic::div_mod::lemma_fundamental_div_mod(n as int, 10);
    }
}

/// A canonical digit string is the rendering of its value: rendering is the
/// one canonical spelling of each number.
pub proof fn lemma_canonical_digits_unique(s: Seq<char>)
    requires
        is_canonical_digits(s),
    ensures
        s == dec_digits(digits_val(s) as nat),
    decreases s.len(),
{
    lemma_digits_val_bounds(s);
    if s.len() == 1 {
        lemma_digit_val_char(s[0]);
        assert(s =~= seq![s[0]]);
        lemma_digits_val_single(s[0]);
        assert(s =~= seq![digit_char(digit_val(s[0]))]);
    } else {
        let t = s.drop_last();
        let d = s.last();
        lemma_digit_val_char(d);
        assert(t[0] == s[0]);
        assert(all_digits(t));
        assert(is_canonical_digits(t));
        lemma_digits_val_pos(t);
        lemma_canonical_digits_unique(t);
        let a = digits_val(t);
        let v = digits_val(s);
        assert(v == a * 10 + digit_val(d));
        vstd::arithmetic::div_mod::lemma_fundamental_div_mod_converse_div(v, 10, a, digit_val(d));
        vstd::arithmetic::div_mod::lemma_fundamental_div_mod_converse_mod(v, 10, a, digit_val(d));
        assert(v >= 10);
        assert(dec_digits(v as nat) == dec_digits(a as nat).push(digit_char(digit_val(d))));
        assert(s =~= t.push(d));
    }
}

/// Extending a digit string to the right never shrinks its value.
pub proof fn lemma_digits_val_prefix(s: Seq<char>, i: int)
    requires
        all_digits(s),
        0 <= i <= s.len(),
    ensures
        digits_val(s.take(i)) <= digits_val(s),
    decreases s.len() - i,
{
    if i == s.len() {
        assert(s.take(i) =~= s);
    } else {
        lemma_digits_val_prefix(s, i + 1);
        let u = s.take(i + 1);
        assert(u.drop_last() =~= s.take(i));
        assert(u.last() == s[i]);
        lemma_digit_val_char(s[i]);
        let a = digits_val(s.take(i));
        assert(a >= 0) by {
            lemma_digits_val_bounds(s.take(i));
        }
        assert(a <= a * 10) by (nonlinear_arith)
            requires
                a >= 0,
        ;
    }
}

/// A digit string of fixed width is the fixed-width rendering of its value.
pub proof fn lemma_fixed_digits_unique(s: Seq<char>)
    requires
        all_digits(s),
    ensures
        s == fixed_digits(digits_val(s) as nat, s.len()),
    decreases s.len(),
{
    lemma_digits_val_bounds(s);
    if s.len() == 0 {
        assert(s =~= Seq::<char>::empty());
    } else {
        let t = s.drop_last();
        let d = s.last();
        assert(all_digits(t));
        lemma_fixed_digits_unique(t);
        lemma_digits_val_bounds(t);
        lemma_digit_val_char(d);
        let a = digits_val(t);
        let v = digits_val(s);
        assert(v == a * 10 + digit_val(d)) by {
            lemma_digits_val_push(t, d);
            assert(s =~= t.push(d));
        }
        vstd::arithmetic::div_mod::lemma_fundamental_div_mod_converse_div(v, 10, a, digit_val(d));
        vstd::arithmetic::div_mod::lemma_fundamental_div_mod_converse_mod(v, 10, a, digit_val(d));
        assert(s =~= t.push(d));
    }
}

/// Fixed-width rendering reads back to the number, when the number fits the width.
pub proof fn lemma_fixed_digits_val(n: nat, width: nat)
    requires
        n < pow10(width),
    ensures
        fixed_digits(n, width).len() == width,
        all_digits(fixed_digits(n, width)),
        digits_val(fixed_digits(n, width)) == n,
    decreases width,
{
    if width == 0 {
    } else {
        lemma_pow10_pos((width - 1) as nat);
        vstd::arithmetic::div_mod::lemma_fundamental_div_mod(n as int, 10);
        assert(n / 10 < pow10((width - 1) as nat));
        lemma_fixed_digits_val(n / 10, (width - 1) as nat);
        lemma_digit_char_val((n % 10) as int);
        let t = fixed_digits(n / 10, (width - 1) as nat);
        let d = digit_char((n % 10) as int);
        let s = t.push(d);
        lemma_digits_val_push(t, d);
        assert(forall|i: int| 0 <= i < s.len() ==> is_digit(#[trigger] s[i])) by {
            assert(forall|i: int| 0 <= i < t.len() ==> s[i] == #[trigger] t[i]);
        }
    }
}

/// The first few powers of ten, spelled out.
pub proof fn lemma_pow10_small()
    ensures
        pow10(0) == 1,
        pow10(1) == 10,
        pow10(2) == 100,
        pow10(3) == 1000,
        pow10(4) == 10000,
{
    assert(pow10(0) == 1);
    assert(pow10(1) == 10 * pow10(0));
    assert(pow10(2) == 10 * pow10(1));
    assert(pow10(3) == 10 * pow10(2));
    assert(pow10(4) == 10 * pow10(3));
}

pub proof fn lemma_pow10_pos(w: nat)
    ensures
        pow10(w) >= 1,
    decreases w,
{
    if w > 0 {
        lemma_pow10_pos((w - 1) as nat);
    }
}

/// The digit character for a value below ten.
pub fn digit_to_char(d: u64) -> (c: char)
    requires
        d < 10,
    ensures
        c == digit_char(d as int),
{
    match d {
        0 => '0',
        1 => '1',
        2 => '2',
        3 => '3',
        4 => '4',
        5 => '5',
        6 => '6',
        7 => '7',
        8 => '8',
        _ => '9',
    }
}

/// The value of a digit character, or `None` for any other character.
pub fn char_to_digit(c: char) -> (r: Option<u64>)
    ensures
        r is Some <==> is_digit(c),
        r is Some ==> r->0 == digit_val(c),
{
    match c {
        '0' => Some(0),
        '1' => Some(1),
        '2' => Some(2),
        '3' => Some(3),
        '4' => Some(4),
        '5' => Some(5),
        '6' => Some(6),
        '7' => Some(7),
        '8' => Some(8),
        '9' => Some(9),
        _ => None,
    }
}

/// Append the canonical decimal rendering of `n`.
pub fn push_u64_dec(out: &mut Vec<char>, n: u64)
    ensures
        final(out)@ == old(out)@ + dec_digits(n as nat),
    decreases n,
{
    if n < 10 {
        out.push(digit_to_char(n));
        assert(out@ =~= old(out)@ + dec_digits(n as nat));
    } else {
        push_u64_dec(out, n / 10);
        out.push(digit_to_char(n % 10));
        assert(out@ =~= old(out)@ + dec_digits(n as nat));
    }
}

/// Append the `width` least significant decimal digits of `n`, zero padded.
pub fn push_u64_fixed(out: &mut Vec<char>, n: u64, width: u64)
    ensures
        final(out)@ == old(out)@ + fixed_digits(n as nat, width as nat),
    decreases width,
{
    if width == 0 {
        assert(out@ =~= old(out)@ + fixed_digits(n as nat, 0));
    } else {
        push_u64_fixed(out, n / 10, width - 1);
        out.push(digit_to_char(n % 10));
        assert(out@ =~= old(out)@ + fixed_digits(n as nat, width as nat));
    }
}

/// Read a short fixed-width digit run out of `s[from..to]`: digits only,
/// leading zeros allowed. Returns `None` on any other content.
pub fn parse_u64_run(s: &Vec<char>, from: usize, to: usize) -> (r: Option<u64>)
    requires
        from <= to <= s@.len(),
        to - from <= 4,
    ensures
        r is Some <==> all_digits(s@.subrange(from as int, to as int)),
        r is Some ==> r->0 == digits_val(s@.subrange(from as int, to as int)) && r->0 <= 9999,
{
    let ghost sub = s@.subrange(from as int, to as int);
    proof {
        lemma_pow10_pos(0);
    }
    let mut acc: u64 = 0;
    let mut i: usize = from;
    while i < to
        invariant
            from <= i <= to <= s@.len(),
            to - from <= 4,
            sub == s@.subrange(from as int, to as int),
            all_digits(sub.take(i - from)),
            acc == digits_val(sub.take(i - from)),
            acc < pow10((i - from) as nat),
            acc <= 9999,
        decreases to - i,
    {
        let c = s[i];
        assert(sub[i - from] == c);
        let d = match char_to_digit(c) {
            Some(d) => d,
            None => {
                return None;
            },
        };
        let ghost p = sub.take(i - from + 1);
        proof {
            lemma_digit_val_char(c);
            assert(p.drop_last() =~= sub.take(i - from));
            assert(p.last() == c);
            lemma_digits_val_bounds(p);
            assert(pow10(p.len()) == 10 * pow10((p.len() - 1) as nat));
            assert(pow10(1nat) == 10 * pow10(0nat));
            assert(pow10(2nat) == 10 * pow10(1nat));
            assert(pow10(3nat) == 10 * pow10(2nat));
            assert(pow10(4nat) == 10 * pow10(3nat));
            assert(pow10(0nat) == 1);
        }
        acc = acc * 10 + d;
        i = i + 1;
    }
    assert(sub.take(to - from) =~= sub);
    Some(acc)
}

/// Read a canonical digit run out of `s[from..to]`: digits only, no leading
/// zero, value within `u64`. Returns `None` on any other content.
pub fn parse_u64_canonical(s: &Vec<char>, from: usize, to: usize) -> (r: Option<u64>)
    requires
        from <= to <= s@.len(),
    ensures
        r is Some <==> is_canonical_digits(s@.subrange(from as int, to as int)) && digits_val(
            s@.subrange(from as int, to as int),
        ) <= u64::MAX,
        r is Some ==> r->0 == digits_val(s@.subrange(from as int, to as int)),
{
    let ghost sub = s@.subrange(from as int, to as int);
    if from == to {
        return None;
    }
    if to - from > 1 && s[from] == '0' {
        return None;
    }
    let mut acc: u64 = 0;
    let mut i: usize = from;
    while i < to
        invariant
            from <= i <= to <= s@.len(),
            sub == s@.subrange(from as int, to as int),
            to > from,
            to - from > 1 ==> sub[0] != '0',
            all_digits(sub.take(i - from)),
            acc == digits_val(sub.take(i - from)),
        decreases to - i,
    {
        let c = s[i];
        assert(sub[i - from] == c);
        let d = match char_to_digit(c) {
            Some(d) => d,
            None => {
                return None;
            },
        };
        proof {
            lemma_digit_val_char(c);
        }
        if acc > (u64::MAX - d) / 10 {
            proof {
                let p = sub.take(i - from + 1);
                assert(p.drop_last() =~= sub.take(i - from));
                assert(p.last() == c);
                assert(digits_val(p) == acc * 10 + d);
                assert(acc * 10 + d > u64::MAX) by (nonlinear_arith)
                    requires
                        acc > (u64::MAX - d) / 10,
                        0 <= d < 10,
                        acc >= 0,
                ;
                if all_digits(sub) {
                    lemma_digits_val_prefix(sub, i - from + 1);
                }
            }
            return None;
        }
        let ghost p = sub.take(i - from + 1);
        assert(p.drop_last() =~= sub.take(i - from));
        assert(p.last() == c);
        acc = acc * 10 + d;
        i = i + 1;
    }
    assert(sub.take(to - from) =~= sub);
    Some(acc)
}

} // verus!
