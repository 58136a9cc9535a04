//! The fixed-point amount and its textual codec.
//!
//! An amount is a non-negative fixed-point decimal stored as two integers:
//! the integral part and the fractional part with outer zeros stripped, so
//! that the textual fractions `"9"`, `"90"` and `"09"` all store 9.  The
//! textual form is `"<int>.<frac>"` with both parts written as plain
//! decimal numbers.

use vstd::arithmetic::div_mod::{lemma_fundamental_div_mod, lemma_mod_bound};
use vstd::prelude::*;
use vstd::string::*;

use crate::error::AccError;

verus! {

/// A non-negative fixed-point decimal amount.
///
/// `decimal_digits` is the integral part; `dividend_digits` is the numeric
/// value of the textual fraction with leading and trailing zeros stripped.
/// Equality is component-wise on the two integers.
#[derive(Clone, Copy, PartialEq, Eq, Structural, Debug)]
pub struct Amount {
    pub decimal_digits: u128,
    pub dividend_digits: u32,
}

impl Amount {
    pub fn new(decimal_digits: u128, dividend_digits: u32) -> (r: Self)
        ensures
            r.decimal_digits == decimal_digits,
            r.dividend_digits == dividend_digits,
    {
        Amount { decimal_digits, dividend_digits }
    }
}

/// Whether `c` is a decimal digit.
pub open spec fn is_digit_char(c: char) -> bool {
    '0' as int <= c as int && c as int <= '9' as int
}

/// The numeric value of the digit `c`.
pub open spec fn digit_value(c: char) -> nat {
    (c as int - '0' as int) as nat
}

/// Whether every character of `s` is a decimal digit.
pub open spec fn all_digits(s: Seq<char>) -> bool {
    forall|i: int| 0 <= i < s.len() ==> is_digit_char(s[i])
}

/// The numeric value of the digit string `s`, read most significant first.
pub open spec fn digits_value(s: Seq<char>) -> nat
    decreases s.len(),
{
    if s.len() == 0 {
        0
    } else {
        digits_value(s.drop_last()) * 10 + digit_value(s.last())
    }
}

/// `s` without its leading `'0'` characters.
pub open spec fn strip_leading_zeros(s: Seq<char>) -> Seq<char>
    decreases s.len(),
{
    if s.len() > 0 && s[0] == '0' {
        strip_leading_zeros(s.drop_first())
    } else {
        s
    }
}

/// `s` without its trailing `'0'` characters.
pub open spec fn strip_trailing_zeros(s: Seq<char>) -> Seq<char>
    decreases s.len(),
{
    if s.len() > 0 && s.last() == '0' {
        strip_trailing_zeros(s.drop_last())
    } else {
        s
    }
}

/// `s` without its leading and trailing `'0'` characters.
pub open spec fn strip_outer_zeros(s: Seq<char>) -> Seq<char> {
    strip_trailing_zeros(strip_leading_zeros(s))
}

/// The position of the first `'.'` in `s`, if any.
pub open spec fn first_dot(s: Seq<char>) -> Option<int>
    decreases s.len(),
{
    if s.len() == 0 {
        None
    } else if s[0] == '.' {
        Some(0int)
    } else {
        match first_dot(s.drop_first()) {
            Some(i) => Some(i + 1),
            None => None,
        }
    }
}

/// The integral part of the textual amount `s`: everything before the first
/// dot, or all of `s` when there is none.
pub open spec fn integral_text(s: Seq<char>) -> Seq<char> {
    match first_dot(s) {
        Some(i) => s.take(i),
        None => s,
    }
}

/// The fractional part of the textual amount `s`: everything after the
/// first dot, or empty when there is none.
pub open spec fn fraction_text(s: Seq<char>) -> Seq<char> {
    match first_dot(s) {
        Some(i) => s.skip(i + 1),
        None => Seq::empty(),
    }
}

/// Whether `s` is a well-formed textual amount: a non-empty digit string,
/// optionally followed by a dot and a fraction whose digits, once outer
/// zeros are stripped, form a digit string; and both numeric values fit
/// their machine words.
pub open spec fn valid_amount_text(s: Seq<char>) -> bool {
    let ip = integral_text(s);
    let fs = strip_outer_zeros(fraction_text(s));
    &&& ip.len() > 0
    &&& all_digits(ip)
    &&& digits_value(ip) <= u128::MAX
    &&& (fs.len() == 0 || (all_digits(fs) && digits_value(fs) <= u32::MAX))
}

/// The integral value encoded by the textual amount `s`.
pub open spec fn integral_value(s: Seq<char>) -> nat {
    digits_value(integral_text(s))
}

/// The fractional value encoded by the textual amount `s`: the value of the
/// fraction with outer zeros stripped, or 0 when nothing remains.
pub open spec fn fraction_value(s: Seq<char>) -> nat {
    digits_value(strip_outer_zeros(fraction_text(s)))
}

/// The decimal digit character for the value `d` (meaningful for `d < 10`).
pub open spec fn decimal_digit_char(d: nat) -> char {
    if d == 0 {
        '0'
    } else if d == 1 {
        '1'
    } else if d == 2 {
        '2'
    } else if d == 3 {
        '3'
    } else if d == 4 {
        '4'
    } else if d == 5 {
        '5'
    } else if d == 6 {
        '6'
    } else if d == 7 {
        '7'
    } else if d == 8 {
        '8'
    } else {
        '9'
    }
}

/// The canonical decimal text of `v`: no sign, no padding, a single `'0'`
/// for zero.
pub open spec fn decimal_text(v: nat) -> Seq<char>
    decreases v,
{
    if v < 10 {
        seq![decimal_digit_char(v)]
    } else {
        decimal_text(v / 10).push(decimal_digit_char(v % 10))
    }
}

/// The canonical textual form of `a`: `"<int>.<frac>"` with both parts in
/// canonical decimal.
pub open spec fn amount_text(a: Amount) -> Seq<char> {
    decimal_text(a.decimal_digits as nat) + seq!['.'] + decimal_text(a.dividend_digits as nat)
}

/// The diagnostic text reported for a textual amount that does not parse.
pub open spec fn malformed_amount_message(s: Seq<char>) -> Seq<char> {
    "malformed amount "@ + s
}

proof fn lemma_digits_prefix_le(s: Seq<char>, k: int)
    requires
        0 <= k <= s.len(),
    ensures
        digits_value(s.take(k)) <= digits_value(s),
    decreases s.len() - k,
{
    if k == s.len() {
        assert(s.take(k) =~= s);
    } else {
        assert(s.take(k + 1).drop_last() =~= s.take(k));
        assert(digits_value(s.take(k)) <= digits_value(s.take(k + 1)));
        lemma_digits_prefix_le(s, k + 1);
    }
}

proof fn lemma_first_dot_characterize(s: Seq<char>)
    ensures
        match first_dot(s) {
            Some(i) => 0 <= i < s.len() && s[i] == '.' && (forall|j: int|
                0 <= j < i ==> s[j] != '.'),
            None => forall|j: int| 0 <= j < s.len() ==> s[j] != '.',
        },
    decreases s.len(),
{
    if s.len() == 0 {
    } else if s[0] == '.' {
    } else {
        lemma_first_dot_characterize(s.drop_first());
        assert forall|j: int| 0 <= j < s.drop_first().len() implies s.drop_first()[j] == s[j
            + 1] by {}
        match first_dot(s.drop_first()) {
            Some(i) => {
                assert(first_dot(s) == Some(i + 1));
                assert forall|j: int| 0 <= j < i + 1 implies s[j] != '.' by {
                    if j > 0 {
                        assert(s.drop_first()[j - 1] != '.');
                    }
                }
            },
            None => {
                assert forall|j: int| 0 <= j < s.len() implies s[j] != '.' by {
                    if j > 0 {
                        assert(s.drop_first()[j - 1] != '.');
                    }
                }
            },
        }
    }
}

proof fn lemma_first_dot_is(s: Seq<char>, i: int)
    requires
        0 <= i < s.len(),
        s[i] == '.',
        forall|j: int| 0 <= j < i ==> s[j] != '.',
    ensures
        first_dot(s) == Some(i),
{
    lemma_first_dot_characterize(s);
    match first_dot(s) {
        Some(k) => {
            if k < i {
                assert(s[k] != '.');
                assert(false);
            }
            if k > i {
                assert(s[i] != '.');
                assert(false);
            }
        },
        None => {
            assert(s[i] != '.');
            assert(false);
        },
    }
}

proof fn lemma_first_dot_none(s: Seq<char>)
    requires
        forall|j: int| 0 <= j < s.len() ==> s[j] != '.',
    ensures
        first_dot(s) is None,
{
    lemma_first_dot_characterize(s);
    match first_dot(s) {
        Some(k) => {
            assert(s[k] != '.');
            assert(false);
        },
        None => {},
    }
}

fn find_first_dot(s: &str) -> (r: Option<usize>)
    ensures
        match r {
            Some(i) => first_dot(s@) == Some(i as int),
            None => first_dot(s@) is None,
        },
{
    let n = s.unicode_len();
    let mut i: usize = 0;
    while i < n
        invariant
            i <= n,
            n as nat == s@.len(),
            forall|j: int| 0 <= j < i ==> s@[j] != '.',
        decreases n - i,
    {
        if s.get_char(i) == '.' {
            proof {
                lemma_first_dot_is(s@, i as int);
            }
            return Some(i);
        }
        i = i + 1;
    }
    proof {
        lemma_first_dot_none(s@);
    }
    None
}

/// Parses the digit run `s[from..to]` as an unsigned number, refusing an
/// empty run, a non-digit character, or a value above `u128::MAX`.
fn parse_decimal(s: &str, from: usize, to: usize) -> (r: Option<u128>)
    requires
        from <= to,
        to as nat <= s@.len(),
    ensures
        ({
            let digits = s@.subrange(from as int, to as int);
            &&& (r is Some <==> from < to && all_digits(digits) && digits_value(digits)
                <= u128::MAX)
            &&& (r is Some ==> r->Some_0 as nat == digits_value(digits))
        }),
{
    let ghost digits = s@.subrange(from as int, to as int);
    if from >= to {
        return None;
    }
    let mut acc: u128 = 0;
    let mut i: usize = from;
    while i < to
        invariant
            from <= i <= to,
            to as nat <= s@.len(),
            digits == s@.subrange(from as int, to as int),
            all_digits(digits.take(i - from)),
            acc as nat == digits_value(digits.take(i - from)),
        decreases to - i,
    {
        let c = s.get_char(i);
        let u = c as u32;
        proof {
            assert(digits[i - from] == c);
        }
        if !(48 <= u && u <= 57) {
            proof {
                assert(!is_digit_char(c));
            }
            return None;
        }
        let d = (u - 48) as u128;
        proof {
            assert(is_digit_char(c));
            assert(d as nat == digit_value(c));
            assert(digits.take(i - from + 1).drop_last() =~= digits.take(i - from));
            assert(digits.take(i - from + 1).last() == c);
            lemma_fundamental_div_mod(u128::MAX - d, 10);
            lemma_mod_bound(u128::MAX - d, 10);
        }
        if acc > (u128::MAX - d) / 10 {
            proof {
                assert(acc * 10 + d > u128::MAX);
                assert(digits_value(digits.take(i - from + 1)) > u128::MAX);
                lemma_digits_prefix_le(digits, i - from + 1);
                assert(digits_value(digits) > u128::MAX);
            }
            return None;
        }
        proof {
            assert(acc * 10 <= u128::MAX - d);
        }
        acc = acc * 10 + d;
        i = i + 1;
    }
    proof {
        assert(digits.take(to - from) =~= digits);
    }
    Some(acc)
}

impl Amount {
    /// Decodes a textual amount: either a bare digit string, or
    /// `"<int>.<frac>"`.  The fraction is read with its leading and
    /// trailing zeros stripped; anything else is refused.
    pub fn from_text(s: &str) -> (r: Result<Amount, AccError>)
        ensures
            r is Ok <==> valid_amount_text(s@),
            r is Ok ==> (r->Ok_0).decimal_digits as nat == integral_value(s@),
            r is Ok ==> (r->Ok_0).dividend_digits as nat == fraction_value(s@),
            r is Err ==> (r->Err_0)@ == malformed_amount_message(s@),
    {
        let n = s.unicode_len();
        match find_first_dot(s) {
            None => {
                proof {
                    assert(s@.subrange(0, n as int) =~= s@);
                    assert(strip_outer_zeros(fraction_text(s@)) =~= Seq::<char>::empty());
                }
                match parse_decimal(s, 0, n) {
                    Some(v) => Ok(Amount { decimal_digits: v, dividend_digits: 0 }),
                    None => Err(malformed_error(s)),
                }
            },
            Some(di) => {
                proof {
                    lemma_first_dot_characterize(s@);
                    assert(s@.subrange(0, di as int) =~= integral_text(s@));
                }
                let ipv = match parse_decimal(s, 0, di) {
                    Some(v) => v,
                    None => {
                        return Err(malformed_error(s));
                    },
                };
                let ghost frac0 = fraction_text(s@);
                proof {
                    assert(frac0 =~= s@.subrange(di + 1, n as int));
                }
                let mut lo: usize = di + 1;
                let mut hi: usize = n;
                while lo < hi && s.get_char(lo) == '0'
                    invariant
                        di + 1 <= lo <= hi,
                        hi == n,
                        n as nat == s@.len(),
                        frac0 == fraction_text(s@),
                        strip_leading_zeros(frac0) == strip_leading_zeros(
                            s@.subrange(lo as int, n as int),
                        ),
                    decreases hi - lo,
                {
                    proof {
                        let cur = s@.subrange(lo as int, n as int);
                        assert(cur[0] == s@[lo as int]);
                        assert(cur.drop_first() =~= s@.subrange(lo as int + 1, n as int));
                    }
                    lo = lo + 1;
                }
                proof {
                    let cur = s@.subrange(lo as int, n as int);
                    if lo < n {
                        assert(cur[0] == s@[lo as int]);
                    } else {
                        assert(cur =~= Seq::<char>::empty());
                    }
                    assert(strip_leading_zeros(frac0) == cur);
                }
                while hi > lo && s.get_char(hi - 1) == '0'
                    invariant
                        lo <= hi <= n,
                        n as nat == s@.len(),
                        frac0 == fraction_text(s@),
                        strip_outer_zeros(frac0) == strip_trailing_zeros(
                            s@.subrange(lo as int, hi as int),
                        ),
                    decreases hi,
                {
                    proof {
                        let cur = s@.subrange(lo as int, hi as int);
                        assert(cur.last() == s@[hi - 1]);
                        assert(cur.drop_last() =~= s@.subrange(lo as int, hi as int - 1));
                    }
                    hi = hi - 1;
                }
                proof {
                    let cur = s@.subrange(lo as int, hi as int);
                    if hi > lo {
                        assert(cur.last() == s@[hi - 1]);
                    } else {
                        assert(cur =~= Seq::<char>::empty());
                    }
                    assert(strip_outer_zeros(frac0) == cur);
                }
                if lo >= hi {
                    proof {
                        assert(s@.subrange(lo as int, hi as int) =~= Seq::<char>::empty());
                    }
                    Ok(Amount { decimal_digits: ipv, dividend_digits: 0 })
                } else {
                    match parse_decimal(s, lo, hi) {
                        Some(v) => {
                            if v > u32::MAX as u128 {
                                Err(malformed_error(s))
                            } else {
                                Ok(Amount { decimal_digits: ipv, dividend_digits: v as u32 })
                            }
                        },
                        None => Err(malformed_error(s)),
                    }
                }
            },
        }
    }
}

/// The characters of the digit values `ds` read back to front (`ds` lists
/// a number's digits least significant first).
spec fn rev_digit_chars(ds: Seq<u8>) -> Seq<char>
    decreases ds.len(),
{
    if ds.len() == 0 {
        Seq::empty()
    } else {
        seq![decimal_digit_char(ds.last() as nat)] + rev_digit_chars(ds.drop_last())
    }
}

proof fn lemma_rev_digit_chars_front(ds: Seq<u8>)
    requires
        ds.len() > 0,
    ensures
        rev_digit_chars(ds) == rev_digit_chars(ds.drop_first()) + seq![
            decimal_digit_char(ds[0] as nat),
        ],
    decreases ds.len(),
{
    if ds.len() == 1 {
        assert(ds.drop_first() =~= Seq::<u8>::empty());
        assert(ds.drop_last() =~= Seq::<u8>::empty());
        assert(rev_digit_chars(Seq::<u8>::empty()) =~= Seq::<char>::empty());
        assert(ds.last() == ds[0]);
        assert(rev_digit_chars(ds) =~= rev_digit_chars(ds.drop_first()) + seq![
            decimal_digit_char(ds[0] as nat),
        ]);
    } else {
        let dl = ds.drop_last();
        let df = ds.drop_first();
        lemma_rev_digit_chars_front(dl);
        assert(dl[0] == ds[0]);
        assert(dl.drop_first() =~= df.drop_last());
        assert(df.last() == ds.last());
        assert(rev_digit_chars(ds) == seq![decimal_digit_char(ds.last() as nat)]
            + rev_digit_chars(dl));
        assert(rev_digit_chars(df) == seq![decimal_digit_char(df.last() as nat)]
            + rev_digit_chars(df.drop_last()));
        assert(rev_digit_chars(ds) =~= rev_digit_chars(df) + seq![
            decimal_digit_char(ds[0] as nat),
        ]);
    }
}

fn push_digit(out: &mut String, d: u8)
    requires
        d < 10,
    ensures
        final(out)@ == old(out)@ + seq![decimal_digit_char(d as nat)],
{
    match d {
        0 => {
            proof {
                reveal_strlit("0");
            }
            out.append("0");
        },
        1 => {
            proof {
                reveal_strlit("1");
            }
            out.append("1");
        },
        2 => {
            proof {
                reveal_strlit("2");
            }
            out.append("2");
        },
        3 => {
            proof {
                reveal_strlit("3");
            }
            out.append("3");
        },
        4 => {
            proof {
                reveal_strlit("4");
            }
            out.append("4");
        },
        5 => {
            proof {
                reveal_strlit("5");
            }
            out.append("5");
        },
        6 => {
            proof {
                reveal_strlit("6");
            }
            out.append("6");
        },
        7 => {
            proof {
                reveal_strlit("7");
            }
            out.append("7");
        },
        8 => {
            proof {
                reveal_strlit("8");
            }
            out.append("8");
        },
        _ => {
            proof {
                reveal_strlit("9");
            }
            out.append("9");
        },
    }
    proof {
        assert(out@ =~= old(out)@ + seq![decimal_digit_char(d as nat)]);
    }
}

fn append_decimal(out: &mut String, v: u128)
    ensures
        final(out)@ == old(out)@ + decimal_text(v as nat),
{
    if v < 10 {
        push_digit(out, v as u8);
        return ;
    }
    let mut ds: Vec<u8> = Vec::new();
    let mut cur: u128 = v;
    while cur >= 10
        invariant
            decimal_text(v as nat) == decimal_text(cur as nat) + rev_digit_chars(ds@),
            forall|j: int| 0 <= j < ds@.len() ==> ds@[j] < 10,
        decreases cur,
    {
        let d = (cur % 10) as u8;
        proof {
            lemma_mod_bound(cur as int, 10);
            assert(ds@.push(d).drop_last() =~= ds@);
            assert(decimal_text((cur / 10) as nat).push(decimal_digit_char((cur % 10) as nat))
                =~= decimal_text((cur / 10) as nat) + seq![decimal_digit_char(d as nat)]);
            assert(decimal_text(cur as nat) + rev_digit_chars(ds@) =~= decimal_text(
                (cur / 10) as nat,
            ) + rev_digit_chars(ds@.push(d)));
        }
        ds.push(d);
        cur = cur / 10;
    }
    push_digit(out, cur as u8);
    let ghost head: Seq<char> = decimal_text(cur as nat);
    let mut i: usize = ds.len();
    proof {
        assert(ds@.skip(i as int) =~= Seq::<u8>::empty());
        assert(out@ =~= old(out)@ + head + rev_digit_chars(ds@.skip(i as int)));
    }
    while i > 0
        invariant
            i <= ds@.len(),
            forall|j: int| 0 <= j < ds@.len() ==> ds@[j] < 10,
            decimal_text(v as nat) == head + rev_digit_chars(ds@),
            out@ == old(out)@ + head + rev_digit_chars(ds@.skip(i as int)),
        decreases i,
    {
        i = i - 1;
        push_digit(out, ds[i]);
        proof {
            let sk = ds@.skip(i as int);
            assert(sk[0] == ds@[i as int]);
            assert(sk.drop_first() =~= ds@.skip(i as int + 1));
            lemma_rev_digit_chars_front(sk);
            assert(out@ =~= old(out)@ + head + rev_digit_chars(ds@.skip(i as int)));
        }
    }
    proof {
        assert(ds@.skip(0) =~= ds@);
        assert(old(out)@ + head + rev_digit_chars(ds@) =~= old(out)@ + decimal_text(v as nat));
    }
}

impl Amount {
    /// Encodes this amount canonically as `"<int>.<frac>"`, both parts in
    /// plain decimal with no padding.
    pub fn to_text(&self) -> (r: String)
        ensures
            r@ == amount_text(*self),
    {
        let mut out = String::new();
        append_decimal(&mut out, self.decimal_digits);
        proof {
            reveal_strlit(".");
        }
        out.append(".");
        append_decimal(&mut out, self.dividend_digits as u128);
        proof {
            assert("."@ =~= seq!['.']);
            assert(out@ =~= amount_text(*self));
        }
        out
    }
}

proof fn lemma_digit_char_value(d: nat)
    requires
        d < 10,
    ensures
        is_digit_char(decimal_digit_char(d)),
        digit_value(decimal_digit_char(d)) == d,
        (decimal_digit_char(d) == '0') <==> (d == 0),
{
}

proof fn lemma_decimal_text_props(v: nat)
    ensures
        decimal_text(v).len() >= 1,
        all_digits(decimal_text(v)),
        digits_value(decimal_text(v)) == v,
        v > 0 ==> decimal_text(v)[0] != '0',
        v == 0 ==> decimal_text(v) == seq!['0'],
        decimal_text(v).last() == decimal_digit_char(v % 10),
    decreases v,
{
    lemma_mod_bound(v as int, 10);
    lemma_digit_char_value(v % 10);
    if v < 10 {
        let t = decimal_text(v);
        assert(t =~= seq![decimal_digit_char(v)]);
        assert(t.drop_last() =~= Seq::<char>::empty());
        assert(digits_value(Seq::<char>::empty()) == 0);
        assert(t.last() == decimal_digit_char(v));
        assert(digits_value(t) == digit_value(decimal_digit_char(v)));
    } else {
        lemma_decimal_text_props(v / 10);
        lemma_fundamental_div_mod(v as int, 10);
        let p = decimal_text(v / 10);
        let c = decimal_digit_char(v % 10);
        let t = decimal_text(v);
        assert(t == p.push(c));
        assert(t.drop_last() =~= p);
        assert(t.last() == c);
        assert(digits_value(t) == digits_value(p) * 10 + digit_value(c));
        assert(v / 10 > 0);
        assert(t[0] == p[0]);
        assert forall|j: int| 0 <= j < t.len() implies is_digit_char(t[j]) by {
            if j < p.len() {
                assert(t[j] == p[j]);
            } else {
                assert(t[j] == c);
            }
        }
    }
}

proof fn lemma_digits_value_mod(s: Seq<char>)
    requires
        s.len() > 0,
        all_digits(s),
    ensures
        digits_value(s) % 10 == digit_value(s.last()),
{
    assert(is_digit_char(s.last()));
    assert(digit_value(s.last()) < 10);
    vstd::arithmetic::div_mod::lemma_fundamental_div_mod_converse_mod(
        digits_value(s) as int,
        10,
        digits_value(s.drop_last()) as int,
        digit_value(s.last()) as int,
    );
}

proof fn lemma_strip_trailing_last(s: Seq<char>)
    ensures
        strip_trailing_zeros(s).len() > 0 ==> strip_trailing_zeros(s).last() != '0',
    decreases s.len(),
{
    if s.len() > 0 && s.last() == '0' {
        lemma_strip_trailing_last(s.drop_last());
    }
}

/// A fraction read back from text has no trailing zero to lose: its value
/// is zero or not divisible by ten.
proof fn lemma_fraction_value_canonical(s: Seq<char>)
    requires
        valid_amount_text(s),
    ensures
        fraction_value(s) == 0 || fraction_value(s) % 10 != 0,
{
    let fs = strip_outer_zeros(fraction_text(s));
    if fs.len() > 0 {
        lemma_strip_trailing_last(strip_leading_zeros(fraction_text(s)));
        assert(fs.last() != '0');
        lemma_digits_value_mod(fs);
        assert(is_digit_char(fs.last()));
        if digit_value(fs.last()) == 0 {
            assert(fs.last() as int == '0' as int);
            assert(false);
        }
    }
}

/// Amount round-trip: a textual amount that decodes successfully re-encodes
/// to a text that decodes to the same two stored integers.
pub proof fn lemma_amount_round_trip(s: Seq<char>)
    requires
        valid_amount_text(s),
    ensures
        ({
            let t = decimal_text(integral_value(s)) + seq!['.'] + decimal_text(fraction_value(s));
            &&& valid_amount_text(t)
            &&& integral_value(t) == integral_value(s)
            &&& fraction_value(t) == fraction_value(s)
        }),
{
    let i = integral_value(s);
    let f = fraction_value(s);
    let p = decimal_text(i);
    let q = decimal_text(f);
    let t = p + seq!['.'] + q;
    lemma_decimal_text_props(i);
    lemma_decimal_text_props(f);
    assert(!is_digit_char('.'));
    assert forall|j: int| 0 <= j < p.len() implies t[j] != '.' by {
        assert(t[j] == p[j]);
        assert(is_digit_char(p[j]));
    }
    assert(t[p.len() as int] == '.');
    lemma_first_dot_is(t, p.len() as int);
    assert(integral_text(t) =~= p);
    assert(fraction_text(t) =~= q);
    lemma_fraction_value_canonical(s);
    if f == 0 {
        assert(q == seq!['0']);
        assert(q.drop_first() =~= Seq::<char>::empty());
        assert(strip_leading_zeros(Seq::<char>::empty()) =~= Seq::<char>::empty());
        assert(strip_leading_zeros(q) =~= Seq::<char>::empty());
        assert(strip_trailing_zeros(Seq::<char>::empty()) =~= Seq::<char>::empty());
        assert(strip_outer_zeros(fraction_text(t)) =~= Seq::<char>::empty());
        assert(digits_value(Seq::<char>::empty()) == 0);
    } else {
        assert(q[0] != '0');
        assert(strip_leading_zeros(q) == q);
        assert(f % 10 != 0);
        lemma_digit_char_value(f % 10);
        assert(q.last() != '0');
        assert(strip_trailing_zeros(q) == q);
        assert(strip_outer_zeros(fraction_text(t)) == q);
        assert(strip_outer_zeros(fraction_text(s)).len() > 0) by {
            if strip_outer_zeros(fraction_text(s)).len() == 0 {
                assert(fraction_value(s) == 0);
            }
        }
    }
}

fn malformed_error(s: &str) -> (e: AccError)
    ensures
        e@ == malformed_amount_message(s@),
{
    let mut m = "malformed amount ".to_owned();
    m.append(s);
    AccError::new(m)
}

} // verus!
