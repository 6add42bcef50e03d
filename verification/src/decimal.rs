//! Decimal numbers written as text, read and compared exactly.
//!
//! A rule may compare a fact's value with a bound (`fan_in >= 10`). Both
//! are texts; they are read as decimal numbers (an optional sign, digits,
//! and at most one point among the digits) and compared by their exact
//! values.
use vstd::prelude::*;

use crate::text::{chars_of, chars_slice, find_first, first_index, is_digit, lemma_first_index};

verus! {

/// Every character of `s` is a decimal digit.
pub open spec fn all_digits(s: Seq<char>) -> bool {
    forall|i: int| 0 <= i < s.len() ==> is_digit(#[trigger] s[i])
}

pub open spec fn digit_value(c: char) -> int {
    c as int - '0' as int
}

/// The number a string of digits writes.
pub open spec fn digits_value(s: Seq<char>) -> int
    decreases s.len(),
{
    if s.len() == 0 {
        0
    } else {
        digits_value(s.drop_last()) * 10 + digit_value(s.last())
    }
}

/// `n` zero digits.
pub open spec fn zeros(n: nat) -> Seq<char> {
    Seq::new(n, |i: int| '0')
}

/// A decimal number as written: its sign, the digits before the point
/// and the digits after it.
pub struct DecimalV {
    pub negative: bool,
    pub whole: Seq<char>,
    pub fraction: Seq<char>,
}

/// The text without a leading sign.
pub open spec fn unsigned_part(s: Seq<char>) -> Seq<char> {
    if s.len() > 0 && (s[0] == '-' || s[0] == '+') {
        s.drop_first()
    } else {
        s
    }
}

/// The decimal number a text writes: an optional `-` or `+`, then digits
/// with at most one `.` among them and at least one digit in all; none
/// for any other text.
pub open spec fn decimal_of(s: Seq<char>) -> Option<DecimalV> {
    let body = unsigned_part(s);
    let p = first_index(body, '.');
    let whole = if p < 0 {
        body
    } else {
        body.take(p)
    };
    let fraction = if p < 0 {
        Seq::<char>::empty()
    } else {
        body.skip(p + 1)
    };
    if all_digits(whole) && all_digits(fraction) && whole.len() + fraction.len() > 0 {
        Some(DecimalV { negative: s.len() > 0 && s[0] == '-', whole, fraction })
    } else {
        None
    }
}

/// The value of `d` times `10^places`, for `places` at least the digits
/// after its point: its digits read as one whole number, with zeros
/// appended up to `places` decimal places.
pub open spec fn scaled_value(d: DecimalV, places: nat) -> int {
    let magnitude = digits_value(d.whole + d.fraction + zeros((places - d.fraction.len()) as nat));
    if d.negative {
        -magnitude
    } else {
        magnitude
    }
}

/// `a <= b` as numbers: both are read at the larger count of decimal
/// places and compared as whole numbers.
pub open spec fn decimal_at_most(a: DecimalV, b: DecimalV) -> bool {
    let places = if a.fraction.len() >= b.fraction.len() {
        a.fraction.len()
    } else {
        b.fraction.len()
    };
    scaled_value(a, places) <= scaled_value(b, places)
}

/// A decimal number as read from a text.
pub struct Decimal {
    pub negative: bool,
    pub whole: Vec<char>,
    pub fraction: Vec<char>,
}

impl View for Decimal {
    type V = DecimalV;

    open spec fn view(&self) -> DecimalV {
        DecimalV { negative: self.negative, whole: self.whole@, fraction: self.fraction@ }
    }
}

// ---------------------------------------------------------------------------
// Facts about digit strings
// ---------------------------------------------------------------------------

pub proof fn lemma_digits_value_nonneg(s: Seq<char>)
    requires
        all_digits(s),
    ensures
        digits_value(s) >= 0,
    decreases s.len(),
{
    if s.len() > 0 {
        lemma_digits_value_nonneg(s.drop_last());
        assert(is_digit(s[s.len() - 1]));
    }
}

pub proof fn lemma_zeros_value(n: nat)
    ensures
        digits_value(zeros(n)) == 0,
    decreases n,
{
    if n > 0 {
        assert(zeros(n).drop_last() =~= zeros((n - 1) as nat));
        lemma_zeros_value((n - 1) as nat);
    }
}

/// Leading zeros do not change the number.
pub proof fn lemma_leading_zeros(n: nat, s: Seq<char>)
    ensures
        digits_value(zeros(n) + s) == digits_value(s),
    decreases s.len(),
{
    if s.len() == 0 {
        assert(zeros(n) + s =~= zeros(n));
        lemma_zeros_value(n);
    } else {
        assert((zeros(n) + s).drop_last() =~= zeros(n) + s.drop_last());
        assert((zeros(n) + s).last() == s.last());
        lemma_leading_zeros(n, s.drop_last());
    }
}

/// A digit string writes zero exactly when all its digits are `0`.
pub proof fn lemma_zero_value(s: Seq<char>)
    requires
        all_digits(s),
    ensures
        (digits_value(s) == 0) == (forall|i: int| 0 <= i < s.len() ==> s[i] == '0'),
    decreases s.len(),
{
    if s.len() > 0 {
        let t = s.drop_last();
        assert(all_digits(t)) by {
            assert forall|i: int| 0 <= i < t.len() implies is_digit(#[trigger] t[i]) by {
                assert(t[i] == s[i]);
            }
        }
        lemma_zero_value(t);
        lemma_digits_value_nonneg(t);
        assert(is_digit(s[s.len() - 1]));
        if digits_value(s) == 0 {
            assert forall|i: int| 0 <= i < s.len() implies s[i] == '0' by {
                if i < s.len() - 1 {
                    assert(t[i] == s[i]);
                }
            }
        }
        if forall|i: int| 0 <= i < s.len() ==> s[i] == '0' {
            assert forall|i: int| 0 <= i < t.len() implies t[i] == '0' by {
                assert(t[i] == s[i]);
            }
            assert(s[s.len() - 1] == '0');
        }
    }
}

proof fn lemma_prefix_less(x: Seq<char>, y: Seq<char>, i: int, k: int)
    requires
        0 <= i < k <= x.len(),
        x.len() == y.len(),
        all_digits(x),
        all_digits(y),
        x.take(i) =~= y.take(i),
        x[i] < y[i],
    ensures
        digits_value(x.take(k)) < digits_value(y.take(k)),
    decreases k - i,
{
    assert(x.take(k).drop_last() =~= x.take(k - 1));
    assert(y.take(k).drop_last() =~= y.take(k - 1));
    assert(x.take(k).last() == x[k - 1]);
    assert(y.take(k).last() == y[k - 1]);
    assert(is_digit(x[k - 1]));
    assert(is_digit(y[k - 1]));
    if k > i + 1 {
        lemma_prefix_less(x, y, i, k - 1);
    }
}

/// Two digit strings of one length compare as numbers as they compare
/// at their first difference.
pub proof fn lemma_first_difference(x: Seq<char>, y: Seq<char>, i: int)
    requires
        0 <= i < x.len(),
        x.len() == y.len(),
        all_digits(x),
        all_digits(y),
        x.take(i) =~= y.take(i),
        x[i] < y[i],
    ensures
        digits_value(x) < digits_value(y),
{
    lemma_prefix_less(x, y, i, x.len() as int);
    assert(x.take(x.len() as int) =~= x);
    assert(y.take(y.len() as int) =~= y);
}

// ---------------------------------------------------------------------------
// Reading
// ---------------------------------------------------------------------------

fn digits_only(s: &[char]) -> (r: bool)
    ensures
        r == all_digits(s@),
{
    let mut i: usize = 0;
    while i < s.len()
        invariant
            i <= s@.len(),
            forall|j: int| 0 <= j < i ==> is_digit(#[trigger] s@[j]),
        decreases s@.len() - i,
    {
        if !('0' <= s[i] && s[i] <= '9') {
            return false;
        }
        i = i + 1;
    }
    true
}

/// Reads a decimal number; `None` when the text writes none.
pub fn parse_decimal(text: &str) -> (r: Option<Decimal>)
    ensures
        match r {
            Some(d) => decimal_of(text@) == Some(d@),
            None => decimal_of(text@) is None,
        },
{
    let cs = chars_of(text);
    let n = cs.len();
    let start: usize = if n > 0 && (cs[0] == '-' || cs[0] == '+') {
        1
    } else {
        0
    };
    let body = chars_slice(cs.as_slice(), start, n);
    assert(body@ =~= unsigned_part(text@));
    proof {
        lemma_first_index(body@, '.');
    }
    let (whole, fraction) = match find_first(body.as_slice(), '.') {
        Some(p) => {
            let w = chars_slice(body.as_slice(), 0, p);
            let f = chars_slice(body.as_slice(), p + 1, body.len());
            assert(w@ =~= body@.take(p as int));
            assert(f@ =~= body@.skip(p + 1));
            (w, f)
        },
        None => {
            let w = chars_slice(body.as_slice(), 0, body.len());
            assert(w@ =~= body@);
            (w, Vec::new())
        },
    };
    if digits_only(whole.as_slice()) && digits_only(fraction.as_slice()) && (whole.len() > 0 || fraction.len() > 0) {
        let negative = n > 0 && cs[0] == '-';
        Some(Decimal { negative, whole, fraction })
    } else {
        None
    }
}

// ---------------------------------------------------------------------------
// Comparing
// ---------------------------------------------------------------------------

fn push_zeros(out: &mut Vec<char>, n: usize)
    ensures
        final(out)@ == old(out)@ + zeros(n as nat),
{
    let ghost start = out@;
    let mut k: usize = 0;
    while k < n
        invariant
            k <= n,
            out@ == start + zeros(k as nat),
        decreases n - k,
    {
        out.push('0');
        assert(start + zeros((k + 1) as nat) =~= (start + zeros(k as nat)).push('0'));
        k = k + 1;
    }
}

fn push_all(out: &mut Vec<char>, s: &Vec<char>)
    ensures
        final(out)@ == old(out)@ + s@,
{
    let ghost start = out@;
    let mut k: usize = 0;
    while k < s.len()
        invariant
            k <= s@.len(),
            out@ == start + s@.take(k as int),
        decreases s@.len() - k,
    {
        out.push(s[k]);
        assert(s@.take(k + 1) =~= s@.take(k as int).push(s@[k as int]));
        assert(start + s@.take(k + 1) =~= (start + s@.take(k as int)).push(s@[k as int]));
        k = k + 1;
    }
    assert(s@.take(k as int) =~= s@);
}

/// The digits of `d` with zeros before them up to `whole_len` digits
/// before the point, and after them up to `places` digits after it.
fn padded(d: &Decimal, whole_len: usize, places: usize) -> (r: Vec<char>)
    requires
        d.whole@.len() <= whole_len,
        d.fraction@.len() <= places,
    ensures
        r@ == zeros((whole_len - d.whole@.len()) as nat) + (d.whole@ + d.fraction@ + zeros(
            (places - d.fraction@.len()) as nat,
        )),
{
    let mut out: Vec<char> = Vec::new();
    push_zeros(&mut out, whole_len - d.whole.len());
    push_all(&mut out, &d.whole);
    push_all(&mut out, &d.fraction);
    push_zeros(&mut out, places - d.fraction.len());
    assert(out@ =~= zeros((whole_len - d.whole@.len()) as nat) + (d.whole@ + d.fraction@ + zeros(
        (places - d.fraction@.len()) as nat,
    )));
    out
}

fn all_zero(s: &Vec<char>) -> (r: bool)
    ensures
        r == (forall|i: int| 0 <= i < s@.len() ==> s@[i] == '0'),
{
    let mut i: usize = 0;
    while i < s.len()
        invariant
            i <= s@.len(),
            forall|j: int| 0 <= j < i ==> s@[j] == '0',
        decreases s@.len() - i,
    {
        if s[i] != '0' {
            return false;
        }
        i = i + 1;
    }
    true
}

/// Whether the number `x` writes is at most the one `y` writes, for two
/// digit strings of one length.
fn digits_at_most(x: &Vec<char>, y: &Vec<char>) -> (r: bool)
    requires
        x@.len() == y@.len(),
        all_digits(x@),
        all_digits(y@),
    ensures
        r == (digits_value(x@) <= digits_value(y@)),
{
    let mut i: usize = 0;
    while i < x.len()
        invariant
            i <= x@.len(),
            x@.len() == y@.len(),
            all_digits(x@),
            all_digits(y@),
            x@.take(i as int) =~= y@.take(i as int),
        decreases x@.len() - i,
    {
        if x[i] != y[i] {
            if x[i] < y[i] {
                proof {
                    lemma_first_difference(x@, y@, i as int);
                }
                return true;
            } else {
                proof {
                    lemma_first_difference(y@, x@, i as int);
                }
                return false;
            }
        }
        assert(x@.take(i + 1) =~= x@.take(i as int).push(x@[i as int]));
        assert(y@.take(i + 1) =~= y@.take(i as int).push(y@[i as int]));
        i = i + 1;
    }
    assert(x@ =~= x@.take(i as int));
    assert(y@ =~= y@.take(i as int));
    true
}

proof fn lemma_padded_digits(d: DecimalV, whole_len: nat, places: nat)
    requires
        all_digits(d.whole),
        all_digits(d.fraction),
        d.fraction.len() <= places,
    ensures
        all_digits(zeros((whole_len - d.whole.len()) as nat) + (d.whole + d.fraction + zeros(
            (places - d.fraction.len()) as nat,
        ))),
        digits_value(zeros((whole_len - d.whole.len()) as nat) + (d.whole + d.fraction + zeros(
            (places - d.fraction.len()) as nat,
        ))) == digits_value(d.whole + d.fraction + zeros((places - d.fraction.len()) as nat)),
        digits_value(d.whole + d.fraction + zeros((places - d.fraction.len()) as nat)) >= 0,
{
    let tail = d.whole + d.fraction + zeros((places - d.fraction.len()) as nat);
    let full = zeros((whole_len - d.whole.len()) as nat) + tail;
    let lead = zeros((whole_len - d.whole.len()) as nat);
    assert forall|i: int| 0 <= i < full.len() implies is_digit(#[trigger] full[i]) by {
        if i < lead.len() {
            assert(full[i] == lead[i]);
        } else {
            let j = i - lead.len();
            assert(full[i] == tail[j]);
            if j < d.whole.len() {
                assert(tail[j] == d.whole[j]);
            } else if j < d.whole.len() + d.fraction.len() {
                assert(tail[j] == d.fraction[j - d.whole.len()]);
            } else {
                assert(tail[j] == '0');
            }
        }
    }
    assert(all_digits(tail)) by {
        assert forall|j: int| 0 <= j < tail.len() implies is_digit(#[trigger] tail[j]) by {
            assert(full[j + lead.len()] == tail[j]);
        }
    }
    lemma_leading_zeros((whole_len - d.whole.len()) as nat, tail);
    lemma_digits_value_nonneg(tail);
}

/// Whether `a <= b` as numbers.
pub fn decimal_le(a: &Decimal, b: &Decimal) -> (r: bool)
    requires
        all_digits(a@.whole),
        all_digits(a@.fraction),
        all_digits(b@.whole),
        all_digits(b@.fraction),
    ensures
        r == decimal_at_most(a@, b@),
{
    let places = if a.fraction.len() >= b.fraction.len() {
        a.fraction.len()
    } else {
        b.fraction.len()
    };
    let whole_len = if a.whole.len() >= b.whole.len() {
        a.whole.len()
    } else {
        b.whole.len()
    };
    let x = padded(a, whole_len, places);
    let y = padded(b, whole_len, places);
    let ghost va = digits_value(a@.whole + a@.fraction + zeros((places - a@.fraction.len()) as nat));
    let ghost vb = digits_value(b@.whole + b@.fraction + zeros((places - b@.fraction.len()) as nat));
    proof {
        lemma_padded_digits(a@, whole_len as nat, places as nat);
        lemma_padded_digits(b@, whole_len as nat, places as nat);
        lemma_zero_value(x@);
        lemma_zero_value(y@);
        assert(scaled_value(a@, places as nat) == if a.negative { -va } else { va });
        assert(scaled_value(b@, places as nat) == if b.negative { -vb } else { vb });
    }
    let a_below = a.negative && !all_zero(&x);
    let b_below = b.negative && !all_zero(&y);
    if a_below && !b_below {
        true
    } else if !a_below && b_below {
        false
    } else if !a_below {
        digits_at_most(&x, &y)
    } else {
        digits_at_most(&y, &x)
    }
}

} // verus!
