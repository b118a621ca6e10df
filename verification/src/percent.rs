//! Percentages as exact decimal fractions.

use vstd::prelude::*;
use crate::framing::{digits_of, write_number};
use crate::text::{
    all_digits, append_chars, copy_of, decimal_value, parse_digits, parsed_digits, slice_of,
    split_at_first, split_once,
};

verus! {

/// The most digits a percentage may be written with.
pub const MAX_DIGITS: usize = 18;

/// The most digits that may follow the decimal point.
pub const MAX_SCALE: usize = 9;

/// A percentage written as a decimal fraction: its sign, its digits, and how
/// many of the digits follow the decimal point. `-12.5` has the digits 125
/// and the scale 1. Zero keeps its sign: `0` bounds increases, `-0` bounds
/// decreases.
#[derive(Debug, Clone, Copy, PartialEq, Eq, Structural)]
pub struct Percent {
    pub negative: bool,
    pub digits: u64,
    pub scale: u8,
}

/// Ten to the power of `n`.
pub open spec fn pow10(n: nat) -> nat
    decreases n,
{
    if n == 0 {
        1
    } else {
        10 * pow10((n - 1) as nat)
    }
}

/// The powers of ten that percentages use.
pub proof fn lemma_pow10_values()
    ensures
        pow10(0) == 1,
        pow10(1) == 10,
        pow10(2) == 100,
        pow10(3) == 1_000,
        pow10(4) == 10_000,
        pow10(5) == 100_000,
        pow10(6) == 1_000_000,
        pow10(7) == 10_000_000,
        pow10(8) == 100_000_000,
        pow10(9) == 1_000_000_000,
        pow10(18) == 1_000_000_000_000_000_000,
{
    reveal_with_fuel(pow10, 10);
    assert(pow10(18) == pow10(9) * pow10(9)) by {
        lemma_pow10_sum(9, 9);
    }
}

/// Powers of ten multiply as their exponents add.
pub proof fn lemma_pow10_sum(a: nat, b: nat)
    ensures
        pow10(a + b) == pow10(a) * pow10(b),
    decreases b,
{
    if b > 0 {
        lemma_pow10_sum(a, (b - 1) as nat);
        assert(pow10(a + b) == 10 * pow10((a + b - 1) as nat));
        assert(10 * (pow10(a) * pow10((b - 1) as nat)) == pow10(a) * (10 * pow10((b - 1) as nat)))
            by (nonlinear_arith);
    } else {
        assert(pow10(a) * 1 == pow10(a)) by (nonlinear_arith);
    }
}

/// A larger exponent gives no smaller power.
pub proof fn lemma_pow10_grows(a: nat, b: nat)
    requires
        a <= b,
    ensures
        1 <= pow10(a) <= pow10(b),
    decreases b,
{
    if a < b {
        lemma_pow10_grows(a, (b - 1) as nat);
    } else if a > 0 {
        lemma_pow10_grows((a - 1) as nat, (a - 1) as nat);
    }
}

pub proof fn lemma_pow10_bound(n: nat)
    requires
        n <= 9,
    ensures
        1 <= pow10(n) <= 1_000_000_000,
{
    lemma_pow10_grows(n, 9);
    lemma_pow10_values();
}

/// Ten to the power of `n`, for the scales that a percentage can have.
pub fn power_of_ten(n: u8) -> (r: u64)
    requires
        n <= MAX_SCALE,
    ensures
        r == pow10(n as nat),
        1 <= r <= 1_000_000_000,
{
    let mut r: u64 = 1;
    let mut i: u8 = 0;
    proof {
        lemma_pow10_bound(0);
    }
    while i < n
        invariant
            i <= n <= 9,
            r == pow10(i as nat),
            1 <= r <= 1_000_000_000,
        decreases n - i,
    {
        proof {
            lemma_pow10_bound(i as nat + 1);
        }
        r = r * 10;
        i += 1;
    }
    r
}

/// A number without its sign, and whether `-` stood before it. `+` is read over.
pub open spec fn unsigned_part(text: Seq<char>) -> (bool, Seq<char>) {
    if text.len() > 0 && text[0] == '-' {
        (true, text.subrange(1, text.len() as int))
    } else if text.len() > 0 && text[0] == '+' {
        (false, text.subrange(1, text.len() as int))
    } else {
        (false, text)
    }
}

/// The digits before and after the decimal point of an unsigned number.
pub open spec fn digit_parts(body: Seq<char>) -> (Seq<char>, Seq<char>) {
    match split_once(body, '.') {
        Some((whole, fraction)) => (whole, fraction),
        None => (body, Seq::empty()),
    }
}

/// The largest exponent, in either direction, that is read.
pub const MAX_EXPONENT: u64 = 64;

/// The first index at or after `from` that holds the exponent mark `e` or
/// `E`, or the length.
pub open spec fn exponent_mark(s: Seq<char>, from: int) -> int
    decreases s.len() - from,
{
    if from < 0 || from >= s.len() {
        s.len() as int
    } else if s[from] == 'e' || s[from] == 'E' {
        from
    } else {
        exponent_mark(s, from + 1)
    }
}

/// What stands before the exponent mark, and what stands after it if there
/// is one.
pub open spec fn mantissa_and_exponent(body: Seq<char>) -> (Seq<char>, Option<Seq<char>>) {
    let at = exponent_mark(body, 0);
    if at >= body.len() {
        (body, None)
    } else {
        (body.subrange(0, at), Some(body.subrange(at + 1, body.len() as int)))
    }
}

/// The exponent that a text writes: an optional sign and digits, of a value
/// of at most `MAX_EXPONENT`.
pub open spec fn exponent_value(text: Seq<char>) -> Option<int> {
    let (negative, digits) = unsigned_part(text);
    match parsed_digits(digits) {
        Some(value) => if value <= MAX_EXPONENT {
            Some(
                if negative {
                    -(value as int)
                } else {
                    value as int
                },
            )
        } else {
            None
        },
        None => None,
    }
}

/// The percentage with the given digits before and after the point, as they
/// stand: at least one digit, at most `MAX_DIGITS` digits, at most
/// `MAX_SCALE` of them after the point.
pub open spec fn plain_percent(negative: bool, whole: Seq<char>, fraction: Seq<char>) -> Option<
    Percent,
> {
    let digits = whole + fraction;
    if digits.len() <= MAX_DIGITS && fraction.len() <= MAX_SCALE {
        match parsed_digits(digits) {
            Some(value) => Some(Percent { negative, digits: value, scale: fraction.len() as u8 }),
            None => None,
        }
    } else {
        None
    }
}

/// The first index at or after `from` that holds no `0`, or the length.
pub open spec fn first_nonzero(s: Seq<char>, from: int) -> int
    decreases s.len() - from,
{
    if from < 0 || from >= s.len() {
        s.len() as int
    } else if s[from] == '0' {
        first_nonzero(s, from + 1)
    } else {
        from
    }
}

/// The end of the digits before `hi` once the zeros at their end are dropped.
pub open spec fn last_nonzero_end(s: Seq<char>, hi: int) -> int
    decreases hi,
{
    if hi <= 0 || hi > s.len() {
        0
    } else if s[hi - 1] == '0' {
        last_nonzero_end(s, hi - 1)
    } else {
        hi
    }
}

/// The percentage with the given digits before and after the point, without
/// the zeros that do not count: those at the start of the digits before the
/// point and those at the end of the digits after it. The value is the
/// same. Digits that are all zero write zero.
pub open spec fn tidy_percent(negative: bool, whole: Seq<char>, fraction: Seq<char>) -> Option<
    Percent,
> {
    let short_whole = whole.subrange(first_nonzero(whole, 0), whole.len() as int);
    let short_fraction = fraction.subrange(0, last_nonzero_end(fraction, fraction.len() as int));
    if !all_digits(whole) || !all_digits(fraction) || whole.len() + fraction.len() == 0 {
        None
    } else if short_whole.len() + short_fraction.len() == 0 {
        Some(Percent { negative, digits: 0, scale: 0 })
    } else {
        plain_percent(negative, short_whole, short_fraction)
    }
}

/// The digits before and after the point once the point is moved by
/// `exponent` places: to the right for a positive exponent, to the left for
/// a negative one, with zeros where the digits end.
pub open spec fn shifted(whole: Seq<char>, fraction: Seq<char>, exponent: int) -> (
    Seq<char>,
    Seq<char>,
) {
    if exponent >= 0 {
        let padded = if fraction.len() >= exponent {
            fraction
        } else {
            fraction + zeros((exponent - fraction.len()) as nat)
        };
        (whole + padded.subrange(0, exponent), padded.subrange(exponent, padded.len() as int))
    } else {
        let padded = if whole.len() >= -exponent {
            whole
        } else {
            zeros((-exponent - whole.len()) as nat) + whole
        };
        (
            padded.subrange(0, padded.len() + exponent),
            padded.subrange(padded.len() + exponent, padded.len() as int) + fraction,
        )
    }
}

/// The percentage that a text writes, as a decimal number is written: an
/// optional sign, digits with at most one decimal point among them, and
/// optionally `e` or `E` with an exponent. A number of at most `MAX_DIGITS`
/// digits, at most `MAX_SCALE` of them after the point, is kept as it is
/// written. Any other number, and every number with an exponent, is kept
/// without the zeros that do not count, if it then has at most that many
/// digits. The percentage has exactly the value that the text writes.
pub open spec fn parsed_percent(text: Seq<char>) -> Option<Percent> {
    let (negative, body) = unsigned_part(text);
    let (mantissa, exponent) = mantissa_and_exponent(body);
    let (whole, fraction) = digit_parts(mantissa);
    match exponent {
        None => match plain_percent(negative, whole, fraction) {
            Some(percent) => Some(percent),
            None => tidy_percent(negative, whole, fraction),
        },
        Some(written) => match exponent_value(written) {
            Some(places) => if whole.len() + fraction.len() == 0 {
                None
            } else {
                tidy_percent(
                    negative,
                    shifted(whole, fraction, places).0,
                    shifted(whole, fraction, places).1,
                )
            },
            None => None,
        },
    }
}

fn only_digits(s: &Vec<char>) -> (r: bool)
    ensures
        r == all_digits(s@),
{
    let mut i: usize = 0;
    while i < s.len()
        invariant
            i <= s.len(),
            forall|j: int| 0 <= j < i ==> crate::text::is_digit(#[trigger] s@[j]),
        decreases s.len() - i,
    {
        if !crate::text::is_digit_char(s[i]) {
            return false;
        }
        i += 1;
    }
    true
}

fn zero_digits(n: usize) -> (r: Vec<char>)
    ensures
        r@ == zeros(n as nat),
{
    let mut r: Vec<char> = Vec::new();
    let mut i: usize = 0;
    while i < n
        invariant
            i <= n,
            r@ == zeros(i as nat),
        decreases n - i,
    {
        r.push('0');
        i += 1;
        assert(r@ =~= zeros(i as nat));
    }
    r
}

fn read_plain(negative: bool, whole: &Vec<char>, fraction: &Vec<char>) -> (r: Option<Percent>)
    ensures
        r == plain_percent(negative, whole@, fraction@),
        r matches Some(p) ==> p.wf(),
{
    if whole.len() > MAX_DIGITS || fraction.len() > MAX_SCALE {
        return None;
    }
    let mut digits = copy_of(whole);
    append_chars(&mut digits, fraction);
    if digits.len() > MAX_DIGITS {
        return None;
    }
    match parse_digits(&digits) {
        Some(value) => {
            proof {
                lemma_digits_bound(digits@);
                lemma_pow10_grows(digits@.len(), 18);
                lemma_pow10_values();
            }
            Some(Percent { negative, digits: value, scale: fraction.len() as u8 })
        },
        None => None,
    }
}

fn read_tidy(negative: bool, whole: &Vec<char>, fraction: &Vec<char>) -> (r: Option<Percent>)
    ensures
        r == tidy_percent(negative, whole@, fraction@),
        r matches Some(p) ==> p.wf(),
{
    if !only_digits(whole) || !only_digits(fraction) {
        return None;
    }
    if whole.len() == 0 && fraction.len() == 0 {
        return None;
    }
    let mut start: usize = 0;
    while start < whole.len() && whole[start] == '0'
        invariant
            start <= whole.len(),
            first_nonzero(whole@, 0) == first_nonzero(whole@, start as int),
        decreases whole.len() - start,
    {
        start += 1;
    }
    let mut end: usize = fraction.len();
    while end > 0 && fraction[end - 1] == '0'
        invariant
            end <= fraction.len(),
            last_nonzero_end(fraction@, fraction.len() as int) == last_nonzero_end(
                fraction@,
                end as int,
            ),
        decreases end,
    {
        end -= 1;
    }
    let short_whole = slice_of(whole, start, whole.len());
    let short_fraction = slice_of(fraction, 0, end);
    if short_whole.len() == 0 && short_fraction.len() == 0 {
        return Some(Percent { negative, digits: 0, scale: 0 });
    }
    read_plain(negative, &short_whole, &short_fraction)
}

fn shift(whole: &Vec<char>, fraction: &Vec<char>, left: bool, places: usize) -> (r: (
    Vec<char>,
    Vec<char>,
))
    requires
        places <= MAX_EXPONENT,
    ensures
        (r.0@, r.1@) == shifted(
            whole@,
            fraction@,
            if left {
                -(places as int)
            } else {
                places as int
            },
        ),
{
    if !left {
        let mut padded = copy_of(fraction);
        if fraction.len() < places {
            let fill = zero_digits(places - fraction.len());
            append_chars(&mut padded, &fill);
        }
        let mut new_whole = copy_of(whole);
        append_chars(&mut new_whole, &slice_of(&padded, 0, places));
        (new_whole, slice_of(&padded, places, padded.len()))
    } else {
        let padded = if whole.len() >= places {
            copy_of(whole)
        } else {
            let mut fill = zero_digits(places - whole.len());
            append_chars(&mut fill, whole);
            fill
        };
        let cut: usize = padded.len() - places;
        let mut new_fraction = slice_of(&padded, cut, padded.len());
        append_chars(&mut new_fraction, fraction);
        (slice_of(&padded, 0, cut), new_fraction)
    }
}

fn read_exponent(text: &Vec<char>) -> (r: Option<(bool, usize)>)
    ensures
        match r {
            Some((left, places)) => places <= MAX_EXPONENT && exponent_value(text@) == Some(
                if left {
                    -(places as int)
                } else {
                    places as int
                },
            ) && (left ==> places > 0),
            None => exponent_value(text@).is_none(),
        },
{
    let negative = text.len() > 0 && text[0] == '-';
    let digits = if text.len() > 0 && (text[0] == '-' || text[0] == '+') {
        slice_of(text, 1, text.len())
    } else {
        copy_of(text)
    };
    match parse_digits(&digits) {
        Some(value) => {
            if value <= MAX_EXPONENT {
                Some((negative && value > 0, value as usize))
            } else {
                None
            }
        },
        None => None,
    }
}

impl Percent {
    /// What the type promises of its fields.
    pub open spec fn wf(self) -> bool {
        self.scale <= MAX_SCALE && self.digits < 1_000_000_000_000_000_000
    }

    /// The percentage `value` without a fraction.
    pub fn whole(value: i32) -> (r: Percent)
        ensures
            r.wf(),
            r == (Percent {
                negative: value < 0,
                digits: (if value < 0 {
                    -(value as int)
                } else {
                    value as int
                }) as u64,
                scale: 0,
            }),
    {
        if value < 0 {
            Percent { negative: true, digits: (-(value as i64)) as u64, scale: 0 }
        } else {
            Percent { negative: false, digits: value as u64, scale: 0 }
        }
    }

    /// Whether the fields are what the type promises of them.
    pub fn is_wf(&self) -> (r: bool)
        ensures
            r == self.wf(),
    {
        self.scale as usize <= MAX_SCALE && self.digits < 1_000_000_000_000_000_000
    }

    /// The percentage with the given sign, digits and number of digits after
    /// the point; none where there are too many digits.
    pub fn new(negative: bool, digits: u64, scale: u8) -> (r: Option<Percent>)
        ensures
            r == (if (Percent { negative, digits, scale }).wf() {
                Some(Percent { negative, digits, scale })
            } else {
                None
            }),
    {
        let percent = Percent { negative, digits, scale };
        if percent.is_wf() {
            Some(percent)
        } else {
            None
        }
    }

    /// Whether the percentage is zero, of either sign.
    pub fn is_zero(&self) -> (r: bool)
        ensures
            r == (self.digits == 0),
    {
        self.digits == 0
    }

    /// Reads a percentage.
    pub fn parse(text: &Vec<char>) -> (r: Option<Percent>)
        ensures
            r == parsed_percent(text@),
            r matches Some(p) ==> p.wf(),
    {
        let negative = text.len() > 0 && text[0] == '-';
        let body = if text.len() > 0 && (text[0] == '-' || text[0] == '+') {
            slice_of(text, 1, text.len())
        } else {
            copy_of(text)
        };
        let mut at: usize = 0;
        while at < body.len() && body[at] != 'e' && body[at] != 'E'
            invariant
                at <= body.len(),
                exponent_mark(body@, 0) == exponent_mark(body@, at as int),
            decreases body.len() - at,
        {
            at += 1;
        }
        let mantissa = if at < body.len() {
            slice_of(&body, 0, at)
        } else {
            assert(body@.subrange(0, body.len() as int) =~= body@);
            copy_of(&body)
        };
        let (whole, fraction) = match split_at_first(&mantissa, '.') {
            Some((w, f)) => (w, f),
            None => (mantissa, Vec::new()),
        };
        if at >= body.len() {
            return match read_plain(negative, &whole, &fraction) {
                Some(percent) => Some(percent),
                None => read_tidy(negative, &whole, &fraction),
            };
        }
        let written = slice_of(&body, at + 1, body.len());
        match read_exponent(&written) {
            Some((left, places)) => {
                if whole.len() == 0 && fraction.len() == 0 {
                    return None;
                }
                let (new_whole, new_fraction) = shift(&whole, &fraction, left, places);
                read_tidy(negative, &new_whole, &new_fraction)
            },
            None => None,
        }
    }
}

/// A number written with `n` digits is below ten to the power of `n`.
pub proof fn lemma_digits_bound(digits: Seq<char>)
    requires
        all_digits(digits),
    ensures
        decimal_value(digits) < pow10(digits.len()),
    decreases digits.len(),
{
    if digits.len() > 0 {
        assert(all_digits(digits.drop_last())) by {
            assert forall|i: int| 0 <= i < digits.drop_last().len() implies crate::text::is_digit(
                #[trigger] digits.drop_last()[i],
            ) by {
                assert(digits.drop_last()[i] == digits[i]);
            }
        }
        lemma_digits_bound(digits.drop_last());
        assert(crate::text::is_digit(digits.last()));
    }
}

/// `n` zeros.
pub open spec fn zeros(n: nat) -> Seq<char> {
    Seq::new(n, |i: int| '0')
}

/// The digits of `digits`, with zeros before them where there are not more
/// digits than follow the point.
pub open spec fn padded_digits(digits: u64, scale: u8) -> Seq<char> {
    let written = digits_of(digits as nat);
    if written.len() > scale {
        written
    } else {
        zeros((scale + 1 - written.len()) as nat) + written
    }
}

/// How a percentage is written: `-` if it is negative, its digits, and a
/// point before the digits of the fraction, if there are any.
pub open spec fn percent_text(p: Percent) -> Seq<char> {
    let digits = padded_digits(p.digits, p.scale);
    let whole = digits.subrange(0, digits.len() - p.scale);
    let fraction = digits.subrange(digits.len() - p.scale, digits.len() as int);
    let sign = if p.negative {
        seq!['-']
    } else {
        Seq::empty()
    };
    if p.scale == 0 {
        sign + whole
    } else {
        sign + whole + seq!['.'] + fraction
    }
}

impl Percent {
    /// Writes the percentage as `parse` reads it.
    pub fn text(&self) -> (r: String)
        ensures
            r@ == percent_text(*self),
    {
        let written = write_number(self.digits);
        proof {
            crate::framing::lemma_digits_of(self.digits as nat);
        }
        let scale: usize = self.scale as usize;
        let mut digits: Vec<char> = Vec::new();
        if written.len() <= scale {
            let missing: usize = scale + 1 - written.len();
            let mut i: usize = 0;
            while i < missing
                invariant
                    i <= missing,
                    digits@ == zeros(i as nat),
                decreases missing - i,
            {
                digits.push('0');
                i += 1;
                assert(digits@ =~= zeros(i as nat));
            }
        }
        assert(digits@ =~= Seq::<char>::empty() || digits@ == zeros(
            (scale + 1 - written@.len()) as nat,
        ));
        append_chars(&mut digits, &written);
        assert(digits@ =~= padded_digits(self.digits, self.scale));
        let split: usize = digits.len() - scale;
        let mut out: Vec<char> = Vec::new();
        if self.negative {
            out.push('-');
        }
        append_chars(&mut out, &slice_of(&digits, 0, split));
        if scale > 0 {
            out.push('.');
            append_chars(&mut out, &slice_of(&digits, split, digits.len()));
        }
        assert(out@ =~= percent_text(*self));
        crate::text::string_of(&out)
    }
}

proof fn lemma_zeros_value(n: nat)
    ensures
        decimal_value(zeros(n)) == 0,
        all_digits(zeros(n)),
    decreases n,
{
    if n > 0 {
        lemma_zeros_value((n - 1) as nat);
        assert(zeros(n).drop_last() =~= zeros((n - 1) as nat));
        assert(zeros(n).last() == '0');
    }
}

/// Zeros before a number do not change it.
proof fn lemma_leading_zeros(n: nat, digits: Seq<char>)
    requires
        all_digits(digits),
    ensures
        decimal_value(zeros(n) + digits) == decimal_value(digits),
        all_digits(zeros(n) + digits),
    decreases digits.len(),
{
    lemma_zeros_value(n);
    let all = zeros(n) + digits;
    if digits.len() == 0 {
        assert(all =~= zeros(n));
    } else {
        assert(all_digits(digits.drop_last())) by {
            assert forall|i: int| 0 <= i < digits.drop_last().len() implies crate::text::is_digit(
                #[trigger] digits.drop_last()[i],
            ) by {
                assert(digits.drop_last()[i] == digits[i]);
            }
        }
        lemma_leading_zeros(n, digits.drop_last());
        assert(all.drop_last() =~= zeros(n) + digits.drop_last());
        assert(all.last() == digits.last());
    }
    assert forall|i: int| 0 <= i < all.len() implies crate::text::is_digit(#[trigger] all[i]) by {
        if i < n {
            assert(all[i] == zeros(n)[i]);
        } else {
            assert(all[i] == digits[i - n]);
        }
    }
}

/// A number below ten to the power of `k` is written with at most `k` digits.
proof fn lemma_digit_count(n: nat, k: nat)
    requires
        k >= 1,
        n < pow10(k),
    ensures
        digits_of(n).len() <= k,
    decreases n,
{
    if n >= 10 {
        if k == 1 {
            lemma_pow10_values();
        } else {
            assert(pow10(k) == 10 * pow10((k - 1) as nat));
            lemma_digit_count(n / 10, (k - 1) as nat);
        }
    }
}

/// A percentage that is written and read again is the same percentage.
#[verifier::rlimit(50)]
pub proof fn lemma_percent_round_trip(p: Percent)
    requires
        p.wf(),
    ensures
        parsed_percent(percent_text(p)) == Some(p),
{
    let written = digits_of(p.digits as nat);
    crate::framing::lemma_digits_of(p.digits as nat);
    lemma_pow10_values();
    lemma_digit_count(p.digits as nat, 18);
    let digits = padded_digits(p.digits, p.scale);
    if written.len() <= p.scale {
        lemma_leading_zeros((p.scale + 1 - written.len()) as nat, written);
    }
    assert(all_digits(digits) && decimal_value(digits) == p.digits && digits.len() <= 18
        && digits.len() > p.scale);
    let split = digits.len() - p.scale;
    let whole = digits.subrange(0, split);
    let fraction = digits.subrange(split, digits.len() as int);
    assert(whole + fraction =~= digits);
    let text = percent_text(p);
    let body = if p.scale == 0 {
        whole
    } else {
        whole + seq!['.'] + fraction
    };
    assert(crate::text::is_digit(digits[0]));
    assert(body[0] == digits[0]);
    if p.negative {
        assert(text[0] == '-');
        assert(text.subrange(1, text.len() as int) =~= body);
    } else {
        assert(text =~= body);
    }
    assert(unsigned_part(text) == (p.negative, body));
    assert forall|j: int| 0 <= j < whole.len() implies whole[j] != '.' by {
        assert(crate::text::is_digit(digits[j]));
    }
    if p.scale == 0 {
        assert(whole =~= digits);
        crate::text::lemma_index_of_is(body, '.', 0, body.len() as int);
        assert(digits + Seq::<char>::empty() =~= digits);
    } else {
        crate::text::lemma_index_of_is(body, '.', 0, whole.len() as int);
        assert(body.subrange(0, whole.len() as int) =~= whole);
        assert(body.subrange(whole.len() as int + 1, body.len() as int) =~= fraction);
    }
    let after = if p.scale == 0 {
        Seq::<char>::empty()
    } else {
        fraction
    };
    assert(digit_parts(body) == (whole, after));
    assert forall|j: int| 0 <= j < body.len() implies body[j] != 'e' && body[j] != 'E' by {
        if j < whole.len() {
            assert(crate::text::is_digit(digits[j]));
        } else if j > whole.len() {
            assert(body[j] == digits[j - 1]);
            assert(crate::text::is_digit(digits[j - 1]));
        }
    }
    lemma_no_mark(body, 0);
    assert(mantissa_and_exponent(body) == (body, None::<Seq<char>>));
    assert(whole + after =~= digits);
    assert(parsed_digits(digits) == Some(p.digits));
    assert(plain_percent(p.negative, whole, after) == Some(p));
}

/// A text without `e` and `E` has no exponent mark.
proof fn lemma_no_mark(s: Seq<char>, from: int)
    requires
        0 <= from,
        forall|j: int| 0 <= j < s.len() ==> s[j] != 'e' && s[j] != 'E',
    ensures
        exponent_mark(s, from) == s.len(),
    decreases s.len() - from,
{
    if from < s.len() {
        lemma_no_mark(s, from + 1);
    }
}

} // verus!
