//! Writing a list of texts as one text and reading it back.
//!
//! Each text is written as its length in decimal digits, a colon, and the
//! text itself, so a text may hold any character.

use vstd::prelude::*;
use crate::text::{
    all_digits, append_chars, decimal_value, digit_value, find_char, index_of, is_digit,
    lemma_index_of_is, parse_digits, parsed_digits, slice_of, views,
};

verus! {

/// The character that writes a digit.
pub open spec fn digit_char(d: nat) -> char {
    if d == 0 {
        '0'
    } else if d == 1 {
        '1'
    } else if d == 2 {
        '2'
    } else if d == 3 {
        '3'
    } else if d == 4 {
        '4'
    } else if d == 5 {
        '5'
    } else if d == 6 {
        '6'
    } else if d == 7 {
        '7'
    } else if d == 8 {
        '8'
    } else {
        '9'
    }
}

/// The decimal digits that write a number, without leading zeros.
pub open spec fn digits_of(n: nat) -> Seq<char>
    decreases n,
{
    if n < 10 {
        seq![digit_char(n)]
    } else {
        digits_of(n / 10).push(digit_char(n % 10))
    }
}

/// The digits of a number are digits, hold no colon, and write the number.
pub proof fn lemma_digits_of(n: nat)
    ensures
        digits_of(n).len() >= 1,
        all_digits(digits_of(n)),
        !digits_of(n).contains(':'),
        decimal_value(digits_of(n)) == n,
    decreases n,
{
    let d = digits_of(n);
    if n < 10 {
        assert(d.drop_last() =~= Seq::<char>::empty());
        assert(decimal_value(d.drop_last()) == 0);
        assert(digit_value(d.last()) == n);
    } else {
        lemma_digits_of(n / 10);
        let front = digits_of(n / 10);
        assert(d.drop_last() =~= front);
        assert(digit_value(d.last()) == n % 10);
        assert forall|i: int| 0 <= i < d.len() implies is_digit(#[trigger] d[i]) by {
            if i < front.len() {
                assert(d[i] == front[i]);
            }
        }
        if d.contains(':') {
            let i = choose|i: int| 0 <= i < d.len() && d[i] == ':';
            if i < front.len() {
                assert(front[i] == ':');
                assert(front.contains(':'));
            }
        }
    }
    if d.contains(':') {
        let i = choose|i: int| 0 <= i < d.len() && d[i] == ':';
        assert(is_digit(d[i]));
    }
}

/// Reading the digits of a 64-bit number gives the number.
pub proof fn lemma_parse_digits(n: nat)
    requires
        n <= u64::MAX,
    ensures
        parsed_digits(digits_of(n)) == Some(n as u64),
{
    lemma_digits_of(n);
}

fn digit_of(d: u64) -> (r: char)
    requires
        d < 10,
    ensures
        r == digit_char(d as nat),
{
    if d == 0 {
        '0'
    } else if d == 1 {
        '1'
    } else if d == 2 {
        '2'
    } else if d == 3 {
        '3'
    } else if d == 4 {
        '4'
    } else if d == 5 {
        '5'
    } else if d == 6 {
        '6'
    } else if d == 7 {
        '7'
    } else if d == 8 {
        '8'
    } else {
        '9'
    }
}

/// Writes a number in decimal digits.
pub fn write_number(n: u64) -> (r: Vec<char>)
    ensures
        r@ == digits_of(n as nat),
    decreases n,
{
    if n < 10 {
        let r: Vec<char> = vec![digit_of(n)];
        assert(r@ =~= seq![digit_char(n as nat)]);
        r
    } else {
        let mut r = write_number(n / 10);
        r.push(digit_of(n % 10));
        r
    }
}

/// One text with its length before it.
pub open spec fn frame(field: Seq<char>) -> Seq<char> {
    digits_of(field.len()) + seq![':'] + field
}

/// The texts written one after the other, each with its length before it.
pub open spec fn framed(fields: Seq<Seq<char>>) -> Seq<char>
    decreases fields.len(),
{
    if fields.len() == 0 {
        Seq::empty()
    } else {
        framed(fields.drop_last()) + frame(fields.last())
    }
}

/// The texts that are written in `text` from index `pos` on; none where
/// what stands there are not texts with their lengths before them.
pub open spec fn unframed_from(text: Seq<char>, pos: int) -> Option<Seq<Seq<char>>>
    decreases text.len() - pos,
{
    let colon = index_of(text, ':', pos);
    if pos < 0 || pos > text.len() {
        None
    } else if pos == text.len() {
        Some(Seq::empty())
    } else if colon >= text.len() || colon < pos {
        None
    } else {
        match parsed_digits(text.subrange(pos, colon)) {
            None => None,
            Some(n) => {
                let end = colon + 1 + n;
                if end > text.len() {
                    None
                } else {
                    match unframed_from(text, end) {
                        None => None,
                        Some(rest) => Some(seq![text.subrange(colon + 1, end)] + rest),
                    }
                }
            },
        }
    }
}

/// The texts that are written in `text`.
pub open spec fn unframed(text: Seq<char>) -> Option<Seq<Seq<char>>> {
    unframed_from(text, 0)
}

/// Whether the length of every text fits 64 bits.
pub open spec fn lengths_fit(fields: Seq<Seq<char>>) -> bool {
    forall|i: int| 0 <= i < fields.len() ==> (#[trigger] fields[i]).len() <= u64::MAX
}

/// Writing two lists one after the other writes their concatenation.
pub proof fn lemma_framed_concat(a: Seq<Seq<char>>, b: Seq<Seq<char>>)
    ensures
        framed(a + b) == framed(a) + framed(b),
    decreases b.len(),
{
    if b.len() == 0 {
        assert(a + b =~= a);
        assert(framed(a) + framed(b) =~= framed(a));
    } else {
        lemma_framed_concat(a, b.drop_last());
        assert((a + b).drop_last() =~= a + b.drop_last());
        assert((a + b).last() == b.last());
        assert(framed(a + b) =~= framed(a) + framed(b));
    }
}

/// Where written texts stand at the end of a text, reading from their start
/// gives them back.
pub proof fn lemma_unframed_from(text: Seq<char>, pos: int, fields: Seq<Seq<char>>)
    requires
        0 <= pos <= text.len(),
        text.subrange(pos, text.len() as int) == framed(fields),
        lengths_fit(fields),
    ensures
        unframed_from(text, pos) == Some(fields),
    decreases fields.len(),
{
    if fields.len() == 0 {
        assert(framed(fields).len() == 0);
    } else {
        let first = fields[0];
        let rest = fields.drop_first();
        let digits = digits_of(first.len());
        assert(fields =~= seq![first] + rest);
        lemma_framed_concat(seq![first], rest);
        assert(seq![first].drop_last() =~= Seq::<Seq<char>>::empty());
        assert(framed(Seq::<Seq<char>>::empty()) =~= Seq::<char>::empty());
        assert(seq![first].last() == first);
        assert(framed(seq![first]) == framed(seq![first].drop_last()) + frame(first));
        assert(framed(seq![first]) =~= frame(first));
        let tail = text.subrange(pos, text.len() as int);
        assert(tail == frame(first) + framed(rest));
        lemma_digits_of(first.len());
        assert(frame(first).len() == digits.len() + 1 + first.len());
        assert(tail.len() == text.len() - pos);
        assert(tail.len() == frame(first).len() + framed(rest).len());
        let colon = pos + digits.len();
        assert forall|j: int| pos <= j < colon implies text[j] != ':' by {
            assert(text[j] == tail[j - pos]);
            assert(tail[j - pos] == digits[j - pos]);
            assert(digits.contains(digits[j - pos]));
        }
        assert(text[colon] == tail[colon - pos]);
        lemma_index_of_is(text, ':', pos, colon);
        assert(text.subrange(pos, colon) =~= digits);
        lemma_parse_digits(first.len());
        let end = colon + 1 + first.len();
        assert forall|j: int| 0 <= j < first.len() implies text[colon + 1 + j] == first[j] by {
            assert(text[colon + 1 + j] == tail[colon + 1 + j - pos]);
            assert(tail[colon + 1 + j - pos] == frame(first)[digits.len() + 1 + j]);
        }
        assert(text.subrange(colon + 1, end) =~= first);
        assert forall|j: int| 0 <= j < framed(rest).len() implies text[end + j] == framed(
            rest,
        )[j] by {
            assert(text[end + j] == tail[end + j - pos]);
        }
        assert(text.subrange(end, text.len() as int) =~= framed(rest));
        assert(lengths_fit(rest)) by {
            assert forall|i: int| 0 <= i < rest.len() implies (#[trigger] rest[i]).len()
                <= u64::MAX by {
                assert(rest[i] == fields[i + 1]);
            }
        }
        lemma_unframed_from(text, end, rest);
    }
}

/// Texts that are written and read again are the same texts.
pub proof fn lemma_unframed_framed(fields: Seq<Seq<char>>)
    requires
        lengths_fit(fields),
    ensures
        unframed(framed(fields)) == Some(fields),
{
    let text = framed(fields);
    assert(text.subrange(0, text.len() as int) =~= text);
    lemma_unframed_from(text, 0, fields);
}

/// Writes the texts one after the other, each with its length before it.
pub fn write_fields(fields: &Vec<Vec<char>>) -> (r: Vec<char>)
    ensures
        r@ == framed(views(fields@)),
        lengths_fit(views(fields@)),
{
    let mut out: Vec<char> = Vec::new();
    let mut i: usize = 0;
    assert(views(fields@).take(0) =~= Seq::empty());
    while i < fields.len()
        invariant
            i <= fields.len(),
            out@ == framed(views(fields@).take(i as int)),
            forall|j: int| 0 <= j < i ==> (#[trigger] views(fields@)[j]).len() <= u64::MAX,
        decreases fields.len() - i,
    {
        let field = &fields[i];
        let ghost before = out@;
        let length = write_number(field.len() as u64);
        append_chars(&mut out, &length);
        out.push(':');
        append_chars(&mut out, field);
        proof {
            let next = views(fields@).take(i + 1);
            assert(next.drop_last() =~= views(fields@).take(i as int));
            assert(next.last() == field@);
            assert(out@ =~= before + frame(field@));
        }
        i += 1;
    }
    assert(views(fields@).take(fields.len() as int) =~= views(fields@));
    out
}

/// Reads the texts that are written in `text`.
pub fn read_fields(text: &Vec<char>) -> (r: Option<Vec<Vec<char>>>)
    ensures
        match r {
            Some(fields) => unframed(text@) == Some(views(fields@)),
            None => unframed(text@).is_none(),
        },
{
    let mut out: Vec<Vec<char>> = Vec::new();
    let mut pos: usize = 0;
    assert(views(out@) =~= Seq::empty());
    loop
        invariant
            pos <= text.len(),
            unframed(text@) == (match unframed_from(text@, pos as int) {
                Some(rest) => Some(views(out@) + rest),
                None => None,
            }),
        decreases text.len() - pos,
    {
        if pos == text.len() {
            assert(views(out@) + Seq::<Seq<char>>::empty() =~= views(out@));
            return Some(out);
        }
        let colon = find_char(text, ':', pos);
        if colon >= text.len() {
            return None;
        }
        let digits = slice_of(text, pos, colon);
        let n = match parse_digits(&digits) {
            Some(n) => n,
            None => {
                return None;
            },
        };
        if n > (text.len() - colon - 1) as u64 {
            return None;
        }
        let end: usize = colon + 1 + n as usize;
        let ghost before = views(out@);
        out.push(slice_of(text, colon + 1, end));
        proof {
            let field = text@.subrange(colon + 1, end as int);
            assert(views(out@) =~= before.push(field));
            match unframed_from(text@, end as int) {
                Some(rest) => {
                    assert(before + (seq![field] + rest) =~= before.push(field) + rest);
                },
                None => {},
            }
        }
        pos = end;
    }
}

} // verus!
