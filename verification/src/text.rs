//! Character-level text handling shared by the parsers of this crate.
//!
//! Text is processed as sequences of `char`. Every executable function here
//! has a spec function of the same meaning over `Seq<char>`.

use vstd::prelude::*;
use vstd::string::StringExecFns;

verus! {

/// `String::push` appends one character to the end of the string.
pub assume_specification[ String::push ](s: &mut String, c: char)
    ensures
        final(s)@ == old(s)@.push(c),
;

/// The views of a vector of character vectors.
pub open spec fn views(v: Seq<Vec<char>>) -> Seq<Seq<char>> {
    Seq::new(v.len(), |i: int| v[i]@)
}

/// The views of a vector of strings.
pub open spec fn string_views(v: Seq<String>) -> Seq<Seq<char>> {
    Seq::new(v.len(), |i: int| v[i]@)
}

/// The characters of a string slice.
pub fn chars_of(s: &str) -> (v: Vec<char>)
    ensures
        v@ == s@,
{
    let mut v: Vec<char> = Vec::new();
    for c in it: s.chars()
        invariant
            it.seq() == s@,
            v@ == it.seq().take(it.index() as int),
    {
        v.push(c);
    }
    v
}

/// The string made of the given characters.
pub fn string_of(v: &Vec<char>) -> (s: String)
    ensures
        s@ == v@,
{
    let mut s = String::new();
    let mut i: usize = 0;
    while i < v.len()
        invariant
            i <= v.len(),
            s@ == v@.take(i as int),
        decreases v.len() - i,
    {
        s.push(v[i]);
        i += 1;
    }
    assert(v@.take(v.len() as int) =~= v@);
    s
}

/// The part of `v` from `lo` up to `hi`.
pub fn slice_of(v: &Vec<char>, lo: usize, hi: usize) -> (r: Vec<char>)
    requires
        lo <= hi <= v.len(),
    ensures
        r@ == v@.subrange(lo as int, hi as int),
{
    let mut r: Vec<char> = Vec::new();
    let mut i: usize = lo;
    while i < hi
        invariant
            lo <= i <= hi <= v.len(),
            r@ == v@.subrange(lo as int, i as int),
        decreases hi - i,
    {
        r.push(v[i]);
        i += 1;
        assert(r@ =~= v@.subrange(lo as int, i as int));
    }
    r
}

/// A copy of the given characters.
pub fn copy_of(v: &Vec<char>) -> (r: Vec<char>)
    ensures
        r@ == v@,
{
    let r = slice_of(v, 0, v.len());
    assert(v@.subrange(0, v.len() as int) =~= v@);
    r
}

/// Whether two character vectors hold the same text.
pub fn same_text(a: &Vec<char>, b: &Vec<char>) -> (r: bool)
    ensures
        r == (a@ == b@),
{
    if a.len() != b.len() {
        return false;
    }
    let mut i: usize = 0;
    while i < a.len()
        invariant
            i <= a.len(),
            a.len() == b.len(),
            forall|j: int| 0 <= j < i ==> a@[j] == b@[j],
        decreases a.len() - i,
    {
        if a[i] != b[i] {
            return false;
        }
        i += 1;
    }
    assert(a@ =~= b@);
    true
}

/// Whether two strings hold the same text.
pub fn same_string(a: &String, b: &String) -> (r: bool)
    ensures
        r == (a@ == b@),
{
    *a == *b
}

/// Whether `a` holds exactly the text of `lit`.
pub fn is_text(a: &Vec<char>, lit: &str) -> (r: bool)
    ensures
        r == (a@ == lit@),
{
    let b = chars_of(lit);
    same_text(a, &b)
}

/// White space as `char::is_whitespace` has it: the characters with the
/// Unicode property White_Space.
pub open spec fn is_space(c: char) -> bool {
    ('\u{9}' <= c && c <= '\u{d}') || c == ' ' || c == '\u{85}' || c == '\u{a0}' || c
        == '\u{1680}' || ('\u{2000}' <= c && c <= '\u{200a}') || c == '\u{2028}' || c
        == '\u{2029}' || c == '\u{202f}' || c == '\u{205f}' || c == '\u{3000}'
}

pub fn is_space_char(c: char) -> (r: bool)
    ensures
        r == is_space(c),
{
    ('\u{9}' <= c && c <= '\u{d}') || c == ' ' || c == '\u{85}' || c == '\u{a0}' || c
        == '\u{1680}' || ('\u{2000}' <= c && c <= '\u{200a}') || c == '\u{2028}' || c
        == '\u{2029}' || c == '\u{202f}' || c == '\u{205f}' || c == '\u{3000}'
}

/// White space as `u8::is_ascii_whitespace` has it: blank, tab, line feed,
/// form feed and carriage return.
pub open spec fn is_ascii_space(c: char) -> bool {
    c == ' ' || c == '\t' || c == '\n' || c == '\x0c' || c == '\r'
}

pub fn is_ascii_space_char(c: char) -> (r: bool)
    ensures
        r == is_ascii_space(c),
{
    c == ' ' || c == '\t' || c == '\n' || c == '\x0c' || c == '\r'
}

/// The first index at or after `from` that holds no white space, or the length.
pub open spec fn first_non_space(s: Seq<char>, from: int) -> int
    decreases s.len() - from,
{
    if from < 0 || from >= s.len() {
        s.len() as int
    } else if is_space(s[from]) {
        first_non_space(s, from + 1)
    } else {
        from
    }
}

/// The first index at or after `from` that holds white space, or the length.
pub open spec fn first_space(s: Seq<char>, from: int) -> int
    decreases s.len() - from,
{
    if from < 0 || from >= s.len() {
        s.len() as int
    } else if is_space(s[from]) {
        from
    } else {
        first_space(s, from + 1)
    }
}

/// The end of the text before `hi` once trailing white space down to `lo` is dropped.
pub open spec fn last_non_space_end(s: Seq<char>, lo: int, hi: int) -> int
    decreases hi - lo,
{
    if hi <= lo || hi > s.len() || lo < 0 {
        lo
    } else if is_space(s[hi - 1]) {
        last_non_space_end(s, lo, hi - 1)
    } else {
        hi
    }
}

pub fn skip_spaces(s: &Vec<char>, from: usize) -> (r: usize)
    requires
        from <= s.len(),
    ensures
        r == first_non_space(s@, from as int),
        from <= r <= s.len(),
        r < s.len() ==> !is_space(s@[r as int]),
{
    let mut i: usize = from;
    while i < s.len() && is_space_char(s[i])
        invariant
            from <= i <= s.len(),
            first_non_space(s@, from as int) == first_non_space(s@, i as int),
        decreases s.len() - i,
    {
        i += 1;
    }
    i
}

pub fn skip_non_spaces(s: &Vec<char>, from: usize) -> (r: usize)
    requires
        from <= s.len(),
    ensures
        r == first_space(s@, from as int),
        from <= r <= s.len(),
        from < s.len() && !is_space(s@[from as int]) ==> from < r,
{
    let mut i: usize = from;
    while i < s.len() && !is_space_char(s[i])
        invariant
            from <= i <= s.len(),
            first_space(s@, from as int) == first_space(s@, i as int),
            from < s.len() && !is_space(s@[from as int]) && i == from ==> i < s.len(),
        decreases s.len() - i,
    {
        i += 1;
    }
    i
}

/// The text without leading and trailing white space.
pub open spec fn trimmed(s: Seq<char>) -> Seq<char> {
    let lo = first_non_space(s, 0);
    let hi = last_non_space_end(s, lo, s.len() as int);
    s.subrange(lo, hi)
}

/// Drops leading and trailing white space.
pub fn trim(s: &Vec<char>) -> (r: Vec<char>)
    ensures
        r@ == trimmed(s@),
{
    let lo = skip_spaces(s, 0);
    let mut hi: usize = s.len();
    while hi > lo && is_space_char(s[hi - 1])
        invariant
            lo <= hi <= s.len(),
            last_non_space_end(s@, lo as int, s.len() as int) == last_non_space_end(
                s@,
                lo as int,
                hi as int,
            ),
        decreases hi - lo,
    {
        hi -= 1;
    }
    slice_of(s, lo, hi)
}

/// The first index at or after `from` that holds `c`, or the length.
pub open spec fn index_of(s: Seq<char>, c: char, from: int) -> int
    decreases s.len() - from,
{
    if from < 0 || from >= s.len() {
        s.len() as int
    } else if s[from] == c {
        from
    } else {
        index_of(s, c, from + 1)
    }
}

pub proof fn lemma_index_of_bounds(s: Seq<char>, c: char, from: int)
    requires
        0 <= from <= s.len(),
    ensures
        from <= index_of(s, c, from) <= s.len(),
        index_of(s, c, from) < s.len() ==> s[index_of(s, c, from)] == c,
        forall|j: int| from <= j < index_of(s, c, from) ==> s[j] != c,
    decreases s.len() - from,
{
    if from < s.len() && s[from] != c {
        lemma_index_of_bounds(s, c, from + 1);
    }
}

/// The first index at or after `from` that holds `c` is `at` if `c` stands
/// there, or the text ends there, and `c` does not stand in between.
pub proof fn lemma_index_of_is(s: Seq<char>, c: char, from: int, at: int)
    requires
        0 <= from <= at <= s.len(),
        forall|j: int| from <= j < at ==> s[j] != c,
        at < s.len() ==> s[at] == c,
    ensures
        index_of(s, c, from) == at,
    decreases at - from,
{
    if from < at {
        lemma_index_of_is(s, c, from + 1, at);
    }
}

pub fn find_char(s: &Vec<char>, c: char, from: usize) -> (r: usize)
    requires
        from <= s.len(),
    ensures
        r == index_of(s@, c, from as int),
        from <= r <= s.len(),
        r < s.len() ==> s@[r as int] == c,
        forall|j: int| from <= j < r ==> s@[j] != c,
{
    let mut i: usize = from;
    while i < s.len() && s[i] != c
        invariant
            from <= i <= s.len(),
            index_of(s@, c, from as int) == index_of(s@, c, i as int),
            forall|j: int| from <= j < i ==> s@[j] != c,
        decreases s.len() - i,
    {
        i += 1;
    }
    i
}

/// The text before and after the first `c`, if `c` occurs.
pub open spec fn split_once(s: Seq<char>, c: char) -> Option<(Seq<char>, Seq<char>)> {
    let at = index_of(s, c, 0);
    if at >= s.len() {
        None
    } else {
        Some((s.subrange(0, at), s.subrange(at + 1, s.len() as int)))
    }
}

pub fn split_at_first(s: &Vec<char>, c: char) -> (r: Option<(Vec<char>, Vec<char>)>)
    ensures
        match r {
            Some((k, v)) => split_once(s@, c) == Some((k@, v@)),
            None => split_once(s@, c).is_none(),
        },
{
    let at = find_char(s, c, 0);
    if at >= s.len() {
        None
    } else {
        Some((slice_of(s, 0, at), slice_of(s, at + 1, s.len())))
    }
}

/// Whether `s` begins with `prefix`.
pub open spec fn has_prefix(s: Seq<char>, prefix: Seq<char>) -> bool {
    prefix.len() <= s.len() && s.subrange(0, prefix.len() as int) == prefix
}

pub fn starts_with(s: &Vec<char>, prefix: &Vec<char>) -> (r: bool)
    ensures
        r == has_prefix(s@, prefix@),
{
    if prefix.len() > s.len() {
        return false;
    }
    let mut i: usize = 0;
    while i < prefix.len()
        invariant
            i <= prefix.len() <= s.len(),
            forall|j: int| 0 <= j < i ==> s@[j] == prefix@[j],
        decreases prefix.len() - i,
    {
        if s[i] != prefix[i] {
            assert(s@.subrange(0, prefix.len() as int)[i as int] == s@[i as int]);
            return false;
        }
        i += 1;
    }
    assert(s@.subrange(0, prefix.len() as int) =~= prefix@);
    true
}

pub fn starts_with_text(s: &Vec<char>, prefix: &str) -> (r: bool)
    ensures
        r == has_prefix(s@, prefix@),
{
    let p = chars_of(prefix);
    starts_with(s, &p)
}

/// The pieces of `s` between occurrences of `sep`, from index `from` on.
pub open spec fn split_from(s: Seq<char>, sep: char, from: int) -> Seq<Seq<char>>
    decreases s.len() - from,
{
    let end = index_of(s, sep, from);
    if from < 0 || from > s.len() {
        Seq::empty()
    } else if end >= s.len() || end < from {
        seq![s.subrange(from, s.len() as int)]
    } else {
        seq![s.subrange(from, end)] + split_from(s, sep, end + 1)
    }
}

/// The pieces of `s` between occurrences of `sep`; at least one piece.
pub open spec fn split(s: Seq<char>, sep: char) -> Seq<Seq<char>> {
    split_from(s, sep, 0)
}

pub fn split_on(s: &Vec<char>, sep: char) -> (r: Vec<Vec<char>>)
    ensures
        views(r@) == split(s@, sep),
{
    let mut out: Vec<Vec<char>> = Vec::new();
    let mut from: usize = 0;
    loop
        invariant
            from <= s.len(),
            split(s@, sep) == views(out@) + split_from(s@, sep, from as int),
        decreases s.len() - from,
    {
        let end = find_char(s, sep, from);
        let ghost before = views(out@);
        if end >= s.len() {
            out.push(slice_of(s, from, s.len()));
            assert(views(out@) =~= before + seq![s@.subrange(from as int, s.len() as int)]);
            return out;
        }
        out.push(slice_of(s, from, end));
        assert(views(out@) =~= before + seq![s@.subrange(from as int, end as int)]);
        assert(before + (seq![s@.subrange(from as int, end as int)] + split_from(
            s@,
            sep,
            end + 1,
        )) =~= (before + seq![s@.subrange(from as int, end as int)]) + split_from(
            s@,
            sep,
            end + 1,
        ));
        from = end + 1;
    }
}

/// The maximal runs of non-space characters of `s`, from index `from` on.
pub open spec fn tokens_from(s: Seq<char>, from: int) -> Seq<Seq<char>>
    decreases s.len() - from,
{
    let start = first_non_space(s, from);
    let end = first_space(s, start);
    if from < 0 || from > s.len() || start < from || start >= s.len() || end <= start || end > s.len() {
        Seq::empty()
    } else {
        seq![s.subrange(start, end)] + tokens_from(s, end)
    }
}

/// The white-space separated words of `s`, as `str::split_whitespace` gives
/// them.
pub open spec fn tokens(s: Seq<char>) -> Seq<Seq<char>> {
    tokens_from(s, 0)
}

pub fn split_words(s: &Vec<char>) -> (r: Vec<Vec<char>>)
    ensures
        views(r@) == tokens(s@),
{
    let mut out: Vec<Vec<char>> = Vec::new();
    let mut from: usize = 0;
    loop
        invariant
            from <= s.len(),
            tokens(s@) == views(out@) + tokens_from(s@, from as int),
        decreases s.len() - from,
    {
        let start = skip_spaces(s, from);
        if start >= s.len() {
            assert(views(out@) + Seq::<Seq<char>>::empty() =~= views(out@));
            return out;
        }
        let end = skip_non_spaces(s, start);
        let ghost before = views(out@);
        out.push(slice_of(s, start, end));
        assert(views(out@) =~= before + seq![s@.subrange(start as int, end as int)]);
        assert(before + (seq![s@.subrange(start as int, end as int)] + tokens_from(s@, end as int))
            =~= (before + seq![s@.subrange(start as int, end as int)]) + tokens_from(
            s@,
            end as int,
        ));
        from = end;
    }
}

/// The first index at or after `from` that holds no ASCII white space, or
/// the length.
pub open spec fn first_ascii_non_space(s: Seq<char>, from: int) -> int
    decreases s.len() - from,
{
    if from < 0 || from >= s.len() {
        s.len() as int
    } else if is_ascii_space(s[from]) {
        first_ascii_non_space(s, from + 1)
    } else {
        from
    }
}

/// The first index at or after `from` that holds ASCII white space, or the
/// length.
pub open spec fn first_ascii_space(s: Seq<char>, from: int) -> int
    decreases s.len() - from,
{
    if from < 0 || from >= s.len() {
        s.len() as int
    } else if is_ascii_space(s[from]) {
        from
    } else {
        first_ascii_space(s, from + 1)
    }
}

/// The maximal runs of characters other than ASCII white space, from index
/// `from` on.
pub open spec fn ascii_tokens_from(s: Seq<char>, from: int) -> Seq<Seq<char>>
    decreases s.len() - from,
{
    let start = first_ascii_non_space(s, from);
    let end = first_ascii_space(s, start);
    if from < 0 || from > s.len() || start < from || start >= s.len() || end <= start || end
        > s.len() {
        Seq::empty()
    } else {
        seq![s.subrange(start, end)] + ascii_tokens_from(s, end)
    }
}

/// The words of `s` that ASCII white space separates, as
/// `str::split_ascii_whitespace` gives them.
pub open spec fn ascii_tokens(s: Seq<char>) -> Seq<Seq<char>> {
    ascii_tokens_from(s, 0)
}

fn skip_ascii_spaces(s: &Vec<char>, from: usize) -> (r: usize)
    requires
        from <= s.len(),
    ensures
        r == first_ascii_non_space(s@, from as int),
        from <= r <= s.len(),
        r < s.len() ==> !is_ascii_space(s@[r as int]),
{
    let mut i: usize = from;
    while i < s.len() && is_ascii_space_char(s[i])
        invariant
            from <= i <= s.len(),
            first_ascii_non_space(s@, from as int) == first_ascii_non_space(s@, i as int),
        decreases s.len() - i,
    {
        i += 1;
    }
    i
}

fn skip_ascii_non_spaces(s: &Vec<char>, from: usize) -> (r: usize)
    requires
        from <= s.len(),
    ensures
        r == first_ascii_space(s@, from as int),
        from <= r <= s.len(),
        from < s.len() && !is_ascii_space(s@[from as int]) ==> from < r,
{
    let mut i: usize = from;
    while i < s.len() && !is_ascii_space_char(s[i])
        invariant
            from <= i <= s.len(),
            first_ascii_space(s@, from as int) == first_ascii_space(s@, i as int),
            from < s.len() && !is_ascii_space(s@[from as int]) && i == from ==> i < s.len(),
        decreases s.len() - i,
    {
        i += 1;
    }
    i
}

/// Splits a text into the words that ASCII white space separates.
pub fn split_ascii_words(s: &Vec<char>) -> (r: Vec<Vec<char>>)
    ensures
        views(r@) == ascii_tokens(s@),
{
    let mut out: Vec<Vec<char>> = Vec::new();
    let mut from: usize = 0;
    loop
        invariant
            from <= s.len(),
            ascii_tokens(s@) == views(out@) + ascii_tokens_from(s@, from as int),
        decreases s.len() - from,
    {
        let start = skip_ascii_spaces(s, from);
        if start >= s.len() {
            assert(views(out@) + Seq::<Seq<char>>::empty() =~= views(out@));
            return out;
        }
        let end = skip_ascii_non_spaces(s, start);
        let ghost before = views(out@);
        out.push(slice_of(s, start, end));
        assert(views(out@) =~= before + seq![s@.subrange(start as int, end as int)]);
        assert(before + (seq![s@.subrange(start as int, end as int)] + ascii_tokens_from(
            s@,
            end as int,
        )) =~= (before + seq![s@.subrange(start as int, end as int)]) + ascii_tokens_from(
            s@,
            end as int,
        ));
        from = end;
    }
}

/// The lower-case form of an ASCII upper-case letter; any other character unchanged.
pub open spec fn lower(c: char) -> char {
    if 'A' <= c && c <= 'Z' {
        ((c as u8) + 32u8) as char
    } else {
        c
    }
}

pub fn lower_char(c: char) -> (r: char)
    ensures
        r == lower(c),
{
    if 'A' <= c && c <= 'Z' {
        ((c as u8) + 32u8) as char
    } else {
        c
    }
}

/// The text with every ASCII upper-case letter in lower case.
pub open spec fn lowered(s: Seq<char>) -> Seq<char> {
    Seq::new(s.len(), |i: int| lower(s[i]))
}

pub fn to_lower(s: &Vec<char>) -> (r: Vec<char>)
    ensures
        r@ == lowered(s@),
{
    let mut r: Vec<char> = Vec::new();
    let mut i: usize = 0;
    while i < s.len()
        invariant
            i <= s.len(),
            r@.len() == i,
            forall|j: int| 0 <= j < i ==> r@[j] == lower(s@[j]),
        decreases s.len() - i,
    {
        r.push(lower_char(s[i]));
        i += 1;
    }
    assert(r@ =~= lowered(s@));
    r
}

/// Whether `c` is one of the digits `0` to `9`.
pub open spec fn is_digit(c: char) -> bool {
    '0' <= c && c <= '9'
}

pub fn is_digit_char(c: char) -> (r: bool)
    ensures
        r == is_digit(c),
{
    '0' <= c && c <= '9'
}

/// The value of a digit.
pub open spec fn digit_value(c: char) -> nat {
    (c as u8 - '0' as u8) as nat
}

/// Whether `s` is made of digits only.
pub open spec fn all_digits(s: Seq<char>) -> bool {
    forall|i: int| 0 <= i < s.len() ==> is_digit(#[trigger] s[i])
}

/// The number that a sequence of digits writes in base ten.
pub open spec fn decimal_value(s: Seq<char>) -> nat
    decreases s.len(),
{
    if s.len() == 0 {
        0
    } else {
        decimal_value(s.drop_last()) * 10 + digit_value(s.last())
    }
}

/// The 64-bit count that a run of digits writes: the run is not empty and
/// its value fits.
pub open spec fn parsed_digits(s: Seq<char>) -> Option<u64> {
    if s.len() > 0 && all_digits(s) && decimal_value(s) <= u64::MAX {
        Some(decimal_value(s) as u64)
    } else {
        None
    }
}

/// What a word stands for as a 64-bit count, as `str::parse::<u64>` reads
/// it: digits whose value fits, with or without one `+` before them.
pub open spec fn parsed_u64(s: Seq<char>) -> Option<u64> {
    if s.len() > 0 && s[0] == '+' {
        parsed_digits(s.subrange(1, s.len() as int))
    } else {
        parsed_digits(s)
    }
}

pub proof fn lemma_decimal_value_grows(s: Seq<char>, n: int)
    requires
        0 <= n <= s.len(),
    ensures
        decimal_value(s.take(n)) <= decimal_value(s),
    decreases s.len() - n,
{
    if n < s.len() {
        lemma_decimal_value_grows(s, n + 1);
        assert(s.take(n + 1).drop_last() =~= s.take(n));
    } else {
        assert(s.take(n) =~= s);
    }
}

/// Reads a 64-bit count written in base ten, with or without one `+`
/// before its digits.
pub fn parse_u64(s: &Vec<char>) -> (r: Option<u64>)
    ensures
        r == parsed_u64(s@),
{
    if s.len() > 0 && s[0] == '+' {
        parse_digits(&slice_of(s, 1, s.len()))
    } else {
        parse_digits(s)
    }
}

/// Reads a 64-bit count written in digits only.
pub fn parse_digits(s: &Vec<char>) -> (r: Option<u64>)
    ensures
        r == parsed_digits(s@),
{
    if s.len() == 0 {
        return None;
    }
    let mut value: u64 = 0;
    let mut i: usize = 0;
    while i < s.len()
        invariant
            i <= s.len(),
            all_digits(s@.take(i as int)),
            value == decimal_value(s@.take(i as int)),
        decreases s.len() - i,
    {
        let c = s[i];
        if !is_digit_char(c) {
            return None;
        }
        let d: u64 = (c as u8 - '0' as u8) as u64;
        proof {
            assert(s@.take(i + 1).drop_last() =~= s@.take(i as int));
            lemma_decimal_value_grows(s@, i + 1);
        }
        if value > (u64::MAX - d) / 10 {
            assert(decimal_value(s@.take(i + 1)) > u64::MAX);
            return None;
        }
        value = value * 10 + d;
        i += 1;
        assert forall|j: int| 0 <= j < i implies is_digit(#[trigger] s@.take(i as int)[j]) by {
            if j < i - 1 {
                assert(s@.take(i as int)[j] == s@.take(i - 1)[j]);
            }
        }
    }
    assert(s@.take(s.len() as int) =~= s@);
    Some(value)
}

/// The pieces joined with `sep` between them.
pub open spec fn joined(parts: Seq<Seq<char>>, sep: char) -> Seq<char>
    decreases parts.len(),
{
    if parts.len() == 0 {
        Seq::empty()
    } else if parts.len() == 1 {
        parts[0]
    } else {
        joined(parts.drop_last(), sep).push(sep) + parts.last()
    }
}

pub fn join(parts: &Vec<Vec<char>>, sep: char) -> (r: Vec<char>)
    ensures
        r@ == joined(views(parts@), sep),
{
    let mut r: Vec<char> = Vec::new();
    let mut i: usize = 0;
    while i < parts.len()
        invariant
            i <= parts.len(),
            r@ == joined(views(parts@).take(i as int), sep),
        decreases parts.len() - i,
    {
        if i > 0 {
            r.push(sep);
        }
        let part = &parts[i];
        let ghost base = r@;
        let mut j: usize = 0;
        while j < part.len()
            invariant
                j <= part.len(),
                r@ == base + part@.take(j as int),
            decreases part.len() - j,
        {
            r.push(part[j]);
            j += 1;
            assert(r@ =~= base + part@.take(j as int));
        }
        proof {
            assert(part@.take(part.len() as int) =~= part@);
            let next = views(parts@).take(i + 1);
            assert(next.drop_last() =~= views(parts@).take(i as int));
            assert(next.last() == part@);
            if i == 0 {
                assert(base + part@ =~= part@);
            }
        }
        i += 1;
    }
    assert(views(parts@).take(parts.len() as int) =~= views(parts@));
    r
}

/// Appends the characters of `tail` to `s`.
pub fn append_chars(s: &mut Vec<char>, tail: &Vec<char>)
    ensures
        final(s)@ == old(s)@ + tail@,
{
    let mut j: usize = 0;
    while j < tail.len()
        invariant
            j <= tail.len(),
            s@ == old(s)@ + tail@.take(j as int),
        decreases tail.len() - j,
    {
        s.push(tail[j]);
        j += 1;
        assert(s@ =~= old(s)@ + tail@.take(j as int));
    }
    assert(tail@.take(tail.len() as int) =~= tail@);
}

/// How two texts compare from index `from` on, character by character:
/// -1 where `a` comes first, 1 where `b` comes first, 0 where they are the same.
/// A text that ends first comes first.
pub open spec fn order_from(a: Seq<char>, b: Seq<char>, from: int) -> int
    decreases a.len() - from,
{
    if from < 0 || from >= a.len() {
        if from >= b.len() {
            0
        } else {
            -1
        }
    } else if from >= b.len() {
        1
    } else if a[from] != b[from] {
        if a[from] < b[from] {
            -1
        } else {
            1
        }
    } else {
        order_from(a, b, from + 1)
    }
}

/// Two texts compare as -1, 0 or 1.
pub proof fn lemma_order_range(a: Seq<char>, b: Seq<char>, from: int)
    ensures
        -1 <= order_from(a, b, from) <= 1,
    decreases a.len() - from,
{
    if 0 <= from < a.len() && from < b.len() && a[from] == b[from] {
        lemma_order_range(a, b, from + 1);
    }
}

/// Comparing two texts the other way round gives the opposite.
pub proof fn lemma_order_reversed(a: Seq<char>, b: Seq<char>, from: int)
    requires
        0 <= from,
    ensures
        order_from(b, a, from) == -order_from(a, b, from),
    decreases a.len() - from,
{
    if from < a.len() && from < b.len() && a[from] == b[from] {
        lemma_order_reversed(a, b, from + 1);
    }
}

/// How two texts compare in dictionary order by character code.
pub open spec fn text_order(a: Seq<char>, b: Seq<char>) -> int {
    order_from(a, b, 0)
}

/// Two texts compare as the same exactly when they are equal.
pub proof fn lemma_order_zero(a: Seq<char>, b: Seq<char>, from: int)
    requires
        0 <= from,
        from <= a.len(),
        from <= b.len(),
        a.take(from) == b.take(from),
    ensures
        order_from(a, b, from) == 0 <==> a == b,
    decreases a.len() - from,
{
    if from < a.len() && from < b.len() {
        if a[from] == b[from] {
            assert(a.take(from + 1) =~= a.take(from).push(a[from]));
            assert(b.take(from + 1) =~= b.take(from).push(b[from]));
            lemma_order_zero(a, b, from + 1);
        }
    } else if from >= a.len() && from >= b.len() {
        assert(a.take(from) =~= a);
        assert(b.take(from) =~= b);
    }
}

/// Compares two texts in dictionary order by character code.
pub fn compare_text(a: &Vec<char>, b: &Vec<char>) -> (r: i8)
    ensures
        r == text_order(a@, b@),
        r == -1 || r == 0 || r == 1,
{
    let mut i: usize = 0;
    while i < a.len() && i < b.len()
        invariant
            i <= a.len(),
            i <= b.len(),
            text_order(a@, b@) == order_from(a@, b@, i as int),
        decreases a.len() - i,
    {
        if a[i] != b[i] {
            if a[i] < b[i] {
                return -1;
            } else {
                return 1;
            }
        }
        i += 1;
    }
    if i < b.len() {
        -1
    } else if i < a.len() {
        1
    } else {
        0
    }
}

/// The text between a prefix and a suffix, as a string.
pub fn quoted(prefix: &str, text: &Vec<char>, suffix: &str) -> (r: String)
    ensures
        r@ == prefix@ + text@ + suffix@,
{
    let inner = string_of(text);
    String::from_str(prefix).concat(inner.as_str()).concat(suffix)
}

/// Whether `needle` stands in `haystack` at index `at`.
pub open spec fn occurs_at(haystack: Seq<char>, needle: Seq<char>, at: int) -> bool {
    0 <= at && at + needle.len() <= haystack.len() && haystack.subrange(
        at,
        at + needle.len(),
    ) == needle
}

/// Whether `needle` stands somewhere in `haystack`.
pub open spec fn contains_text(haystack: Seq<char>, needle: Seq<char>) -> bool {
    exists|at: int| occurs_at(haystack, needle, at)
}

fn found_at(haystack: &Vec<char>, needle: &Vec<char>, at: usize) -> (r: bool)
    requires
        at + needle.len() <= haystack.len(),
    ensures
        r == occurs_at(haystack@, needle@, at as int),
{
    let mut i: usize = 0;
    while i < needle.len()
        invariant
            i <= needle.len(),
            at + needle.len() <= haystack.len(),
            forall|j: int| 0 <= j < i ==> haystack@[at + j] == needle@[j],
        decreases needle.len() - i,
    {
        if haystack[at + i] != needle[i] {
            assert(haystack@.subrange(at as int, at + needle.len())[i as int] == haystack@[at + i]);
            return false;
        }
        i += 1;
    }
    assert(haystack@.subrange(at as int, at + needle.len()) =~= needle@);
    true
}

/// Whether `needle` stands somewhere in `haystack`.
pub fn contains(haystack: &Vec<char>, needle: &Vec<char>) -> (r: bool)
    ensures
        r == contains_text(haystack@, needle@),
{
    if needle.len() > haystack.len() {
        return false;
    }
    let last: usize = haystack.len() - needle.len();
    let mut at: usize = 0;
    loop
        invariant
            at <= last,
            last == haystack.len() - needle.len(),
            needle.len() <= haystack.len(),
            forall|j: int| 0 <= j < at ==> !occurs_at(haystack@, needle@, j),
        decreases last - at,
    {
        if found_at(haystack, needle, at) {
            return true;
        }
        if at == last {
            return false;
        }
        at += 1;
    }
}

} // verus!
