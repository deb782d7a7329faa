//! Character-level text primitives shared by the two metadata parsers.
//!
//! Text is modelled as `Seq<char>`, the view of `str` and `String`. The
//! executable helpers work on a line held in a `Vec<char>` buffer.

use vstd::prelude::*;
use vstd::string::*;

verus! {

/// ASCII whitespace: space, tab, line feed, form feed, carriage return.
pub open spec fn is_space(c: char) -> bool {
    c == ' ' || c == '\t' || c == '\n' || c == '\x0c' || c == '\r'
}

/// The lines of `text`: the pieces between line feeds, in order.
///
/// A text without line feed is one line; a trailing line feed is followed by
/// one last, empty line.
pub open spec fn split_lines(text: Seq<char>) -> Seq<Seq<char>>
    decreases text.len(),
{
    if text.len() == 0 {
        seq![Seq::<char>::empty()]
    } else {
        let before = split_lines(text.drop_last());
        if text.last() == '\n' {
            before.push(Seq::<char>::empty())
        } else {
            before.drop_last().push(before.last().push(text.last()))
        }
    }
}

/// A text has at least one line.
pub proof fn lemma_split_lines_nonempty(text: Seq<char>)
    ensures
        split_lines(text).len() >= 1,
    decreases text.len(),
{
    if text.len() > 0 {
        lemma_split_lines_nonempty(text.drop_last());
    }
}

/// `lines` joined by single line feeds: the inverse of [`split_lines`].
pub open spec fn join_lines(lines: Seq<Seq<char>>) -> Seq<char>
    decreases lines.len(),
{
    if lines.len() == 0 {
        Seq::<char>::empty()
    } else if lines.len() == 1 {
        lines[0]
    } else {
        join_lines(lines.drop_last()).push('\n') + lines.last()
    }
}

/// No character of `line` is a line feed.
pub open spec fn is_single_line(line: Seq<char>) -> bool {
    forall|i: int| 0 <= i < line.len() ==> line[i] != '\n'
}

/// `s` without its leading whitespace.
pub open spec fn trim_start(s: Seq<char>) -> Seq<char>
    decreases s.len(),
{
    if s.len() > 0 && is_space(s[0]) {
        trim_start(s.drop_first())
    } else {
        s
    }
}

/// `s` without its trailing whitespace.
pub open spec fn trim_end(s: Seq<char>) -> Seq<char>
    decreases s.len(),
{
    if s.len() > 0 && is_space(s.last()) {
        trim_end(s.drop_last())
    } else {
        s
    }
}

/// `s` without leading and trailing whitespace.
pub open spec fn trim(s: Seq<char>) -> Seq<char> {
    trim_end(trim_start(s))
}

/// Length of the run of non-whitespace characters that `s` starts with.
pub open spec fn token_len(s: Seq<char>) -> nat
    decreases s.len(),
{
    if s.len() == 0 || is_space(s[0]) {
        0
    } else {
        1 + token_len(s.drop_first())
    }
}

/// The whitespace-separated fields of `s`: its maximal runs of
/// non-whitespace characters, in order. None of them is empty.
pub open spec fn fields(s: Seq<char>) -> Seq<Seq<char>>
    decreases s.len(),
    via fields_decreases
{
    if s.len() == 0 {
        Seq::<Seq<char>>::empty()
    } else if is_space(s[0]) {
        fields(s.drop_first())
    } else {
        seq![s.take(token_len(s) as int)] + fields(s.skip(token_len(s) as int))
    }
}

#[via_fn]
proof fn fields_decreases(s: Seq<char>) {
    lemma_token_len_bounds(s);
}

/// A leading token is no longer than the text, and not empty where the text
/// starts with a character that is no whitespace.
pub proof fn lemma_token_len_bounds(s: Seq<char>)
    ensures
        token_len(s) <= s.len(),
        s.len() > 0 && !is_space(s[0]) ==> token_len(s) >= 1,
    decreases s.len(),
{
    if s.len() > 0 && !is_space(s[0]) {
        lemma_token_len_bounds(s.drop_first());
    }
}

/// `c` is one of the decimal digits `0` to `9`.
pub open spec fn is_digit(c: char) -> bool {
    0x30 <= c as u32 <= 0x39
}

/// Every character of `s` is a decimal digit.
pub open spec fn all_digits(s: Seq<char>) -> bool {
    forall|i: int| 0 <= i < s.len() ==> is_digit(#[trigger] s[i])
}

/// The number that the digit string `s` writes in base ten.
pub open spec fn decimal_value(s: Seq<char>) -> nat
    decreases s.len(),
{
    if s.len() == 0 {
        0
    } else {
        decimal_value(s.drop_last()) * 10 + ((s.last() as u32 - 0x30) as nat)
    }
}

/// `s` without one leading plus sign, if it has one.
pub open spec fn unsigned_digits(s: Seq<char>) -> Seq<char> {
    if s.len() > 0 && s[0] == '+' {
        s.drop_first()
    } else {
        s
    }
}

/// `s` read as an unsigned 64-bit integer: an optional plus sign followed by
/// one or more decimal digits and nothing else, with a value that fits.
pub open spec fn parse_u64(s: Seq<char>) -> Option<u64> {
    let digits = unsigned_digits(s);
    if digits.len() > 0 && all_digits(digits) && decimal_value(digits) <= u64::MAX {
        Some(decimal_value(digits) as u64)
    } else {
        None
    }
}

/// Appends one character to `s`.
///
/// Trusted: stands for `String::push`, which adds `c` at the end of the
/// string and leaves what was there unchanged.
#[verifier::external_body]
pub(crate) fn push_char(s: &mut String, c: char)
    ensures
        final(s)@ == old(s)@.push(c),
{
    s.push(c)
}

/// The characters of `text`, in order.
pub fn to_chars(text: &str) -> (out: Vec<char>)
    ensures
        out@ == text@,
{
    let mut out: Vec<char> = Vec::new();
    for c in it: text.chars()
        invariant
            out@ == it.seq().take(it.index() as int),
    {
        out.push(c);
    }
    out
}

/// The string made of `chars[from..to]`.
pub fn to_string(chars: &Vec<char>, from: usize, to: usize) -> (s: String)
    requires
        from <= to <= chars.len(),
    ensures
        s@ == chars@.subrange(from as int, to as int),
{
    let mut s = String::new();
    let mut i: usize = from;
    while i < to
        invariant
            from <= i <= to <= chars.len(),
            s@ == chars@.subrange(from as int, i as int),
        decreases to - i,
    {
        push_char(&mut s, chars[i]);
        i += 1;
    }
    s
}

/// Whether `c` is ASCII whitespace.
pub fn is_space_char(c: char) -> (b: bool)
    ensures
        b == is_space(c),
{
    c == ' ' || c == '\t' || c == '\n' || c == '\x0c' || c == '\r'
}

/// Matches `pattern` against `line` from index `at` on. Returns the number of
/// characters in `pattern` if all of it stands there, and `None` otherwise.
pub fn match_at(line: &Vec<char>, at: usize, pattern: &str) -> (r: Option<usize>)
    requires
        at <= line.len(),
    ensures
        r is Some <==> pattern@.is_prefix_of(line@.skip(at as int)),
        r matches Some(n) ==> n == pattern@.len(),
{
    let mut n: usize = 0;
    for c in it: pattern.chars()
        invariant
            it.seq() == pattern@,
            n == it.index(),
            at + n <= line.len(),
            line@.subrange(at as int, at + n) == pattern@.take(n as int),
    {
        if at + n >= line.len() || line[at + n] != c {
            return None;
        }
        n += 1;
    }
    Some(n)
}

/// Whether `line`, without the whitespace around it, is exactly `token`.
pub fn trimmed_is(line: &Vec<char>, token: &str) -> (b: bool)
    ensures
        b == (trim(line@) == token@),
{
    let n = line.len();
    let mut from: usize = 0;
    assert(line@.skip(0) == line@);
    while from < n && is_space_char(line[from])
        invariant
            from <= n,
            n == line.len(),
            trim_start(line@) == trim_start(line@.skip(from as int)),
        decreases n - from,
    {
        assert(line@.skip(from as int).drop_first() == line@.skip(from + 1));
        from += 1;
    }
    let mut to: usize = n;
    while to > from && is_space_char(line[to - 1])
        invariant
            from <= to <= n,
            n == line.len(),
            trim(line@) == trim_end(line@.subrange(from as int, to as int)),
        decreases to,
    {
        assert(line@.subrange(from as int, to as int).drop_last() == line@.subrange(
            from as int,
            to - 1,
        ));
        to -= 1;
    }
    assert(line@.subrange(from as int, to as int) == line@.skip(from as int).subrange(
        0,
        to - from,
    ));
    match match_at(line, from, token) {
        Some(len) => len == to - from,
        None => false,
    }
}

/// The whitespace-separated fields of `line`, each as a string of its own.
pub fn split_fields(line: &Vec<char>) -> (out: Vec<String>)
    ensures
        out.deep_view() == fields(line@),
{
    let n = line.len();
    let mut out: Vec<String> = Vec::new();
    let mut i: usize = 0;
    assert(line@.skip(0) == line@);
    while i < n
        invariant
            i <= n,
            n == line.len(),
            fields(line@) == out.deep_view() + fields(line@.skip(i as int)),
        decreases n - i,
    {
        if is_space_char(line[i]) {
            assert(line@.skip(i as int).drop_first() == line@.skip(i + 1));
            i += 1;
        } else {
            let start = i;
            while i < n && !is_space_char(line[i])
                invariant
                    start <= i <= n,
                    n == line.len(),
                    token_len(line@.skip(start as int)) == (i - start) + token_len(
                        line@.skip(i as int),
                    ),
                decreases n - i,
            {
                assert(line@.skip(i as int).drop_first() == line@.skip(i + 1));
                i += 1;
            }
            let token = to_string(line, start, i);
            proof {
                let rest = line@.skip(start as int);
                assert(rest.take(i - start) == line@.subrange(start as int, i as int));
                assert(rest.skip(i - start) == line@.skip(i as int));
            }
            out.push(token);
        }
    }
    out
}

/// `acc * 10 + digit`, or `None` where that does not fit in 64 bits.
fn shift_in(acc: u64, digit: u64) -> (r: Option<u64>)
    requires
        digit <= 9,
    ensures
        r == if acc * 10 + digit <= u64::MAX {
            Some((acc * 10 + digit) as u64)
        } else {
            None
        },
{
    match acc.checked_mul(10) {
        Some(shifted) => shifted.checked_add(digit),
        None => None,
    }
}

/// The value of a digit string is at least the value of each of its
/// beginnings.
pub proof fn lemma_decimal_value_grows(s: Seq<char>, n: int)
    requires
        0 <= n <= s.len(),
    ensures
        decimal_value(s.take(n)) <= decimal_value(s),
    decreases s.len() - n,
{
    if n < s.len() {
        lemma_decimal_value_grows(s, n + 1);
        assert(s.take(n + 1).drop_last() == s.take(n));
    } else {
        assert(s.take(n) == s);
    }
}

/// Reads `line[from..]` as an unsigned 64-bit integer.
pub fn parse_number(line: &Vec<char>, from: usize) -> (r: Option<u64>)
    requires
        from <= line.len(),
    ensures
        r == parse_u64(line@.skip(from as int)),
{
    let n = line.len();
    let ghost text = line@.skip(from as int);
    let start: usize = if from < n && line[from] == '+' {
        from + 1
    } else {
        from
    };
    let ghost digits = unsigned_digits(text);
    if start == n {
        return None;
    }
    let mut acc: u64 = 0;
    let mut i: usize = start;
    while i < n
        invariant
            start <= i <= n,
            n == line.len(),
            from <= n,
            digits == unsigned_digits(line@.skip(from as int)),
            digits == line@.skip(start as int),
            all_digits(digits.take(i - start)),
            acc == decimal_value(digits.take(i - start)),
        decreases n - i,
    {
        let c = line[i];
        let code: u32 = c as u32;
        if code < 0x30 || code > 0x39 {
            assert(!is_digit(digits[i - start]));
            return None;
        }
        assert(digits.take(i - start + 1).drop_last() == digits.take(i - start));
        match shift_in(acc, (code - 0x30) as u64) {
            Some(next) => {
                acc = next;
            },
            None => {
                proof {
                    lemma_decimal_value_grows(digits, i - start + 1);
                }
                return None;
            },
        }
        i += 1;
    }
    assert(digits.take(n - start) == digits);
    Some(acc)
}

/// A field as it stands in a line: not empty, and free of whitespace.
pub open spec fn is_token(s: Seq<char>) -> bool {
    &&& s.len() > 0
    &&& forall|i: int| 0 <= i < s.len() ==> !is_space(#[trigger] s[i])
}

/// A text without line feed is a single line.
pub proof fn lemma_split_single_line(line: Seq<char>)
    requires
        is_single_line(line),
    ensures
        split_lines(line) == seq![line],
    decreases line.len(),
{
    if line.len() > 0 {
        let shorter = line.drop_last();
        lemma_split_single_line(shorter);
        assert(shorter.push(line.last()) == line);
    } else {
        assert(line == Seq::<char>::empty());
    }
}

/// A line feed followed by a single line adds that line to the lines of the
/// text before the line feed.
pub proof fn lemma_split_appended_line(text: Seq<char>, line: Seq<char>)
    requires
        is_single_line(line),
    ensures
        split_lines(text.push('\n') + line) == split_lines(text).push(line),
    decreases line.len(),
{
    let whole = text.push('\n') + line;
    if line.len() == 0 {
        assert(whole.drop_last() == text);
        assert(line == Seq::<char>::empty());
    } else {
        let shorter = line.drop_last();
        lemma_split_appended_line(text, shorter);
        assert(whole.drop_last() == text.push('\n') + shorter);
        assert(shorter.push(line.last()) == line);
    }
}

/// Splitting undoes joining: lines that hold no line feed, joined by line
/// feeds, are the lines of the joined text.
pub proof fn lemma_split_joined_lines(lines: Seq<Seq<char>>)
    requires
        lines.len() >= 1,
        forall|i: int| 0 <= i < lines.len() ==> is_single_line(#[trigger] lines[i]),
    ensures
        split_lines(join_lines(lines)) == lines,
    decreases lines.len(),
{
    if lines.len() == 1 {
        lemma_split_single_line(lines[0]);
    } else {
        lemma_split_joined_lines(lines.drop_last());
        lemma_split_appended_line(join_lines(lines.drop_last()), lines.last());
    }
}

/// A token, followed by nothing or by whitespace, is the leading token of
/// the text.
pub proof fn lemma_leading_token(token: Seq<char>, rest: Seq<char>)
    requires
        forall|i: int| 0 <= i < token.len() ==> !is_space(#[trigger] token[i]),
        rest.len() == 0 || is_space(rest[0]),
    ensures
        token_len(token + rest) == token.len(),
    decreases token.len(),
{
    if token.len() > 0 {
        lemma_leading_token(token.drop_first(), rest);
        assert((token + rest).drop_first() == token.drop_first() + rest);
    }
}

/// Whitespace before a text adds no field.
pub proof fn lemma_fields_after_space(c: char, rest: Seq<char>)
    requires
        is_space(c),
    ensures
        fields(seq![c] + rest) == fields(rest),
{
    assert((seq![c] + rest).drop_first() == rest);
}

/// A token, followed by nothing or by whitespace, is the first field of the
/// text; the other fields are those of what follows it.
pub proof fn lemma_fields_after_token(token: Seq<char>, rest: Seq<char>)
    requires
        is_token(token),
        rest.len() == 0 || is_space(rest[0]),
    ensures
        fields(token + rest) == seq![token] + fields(rest),
{
    lemma_leading_token(token, rest);
    let whole = token + rest;
    assert(whole.take(token.len() as int) == token);
    assert(whole.skip(token.len() as int) == rest);
}

} // verus!
