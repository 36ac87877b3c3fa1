//! Text over characters: the few string operations the rest of the library
//! needs, with the mathematical meaning that its contracts use.

use vstd::prelude::*;

verus! {

// ---------------------------------------------------------------------------
// What the standard library says of characters and strings
// ---------------------------------------------------------------------------

/// `String::push` appends the given character to the end of the string.
pub assume_specification[ String::push ](s: &mut String, c: char)
    ensures
        final(s)@ == old(s)@.push(c),
;

/// A character of ASCII.
pub open spec fn ascii(c: char) -> bool {
    (c as u32) < 128
}

/// A letter or digit of ASCII.
pub open spec fn ascii_alphanumeric(c: char) -> bool {
    '0' <= c <= '9' || 'A' <= c <= 'Z' || 'a' <= c <= 'z'
}

/// White space of ASCII: a blank, or a control character from the tabulator to
/// the carriage return.
pub open spec fn ascii_whitespace(c: char) -> bool {
    c == ' ' || '\t' <= c <= '\r'
}

/// A letter of ASCII in lower case; another character stays as it is.
pub open spec fn ascii_lowercase(c: char) -> char {
    if 'A' <= c <= 'Z' {
        ((c as u32) + 32) as char
    } else {
        c
    }
}

/// Whether a character beyond ASCII is alphabetic or numeric in Unicode.
pub uninterp spec fn wide_alphanumeric(c: char) -> bool;

/// Whether a character is alphabetic or numeric in Unicode.
pub open spec fn char_alphanumeric(c: char) -> bool {
    if ascii(c) {
        ascii_alphanumeric(c)
    } else {
        wide_alphanumeric(c)
    }
}

/// `char::is_alphanumeric` depends on the character alone. In ASCII it holds of
/// letters and digits; which other characters Unicode counts as alphanumeric is
/// left to its tables.
pub assume_specification[ char::is_alphanumeric ](c: char) -> (r: bool)
    ensures
        r == if ascii(c) {
            ascii_alphanumeric(c)
        } else {
            wide_alphanumeric(c)
        },
;

/// Whether a character beyond ASCII has the Unicode property `White_Space`.
pub uninterp spec fn wide_whitespace(c: char) -> bool;

/// Whether a character has the Unicode property `White_Space`.
pub open spec fn char_whitespace(c: char) -> bool {
    if ascii(c) {
        ascii_whitespace(c)
    } else {
        wide_whitespace(c)
    }
}

/// `char::is_whitespace` depends on the character alone. In ASCII it holds of
/// the blank and of the controls from the tabulator to the carriage return;
/// which other characters Unicode counts as white space is left to its tables.
pub assume_specification[ char::is_whitespace ](c: char) -> (r: bool)
    ensures
        r == if ascii(c) {
            ascii_whitespace(c)
        } else {
            wide_whitespace(c)
        },
;

/// The lowercase mapping of one character beyond ASCII, which may be several
/// characters.
pub uninterp spec fn wide_lowercase(c: char) -> Seq<char>;

/// The lowercase mapping of one character, which may be several characters.
pub open spec fn char_lowercase(c: char) -> Seq<char> {
    if ascii(c) {
        seq![ascii_lowercase(c)]
    } else {
        wide_lowercase(c)
    }
}

/// `char::to_lowercase` yields the lowercase mapping of the character. In ASCII
/// a capital letter becomes the small one and all else stays as it is; the
/// mapping of other characters is left to Unicode's tables.
#[verifier::external_body]
pub(crate) fn lower_char(c: char) -> (r: Vec<char>)
    ensures
        r@ == if ascii(c) {
            seq![ascii_lowercase(c)]
        } else {
            wide_lowercase(c)
        },
{
    c.to_lowercase().collect()
}

/// A text in ASCII.
pub open spec fn in_ascii(s: Seq<char>) -> bool {
    forall|i: int| 0 <= i < s.len() ==> ascii(#[trigger] s[i])
}

/// A text with the letters of ASCII in lower case.
pub open spec fn ascii_lower_text(s: Seq<char>) -> Seq<char> {
    s.map_values(|c: char| ascii_lowercase(c))
}

/// The lowercase form of a text that is not all ASCII.
pub uninterp spec fn wide_lower_text(s: Seq<char>) -> Seq<char>;

/// The lowercase form of a whole text.
pub open spec fn lowercase(s: Seq<char>) -> Seq<char> {
    if in_ascii(s) {
        ascii_lower_text(s)
    } else {
        wide_lower_text(s)
    }
}

/// `str::to_lowercase` depends on the string alone. Text in ASCII is mapped
/// character by character, capital letters to small ones; that of other text is
/// left to Unicode's tables and its rule for a final sigma.
#[verifier::external_body]
pub(crate) fn to_lower(s: &str) -> (r: String)
    ensures
        r@ == if in_ascii(s@) {
            ascii_lower_text(s@)
        } else {
            wide_lower_text(s@)
        },
{
    s.to_lowercase()
}

// ---------------------------------------------------------------------------
// Strings as sequences of characters
// ---------------------------------------------------------------------------

/// The characters of a string.
pub fn chars_of(s: &str) -> (r: Vec<char>)
    ensures
        r@ == s@,
{
    let mut out: Vec<char> = Vec::new();
    for c in it: s.chars()
        invariant
            out@ == it.seq().take(it.index()),
            it.seq() == s@,
    {
        out.push(c);
    }
    out
}

/// The characters from `from` up to `to` as a string.
pub fn string_of(chars: &Vec<char>, from: usize, to: usize) -> (r: String)
    requires
        from <= to <= chars@.len(),
    ensures
        r@ == chars@.subrange(from as int, to as int),
{
    let mut out = String::new();
    let mut i: usize = from;
    while i < to
        invariant
            from <= i <= to <= chars@.len(),
            out@ == chars@.subrange(from as int, i as int),
        decreases to - i,
    {
        out.push(chars[i]);
        i += 1;
    }
    out
}

/// Two strings hold the same characters.
pub fn same_text(a: &str, b: &str) -> (r: bool)
    ensures
        r == (a@ == b@),
{
    a.to_owned() == b.to_owned()
}

/// The view of an optional string.
pub open spec fn option_text(s: Option<String>) -> Option<Seq<char>> {
    match s {
        Some(t) => Some(t@),
        None => None,
    }
}

/// Two optional strings hold the same characters, or neither is there.
pub fn same_option_text(a: &Option<String>, b: &Option<String>) -> (r: bool)
    ensures
        r == (option_text(*a) == option_text(*b)),
{
    match (a, b) {
        (Some(x), Some(y)) => same_text(x.as_str(), y.as_str()),
        (None, None) => true,
        _ => false,
    }
}

/// A copy of an optional string.
pub fn copy_option_text(s: &Option<String>) -> (r: Option<String>)
    ensures
        r == *s,
{
    match s {
        Some(t) => Some(t.clone()),
        None => None,
    }
}

/// The views of a list of strings.
pub open spec fn texts(s: Seq<String>) -> Seq<Seq<char>> {
    s.map_values(|t: String| t@)
}

// ---------------------------------------------------------------------------
// Searching
// ---------------------------------------------------------------------------

/// `needle` stands in `s` at position `i`.
pub open spec fn matches_at(s: Seq<char>, needle: Seq<char>, i: int) -> bool {
    0 <= i <= s.len() - needle.len() && s.subrange(i, i + needle.len()) == needle
}

/// `needle` occurs somewhere in `s`.
pub open spec fn contains(s: Seq<char>, needle: Seq<char>) -> bool {
    exists|i: int| matches_at(s, needle, i)
}

/// `i` is the leftmost position at which `needle` stands in `s`.
pub open spec fn first_match(s: Seq<char>, needle: Seq<char>, i: int) -> bool {
    matches_at(s, needle, i) && forall|j: int| 0 <= j < i ==> !matches_at(s, needle, j)
}

fn match_here(s: &Vec<char>, needle: &Vec<char>, at: usize) -> (r: bool)
    requires
        at + needle@.len() <= s@.len(),
    ensures
        r == matches_at(s@, needle@, at as int),
{
    let total: usize = s.len();
    let mut k: usize = 0;
    while k < needle.len()
        invariant
            k <= needle@.len(),
            at + needle@.len() <= s@.len(),
            total == s@.len(),
            forall|j: int| 0 <= j < k ==> s@[at + j] == needle@[j],
        decreases needle@.len() - k,
    {
        if s[at + k] != needle[k] {
            assert(s@.subrange(at as int, at + needle@.len())[k as int] != needle@[k as int]);
            return false;
        }
        k += 1;
    }
    assert(s@.subrange(at as int, at + needle@.len()) =~= needle@);
    true
}

/// The leftmost position of `needle` in `s`, if it occurs.
pub fn find_chars(s: &Vec<char>, needle: &Vec<char>) -> (r: Option<usize>)
    ensures
        match r {
            Some(i) => first_match(s@, needle@, i as int),
            None => !contains(s@, needle@),
        },
{
    if needle.len() > s.len() {
        return None;
    }
    let last: usize = s.len() - needle.len();
    let mut i: usize = 0;
    loop
        invariant
            i <= last,
            last == s@.len() - needle@.len(),
            forall|j: int| 0 <= j < i ==> !matches_at(s@, needle@, j),
        decreases last - i,
    {
        if match_here(s, needle, i) {
            return Some(i);
        }
        if i == last {
            return None;
        }
        i += 1;
    }
}

/// Does `needle` occur in `s`?
pub fn text_contains(s: &str, needle: &str) -> (r: bool)
    ensures
        r == contains(s@, needle@),
{
    let found = find_chars(&chars_of(s), &chars_of(needle));
    found.is_some()
}

// ---------------------------------------------------------------------------
// Trimming
// ---------------------------------------------------------------------------

/// `s` without the white space at its start.
pub open spec fn trim_start(s: Seq<char>) -> Seq<char>
    decreases s.len(),
{
    if s.len() > 0 && char_whitespace(s.first()) {
        trim_start(s.drop_first())
    } else {
        s
    }
}

/// `s` without the white space at its end.
pub open spec fn trim_end(s: Seq<char>) -> Seq<char>
    decreases s.len(),
{
    if s.len() > 0 && char_whitespace(s.last()) {
        trim_end(s.drop_last())
    } else {
        s
    }
}

/// `s` without the white space at both ends.
pub open spec fn trim(s: Seq<char>) -> Seq<char> {
    trim_end(trim_start(s))
}

/// `s` without the run of `c` at its end.
pub open spec fn strip_end(s: Seq<char>, c: char) -> Seq<char>
    decreases s.len(),
{
    if s.len() > 0 && s.last() == c {
        strip_end(s.drop_last(), c)
    } else {
        s
    }
}

/// Every character of `s` is white space.
pub open spec fn blank(s: Seq<char>) -> bool {
    forall|i: int| 0 <= i < s.len() ==> char_whitespace(#[trigger] s[i])
}

/// A text is blank exactly where nothing is left of it after trimming.
pub proof fn lemma_blank_trim(s: Seq<char>)
    ensures
        blank(s) <==> trim(s).len() == 0,
    decreases s.len(),
{
    if s.len() > 0 {
        if char_whitespace(s.first()) {
            lemma_blank_trim(s.drop_first());
            assert(forall|i: int| 0 <= i < s.drop_first().len() ==> s.drop_first()[i] == s[i + 1]);
            if blank(s.drop_first()) {
                assert forall|i: int| 0 <= i < s.len() implies char_whitespace(#[trigger] s[i]) by {
                    if i > 0 {
                        assert(s.drop_first()[i - 1] == s[i]);
                    }
                }
            }
        } else {
            assert(trim_start(s) == s);
            lemma_trim_end_keeps_first(s);
        }
    }
}

proof fn lemma_trim_end_keeps_first(s: Seq<char>)
    requires
        s.len() > 0,
        !char_whitespace(s.first()),
    ensures
        trim_end(s).len() > 0,
    decreases s.len(),
{
    if char_whitespace(s.last()) {
        assert(s.len() > 1);
        assert(s.drop_last().first() == s.first());
        lemma_trim_end_keeps_first(s.drop_last());
    }
}

/// `chars` with the white space at both ends left out.
pub fn trim_chars(chars: &Vec<char>) -> (r: Vec<char>)
    ensures
        r@ == trim(chars@),
{
    let mut from: usize = 0;
    assert(chars@.skip(0) =~= chars@);
    while from < chars.len() && chars[from].is_whitespace()
        invariant
            from <= chars@.len(),
            trim_start(chars@.skip(from as int)) == trim_start(chars@),
        decreases chars@.len() - from,
    {
        assert(chars@.skip(from as int).drop_first() =~= chars@.skip(from + 1));
        from += 1;
    }
    let ghost kept = chars@.skip(from as int);
    assert(trim_start(chars@) == kept);
    let mut to: usize = chars.len();
    assert(chars@.subrange(from as int, to as int) =~= kept);
    while to > from && chars[to - 1].is_whitespace()
        invariant
            from <= to <= chars@.len(),
            trim_end(chars@.subrange(from as int, to as int)) == trim_end(kept),
        decreases to - from,
    {
        assert(chars@.subrange(from as int, to as int).drop_last() =~= chars@.subrange(
            from as int,
            to - 1,
        ));
        to -= 1;
    }
    let mut out: Vec<char> = Vec::new();
    let mut i: usize = from;
    while i < to
        invariant
            from <= i <= to <= chars@.len(),
            out@ == chars@.subrange(from as int, i as int),
        decreases to - i,
    {
        out.push(chars[i]);
        i += 1;
    }
    out
}

/// `chars` with the run of `c` at the end left out.
pub fn strip_end_chars(chars: Vec<char>, c: char) -> (r: Vec<char>)
    ensures
        r@ == strip_end(chars@, c),
{
    let mut out = chars;
    while out.len() > 0 && out[out.len() - 1] == c
        invariant
            strip_end(out@, c) == strip_end(chars@, c),
        decreases out@.len(),
    {
        out.pop();
    }
    out
}

/// The trimmed text.
pub fn trimmed(s: &str) -> (r: String)
    ensures
        r@ == trim(s@),
{
    let kept = trim_chars(&chars_of(s));
    let r = string_of(&kept, 0, kept.len());
    assert(kept@.subrange(0, kept@.len() as int) =~= kept@);
    r
}

/// Is nothing left of `s` after trimming?
pub fn is_blank(s: &str) -> (r: bool)
    ensures
        r == blank(s@),
{
    proof {
        lemma_blank_trim(s@);
    }
    trim_chars(&chars_of(s)).len() == 0
}

// ---------------------------------------------------------------------------
// Lines
// ---------------------------------------------------------------------------

/// The position of the first line feed of `s`, or its length.
pub open spec fn line_feed(s: Seq<char>) -> int
    decreases s.len(),
{
    if s.len() == 0 || s.first() == '\n' {
        0
    } else {
        1 + line_feed(s.drop_first())
    }
}

/// A line without the carriage return that stood before its line feed.
pub open spec fn strip_return(line: Seq<char>) -> Seq<char> {
    if line.len() > 0 && line.last() == '\r' {
        line.drop_last()
    } else {
        line
    }
}

/// The lines of a text: each ends at a line feed, which may have a carriage
/// return before it; the last needs no end.
pub open spec fn lines(s: Seq<char>) -> Seq<Seq<char>>
    decreases s.len(),
{
    if s.len() == 0 {
        Seq::empty()
    } else if 0 <= line_feed(s) < s.len() {
        seq![strip_return(s.take(line_feed(s)))] + lines(s.skip(line_feed(s) + 1))
    } else {
        seq![s]
    }
}

pub proof fn lemma_line_feed(s: Seq<char>, k: int)
    requires
        0 <= k <= s.len(),
        k < s.len() ==> s[k] == '\n',
        forall|i: int| 0 <= i < k ==> s[i] != '\n',
    ensures
        line_feed(s) == k,
    decreases s.len(),
{
    if s.len() > 0 && k > 0 {
        lemma_line_feed(s.drop_first(), k - 1);
    }
}

/// The lines of a text.
pub fn lines_of(s: &str) -> (r: Vec<String>)
    ensures
        texts(r@) == lines(s@),
{
    let c = chars_of(s);
    let mut out: Vec<String> = Vec::new();
    let mut at: usize = 0;
    assert(c@.skip(0) =~= c@);
    assert(texts(out@) + lines(c@) =~= lines(c@));
    while at < c.len()
        invariant
            at <= c@.len(),
            texts(out@) + lines(c@.skip(at as int)) == lines(c@),
        decreases c@.len() - at,
    {
        let mut k: usize = at;
        while k < c.len() && c[k] != '\n'
            invariant
                at <= k <= c@.len(),
                forall|i: int| at <= i < k ==> c@[i] != '\n',
            decreases c@.len() - k,
        {
            k += 1;
        }
        let ghost rest = c@.skip(at as int);
        proof {
            lemma_line_feed(rest, k - at);
        }
        let ghost before = out@;
        if k == c.len() {
            let line = string_of(&c, at, k);
            assert(line@ =~= rest);
            out.push(line);
            assert(texts(out@) =~= texts(before).push(rest));
            assert(c@.skip(k as int) =~= Seq::empty());
            assert(texts(out@) + lines(c@.skip(k as int)) =~= texts(before) + lines(rest));
            at = k;
        } else {
            let end: usize = if k > at && c[k - 1] == '\r' { k - 1 } else { k };
            let line = string_of(&c, at, end);
            assert(line@ =~= strip_return(rest.take(k - at)));
            out.push(line);
            assert(rest.skip(k - at + 1) =~= c@.skip(k + 1));
            assert(texts(out@) =~= texts(before).push(line@));
            assert(texts(out@) + lines(c@.skip(k + 1)) =~= texts(before) + lines(rest));
            at = k + 1;
        }
    }
    assert(c@.skip(at as int) =~= Seq::empty());
    assert(texts(out@) + lines(c@.skip(at as int)) =~= texts(out@));
    out
}

// ---------------------------------------------------------------------------
// Replacing
// ---------------------------------------------------------------------------

/// `s` with every occurrence of `pat` replaced by `with`, from the left and
/// without overlap.
pub open spec fn replaced(s: Seq<char>, pat: Seq<char>, with: Seq<char>) -> Seq<char>
    decreases s.len(),
{
    if s.len() == 0 || pat.len() == 0 {
        s
    } else if pat.is_prefix_of(s) {
        with + replaced(s.skip(pat.len() as int), pat, with)
    } else {
        seq![s.first()] + replaced(s.drop_first(), pat, with)
    }
}

/// `s` with every occurrence of `pat` replaced by `with`.
pub fn replace_text(s: &str, pat: &str, with: &str) -> (r: String)
    requires
        pat@.len() > 0,
    ensures
        r@ == replaced(s@, pat@, with@),
{
    let c = chars_of(s);
    let p = chars_of(pat);
    let mut out = String::new();
    let mut at: usize = 0;
    assert(c@.skip(0) =~= c@);
    assert(out@ + replaced(c@, p@, with@) =~= replaced(c@, p@, with@));
    while at < c.len()
        invariant
            at <= c@.len(),
            p@.len() > 0,
            out@ + replaced(c@.skip(at as int), p@, with@) == replaced(c@, p@, with@),
        decreases c@.len() - at,
    {
        let ghost rest = c@.skip(at as int);
        let ghost before = out@;
        let hit = p.len() <= c.len() - at && match_here(&c, &p, at);
        assert(hit == p@.is_prefix_of(rest)) by {
            if p@.len() <= rest.len() {
                assert(rest.take(p@.len() as int) =~= c@.subrange(at as int, at + p@.len()));
                if p@.is_prefix_of(rest) {
                    assert(p@ =~= rest.take(p@.len() as int));
                }
            }
        }
        if hit {
            out.append(with);
            assert(rest.skip(p@.len() as int) =~= c@.skip(at + p@.len()));
            at += p.len();
            assert(out@ + replaced(c@.skip(at as int), p@, with@) =~= before + replaced(
                rest,
                p@,
                with@,
            ));
        } else {
            out.push(c[at]);
            assert(rest.drop_first() =~= c@.skip(at + 1));
            at += 1;
            assert(out@ + replaced(c@.skip(at as int), p@, with@) =~= before + replaced(
                rest,
                p@,
                with@,
            ));
        }
    }
    assert(c@.skip(at as int) =~= Seq::empty());
    assert(out@ + replaced(c@.skip(at as int), p@, with@) =~= out@);
    out
}

// ---------------------------------------------------------------------------
// Joining
// ---------------------------------------------------------------------------

/// The parts one after the other, with `sep` between them.
pub open spec fn joined(parts: Seq<Seq<char>>, sep: Seq<char>) -> Seq<char>
    decreases parts.len(),
{
    if parts.len() == 0 {
        Seq::empty()
    } else if parts.len() == 1 {
        parts[0]
    } else {
        joined(parts.drop_last(), sep) + sep + parts.last()
    }
}

/// The parts from `from` on, one after the other, with `sep` between them.
pub fn join_texts(parts: &Vec<String>, from: usize, sep: &str) -> (r: String)
    requires
        from <= parts@.len(),
    ensures
        r@ == joined(texts(parts@).skip(from as int), sep@),
{
    let mut out = String::new();
    let ghost all = texts(parts@).skip(from as int);
    let mut i: usize = from;
    assert(all.take(0) =~= Seq::empty());
    while i < parts.len()
        invariant
            from <= i <= parts@.len(),
            all == texts(parts@).skip(from as int),
            out@ == joined(all.take(i - from), sep@),
        decreases parts@.len() - i,
    {
        let ghost upto = all.take(i + 1 - from);
        assert(upto.drop_last() =~= all.take(i - from));
        assert(upto.last() == parts@[i as int]@);
        let ghost before = out@;
        if i > from {
            out.append(sep);
        }
        out.append(parts[i].as_str());
        i += 1;
        assert(out@ =~= joined(upto, sep@));
    }
    assert(all.take(i - from) =~= all);
    out
}

// ---------------------------------------------------------------------------
// Numbers
// ---------------------------------------------------------------------------

/// The character of a digit below sixteen.
pub open spec fn digit_char(d: int) -> char {
    seq!['0', '1', '2', '3', '4', '5', '6', '7', '8', '9', 'a', 'b', 'c', 'd', 'e', 'f'][d]
}

/// The character of a digit below sixteen.
pub fn digit(d: u8) -> (r: char)
    requires
        d < 16,
    ensures
        r == digit_char(d as int),
{
    match d {
        0 => '0',
        1 => '1',
        2 => '2',
        3 => '3',
        4 => '4',
        5 => '5',
        6 => '6',
        7 => '7',
        8 => '8',
        9 => '9',
        10 => 'a',
        11 => 'b',
        12 => 'c',
        13 => 'd',
        14 => 'e',
        _ => 'f',
    }
}

/// The decimal digits of a number, without leading zeros.
pub open spec fn decimal(n: nat) -> Seq<char>
    decreases n,
{
    if n < 10 {
        seq![digit_char(n as int)]
    } else {
        decimal(n / 10).push(digit_char((n % 10) as int))
    }
}

/// The decimal digits of a number, with leading zeros up to `width` digits.
pub open spec fn padded(n: nat, width: nat) -> Seq<char> {
    let d = decimal(n);
    Seq::new(
        if d.len() < width {
            (width - d.len()) as nat
        } else {
            0
        },
        |i: int| '0',
    ) + d
}

/// The decimal digits of a signed number, after a minus sign where it is
/// below zero.
pub open spec fn signed_decimal(n: int) -> Seq<char> {
    if n < 0 {
        seq!['-'] + decimal((-n) as nat)
    } else {
        decimal(n as nat)
    }
}

proof fn lemma_decimal_len(n: nat)
    ensures
        n < 10 ==> decimal(n).len() == 1,
        10 <= n < 100 ==> decimal(n).len() == 2,
        100 <= n ==> decimal(n).len() >= 3,
    decreases n,
{
    reveal_with_fuel(decimal, 3);
    if n >= 10 {
        lemma_decimal_len(n / 10);
    }
}

/// Appends the decimal digits of `n`.
pub fn push_decimal(out: &mut String, n: u128)
    ensures
        final(out)@ == old(out)@ + decimal(n as nat),
    decreases n,
{
    if n < 10 {
        out.push(digit(n as u8));
        assert(out@ =~= old(out)@ + decimal(n as nat));
    } else {
        push_decimal(out, n / 10);
        out.push(digit((n % 10) as u8));
        assert(out@ =~= old(out)@ + decimal(n as nat));
    }
}

/// Appends `n` with at least two digits.
pub fn push_two_digits(out: &mut String, n: u64)
    ensures
        final(out)@ == old(out)@ + padded(n as nat, 2),
{
    proof {
        lemma_decimal_len(n as nat);
    }
    if n < 10 {
        out.push('0');
    }
    push_decimal(out, n as u128);
    assert(out@ =~= old(out)@ + padded(n as nat, 2));
}

/// Appends `n` with at least three digits.
pub fn push_three_digits(out: &mut String, n: u64)
    ensures
        final(out)@ == old(out)@ + padded(n as nat, 3),
{
    proof {
        lemma_decimal_len(n as nat);
    }
    if n < 100 {
        out.push('0');
    }
    if n < 10 {
        out.push('0');
    }
    push_decimal(out, n as u128);
    assert(out@ =~= old(out)@ + padded(n as nat, 3));
}

/// Appends a signed number.
pub fn push_signed(out: &mut String, n: i64)
    ensures
        final(out)@ == old(out)@ + signed_decimal(n as int),
{
    if n < 0 {
        out.push('-');
        let magnitude: u64 = (-(n + 1)) as u64 + 1;
        push_decimal(out, magnitude as u128);
    } else {
        push_decimal(out, n as u128);
    }
    assert(out@ =~= old(out)@ + signed_decimal(n as int));
}

/// The lowest `width` hexadecimal digits of a number, the highest first.
pub open spec fn hex(n: nat, width: nat) -> Seq<char>
    decreases width,
{
    if width == 0 {
        Seq::empty()
    } else {
        hex(n / 16, (width - 1) as nat).push(digit_char((n % 16) as int))
    }
}

fn push_hex(out: &mut String, n: u64, width: u8)
    ensures
        final(out)@ == old(out)@ + hex(n as nat, width as nat),
    decreases width,
{
    if width > 0 {
        push_hex(out, n / 16, width - 1);
        out.push(digit((n % 16) as u8));
    }
    assert(out@ =~= old(out)@ + hex(n as nat, width as nat));
}

/// The hexadecimal digits of a number, without leading zeros.
pub open spec fn hex_digits(n: nat) -> Seq<char>
    decreases n,
{
    if n < 16 {
        seq![digit_char(n as int)]
    } else {
        hex_digits(n / 16).push(digit_char((n % 16) as int))
    }
}

/// Appends the hexadecimal digits of `n`.
pub fn push_hex_digits(out: &mut String, n: u64)
    ensures
        final(out)@ == old(out)@ + hex_digits(n as nat),
    decreases n,
{
    if n < 16 {
        out.push(digit(n as u8));
        assert(out@ =~= old(out)@ + hex_digits(n as nat));
    } else {
        push_hex_digits(out, n / 16);
        out.push(digit((n % 16) as u8));
        assert(out@ =~= old(out)@ + hex_digits(n as nat));
    }
}

/// The sixteen hexadecimal digits of a number.
pub fn hex16(n: u64) -> (r: String)
    ensures
        r@ == hex(n as nat, 16),
{
    let mut out = String::new();
    push_hex(&mut out, n, 16);
    assert(Seq::<char>::empty() + hex(n as nat, 16) =~= hex(n as nat, 16));
    out
}

// ---------------------------------------------------------------------------
// Lengths in bytes
// ---------------------------------------------------------------------------

/// The number of bytes that UTF-8 spends on a character.
pub open spec fn utf8_width(c: char) -> nat {
    let v = c as u32;
    if v < 0x80 {
        1
    } else if v < 0x800 {
        2
    } else if v < 0x10000 {
        3
    } else {
        4
    }
}

/// The length of a text in UTF-8 bytes.
pub open spec fn byte_len(s: Seq<char>) -> nat
    decreases s.len(),
{
    if s.len() == 0 {
        0
    } else {
        byte_len(s.drop_last()) + utf8_width(s.last())
    }
}

/// The first `count` characters of `s` take exactly `bytes` bytes.
pub open spec fn cuts_at(s: Seq<char>, bytes: nat, count: int) -> bool {
    0 <= count <= s.len() && byte_len(s.take(count)) == bytes
}

/// The number of bytes that UTF-8 spends on a character.
pub fn char_width(c: char) -> (r: usize)
    ensures
        r == utf8_width(c),
        1 <= r <= 4,
{
    let v: u32 = c as u32;
    if v < 0x80 {
        1
    } else if v < 0x800 {
        2
    } else if v < 0x10000 {
        3
    } else {
        4
    }
}

pub proof fn lemma_byte_len_step(s: Seq<char>, i: int)
    requires
        0 <= i < s.len(),
    ensures
        byte_len(s.take(i + 1)) == byte_len(s.take(i)) + utf8_width(s[i]),
{
    assert(s.take(i + 1).drop_last() =~= s.take(i));
    assert(s.take(i + 1).last() == s[i]);
}

/// Longer beginnings of a text take more bytes.
pub proof fn lemma_byte_len_grows(s: Seq<char>, i: int, j: int)
    requires
        0 <= i <= j <= s.len(),
    ensures
        byte_len(s.take(i)) + (j - i) <= byte_len(s.take(j)) <= byte_len(s.take(i)) + 4 * (j - i),
    decreases j - i,
{
    if i < j {
        lemma_byte_len_grows(s, i, j - 1);
        lemma_byte_len_step(s, j - 1);
    }
}

/// At most one beginning of a text takes a given number of bytes.
pub proof fn lemma_cut_unique(s: Seq<char>, bytes: nat, i: int, j: int)
    requires
        cuts_at(s, bytes, i),
        cuts_at(s, bytes, j),
    ensures
        i == j,
{
    if i < j {
        lemma_byte_len_grows(s, i, j);
    } else if j < i {
        lemma_byte_len_grows(s, j, i);
    }
}

/// How many characters of `s` take exactly `bytes` bytes, if any beginning of
/// `s` does.
pub open spec fn cut(s: Seq<char>, bytes: nat) -> Option<int> {
    if exists|count: int| cuts_at(s, bytes, count) {
        Some(choose|count: int| cuts_at(s, bytes, count))
    } else {
        None
    }
}

/// The leftmost position of `needle` in `s`, where it occurs there.
pub open spec fn position(s: Seq<char>, needle: Seq<char>) -> int {
    choose|i: int| first_match(s, needle, i)
}

/// The bytes that the first `upto` characters take.
pub fn byte_count(chars: &Vec<char>, upto: usize) -> (r: u128)
    requires
        upto <= chars@.len(),
    ensures
        r == byte_len(chars@.take(upto as int)),
{
    let mut i: usize = 0;
    let mut bytes: u128 = 0;
    assert(chars@.take(0) =~= Seq::empty());
    while i < upto
        invariant
            i <= upto <= chars@.len(),
            bytes == byte_len(chars@.take(i as int)),
            bytes <= 4 * i,
        decreases upto - i,
    {
        proof {
            lemma_byte_len_step(chars@, i as int);
        }
        bytes += char_width(chars[i]) as u128;
        i += 1;
    }
    bytes
}

/// How many characters take exactly `bytes` bytes.
pub fn cut_point(chars: &Vec<char>, bytes: u128) -> (r: Option<usize>)
    ensures
        match r {
            Some(count) => cut(chars@, bytes as nat) == Some(count as int) && count <= chars@.len(),
            None => cut(chars@, bytes as nat) is None,
        },
{
    let total: usize = chars.len();
    let mut i: usize = 0;
    let mut taken: u128 = 0;
    assert(chars@.take(0) =~= Seq::empty());
    while i < total && taken < bytes
        invariant
            i <= total,
            total == chars@.len(),
            taken == byte_len(chars@.take(i as int)),
            taken <= 4 * i,
            forall|k: int| 0 <= k < i ==> byte_len(#[trigger] chars@.take(k)) < bytes,
        decreases total - i,
    {
        proof {
            lemma_byte_len_step(chars@, i as int);
        }
        taken += char_width(chars[i]) as u128;
        i += 1;
    }
    if taken == bytes {
        proof {
            assert(cuts_at(chars@, bytes as nat, i as int));
            lemma_cut_unique(chars@, bytes as nat, i as int, cut(chars@, bytes as nat)->0);
        }
        return Some(i);
    }
    proof {
        if exists|count: int| cuts_at(chars@, bytes as nat, count) {
            let count = choose|count: int| cuts_at(chars@, bytes as nat, count);
            if count < i {
                assert(byte_len(chars@.take(count)) < bytes);
            } else {
                lemma_byte_len_grows(chars@, i as int, count);
            }
        }
    }
    None
}

/// The first `bytes` bytes of a text that has more of them, and the whole text
/// otherwise; nothing where the cut would fall inside a character.
pub fn first_bytes(s: &str, bytes: u128) -> (r: Option<String>)
    ensures
        match r {
            Some(t) => if byte_len(s@) > bytes {
                cut(s@, bytes as nat) is Some && t@ == s@.take(cut(s@, bytes as nat)->0)
            } else {
                t@ == s@
            },
            None => byte_len(s@) > bytes && cut(s@, bytes as nat) is None,
        },
{
    let chars = chars_of(s);
    assert(chars@.take(chars@.len() as int) =~= chars@);
    if byte_count(&chars, chars.len()) <= bytes {
        return Some(s.to_owned());
    }
    match cut_point(&chars, bytes) {
        Some(count) => {
            let t = string_of(&chars, 0, count);
            assert(t@ =~= s@.take(count as int));
            Some(t)
        },
        None => None,
    }
}

// ---------------------------------------------------------------------------
// What holds of every text
// ---------------------------------------------------------------------------

/// A text contains a needle exactly where it is the needle with something before
/// and something after it, either of which may be empty.
pub proof fn law_contains_means_within(s: Seq<char>, needle: Seq<char>)
    ensures
        contains(s, needle) <==> exists|a: Seq<char>, b: Seq<char>|
            s == #[trigger] (a + needle + b),
{
    if contains(s, needle) {
        let i = choose|i: int| matches_at(s, needle, i);
        assert(s =~= s.take(i) + needle + s.skip(i + needle.len())) by {
            assert forall|k: int| i <= k < i + needle.len() implies s[k] == needle[k - i] by {
                assert(s.subrange(i, i + needle.len())[k - i] == needle[k - i]);
            }
        }
    }
    if exists|a: Seq<char>, b: Seq<char>| s == #[trigger] (a + needle + b) {
        let (a, b) = choose|a: Seq<char>, b: Seq<char>| s == #[trigger] (a + needle + b);
        assert(s.subrange(a.len() as int, a.len() as int + needle.len()) =~= needle);
        assert(matches_at(s, needle, a.len() as int));
    }
}

proof fn lemma_trim_start_of(a: Seq<char>, m: Seq<char>)
    requires
        blank(a),
        m.len() > 0 ==> !char_whitespace(m.first()),
    ensures
        trim_start(a + m) == m,
    decreases a.len(),
{
    if a.len() > 0 {
        assert(char_whitespace(a[0]));
        assert((a + m).drop_first() =~= a.drop_first() + m);
        assert forall|i: int| 0 <= i < a.drop_first().len() implies char_whitespace(
            #[trigger] a.drop_first()[i],
        ) by {
            assert(a.drop_first()[i] == a[i + 1]);
        }
        lemma_trim_start_of(a.drop_first(), m);
    } else {
        assert(a + m =~= m);
    }
}

proof fn lemma_trim_end_of(m: Seq<char>, b: Seq<char>)
    requires
        blank(b),
        m.len() > 0 ==> !char_whitespace(m.last()),
    ensures
        trim_end(m + b) == m,
    decreases b.len(),
{
    if b.len() > 0 {
        assert(char_whitespace(b[b.len() - 1]));
        assert((m + b).drop_last() =~= m + b.drop_last());
        assert forall|i: int| 0 <= i < b.drop_last().len() implies char_whitespace(
            #[trigger] b.drop_last()[i],
        ) by {
            assert(b.drop_last()[i] == b[i]);
        }
        lemma_trim_end_of(m, b.drop_last());
    } else {
        assert(m + b =~= m);
    }
}

/// To trim takes away white space at both ends and nothing else: of a text that
/// has none at its ends, with white space before and after it, the text is left.
pub proof fn law_trim_takes_white_space_only(a: Seq<char>, m: Seq<char>, b: Seq<char>)
    requires
        forall|i: int| 0 <= i < a.len() ==> char_whitespace(#[trigger] a[i]),
        forall|i: int| 0 <= i < b.len() ==> char_whitespace(#[trigger] b[i]),
        m.len() > 0 ==> !char_whitespace(m.first()) && !char_whitespace(m.last()),
    ensures
        trim(a + m + b) == m,
{
    if m.len() > 0 {
        assert(a + m + b =~= a + (m + b));
        assert((m + b).first() == m.first());
        lemma_trim_start_of(a, m + b);
        lemma_trim_end_of(m, b);
    } else {
        let s = a + m + b;
        assert forall|i: int| 0 <= i < s.len() implies char_whitespace(#[trigger] s[i]) by {
            if i < a.len() {
                assert(s[i] == a[i]);
            } else {
                assert(s[i] == b[i - a.len()]);
            }
        }
        lemma_blank_trim(s);
        assert(trim(s) =~= m);
    }
}

proof fn lemma_trim_start_parts(s: Seq<char>)
    ensures
        exists|i: int|
            0 <= i <= s.len() && blank(#[trigger] s.take(i)) && trim_start(s) == s.skip(i),
        trim_start(s).len() > 0 ==> !char_whitespace(trim_start(s).first()),
    decreases s.len(),
{
    if s.len() > 0 && char_whitespace(s.first()) {
        let r = s.drop_first();
        lemma_trim_start_parts(r);
        let i = choose|i: int|
            0 <= i <= r.len() && blank(#[trigger] r.take(i)) && trim_start(r) == r.skip(i);
        assert forall|k: int| 0 <= k < s.take(i + 1).len() implies char_whitespace(
            #[trigger] s.take(i + 1)[k],
        ) by {
            if k > 0 {
                assert(s.take(i + 1)[k] == r.take(i)[k - 1]);
            }
        }
        assert(s.skip(i + 1) =~= r.skip(i));
        assert(blank(s.take(i + 1)));
    } else {
        assert(blank(s.take(0)));
        assert(s.skip(0) =~= s);
    }
}

proof fn lemma_trim_end_parts(s: Seq<char>)
    ensures
        exists|j: int|
            0 <= j <= s.len() && blank(#[trigger] s.skip(j)) && trim_end(s) == s.take(j),
        trim_end(s).len() > 0 ==> !char_whitespace(trim_end(s).last()),
    decreases s.len(),
{
    if s.len() > 0 && char_whitespace(s.last()) {
        let r = s.drop_last();
        lemma_trim_end_parts(r);
        let j = choose|j: int|
            0 <= j <= r.len() && blank(#[trigger] r.skip(j)) && trim_end(r) == r.take(j);
        assert forall|k: int| 0 <= k < s.skip(j).len() implies char_whitespace(
            #[trigger] s.skip(j)[k],
        ) by {
            if k < r.skip(j).len() {
                assert(s.skip(j)[k] == r.skip(j)[k]);
            }
        }
        assert(s.take(j) =~= r.take(j));
        assert(blank(s.skip(j)));
    } else {
        assert(blank(s.skip(s.len() as int)));
        assert(s.take(s.len() as int) =~= s);
    }
}

/// What is left after trimming has no white space at its ends, and what was
/// taken away before and after it is white space.
pub proof fn law_trim_leaves_the_middle(s: Seq<char>)
    ensures
        trim(s).len() > 0 ==> !char_whitespace(trim(s).first()) && !char_whitespace(
            trim(s).last(),
        ),
        exists|a: Seq<char>, b: Seq<char>|
            blank(a) && blank(b) && s == #[trigger] (a + trim(s) + b),
{
    lemma_trim_start_parts(s);
    let m = trim_start(s);
    lemma_trim_end_parts(m);
    let i = choose|i: int| 0 <= i <= s.len() && blank(#[trigger] s.take(i)) && m == s.skip(i);
    let j = choose|j: int|
        0 <= j <= m.len() && blank(#[trigger] m.skip(j)) && trim_end(m) == m.take(j);
    assert(s =~= s.take(i) + m.take(j) + m.skip(j));
    if trim(s).len() > 0 {
        assert(trim(s).first() == m.first());
    }
}

/// Joined parts are the first part and then each further one behind a separator.
pub proof fn law_joined_parts_follow_each_other(parts: Seq<Seq<char>>, sep: Seq<char>)
    ensures
        parts.len() == 0 ==> joined(parts, sep) == Seq::<char>::empty(),
        parts.len() > 0 ==> joined(parts, sep) == parts[0] + parts.drop_first().map_values(
            |p: Seq<char>| sep + p,
        ).flatten(),
    decreases parts.len(),
{
    let f = |p: Seq<char>| sep + p;
    if parts.len() == 1 {
        assert(parts.drop_first().map_values(f) =~= Seq::empty());
        assert(parts[0] + Seq::empty() =~= parts[0]);
    } else if parts.len() > 1 {
        let front = parts.drop_last();
        law_joined_parts_follow_each_other(front, sep);
        let lists = front.drop_first().map_values(f);
        assert(parts.drop_first().map_values(f) =~= lists.push(f(parts.last())));
        lists.lemma_flatten_push(f(parts.last()));
        assert(joined(front, sep) + sep + parts.last() =~= parts[0] + (lists.flatten() + f(
            parts.last(),
        )));
    }
}

/// The number that decimal digits stand for.
pub open spec fn number(s: Seq<char>) -> int
    decreases s.len(),
{
    if s.len() == 0 {
        0
    } else {
        10 * number(s.drop_last()) + (s.last() as int - '0' as int)
    }
}

/// Decimal digits stand for the number that they were made of, and do not begin
/// with a zero unless the number is zero.
pub proof fn law_digits_stand_for_the_number(n: nat)
    ensures
        number(decimal(n)) == n,
        forall|i: int|
            0 <= i < decimal(n).len() ==> '0' <= #[trigger] decimal(n)[i] <= '9',
        decimal(n).len() > 0,
        n > 0 ==> decimal(n)[0] != '0',
    decreases n,
{
    reveal_with_fuel(number, 2);
    if n < 10 {
        assert(decimal(n).drop_last() =~= Seq::empty());
    } else {
        law_digits_stand_for_the_number(n / 10);
        assert(decimal(n).drop_last() =~= decimal(n / 10));
        assert forall|i: int| 0 <= i < decimal(n).len() implies '0' <= #[trigger] decimal(n)[i]
            <= '9' by {
            if i < decimal(n / 10).len() {
                assert(decimal(n)[i] == decimal(n / 10)[i]);
            }
        }
        assert(decimal(n)[0] == decimal(n / 10)[0]);
    }
}

proof fn lemma_leading_zeros(k: nat, s: Seq<char>)
    ensures
        number(Seq::new(k, |i: int| '0') + s) == number(s),
    decreases k + s.len(),
{
    let z = Seq::new(k, |i: int| '0');
    if s.len() > 0 {
        assert((z + s).drop_last() =~= z + s.drop_last());
        lemma_leading_zeros(k, s.drop_last());
    } else if k > 0 {
        let y = Seq::new((k - 1) as nat, |i: int| '0');
        lemma_leading_zeros((k - 1) as nat, s);
        assert((z + s).drop_last() =~= y + s);
    } else {
        assert(z + s =~= s);
    }
}

/// Leading zeros leave the number as it is; there are as many digits as asked
/// for, and more only where the number needs them.
pub proof fn law_padding_keeps_the_number(n: nat, width: nat)
    ensures
        number(padded(n, width)) == n,
        padded(n, width).len() >= width,
        padded(n, width).len() > width ==> padded(n, width) == decimal(n),
        forall|i: int|
            0 <= i < padded(n, width).len() ==> '0' <= #[trigger] padded(n, width)[i] <= '9',
{
    law_digits_stand_for_the_number(n);
    let d = decimal(n);
    let k: nat = if d.len() < width { (width - d.len()) as nat } else { 0 };
    lemma_leading_zeros(k, d);
    assert(padded(n, width) =~= Seq::new(k, |i: int| '0') + d);
    assert forall|i: int| 0 <= i < padded(n, width).len() implies '0' <= #[trigger] padded(
        n,
        width,
    )[i] <= '9' by {
        if i >= k {
            assert(padded(n, width)[i] == d[i - k]);
        }
    }
}

/// In a text in ASCII every character takes one byte, so that it can be cut
/// anywhere.
pub proof fn law_ascii_takes_one_byte_each(s: Seq<char>)
    requires
        in_ascii(s),
    ensures
        byte_len(s) == s.len(),
        forall|n: nat| n <= s.len() ==> #[trigger] cut(s, n) == Some(n as int),
    decreases s.len(),
{
    lemma_ascii_bytes(s);
    assert forall|n: nat| n <= s.len() implies #[trigger] cut(s, n) == Some(n as int) by {
        assert forall|i: int| 0 <= i < s.take(n as int).len() implies ascii(
            #[trigger] s.take(n as int)[i],
        ) by {
            assert(s.take(n as int)[i] == s[i]);
        }
        lemma_ascii_bytes(s.take(n as int));
        assert(cuts_at(s, n, n as int));
        lemma_cut_unique(s, n, n as int, cut(s, n)->0);
    }
}

proof fn lemma_ascii_bytes(s: Seq<char>)
    requires
        in_ascii(s),
    ensures
        byte_len(s) == s.len(),
    decreases s.len(),
{
    if s.len() > 0 {
        let t = s.drop_last();
        assert forall|i: int| 0 <= i < t.len() implies ascii(#[trigger] t[i]) by {
            assert(t[i] == s[i]);
        }
        assert(ascii(s[s.len() - 1]));
        lemma_ascii_bytes(t);
    }
}

/// Where a pattern stands for the first time, it is replaced, what stands before it
/// is kept, and what follows is dealt with in the same way; a text without the
/// pattern is kept as it is.
pub proof fn law_replacing_goes_from_the_left(
    a: Seq<char>,
    pat: Seq<char>,
    b: Seq<char>,
    with: Seq<char>,
)
    requires
        pat.len() > 0,
        forall|j: int|
            0 <= j < a.len() ==> #[trigger] (a + pat + b).skip(j).take(pat.len() as int) != pat,
    ensures
        replaced(a + pat + b, pat, with) == a + with + replaced(b, pat, with),
    decreases a.len(),
{
    let s = a + pat + b;
    if a.len() == 0 {
        assert(s =~= pat + b);
        assert(pat =~= s.subrange(0, pat.len() as int));
        assert(s.skip(pat.len() as int) =~= b);
        assert(a + with + replaced(b, pat, with) =~= with + replaced(b, pat, with));
    } else {
        let c = a.drop_first();
        assert(s.skip(0).take(pat.len() as int) =~= s.subrange(0, pat.len() as int));
        assert(s.skip(0).take(pat.len() as int) != pat);
        assert(!pat.is_prefix_of(s));
        assert(s.drop_first() =~= c + pat + b);
        assert forall|j: int| 0 <= j < c.len() implies #[trigger] (c + pat + b).skip(j).take(
            pat.len() as int,
        ) != pat by {
            assert((c + pat + b).skip(j) =~= s.skip(j + 1));
            assert(s.skip(j + 1).take(pat.len() as int) != pat);
        }
        law_replacing_goes_from_the_left(c, pat, b, with);
        assert(seq![a.first()] + (c + with + replaced(b, pat, with)) =~= a + with + replaced(
            b,
            pat,
            with,
        ));
    }
}

/// A text without the pattern is kept as it is.
pub proof fn law_nothing_else_is_replaced(s: Seq<char>, pat: Seq<char>, with: Seq<char>)
    requires
        !contains(s, pat),
    ensures
        replaced(s, pat, with) == s,
    decreases s.len(),
{
    if s.len() > 0 && pat.len() > 0 {
        if pat.is_prefix_of(s) {
            assert(matches_at(s, pat, 0));
        }
        let r = s.drop_first();
        if contains(r, pat) {
            let i = choose|i: int| matches_at(r, pat, i);
            assert(s.subrange(i + 1, i + 1 + pat.len()) =~= r.subrange(i, i + pat.len()));
            assert(matches_at(s, pat, i + 1));
        }
        law_nothing_else_is_replaced(r, pat, with);
        assert(seq![s.first()] + r =~= s);
    }
}

/// A text is read line by line: what stands before the first line feed is the first
/// line, without a carriage return at its end, and what stands behind it are the
/// other lines; what no line feed follows is a line if there is any of it.
pub proof fn law_text_is_read_line_by_line(a: Seq<char>, b: Seq<char>)
    requires
        forall|i: int| 0 <= i < a.len() ==> a[i] != '\n',
    ensures
        lines(a + seq!['\n'] + b) == seq![
            if a.len() > 0 && a.last() == '\r' {
                a.drop_last()
            } else {
                a
            },
        ] + lines(b),
        a.len() > 0 ==> lines(a) == seq![a],
        lines(Seq::empty()) == Seq::<Seq<char>>::empty(),
{
    let s = a + seq!['\n'] + b;
    lemma_line_feed(s, a.len() as int);
    lemma_line_feed(a, a.len() as int);
    assert(s.take(a.len() as int) =~= a);
    assert(s.skip(a.len() as int + 1) =~= b);
}

/// Of one more hexadecimal digit the last is what is left over by sixteen, and the
/// others are those of the whole sixteens; no digits are asked for, none are given.
pub proof fn law_hex_digits_by_sixteens(n: nat, width: nat)
    ensures
        hex(n, 0) == Seq::<char>::empty(),
        hex(n, width + 1) == hex(n / 16, width).push("0123456789abcdef"@[(n % 16) as int]),
        n < 16 ==> hex_digits(n) == seq!["0123456789abcdef"@[n as int]],
        n >= 16 ==> hex_digits(n) == hex_digits(n / 16).push("0123456789abcdef"@[(n % 16) as int]),
{
    reveal_strlit("0123456789abcdef");
    assert(forall|d: int| 0 <= d < 16 ==> digit_char(d) == #[trigger] "0123456789abcdef"@[d]);
}

/// A number below zero has a minus sign before its digits, and no other number has
/// one.
pub proof fn law_sign_stands_before_the_digits(n: int)
    ensures
        n >= 0 ==> signed_decimal(n) == decimal(n as nat),
        n < 0 ==> signed_decimal(n) == seq!['-'] + decimal((-n) as nat),
{
}

} // verus!
