//! Bytes as text, in the alphabet of Base64.

use vstd::prelude::*;

verus! {

/// The character of a six-bit value.
pub open spec fn letter(v: int) -> char {
    if v < 26 {
        ('A' as int + v) as char
    } else if v < 52 {
        ('a' as int + v - 26) as char
    } else if v < 62 {
        ('0' as int + v - 52) as char
    } else if v == 62 {
        '+'
    } else {
        '/'
    }
}

/// Bytes as text: three bytes make four characters, and what the last three
/// lack is filled up with equals signs.
pub open spec fn encoded(s: Seq<u8>) -> Seq<char>
    decreases s.len(),
{
    if s.len() == 0 {
        Seq::empty()
    } else if s.len() == 1 {
        seq![letter((s[0] / 4) as int), letter(s[0] % 4 * 16), '=', '=']
    } else if s.len() == 2 {
        seq![letter((s[0] / 4) as int), letter(s[0] % 4 * 16 + s[1] / 16), letter(s[1] % 16 * 4), '=']
    } else {
        seq![
            letter((s[0] / 4) as int),
            letter(s[0] % 4 * 16 + s[1] / 16),
            letter(s[1] % 16 * 4 + s[2] / 64),
            letter((s[2] % 64) as int),
        ] + encoded(s.skip(3))
    }
}

/// The six-bit value of a character.
pub open spec fn value(c: char) -> int {
    if 'A' <= c <= 'Z' {
        c as int - 'A' as int
    } else if 'a' <= c <= 'z' {
        c as int - 'a' as int + 26
    } else if '0' <= c <= '9' {
        c as int - '0' as int + 52
    } else if c == '+' {
        62
    } else {
        63
    }
}

/// The bytes that a text of this alphabet stands for.
pub open spec fn decoded(t: Seq<char>) -> Seq<u8>
    decreases t.len(),
{
    if t.len() < 4 {
        Seq::empty()
    } else {
        let first = (value(t[0]) * 4 + value(t[1]) / 16) as u8;
        let second = (value(t[1]) % 16 * 16 + value(t[2]) / 4) as u8;
        let third = (value(t[2]) % 4 * 64 + value(t[3])) as u8;
        if t[2] == '=' {
            seq![first]
        } else if t[3] == '=' {
            seq![first, second]
        } else {
            seq![first, second, third] + decoded(t.skip(4))
        }
    }
}

proof fn lemma_letter(v: int)
    requires
        0 <= v < 64,
    ensures
        value(letter(v)) == v,
        letter(v) != '=',
{
}

/// Reading what was written gives back the bytes.
pub proof fn law_decode_undoes_encode(s: Seq<u8>)
    ensures
        decoded(encoded(s)) == s,
    decreases s.len(),
{
    let t = encoded(s);
    if s.len() == 0 {
        assert(decoded(t) =~= s);
    } else {
        lemma_letter((s[0] / 4) as int);
        if s.len() == 1 {
            lemma_letter(s[0] % 4 * 16);
            assert(decoded(t) =~= s);
        } else {
            lemma_letter(s[0] % 4 * 16 + s[1] / 16);
            if s.len() == 2 {
                lemma_letter(s[1] % 16 * 4);
                assert(decoded(t) =~= s);
            } else {
                lemma_letter(s[1] % 16 * 4 + s[2] / 64);
                lemma_letter((s[2] % 64) as int);
                law_decode_undoes_encode(s.skip(3));
                assert(t.skip(4) =~= encoded(s.skip(3)));
                assert(seq![s[0], s[1], s[2]] + s.skip(3) =~= s);
            }
        }
    }
}

fn table(v: u8) -> (r: char)
    requires
        v < 64,
    ensures
        r == letter(v as int),
{
    if v < 26 {
        (65 + v) as char
    } else if v < 52 {
        (97 + (v - 26)) as char
    } else if v < 62 {
        (48 + (v - 52)) as char
    } else if v == 62 {
        '+'
    } else {
        '/'
    }
}

/// Bytes as text.
pub fn b64_encode(bytes: &[u8]) -> (r: String)
    ensures
        r@ == encoded(bytes@),
{
    let total: usize = bytes.len();
    let mut out = String::new();
    let mut i: usize = 0;
    assert(bytes@.skip(0) =~= bytes@);
    assert(out@ + encoded(bytes@) =~= encoded(bytes@));
    while i < total
        invariant
            i <= total,
            total == bytes@.len(),
            out@ + encoded(bytes@.skip(i as int)) == encoded(bytes@),
        decreases total - i,
    {
        let ghost rest = bytes@.skip(i as int);
        let ghost before = out@;
        let left: usize = total - i;
        let b0: u8 = bytes[i];
        let b1: u8 = if left > 1 { bytes[i + 1] } else { 0 };
        let b2: u8 = if left > 2 { bytes[i + 2] } else { 0 };
        out.push(table(b0 / 4));
        out.push(table(b0 % 4 * 16 + b1 / 16));
        if left > 1 {
            out.push(table(b1 % 16 * 4 + b2 / 64));
        } else {
            out.push('=');
        }
        if left > 2 {
            out.push(table(b2 % 64));
        } else {
            out.push('=');
        }
        let step: usize = if left > 2 { 3 } else { left };
        proof {
            assert(rest.len() == left);
            if left > 2 {
                assert(rest.skip(3) =~= bytes@.skip(i + 3));
                assert(out@ + encoded(bytes@.skip(i + 3)) =~= before + encoded(rest));
            } else {
                assert(bytes@.skip(i + step) =~= Seq::empty());
                assert(out@ + encoded(bytes@.skip(i + step)) =~= before + encoded(rest));
            }
        }
        i += step;
    }
    assert(bytes@.skip(i as int) =~= Seq::empty());
    assert(out@ + encoded(bytes@.skip(i as int)) =~= out@);
    out
}

/// A picture as an address that holds the picture itself.
pub fn icon_data_uri(png: &[u8]) -> (r: String)
    ensures
        r@ == "data:image/png;base64,"@ + encoded(png@),
{
    let mut r = "data:image/png;base64,".to_owned();
    let data = b64_encode(png);
    r.append(data.as_str());
    r
}

/// The alphabet has the capital letters, the small ones, the digits, a plus sign
/// and a slash, in this order.
pub proof fn law_alphabet(v: int)
    requires
        0 <= v < 64,
    ensures
        letter(v) == "ABCDEFGHIJKLMNOPQRSTUVWXYZabcdefghijklmnopqrstuvwxyz0123456789+/"@[v],
{
    reveal_strlit("ABCDEFGHIJKLMNOPQRSTUVWXYZabcdefghijklmnopqrstuvwxyz0123456789+/");
}

/// Bytes are written by threes, and each three bytes, as one number, are four
/// letters of six bits, the highest first. Groups are written one after the other;
/// a group that lacks bytes is written as if they were zero, with an equals sign
/// for each that lacks.
pub proof fn law_three_bytes_are_four_letters(a: u8, b: u8, c: u8, rest: Seq<u8>)
    ensures
        ({
            let n = (a * 256 + b) * 256 + c;
            encoded(seq![a, b, c] + rest) == seq![
                letter(n / 262144),
                letter(n / 4096 % 64),
                letter(n / 64 % 64),
                letter(n % 64),
            ] + encoded(rest)
        }),
        encoded(seq![a, b]) == encoded(seq![a, b, 0u8]).update(3, '='),
        encoded(seq![a]) == encoded(seq![a, 0u8, 0u8]).update(2, '=').update(3, '='),
        encoded(Seq::empty()) == Seq::<char>::empty(),
{
    let s = seq![a, b, c] + rest;
    assert(s.skip(3) =~= rest);
    assert(s[0] == a && s[1] == b && s[2] == c);
    lemma_six_bits(a, b, c);
    lemma_short_groups(a, b);
}

proof fn lemma_six_bits(a: u8, b: u8, c: u8)
    ensures
        ({
            let n = (a * 256 + b) * 256 + c;
            &&& n / 262144 == a / 4
            &&& n / 4096 % 64 == a % 4 * 16 + b / 16
            &&& n / 64 % 64 == b % 16 * 4 + c / 64
            &&& n % 64 == c % 64
        }),
{
}

proof fn lemma_short_groups(a: u8, b: u8)
    ensures
        encoded(seq![a, b]) == encoded(seq![a, b, 0u8]).update(3, '='),
        encoded(seq![a]) == encoded(seq![a, 0u8, 0u8]).update(2, '=').update(3, '='),
{
    let two = seq![a, b, 0u8];
    assert(two.skip(3) =~= Seq::empty());
    assert(encoded(two.skip(3)) =~= Seq::empty());
    assert(encoded(seq![a, b]) =~= encoded(two).update(3, '='));
    let one = seq![a, 0u8, 0u8];
    assert(one.skip(3) =~= Seq::empty());
    assert(encoded(one.skip(3)) =~= Seq::empty());
    assert(encoded(seq![a]) =~= encoded(one).update(2, '=').update(3, '='));
}

} // verus!
