//! The canonical JSON encoding of the muscle-groups column.
//!
//! The on-disk row stores the list of muscle-group labels as one text column
//! holding a JSON array of strings, e.g. `["Chest","Triceps"]`. The format is
//! part of the persisted schema and must stay stable, so the codec is the
//! library's own, written against an exact specification: quote and backslash
//! are escaped with a backslash, the five named control characters get their
//! short escapes, every other control character becomes a `\u00XX` escape with
//! lowercase hex digits, and everything else is written as itself, with no
//! white space between tokens.
//!
//! The decoder accepts exactly the encoder's output; a stored value that is
//! not such an encoding is reported as corrupt. Two laws pin the codec down:
//! [`lemma_json_round_trip`] (decoding an encoding gives back the original
//! list, in order) and [`lemma_json_decode_sound`] (whatever decodes at all is
//! the canonical encoding of its decoding), which together make it a bijection
//! between lists of strings and their stored spellings.

use vstd::prelude::*;
use vstd::string::StrSliceExecFns;

use crate::models::seq_views;

verus! {

/// The lowercase hex digit of a nibble value.
pub open spec fn hex_digit(v: int) -> char {
    if v == 0 {
        '0'
    } else if v == 1 {
        '1'
    } else if v == 2 {
        '2'
    } else if v == 3 {
        '3'
    } else if v == 4 {
        '4'
    } else if v == 5 {
        '5'
    } else if v == 6 {
        '6'
    } else if v == 7 {
        '7'
    } else if v == 8 {
        '8'
    } else if v == 9 {
        '9'
    } else if v == 10 {
        'a'
    } else if v == 11 {
        'b'
    } else if v == 12 {
        'c'
    } else if v == 13 {
        'd'
    } else if v == 14 {
        'e'
    } else {
        'f'
    }
}

/// The value of a lowercase hex digit, or -1 for any other character.
pub open spec fn unhex(c: char) -> int {
    if c == '0' {
        0
    } else if c == '1' {
        1
    } else if c == '2' {
        2
    } else if c == '3' {
        3
    } else if c == '4' {
        4
    } else if c == '5' {
        5
    } else if c == '6' {
        6
    } else if c == '7' {
        7
    } else if c == '8' {
        8
    } else if c == '9' {
        9
    } else if c == 'a' {
        10
    } else if c == 'b' {
        11
    } else if c == 'c' {
        12
    } else if c == 'd' {
        13
    } else if c == 'e' {
        14
    } else if c == 'f' {
        15
    } else {
        -1
    }
}

pub open spec fn is_hex_lower(c: char) -> bool {
    unhex(c) >= 0
}

proof fn lemma_unhex_hex_digit(v: int)
    requires
        0 <= v < 16,
    ensures
        is_hex_lower(hex_digit(v)),
        unhex(hex_digit(v)) == v,
{
}

/// How one character is written inside a JSON string literal.
pub open spec fn escape_char(c: char) -> Seq<char> {
    if c == '"' {
        seq!['\\', '"']
    } else if c == '\\' {
        seq!['\\', '\\']
    } else if c == '\u{8}' {
        seq!['\\', 'b']
    } else if c == '\t' {
        seq!['\\', 't']
    } else if c == '\n' {
        seq!['\\', 'n']
    } else if c == '\u{c}' {
        seq!['\\', 'f']
    } else if c == '\r' {
        seq!['\\', 'r']
    } else if (c as int) < 0x20 {
        seq!['\\', 'u', '0', '0', hex_digit((c as int) / 16), hex_digit((c as int) % 16)]
    } else {
        seq![c]
    }
}

/// The written form of a whole string's content (without the quotes).
pub open spec fn escape_string(s: Seq<char>) -> Seq<char>
    decreases s.len(),
{
    if s.len() == 0 {
        Seq::empty()
    } else {
        escape_char(s[0]) + escape_string(s.skip(1))
    }
}

/// A quoted JSON string literal.
pub open spec fn enc_string(s: Seq<char>) -> Seq<char> {
    seq!['"'] + escape_string(s) + seq!['"']
}

/// The encoding of the remaining items of a non-empty array, each preceded by
/// a comma, followed by the closing bracket.
pub open spec fn enc_more(gs: Seq<Seq<char>>) -> Seq<char>
    decreases gs.len(),
{
    if gs.len() == 0 {
        seq![']']
    } else {
        seq![','] + enc_string(gs[0]) + enc_more(gs.skip(1))
    }
}

/// The canonical JSON array of strings.
pub open spec fn json_encode_strings(gs: Seq<Seq<char>>) -> Seq<char> {
    if gs.len() == 0 {
        seq!['[', ']']
    } else {
        seq!['['] + enc_string(gs[0]) + enc_more(gs.skip(1))
    }
}

/// The character named by a short escape code.
pub open spec fn unescape_short(e: char) -> char {
    if e == '"' {
        '"'
    } else if e == '\\' {
        '\\'
    } else if e == 'b' {
        '\u{8}'
    } else if e == 't' {
        '\t'
    } else if e == 'n' {
        '\n'
    } else if e == 'f' {
        '\u{c}'
    } else {
        '\r'
    }
}

pub open spec fn is_short_escape(e: char) -> bool {
    e == '"' || e == '\\' || e == 'b' || e == 't' || e == 'n' || e == 'f' || e == 'r'
}

/// The control values the encoder writes with a `\u00XX` escape: everything
/// below 0x20 that has no short escape of its own.
pub open spec fn needs_u_escape(v: int) -> bool {
    0 <= v < 0x20 && v != 8 && v != 9 && v != 10 && v != 12 && v != 13
}

/// Parse the body of a JSON string literal, everything after the opening
/// quote: the decoded content, and the remainder after the closing quote.
pub open spec fn dec_str_body(s: Seq<char>) -> Option<(Seq<char>, Seq<char>)>
    decreases s.len(),
{
    if s.len() == 0 {
        None
    } else if s[0] == '"' {
        Some((Seq::empty(), s.skip(1)))
    } else if s[0] == '\\' {
        if s.len() >= 2 && is_short_escape(s[1]) {
            match dec_str_body(s.skip(2)) {
                Some(parsed) => Some((seq![unescape_short(s[1])] + parsed.0, parsed.1)),
                None => None,
            }
        } else if s.len() >= 6 && s[1] == 'u' && s[2] == '0' && s[3] == '0' && is_hex_lower(s[4])
            && is_hex_lower(s[5]) && needs_u_escape(unhex(s[4]) * 16 + unhex(s[5])) {
            match dec_str_body(s.skip(6)) {
                Some(parsed) => Some(
                    (seq![((unhex(s[4]) * 16 + unhex(s[5])) as char)] + parsed.0, parsed.1),
                ),
                None => None,
            }
        } else {
            None
        }
    } else if (s[0] as int) >= 0x20 {
        match dec_str_body(s.skip(1)) {
            Some(parsed) => Some((seq![s[0]] + parsed.0, parsed.1)),
            None => None,
        }
    } else {
        None
    }
}

/// Whatever a string-literal body parses to, the remainder is strictly
/// shorter than the input: at least the closing quote is consumed.
pub proof fn lemma_dec_str_body_shrinks(s: Seq<char>)
    ensures
        dec_str_body(s) matches Some(parsed) ==> parsed.1.len() < s.len(),
    decreases s.len(),
{
    if s.len() == 0 {
    } else if s[0] == '"' {
    } else if s[0] == '\\' {
        if s.len() >= 2 && is_short_escape(s[1]) {
            lemma_dec_str_body_shrinks(s.skip(2));
        } else if s.len() >= 6 && s[1] == 'u' && s[2] == '0' && s[3] == '0' && is_hex_lower(s[4])
            && is_hex_lower(s[5]) && needs_u_escape(unhex(s[4]) * 16 + unhex(s[5])) {
            lemma_dec_str_body_shrinks(s.skip(6));
        }
    } else if (s[0] as int) >= 0x20 {
        lemma_dec_str_body_shrinks(s.skip(1));
    }
}

/// Parse what may follow a complete array item: either the closing bracket,
/// ending the input, or a comma and another string literal.
pub open spec fn dec_more(s: Seq<char>) -> Option<Seq<Seq<char>>>
    decreases s.len(),
    via dec_more_decreases
{
    if s.len() == 1 && s[0] == ']' {
        Some(Seq::empty())
    } else if s.len() >= 2 && s[0] == ',' && s[1] == '"' {
        match dec_str_body(s.skip(2)) {
            Some(parsed) => match dec_more(parsed.1) {
                Some(more) => Some(seq![parsed.0] + more),
                None => None,
            },
            None => None,
        }
    } else {
        None
    }
}

#[via_fn]
proof fn dec_more_decreases(s: Seq<char>) {
    if s.len() >= 2 && s[0] == ',' && s[1] == '"' {
        lemma_dec_str_body_shrinks(s.skip(2));
    }
}

/// Parse the inside of the array, everything after the opening bracket.
pub open spec fn dec_items(s: Seq<char>) -> Option<Seq<Seq<char>>> {
    if s.len() == 1 && s[0] == ']' {
        Some(Seq::empty())
    } else if s.len() >= 1 && s[0] == '"' {
        match dec_str_body(s.skip(1)) {
            Some(parsed) => match dec_more(parsed.1) {
                Some(more) => Some(seq![parsed.0] + more),
                None => None,
            },
            None => None,
        }
    } else {
        None
    }
}

/// Parse a canonical JSON array of strings; anything else is `None`.
pub open spec fn json_decode_strings(s: Seq<char>) -> Option<Seq<Seq<char>>> {
    if s.len() >= 1 && s[0] == '[' {
        dec_items(s.skip(1))
    } else {
        None
    }
}

/// The escape of one character, followed by anything, parses back to that
/// character: the head step of the string round trip.
proof fn lemma_dec_escape_char(c: char, rest: Seq<char>)
    requires
        dec_str_body(rest) is Some,
    ensures
        dec_str_body(escape_char(c) + rest) matches Some(parsed) && {
            &&& parsed.0 == seq![c] + dec_str_body(rest)->Some_0.0
            &&& parsed.1 == dec_str_body(rest)->Some_0.1
        },
{
    let s = escape_char(c) + rest;
    let inner = dec_str_body(rest)->Some_0;
    if c == '"' || c == '\\' || c == '\u{8}' || c == '\t' || c == '\n' || c == '\u{c}' || c
        == '\r' {
        assert(s[0] == '\\' && is_short_escape(s[1]) && unescape_short(s[1]) == c);
        assert(s.skip(2) =~= rest);
        assert(dec_str_body(s) == Some((seq![c] + inner.0, inner.1)));
    } else if (c as int) < 0x20 {
        let v = c as int;
        assert(needs_u_escape(v));
        lemma_unhex_hex_digit(v / 16);
        lemma_unhex_hex_digit(v % 16);
        assert(s[0] == '\\' && s[1] == 'u' && s[2] == '0' && s[3] == '0');
        assert(s[4] == hex_digit(v / 16) && s[5] == hex_digit(v % 16));
        assert(!is_short_escape('u'));
        assert(unhex(s[4]) * 16 + unhex(s[5]) == v);
        assert((v as char) == c);
        assert(s.skip(6) =~= rest);
        assert(dec_str_body(s) == Some((seq![c] + inner.0, inner.1)));
    } else {
        assert(s[0] == c && c != '"' && c != '\\' && (c as int) >= 0x20);
        assert(s.skip(1) =~= rest);
        assert(dec_str_body(s) == Some((seq![c] + inner.0, inner.1)));
    }
}

/// An escaped string content followed by its closing quote and any tail
/// parses back to the original content, leaving exactly the tail.
proof fn lemma_dec_enc_str_body(x: Seq<char>, tail: Seq<char>)
    ensures
        dec_str_body(escape_string(x) + seq!['"'] + tail) == Some((x, tail)),
    decreases x.len(),
{
    if x.len() == 0 {
        let s = escape_string(x) + seq!['"'] + tail;
        assert(s =~= seq!['"'] + tail);
        assert(s[0] == '"');
        assert(s.skip(1) =~= tail);
        assert(x =~= Seq::<char>::empty());
    } else {
        lemma_dec_enc_str_body(x.skip(1), tail);
        let rest = escape_string(x.skip(1)) + seq!['"'] + tail;
        lemma_dec_escape_char(x[0], rest);
        assert(escape_string(x) + seq!['"'] + tail =~= escape_char(x[0]) + rest);
        assert(seq![x[0]] + x.skip(1) =~= x);
    }
}

/// The comma-separated continuation of an encoding parses back to the
/// remaining items.
proof fn lemma_dec_enc_more(gs: Seq<Seq<char>>)
    ensures
        dec_more(enc_more(gs)) == Some(gs),
    decreases gs.len(),
{
    if gs.len() == 0 {
        assert(enc_more(gs) =~= seq![']']);
        assert(gs =~= Seq::<Seq<char>>::empty());
    } else {
        lemma_dec_enc_more(gs.skip(1));
        let s = enc_more(gs);
        let tail = enc_more(gs.skip(1));
        assert(s =~= seq![','] + enc_string(gs[0]) + tail);
        assert(s.len() >= 2 && s[0] == ',' && s[1] == '"');
        assert(s.skip(2) =~= escape_string(gs[0]) + seq!['"'] + tail);
        lemma_dec_enc_str_body(gs[0], tail);
        assert(seq![gs[0]] + gs.skip(1) =~= gs);
    }
}

/// Law: decoding an encoded list of strings gives back exactly that list,
/// items and order preserved.
pub proof fn lemma_json_round_trip(gs: Seq<Seq<char>>)
    ensures
        json_decode_strings(json_encode_strings(gs)) == Some(gs),
{
    let s = json_encode_strings(gs);
    if gs.len() == 0 {
        assert(s[0] == '[');
        assert(s.skip(1) =~= seq![']']);
        assert(gs =~= Seq::<Seq<char>>::empty());
    } else {
        let tail = enc_more(gs.skip(1));
        assert(s =~= seq!['['] + (seq!['"'] + escape_string(gs[0]) + seq!['"'] + tail));
        assert(s[0] == '[');
        let inner = s.skip(1);
        assert(inner =~= seq!['"'] + escape_string(gs[0]) + seq!['"'] + tail);
        assert(inner[0] == '"');
        assert(tail.len() >= 1);
        assert(inner.len() != 1);
        assert(inner.skip(1) =~= escape_string(gs[0]) + seq!['"'] + tail);
        lemma_dec_enc_str_body(gs[0], tail);
        lemma_dec_enc_more(gs.skip(1));
        assert(seq![gs[0]] + gs.skip(1) =~= gs);
    }
}

/// Written hex digits are the only lowercase spelling of their value.
proof fn lemma_hex_digit_unhex(c: char)
    requires
        is_hex_lower(c),
    ensures
        hex_digit(unhex(c)) == c,
{
}

/// A parsed string-literal body is exactly the escaped form of its content,
/// followed by the closing quote and the remainder: the decoder accepts no
/// other spelling of a string.
proof fn lemma_dec_str_body_sound(s: Seq<char>)
    ensures
        dec_str_body(s) matches Some(parsed) ==> s == escape_string(parsed.0) + seq!['"']
            + parsed.1,
    decreases s.len(),
{
    if s.len() == 0 {
    } else if s[0] == '"' {
        assert(escape_string(Seq::<char>::empty()) + seq!['"'] + s.skip(1) =~= s);
    } else if s[0] == '\\' {
        if s.len() >= 2 && is_short_escape(s[1]) {
            lemma_dec_str_body_sound(s.skip(2));
            if let Some(parsed) = dec_str_body(s.skip(2)) {
                let u = unescape_short(s[1]);
                let content = seq![u] + parsed.0;
                assert(escape_char(u) =~= seq!['\\', s[1]]);
                assert(content[0] == u);
                assert(content.skip(1) =~= parsed.0);
                assert(escape_string(content) == escape_char(u) + escape_string(parsed.0));
                assert(s =~= seq!['\\', s[1]] + s.skip(2));
                assert(escape_char(u) + (escape_string(parsed.0) + seq!['"'] + parsed.1)
                    =~= escape_string(content) + seq!['"'] + parsed.1);
            }
        } else if s.len() >= 6 && s[1] == 'u' && s[2] == '0' && s[3] == '0' && is_hex_lower(s[4])
            && is_hex_lower(s[5]) && needs_u_escape(unhex(s[4]) * 16 + unhex(s[5])) {
            lemma_dec_str_body_sound(s.skip(6));
            if let Some(parsed) = dec_str_body(s.skip(6)) {
                let u1 = unhex(s[4]);
                let u2 = unhex(s[5]);
                let v = u1 * 16 + u2;
                let c0 = (v as char);
                assert(c0 as int == v);
                assert(v / 16 == u1 && v % 16 == u2) by (nonlinear_arith)
                    requires
                        0 <= u1 < 16,
                        0 <= u2 < 16,
                        v == u1 * 16 + u2,
                {}
                lemma_hex_digit_unhex(s[4]);
                lemma_hex_digit_unhex(s[5]);
                assert(escape_char(c0) =~= seq!['\\', 'u', '0', '0', s[4], s[5]]);
                let content = seq![c0] + parsed.0;
                assert(content[0] == c0);
                assert(content.skip(1) =~= parsed.0);
                assert(escape_string(content) == escape_char(c0) + escape_string(parsed.0));
                assert(s =~= seq!['\\', 'u', '0', '0', s[4], s[5]] + s.skip(6));
                assert(escape_char(c0) + (escape_string(parsed.0) + seq!['"'] + parsed.1)
                    =~= escape_string(content) + seq!['"'] + parsed.1);
            }
        }
    } else if (s[0] as int) >= 0x20 {
        lemma_dec_str_body_sound(s.skip(1));
        if let Some(parsed) = dec_str_body(s.skip(1)) {
            let content = seq![s[0]] + parsed.0;
            assert(escape_char(s[0]) =~= seq![s[0]]);
            assert(content[0] == s[0]);
            assert(content.skip(1) =~= parsed.0);
            assert(escape_string(content) == escape_char(s[0]) + escape_string(parsed.0));
            assert(s =~= seq![s[0]] + s.skip(1));
            assert(escape_char(s[0]) + (escape_string(parsed.0) + seq!['"'] + parsed.1)
                =~= escape_string(content) + seq!['"'] + parsed.1);
        }
    }
}

/// A parsed continuation is exactly the encoding of the remaining items.
proof fn lemma_dec_more_sound(s: Seq<char>)
    ensures
        dec_more(s) matches Some(gs) ==> s == enc_more(gs),
    decreases s.len(),
{
    if s.len() == 1 && s[0] == ']' {
        if let Some(gs) = dec_more(s) {
            assert(enc_more(gs) =~= s);
        }
    } else if s.len() >= 2 && s[0] == ',' && s[1] == '"' {
        lemma_dec_str_body_sound(s.skip(2));
        lemma_dec_str_body_shrinks(s.skip(2));
        if let Some(parsed) = dec_str_body(s.skip(2)) {
            lemma_dec_more_sound(parsed.1);
            if let Some(more) = dec_more(parsed.1) {
                let gs = seq![parsed.0] + more;
                assert(gs[0] == parsed.0);
                assert(gs.skip(1) =~= more);
                assert(s =~= seq![',', '"'] + s.skip(2));
                assert(seq![','] + enc_string(parsed.0) + enc_more(more) =~= seq![',', '"'] + (
                escape_string(parsed.0) + seq!['"'] + parsed.1));
            }
        }
    }
}

/// Law (soundness): the decoder accepts nothing but the canonical encoding —
/// a text that decodes at all is exactly the encoder's output for the list it
/// decodes to. With the round-trip law this makes the codec a bijection
/// between lists of strings and their stored spellings.
pub proof fn lemma_json_decode_sound(s: Seq<char>)
    ensures
        json_decode_strings(s) matches Some(gs) ==> s == json_encode_strings(gs),
{
    if s.len() >= 1 && s[0] == '[' {
        let inner = s.skip(1);
        if inner.len() == 1 && inner[0] == ']' {
            if let Some(gs) = dec_items(inner) {
                assert(json_encode_strings(gs) =~= s);
            }
        } else if inner.len() >= 1 && inner[0] == '"' {
            lemma_dec_str_body_sound(inner.skip(1));
            if let Some(parsed) = dec_str_body(inner.skip(1)) {
                lemma_dec_more_sound(parsed.1);
                if let Some(more) = dec_more(parsed.1) {
                    let gs = seq![parsed.0] + more;
                    assert(gs[0] == parsed.0);
                    assert(gs.skip(1) =~= more);
                    assert(s =~= seq!['[', '"'] + inner.skip(1));
                    assert(seq!['['] + enc_string(parsed.0) + enc_more(more) =~= seq!['[', '"'] + (
                    escape_string(parsed.0) + seq!['"'] + parsed.1));
                }
            }
        }
    }
}

/// Relies on `String::push`: appends exactly the given character.
#[verifier::external_body]
pub(crate) fn push_char(out: &mut String, c: char)
    ensures
        final(out)@ == old(out)@ + seq![c],
{
    out.push(c);
}

/// The lowercase hex digit of a nibble value.
fn hex_char(v: u8) -> (r: char)
    requires
        v < 16,
    ensures
        r == hex_digit(v as int),
{
    if v == 0 {
        '0'
    } else if v == 1 {
        '1'
    } else if v == 2 {
        '2'
    } else if v == 3 {
        '3'
    } else if v == 4 {
        '4'
    } else if v == 5 {
        '5'
    } else if v == 6 {
        '6'
    } else if v == 7 {
        '7'
    } else if v == 8 {
        '8'
    } else if v == 9 {
        '9'
    } else if v == 10 {
        'a'
    } else if v == 11 {
        'b'
    } else if v == 12 {
        'c'
    } else if v == 13 {
        'd'
    } else if v == 14 {
        'e'
    } else {
        'f'
    }
}

/// Append the written form of one string-content character.
fn push_escaped_char(out: &mut String, c: char)
    ensures
        final(out)@ == old(out)@ + escape_char(c),
{
    let ghost orig = out@;
    if c == '"' {
        push_char(out, '\\');
        push_char(out, '"');
        assert(out@ =~= orig + escape_char(c));
    } else if c == '\\' {
        push_char(out, '\\');
        push_char(out, '\\');
        assert(out@ =~= orig + escape_char(c));
    } else if c == '\u{8}' {
        push_char(out, '\\');
        push_char(out, 'b');
        assert(out@ =~= orig + escape_char(c));
    } else if c == '\t' {
        push_char(out, '\\');
        push_char(out, 't');
        assert(out@ =~= orig + escape_char(c));
    } else if c == '\n' {
        push_char(out, '\\');
        push_char(out, 'n');
        assert(out@ =~= orig + escape_char(c));
    } else if c == '\u{c}' {
        push_char(out, '\\');
        push_char(out, 'f');
        assert(out@ =~= orig + escape_char(c));
    } else if c == '\r' {
        push_char(out, '\\');
        push_char(out, 'r');
        assert(out@ =~= orig + escape_char(c));
    } else {
        let u = c as u32;
        if u < 0x20 {
            push_char(out, '\\');
            push_char(out, 'u');
            push_char(out, '0');
            push_char(out, '0');
            push_char(out, hex_char((u / 16) as u8));
            push_char(out, hex_char((u % 16) as u8));
            assert((u / 16) as u8 as int == (c as int) / 16 && (u % 16) as u8 as int == (
            c as int) % 16);
            assert(out@ =~= orig + escape_char(c));
        } else {
            push_char(out, c);
            assert(out@ =~= orig + escape_char(c));
        }
    }
}

/// Escaping distributes over appending one character at the end.
proof fn lemma_escape_string_snoc(s: Seq<char>, c: char)
    ensures
        escape_string(s.push(c)) == escape_string(s) + escape_char(c),
    decreases s.len(),
{
    if s.len() == 0 {
        assert(s.push(c)[0] == c);
        assert(s.push(c).skip(1) =~= Seq::<char>::empty());
        assert(escape_string(s.push(c)) == escape_char(c) + escape_string(Seq::<char>::empty()));
        assert(escape_char(c) + Seq::<char>::empty() =~= escape_char(c));
        assert(escape_string(s) + escape_char(c) =~= escape_char(c));
    } else {
        lemma_escape_string_snoc(s.skip(1), c);
        assert(s.push(c)[0] == s[0]);
        assert(s.push(c).skip(1) =~= s.skip(1).push(c));
        assert(escape_char(s[0]) + (escape_string(s.skip(1)) + escape_char(c)) =~= (escape_char(
            s[0],
        ) + escape_string(s.skip(1))) + escape_char(c));
    }
}

/// Append a quoted JSON string literal for `s`.
fn push_quoted(out: &mut String, s: &str)
    ensures
        final(out)@ == old(out)@ + enc_string(s@),
{
    let ghost orig = out@;
    push_char(out, '"');
    let n = s.unicode_len();
    let mut i: usize = 0;
    while i < n
        invariant
            i <= n,
            n == s@.len(),
            out@ == orig + seq!['"'] + escape_string(s@.take(i as int)),
        decreases n - i,
    {
        let c = s.get_char(i);
        push_escaped_char(out, c);
        proof {
            lemma_escape_string_snoc(s@.take(i as int), s@[i as int]);
            assert(s@.take(i as int).push(s@[i as int]) =~= s@.take(i as int + 1));
            assert((orig + seq!['"'] + escape_string(s@.take(i as int))) + escape_char(s@[i as int])
                =~= orig + seq!['"'] + (escape_string(s@.take(i as int)) + escape_char(
            s@[i as int])));
        }
        i += 1;
    }
    push_char(out, '"');
    proof {
        assert(s@.take(n as int) =~= s@);
        assert(orig + seq!['"'] + escape_string(s@) + seq!['"'] =~= orig + enc_string(s@));
    }
}

/// Encode a list of strings as a canonical JSON array, the form stored in the
/// muscle-groups column.
pub fn encode_muscle_groups(groups: &Vec<String>) -> (r: String)
    ensures
        r@ == json_encode_strings(seq_views(groups@)),
{
    let ghost gviews = seq_views(groups@);
    let mut out = String::new();
    push_char(&mut out, '[');
    if groups.len() == 0 {
        push_char(&mut out, ']');
        assert(out@ =~= seq!['[', ']']);
        return out;
    }
    push_quoted(&mut out, groups[0].as_str());
    proof {
        assert(gviews[0] == groups@[0]@);
        assert(out@ + enc_more(gviews.skip(1)) =~= seq!['['] + enc_string(gviews[0]) + enc_more(
            gviews.skip(1),
        ));
    }
    let mut k: usize = 1;
    while k < groups.len()
        invariant
            1 <= k <= groups.len(),
            gviews == seq_views(groups@),
            gviews.len() == groups@.len(),
            out@ + enc_more(gviews.skip(k as int)) == json_encode_strings(gviews),
        decreases groups.len() - k,
    {
        let ghost before = out@;
        push_char(&mut out, ',');
        push_quoted(&mut out, groups[k].as_str());
        proof {
            assert(gviews.skip(k as int)[0] == gviews[k as int]);
            assert(gviews[k as int] == groups@[k as int]@);
            assert(gviews.skip(k as int).skip(1) =~= gviews.skip(k as int + 1));
            assert(out@ + enc_more(gviews.skip(k as int + 1)) =~= before + enc_more(
                gviews.skip(k as int),
            ));
        }
        k += 1;
    }
    let ghost before_close = out@;
    push_char(&mut out, ']');
    proof {
        assert(gviews.skip(groups@.len() as int) =~= Seq::<Seq<char>>::empty());
        assert(out@ =~= before_close + enc_more(gviews.skip(groups@.len() as int)));
    }
    out
}

/// The value of a lowercase hex digit.
fn hex_val_lower(c: char) -> (r: Option<u8>)
    ensures
        match r {
            Some(v) => v < 16 && unhex(c) == v as int,
            None => unhex(c) == -1,
        },
{
    if c == '0' {
        Some(0)
    } else if c == '1' {
        Some(1)
    } else if c == '2' {
        Some(2)
    } else if c == '3' {
        Some(3)
    } else if c == '4' {
        Some(4)
    } else if c == '5' {
        Some(5)
    } else if c == '6' {
        Some(6)
    } else if c == '7' {
        Some(7)
    } else if c == '8' {
        Some(8)
    } else if c == '9' {
        Some(9)
    } else if c == 'a' {
        Some(10)
    } else if c == 'b' {
        Some(11)
    } else if c == 'c' {
        Some(12)
    } else if c == 'd' {
        Some(13)
    } else if c == 'e' {
        Some(14)
    } else if c == 'f' {
        Some(15)
    } else {
        None
    }
}

/// Whether `e` is one of the short escape codes.
fn is_short_escape_code(e: char) -> (r: bool)
    ensures
        r == is_short_escape(e),
{
    e == '"' || e == '\\' || e == 'b' || e == 't' || e == 'n' || e == 'f' || e == 'r'
}

/// The character a short escape code names.
fn short_unescape(e: char) -> (r: char)
    ensures
        r == unescape_short(e),
{
    if e == '"' {
        '"'
    } else if e == '\\' {
        '\\'
    } else if e == 'b' {
        '\u{8}'
    } else if e == 't' {
        '\t'
    } else if e == 'n' {
        '\n'
    } else if e == 'f' {
        '\u{c}'
    } else {
        '\r'
    }
}

/// Parse a string-literal body beginning at character index `start` (just
/// after the opening quote): the decoded content and the index just past the
/// closing quote.
fn parse_string_body(s: &str, start: usize) -> (r: Option<(String, usize)>)
    requires
        start <= s@.len(),
    ensures
        match r {
            Some(parsed) => start <= parsed.1 <= s@.len() && dec_str_body(s@.skip(start as int))
                == Some((parsed.0@, s@.skip(parsed.1 as int))),
            None => dec_str_body(s@.skip(start as int)) is None,
        },
{
    let n = s.unicode_len();
    let mut acc = String::new();
    let mut i: usize = start;
    while i < n
        invariant
            start <= i <= n,
            n == s@.len(),
            match dec_str_body(s@.skip(i as int)) {
                Some(parsed) => dec_str_body(s@.skip(start as int)) == Some(
                    (acc@ + parsed.0, parsed.1),
                ),
                None => dec_str_body(s@.skip(start as int)) is None,
            },
        decreases n - i,
    {
        let ghost si = s@.skip(i as int);
        let c = s.get_char(i);
        assert(si[0] == c);
        if c == '"' {
            proof {
                assert(si.skip(1) =~= s@.skip(i as int + 1));
                assert(acc@ + Seq::<char>::empty() =~= acc@);
            }
            return Some((acc, i + 1));
        } else if c == '\\' {
            if i + 1 >= n {
                assert(si.len() == 1);
                return None;
            }
            let e = s.get_char(i + 1);
            assert(si[1] == e);
            if is_short_escape_code(e) {
                let ghost prev = acc@;
                push_char(&mut acc, short_unescape(e));
                proof {
                    assert(si.skip(2) =~= s@.skip(i as int + 2));
                    if let Some(parsed) = dec_str_body(s@.skip(i as int + 2)) {
                        assert(dec_str_body(si) == Some(
                            (seq![unescape_short(e)] + parsed.0, parsed.1),
                        ));
                        assert(prev + (seq![unescape_short(e)] + parsed.0) =~= acc@ + parsed.0);
                    }
                }
                i += 2;
            } else if e == 'u' {
                if n - i < 6 {
                    assert(si.len() < 6);
                    return None;
                }
                if s.get_char(i + 2) != '0' || s.get_char(i + 3) != '0' {
                    assert(si[2] == s@[i as int + 2] && si[3] == s@[i as int + 3]);
                    return None;
                }
                assert(si[2] == '0' && si[3] == '0');
                let h1 = match hex_val_lower(s.get_char(i + 4)) {
                    Some(v) => v,
                    None => {
                        assert(si[4] == s@[i as int + 4]);
                        return None;
                    },
                };
                let h2 = match hex_val_lower(s.get_char(i + 5)) {
                    Some(v) => v,
                    None => {
                        assert(si[5] == s@[i as int + 5]);
                        return None;
                    },
                };
                assert(si[4] == s@[i as int + 4] && si[5] == s@[i as int + 5]);
                let v: u8 = h1 * 16 + h2;
                if v >= 0x20 || v == 8 || v == 9 || v == 10 || v == 12 || v == 13 {
                    return None;
                }
                let decoded: char = v as char;
                let ghost prev = acc@;
                push_char(&mut acc, decoded);
                proof {
                    assert(decoded == ((unhex(si[4]) * 16 + unhex(si[5])) as char));
                    assert(si.skip(6) =~= s@.skip(i as int + 6));
                    if let Some(parsed) = dec_str_body(s@.skip(i as int + 6)) {
                        assert(dec_str_body(si) == Some((seq![decoded] + parsed.0, parsed.1)));
                        assert(prev + (seq![decoded] + parsed.0) =~= acc@ + parsed.0);
                    }
                }
                i += 6;
            } else {
                assert(!is_short_escape(si[1]) && si[1] != 'u');
                return None;
            }
        } else {
            let u = c as u32;
            if u < 0x20 {
                return None;
            }
            let ghost prev = acc@;
            push_char(&mut acc, c);
            proof {
                assert(si.skip(1) =~= s@.skip(i as int + 1));
                if let Some(parsed) = dec_str_body(s@.skip(i as int + 1)) {
                    assert(dec_str_body(si) == Some((seq![c] + parsed.0, parsed.1)));
                    assert(prev + (seq![c] + parsed.0) =~= acc@ + parsed.0);
                }
            }
            i += 1;
        }
    }
    assert(s@.skip(i as int).len() == 0);
    None
}

/// Decode a stored muscle-groups column. Accepts exactly the canonical
/// encodings that [`encode_muscle_groups`] produces; anything else is `None`.
pub fn decode_muscle_groups(s: &str) -> (r: Option<Vec<String>>)
    ensures
        match r {
            Some(v) => json_decode_strings(s@) == Some(seq_views(v@)),
            None => json_decode_strings(s@) is None,
        },
{
    let n = s.unicode_len();
    if n == 0 || s.get_char(0) != '[' {
        return None;
    }
    let ghost inner = s@.skip(1);
    if n == 1 {
        assert(inner.len() == 0);
        return None;
    }
    let c1 = s.get_char(1);
    assert(inner[0] == c1);
    if c1 == ']' {
        if n == 2 {
            let empty: Vec<String> = Vec::new();
            proof {
                assert(inner.len() == 1);
                assert(seq_views(empty@) =~= Seq::<Seq<char>>::empty());
            }
            return Some(empty);
        }
        return None;
    }
    if c1 != '"' {
        return None;
    }
    let (first, mut j) = match parse_string_body(s, 2) {
        Some(parsed) => parsed,
        None => {
            proof {
                assert(inner.skip(1) =~= s@.skip(2));
            }
            return None;
        },
    };
    let mut acc: Vec<String> = Vec::new();
    acc.push(first);
    proof {
        assert(inner.skip(1) =~= s@.skip(2));
        assert(seq_views(acc@) =~= seq![acc@[0]@]);
    }
    loop
        invariant
            2 <= j <= n,
            n == s@.len(),
            s@.len() >= 1 && s@[0] == '[',
            acc@.len() >= 1,
            match dec_more(s@.skip(j as int)) {
                Some(more) => dec_items(s@.skip(1)) == Some(seq_views(acc@) + more),
                None => dec_items(s@.skip(1)) is None,
            },
        decreases n - j,
    {
        let ghost sj = s@.skip(j as int);
        if j == n {
            assert(sj.len() == 0);
            return None;
        }
        let c = s.get_char(j);
        assert(sj[0] == c);
        if c == ']' {
            if j + 1 == n {
                proof {
                    assert(sj.len() == 1);
                    assert(dec_more(sj) == Some(Seq::<Seq<char>>::empty()));
                    assert(seq_views(acc@) + Seq::<Seq<char>>::empty() =~= seq_views(acc@));
                }
                return Some(acc);
            }
            return None;
        }
        if c != ',' {
            return None;
        }
        if j + 1 == n {
            assert(sj.len() == 1);
            return None;
        }
        let c2 = s.get_char(j + 1);
        assert(sj[1] == c2);
        if c2 != '"' {
            return None;
        }
        let (next, j2) = match parse_string_body(s, j + 2) {
            Some(parsed) => parsed,
            None => {
                proof {
                    assert(sj.skip(2) =~= s@.skip(j as int + 2));
                }
                return None;
            },
        };
        let ghost prev = acc@;
        acc.push(next);
        proof {
            assert(sj.skip(2) =~= s@.skip(j as int + 2));
            lemma_dec_str_body_shrinks(s@.skip(j as int + 2));
            assert(s@.skip(j2 as int).len() < s@.skip(j as int + 2).len());
            assert(j2 > j);
            assert(seq_views(acc@) =~= seq_views(prev).push(next@));
            if let Some(more) = dec_more(s@.skip(j2 as int)) {
                assert(dec_more(sj) == Some(seq![next@] + more));
                assert(seq_views(prev) + (seq![next@] + more) =~= seq_views(acc@) + more);
            }
        }
        j = j2;
    }
}

} // verus!

