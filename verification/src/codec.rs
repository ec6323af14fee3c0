//! The JSON shapes this service emits: the response body (a four-key
//! object of strings) and the response envelope (status code plus body).
//! The writer is specified down to the exact character sequence; the
//! parser inverts it, which `lemma_response_round_trip` proves.

use crate::event::OutboundResponse;
use vstd::prelude::*;
use vstd::string::StrSliceExecFns;
use vstd::string::StringExecFns;

verus! {

/// Relies on `String::push`: appends the given character to the end of
/// the string.
#[verifier::external_body]
fn push_char(s: &mut String, c: char)
    ensures
        final(s)@ == old(s)@.push(c),
{
    s.push(c);
}

/// The decimal digit character for `n` (meaningful for `n < 10`).
pub open spec fn spec_digit(n: nat) -> char {
    ((0x30 + n) as u8) as char
}

/// The lowercase hexadecimal digit character for `n` (meaningful for `n < 16`).
pub open spec fn spec_hex_digit(n: nat) -> char {
    if n < 10 {
        spec_digit(n)
    } else {
        ((0x57 + n) as u8) as char
    }
}

/// How one character appears inside a JSON string literal: quote,
/// backslash and the five short-named control characters get two-character
/// escapes, other control characters a `\u00XY` escape, and everything
/// else stands as itself.
pub open spec fn spec_escape_char(c: char) -> Seq<char> {
    if c == '"' {
        seq!['\\', '"']
    } else if c == '\\' {
        seq!['\\', '\\']
    } else if c == '\u{8}' {
        seq!['\\', 'b']
    } else if c == '\t' {
        seq!['\\', 't']
    } else if c == '\n' {
        seq!['\\', 'n']
    } else if c == '\u{c}' {
        seq!['\\', 'f']
    } else if c == '\r' {
        seq!['\\', 'r']
    } else if (c as u32) < 0x20 {
        seq!['\\', 'u', '0', '0', spec_hex_digit((c as u32 / 16) as nat), spec_hex_digit(
            (c as u32 % 16) as nat,
        )]
    } else {
        seq![c]
    }
}

/// A whole string, escaped character by character.
pub open spec fn spec_escape(s: Seq<char>) -> Seq<char>
    decreases s.len(),
{
    if s.len() == 0 {
        Seq::empty()
    } else {
        spec_escape_char(s[0]) + spec_escape(s.skip(1))
    }
}

/// A JSON string literal: the escaped characters between double quotes.
pub open spec fn spec_json_string(s: Seq<char>) -> Seq<char> {
    seq!['"'] + spec_escape(s) + seq!['"']
}

/// The response body: a JSON object with exactly the four fixed keys, in
/// the order a canonical (sorted-key) writer emits them.
pub open spec fn spec_body_json(source_ip: Seq<char>, arch: Seq<char>, os: Seq<char>) -> Seq<
    char,
> {
    "{\"architecture\":"@ + spec_json_string(arch) + ",\"message\":\"hello rust\",\"operating system\":"@
        + spec_json_string(os) + ",\"source ip\":"@ + spec_json_string(source_ip) + "}"@
}

/// The decimal digits of `n`, most significant first, no sign and no
/// leading zero (a lone zero for `n == 0`).
pub open spec fn spec_dec_digits(n: nat) -> Seq<char>
    decreases n,
{
    if n < 10 {
        seq![spec_digit(n)]
    } else {
        spec_dec_digits(n / 10) + seq![spec_digit(n % 10)]
    }
}

/// The character form of a (possibly negative) status code.
pub open spec fn spec_status_chars(status: int) -> Seq<char> {
    if status < 0 {
        seq!['-'] + spec_dec_digits((-status) as nat)
    } else {
        spec_dec_digits(status as nat)
    }
}

/// The response envelope: `{"statusCode":<n>,"body":<string>}`.
pub open spec fn spec_response_json(status: int, body: Seq<char>) -> Seq<char> {
    "{\"statusCode\":"@ + spec_status_chars(status) + ",\"body\":"@ + spec_json_string(body)
        + "}"@
}

/// Escaping distributes over concatenation.
proof fn lemma_escape_app(a: Seq<char>, b: Seq<char>)
    ensures
        spec_escape(a + b) == spec_escape(a) + spec_escape(b),
    decreases a.len(),
{
    if a.len() == 0 {
        assert(a + b =~= b);
        assert(spec_escape(a) + spec_escape(b) =~= spec_escape(b));
    } else {
        assert((a + b).skip(1) =~= a.skip(1) + b);
        lemma_escape_app(a.skip(1), b);
        assert(spec_escape(a + b) =~= spec_escape(a) + spec_escape(b));
    }
}

/// Escaping one character agrees with escaping a one-character string.
proof fn lemma_escape_one(c: char)
    ensures
        spec_escape(seq![c]) == spec_escape_char(c),
{
    assert(seq![c][0] == c);
    assert(seq![c].skip(1) =~= Seq::<char>::empty());
    assert(spec_escape(seq![c]) == spec_escape_char(c) + spec_escape(Seq::<char>::empty()));
    assert(spec_escape_char(c) + Seq::<char>::empty() =~= spec_escape_char(c));
}

fn hex_digit(n: u8) -> (c: char)
    requires
        n < 16,
    ensures
        c == spec_hex_digit(n as nat),
{
    if n < 10 {
        (0x30 + n) as char
    } else {
        (0x57 + n) as char
    }
}

fn push_escaped_char(out: &mut String, c: char)
    ensures
        final(out)@ == old(out)@ + spec_escape_char(c),
{
    if c == '"' {
        push_char(out, '\\');
        push_char(out, '"');
        assert(out@ =~= old(out)@ + spec_escape_char(c));
    } else if c == '\\' {
        push_char(out, '\\');
        push_char(out, '\\');
        assert(out@ =~= old(out)@ + spec_escape_char(c));
    } else if c == '\u{8}' {
        push_char(out, '\\');
        push_char(out, 'b');
        assert(out@ =~= old(out)@ + spec_escape_char(c));
    } else if c == '\t' {
        push_char(out, '\\');
        push_char(out, 't');
        assert(out@ =~= old(out)@ + spec_escape_char(c));
    } else if c == '\n' {
        push_char(out, '\\');
        push_char(out, 'n');
        assert(out@ =~= old(out)@ + spec_escape_char(c));
    } else if c == '\u{c}' {
        push_char(out, '\\');
        push_char(out, 'f');
        assert(out@ =~= old(out)@ + spec_escape_char(c));
    } else if c == '\r' {
        push_char(out, '\\');
        push_char(out, 'r');
        assert(out@ =~= old(out)@ + spec_escape_char(c));
    } else {
        let u = c as u32;
        if u < 0x20 {
            push_char(out, '\\');
            push_char(out, 'u');
            push_char(out, '0');
            push_char(out, '0');
            push_char(out, hex_digit((u / 16) as u8));
            push_char(out, hex_digit((u % 16) as u8));
            assert(out@ =~= old(out)@ + spec_escape_char(c));
        } else {
            push_char(out, c);
            assert(out@ =~= old(out)@ + spec_escape_char(c));
        }
    }
}

fn push_escaped(out: &mut String, s: &str)
    ensures
        final(out)@ == old(out)@ + spec_escape(s@),
{
    let n = s.unicode_len();
    let mut i: usize = 0;
    while i < n
        invariant
            n == s@.len(),
            i <= n,
            out@ == old(out)@ + spec_escape(s@.take(i as int)),
        decreases n - i,
    {
        let c = s.get_char(i);
        push_escaped_char(out, c);
        proof {
            assert(s@.take(i + 1 as int) =~= s@.take(i as int) + seq![s@[i as int]]);
            lemma_escape_app(s@.take(i as int), seq![s@[i as int]]);
            lemma_escape_one(s@[i as int]);
            assert(out@ =~= old(out)@ + spec_escape(s@.take(i + 1 as int)));
        }
        i = i + 1;
    }
    assert(s@.take(n as int) =~= s@);
}

fn push_json_string(out: &mut String, s: &str)
    ensures
        final(out)@ == old(out)@ + spec_json_string(s@),
{
    push_char(out, '"');
    push_escaped(out, s);
    push_char(out, '"');
    assert(out@ =~= old(out)@ + spec_json_string(s@));
}

/// Builds the response body for one invocation: a JSON object mapping
/// "message", "source ip", "architecture" and "operating system" to their
/// string values, keys in sorted order.
pub fn build_body(source_ip: &str, arch: &str, os: &str) -> (out: String)
    ensures
        out@ == spec_body_json(source_ip@, arch@, os@),
{
    let mut out = String::new();
    out.append("{\"architecture\":");
    push_json_string(&mut out, arch);
    out.append(",\"message\":\"hello rust\",\"operating system\":");
    push_json_string(&mut out, os);
    out.append(",\"source ip\":");
    push_json_string(&mut out, source_ip);
    out.append("}");
    assert(out@ =~= spec_body_json(source_ip@, arch@, os@));
    out
}

fn push_u32_digits(out: &mut String, n: u32)
    ensures
        final(out)@ == old(out)@ + spec_dec_digits(n as nat),
    decreases n,
{
    if n >= 10 {
        push_u32_digits(out, n / 10);
    }
    push_char(out, hex_digit((n % 10) as u8));
    proof {
        if n >= 10 {
            assert(out@ =~= old(out)@ + spec_dec_digits(n as nat));
        } else {
            assert(out@ =~= old(out)@ + spec_dec_digits(n as nat));
        }
    }
}

fn push_status(out: &mut String, n: i32)
    ensures
        final(out)@ == old(out)@ + spec_status_chars(n as int),
{
    if n < 0 {
        push_char(out, '-');
        let m: u32 = (-(n as i64)) as u32;
        push_u32_digits(out, m);
        assert(out@ =~= old(out)@ + spec_status_chars(n as int));
    } else {
        push_u32_digits(out, n as u32);
    }
}

/// Writes the response envelope exactly as the host-facing serializer
/// would: `{"statusCode":<code>,"body":"<escaped body>"}`.
pub fn serialize_response(r: &OutboundResponse) -> (out: String)
    ensures
        out@ == spec_response_json(r.status_code as int, r.body@),
{
    let mut out = String::new();
    out.append("{\"statusCode\":");
    push_status(&mut out, r.status_code);
    out.append(",\"body\":");
    push_json_string(&mut out, r.body.as_str());
    out.append("}");
    assert(out@ =~= spec_response_json(r.status_code as int, r.body@));
    out
}

/// Whether `c` is a decimal digit.
pub open spec fn spec_is_digit(c: char) -> bool {
    0x30 <= (c as u32) <= 0x39
}

/// The value of a decimal digit character.
pub open spec fn spec_digit_val(c: char) -> nat {
    ((c as u32) - 0x30) as nat
}

/// Whether `c` is a lowercase hexadecimal digit.
pub open spec fn spec_is_hex_lower(c: char) -> bool {
    spec_is_digit(c) || 0x61 <= (c as u32) <= 0x66
}

/// The value of a lowercase hexadecimal digit character.
pub open spec fn spec_hex_val(c: char) -> nat {
    if spec_is_digit(c) {
        spec_digit_val(c)
    } else {
        ((c as u32) - 0x57) as nat
    }
}

/// What a two-character escape `\c` stands for, if anything.
pub open spec fn spec_unescape_char(c: char) -> Option<char> {
    if c == '"' {
        Some('"')
    } else if c == '\\' {
        Some('\\')
    } else if c == 'b' {
        Some('\u{8}')
    } else if c == 't' {
        Some('\t')
    } else if c == 'n' {
        Some('\n')
    } else if c == 'f' {
        Some('\u{c}')
    } else if c == 'r' {
        Some('\r')
    } else {
        None
    }
}

/// Parses the inside of a JSON string literal, the opening quote already
/// consumed: the decoded characters and the count of input characters
/// consumed, closing quote included. `None` on an unterminated literal, a
/// bad escape, or a raw control character.
pub open spec fn spec_parse_jstr(s: Seq<char>) -> Option<(Seq<char>, int)>
    decreases s.len(),
{
    if s.len() == 0 {
        None
    } else if s[0] == '"' {
        Some((Seq::empty(), 1))
    } else if s[0] == '\\' {
        if s.len() < 2 {
            None
        } else if s[1] == 'u' {
            if s.len() < 6 {
                None
            } else if s[2] == '0' && s[3] == '0' && spec_is_hex_lower(s[4]) && spec_is_hex_lower(
                s[5],
            ) && spec_hex_val(s[4]) * 16 + spec_hex_val(s[5]) < 0x20 {
                match spec_parse_jstr(s.skip(6)) {
                    Some(r) => Some(
                        (
                            seq![(((spec_hex_val(s[4]) * 16 + spec_hex_val(s[5])) as u8) as char)]
                                + r.0,
                            6 + r.1,
                        ),
                    ),
                    None => None,
                }
            } else {
                None
            }
        } else {
            match spec_unescape_char(s[1]) {
                Some(c) => match spec_parse_jstr(s.skip(2)) {
                    Some(r) => Some((seq![c] + r.0, 2 + r.1)),
                    None => None,
                },
                None => None,
            }
        }
    } else if (s[0] as u32) < 0x20 {
        None
    } else {
        match spec_parse_jstr(s.skip(1)) {
            Some(r) => Some((seq![s[0]] + r.0, 1 + r.1)),
            None => None,
        }
    }
}

/// How many decimal digits stand at the front of `s`.
pub open spec fn spec_digit_prefix_len(s: Seq<char>) -> int
    decreases s.len(),
{
    if s.len() == 0 || !spec_is_digit(s[0]) {
        0
    } else {
        1 + spec_digit_prefix_len(s.skip(1))
    }
}

/// The number a digit string denotes, most significant digit first.
pub open spec fn spec_digits_value(s: Seq<char>) -> nat
    decreases s.len(),
{
    if s.len() == 0 {
        0
    } else {
        spec_digits_value(s.drop_last()) * 10 + spec_digit_val(s.last())
    }
}

/// Parses an unsigned decimal number: its value and the count of
/// characters consumed. `None` when no digit leads.
pub open spec fn spec_parse_uint(s: Seq<char>) -> Option<(int, int)> {
    let k = spec_digit_prefix_len(s);
    if k == 0 {
        None
    } else {
        Some((spec_digits_value(s.take(k)) as int, k))
    }
}

/// Parses a status code: an optional minus sign, digits after it.
pub open spec fn spec_parse_status(s: Seq<char>) -> Option<(int, int)> {
    if s.len() > 0 && s[0] == '-' {
        match spec_parse_uint(s.skip(1)) {
            Some(r) => Some((-r.0, 1 + r.1)),
            None => None,
        }
    } else {
        spec_parse_uint(s)
    }
}

/// Parses a whole response envelope back into its status code and body.
/// `None` unless the input is exactly `{"statusCode":<n>,"body":<string>}`
/// with a status that fits a 32-bit signed integer.
pub open spec fn spec_parse_response(s: Seq<char>) -> Option<(int, Seq<char>)> {
    let p1 = "{\"statusCode\":"@;
    let p2 = ",\"body\":\""@;
    if s.len() < p1.len() || s.take(p1.len() as int) != p1 {
        None
    } else {
        match spec_parse_status(s.skip(p1.len() as int)) {
            Some(r1) => if !(-0x8000_0000 <= r1.0 < 0x8000_0000) {
                None
            } else {
                let s2 = s.skip(p1.len() as int).skip(r1.1);
                if s2.len() < p2.len() || s2.take(p2.len() as int) != p2 {
                    None
                } else {
                    match spec_parse_jstr(s2.skip(p2.len() as int)) {
                        Some(r2) => {
                            let s3 = s2.skip(p2.len() as int).skip(r2.1);
                            if s3 == "}"@ {
                                Some((r1.0, r2.0))
                            } else {
                                None
                            }
                        },
                        None => None,
                    }
                }
            },
            None => None,
        }
    }
}

/// The decimal form of `n` is all digits, and never empty.
proof fn lemma_dec_digits_are_digits(n: nat)
    ensures
        spec_dec_digits(n).len() >= 1,
        forall|i: int|
            0 <= i < spec_dec_digits(n).len() ==> spec_is_digit(#[trigger] spec_dec_digits(n)[i]),
    decreases n,
{
    if n >= 10 {
        lemma_dec_digits_are_digits(n / 10);
    }
}

/// Reading the decimal form of `n` back gives `n`.
proof fn lemma_dec_digits_value(n: nat)
    ensures
        spec_digits_value(spec_dec_digits(n)) == n,
    decreases n,
{
    if n < 10 {
        assert(spec_dec_digits(n).drop_last() =~= Seq::<char>::empty());
        assert(spec_digits_value(Seq::<char>::empty()) == 0);
        assert(spec_dec_digits(n).last() == spec_digit(n));
        assert(spec_digit_val(spec_digit(n)) == n);
    } else {
        lemma_dec_digits_value(n / 10);
        assert(spec_dec_digits(n).drop_last() =~= spec_dec_digits(n / 10));
        assert(spec_dec_digits(n).last() == spec_digit(n % 10));
    }
}

/// The digit prefix of an all-digit string followed by a non-digit (or by
/// nothing) is exactly that string.
proof fn lemma_digit_prefix_app(a: Seq<char>, b: Seq<char>)
    requires
        forall|i: int| 0 <= i < a.len() ==> spec_is_digit(#[trigger] a[i]),
        b.len() == 0 || !spec_is_digit(b[0]),
    ensures
        spec_digit_prefix_len(a + b) == a.len(),
    decreases a.len(),
{
    if a.len() == 0 {
        assert(a + b =~= b);
    } else {
        assert((a + b)[0] == a[0]);
        assert((a + b).skip(1) =~= a.skip(1) + b);
        lemma_digit_prefix_app(a.skip(1), b);
    }
}

/// Reading an unsigned number back from its decimal form, with any
/// non-digit continuation, gives the number and consumes the digits.
proof fn lemma_uint_round(n: nat, rest: Seq<char>)
    requires
        rest.len() == 0 || !spec_is_digit(rest[0]),
    ensures
        spec_parse_uint(spec_dec_digits(n) + rest) == Some(
            (n as int, spec_dec_digits(n).len() as int),
        ),
{
    let ds = spec_dec_digits(n);
    lemma_dec_digits_are_digits(n);
    lemma_digit_prefix_app(ds, rest);
    assert((ds + rest).take(ds.len() as int) =~= ds);
    lemma_dec_digits_value(n);
}

/// Reading a status code back from its character form, with any
/// non-digit continuation, gives the code and consumes its characters.
proof fn lemma_status_round(st: int, rest: Seq<char>)
    requires
        rest.len() == 0 || !spec_is_digit(rest[0]),
    ensures
        spec_parse_status(spec_status_chars(st) + rest) == Some(
            (st, spec_status_chars(st).len() as int),
        ),
{
    if st < 0 {
        let ds = spec_dec_digits((-st) as nat);
        let s = spec_status_chars(st) + rest;
        assert(s[0] == '-');
        assert(s.skip(1) =~= ds + rest);
        lemma_uint_round((-st) as nat, rest);
    } else {
        let ds = spec_dec_digits(st as nat);
        let s = spec_status_chars(st) + rest;
        lemma_dec_digits_are_digits(st as nat);
        assert(s[0] == ds[0]);
        assert(spec_is_digit(s[0]));
        assert(s[0] != '-');
        assert(s =~= ds + rest);
        lemma_uint_round(st as nat, rest);
    }
}

/// Reading a string literal back from its escaped form: the decoded
/// characters are the original ones, and exactly the escaped characters
/// and the closing quote are consumed, whatever follows.
proof fn lemma_jstr_round(b: Seq<char>, rest: Seq<char>)
    ensures
        spec_parse_jstr(spec_escape(b) + seq!['"'] + rest) == Some(
            (b, spec_escape(b).len() as int + 1),
        ),
    decreases b.len(),
{
    let s = spec_escape(b) + seq!['"'] + rest;
    if b.len() == 0 {
        assert(s =~= seq!['"'] + rest);
        assert(s[0] == '"');
        assert(b =~= Seq::<char>::empty());
    } else {
        let c = b[0];
        let e = spec_escape_char(c);
        let t = spec_escape(b.skip(1));
        assert(spec_escape(b) == e + t);
        lemma_jstr_round(b.skip(1), rest);
        assert(s =~= e + (t + seq!['"'] + rest));
        if c == '"' || c == '\\' || c == '\u{8}' || c == '\t' || c == '\n' || c == '\u{c}'
            || c == '\r' {
            assert(e.len() == 2 && e[0] == '\\');
            assert(s[0] == '\\' && s[1] == e[1]);
            assert(s.len() >= 2);
            assert(s[1] != 'u');
            assert(spec_unescape_char(e[1]) == Some(c));
            assert(s.skip(2) =~= t + seq!['"'] + rest);
            assert(seq![c] + b.skip(1) =~= b);
        } else if (c as u32) < 0x20 {
            let v = c as u32;
            assert(e == seq!['\\', 'u', '0', '0', spec_hex_digit((v / 16) as nat), spec_hex_digit(
                (v % 16) as nat,
            )]);
            assert(s[0] == '\\' && s[1] == 'u' && s[2] == '0' && s[3] == '0');
            assert(s[4] == spec_hex_digit((v / 16) as nat));
            assert(s[5] == spec_hex_digit((v % 16) as nat));
            assert(spec_is_hex_lower(s[4]) && spec_hex_val(s[4]) == v / 16);
            assert(spec_is_hex_lower(s[5]) && spec_hex_val(s[5]) == v % 16);
            assert(spec_hex_val(s[4]) * 16 + spec_hex_val(s[5]) == v);
            assert(((v as u8) as u32) == v);
            vstd::utf8::char_u32_cast(c, (v as u8) as u32);
            assert(((v as u8) as char) == c);
            assert((spec_hex_val(s[4]) * 16 + spec_hex_val(s[5])) as u8 == v as u8);
            assert(s.skip(6) =~= t + seq!['"'] + rest);
            assert(seq![c] + b.skip(1) =~= b);
        } else {
            assert(e == seq![c]);
            assert(s[0] == c);
            assert(s[0] != '"' && s[0] != '\\' && !((s[0] as u32) < 0x20));
            assert(s.skip(1) =~= t + seq!['"'] + rest);
            assert(seq![c] + b.skip(1) =~= b);
        }
    }
}

fn hex_val(c: char) -> (r: Option<u8>)
    ensures
        match r {
            Some(v) => spec_is_hex_lower(c) && v as nat == spec_hex_val(c) && v < 16,
            None => !spec_is_hex_lower(c),
        },
{
    let u = c as u32;
    if 0x30 <= u && u <= 0x39 {
        Some((u - 0x30) as u8)
    } else if 0x61 <= u && u <= 0x66 {
        Some((u - 0x57) as u8)
    } else {
        None
    }
}

fn unescape_char(c: char) -> (r: Option<char>)
    ensures
        r == spec_unescape_char(c),
{
    if c == '"' {
        Some('"')
    } else if c == '\\' {
        Some('\\')
    } else if c == 'b' {
        Some('\u{8}')
    } else if c == 't' {
        Some('\t')
    } else if c == 'n' {
        Some('\n')
    } else if c == 'f' {
        Some('\u{c}')
    } else if c == 'r' {
        Some('\r')
    } else {
        None
    }
}

/// Decodes a JSON string literal starting at character `i` of `s`, the
/// opening quote already consumed; on success, the decoded text and the
/// index just past the closing quote.
fn parse_jstr_at(s: &str, i: usize, n: usize) -> (r: Option<(String, usize)>)
    requires
        n == s@.len(),
        i <= n,
    ensures
        match r {
            Some(p) => spec_parse_jstr(s@.skip(i as int)) == Some((p.0@, p.1 - i)) && i < p.1
                <= n,
            None => spec_parse_jstr(s@.skip(i as int)) is None,
        },
    decreases n - i,
{
    let ghost sk = s@.skip(i as int);
    if i == n {
        return None;
    }
    let c = s.get_char(i);
    proof {
        assert(sk[0] == s@[i as int]);
    }
    if c == '"' {
        let out = String::new();
        return Some((out, i + 1));
    }
    if c == '\\' {
        if n - i < 2 {
            return None;
        }
        let e = s.get_char(i + 1);
        proof {
            assert(sk[1] == s@[i + 1]);
        }
        if e == 'u' {
            if n - i < 6 {
                return None;
            }
            let d2 = s.get_char(i + 2);
            let d3 = s.get_char(i + 3);
            let h1 = s.get_char(i + 4);
            let h2 = s.get_char(i + 5);
            proof {
                assert(sk[2] == s@[i + 2] && sk[3] == s@[i + 3]);
                assert(sk[4] == s@[i + 4] && sk[5] == s@[i + 5]);
            }
            if d2 == '0' && d3 == '0' {
                match (hex_val(h1), hex_val(h2)) {
                    (Some(a), Some(b)) => {
                        let v: u8 = a * 16 + b;
                        if v < 0x20 {
                            match parse_jstr_at(s, i + 6, n) {
                                Some((t, end)) => {
                                    let mut out = String::new();
                                    push_char(&mut out, v as char);
                                    out.append(t.as_str());
                                    proof {
                                        assert(sk.skip(6) =~= s@.skip(i + 6));
                                        assert((spec_hex_val(sk[4]) * 16 + spec_hex_val(sk[5]))
                                            as u8 == v);
                                        assert(out@ =~= seq![((spec_hex_val(sk[4]) * 16
                                            + spec_hex_val(sk[5])) as u8) as char] + t@);
                                    }
                                    Some((out, end))
                                },
                                None => {
                                    proof {
                                        assert(sk.skip(6) =~= s@.skip(i + 6));
                                    }
                                    None
                                },
                            }
                        } else {
                            None
                        }
                    },
                    _ => None,
                }
            } else {
                None
            }
        } else {
            match unescape_char(e) {
                Some(c2) => match parse_jstr_at(s, i + 2, n) {
                    Some((t, end)) => {
                        let mut out = String::new();
                        push_char(&mut out, c2);
                        out.append(t.as_str());
                        proof {
                            assert(sk.skip(2) =~= s@.skip(i + 2));
                            assert(out@ =~= seq![c2] + t@);
                        }
                        Some((out, end))
                    },
                    None => {
                        proof {
                            assert(sk.skip(2) =~= s@.skip(i + 2));
                        }
                        None
                    },
                },
                None => None,
            }
        }
    } else {
        let u = c as u32;
        if u < 0x20 {
            None
        } else {
            match parse_jstr_at(s, i + 1, n) {
                Some((t, end)) => {
                    let mut out = String::new();
                    push_char(&mut out, c);
                    out.append(t.as_str());
                    proof {
                        assert(sk.skip(1) =~= s@.skip(i + 1));
                        assert(out@ =~= seq![sk[0]] + t@);
                    }
                    Some((out, end))
                },
                None => {
                    proof {
                        assert(sk.skip(1) =~= s@.skip(i + 1));
                    }
                    None
                },
            }
        }
    }
}

/// Reads the decimal number starting at character `i` of `s`; on success,
/// its value and the index just past its digits. `None` when no digit
/// leads or the value does not fit 32 bits.
fn parse_uint_at(s: &str, i: usize, n: usize) -> (r: Option<(u64, usize)>)
    requires
        n == s@.len(),
        i <= n,
    ensures
        match r {
            Some(p) => spec_parse_uint(s@.skip(i as int)) == Some((p.0 as int, p.1 - i)) && i
                < p.1 <= n && p.0 < 0x1_0000_0000,
            None => (match spec_parse_uint(s@.skip(i as int)) {
                Some(q) => q.0 >= 0x1_0000_0000,
                None => true,
            }),
        },
{
    let ghost sk = s@.skip(i as int);
    let mut j: usize = i;
    let mut acc: u64 = 0;
    let mut big: bool = false;
    proof {
        assert(sk.take(0) =~= Seq::<char>::empty());
    }
    loop
        invariant
            n == s@.len(),
            i <= j <= n,
            sk == s@.skip(i as int),
            forall|m: int| i <= m < j ==> spec_is_digit(#[trigger] s@[m]),
            !big ==> acc as nat == spec_digits_value(sk.take(j - i)) && acc < 0x1_0000_0000,
            big ==> spec_digits_value(sk.take(j - i)) >= 0x1_0000_0000,
        ensures
            i <= j <= n,
            j == n || !spec_is_digit(s@[j as int]),
            forall|m: int| i <= m < j ==> spec_is_digit(#[trigger] s@[m]),
            !big ==> acc as nat == spec_digits_value(sk.take(j - i)) && acc < 0x1_0000_0000,
            big ==> spec_digits_value(sk.take(j - i)) >= 0x1_0000_0000,
        decreases n - j,
    {
        if j == n {
            break;
        }
        let c = s.get_char(j);
        let u = c as u32;
        if !(0x30 <= u && u <= 0x39) {
            break;
        }
        let d: u64 = (u - 0x30) as u64;
        proof {
            assert(sk.take(j + 1 - i).drop_last() =~= sk.take(j - i));
            assert(sk.take(j + 1 - i).last() == s@[j as int]);
            assert(spec_digits_value(sk.take(j + 1 - i)) == spec_digits_value(sk.take(j - i))
                * 10 + spec_digit_val(s@[j as int]));
        }
        if big {
        } else {
            let next: u64 = acc * 10 + d;
            if next >= 0x1_0000_0000 {
                big = true;
            } else {
                acc = next;
            }
        }
        j = j + 1;
    }
    let k = j - i;
    proof {
        let a = sk.take(k as int);
        let b = s@.skip(j as int);
        assert(sk =~= a + b);
        assert forall|m: int| 0 <= m < a.len() implies spec_is_digit(#[trigger] a[m]) by {
            assert(a[m] == s@[i + m]);
        }
        if j < n {
            assert(b[0] == s@[j as int]);
        }
        lemma_digit_prefix_app(a, b);
        assert(spec_digit_prefix_len(sk) == k);
    }
    if j == i {
        return None;
    }
    if big {
        return None;
    }
    Some((acc, j))
}

/// Reads the status code starting at character `i` of `s`: an optional
/// minus sign, digits after it. `None` when the number is missing or does
/// not fit a 32-bit signed integer.
fn parse_status_at(s: &str, i: usize, n: usize) -> (r: Option<(i32, usize)>)
    requires
        n == s@.len(),
        i <= n,
    ensures
        match r {
            Some(p) => spec_parse_status(s@.skip(i as int)) == Some((p.0 as int, p.1 - i)) && i
                < p.1 <= n,
            None => (match spec_parse_status(s@.skip(i as int)) {
                Some(q) => !(-0x8000_0000 <= q.0 < 0x8000_0000),
                None => true,
            }),
        },
{
    let ghost sk = s@.skip(i as int);
    if i < n {
        let c = s.get_char(i);
        proof {
            assert(sk[0] == s@[i as int]);
        }
        if c == '-' {
            proof {
                assert(sk.skip(1) =~= s@.skip(i + 1));
            }
            return match parse_uint_at(s, i + 1, n) {
                Some((v, end)) => {
                    if v <= 0x8000_0000 {
                        Some(((-(v as i64)) as i32, end))
                    } else {
                        None
                    }
                },
                None => None,
            };
        }
    }
    match parse_uint_at(s, i, n) {
        Some((v, end)) => {
            if v < 0x8000_0000 {
                Some((v as i32, end))
            } else {
                None
            }
        },
        None => None,
    }
}

/// Whether the characters of `p` stand at position `i` of `s`.
fn matches_at(s: &str, i: usize, n: usize, p: &str) -> (r: bool)
    requires
        n == s@.len(),
        i <= n,
    ensures
        r <==> (i + p@.len() <= n && s@.skip(i as int).take(p@.len() as int) == p@),
{
    let pn = p.unicode_len();
    if pn > n - i {
        proof {
            if s@.skip(i as int).take(p@.len() as int) == p@ {
                assert(s@.skip(i as int).take(p@.len() as int).len() == p@.len());
            }
        }
        return false;
    }
    let mut j: usize = 0;
    loop
        invariant
            n == s@.len(),
            pn == p@.len(),
            i + pn <= n,
            0 <= j <= pn,
            forall|m: int| 0 <= m < j ==> s@[i + m] == p@[m],
        ensures
            (j == pn && forall|m: int| 0 <= m < j ==> s@[i + m] == p@[m]) || (j < pn && s@[i
                + j] != p@[j as int]),
        decreases pn - j,
    {
        if j == pn {
            break;
        }
        let cs = s.get_char(i + j);
        let cp = p.get_char(j);
        if cs != cp {
            break;
        }
        j = j + 1;
    }
    if j == pn {
        proof {
            assert(s@.skip(i as int).take(p@.len() as int) =~= p@);
        }
        true
    } else {
        proof {
            assert(s@.skip(i as int).take(p@.len() as int)[j as int] == s@[i + j]);
        }
        false
    }
}

/// Parses a serialized response envelope back into a response: `None`
/// unless the input is exactly `{"statusCode":<n>,"body":<string>}` with
/// a status code that fits a 32-bit signed integer.
pub fn parse_response(s: &str) -> (r: Option<OutboundResponse>)
    ensures
        match r {
            Some(resp) => spec_parse_response(s@) == Some((resp.status_code as int, resp.body@)),
            None => spec_parse_response(s@) is None,
        },
{
    let n = s.unicode_len();
    let p1 = "{\"statusCode\":";
    let p1n = p1.unicode_len();
    if !matches_at(s, 0, n, p1) {
        proof {
            assert(s@.skip(0) =~= s@);
            if s@.len() >= p1@.len() {
                assert(s@.take(p1@.len() as int) =~= s@.skip(0).take(p1@.len() as int));
            }
        }
        return None;
    }
    proof {
        assert(s@.skip(0) =~= s@);
        assert(s@.take(p1@.len() as int) =~= s@.skip(0).take(p1@.len() as int));
    }
    match parse_status_at(s, p1n, n) {
        None => None,
        Some((st, i2)) => {
            let ghost s2 = s@.skip(p1@.len() as int).skip(i2 - p1@.len());
            proof {
                assert(s2 =~= s@.skip(i2 as int));
            }
            let p2 = ",\"body\":\"";
            if !matches_at(s, i2, n, p2) {
                proof {
                    if s2.len() >= p2@.len() {
                        assert(s2.take(p2@.len() as int) =~= s@.skip(i2 as int).take(
                            p2@.len() as int));
                    }
                }
                return None;
            }
            let p2n = p2.unicode_len();
            proof {
                assert(s2.take(p2@.len() as int) =~= s@.skip(i2 as int).take(p2@.len() as int));
                assert(s2.skip(p2@.len() as int) =~= s@.skip(i2 + p2@.len()));
            }
            let i3 = i2 + p2n;
            match parse_jstr_at(s, i3, n) {
                None => None,
                Some((body, i4)) => {
                    let ghost s3 = s2.skip(p2@.len() as int).skip(i4 - i3);
                    proof {
                        assert(s3 =~= s@.skip(i4 as int));
                    }
                    let pe = "}";
                    let pen = pe.unicode_len();
                    if matches_at(s, i4, n, pe) && n - i4 == pen {
                        proof {
                            assert(s3.len() == pe@.len());
                            assert(s3.take(pe@.len() as int) =~= s3);
                            assert(s3 == pe@);
                        }
                        Some(OutboundResponse { status_code: st, body })
                    } else {
                        proof {
                            if s3 == pe@ {
                                assert(s3.len() == pe@.len());
                                assert(s3.take(pe@.len() as int) =~= s3);
                            }
                        }
                        None
                    }
                },
            }
        },
    }
}

/// Round trip of the response envelope: parsing a serialized response
/// yields the same status code and the same body, with no field loss and
/// no change to the status integer.
pub proof fn lemma_response_round_trip(status: int, body: Seq<char>)
    requires
        -0x8000_0000 <= status < 0x8000_0000,
    ensures
        spec_parse_response(spec_response_json(status, body)) == Some((status, body)),
{
    let p1 = "{\"statusCode\":"@;
    let mid = ",\"body\":"@;
    let p2 = ",\"body\":\""@;
    let close = "}"@;
    let st = spec_status_chars(status);
    let esc = spec_escape(body);
    let s = spec_response_json(status, body);
    reveal_strlit("{\"statusCode\":");
    reveal_strlit(",\"body\":");
    reveal_strlit(",\"body\":\"");
    reveal_strlit("}");
    assert(p2 =~= mid + seq!['"']);
    let rest1 = st + (mid + spec_json_string(body) + close);
    assert(s =~= p1 + rest1);
    assert(s.take(p1.len() as int) =~= p1);
    assert(s.skip(p1.len() as int) =~= rest1);
    let after_st = mid + spec_json_string(body) + close;
    assert(after_st[0] == ',');
    assert(!spec_is_digit(after_st[0]));
    lemma_status_round(status, after_st);
    assert(spec_parse_status(rest1) == Some((status, st.len() as int)));
    let s2 = s.skip(p1.len() as int).skip(st.len() as int);
    assert(s2 =~= after_st);
    let tail = esc + seq!['"'] + close;
    assert(after_st =~= p2 + tail);
    assert(s2.take(p2.len() as int) =~= p2);
    assert(s2.skip(p2.len() as int) =~= tail);
    lemma_jstr_round(body, close);
    assert(spec_parse_jstr(tail) == Some((body, esc.len() as int + 1)));
    let s3 = s2.skip(p2.len() as int).skip(esc.len() as int + 1);
    assert(s3 =~= close);
    assert(s3 == close);
}

} // verus!
