//! Percent-decoding of URL paths.
//!
//! Each `%XX` escape stands for one byte. A run of consecutive escapes is
//! gathered and read as UTF-8 as a whole, so that a character whose encoding
//! spans several escapes comes out as that one character; a literal character
//! or the end of the input closes the run.
use vstd::prelude::*;
use vstd::std_specs::iter::IteratorSpec;
use vstd::utf8::{valid_utf8, decode_utf8, encode_utf8, encode_utf8_valid_utf8, encode_utf8_decode_utf8};
use crate::text::{push_char, utf8_text};

verus! {

/// The error of every malformed input.
pub const MALFORMED_URI: &'static str = "Malformed URI";

pub open spec fn is_hex_digit(c: char) -> bool {
    ||| ('0' <= c && c <= '9')
    ||| ('a' <= c && c <= 'f')
    ||| ('A' <= c && c <= 'F')
}

/// The value of a hexadecimal digit.
pub open spec fn hex_value(c: char) -> int {
    if '0' <= c && c <= '9' {
        c as int - '0' as int
    } else if 'a' <= c && c <= 'f' {
        c as int - 'a' as int + 10
    } else {
        c as int - 'A' as int + 10
    }
}

/// The byte written by the two characters that open `s`, when both are
/// hexadecimal digits.
pub open spec fn escape_byte(s: Seq<char>) -> Option<u8> {
    if s.len() >= 2 && is_hex_digit(s[0]) && is_hex_digit(s[1]) {
        Some((hex_value(s[0]) * 16 + hex_value(s[1])) as u8)
    } else {
        None
    }
}

/// The text of a closed run of escaped bytes, when it is well-formed UTF-8.
pub open spec fn run_text(run: Seq<u8>) -> Option<Seq<char>> {
    if valid_utf8(run) {
        Some(decode_utf8(run))
    } else {
        None
    }
}

/// `rest` with `prefix` in front, when there is a `rest`.
pub open spec fn prepend(prefix: Seq<char>, rest: Option<Seq<char>>) -> Option<Seq<char>> {
    match rest {
        Some(r) => Some(prefix + r),
        None => None,
    }
}

/// The decoding of `s` when the bytes `run` of an escape run that is still
/// open stand before it.
pub open spec fn decode_after_run(s: Seq<char>, run: Seq<u8>) -> Option<Seq<char>>
    decreases s.len(),
{
    if s.len() == 0 {
        run_text(run)
    } else if s[0] == '%' {
        match escape_byte(s.drop_first()) {
            Some(b) => decode_after_run(s.skip(3), run.push(b)),
            None => None,
        }
    } else {
        match run_text(run) {
            Some(t) => prepend(t.push(s[0]), decode_after_run(s.drop_first(), seq![])),
            None => None,
        }
    }
}

/// The percent-decoding of `s`: `None` when an escape is cut short or holds
/// a character that is not a hexadecimal digit, or when a run of escapes
/// is not well-formed UTF-8.
pub open spec fn percent_decoded(s: Seq<char>) -> Option<Seq<char>> {
    decode_after_run(s, seq![])
}

/// The value of a hexadecimal digit, or `None` for any other character.
pub fn hex_digit(c: char) -> (r: Option<u8>)
    ensures
        r == (if is_hex_digit(c) {
            Some(hex_value(c) as u8)
        } else {
            None::<u8>
        }),
{
    if '0' <= c && c <= '9' {
        Some((c as u32 - '0' as u32) as u8)
    } else if 'a' <= c && c <= 'f' {
        Some((c as u32 - 'a' as u32 + 10) as u8)
    } else if 'A' <= c && c <= 'F' {
        Some((c as u32 - 'A' as u32 + 10) as u8)
    } else {
        None
    }
}

/// Reads the two hexadecimal digits that follow a `%`.
pub fn get_hex(chars: &mut std::str::Chars) -> (r: Result<u8, &'static str>)
    requires
        (*old(chars)).decrease() is Some,
    ensures
        (*final(chars)).decrease() is Some,
        r is Ok ==> (*final(chars)).decrease()->0 < (*old(chars)).decrease()->0,
        match escape_byte((*old(chars)).remaining()) {
            Some(b) => r == Ok::<u8, &'static str>(b) && (*final(chars)).remaining()
                == (*old(chars)).remaining().skip(2),
            None => r == Err::<u8, &'static str>(MALFORMED_URI) && (*final(chars)).remaining()
                == (*old(chars)).remaining().skip(
                if (*old(chars)).remaining().len() < 2 {
                    (*old(chars)).remaining().len() as int
                } else {
                    2
                },
            ),
        },
{
    let ghost start = (*chars).remaining();
    let digit1 = match chars.next() {
        Some(c) => c,
        None => {
            assert(start.skip(start.len() as int) =~= (*chars).remaining());
            return Err(MALFORMED_URI);
        },
    };
    let digit2 = match chars.next() {
        Some(c) => c,
        None => {
            assert(start.skip(start.len() as int) =~= (*chars).remaining());
            return Err(MALFORMED_URI);
        },
    };
    assert((*chars).remaining() =~= (*old(chars)).remaining().skip(2)) by {
        assert((*old(chars)).remaining().skip(2) =~= (*old(chars)).remaining().drop_first().drop_first());
    };
    match (hex_digit(digit1), hex_digit(digit2)) {
        (Some(high), Some(low)) => Ok(high * 16 + low),
        _ => Err(MALFORMED_URI),
    }
}

/// Closes the pending escape run: its bytes, read as UTF-8, go to the end of
/// `dest`.
fn flush_buf(buf: &mut Vec<u8>, dest: &mut String) -> (r: Result<(), &'static str>)
    ensures
        match run_text(old(buf)@) {
            Some(t) => r is Ok && final(dest)@ == old(dest)@ + t && final(buf)@ == Seq::<u8>::empty(),
            None => r == Err::<(), &'static str>(MALFORMED_URI),
        },
{
    if buf.len() > 0 {
        let text = match utf8_text(buf.as_slice()) {
            Some(s) => s,
            None => return Err(MALFORMED_URI),
        };
        dest.append(text);
        buf.clear();
    } else {
        assert(dest@ + decode_utf8(buf@) =~= dest@);
    }
    Ok(())
}

/// Decodes the `%XX` escapes of a URL path.
pub fn decode_percent(input: &str) -> (r: Result<String, &'static str>)
    ensures
        match percent_decoded(input@) {
            Some(t) => r is Ok && r->Ok_0@ == t,
            None => r == Err::<String, &'static str>(MALFORMED_URI),
        },
{
    let mut decoded = String::new();
    let mut chars = input.chars();
    let mut buf: Vec<u8> = Vec::new();
    loop
        invariant
            chars.decrease() is Some,
            percent_decoded(input@) == prepend(decoded@, decode_after_run(chars.remaining(), buf@)),
        ensures
            percent_decoded(input@) == Some(decoded@),
        decreases chars.decrease()->0,
    {
        let ghost rest = chars.remaining();
        match chars.next() {
            Some('%') => {
                let hex = match get_hex(&mut chars) {
                    Ok(x) => x,
                    Err(e) => return Err(e),
                };
                assert(rest.skip(3) =~= rest.drop_first().skip(2));
                buf.push(hex);
            },
            Some(ch) => {
                let ghost before = decoded@;
                match flush_buf(&mut buf, &mut decoded) {
                    Ok(()) => {},
                    Err(e) => return Err(e),
                }
                push_char(&mut decoded, ch);
                assert(rest.drop_first() == chars.remaining());
                assert(buf@ =~= seq![]);
                let ghost t = decoded@.subrange(before.len() as int, decoded@.len() - 1);
                assert(decoded@ =~= before + t.push(ch));
                assert forall|x: Seq<char>| before + (t.push(ch) + x) =~= decoded@ + x by {};
            },
            None => {
                match flush_buf(&mut buf, &mut decoded) {
                    Ok(()) => {},
                    Err(e) => return Err(e),
                }
                break;
            },
        }
    }
    Ok(decoded)
}

/// The upper-case hexadecimal digit of `n`, for `n < 16`.
pub open spec fn hex_char(n: u8) -> char {
    if n == 0 { '0' } else if n == 1 { '1' } else if n == 2 { '2' } else if n == 3 { '3' }
    else if n == 4 { '4' } else if n == 5 { '5' } else if n == 6 { '6' } else if n == 7 { '7' }
    else if n == 8 { '8' } else if n == 9 { '9' } else if n == 10 { 'A' } else if n == 11 { 'B' }
    else if n == 12 { 'C' } else if n == 13 { 'D' } else if n == 14 { 'E' } else { 'F' }
}

/// `%XX` for each byte of `b`, in order.
pub open spec fn escape_bytes(b: Seq<u8>) -> Seq<char>
    decreases b.len(),
{
    if b.len() == 0 {
        seq![]
    } else {
        seq!['%', hex_char(b[0] / 16), hex_char(b[0] % 16)] + escape_bytes(b.drop_first())
    }
}

/// `e` is a run of escapes, in either case, that writes the bytes `b`.
pub open spec fn spells(e: Seq<char>, b: Seq<u8>) -> bool
    decreases b.len(),
{
    if b.len() == 0 {
        e.len() == 0
    } else {
        &&& e.len() >= 3
        &&& e[0] == '%'
        &&& escape_byte(e.drop_first()) == Some(b[0])
        &&& spells(e.skip(3), b.drop_first())
    }
}

/// The characters a path may hold as they are.
pub open spec fn is_unreserved(c: char) -> bool {
    ||| ('0' <= c && c <= '9')
    ||| ('a' <= c && c <= 'z')
    ||| ('A' <= c && c <= 'Z')
    ||| c == '-' || c == '.' || c == '_' || c == '~' || c == '/'
}

/// The percent-encoding of `s`: unreserved characters stay, every other
/// character becomes the escapes of its UTF-8 bytes.
pub open spec fn percent_encoded(s: Seq<char>) -> Seq<char>
    decreases s.len(),
{
    if s.len() == 0 {
        seq![]
    } else {
        let head = if is_unreserved(s[0]) {
            seq![s[0]]
        } else {
            escape_bytes(encode_utf8(seq![s[0]]))
        };
        head + percent_encoded(s.drop_first())
    }
}

proof fn lemma_escape_bytes_spells(b: Seq<u8>)
    ensures
        spells(escape_bytes(b), b),
    decreases b.len(),
{
    if b.len() > 0 {
        let e = escape_bytes(b);
        let tail = escape_bytes(b.drop_first());
        assert(e.skip(3) =~= tail);
        assert(e.drop_first()[0] == hex_char(b[0] / 16));
        assert(e.drop_first()[1] == hex_char(b[0] % 16));
        lemma_escape_bytes_spells(b.drop_first());
    }
}

/// Decoding walks through a run of escapes by adding its bytes to the open run.
proof fn lemma_escape_run(e: Seq<char>, b: Seq<u8>, t: Seq<char>, run: Seq<u8>)
    requires
        spells(e, b),
    ensures
        decode_after_run(e + t, run) == decode_after_run(t, run + b),
    decreases b.len(),
{
    if b.len() == 0 {
        assert(e + t =~= t);
        assert(run + b =~= run);
    } else {
        let s = e + t;
        assert(s.drop_first().subrange(0, 2) =~= e.drop_first().subrange(0, 2));
        assert(s.skip(3) =~= e.skip(3) + t);
        lemma_escape_run(e.skip(3), b.drop_first(), t, run.push(b[0]));
        assert(run.push(b[0]) + b.drop_first() =~= run + b);
    }
}

/// Decoding copies a prefix without `%`.
proof fn lemma_literal_prefix(p: Seq<char>, x: Seq<char>)
    requires
        forall|i: int| 0 <= i < p.len() ==> p[i] != '%',
    ensures
        decode_after_run(p + x, seq![]) == prepend(p, decode_after_run(x, seq![])),
    decreases p.len(),
{
    assert(valid_utf8(Seq::<u8>::empty()));
    assert(decode_utf8(Seq::<u8>::empty()) =~= Seq::<char>::empty());
    if p.len() == 0 {
        assert(p + x =~= x);
        match decode_after_run(x, seq![]) {
            Some(r) => assert(p + r =~= r),
            None => {},
        }
    } else {
        let s = p + x;
        assert(s.drop_first() =~= p.drop_first() + x);
        lemma_literal_prefix(p.drop_first(), x);
        match decode_after_run(x, seq![]) {
            Some(r) => assert(Seq::<char>::empty().push(p[0]) + (p.drop_first() + r) =~= p + r),
            None => {},
        }
    }
}

/// A path without `%` decodes to itself.
pub proof fn lemma_decode_identity(s: Seq<char>)
    requires
        forall|i: int| 0 <= i < s.len() ==> s[i] != '%',
    ensures
        percent_decoded(s) == Some(s),
{
    lemma_literal_prefix(s, seq![]);
    assert(s + Seq::<char>::empty() =~= s);
    assert(valid_utf8(Seq::<u8>::empty()));
    assert(decode_utf8(Seq::<u8>::empty()) =~= Seq::<char>::empty());
}

proof fn lemma_encode_utf8_push(p: Seq<char>, c: char)
    ensures
        encode_utf8(p.push(c)) == encode_utf8(p) + encode_utf8(seq![c]),
    decreases p.len(),
{
    if p.len() == 0 {
        assert(p.push(c) =~= seq![c]);
        assert(encode_utf8(p) =~= Seq::<u8>::empty());
        assert(encode_utf8(p) + encode_utf8(seq![c]) =~= encode_utf8(seq![c]));
    } else {
        assert(p.push(c).drop_first() =~= p.drop_first().push(c));
        lemma_encode_utf8_push(p.drop_first(), c);
        assert(encode_utf8(p.push(c)) =~= encode_utf8(p) + encode_utf8(seq![c]));
    }
}

/// Decoding undoes encoding: every string comes back from its percent-encoding.
pub proof fn lemma_decode_encode_round_trip(s: Seq<char>)
    ensures
        percent_decoded(percent_encoded(s)) == Some(s),
{
    lemma_percent_encoded_is_encoding(s);
    lemma_decode_any_encoding(percent_encoded(s), s);
}

proof fn lemma_bad_escape_after_run(s: Seq<char>, i: int, run: Seq<u8>)
    requires
        0 <= i < s.len(),
        s[i] == '%',
        escape_byte(s.skip(i + 1)) is None,
    ensures
        decode_after_run(s, run) is None,
    decreases s.len(),
{
    if s[0] == '%' {
        if i > 0 && escape_byte(s.drop_first()) is Some {
            assert(i >= 3);
            assert(s.skip(3).skip(i - 2) =~= s.skip(i + 1));
            lemma_bad_escape_after_run(s.skip(3), i - 3, run.push(escape_byte(s.drop_first())->0));
        } else if i == 0 {
            assert(s.drop_first() =~= s.skip(1));
        }
    } else {
        assert(s.drop_first().skip(i) =~= s.skip(i + 1));
        lemma_bad_escape_after_run(s.drop_first(), i - 1, seq![]);
    }
}

/// A `%` that is not followed by two hexadecimal digits, because the input
/// ends too soon or because one of them is another character, makes the
/// whole path malformed.
pub proof fn lemma_bad_escape_rejected(s: Seq<char>, i: int)
    requires
        0 <= i < s.len(),
        s[i] == '%',
        i + 2 >= s.len() || !is_hex_digit(s[i + 1]) || !is_hex_digit(s[i + 2]),
    ensures
        percent_decoded(s) is None,
{
    lemma_bad_escape_after_run(s, i, seq![]);
}

/// A run of escapes whose bytes are not well-formed UTF-8 makes the whole
/// path malformed, even where each escape on its own is well written.
pub proof fn lemma_invalid_run_rejected(p: Seq<char>, e: Seq<char>, b: Seq<u8>, t: Seq<char>)
    requires
        forall|i: int| 0 <= i < p.len() ==> p[i] != '%',
        spells(e, b),
        !valid_utf8(b),
        t.len() == 0 || t[0] != '%',
    ensures
        percent_decoded(p + e + t) is None,
{
    assert(p + e + t =~= p + (e + t));
    lemma_literal_prefix(p, e + t);
    lemma_escape_run(e, b, t, seq![]);
    assert(Seq::<u8>::empty() + b =~= b);
}

/// `e` writes the text `s`: each character of `s` stands either as itself
/// (when it is not `%`) or as escapes, in either case, of its UTF-8 bytes.
pub open spec fn is_encoding(e: Seq<char>, s: Seq<char>) -> bool
    decreases s.len(),
{
    if s.len() == 0 {
        e.len() == 0
    } else {
        let n = 3 * encode_utf8(seq![s[0]]).len();
        ||| (s[0] != '%' && e.len() > 0 && e[0] == s[0] && is_encoding(e.drop_first(), s.drop_first()))
        ||| (e.len() >= n && spells(e.take(n as int), encode_utf8(seq![s[0]])) && is_encoding(
            e.skip(n as int),
            s.drop_first(),
        ))
    }
}

proof fn lemma_spells_len(e: Seq<char>, b: Seq<u8>)
    requires
        spells(e, b),
    ensures
        e.len() == 3 * b.len(),
    decreases b.len(),
{
    if b.len() > 0 {
        lemma_spells_len(e.skip(3), b.drop_first());
    }
}

proof fn lemma_encoding_after(e: Seq<char>, s: Seq<char>, p: Seq<char>)
    requires
        is_encoding(e, s),
    ensures
        decode_after_run(e, encode_utf8(p)) == Some(p + s),
    decreases s.len(),
{
    encode_utf8_valid_utf8(p);
    encode_utf8_decode_utf8(p);
    assert(encode_utf8(Seq::<char>::empty()) =~= Seq::<u8>::empty());
    if s.len() == 0 {
        assert(p + s =~= p);
    } else {
        let c = s[0];
        let b = encode_utf8(seq![c]);
        let n = 3 * b.len();
        if c != '%' && e.len() > 0 && e[0] == c && is_encoding(e.drop_first(), s.drop_first()) {
            lemma_encoding_after(e.drop_first(), s.drop_first(), seq![]);
            assert(Seq::<char>::empty() + s.drop_first() =~= s.drop_first());
            assert(p.push(c) + s.drop_first() =~= p + s);
        } else {
            lemma_spells_len(e.take(n as int), b);
            assert(e =~= e.take(n as int) + e.skip(n as int));
            lemma_escape_run(e.take(n as int), b, e.skip(n as int), encode_utf8(p));
            lemma_encode_utf8_push(p, c);
            lemma_encoding_after(e.skip(n as int), s.drop_first(), p.push(c));
            assert(p.push(c) + s.drop_first() =~= p + s);
        }
    }
}

/// Every encoding of a text, with any mix of literal characters and escapes
/// in either case, decodes back to that text.
pub proof fn lemma_decode_any_encoding(e: Seq<char>, s: Seq<char>)
    requires
        is_encoding(e, s),
    ensures
        percent_decoded(e) == Some(s),
{
    lemma_encoding_after(e, s, seq![]);
    assert(encode_utf8(Seq::<char>::empty()) =~= Seq::<u8>::empty());
    assert(Seq::<char>::empty() + s =~= s);
}

/// Two encodings decode to the same text exactly when they encode the same
/// characters.
pub proof fn lemma_encodings_decode_alike(e1: Seq<char>, s1: Seq<char>, e2: Seq<char>, s2: Seq<char>)
    requires
        is_encoding(e1, s1),
        is_encoding(e2, s2),
    ensures
        percent_decoded(e1) == percent_decoded(e2) <==> s1 == s2,
{
    lemma_decode_any_encoding(e1, s1);
    lemma_decode_any_encoding(e2, s2);
}

/// The encoder above writes an encoding of its input.
proof fn lemma_percent_encoded_is_encoding(s: Seq<char>)
    ensures
        is_encoding(percent_encoded(s), s),
    decreases s.len(),
{
    if s.len() > 0 {
        let c = s[0];
        let rest = percent_encoded(s.drop_first());
        let e = percent_encoded(s);
        lemma_percent_encoded_is_encoding(s.drop_first());
        if is_unreserved(c) {
            assert(e.drop_first() =~= rest);
        } else {
            let b = encode_utf8(seq![c]);
            lemma_escape_bytes_spells(b);
            lemma_spells_len(escape_bytes(b), b);
            let n = 3 * b.len();
            assert(e.take(n as int) =~= escape_bytes(b));
            assert(e.skip(n as int) =~= rest);
        }
    }
}

} // verus!
