//! Integers and byte fields as they stand on the wire.
//!
//! Every field has a spec function for its bytes, a spec parser that splits a
//! sequence into the field's value and the rest, and the two functions that
//! write and read it. A parser fails with the [`WireError`] that the reader
//! returns.

use crate::wire_error::{Part, Subject, TextField, WireError};
use vstd::prelude::*;
use vstd::slice::slice_subrange;
use vstd::utf8::{decode_utf8, decode_utf8_encode_utf8, encode_utf8, encode_utf8_decode_utf8, encode_utf8_valid_utf8, valid_utf8};

verus! {

/// A value and the bytes behind it, or why there is none.
pub type Parsed<A> = Result<(A, Seq<u8>), WireError>;

/// What a reader returned, with the rest as a sequence.
pub open spec fn at<A>(r: Result<(A, &[u8]), WireError>) -> Parsed<A> {
    match r {
        Ok((value, rest)) => Ok((value, rest@)),
        Err(e) => Err(e),
    }
}

/// The value of a parse, where nothing is left over behind it.
pub open spec fn whole<A>(p: Parsed<A>, what: Subject) -> Result<A, WireError> {
    match p {
        Err(e) => Err(e),
        Ok((value, rest)) => if rest.len() > 0 {
            Err(WireError::TrailingBytes { what, count: rest.len() as u64 })
        } else {
            Ok(value)
        },
    }
}

/// `256` to the power of `width`.
pub open spec fn byte_span(width: nat) -> nat
    decreases width,
{
    if width == 0 {
        1
    } else {
        256 * byte_span((width - 1) as nat)
    }
}

/// The `width` bytes of `v`, lowest first.
pub open spec fn le_bytes(v: nat, width: nat) -> Seq<u8>
    decreases width,
{
    if width == 0 {
        seq![]
    } else {
        seq![(v % 256) as u8] + le_bytes(v / 256, (width - 1) as nat)
    }
}

/// The integer whose bytes are `s`, lowest first.
pub open spec fn le_value(s: Seq<u8>) -> nat
    decreases s.len(),
{
    if s.len() == 0 {
        0
    } else {
        s[0] as nat + 256 * le_value(s.skip(1))
    }
}

pub proof fn lemma_le_bytes(v: nat, width: nat)
    requires
        v < byte_span(width),
    ensures
        le_bytes(v, width).len() == width,
        le_value(le_bytes(v, width)) == v,
    decreases width,
{
    if width > 0 {
        lemma_le_bytes(v / 256, (width - 1) as nat);
        assert(le_bytes(v, width).skip(1) =~= le_bytes(v / 256, (width - 1) as nat));
    }
}

pub proof fn lemma_le_len(v: nat, width: nat)
    ensures
        le_bytes(v, width).len() == width,
    decreases width,
{
    if width > 0 {
        lemma_le_len(v / 256, (width - 1) as nat);
    }
}

pub proof fn lemma_le_value(s: Seq<u8>)
    ensures
        le_value(s) < byte_span(s.len()),
        le_bytes(le_value(s), s.len()) == s,
    decreases s.len(),
{
    if s.len() > 0 {
        lemma_le_value(s.skip(1));
        let low = s[0] as nat;
        let high = le_value(s.skip(1));
        assert((low + 256 * high) % 256 == low);
        assert((low + 256 * high) / 256 == high);
        assert(le_bytes(le_value(s), s.len()) =~= s);
    } else {
        assert(le_bytes(0, 0) =~= s);
    }
}

proof fn lemma_spans()
    ensures
        byte_span(1) == 0x100,
        byte_span(2) == 0x1_0000,
        byte_span(4) == 0x1_0000_0000,
        byte_span(8) == 0x1_0000_0000_0000_0000,
{
    reveal_with_fuel(byte_span, 9);
}

pub broadcast proof fn lemma_append_associates<A>(a: Seq<A>, b: Seq<A>, c: Seq<A>)
    ensures
        #[trigger] ((a + b) + c) == a + (b + c),
{
    assert(((a + b) + c) =~= a + (b + c));
}

/// Splitting at the end of the first part of two joined ones gives both back.
pub broadcast proof fn lemma_split_joined(a: Seq<u8>, b: Seq<u8>)
    ensures
        (#[trigger] (a + b)).take(a.len() as int) == a,
        (a + b).skip(a.len() as int) == b,
        (a + b).len() == a.len() + b.len(),
{
    assert((a + b).take(a.len() as int) =~= a);
    assert((a + b).skip(a.len() as int) =~= b);
}

// ---- one byte ----

pub open spec fn parse_u8(s: Seq<u8>) -> Parsed<u8> {
    if s.len() < 1 {
        Err(WireError::Truncated { part: Part::U8, left: 0 })
    } else {
        Ok((s[0], s.skip(1)))
    }
}

pub fn put_u8(out: &mut Vec<u8>, v: u8)
    ensures
        final(out)@ == old(out)@ + seq![v],
{
    out.push(v);
}

pub fn take_u8(buf: &[u8]) -> (r: Result<(u8, &[u8]), WireError>)
    ensures
        at(r) == parse_u8(buf@),
{
    if buf.len() < 1 {
        Err(WireError::Truncated { part: Part::U8, left: 0 })
    } else {
        Ok((buf[0], rest_of(buf, 1)))
    }
}

pub broadcast proof fn lemma_parse_u8(v: u8, rest: Seq<u8>)
    ensures
        #[trigger] parse_u8(seq![v] + rest) == Ok::<(u8, Seq<u8>), WireError>((v, rest)),
{
    assert((seq![v] + rest).skip(1) =~= rest);
}

/// What was read is what stood there.
pub proof fn lemma_read_u8(s: Seq<u8>)
    ensures
        parse_u8(s) matches Ok((v, rest)) ==> s == seq![v] + rest,
{
    if s.len() > 0 {
        assert(s =~= seq![s[0]] + s.skip(1));
    }
}

// ---- little-endian integers ----

/// The first `width` bytes as an integer.
pub open spec fn parse_le(s: Seq<u8>, width: nat, part: Part) -> Parsed<nat> {
    if s.len() < width {
        Err(WireError::Truncated { part, left: s.len() as u64 })
    } else {
        Ok((le_value(s.take(width as int)), s.skip(width as int)))
    }
}

pub open spec fn le16(v: u16) -> Seq<u8> {
    le_bytes(v as nat, 2)
}

pub open spec fn le32(v: u32) -> Seq<u8> {
    le_bytes(v as nat, 4)
}

pub open spec fn le64(v: u64) -> Seq<u8> {
    le_bytes(v as nat, 8)
}

pub open spec fn parse_u16(s: Seq<u8>) -> Parsed<u16> {
    match parse_le(s, 2, Part::U16) {
        Ok((v, rest)) => Ok((v as u16, rest)),
        Err(e) => Err(e),
    }
}

pub open spec fn parse_u32(s: Seq<u8>) -> Parsed<u32> {
    match parse_le(s, 4, Part::U32) {
        Ok((v, rest)) => Ok((v as u32, rest)),
        Err(e) => Err(e),
    }
}

pub open spec fn parse_u64(s: Seq<u8>) -> Parsed<u64> {
    match parse_le(s, 8, Part::U64) {
        Ok((v, rest)) => Ok((v as u64, rest)),
        Err(e) => Err(e),
    }
}

fn put_le(out: &mut Vec<u8>, v: u64, width: usize)
    ensures
        final(out)@ == old(out)@ + le_bytes(v as nat, width as nat),
{
    broadcast use lemma_append_associates;

    let mut rest: u64 = v;
    let mut i: usize = 0;
    while i < width
        invariant
            i <= width,
            out@ + le_bytes(rest as nat, (width - i) as nat) == old(out)@ + le_bytes(
                v as nat,
                width as nat,
            ),
        decreases width - i,
    {
        out.push((rest % 256) as u8);
        rest = rest / 256;
        i = i + 1;
    }
}

/// The integer in the first `width` bytes of `buf`.
fn read_le(buf: &[u8], width: usize) -> (v: u64)
    requires
        width <= 8,
        width <= buf.len(),
    ensures
        v == le_value(buf@.take(width as int)),
        v < byte_span(width as nat),
{
    let mut v: u64 = 0;
    let mut i: usize = width;
    assert(buf@.subrange(width as int, width as int) =~= seq![]);
    while i > 0
        invariant
            i <= width <= 8,
            width <= buf.len(),
            v == le_value(buf@.subrange(i as int, width as int)),
        decreases i,
    {
        i = i - 1;
        let ghost tail = buf@.subrange(i as int, width as int);
        assert(tail.skip(1) =~= buf@.subrange(i as int + 1, width as int));
        proof {
            lemma_le_value(tail);
            lemma_spans();
            lemma_span_monotonic(tail.len(), 8);
        }
        v = buf[i] as u64 + 256 * v;
    }
    assert(buf@.subrange(0, width as int) =~= buf@.take(width as int));
    proof {
        lemma_le_value(buf@.take(width as int));
    }
    v
}

proof fn lemma_span_monotonic(a: nat, b: nat)
    requires
        a <= b,
    ensures
        1 <= byte_span(a) <= byte_span(b),
    decreases b,
{
    if a < b {
        lemma_span_monotonic(a, (b - 1) as nat);
    } else if a > 0 {
        lemma_span_monotonic((a - 1) as nat, (a - 1) as nat);
    }
}

/// What is behind the first `n` bytes.
pub fn rest_of(buf: &[u8], n: usize) -> (rest: &[u8])
    requires
        n <= buf.len(),
    ensures
        rest@ == buf@.skip(n as int),
{
    let rest = slice_subrange(buf, n, buf.len());
    assert(rest@ =~= buf@.skip(n as int));
    rest
}

pub fn put_u16(out: &mut Vec<u8>, v: u16)
    ensures
        final(out)@ == old(out)@ + le16(v),
{
    put_le(out, v as u64, 2);
}

pub fn put_u32(out: &mut Vec<u8>, v: u32)
    ensures
        final(out)@ == old(out)@ + le32(v),
{
    put_le(out, v as u64, 4);
}

pub fn put_u64(out: &mut Vec<u8>, v: u64)
    ensures
        final(out)@ == old(out)@ + le64(v),
{
    put_le(out, v, 8);
}

pub fn take_u16(buf: &[u8]) -> (r: Result<(u16, &[u8]), WireError>)
    ensures
        at(r) == parse_u16(buf@),
{
    if buf.len() < 2 {
        return Err(WireError::Truncated { part: Part::U16, left: buf.len() as u64 });
    }
    proof {
        lemma_spans();
    }
    Ok((read_le(buf, 2) as u16, rest_of(buf, 2)))
}

pub fn take_u32(buf: &[u8]) -> (r: Result<(u32, &[u8]), WireError>)
    ensures
        at(r) == parse_u32(buf@),
{
    if buf.len() < 4 {
        return Err(WireError::Truncated { part: Part::U32, left: buf.len() as u64 });
    }
    proof {
        lemma_spans();
    }
    Ok((read_le(buf, 4) as u32, rest_of(buf, 4)))
}

pub fn take_u64(buf: &[u8]) -> (r: Result<(u64, &[u8]), WireError>)
    ensures
        at(r) == parse_u64(buf@),
{
    if buf.len() < 8 {
        return Err(WireError::Truncated { part: Part::U64, left: buf.len() as u64 });
    }
    Ok((read_le(buf, 8), rest_of(buf, 8)))
}

pub broadcast proof fn lemma_parse_u16(v: u16, rest: Seq<u8>)
    ensures
        #[trigger] parse_u16(le16(v) + rest) == Ok::<(u16, Seq<u8>), WireError>((v, rest)),
{
    broadcast use lemma_split_joined;

    lemma_spans();
    lemma_le_bytes(v as nat, 2);
}

pub broadcast proof fn lemma_parse_u32(v: u32, rest: Seq<u8>)
    ensures
        #[trigger] parse_u32(le32(v) + rest) == Ok::<(u32, Seq<u8>), WireError>((v, rest)),
{
    broadcast use lemma_split_joined;

    lemma_spans();
    lemma_le_bytes(v as nat, 4);
}

pub broadcast proof fn lemma_parse_u64(v: u64, rest: Seq<u8>)
    ensures
        #[trigger] parse_u64(le64(v) + rest) == Ok::<(u64, Seq<u8>), WireError>((v, rest)),
{
    broadcast use lemma_split_joined;

    lemma_spans();
    lemma_le_bytes(v as nat, 8);
}

/// What was read is what stood there.
pub proof fn lemma_read_integers(s: Seq<u8>)
    ensures
        parse_u16(s) matches Ok((v, rest)) ==> s == le16(v) + rest,
        parse_u32(s) matches Ok((v, rest)) ==> s == le32(v) + rest,
        parse_u64(s) matches Ok((v, rest)) ==> s == le64(v) + rest,
{
    lemma_spans();
    lemma_read_le(s, 2, Part::U16);
    lemma_read_le(s, 4, Part::U32);
    lemma_read_le(s, 8, Part::U64);
}

proof fn lemma_read_le(s: Seq<u8>, width: nat, part: Part)
    ensures
        parse_le(s, width, part) matches Ok((v, rest)) ==> v < byte_span(width) && s == le_bytes(v, width)
            + rest,
{
    if s.len() >= width {
        lemma_le_value(s.take(width as int));
        assert(s =~= s.take(width as int) + s.skip(width as int));
    }
}

// ---- byte strings ----

/// The length that a prefix of 32 bits gives a field: that of the field, where
/// it fits.
pub open spec fn prefix(len: nat) -> u32 {
    #[verifier::truncate]
    (len as u32)
}

pub open spec fn bytes_field(b: Seq<u8>) -> Seq<u8> {
    le32(prefix(b.len())) + b
}

/// A length prefix and that many bytes.
pub open spec fn parse_bytes(s: Seq<u8>) -> Parsed<Seq<u8>> {
    match parse_u32(s) {
        Err(_) => Err(WireError::Truncated { part: Part::Prefix, left: s.len() as u64 }),
        Ok((len, rest)) => if rest.len() < len {
            Err(
                WireError::Truncated {
                    part: Part::Bytes { expected: len },
                    left: rest.len() as u64,
                },
            )
        } else {
            Ok((rest.take(len as int), rest.skip(len as int)))
        },
    }
}

pub fn put_raw(out: &mut Vec<u8>, b: &[u8])
    ensures
        final(out)@ == old(out)@ + b@,
{
    out.extend_from_slice(b);
    assert(out@ =~= old(out)@ + b@);
}

pub fn put_bytes(out: &mut Vec<u8>, b: &[u8])
    ensures
        final(out)@ == old(out)@ + bytes_field(b@),
{
    broadcast use lemma_append_associates;

    put_u32(
        out,
        #[verifier::truncate]
        (b.len() as u32),
    );
    put_raw(out, b);
}

/// A copy of the bytes of a slice.
pub fn copy_of(b: &[u8]) -> (v: Vec<u8>)
    ensures
        v@ == b@,
{
    let mut v: Vec<u8> = Vec::new();
    put_raw(&mut v, b);
    assert(v@ =~= b@);
    v
}

/// What a reader of bytes returned, as sequences.
pub open spec fn bytes_at(r: Result<(Vec<u8>, &[u8]), WireError>) -> Parsed<Seq<u8>> {
    match r {
        Ok((b, rest)) => Ok((b@, rest@)),
        Err(e) => Err(e),
    }
}

pub fn take_bytes(buf: &[u8]) -> (r: Result<(Vec<u8>, &[u8]), WireError>)
    ensures
        bytes_at(r) == parse_bytes(buf@),
{
    match take_u32(buf) {
        Err(_) => Err(WireError::Truncated { part: Part::Prefix, left: buf.len() as u64 }),
        Ok((len, rest)) => {
            if (rest.len() as u64) < len as u64 {
                return Err(
                    WireError::Truncated {
                        part: Part::Bytes { expected: len },
                        left: rest.len() as u64,
                    },
                );
            }
            let n: usize = len as usize;
            let field = slice_subrange(rest, 0, n);
            assert(field@ =~= rest@.take(n as int));
            Ok((copy_of(field), rest_of(rest, n)))
        },
    }
}

pub broadcast proof fn lemma_parse_bytes(b: Seq<u8>, rest: Seq<u8>)
    requires
        b.len() <= u32::MAX,
    ensures
        #[trigger] parse_bytes(bytes_field(b) + rest) == Ok::<(Seq<u8>, Seq<u8>), WireError>(
            (b, rest),
        ),
{
    broadcast use {lemma_append_associates, lemma_split_joined, lemma_parse_u32};

}

/// What was read is what stood there.
pub proof fn lemma_read_bytes(s: Seq<u8>)
    ensures
        parse_bytes(s) matches Ok((b, rest)) ==> s == bytes_field(b) + rest && b.len() <= u32::MAX,
{
    broadcast use lemma_append_associates;

    lemma_read_integers(s);
    if let Ok((len, rest)) = parse_u32(s) {
        if rest.len() >= len {
            assert(rest =~= rest.take(len as int) + rest.skip(len as int));
        }
    }
}

// ---- text ----

/// The characters that bytes spell in UTF-8.
pub open spec fn text_of(b: Seq<u8>) -> Result<Seq<char>, WireError> {
    if valid_utf8(b) {
        Ok(decode_utf8(b))
    } else {
        Err(WireError::InvalidUtf8 { what: TextField::Plain })
    }
}

pub open spec fn text_field(t: Seq<char>) -> Seq<u8> {
    bytes_field(encode_utf8(t))
}

pub open spec fn parse_text(s: Seq<u8>) -> Parsed<Seq<char>> {
    match parse_bytes(s) {
        Err(e) => Err(e),
        Ok((b, rest)) => match text_of(b) {
            Err(e) => Err(e),
            Ok(t) => Ok((t, rest)),
        },
    }
}

/// Decodes UTF-8 with `String::from_utf8`. Claimed of it: it succeeds exactly
/// on valid UTF-8, and then returns the characters that the bytes spell.
#[verifier::external_body]
fn string_from_utf8(b: Vec<u8>) -> (r: Option<String>)
    ensures
        r is Some <==> valid_utf8(b@),
        r matches Some(s) ==> s@ == decode_utf8(b@),
{
    String::from_utf8(b).ok()
}

/// A text, viewed.
pub open spec fn text_view(r: Result<String, WireError>) -> Result<Seq<char>, WireError> {
    match r {
        Ok(s) => Ok(s@),
        Err(e) => Err(e),
    }
}

pub fn text_from(b: Vec<u8>) -> (r: Result<String, WireError>)
    ensures
        text_view(r) == text_of(b@),
{
    match string_from_utf8(b) {
        Some(s) => Ok(s),
        None => Err(WireError::InvalidUtf8 { what: TextField::Plain }),
    }
}

/// What a reader of text returned, viewed.
pub open spec fn text_at(r: Result<(String, &[u8]), WireError>) -> Parsed<Seq<char>> {
    match r {
        Ok((t, rest)) => Ok((t@, rest@)),
        Err(e) => Err(e),
    }
}

pub fn put_text(out: &mut Vec<u8>, t: &str)
    ensures
        final(out)@ == old(out)@ + text_field(t@),
{
    put_bytes(out, t.as_bytes());
}

pub fn put_raw_text(out: &mut Vec<u8>, t: &str)
    ensures
        final(out)@ == old(out)@ + encode_utf8(t@),
{
    put_raw(out, t.as_bytes());
}

pub fn take_text(buf: &[u8]) -> (r: Result<(String, &[u8]), WireError>)
    ensures
        text_at(r) == parse_text(buf@),
{
    match take_bytes(buf) {
        Err(e) => Err(e),
        Ok((b, rest)) => match text_from(b) {
            Err(e) => Err(e),
            Ok(t) => Ok((t, rest)),
        },
    }
}

pub broadcast proof fn lemma_text_of(t: Seq<char>)
    ensures
        #[trigger] text_of(encode_utf8(t)) == Ok::<Seq<char>, WireError>(t),
{
    encode_utf8_valid_utf8(t);
    encode_utf8_decode_utf8(t);
}

pub broadcast proof fn lemma_parse_text(t: Seq<char>, rest: Seq<u8>)
    requires
        encode_utf8(t).len() <= u32::MAX,
    ensures
        #[trigger] parse_text(text_field(t) + rest) == Ok::<(Seq<char>, Seq<u8>), WireError>(
            (t, rest),
        ),
{
    broadcast use {lemma_parse_bytes, lemma_text_of};

}

/// What was read is what stood there.
pub proof fn lemma_read_text(s: Seq<u8>)
    ensures
        parse_text(s) matches Ok((t, rest)) ==> s == text_field(t) + rest && encode_utf8(t).len()
            <= u32::MAX,
{
    lemma_read_bytes(s);
    if let Ok((b, _)) = parse_bytes(s) {
        if valid_utf8(b) {
            decode_utf8_encode_utf8(b);
        }
    }
}

} // verus!
