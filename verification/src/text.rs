//! Numbers and ids spelled out for messages.

use crate::datum::DatumId;
use vstd::prelude::*;
use vstd::string::*;

verus! {

pub open spec fn digit(d: nat) -> char {
    if d == 0 {
        '0'
    } else if d == 1 {
        '1'
    } else if d == 2 {
        '2'
    } else if d == 3 {
        '3'
    } else if d == 4 {
        '4'
    } else if d == 5 {
        '5'
    } else if d == 6 {
        '6'
    } else if d == 7 {
        '7'
    } else if d == 8 {
        '8'
    } else if d == 9 {
        '9'
    } else if d == 10 {
        'a'
    } else if d == 11 {
        'b'
    } else if d == 12 {
        'c'
    } else if d == 13 {
        'd'
    } else if d == 14 {
        'e'
    } else {
        'f'
    }
}

fn digit_text(d: u8) -> (s: &'static str)
    requires
        d < 16,
    ensures
        s@ == seq![digit(d as nat)],
{
    proof {
        reveal_strlit("0");
        reveal_strlit("1");
        reveal_strlit("2");
        reveal_strlit("3");
        reveal_strlit("4");
        reveal_strlit("5");
        reveal_strlit("6");
        reveal_strlit("7");
        reveal_strlit("8");
        reveal_strlit("9");
        reveal_strlit("a");
        reveal_strlit("b");
        reveal_strlit("c");
        reveal_strlit("d");
        reveal_strlit("e");
        reveal_strlit("f");
    }
    let s = match d {
        0 => "0",
        1 => "1",
        2 => "2",
        3 => "3",
        4 => "4",
        5 => "5",
        6 => "6",
        7 => "7",
        8 => "8",
        9 => "9",
        10 => "a",
        11 => "b",
        12 => "c",
        13 => "d",
        14 => "e",
        _ => "f",
    };
    assert(s@ =~= seq![digit(d as nat)]);
    s
}

/// A number in decimal digits.
pub open spec fn decimal(n: nat) -> Seq<char>
    decreases n,
{
    if n < 10 {
        seq![digit(n)]
    } else {
        decimal(n / 10) + seq![digit(n % 10)]
    }
}

/// Appends a number in decimal digits.
pub fn push_decimal(s: &mut String, n: u128)
    ensures
        final(s)@ == old(s)@ + decimal(n as nat),
    decreases n,
{
    if n >= 10 {
        push_decimal(s, n / 10);
        s.append(digit_text((n % 10) as u8));
        assert(s@ =~= old(s)@ + decimal(n as nat));
    } else {
        s.append(digit_text(n as u8));
    }
}

/// Bytes in hexadecimal digits.
pub open spec fn hex(b: Seq<u8>) -> Seq<char>
    decreases b.len(),
{
    if b.len() == 0 {
        seq![]
    } else {
        hex(b.drop_last()) + seq![digit((b.last() / 16) as nat), digit((b.last() % 16) as nat)]
    }
}

/// Appends bytes in hexadecimal digits.
pub fn push_hex(s: &mut String, b: &[u8], from: usize, to: usize)
    requires
        from <= to <= b.len(),
    ensures
        final(s)@ == old(s)@ + hex(b@.subrange(from as int, to as int)),
{
    let mut i: usize = from;
    assert(hex(b@.subrange(from as int, from as int)) =~= seq![]);
    while i < to
        invariant
            from <= i <= to <= b.len(),
            s@ == old(s)@ + hex(b@.subrange(from as int, i as int)),
        decreases to - i,
    {
        let ghost part = b@.subrange(from as int, i + 1);
        assert(part.drop_last() =~= b@.subrange(from as int, i as int));
        s.append(digit_text(b[i] / 16));
        s.append(digit_text(b[i] % 16));
        assert(s@ =~= old(s)@ + hex(part));
        i = i + 1;
    }
}

/// An id in the usual form of a UUID.
pub open spec fn id_text(id: DatumId) -> Seq<char> {
    let b = id.bytes();
    hex(b.subrange(0, 4)) + "-"@ + hex(b.subrange(4, 6)) + "-"@ + hex(b.subrange(6, 8)) + "-"@
        + hex(b.subrange(8, 10)) + "-"@ + hex(b.subrange(10, 16))
}

/// Appends an id in the usual form of a UUID.
pub fn push_id(s: &mut String, id: DatumId)
    ensures
        final(s)@ == old(s)@ + id_text(id),
{
    let bytes: [u8; 16] = id.as_bytes();
    let b = vstd::array::array_as_slice(&bytes);
    push_hex(s, b, 0, 4);
    s.append("-");
    push_hex(s, b, 4, 6);
    s.append("-");
    push_hex(s, b, 6, 8);
    s.append("-");
    push_hex(s, b, 8, 10);
    s.append("-");
    push_hex(s, b, 10, 16);
    assert(s@ =~= old(s)@ + id_text(id));
}

/// A text as it is shown between quotes, with what cannot stand there escaped:
/// what `str`'s `Debug` gives.
pub uninterp spec fn quoted(text: Seq<char>) -> Seq<char>;

/// A text between quotes, by `str`'s `Debug`. What it escapes is not stated: the
/// result is only said to depend on the text alone.
#[verifier::external_body]
pub(crate) fn quote(text: &str) -> (s: String)
    ensures
        s@ == quoted(text@),
{
    format!("{text:?}")
}

/// A copy of a text.
pub fn copy_text(t: &str) -> (s: String)
    ensures
        s@ == t@,
{
    t.to_owned()
}

/// Two texts joined.
pub fn joined_text(a: &str, b: &str) -> (s: String)
    ensures
        s@ == a@ + b@,
{
    let mut s = copy_text(a);
    s.append(b);
    s
}

/// Whether a text begins with another.
pub fn begins_with(text: &str, prefix: &str) -> (b: bool)
    ensures
        b == prefix@.is_prefix_of(text@),
{
    let n: usize = prefix.unicode_len();
    if text.unicode_len() < n {
        return false;
    }
    let mut i: usize = 0;
    while i < n
        invariant
            i <= n <= text@.len(),
            n == prefix@.len(),
            forall|j: int| 0 <= j < i ==> prefix@[j] == text@[j],
        decreases n - i,
    {
        if text.get_char(i) != prefix.get_char(i) {
            assert(text@.subrange(0, n as int)[i as int] != prefix@[i as int]);
            return false;
        }
        i = i + 1;
    }
    assert(prefix@ =~= text@.subrange(0, n as int));
    true
}

} // verus!
