//! Bytes as lower-case hexadecimal text.

use vstd::prelude::*;

verus! {

/// The hexadecimal digit that stands for `d`.
pub open spec fn hex_char(d: nat) -> char {
    if d < 10 {
        ('0' as nat + d) as char
    } else {
        ('a' as nat + d - 10) as char
    }
}

/// The hexadecimal text of bytes: two digits for each.
pub open spec fn hex_of(data: Seq<u8>) -> Seq<char> {
    Seq::new(
        2 * data.len(),
        |i: int|
            if i % 2 == 0 {
                hex_char(data[i / 2] as nat / 16)
            } else {
                hex_char(data[i / 2] as nat % 16)
            },
    )
}

fn digit(d: u8) -> (c: char)
    requires
        d < 16,
    ensures
        c == hex_char(d as nat),
{
    if d < 10 {
        (48u8 + d) as char
    } else {
        (87u8 + d) as char
    }
}

/// Encodes bytes as lower-case hexadecimal text.
pub fn encode(data: &[u8]) -> (s: String)
    ensures
        s@ == hex_of(data@),
{
    let mut s = String::new();
    let mut i: usize = 0;
    while i < data.len()
        invariant
            i <= data@.len(),
            s@ == hex_of(data@).take(2 * i),
        decreases data@.len() - i,
    {
        let b: u8 = data[i];
        s.push(digit(b / 16));
        s.push(digit(b % 16));
        i = i + 1;
        assert(s@ =~= hex_of(data@).take(2 * i));
    }
    assert(hex_of(data@).take(2 * data@.len() as int) =~= hex_of(data@));
    s
}

/// Encodes each byte string of a batch.
pub fn encode_batch(batch: &[Vec<u8>]) -> (lines: Vec<String>)
    ensures
        lines@.len() == batch@.len(),
        forall|i: int| 0 <= i < lines@.len() ==> (#[trigger] lines@[i])@ == hex_of(batch@[i]@),
{
    let mut lines: Vec<String> = Vec::new();
    let mut i: usize = 0;
    while i < batch.len()
        invariant
            i <= batch@.len(),
            lines@.len() == i,
            forall|k: int| 0 <= k < i ==> (#[trigger] lines@[k])@ == hex_of(batch@[k]@),
        decreases batch@.len() - i,
    {
        lines.push(encode(batch[i].as_slice()));
        i = i + 1;
    }
    lines
}

proof fn lemma_hex_at(data: Seq<u8>, i: int)
    requires
        0 <= i < data.len(),
    ensures
        hex_of(data)[2 * i] == hex_char(data[i] as nat / 16),
        hex_of(data)[2 * i + 1] == hex_char(data[i] as nat % 16),
{
}

proof fn lemma_digits_differ(x: nat, y: nat)
    requires
        x < 16,
        y < 16,
        hex_char(x) == hex_char(y),
    ensures
        x == y,
{
}

/// No two byte strings have the same text.
pub proof fn law_hex_is_injective(a: Seq<u8>, b: Seq<u8>)
    requires
        hex_of(a) == hex_of(b),
    ensures
        a == b,
{
    assert(hex_of(a).len() == 2 * a.len());
    assert(hex_of(b).len() == 2 * b.len());
    assert forall|i: int| 0 <= i < a.len() implies a[i] == b[i] by {
        lemma_hex_at(a, i);
        lemma_hex_at(b, i);
        let (x, y) = (a[i] as nat, b[i] as nat);
        lemma_digits_differ(x / 16, y / 16);
        lemma_digits_differ(x % 16, y % 16);
    }
    assert(a =~= b);
}

/// The number that a lower-case hexadecimal digit stands for.
pub open spec fn hex_value(c: char) -> int {
    if '0' <= c <= '9' {
        c as int - '0' as int
    } else if 'a' <= c <= 'f' {
        c as int - 'a' as int + 10
    } else {
        -1
    }
}

/// The text has two lower-case digits for each byte, and every byte reads back from its
/// own two, the higher one first.
pub proof fn law_hex_reads_back(data: Seq<u8>, i: int)
    requires
        0 <= i < data.len(),
    ensures
        hex_of(data).len() == 2 * data.len(),
        0 <= hex_value(hex_of(data)[2 * i]) < 16,
        0 <= hex_value(hex_of(data)[2 * i + 1]) < 16,
        hex_value(hex_of(data)[2 * i]) * 16 + hex_value(hex_of(data)[2 * i + 1]) == data[i],
{
    lemma_hex_at(data, i);
}

/// The text of bytes that follow each other is their texts, one behind the other.
pub proof fn law_hex_is_bytewise(a: Seq<u8>, b: Seq<u8>)
    ensures
        hex_of(a + b) == hex_of(a) + hex_of(b),
{
    assert(hex_of(a + b) =~= hex_of(a) + hex_of(b));
}

} // verus!
