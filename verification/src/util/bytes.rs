use vstd::prelude::*;
use vstd::string::*;
use vstd::utf8::encode_utf8;

verus! {

// Hashes, signatures and the VDF are taken over the text that Rust's
// formatting writes for block data and transactions (`Display` for numbers
// and keys, `Debug` for lists and records). The functions below state that
// text as UTF-8 bytes and append it to a buffer.

/// The UTF-8 bytes of a piece of text.
pub open spec fn text_bytes(s: &str) -> Seq<u8> {
    s.spec_bytes()
}

/// A natural number in decimal digits, without leading zeros.
pub open spec fn decimal_bytes(n: nat) -> Seq<u8>
    decreases n,
{
    if n < 10 {
        seq![(48 + n) as u8]
    } else {
        decimal_bytes(n / 10).push((48 + n % 10) as u8)
    }
}

/// An integer in decimal digits, with a leading `-` when negative.
pub open spec fn signed_decimal_bytes(x: int) -> Seq<u8> {
    if x < 0 {
        seq![45u8] + decimal_bytes((-x) as nat)
    } else {
        decimal_bytes(x as nat)
    }
}

/// A lower-case hexadecimal digit.
pub open spec fn hex_digit(d: nat) -> u8 {
    if d < 10 {
        (48 + d) as u8
    } else {
        (87 + d) as u8
    }
}

/// One byte of a quoted text as `Debug` writes it: `\0`, `\t`, `\n`, `\r`,
/// `\"` and `\\` for those characters, `\u{..}` in hexadecimal for the other
/// ASCII control characters, and any other byte as it is. (Bytes of
/// non-ASCII characters are written as they are; `Debug` escapes the few
/// non-ASCII characters that are unprintable or combining, which this does
/// not.)
pub open spec fn escaped_byte(x: u8) -> Seq<u8> {
    if x == 0 {
        seq![92u8, 48u8]
    } else if x == 9 {
        seq![92u8, 116u8]
    } else if x == 10 {
        seq![92u8, 110u8]
    } else if x == 13 {
        seq![92u8, 114u8]
    } else if x == 34 {
        seq![92u8, 34u8]
    } else if x == 92 {
        seq![92u8, 92u8]
    } else if x < 16 {
        seq![92u8, 117u8, 123u8, hex_digit(x as nat), 125u8]
    } else if x < 32 || x == 127 {
        seq![92u8, 117u8, 123u8, hex_digit(x as nat / 16), hex_digit(x as nat % 16), 125u8]
    } else {
        seq![x]
    }
}

/// Bytes, each escaped in turn.
pub open spec fn escaped_bytes(b: Seq<u8>) -> Seq<u8>
    decreases b.len(),
{
    if b.len() == 0 {
        Seq::empty()
    } else {
        escaped_bytes(b.drop_last()) + escaped_byte(b.last())
    }
}

/// A text between double quotes, escaped, as `Debug` writes a string.
pub open spec fn quoted_bytes(s: Seq<char>) -> Seq<u8> {
    seq![34u8] + escaped_bytes(encode_utf8(s)) + seq![34u8]
}

/// Items separated by a comma and a space.
pub open spec fn joined_bytes(items: Seq<Seq<u8>>) -> Seq<u8>
    decreases items.len(),
{
    if items.len() == 0 {
        Seq::empty()
    } else if items.len() == 1 {
        items[0]
    } else {
        joined_bytes(items.drop_last()) + seq![44u8, 32u8] + items.last()
    }
}

/// Items between square brackets, as `Debug` writes a list.
pub open spec fn list_bytes(items: Seq<Seq<u8>>) -> Seq<u8> {
    seq![91u8] + joined_bytes(items) + seq![93u8]
}

/// A list of bytes as `Debug` writes it, such as `[0, 255]`.
pub open spec fn byte_list_bytes(b: Seq<u8>) -> Seq<u8> {
    list_bytes(b.map_values(|x: u8| decimal_bytes(x as nat)))
}

/// A list of signed numbers as `Debug` writes it, such as `[12, -3]`.
pub open spec fn i32_list_bytes(v: Seq<i32>) -> Seq<u8> {
    list_bytes(v.map_values(|x: i32| signed_decimal_bytes(x as int)))
}

/// One more item extends the joined items by a separator and the item.
pub proof fn lemma_joined_push(items: Seq<Seq<u8>>, x: Seq<u8>)
    ensures
        joined_bytes(items.push(x)) == if items.len() == 0 {
            x
        } else {
            joined_bytes(items) + seq![44u8, 32u8] + x
        },
{
    assert(items.push(x).drop_last() =~= items);
    if items.len() == 0 {
        assert(items.push(x)[0] == x);
    }
}

/// Appends bytes as they are.
pub fn put_raw(buf: &mut Vec<u8>, data: &[u8])
    ensures
        final(buf)@ == old(buf)@ + data@,
{
    let mut i: usize = 0;
    while i < data.len()
        invariant
            i <= data@.len(),
            buf@ == old(buf)@ + data@.take(i as int),
        decreases data@.len() - i,
    {
        buf.push(data[i]);
        i = i + 1;
        assert(buf@ =~= old(buf)@ + data@.take(i as int));
    }
    assert(data@.take(i as int) =~= data@);
}

/// Appends the UTF-8 bytes of a piece of text.
pub fn put_str(buf: &mut Vec<u8>, s: &str)
    ensures
        final(buf)@ == old(buf)@ + text_bytes(s),
{
    put_raw(buf, s.as_bytes());
}

/// Appends a natural number in decimal.
pub fn put_decimal(buf: &mut Vec<u8>, n: u64)
    ensures
        final(buf)@ == old(buf)@ + decimal_bytes(n as nat),
    decreases n,
{
    if n >= 10 {
        put_decimal(buf, n / 10);
    }
    let d: u8 = (n % 10) as u8;
    buf.push(48u8 + d);
    proof {
        if n >= 10 {
            assert(decimal_bytes(n as nat) == decimal_bytes((n / 10) as nat).push((48 + n % 10) as u8));
        }
    }
    assert(final(buf)@ =~= old(buf)@ + decimal_bytes(n as nat));
}

/// Appends a signed number in decimal.
pub fn put_signed_decimal(buf: &mut Vec<u8>, x: i64)
    ensures
        final(buf)@ == old(buf)@ + signed_decimal_bytes(x as int),
{
    if x < 0 {
        buf.push(45u8);
        let m: u64 = (-(x as i128)) as u64;
        put_decimal(buf, m);
        assert(final(buf)@ =~= old(buf)@ + signed_decimal_bytes(x as int));
    } else {
        put_decimal(buf, x as u64);
    }
}

/// Appends one byte of a quoted text, escaped.
pub fn put_escaped_byte(buf: &mut Vec<u8>, x: u8)
    ensures
        final(buf)@ == old(buf)@ + escaped_byte(x),
{
    let ghost start = buf@;
    if x == 0 || x == 9 || x == 10 || x == 13 || x == 34 || x == 92 {
        let c: u8 = if x == 0 {
            48u8
        } else if x == 9 {
            116u8
        } else if x == 10 {
            110u8
        } else if x == 13 {
            114u8
        } else {
            x
        };
        buf.push(92u8);
        buf.push(c);
    } else if x < 32 || x == 127 {
        buf.push(92u8);
        buf.push(117u8);
        buf.push(123u8);
        if x >= 16 {
            let hi: u8 = x / 16;
            buf.push(if hi < 10 { 48u8 + hi } else { 87u8 + hi });
        }
        let lo: u8 = x % 16;
        buf.push(if lo < 10 { 48u8 + lo } else { 87u8 + lo });
        buf.push(125u8);
    } else {
        buf.push(x);
    }
    assert(buf@ =~= start + escaped_byte(x));
}

/// Appends a text between double quotes, escaped.
pub fn put_quoted(buf: &mut Vec<u8>, s: &String)
    ensures
        final(buf)@ == old(buf)@ + quoted_bytes(s@),
{
    let b = s.as_str().as_bytes();
    buf.push(34u8);
    let ghost start = buf@;
    let mut i: usize = 0;
    while i < b.len()
        invariant
            i <= b@.len(),
            buf@ == start + escaped_bytes(b@.take(i as int)),
        decreases b@.len() - i,
    {
        put_escaped_byte(buf, b[i]);
        assert(b@.take(i + 1).drop_last() =~= b@.take(i as int));
        assert(buf@ =~= start + escaped_bytes(b@.take(i + 1)));
        i = i + 1;
    }
    assert(b@.take(i as int) =~= b@);
    buf.push(34u8);
    assert(final(buf)@ =~= old(buf)@ + quoted_bytes(s@));
}

/// Appends a list of bytes as `Debug` writes it.
pub fn put_byte_list(buf: &mut Vec<u8>, b: &[u8])
    ensures
        final(buf)@ == old(buf)@ + byte_list_bytes(b@),
{
    let ghost items = b@.map_values(|x: u8| decimal_bytes(x as nat));
    buf.push(91u8);
    let ghost start = buf@;
    let mut i: usize = 0;
    while i < b.len()
        invariant
            i <= b@.len(),
            items == b@.map_values(|x: u8| decimal_bytes(x as nat)),
            buf@ == start + joined_bytes(items.take(i as int)),
        decreases b@.len() - i,
    {
        proof {
            lemma_joined_push(items.take(i as int), items[i as int]);
            assert(items.take(i + 1) =~= items.take(i as int).push(items[i as int]));
        }
        if i > 0 {
            buf.push(44u8);
            buf.push(32u8);
        }
        put_decimal(buf, b[i] as u64);
        assert(buf@ =~= start + joined_bytes(items.take(i + 1)));
        i = i + 1;
    }
    assert(items.take(i as int) =~= items);
    buf.push(93u8);
    assert(final(buf)@ =~= old(buf)@ + byte_list_bytes(b@));
}

/// Appends a list of signed numbers as `Debug` writes it.
pub fn put_i32_list(buf: &mut Vec<u8>, v: &[i32])
    ensures
        final(buf)@ == old(buf)@ + i32_list_bytes(v@),
{
    let ghost items = v@.map_values(|x: i32| signed_decimal_bytes(x as int));
    buf.push(91u8);
    let ghost start = buf@;
    let mut i: usize = 0;
    while i < v.len()
        invariant
            i <= v@.len(),
            items == v@.map_values(|x: i32| signed_decimal_bytes(x as int)),
            buf@ == start + joined_bytes(items.take(i as int)),
        decreases v@.len() - i,
    {
        proof {
            lemma_joined_push(items.take(i as int), items[i as int]);
            assert(items.take(i + 1) =~= items.take(i as int).push(items[i as int]));
        }
        if i > 0 {
            buf.push(44u8);
            buf.push(32u8);
        }
        put_signed_decimal(buf, v[i] as i64);
        assert(buf@ =~= start + joined_bytes(items.take(i + 1)));
        i = i + 1;
    }
    assert(items.take(i as int) =~= items);
    buf.push(93u8);
    assert(final(buf)@ =~= old(buf)@ + i32_list_bytes(v@));
}

} // verus!
