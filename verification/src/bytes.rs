//! Little-endian integers in byte buffers.
use vstd::prelude::*;

verus! {

/// The two bytes of `v`, lowest first.
pub open spec fn le16(v: u16) -> Seq<u8> {
    seq![(v % 256) as u8, (v / 256) as u8]
}

/// The four bytes of `v`, lowest first.
pub open spec fn le32(v: u32) -> Seq<u8> {
    seq![
        (v % 256) as u8,
        ((v / 256) % 256) as u8,
        ((v / 65536) % 256) as u8,
        (v / 16777216) as u8,
    ]
}

/// The unsigned number that stands for `v` in two's complement, 16 bits wide.
pub open spec fn wrap16(v: i16) -> u16 {
    if v >= 0 {
        v as u16
    } else {
        (v + 65536) as u16
    }
}

/// The unsigned number that stands for `v` in two's complement, 32 bits wide.
pub open spec fn wrap32(v: i32) -> u32 {
    if v >= 0 {
        v as u32
    } else {
        (v + 4294967296) as u32
    }
}

/// The signed number that `v` stands for in two's complement, 16 bits wide.
pub open spec fn unwrap16(v: u16) -> i16 {
    if v < 32768 {
        v as i16
    } else {
        (v - 65536) as i16
    }
}

/// The signed number that `v` stands for in two's complement, 32 bits wide.
pub open spec fn unwrap32(v: u32) -> i32 {
    if v < 2147483648 {
        v as i32
    } else {
        (v - 4294967296) as i32
    }
}

/// The unsigned 16-bit number at offset `o` of `b`.
pub open spec fn u16_at(b: Seq<u8>, o: int) -> u16 {
    (b[o] + b[o + 1] * 256) as u16
}

/// The unsigned 32-bit number at offset `o` of `b`.
pub open spec fn u32_at(b: Seq<u8>, o: int) -> u32 {
    (b[o] + b[o + 1] * 256 + b[o + 2] * 65536 + b[o + 3] * 16777216) as u32
}

/// The signed 16-bit number at offset `o` of `b`.
pub open spec fn i16_at(b: Seq<u8>, o: int) -> i16 {
    unwrap16(u16_at(b, o))
}

/// The signed 32-bit number at offset `o` of `b`.
pub open spec fn i32_at(b: Seq<u8>, o: int) -> i32 {
    unwrap32(u32_at(b, o))
}

/// Appends a signed 32-bit number.
pub fn put_i32(buf: &mut Vec<u8>, v: i32)
    ensures
        final(buf)@ == old(buf)@ + le32(wrap32(v)),
{
    if v >= 0 {
        put_u32(buf, v as u32);
    } else {
        put_u32(buf, (v as i64 + 4294967296) as u32);
    }
}

/// Appends an unsigned 32-bit number.
pub fn put_u32(buf: &mut Vec<u8>, v: u32)
    ensures
        final(buf)@ == old(buf)@ + le32(v),
{
    buf.push((v % 256) as u8);
    buf.push(((v / 256) % 256) as u8);
    buf.push(((v / 65536) % 256) as u8);
    buf.push((v / 16777216) as u8);
    assert(buf@ =~= old(buf)@ + le32(v));
}

/// Appends a signed 16-bit number.
pub fn put_i16(buf: &mut Vec<u8>, v: i16)
    ensures
        final(buf)@ == old(buf)@ + le16(wrap16(v)),
{
    if v >= 0 {
        put_u16(buf, v as u16);
    } else {
        put_u16(buf, (v as i32 + 65536) as u16);
    }
}

/// Appends an unsigned 16-bit number.
pub fn put_u16(buf: &mut Vec<u8>, v: u16)
    ensures
        final(buf)@ == old(buf)@ + le16(v),
{
    buf.push((v % 256) as u8);
    buf.push((v / 256) as u8);
    assert(buf@ =~= old(buf)@ + le16(v));
}

/// Reads a signed 32-bit number.
pub fn read_i32(b: &[u8], o: usize) -> (r: i32)
    requires
        o + 4 <= b@.len(),
    ensures
        r == i32_at(b@, o as int),
{
    let v: u32 = read_u32(b, o);
    if v < 2147483648 {
        v as i32
    } else {
        (v as i64 - 4294967296) as i32
    }
}

/// Reads an unsigned 32-bit number.
pub fn read_u32(b: &[u8], o: usize) -> (r: u32)
    requires
        o + 4 <= b@.len(),
    ensures
        r == u32_at(b@, o as int),
{
    b[o] as u32 + b[o + 1] as u32 * 256 + b[o + 2] as u32 * 65536 + b[o + 3] as u32 * 16777216
}

/// Reads a signed 16-bit number.
pub fn read_i16(b: &[u8], o: usize) -> (r: i16)
    requires
        o + 2 <= b@.len(),
    ensures
        r == i16_at(b@, o as int),
{
    let v: u16 = read_u16(b, o);
    if v < 32768 {
        v as i16
    } else {
        (v as i32 - 65536) as i16
    }
}

/// Reads an unsigned 16-bit number.
pub fn read_u16(b: &[u8], o: usize) -> (r: u16)
    requires
        o + 2 <= b@.len(),
    ensures
        r == u16_at(b@, o as int),
{
    b[o] as u16 + b[o + 1] as u16 * 256
}

/// Appends all of `more`.
pub fn put_all(buf: &mut Vec<u8>, more: &Vec<u8>)
    ensures
        final(buf)@ == old(buf)@ + more@,
{
    let mut i: usize = 0;
    while i < more.len()
        invariant
            i <= more.len(),
            buf@ == old(buf)@ + more@.take(i as int),
        decreases more.len() - i,
    {
        buf.push(more[i]);
        i = i + 1;
        assert(buf@ =~= old(buf)@ + more@.take(i as int));
    }
    assert(more@.take(i as int) =~= more@);
}

/// A 32-bit number that was written somewhere in a buffer is read back there.
pub proof fn written_u32_reads_back(b: Seq<u8>, o: int, v: u32)
    requires
        0 <= o,
        o + 4 <= b.len(),
        b.subrange(o, o + 4) == le32(v),
    ensures
        u32_at(b, o) == v,
        i32_at(b, o) == unwrap32(v),
{
    let s = b.subrange(o, o + 4);
    assert(s[0] == b[o] && s[1] == b[o + 1] && s[2] == b[o + 2] && s[3] == b[o + 3]);
}

/// A 16-bit number that was written somewhere in a buffer is read back there.
pub proof fn written_u16_reads_back(b: Seq<u8>, o: int, v: u16)
    requires
        0 <= o,
        o + 2 <= b.len(),
        b.subrange(o, o + 2) == le16(v),
    ensures
        u16_at(b, o) == v,
        i16_at(b, o) == unwrap16(v),
{
    let s = b.subrange(o, o + 2);
    assert(s[0] == b[o] && s[1] == b[o + 1]);
}

/// Two's complement loses nothing, in either direction.
pub proof fn wrapping_is_invertible(a: i16, b: i32, c: u16, d: u32)
    ensures
        unwrap16(wrap16(a)) == a,
        unwrap32(wrap32(b)) == b,
        wrap16(unwrap16(c)) == c,
        wrap32(unwrap32(d)) == d,
{
}

} // verus!
