use vstd::prelude::*;
use byteorder::{BigEndian, ByteOrder};
use crate::error::Error;

verus! {

/// Largest data length that fits in the single header byte.
pub const SMALL_MAX: u8 = 120;

/// Header tag of a data value whose length follows in one byte.
pub const TAG_U8: u8 = 121;

/// Header tag of a data value whose length follows in two big-endian bytes.
pub const TAG_U16: u8 = 122;

/// Header tag of a data value whose length follows in four big-endian bytes.
pub const TAG_U32: u8 = 123;

/// Bit that marks an instruction header; the low seven bits hold the name length.
pub const INSTRUCTION_BIT: u8 = 0x80;

/// Whether an encoded item is an instruction reference or a data value.
#[derive(Debug, Clone, Copy, PartialEq, Eq, Structural)]
pub enum Kind {
    Instruction,
    Data,
}

/// What a header tells about the item it starts.
#[derive(Debug, Clone, Copy, PartialEq, Eq)]
pub struct Header {
    pub kind: Kind,
    pub payload_len: usize,
    pub header_len: usize,
}

impl View for Header {
    type V = (Kind, nat, nat);

    open spec fn view(&self) -> (Kind, nat, nat) {
        (self.kind, self.payload_len as nat, self.header_len as nat)
    }
}

// ---------------------------------------------------------------------------
// Big-endian integers

pub open spec fn be16(n: u16) -> Seq<u8> {
    seq![(n >> 8u16) as u8, n as u8]
}

pub open spec fn be32(n: u32) -> Seq<u8> {
    seq![(n >> 24u32) as u8, (n >> 16u32) as u8, (n >> 8u32) as u8, n as u8]
}

pub open spec fn u16_of_be(s: Seq<u8>) -> u16 {
    ((s[0] as u16) << 8u16) | (s[1] as u16)
}

pub open spec fn u32_of_be(s: Seq<u8>) -> u32 {
    ((s[0] as u32) << 24u32) | ((s[1] as u32) << 16u32) | ((s[2] as u32) << 8u32) | (s[3] as u32)
}

/// Relies on byteorder's `BigEndian::read_u16`: the first two bytes, most
/// significant first.
#[verifier::external_body]
pub(crate) fn read_be_u16(b: &[u8]) -> (r: u16)
    requires
        b@.len() >= 2,
    ensures
        r == u16_of_be(b@),
{
    BigEndian::read_u16(b)
}

/// Relies on byteorder's `BigEndian::read_u32`: the first four bytes, most
/// significant first.
#[verifier::external_body]
pub(crate) fn read_be_u32(b: &[u8]) -> (r: u32)
    requires
        b@.len() >= 4,
    ensures
        r == u32_of_be(b@),
{
    BigEndian::read_u32(b)
}

/// Relies on byteorder's `BigEndian::write_u16`: two bytes, most significant first.
#[verifier::external_body]
pub(crate) fn write_be_u16(n: u16) -> (r: [u8; 2])
    ensures
        r@ == be16(n),
{
    let mut b = [0u8; 2];
    BigEndian::write_u16(&mut b, n);
    b
}

/// Relies on byteorder's `BigEndian::write_u32`: four bytes, most significant first.
#[verifier::external_body]
pub(crate) fn write_be_u32(n: u32) -> (r: [u8; 4])
    ensures
        r@ == be32(n),
{
    let mut b = [0u8; 4];
    BigEndian::write_u32(&mut b, n);
    b
}

pub proof fn lemma_be16_round_trip(n: u16)
    ensures
        u16_of_be(be16(n)) == n,
{
    let s = be16(n);
    assert(s[0] == (n >> 8u16) as u8 && s[1] == n as u8);
    assert(((((n >> 8u16) as u8) as u16) << 8u16) | (((n as u8) as u16)) == n) by (bit_vector);
}

pub proof fn lemma_be32_round_trip(n: u32)
    ensures
        u32_of_be(be32(n)) == n,
{
    let s = be32(n);
    assert(s[0] == (n >> 24u32) as u8 && s[1] == (n >> 16u32) as u8 && s[2] == (n >> 8u32) as u8
        && s[3] == n as u8);
    assert(((((n >> 24u32) as u8) as u32) << 24u32) | ((((n >> 16u32) as u8) as u32) << 16u32)
        | ((((n >> 8u32) as u8) as u32) << 8u32) | (((n as u8) as u32)) == n) by (bit_vector);
}

// ---------------------------------------------------------------------------
// The encoding as sequences

/// The size-class header of a data value of length `n`: the smallest class
/// that holds `n`.
pub open spec fn size_header(n: nat) -> Seq<u8> {
    if n <= SMALL_MAX {
        seq![n as u8]
    } else if n <= 255 {
        seq![TAG_U8, n as u8]
    } else if n <= 65535 {
        seq![TAG_U16].add(be16(n as u16))
    } else {
        seq![TAG_U32].add(be32(n as u32))
    }
}

/// The largest payload each header width can describe.
pub open spec fn class_capacity(header_len: nat) -> nat {
    if header_len == 1 {
        SMALL_MAX as nat
    } else if header_len == 2 {
        255
    } else if header_len == 3 {
        65535
    } else {
        u32::MAX as nat
    }
}

/// The header widths the data encoding has.
pub open spec fn is_class(header_len: nat) -> bool {
    header_len == 1 || header_len == 2 || header_len == 3 || header_len == 5
}

pub open spec fn encoded_data(v: Seq<u8>) -> Seq<u8> {
    size_header(v.len()) + v
}

/// A name an instruction may have: 1 to 127 ASCII bytes.
pub open spec fn valid_name(name: Seq<u8>) -> bool {
    1 <= name.len() <= 127 && forall|i: int| 0 <= i < name.len() ==> name[i] < 0x80
}

pub open spec fn encoded_instruction(name: Seq<u8>) -> Seq<u8> {
    seq![(INSTRUCTION_BIT + name.len()) as u8] + name
}

/// What the header at the start of `b` declares: kind, payload length and
/// header length; `None` where it is malformed or cut short.
pub open spec fn header_of(b: Seq<u8>) -> Option<(Kind, nat, nat)> {
    if b.len() == 0 {
        None
    } else if b[0] >= INSTRUCTION_BIT {
        if b[0] == INSTRUCTION_BIT {
            None
        } else {
            Some((Kind::Instruction, (b[0] - INSTRUCTION_BIT) as nat, 1))
        }
    } else if b[0] <= SMALL_MAX {
        Some((Kind::Data, b[0] as nat, 1))
    } else if b[0] == TAG_U8 {
        if b.len() >= 2 { Some((Kind::Data, b[1] as nat, 2)) } else { None }
    } else if b[0] == TAG_U16 {
        if b.len() >= 3 { Some((Kind::Data, u16_of_be(b.subrange(1, 3)) as nat, 3)) } else { None }
    } else if b[0] == TAG_U32 {
        if b.len() >= 5 { Some((Kind::Data, u32_of_be(b.subrange(1, 5)) as nat, 5)) } else { None }
    } else {
        None
    }
}

/// The item at the start of `b`: its kind, its payload and the number of
/// bytes it takes; `None` where the header is malformed or the payload cut short.
pub open spec fn item_of(b: Seq<u8>) -> Option<(Kind, Seq<u8>, nat)> {
    match header_of(b) {
        Some((k, p, h)) => if h + p <= b.len() {
            Some((k, b.subrange(h as int, (h + p) as int), h + p))
        } else {
            None
        },
        None => None,
    }
}

// ---------------------------------------------------------------------------
// Laws

proof fn lemma_header_prefix(v: Seq<u8>, rest: Seq<u8>)
    requires
        v.len() <= u32::MAX,
    ensures
        header_of(encoded_data(v) + rest) == Some((Kind::Data, v.len(), size_header(v.len()).len())),
        is_class(size_header(v.len()).len()),
{
    let n = v.len();
    let b = encoded_data(v) + rest;
    let h = size_header(n);
    if n <= SMALL_MAX {
        assert(b[0] == n as u8);
    } else if n <= 255 {
        assert(b[0] == TAG_U8 && b[1] == n as u8);
    } else if n <= 65535 {
        assert(b.subrange(1, 3) =~= be16(n as u16));
        lemma_be16_round_trip(n as u16);
    } else {
        assert(b.subrange(1, 5) =~= be32(n as u32));
        lemma_be32_round_trip(n as u32);
    }
}

/// Decoding a data item that is followed by further bytes yields the value
/// and stops where the item ends.
pub proof fn lemma_data_prefix(v: Seq<u8>, rest: Seq<u8>)
    requires
        v.len() <= u32::MAX,
    ensures
        item_of(encoded_data(v) + rest) == Some((Kind::Data, v, encoded_data(v).len())),
{
    lemma_header_prefix(v, rest);
    let b = encoded_data(v) + rest;
    let h = size_header(v.len()).len();
    assert(b.subrange(h as int, (h + v.len()) as int) =~= v);
}

/// Data round trip: decoding the encoding of any value gives the value back,
/// as a data item spanning the whole encoding, and the header uses the
/// narrowest class that can hold the value's length.
pub proof fn lemma_data_round_trip(v: Seq<u8>)
    requires
        v.len() <= u32::MAX,
    ensures
        item_of(encoded_data(v)) == Some((Kind::Data, v, encoded_data(v).len())),
        is_class(size_header(v.len()).len()),
        v.len() <= class_capacity(size_header(v.len()).len()),
        forall|h: nat| is_class(h) && v.len() <= class_capacity(h) ==> size_header(v.len()).len() <= h,
{
    lemma_header_prefix(v, Seq::empty());
    lemma_data_prefix(v, Seq::empty());
    assert(encoded_data(v) + Seq::<u8>::empty() =~= encoded_data(v));
}

/// Instruction round trip: the header of an encoded name of 1 to 127 ASCII
/// bytes reports an instruction of that length, and the item holds the name.
pub proof fn lemma_instruction_round_trip(name: Seq<u8>)
    requires
        valid_name(name),
    ensures
        header_of(encoded_instruction(name)) == Some((Kind::Instruction, name.len(), 1nat)),
        item_of(encoded_instruction(name)) == Some((Kind::Instruction, name, name.len() + 1)),
{
    let b = encoded_instruction(name);
    assert(b[0] == (INSTRUCTION_BIT + name.len()) as u8);
    assert(b.subrange(1, name.len() + 1 as int) =~= name);
}

// ---------------------------------------------------------------------------
// Executable encoding and decoding

/// Appends the encoding of the data value `v` to `out`.
pub fn push_data(out: &mut Vec<u8>, v: &[u8])
    requires
        v@.len() <= u32::MAX,
    ensures
        final(out)@ == old(out)@ + encoded_data(v@),
{
    let n = v.len();
    if n <= SMALL_MAX as usize {
        out.push(n as u8);
    } else if n <= 255 {
        out.push(TAG_U8);
        out.push(n as u8);
    } else if n <= 65535 {
        out.push(TAG_U16);
        let b = write_be_u16(n as u16);
        out.push(b[0]);
        out.push(b[1]);
    } else {
        out.push(TAG_U32);
        let b = write_be_u32(n as u32);
        out.push(b[0]);
        out.push(b[1]);
        out.push(b[2]);
        out.push(b[3]);
    }
    let ghost mid = out@;
    assert(mid == old(out)@ + size_header(n as nat));
    let mut i: usize = 0;
    while i < n
        invariant
            n == v@.len(),
            i <= n,
            out@ == mid + v@.subrange(0, i as int),
        decreases n - i,
    {
        out.push(v[i]);
        i = i + 1;
        assert(out@ =~= mid + v@.subrange(0, i as int));
    }
    assert(v@.subrange(0, n as int) =~= v@);
    assert(out@ =~= old(out)@ + encoded_data(v@));
}

/// The encoding of the data value `v`: its size-class header, then its bytes.
pub fn encode_data(v: &[u8]) -> (r: Vec<u8>)
    requires
        v@.len() <= u32::MAX,
    ensures
        r@ == encoded_data(v@),
{
    let mut out: Vec<u8> = Vec::new();
    push_data(&mut out, v);
    assert(out@ =~= encoded_data(v@));
    out
}

/// Appends the encoding of the instruction `name` to `out`.
pub fn push_instruction(out: &mut Vec<u8>, name: &[u8])
    requires
        valid_name(name@),
    ensures
        final(out)@ == old(out)@ + encoded_instruction(name@),
{
    out.push(INSTRUCTION_BIT + name.len() as u8);
    let ghost mid = out@;
    let n = name.len();
    let mut i: usize = 0;
    while i < n
        invariant
            n == name@.len(),
            i <= n,
            out@ == mid + name@.subrange(0, i as int),
        decreases n - i,
    {
        out.push(name[i]);
        i = i + 1;
        assert(out@ =~= mid + name@.subrange(0, i as int));
    }
    assert(name@.subrange(0, n as int) =~= name@);
    assert(out@ =~= old(out)@ + encoded_instruction(name@));
}

/// The encoding of an instruction reference; `None` unless the name has 1 to
/// 127 bytes, all ASCII.
pub fn encode_instruction(name: &[u8]) -> (r: Option<Vec<u8>>)
    ensures
        r is Some <==> valid_name(name@),
        r matches Some(e) ==> e@ == encoded_instruction(name@),
{
    let n = name.len();
    if n == 0 || n > 127 {
        return None;
    }
    let mut i: usize = 0;
    while i < n
        invariant
            n == name@.len(),
            i <= n,
            forall|j: int| 0 <= j < i ==> name@[j] < 0x80,
        decreases n - i,
    {
        if name[i] >= 0x80 {
            return None;
        }
        i = i + 1;
    }
    let mut out: Vec<u8> = Vec::new();
    push_instruction(&mut out, name);
    assert(out@ =~= encoded_instruction(name@));
    Some(out)
}

/// Reads the header at the start of `buf`.
pub fn decode_header(buf: &[u8]) -> (r: Result<Header, Error>)
    ensures
        header_of(buf@) is None <==> r is Err,
        r matches Ok(h) ==> header_of(buf@) == Some(h@),
        r matches Err(e) ==> e == Error::MalformedHeader,
{
    if buf.len() == 0 {
        return Err(Error::MalformedHeader);
    }
    let b0 = buf[0];
    if b0 >= INSTRUCTION_BIT {
        if b0 == INSTRUCTION_BIT {
            Err(Error::MalformedHeader)
        } else {
            Ok(Header { kind: Kind::Instruction, payload_len: (b0 - INSTRUCTION_BIT) as usize, header_len: 1 })
        }
    } else if b0 <= SMALL_MAX {
        Ok(Header { kind: Kind::Data, payload_len: b0 as usize, header_len: 1 })
    } else if b0 == TAG_U8 {
        if buf.len() >= 2 {
            Ok(Header { kind: Kind::Data, payload_len: buf[1] as usize, header_len: 2 })
        } else {
            Err(Error::MalformedHeader)
        }
    } else if b0 == TAG_U16 {
        if buf.len() >= 3 {
            let n = read_be_u16(&buf[1..3]);
            Ok(Header { kind: Kind::Data, payload_len: n as usize, header_len: 3 })
        } else {
            Err(Error::MalformedHeader)
        }
    } else if b0 == TAG_U32 {
        if buf.len() >= 5 {
            let n = read_be_u32(&buf[1..5]);
            Ok(Header { kind: Kind::Data, payload_len: n as usize, header_len: 5 })
        } else {
            Err(Error::MalformedHeader)
        }
    } else {
        Err(Error::MalformedHeader)
    }
}

/// The number of header bytes in front of a data value of length `size`.
pub fn offset_by_size(size: usize) -> (r: usize)
    requires
        size <= u32::MAX,
    ensures
        r == size_header(size as nat).len(),
{
    if size <= SMALL_MAX as usize {
        1
    } else if size <= 255 {
        2
    } else if size <= 65535 {
        3
    } else {
        5
    }
}

/// Copies `buf[start..end]` into a new vector.
pub fn copy_range(buf: &[u8], start: usize, end: usize) -> (r: Vec<u8>)
    requires
        start <= end <= buf@.len(),
    ensures
        r@ == buf@.subrange(start as int, end as int),
{
    let mut out: Vec<u8> = Vec::new();
    let mut i: usize = start;
    while i < end
        invariant
            start <= i <= end,
            end <= buf@.len(),
            out@ == buf@.subrange(start as int, i as int),
        decreases end - i,
    {
        out.push(buf[i]);
        i = i + 1;
        assert(out@ =~= buf@.subrange(start as int, i as int));
    }
    out
}

/// An owned copy of `buf`.
pub fn to_bytes(buf: &[u8]) -> (r: Vec<u8>)
    ensures
        r@ == buf@,
{
    let r = copy_range(buf, 0, buf.len());
    assert(r@ =~= buf@);
    r
}

/// Decodes the item at the start of `buf`: its kind, a copy of its payload,
/// and the number of bytes it takes.
pub fn decode(buf: &[u8]) -> (r: Result<(Kind, Vec<u8>, usize), Error>)
    ensures
        item_of(buf@) is None <==> r is Err,
        r matches Ok((k, p, n)) ==> item_of(buf@) == Some((k, p@, n as nat)),
        r matches Err(e) ==> e == Error::MalformedHeader,
{
    let h = decode_header(buf)?;
    if h.payload_len > buf.len() || h.header_len > buf.len() - h.payload_len {
        return Err(Error::MalformedHeader);
    }
    let end = h.header_len + h.payload_len;
    let payload = copy_range(buf, h.header_len, end);
    Ok((h.kind, payload, end))
}

} // verus!
