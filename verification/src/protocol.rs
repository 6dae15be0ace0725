//! MNDP packet codec: conversion between raw byte buffers and TLV packets,
//! and between TLV packets and neighbor records.

use vstd::prelude::*;
use vstd::slice::{slice_subrange, slice_to_vec};
use vstd::string::StrSliceExecFns;
use vstd::utf8::encode_utf8;

use crate::neighbor::{Neighbor, NeighborView, Unpack};
use crate::text::{bytes_to_text, text_of};

verus! {

// MNDP type values
/// Wire code of the MAC address field.
pub const MNDP_MAC_ADDRESS: u16 = 1;
/// Wire code of the identity field.
pub const MNDP_IDENTITY: u16 = 5;
/// Wire code of the version field.
pub const MNDP_VERSION: u16 = 7;
/// Wire code of the platform field.
pub const MNDP_PLATFORM: u16 = 8;
/// Wire code of the uptime field.
pub const MNDP_UPTIME: u16 = 10;
/// Wire code of the software ID field.
pub const MNDP_SOFTWARE_ID: u16 = 11;
/// Wire code of the board field.
pub const MNDP_BOARD: u16 = 12;
/// Wire code of the unpack field.
pub const MNDP_UNPACK: u16 = 14;
/// Wire code of the IPv6 address field.
pub const MNDP_IPV6_ADDRESS: u16 = 15;
/// Wire code of the interface name field.
pub const MNDP_INTERFACE_NAME: u16 = 16;
/// Wire code of the IPv4 address field.
pub const MNDP_IPV4_ADDRESS: u16 = 17;

/// MNDP field type (converts to/from `u16`).
#[derive(Copy, Clone, Debug, Eq, PartialEq, Structural)]
pub enum MndpType {
    /// MAC address of the announcing interface.
    MacAddress,
    /// Identity or hostname.
    Identity,
    /// Software version.
    Version,
    /// Platform or operating system.
    Platform,
    /// Uptime in seconds.
    Uptime,
    /// Software ID.
    SoftwareId,
    /// Board type or hardware model.
    Board,
    /// Packing (compression) setting.
    Unpack,
    /// IPv6 address of the announcing interface.
    Ipv6Address,
    /// Name of the announcing interface.
    InterfaceName,
    /// IPv4 address of the announcing interface.
    Ipv4Address,
}

impl MndpType {
    /// The wire code of this field type.
    pub open spec fn code(self) -> u16 {
        match self {
            MndpType::MacAddress => MNDP_MAC_ADDRESS,
            MndpType::Identity => MNDP_IDENTITY,
            MndpType::Version => MNDP_VERSION,
            MndpType::Platform => MNDP_PLATFORM,
            MndpType::Uptime => MNDP_UPTIME,
            MndpType::SoftwareId => MNDP_SOFTWARE_ID,
            MndpType::Board => MNDP_BOARD,
            MndpType::Unpack => MNDP_UNPACK,
            MndpType::Ipv6Address => MNDP_IPV6_ADDRESS,
            MndpType::InterfaceName => MNDP_INTERFACE_NAME,
            MndpType::Ipv4Address => MNDP_IPV4_ADDRESS,
        }
    }

    /// True of the wire codes that belong to some known field type.
    pub open spec fn is_known_code(n: u16) -> bool {
        ||| n == MNDP_MAC_ADDRESS
        ||| n == MNDP_IDENTITY
        ||| n == MNDP_VERSION
        ||| n == MNDP_PLATFORM
        ||| n == MNDP_UPTIME
        ||| n == MNDP_SOFTWARE_ID
        ||| n == MNDP_BOARD
        ||| n == MNDP_UNPACK
        ||| n == MNDP_IPV6_ADDRESS
        ||| n == MNDP_INTERFACE_NAME
        ||| n == MNDP_IPV4_ADDRESS
    }

    /// The wire code of this field type.
    pub fn to_u16(self) -> (r: u16)
        ensures
            r == self.code(),
    {
        match self {
            MndpType::MacAddress => MNDP_MAC_ADDRESS,
            MndpType::Identity => MNDP_IDENTITY,
            MndpType::Version => MNDP_VERSION,
            MndpType::Platform => MNDP_PLATFORM,
            MndpType::Uptime => MNDP_UPTIME,
            MndpType::SoftwareId => MNDP_SOFTWARE_ID,
            MndpType::Board => MNDP_BOARD,
            MndpType::Unpack => MNDP_UNPACK,
            MndpType::Ipv6Address => MNDP_IPV6_ADDRESS,
            MndpType::InterfaceName => MNDP_INTERFACE_NAME,
            MndpType::Ipv4Address => MNDP_IPV4_ADDRESS,
        }
    }

    /// The field type with the given wire code, or `None` for a code
    /// that belongs to no known field type.
    pub fn try_from_u16(n: u16) -> (r: Option<MndpType>)
        ensures
            r is Some <==> MndpType::is_known_code(n),
            r matches Some(t) ==> t.code() == n,
    {
        if n == MNDP_MAC_ADDRESS {
            Some(MndpType::MacAddress)
        } else if n == MNDP_IDENTITY {
            Some(MndpType::Identity)
        } else if n == MNDP_VERSION {
            Some(MndpType::Version)
        } else if n == MNDP_PLATFORM {
            Some(MndpType::Platform)
        } else if n == MNDP_UPTIME {
            Some(MndpType::Uptime)
        } else if n == MNDP_SOFTWARE_ID {
            Some(MndpType::SoftwareId)
        } else if n == MNDP_BOARD {
            Some(MndpType::Board)
        } else if n == MNDP_UNPACK {
            Some(MndpType::Unpack)
        } else if n == MNDP_IPV6_ADDRESS {
            Some(MndpType::Ipv6Address)
        } else if n == MNDP_INTERFACE_NAME {
            Some(MndpType::InterfaceName)
        } else if n == MNDP_IPV4_ADDRESS {
            Some(MndpType::Ipv4Address)
        } else {
            None
        }
    }
}

/// Mathematical view of a TLV field: a wire type code and the value bytes.
#[verifier::ext_equal]
pub ghost struct FieldView {
    /// MNDP type code.
    pub typ: u16,
    /// Value bytes.
    pub value: Seq<u8>,
}

/// Individual TLV field within an MNDP packet.
/// The length is implicit from the value.
#[derive(Clone, Debug, Eq, PartialEq)]
pub struct TypeValue {
    /// MNDP type.
    pub typ: u16,
    /// Field bytes.
    pub value: Vec<u8>,
}

impl View for TypeValue {
    type V = FieldView;

    open spec fn view(&self) -> FieldView {
        FieldView { typ: self.typ, value: self.value@ }
    }
}

impl TypeValue {
    /// Create a new TLV field with default/empty contents.
    pub fn new() -> (r: TypeValue)
        ensures
            r@.typ == 0,
            r@.value == Seq::<u8>::empty(),
    {
        TypeValue { typ: 0, value: Vec::new() }
    }
}

/// Mathematical view of a packet: header, sequence number, and the
/// TLV fields in wire order.
#[verifier::ext_equal]
pub ghost struct PacketView {
    /// 2-byte header, preserved verbatim.
    pub header: u16,
    /// 2-byte sequence number, preserved verbatim.
    pub sequence: u16,
    /// TLV fields in wire order.
    pub fields: Seq<FieldView>,
}

/// MNDP packet struct with conversions to/from `Neighbor` and raw bytes.
#[derive(Clone, Debug, Eq, PartialEq)]
pub struct Packet {
    /// 2-byte header, preserved verbatim.
    pub header: u16,
    /// 2-byte sequence number, preserved verbatim.
    pub sequence: u16,
    /// TLV fields in wire order.
    pub fields: Vec<TypeValue>,
}

impl View for Packet {
    type V = PacketView;

    open spec fn view(&self) -> PacketView {
        PacketView {
            header: self.header,
            sequence: self.sequence,
            fields: Seq::new(self.fields@.len(), |i: int| self.fields@[i]@),
        }
    }
}

/// The fields of a TLV list, each seen through its view.
pub open spec fn fields_view(s: Seq<TypeValue>) -> Seq<FieldView> {
    Seq::new(s.len(), |i: int| s[i]@)
}

// ---------------------------------------------------------------------------
// Wire format, as mathematics
// ---------------------------------------------------------------------------

/// Big-endian 16-bit value of two bytes.
pub open spec fn be16(hi: u8, lo: u8) -> u16 {
    (hi as u16 * 256 + lo as u16) as u16
}

/// The two big-endian bytes of a 16-bit value.
pub open spec fn be16_bytes(x: u16) -> Seq<u8> {
    seq![(x / 256) as u8, (x % 256) as u8]
}

/// Little-endian 32-bit value of the first four bytes.
pub open spec fn le32(b: Seq<u8>) -> u32
    recommends
        b.len() >= 4,
{
    (b[0] as u32 + b[1] as u32 * 256 + b[2] as u32 * 65536 + b[3] as u32 * 16777216) as u32
}

/// The four little-endian bytes of a 32-bit value.
pub open spec fn le32_bytes(x: u32) -> Seq<u8> {
    seq![
        (x % 256) as u8,
        ((x / 256) % 256) as u8,
        ((x / 65536) % 256) as u8,
        ((x / 16777216) % 256) as u8,
    ]
}

/// Number of value bytes emitted for a field: the value length, clamped to
/// what a 16-bit length prefix can declare.
pub open spec fn emitted_len(f: FieldView) -> nat {
    if f.value.len() > 65535 {
        65535 as nat
    } else {
        f.value.len()
    }
}

/// Wire bytes of one TLV field: type and length, big-endian, then the value,
/// truncated to 65535 bytes if it is longer.
pub open spec fn encode_field(f: FieldView) -> Seq<u8> {
    be16_bytes(f.typ) + be16_bytes(emitted_len(f) as u16) + f.value.take(emitted_len(f) as int)
}

/// Wire bytes of a field list, in order.
pub open spec fn encode_fields(fs: Seq<FieldView>) -> Seq<u8>
    decreases fs.len(),
{
    if fs.len() == 0 {
        Seq::empty()
    } else {
        encode_field(fs[0]) + encode_fields(fs.drop_first())
    }
}

/// Wire bytes of a whole packet: header, sequence number, then the fields.
pub open spec fn encode_packet(p: PacketView) -> Seq<u8> {
    be16_bytes(p.header) + be16_bytes(p.sequence) + encode_fields(p.fields)
}

/// The TLV records read from a byte sequence: records are taken while at
/// least a type and length prefix remains; a trailing record whose declared
/// length exceeds the remaining bytes is discarded and reading stops.
pub open spec fn decode_fields(b: Seq<u8>) -> Seq<FieldView>
    decreases b.len(),
{
    if b.len() < 4 {
        Seq::empty()
    } else {
        let len = be16(b[2], b[3]) as int;
        if b.len() >= 4 + len {
            seq![FieldView { typ: be16(b[0], b[1]), value: b.subrange(4, 4 + len) }]
                + decode_fields(b.skip(4 + len))
        } else {
            Seq::empty()
        }
    }
}

/// Whether decoding a buffer can succeed: the 2-byte header and 2-byte
/// sequence number must be present.
pub open spec fn decode_ok(b: Seq<u8>) -> bool {
    b.len() >= 4
}

/// The packet read from a buffer that holds at least header and sequence.
pub open spec fn decode_packet(b: Seq<u8>) -> PacketView
    recommends
        decode_ok(b),
{
    PacketView { header: be16(b[0], b[1]), sequence: be16(b[2], b[3]), fields: decode_fields(b.skip(4)) }
}

/// A field whose value a 16-bit length prefix can describe exactly, so that
/// encoding emits it without truncation.
pub open spec fn field_fits(f: FieldView) -> bool {
    f.value.len() <= 65535
}

/// A packet whose every field re-encodes without truncation. Every packet
/// produced by decoding satisfies this.
pub open spec fn packet_fits(p: PacketView) -> bool {
    forall|i: int| 0 <= i < p.fields.len() ==> field_fits(#[trigger] p.fields[i])
}

// ---------------------------------------------------------------------------
// Exec codec
// ---------------------------------------------------------------------------

/// Join two bytes into a big-endian 16-bit value.
fn u16_from_be(hi: u8, lo: u8) -> (r: u16)
    ensures
        r == be16(hi, lo),
{
    (hi as u16) * 256 + (lo as u16)
}

/// Append the two big-endian bytes of `x`.
fn push_be16(out: &mut Vec<u8>, x: u16)
    ensures
        final(out)@ == old(out)@ + be16_bytes(x),
{
    out.push((x / 256) as u8);
    out.push((x % 256) as u8);
    proof {
        assert(out@ =~= old(out)@ + be16_bytes(x));
    }
}

proof fn lemma_encode_fields_push(fs: Seq<FieldView>, f: FieldView)
    ensures
        encode_fields(fs.push(f)) == encode_fields(fs) + encode_field(f),
    decreases fs.len(),
{
    if fs.len() == 0 {
        assert(fs.push(f)[0] == f);
        assert(fs.push(f).drop_first() =~= Seq::<FieldView>::empty());
        assert(encode_fields(Seq::<FieldView>::empty()) == Seq::<u8>::empty());
        assert(encode_fields(fs.push(f)) == encode_field(f) + encode_fields(Seq::<FieldView>::empty()));
        assert(encode_fields(fs.push(f)) =~= encode_fields(fs) + encode_field(f));
    } else {
        assert(fs.push(f)[0] == fs[0]);
        assert(fs.push(f).drop_first() =~= fs.drop_first().push(f));
        lemma_encode_fields_push(fs.drop_first(), f);
        assert(encode_fields(fs.push(f)) == encode_field(fs[0])
            + (encode_fields(fs.drop_first()) + encode_field(f)));
        assert(encode_fields(fs.push(f)) =~= encode_fields(fs) + encode_field(f));
    }
}

impl Packet {
    /// Create a new `Packet` with default values (0) for header and sequence and
    /// an empty field list for fields to be added to.
    pub fn new() -> (r: Packet)
        ensures
            r@.header == 0,
            r@.sequence == 0,
            r@.fields == Seq::<FieldView>::empty(),
    {
        let p = Packet { header: 0, sequence: 0, fields: Vec::new() };
        proof {
            assert(p@.fields =~= Seq::<FieldView>::empty());
        }
        p
    }

    /// Produce raw bytes from a `Packet` in MNDP protocol format.
    pub fn to_bytes(&self) -> (r: Vec<u8>)
        ensures
            r@ == encode_packet(self@),
    {
        let mut out: Vec<u8> = Vec::new();
        push_be16(&mut out, self.header);
        push_be16(&mut out, self.sequence);
        proof {
            assert(self@.fields.take(0) =~= Seq::<FieldView>::empty());
            assert(out@ =~= be16_bytes(self@.header) + be16_bytes(self@.sequence)
                + encode_fields(self@.fields.take(0)));
        }
        let n = self.fields.len();
        let mut k: usize = 0;
        while k < n
            invariant
                n == self.fields.len(),
                k <= n,
                out@ == be16_bytes(self@.header) + be16_bytes(self@.sequence)
                    + encode_fields(self@.fields.take(k as int)),
            decreases n - k,
        {
            let tv = &self.fields[k];
            let ghost f = self@.fields[k as int];
            push_be16(&mut out, tv.typ);
            let vlen = tv.value.len();
            let len: usize = if vlen >= 65535 {
                65535
            } else {
                vlen
            };
            push_be16(&mut out, len as u16);
            proof {
                assert(len as nat == emitted_len(f));
                assert(len as u16 == emitted_len(f) as u16);
            }
            let ghost pre = out@;
            let mut j: usize = 0;
            while j < len
                invariant
                    j <= len,
                    len <= tv.value.len(),
                    out@ == pre + tv.value@.subrange(0, j as int),
                decreases len - j,
            {
                out.push(tv.value[j]);
                proof {
                    assert(out@ =~= pre + tv.value@.subrange(0, j as int + 1));
                }
                j += 1;
            }
            proof {
                assert(tv.value@.subrange(0, len as int) =~= f.value.take(emitted_len(f) as int));
                assert(self@.fields.take(k as int + 1) =~= self@.fields.take(k as int).push(f));
                lemma_encode_fields_push(self@.fields.take(k as int), f);
                assert(out@ =~= be16_bytes(self@.header) + be16_bytes(self@.sequence)
                    + encode_fields(self@.fields.take(k as int + 1)));
            }
            k += 1;
        }
        proof {
            assert(self@.fields.take(n as int) =~= self@.fields);
        }
        out
    }

    /// Create a new `Packet` instance by parsing raw bytes in MNDP format.
    /// Returns an error if and only if the input is shorter than 4 bytes.
    pub fn from_bytes(bytes: &Vec<u8>) -> (r: Result<Packet, ()>)
        ensures
            r is Ok <==> decode_ok(bytes@),
            r matches Ok(p) ==> p@ == decode_packet(bytes@),
            r matches Ok(p) ==> packet_fits(p@),
    {
        let n = bytes.len();
        if n < 4 {
            return Err(());
        }
        let header = u16_from_be(bytes[0], bytes[1]);
        let sequence = u16_from_be(bytes[2], bytes[3]);
        let mut fields: Vec<TypeValue> = Vec::new();
        let mut i: usize = 4;
        let mut stopped: bool = false;
        proof {
            assert(fields_view(fields@) =~= Seq::<FieldView>::empty());
        }
        while !stopped && i < n && n - i >= 4
            invariant
                n == bytes.len(),
                4 <= i <= n,
                fields_view(fields@) + (if stopped {
                    Seq::<FieldView>::empty()
                } else {
                    decode_fields(bytes@.skip(i as int))
                }) == decode_fields(bytes@.skip(4)),
                forall|m: int| 0 <= m < fields_view(fields@).len()
                    ==> field_fits(#[trigger] fields_view(fields@)[m]),
            decreases n - i + (if stopped { 0int } else { 1int }),
        {
            let typ = u16_from_be(bytes[i], bytes[i + 1]);
            let len = u16_from_be(bytes[i + 2], bytes[i + 3]) as usize;
            let ghost rest = bytes@.skip(i as int);
            proof {
                assert(rest.len() == n - i);
                assert(rest[0] == bytes@[i as int]);
                assert(rest[1] == bytes@[i as int + 1]);
                assert(rest[2] == bytes@[i as int + 2]);
                assert(rest[3] == bytes@[i as int + 3]);
            }
            if n - i - 4 >= len {
                let value = slice_to_vec(slice_subrange(bytes.as_slice(), i + 4, i + 4 + len));
                let ghost prev = fields_view(fields@);
                fields.push(TypeValue { typ, value });
                proof {
                    let f = FieldView { typ, value: bytes@.subrange(i as int + 4, i as int + 4 + len as int) };
                    assert(rest.subrange(4, 4 + len as int) =~= f.value);
                    assert(rest.skip(4 + len as int) =~= bytes@.skip(i as int + 4 + len as int));
                    assert(decode_fields(rest) == seq![f] + decode_fields(bytes@.skip(i as int + 4 + len as int)));
                    assert(fields_view(fields@) =~= prev.push(f));
                    assert(fields_view(fields@) + decode_fields(bytes@.skip(i as int + 4 + len as int))
                        =~= prev + decode_fields(rest));
                }
                i = i + 4 + len;
            } else {
                proof {
                    assert(rest.len() < 4 + len);
                    assert(decode_fields(rest) =~= Seq::<FieldView>::empty());
                }
                stopped = true;
            }
        }
        proof {
            if !stopped {
                assert(bytes@.skip(i as int).len() < 4);
                assert(decode_fields(bytes@.skip(i as int)) =~= Seq::<FieldView>::empty());
            }
        }
        let p = Packet { header, sequence, fields };
        proof {
            assert(p@.fields =~= fields_view(fields@));
            assert(p@ =~= decode_packet(bytes@));
        }
        Ok(p)
    }
}

// ---------------------------------------------------------------------------
// Neighbor mapper, as mathematics
// ---------------------------------------------------------------------------

/// One TLV field applied to a neighbor record under construction: a field
/// with a known type code overwrites the corresponding attribute; a
/// malformed field (wrong fixed width, short unpack or uptime value,
/// unknown unpack byte) and a field with an unknown type code leave the
/// record unchanged.
pub open spec fn step_neighbor(n: NeighborView, f: FieldView) -> NeighborView {
    if f.typ == MNDP_BOARD {
        NeighborView { board: Some(text_of(f.value)), ..n }
    } else if f.typ == MNDP_IDENTITY {
        NeighborView { identity: Some(text_of(f.value)), ..n }
    } else if f.typ == MNDP_INTERFACE_NAME {
        NeighborView { interface_name: Some(text_of(f.value)), ..n }
    } else if f.typ == MNDP_IPV4_ADDRESS {
        if f.value.len() == 4 {
            NeighborView { ipv4_address: Some(f.value), ..n }
        } else {
            n
        }
    } else if f.typ == MNDP_IPV6_ADDRESS {
        if f.value.len() == 16 {
            NeighborView { ipv6_address: Some(f.value), ..n }
        } else {
            n
        }
    } else if f.typ == MNDP_MAC_ADDRESS {
        if f.value.len() == 6 {
            NeighborView { mac_address: Some(f.value), ..n }
        } else {
            n
        }
    } else if f.typ == MNDP_PLATFORM {
        NeighborView { platform: Some(text_of(f.value)), ..n }
    } else if f.typ == MNDP_SOFTWARE_ID {
        NeighborView { software_id: Some(text_of(f.value)), ..n }
    } else if f.typ == MNDP_UNPACK {
        if f.value.len() >= 1 && f.value[0] == 0 {
            NeighborView { unpack: Some(Unpack::No), ..n }
        } else if f.value.len() >= 1 && f.value[0] == 1 {
            NeighborView { unpack: Some(Unpack::Simple), ..n }
        } else {
            n
        }
    } else if f.typ == MNDP_UPTIME {
        if f.value.len() >= 4 {
            NeighborView { uptime: Some(le32(f.value) as u64), ..n }
        } else {
            n
        }
    } else if f.typ == MNDP_VERSION {
        NeighborView { version: Some(text_of(f.value)), ..n }
    } else {
        n
    }
}

/// A field list folded over a starting record, first field first.
pub open spec fn fold_neighbor(n: NeighborView, fs: Seq<FieldView>) -> NeighborView
    decreases fs.len(),
{
    if fs.len() == 0 {
        n
    } else {
        fold_neighbor(step_neighbor(n, fs[0]), fs.drop_first())
    }
}

/// The neighbor record that a field list decodes to: fields processed in
/// order over the blank record, so the last value seen per attribute wins.
pub open spec fn neighbor_of_fields(fs: Seq<FieldView>) -> NeighborView {
    fold_neighbor(NeighborView::empty(), fs)
}

/// The field emitted for a present text attribute, and nothing for an
/// absent one.
pub open spec fn text_field(typ: u16, o: Option<Seq<char>>) -> Seq<FieldView> {
    match o {
        Some(s) => seq![FieldView { typ, value: encode_utf8(s) }],
        None => Seq::empty(),
    }
}

/// The field emitted for a present address attribute, and nothing for an
/// absent one.
pub open spec fn bytes_field(typ: u16, o: Option<Seq<u8>>) -> Seq<FieldView> {
    match o {
        Some(v) => seq![FieldView { typ, value: v }],
        None => Seq::empty(),
    }
}

/// The field emitted for the packing mode: one byte, 0 for none and 1 for
/// simple. The unsupported variant has no wire encoding and emits nothing.
pub open spec fn unpack_field(o: Option<Unpack>) -> Seq<FieldView> {
    match o {
        Some(Unpack::No) => seq![FieldView { typ: MNDP_UNPACK, value: seq![0u8] }],
        Some(Unpack::Simple) => seq![FieldView { typ: MNDP_UNPACK, value: seq![1u8] }],
        _ => Seq::empty(),
    }
}

/// The field emitted for the uptime: four little-endian bytes of the
/// second count. A count over the 32-bit range is omitted rather than
/// wrapped or truncated.
pub open spec fn uptime_field(o: Option<u64>) -> Seq<FieldView> {
    match o {
        Some(s) => if s <= u32::MAX {
            seq![FieldView { typ: MNDP_UPTIME, value: le32_bytes(s as u32) }]
        } else {
            Seq::empty()
        },
        None => Seq::empty(),
    }
}

/// The field list that a neighbor record encodes to, in canonical order:
/// board, identity, interface name, IPv4, IPv6, MAC, platform, software
/// ID, packing mode, uptime, version. Absent attributes emit nothing.
pub open spec fn neighbor_fields(n: NeighborView) -> Seq<FieldView> {
    text_field(MNDP_BOARD, n.board) + text_field(MNDP_IDENTITY, n.identity) + text_field(
        MNDP_INTERFACE_NAME,
        n.interface_name,
    ) + bytes_field(MNDP_IPV4_ADDRESS, n.ipv4_address) + bytes_field(
        MNDP_IPV6_ADDRESS,
        n.ipv6_address,
    ) + bytes_field(MNDP_MAC_ADDRESS, n.mac_address) + text_field(MNDP_PLATFORM, n.platform)
        + text_field(MNDP_SOFTWARE_ID, n.software_id) + unpack_field(n.unpack) + uptime_field(
        n.uptime,
    ) + text_field(MNDP_VERSION, n.version)
}

/// Address attributes of the widths the wire format fixes. The view of
/// every `Neighbor` value satisfies this, as its addresses are arrays of
/// those widths.
pub open spec fn wf_neighbor(n: NeighborView) -> bool {
    &&& (n.ipv4_address matches Some(a) ==> a.len() == 4)
    &&& (n.ipv6_address matches Some(a) ==> a.len() == 16)
    &&& (n.mac_address matches Some(a) ==> a.len() == 6)
}

/// Set attributes that the wire format can represent: an uptime within
/// the 32-bit second range, and no unsupported packing variant.
pub open spec fn representable(n: NeighborView) -> bool {
    &&& (n.unpack matches Some(u) ==> u != Unpack::Unsupported)
    &&& (n.uptime matches Some(s) ==> s <= u32::MAX)
}

// ---------------------------------------------------------------------------
// Neighbor mapper, exec
// ---------------------------------------------------------------------------

/// Append one TLV field built from a type code and value bytes.
fn push_field(fields: &mut Vec<TypeValue>, typ: u16, value: Vec<u8>)
    ensures
        fields_view(final(fields)@) == fields_view(old(fields)@).push(
            FieldView { typ, value: value@ },
        ),
{
    let ghost v = value@;
    fields.push(TypeValue { typ, value });
    proof {
        assert(fields_view(fields@) =~= fields_view(old(fields)@).push(FieldView { typ, value: v }));
    }
}

/// Append the field for one optional text attribute; nothing if absent.
fn emit_text(fields: &mut Vec<TypeValue>, typ: u16, o: &Option<String>)
    ensures
        fields_view(final(fields)@) == fields_view(old(fields)@) + text_field(
            typ,
            match o {
                Some(s) => Some(s@),
                None => None,
            },
        ),
{
    if let Some(val) = o {
        push_field(fields, typ, val.as_str().as_bytes_vec());
        proof {
            assert(fields_view(fields@) =~= fields_view(old(fields)@) + text_field(
                typ,
                Some(val@),
            ));
        }
    } else {
        proof {
            assert(fields_view(fields@) =~= fields_view(old(fields)@)
                + Seq::<FieldView>::empty());
        }
    }
}

/// Append the field for one optional address attribute; nothing if absent.
fn emit_bytes(fields: &mut Vec<TypeValue>, typ: u16, o: Option<&[u8]>)
    ensures
        fields_view(final(fields)@) == fields_view(old(fields)@) + bytes_field(
            typ,
            match o {
                Some(v) => Some(v@),
                None => None,
            },
        ),
{
    if let Some(val) = o {
        push_field(fields, typ, slice_to_vec(val));
        proof {
            assert(fields_view(fields@) =~= fields_view(old(fields)@) + bytes_field(
                typ,
                Some(val@),
            ));
        }
    } else {
        proof {
            assert(fields_view(fields@) =~= fields_view(old(fields)@)
                + Seq::<FieldView>::empty());
        }
    }
}

/// Append the field for the packing mode; the unsupported variant and an
/// absent attribute emit nothing.
fn emit_unpack(fields: &mut Vec<TypeValue>, o: &Option<Unpack>)
    ensures
        fields_view(final(fields)@) == fields_view(old(fields)@) + unpack_field(*o),
{
    if let Some(val) = o {
        match val {
            Unpack::No => {
                let mut value: Vec<u8> = Vec::new();
                value.push(0);
                proof {
                    assert(value@ =~= seq![0u8]);
                }
                push_field(fields, MNDP_UNPACK, value);
                proof {
                    assert(fields_view(fields@) =~= fields_view(old(fields)@)
                        + unpack_field(*o));
                }
            },
            Unpack::Simple => {
                let mut value: Vec<u8> = Vec::new();
                value.push(1);
                proof {
                    assert(value@ =~= seq![1u8]);
                }
                push_field(fields, MNDP_UNPACK, value);
                proof {
                    assert(fields_view(fields@) =~= fields_view(old(fields)@)
                        + unpack_field(*o));
                }
            },
            Unpack::Unsupported => {
                proof {
                    assert(fields_view(fields@) =~= fields_view(old(fields)@)
                        + Seq::<FieldView>::empty());
                }
            },
        }
    } else {
        proof {
            assert(fields_view(fields@) =~= fields_view(old(fields)@)
                + Seq::<FieldView>::empty());
        }
    }
}

/// Append the field for the uptime; a count over the 32-bit range and an
/// absent attribute emit nothing.
fn emit_uptime(fields: &mut Vec<TypeValue>, o: &Option<u64>)
    ensures
        fields_view(final(fields)@) == fields_view(old(fields)@) + uptime_field(*o),
{
    if let Some(val) = o {
        if *val <= u32::MAX as u64 {
            let x = *val as u32;
            let mut value: Vec<u8> = Vec::new();
            value.push((x % 256) as u8);
            value.push(((x / 256) % 256) as u8);
            value.push(((x / 65536) % 256) as u8);
            value.push(((x / 16777216) % 256) as u8);
            proof {
                assert(value@ =~= le32_bytes(x));
            }
            push_field(fields, MNDP_UPTIME, value);
            proof {
                assert(fields_view(fields@) =~= fields_view(old(fields)@) + uptime_field(*o));
            }
        } else {
            proof {
                assert(fields_view(fields@) =~= fields_view(old(fields)@)
                    + Seq::<FieldView>::empty());
            }
        }
    } else {
        proof {
            assert(fields_view(fields@) =~= fields_view(old(fields)@)
                + Seq::<FieldView>::empty());
        }
    }
}

proof fn lemma_fold_neighbor_push(n: NeighborView, fs: Seq<FieldView>, f: FieldView)
    ensures
        fold_neighbor(n, fs.push(f)) == step_neighbor(fold_neighbor(n, fs), f),
    decreases fs.len(),
{
    if fs.len() == 0 {
        assert(fs.push(f)[0] == f);
        assert(fs.push(f).drop_first() =~= Seq::<FieldView>::empty());
        assert(fold_neighbor(n, fs.push(f)) == fold_neighbor(step_neighbor(n, f), Seq::empty()));
    } else {
        assert(fs.push(f)[0] == fs[0]);
        assert(fs.push(f).drop_first() =~= fs.drop_first().push(f));
        lemma_fold_neighbor_push(step_neighbor(n, fs[0]), fs.drop_first(), f);
    }
}

impl Packet {
    /// Create a new `Neighbor` from a `Packet`: fields are processed in
    /// order, the last value per attribute wins, and malformed or unknown
    /// fields are dropped without failing the whole conversion.
    pub fn to_neighbor(&self) -> (r: Neighbor)
        ensures
            r@ == neighbor_of_fields(self@.fields),
    {
        let mut n = Neighbor::new();
        let count = self.fields.len();
        let mut k: usize = 0;
        proof {
            assert(self@.fields.take(0) =~= Seq::<FieldView>::empty());
        }
        while k < count
            invariant
                count == self.fields.len(),
                k <= count,
                n@ == fold_neighbor(NeighborView::empty(), self@.fields.take(k as int)),
            decreases count - k,
        {
            let tv = &self.fields[k];
            let ghost f = self@.fields[k as int];
            let ghost pre = n@;
            if let Some(t) = MndpType::try_from_u16(tv.typ) {
                match t {
                    MndpType::Board => {
                        n.board = Some(bytes_to_text(&tv.value));
                    },
                    MndpType::Identity => {
                        n.identity = Some(bytes_to_text(&tv.value));
                    },
                    MndpType::InterfaceName => {
                        n.interface_name = Some(bytes_to_text(&tv.value));
                    },
                    MndpType::Ipv4Address => {
                        if tv.value.len() == 4 {
                            let a: [u8; 4] = [tv.value[0], tv.value[1], tv.value[2], tv.value[3]];
                            proof {
                                assert(a@ =~= f.value);
                            }
                            n.ipv4_address = Some(a);
                        }
                    },
                    MndpType::Ipv6Address => {
                        if tv.value.len() == 16 {
                            let a: [u8; 16] = [
                                tv.value[0],
                                tv.value[1],
                                tv.value[2],
                                tv.value[3],
                                tv.value[4],
                                tv.value[5],
                                tv.value[6],
                                tv.value[7],
                                tv.value[8],
                                tv.value[9],
                                tv.value[10],
                                tv.value[11],
                                tv.value[12],
                                tv.value[13],
                                tv.value[14],
                                tv.value[15],
                            ];
                            proof {
                                assert(a@ =~= f.value);
                            }
                            n.ipv6_address = Some(a);
                        }
                    },
                    MndpType::MacAddress => {
                        if tv.value.len() == 6 {
                            let a: [u8; 6] = [
                                tv.value[0],
                                tv.value[1],
                                tv.value[2],
                                tv.value[3],
                                tv.value[4],
                                tv.value[5],
                            ];
                            proof {
                                assert(a@ =~= f.value);
                            }
                            n.mac_address = Some(a);
                        }
                    },
                    MndpType::Platform => {
                        n.platform = Some(bytes_to_text(&tv.value));
                    },
                    MndpType::SoftwareId => {
                        n.software_id = Some(bytes_to_text(&tv.value));
                    },
                    MndpType::Unpack => {
                        if tv.value.len() >= 1 {
                            let b0 = tv.value[0];
                            if b0 == 0 {
                                n.unpack = Some(Unpack::No);
                            } else if b0 == 1 {
                                n.unpack = Some(Unpack::Simple);
                            }
                        }
                    },
                    MndpType::Uptime => {
                        if tv.value.len() >= 4 {
                            let secs: u32 = (tv.value[0] as u32) + (tv.value[1] as u32) * 256 + (
                            tv.value[2] as u32) * 65536 + (tv.value[3] as u32) * 16777216;
                            proof {
                                assert(secs == le32(f.value));
                            }
                            n.uptime = Some(secs as u64);
                        }
                    },
                    MndpType::Version => {
                        n.version = Some(bytes_to_text(&tv.value));
                    },
                }
            }
            proof {
                assert(n@ =~= step_neighbor(pre, f));
                assert(self@.fields.take(k as int + 1) =~= self@.fields.take(k as int).push(f));
                lemma_fold_neighbor_push(NeighborView::empty(), self@.fields.take(k as int), f);
            }
            k += 1;
        }
        proof {
            assert(self@.fields.take(count as int) =~= self@.fields);
        }
        n
    }
    /// Create a new `Packet` from a `Neighbor`: one field per present
    /// attribute, in canonical order, with header and sequence number 0.
    /// An uptime over the 32-bit range and the unsupported packing variant
    /// are omitted rather than miscoded.
    pub fn from_neighbor(neighbor: &Neighbor) -> (r: Packet)
        ensures
            r@.header == 0,
            r@.sequence == 0,
            r@.fields == neighbor_fields(neighbor@),
    {
        let mut fields: Vec<TypeValue> = Vec::new();
        proof {
            assert(fields_view(fields@) =~= Seq::<FieldView>::empty());
            assert(Seq::<FieldView>::empty() + text_field(MNDP_BOARD, neighbor@.board)
                =~= text_field(MNDP_BOARD, neighbor@.board));
        }
        emit_text(&mut fields, MNDP_BOARD, &neighbor.board);
        emit_text(&mut fields, MNDP_IDENTITY, &neighbor.identity);
        emit_text(&mut fields, MNDP_INTERFACE_NAME, &neighbor.interface_name);
        let ip4: Option<&[u8]> = match &neighbor.ipv4_address {
            Some(a) => Some(a.as_slice()),
            None => None,
        };
        emit_bytes(&mut fields, MNDP_IPV4_ADDRESS, ip4);
        let ip6: Option<&[u8]> = match &neighbor.ipv6_address {
            Some(a) => Some(a.as_slice()),
            None => None,
        };
        emit_bytes(&mut fields, MNDP_IPV6_ADDRESS, ip6);
        let mac: Option<&[u8]> = match &neighbor.mac_address {
            Some(a) => Some(a.as_slice()),
            None => None,
        };
        emit_bytes(&mut fields, MNDP_MAC_ADDRESS, mac);
        emit_text(&mut fields, MNDP_PLATFORM, &neighbor.platform);
        emit_text(&mut fields, MNDP_SOFTWARE_ID, &neighbor.software_id);
        emit_unpack(&mut fields, &neighbor.unpack);
        emit_uptime(&mut fields, &neighbor.uptime);
        emit_text(&mut fields, MNDP_VERSION, &neighbor.version);
        let p = Packet { header: 0, sequence: 0, fields };
        proof {
            assert(p@.fields =~= fields_view(fields@));
        }
        p
    }
}

// ---------------------------------------------------------------------------
// Laws
// ---------------------------------------------------------------------------

proof fn lemma_be16_roundtrip(x: u16)
    ensures
        be16_bytes(x).len() == 2,
        be16(be16_bytes(x)[0], be16_bytes(x)[1]) == x,
{
}

proof fn lemma_le32_roundtrip(x: u32)
    ensures
        le32_bytes(x).len() == 4,
        le32(le32_bytes(x)) == x,
{
}

proof fn lemma_decode_encode_fields(fs: Seq<FieldView>)
    requires
        forall|i: int| 0 <= i < fs.len() ==> field_fits(#[trigger] fs[i]),
    ensures
        decode_fields(encode_fields(fs)) == fs,
    decreases fs.len(),
{
    if fs.len() == 0 {
    } else {
        let f = fs[0];
        let e = encode_field(f);
        let rest = encode_fields(fs.drop_first());
        let b = e + rest;
        assert(encode_fields(fs) == b);
        let len = f.value.len() as int;
        assert(emitted_len(f) == f.value.len());
        assert(f.value.take(len) =~= f.value);
        assert(e.len() == 4 + len);
        lemma_be16_roundtrip(f.typ);
        lemma_be16_roundtrip(len as u16);
        assert(b[0] == be16_bytes(f.typ)[0]);
        assert(b[1] == be16_bytes(f.typ)[1]);
        assert(b[2] == be16_bytes(len as u16)[0]);
        assert(b[3] == be16_bytes(len as u16)[1]);
        assert(be16(b[0], b[1]) == f.typ);
        assert(be16(b[2], b[3]) == len as u16);
        assert(b.len() >= 4 + len);
        assert(b.subrange(4, 4 + len) =~= f.value);
        assert(b.skip(4 + len) =~= rest);
        lemma_decode_encode_fields(fs.drop_first());
        assert(decode_fields(b) == seq![FieldView { typ: f.typ, value: b.subrange(4, 4 + len) }]
            + decode_fields(b.skip(4 + len)));
        assert(seq![f] + fs.drop_first() =~= fs);
    }
}

/// Round trip of the packet codec: a packet whose every field re-encodes
/// without truncation — every packet that decoding produces is such —
/// decodes back from its own encoding with identical header, sequence
/// number, and field list.
pub proof fn lemma_packet_roundtrip(p: PacketView)
    requires
        packet_fits(p),
    ensures
        decode_ok(encode_packet(p)),
        decode_packet(encode_packet(p)) == p,
{
    let b = encode_packet(p);
    lemma_be16_roundtrip(p.header);
    lemma_be16_roundtrip(p.sequence);
    assert(b[0] == be16_bytes(p.header)[0]);
    assert(b[1] == be16_bytes(p.header)[1]);
    assert(b[2] == be16_bytes(p.sequence)[0]);
    assert(b[3] == be16_bytes(p.sequence)[1]);
    assert(b.skip(4) =~= encode_fields(p.fields));
    lemma_decode_encode_fields(p.fields);
    assert(decode_packet(b) =~= p);
}

proof fn lemma_decode_truncated_tail(fs: Seq<FieldView>, typ: u16, len: u16, extra: Seq<u8>)
    requires
        forall|i: int| 0 <= i < fs.len() ==> field_fits(#[trigger] fs[i]),
        extra.len() < len,
    ensures
        decode_fields(encode_fields(fs) + (be16_bytes(typ) + be16_bytes(len) + extra)) == fs,
    decreases fs.len(),
{
    let tail = be16_bytes(typ) + be16_bytes(len) + extra;
    lemma_be16_roundtrip(len);
    if fs.len() == 0 {
        let b = encode_fields(fs) + tail;
        assert(b =~= tail);
        lemma_be16_roundtrip(typ);
        assert(b[2] == be16_bytes(len)[0]);
        assert(b[3] == be16_bytes(len)[1]);
        assert(be16(b[2], b[3]) == len);
        assert(b.len() == 4 + extra.len());
        assert(b.len() < 4 + len);
        assert(decode_fields(b) =~= fs);
    } else {
        let f = fs[0];
        let e = encode_field(f);
        let rest = encode_fields(fs.drop_first()) + tail;
        let b = encode_fields(fs) + tail;
        assert(b =~= e + rest);
        let flen = f.value.len() as int;
        assert(emitted_len(f) == f.value.len());
        assert(f.value.take(flen) =~= f.value);
        assert(e.len() == 4 + flen);
        lemma_be16_roundtrip(f.typ);
        lemma_be16_roundtrip(flen as u16);
        assert(b[0] == be16_bytes(f.typ)[0]);
        assert(b[1] == be16_bytes(f.typ)[1]);
        assert(b[2] == be16_bytes(flen as u16)[0]);
        assert(b[3] == be16_bytes(flen as u16)[1]);
        assert(be16(b[0], b[1]) == f.typ);
        assert(be16(b[2], b[3]) == flen as u16);
        assert(b.len() >= 4 + flen);
        assert(b.subrange(4, 4 + flen) =~= f.value);
        assert(b.skip(4 + flen) =~= rest);
        lemma_decode_truncated_tail(fs.drop_first(), typ, len, extra);
        assert(decode_fields(b) == seq![FieldView { typ: f.typ, value: b.subrange(4, 4 + flen) }]
            + decode_fields(b.skip(4 + flen)));
        assert(seq![f] + fs.drop_first() =~= fs);
    }
}

/// Truncation leniency: a buffer that ends in one TLV record header whose
/// declared length exceeds the bytes that follow it decodes as if that
/// trailing partial record were not there — it is dropped, and every prior
/// record is returned.
pub proof fn lemma_truncated_tail(p: PacketView, typ: u16, len: u16, extra: Seq<u8>)
    requires
        packet_fits(p),
        extra.len() < len,
    ensures
        decode_ok(encode_packet(p) + (be16_bytes(typ) + be16_bytes(len) + extra)),
        decode_packet(encode_packet(p) + (be16_bytes(typ) + be16_bytes(len) + extra)) == p,
{
    let tail = be16_bytes(typ) + be16_bytes(len) + extra;
    let b = encode_packet(p) + tail;
    lemma_be16_roundtrip(p.header);
    lemma_be16_roundtrip(p.sequence);
    assert(b[0] == be16_bytes(p.header)[0]);
    assert(b[1] == be16_bytes(p.header)[1]);
    assert(b[2] == be16_bytes(p.sequence)[0]);
    assert(b[3] == be16_bytes(p.sequence)[1]);
    assert(b.skip(4) =~= encode_fields(p.fields) + tail);
    lemma_decode_truncated_tail(p.fields, typ, len, extra);
    assert(decode_packet(b) =~= p);
}

proof fn lemma_fold_neighbor_append(n: NeighborView, a: Seq<FieldView>, b: Seq<FieldView>)
    ensures
        fold_neighbor(n, a + b) == fold_neighbor(fold_neighbor(n, a), b),
    decreases a.len(),
{
    if a.len() == 0 {
        assert(a + b =~= b);
    } else {
        assert((a + b)[0] == a[0]);
        assert((a + b).drop_first() =~= a.drop_first() + b);
        lemma_fold_neighbor_append(step_neighbor(n, a[0]), a.drop_first(), b);
    }
}

proof fn lemma_fold_group(r: NeighborView, g: Seq<FieldView>)
    requires
        g.len() <= 1,
    ensures
        fold_neighbor(r, g) == if g.len() == 0 {
            r
        } else {
            step_neighbor(r, g[0])
        },
{
    if g.len() != 0 {
        assert(g.drop_first() =~= Seq::<FieldView>::empty());
        assert(fold_neighbor(step_neighbor(r, g[0]), Seq::<FieldView>::empty())
            == step_neighbor(r, g[0]));
    }
}

proof fn lemma_text_of_encode(s: Seq<char>)
    ensures
        text_of(encode_utf8(s)) == s,
{
    vstd::utf8::encode_utf8_valid_utf8(s);
    vstd::utf8::encode_utf8_decode_utf8(s);
}

/// Round trip of the neighbor mapper: a record whose set attributes the
/// wire format can represent is reproduced exactly by encoding it to
/// fields and decoding those fields back — every set attribute comes back
/// with its value, and every absent attribute stays absent.
#[verifier::rlimit(100)]
#[verifier::spinoff_prover]
pub proof fn lemma_neighbor_roundtrip(n: NeighborView)
    requires
        wf_neighbor(n),
        representable(n),
    ensures
        neighbor_of_fields(neighbor_fields(n)) == n,
{
    if let Some(s) = n.board {
        lemma_text_of_encode(s);
    }
    if let Some(s) = n.identity {
        lemma_text_of_encode(s);
    }
    if let Some(s) = n.interface_name {
        lemma_text_of_encode(s);
    }
    if let Some(s) = n.platform {
        lemma_text_of_encode(s);
    }
    if let Some(s) = n.software_id {
        lemma_text_of_encode(s);
    }
    if let Some(s) = n.version {
        lemma_text_of_encode(s);
    }
    let e = NeighborView::empty();
    let t1 = text_field(MNDP_BOARD, n.board);
    let t2 = text_field(MNDP_IDENTITY, n.identity);
    let t3 = text_field(MNDP_INTERFACE_NAME, n.interface_name);
    let t4 = bytes_field(MNDP_IPV4_ADDRESS, n.ipv4_address);
    let t5 = bytes_field(MNDP_IPV6_ADDRESS, n.ipv6_address);
    let t6 = bytes_field(MNDP_MAC_ADDRESS, n.mac_address);
    let t7 = text_field(MNDP_PLATFORM, n.platform);
    let t8 = text_field(MNDP_SOFTWARE_ID, n.software_id);
    let t9 = unpack_field(n.unpack);
    let t10 = uptime_field(n.uptime);
    let t11 = text_field(MNDP_VERSION, n.version);
    let c2 = t1 + t2;
    let c3 = c2 + t3;
    let c4 = c3 + t4;
    let c5 = c4 + t5;
    let c6 = c5 + t6;
    let c7 = c6 + t7;
    let c8 = c7 + t8;
    let c9 = c8 + t9;
    let c10 = c9 + t10;
    let c11 = c10 + t11;
    assert(neighbor_fields(n) == c11);
    lemma_fold_neighbor_append(e, c10, t11);
    lemma_fold_neighbor_append(e, c9, t10);
    lemma_fold_neighbor_append(e, c8, t9);
    lemma_fold_neighbor_append(e, c7, t8);
    lemma_fold_neighbor_append(e, c6, t7);
    lemma_fold_neighbor_append(e, c5, t6);
    lemma_fold_neighbor_append(e, c4, t5);
    lemma_fold_neighbor_append(e, c3, t4);
    lemma_fold_neighbor_append(e, c2, t3);
    lemma_fold_neighbor_append(e, t1, t2);
    let r1 = fold_neighbor(e, t1);
    lemma_fold_group(e, t1);
    let r2 = fold_neighbor(r1, t2);
    lemma_fold_group(r1, t2);
    let r3 = fold_neighbor(r2, t3);
    lemma_fold_group(r2, t3);
    let r4 = fold_neighbor(r3, t4);
    lemma_fold_group(r3, t4);
    let r5 = fold_neighbor(r4, t5);
    lemma_fold_group(r4, t5);
    let r6 = fold_neighbor(r5, t6);
    lemma_fold_group(r5, t6);
    let r7 = fold_neighbor(r6, t7);
    lemma_fold_group(r6, t7);
    let r8 = fold_neighbor(r7, t8);
    lemma_fold_group(r7, t8);
    let r9 = fold_neighbor(r8, t9);
    lemma_fold_group(r8, t9);
    let r10 = fold_neighbor(r9, t10);
    lemma_fold_group(r9, t10);
    let r11 = fold_neighbor(r10, t11);
    lemma_fold_group(r10, t11);
    assert(neighbor_of_fields(neighbor_fields(n)) == r11);
    if let Some(s) = n.uptime {
        lemma_le32_roundtrip(s as u32);
    }
    assert(r11.board == n.board);
    assert(r11.identity == n.identity);
    assert(r11.interface_name == n.interface_name);
    assert(r11.ipv4_address == n.ipv4_address);
    assert(r11.ipv6_address == n.ipv6_address);
    assert(r11.mac_address == n.mac_address);
    assert(r11.platform == n.platform);
    assert(r11.software_id == n.software_id);
    assert(r11.unpack == n.unpack);
    assert(r11.uptime == n.uptime);
    assert(r11.version == n.version);
    assert(r11 =~= n);
}

/// Text decoding never fails: a field with a text type code sets its
/// attribute to some text, whatever bytes its value holds — including
/// invalid UTF-8, which decodes with lossy replacement.
pub proof fn lemma_text_decoding_total(n: NeighborView, f: FieldView)
    ensures
        f.typ == MNDP_BOARD ==> step_neighbor(n, f).board == Some(text_of(f.value)),
        f.typ == MNDP_IDENTITY ==> step_neighbor(n, f).identity == Some(text_of(f.value)),
        f.typ == MNDP_INTERFACE_NAME ==> step_neighbor(n, f).interface_name == Some(
            text_of(f.value),
        ),
        f.typ == MNDP_PLATFORM ==> step_neighbor(n, f).platform == Some(text_of(f.value)),
        f.typ == MNDP_SOFTWARE_ID ==> step_neighbor(n, f).software_id == Some(text_of(f.value)),
        f.typ == MNDP_VERSION ==> step_neighbor(n, f).version == Some(text_of(f.value)),
{
}

/// The view of every `Neighbor` value satisfies `wf_neighbor`: its address
/// attributes are arrays of exactly the widths the wire format fixes.
pub proof fn lemma_neighbor_view_wf(n: &Neighbor)
    ensures
        wf_neighbor(n@),
{
    broadcast use vstd::array::group_array_axioms;

}

/// A fixed-width field (IPv4, IPv6, MAC address) whose value length
/// differs from the width its type code requires.
pub open spec fn mismatched_fixed(f: FieldView) -> bool {
    ||| (f.typ == MNDP_IPV4_ADDRESS && f.value.len() != 4)
    ||| (f.typ == MNDP_IPV6_ADDRESS && f.value.len() != 16)
    ||| (f.typ == MNDP_MAC_ADDRESS && f.value.len() != 6)
}

proof fn lemma_fold_remove_inert(n: NeighborView, fs: Seq<FieldView>, j: int)
    requires
        0 <= j < fs.len(),
        forall|m: NeighborView| #[trigger] step_neighbor(m, fs[j]) == m,
    ensures
        fold_neighbor(n, fs) == fold_neighbor(n, fs.remove(j)),
    decreases fs.len(),
{
    if j == 0 {
        assert(fs.remove(0) =~= fs.drop_first());
        assert(step_neighbor(n, fs[0]) == n);
    } else {
        assert(fs.remove(j)[0] == fs[0]);
        assert(fs.remove(j).drop_first() =~= fs.drop_first().remove(j - 1));
        assert(fs.drop_first()[j - 1] == fs[j]);
        lemma_fold_remove_inert(step_neighbor(n, fs[0]), fs.drop_first(), j - 1);
    }
}

/// A fixed-width address field of the wrong length is dropped: the record
/// decoded from the field list equals the record decoded without that
/// field, so the mismatched field sets nothing and no other field's
/// decoding is affected.
pub proof fn lemma_mismatched_field_dropped(fs: Seq<FieldView>, j: int)
    requires
        0 <= j < fs.len(),
        mismatched_fixed(fs[j]),
    ensures
        neighbor_of_fields(fs) == neighbor_of_fields(fs.remove(j)),
{
    assert forall|m: NeighborView| #[trigger] step_neighbor(m, fs[j]) == m by {
    }
    lemma_fold_remove_inert(NeighborView::empty(), fs, j);
}

} // verus!
