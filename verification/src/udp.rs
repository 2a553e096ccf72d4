//! UDP datagram codec: a fixed 8-byte header (ports, length, checksum)
//! followed by the payload, with a pseudo-header checksum that differs by
//! IP address family.

use vstd::prelude::*;
use vstd::slice::{slice_subrange, slice_to_vec};
use crate::util::{
    DecodeError, IpAddress, checksum, clone_bytes, res_view, spec_checksum, spec_u16_hi,
    spec_u16_lo, spec_u16_of, spec_u32_byte, u16_hi, u16_lo, u16_of, u32_byte,
    lemma_u16_bytes_round_trip, lemma_u16_of_bytes,
};

verus! {

/// A UDP datagram.
///
/// Build one from scratch with `UdpPacket::new()` and edit it field by
/// field, or decode one from wire bytes with `UdpPacket::from_bytes()`.
/// All multi-byte fields are held in native order and converted to
/// big-endian only on the wire.
#[derive(Clone, Debug)]
pub struct UdpPacket {
    /// Source port.
    pub source: u16,
    /// Destination port.
    pub destination: u16,
    /// Total datagram length in bytes, header included.
    pub length: u16,
    /// UDP checksum over the pseudo-header and the datagram.
    pub checksum: u16,
    /// Datagram data.
    pub payload: Vec<u8>,
}

/// The mathematical model of a UDP datagram.
#[verifier::ext_equal]
pub struct UdpPacketView {
    pub source: u16,
    pub destination: u16,
    pub length: u16,
    pub checksum: u16,
    pub payload: Seq<u8>,
}

impl View for UdpPacket {
    type V = UdpPacketView;

    open spec fn view(&self) -> UdpPacketView {
        UdpPacketView {
            source: self.source,
            destination: self.destination,
            length: self.length,
            checksum: self.checksum,
            payload: self.payload@,
        }
    }
}

impl DeepView for UdpPacket {
    type V = UdpPacketView;

    open spec fn deep_view(&self) -> UdpPacketView {
        self.view()
    }
}

impl UdpPacketView {
    /// The 8 header bytes on the wire.
    pub open spec fn spec_header_bytes(self) -> Seq<u8> {
        seq![
            spec_u16_hi(self.source),
            spec_u16_lo(self.source),
            spec_u16_hi(self.destination),
            spec_u16_lo(self.destination),
            spec_u16_hi(self.length),
            spec_u16_lo(self.length),
            spec_u16_hi(self.checksum),
            spec_u16_lo(self.checksum),
        ]
    }

    /// The full datagram on the wire: header then payload.
    pub open spec fn spec_bytes(self) -> Seq<u8> {
        self.spec_header_bytes() + self.payload
    }

    /// The decoding of a byte buffer as a UDP datagram.
    pub open spec fn spec_from_bytes(b: Seq<u8>) -> Result<UdpPacketView, DecodeError> {
        if b.len() < 8 {
            Err(DecodeError::LengthError)
        } else {
            Ok(
                UdpPacketView {
                    source: spec_u16_of(b[0], b[1]),
                    destination: spec_u16_of(b[2], b[3]),
                    length: spec_u16_of(b[4], b[5]),
                    checksum: spec_u16_of(b[6], b[7]),
                    payload: b.skip(8),
                },
            )
        }
    }

    /// The datagram with its `length` field recomputed from the encoding.
    pub open spec fn spec_recalculate_length(self) -> UdpPacketView {
        UdpPacketView { length: (8 + self.payload.len()) as u16, ..self }
    }

    /// The IPv4 pseudo-header followed by the datagram with a zeroed
    /// checksum field, the input of the IPv4-family UDP checksum.
    pub open spec fn spec_pseudo_v4(self, src: Seq<u8>, dst: Seq<u8>) -> Seq<u8> {
        let packet = UdpPacketView { checksum: 0, ..self }.spec_bytes();
        src + dst + seq![
            0u8,
            17u8,
            spec_u16_hi(packet.len() as u16),
            spec_u16_lo(packet.len() as u16),
        ] + packet
    }

    /// The IPv6 pseudo-header followed by the datagram with a zeroed
    /// checksum field, the input of the IPv6-family UDP checksum.
    pub open spec fn spec_pseudo_v6(self, src: Seq<u8>, dst: Seq<u8>) -> Seq<u8> {
        let packet = UdpPacketView { checksum: 0, ..self }.spec_bytes();
        src + dst + seq![
            spec_u32_byte(packet.len() as u32, 0),
            spec_u32_byte(packet.len() as u32, 1),
            spec_u32_byte(packet.len() as u32, 2),
            spec_u32_byte(packet.len() as u32, 3),
            0u8,
            0u8,
            0u8,
            17u8,
        ] + packet
    }

    /// The datagram with its checksum recomputed over the IPv4 pseudo-header.
    pub open spec fn spec_recalculate_checksum_v4(self, src: Seq<u8>, dst: Seq<u8>) -> UdpPacketView {
        UdpPacketView { checksum: spec_checksum(self.spec_pseudo_v4(src, dst)), ..self }
    }

    /// The datagram with its checksum recomputed over the IPv6 pseudo-header.
    pub open spec fn spec_recalculate_checksum_v6(self, src: Seq<u8>, dst: Seq<u8>) -> UdpPacketView {
        UdpPacketView { checksum: spec_checksum(self.spec_pseudo_v6(src, dst)), ..self }
    }
}

impl UdpPacket {
    /// Constructs an empty datagram with all fields zero.
    pub fn new() -> (r: Self)
        ensures
            r@ == (UdpPacketView {
                source: 0,
                destination: 0,
                length: 0,
                checksum: 0,
                payload: Seq::<u8>::empty(),
            }),
    {
        let r = UdpPacket { source: 0, destination: 0, length: 0, checksum: 0, payload: Vec::new() };
        proof {
            assert(r@ =~= (UdpPacketView {
                source: 0,
                destination: 0,
                length: 0,
                checksum: 0,
                payload: Seq::<u8>::empty(),
            }));
        }
        r
    }

    /// Decodes a UDP datagram: fails with `LengthError` on fewer than
    /// 8 bytes; the `length` field is read from the wire and deliberately
    /// not validated against the buffer.
    pub fn from_bytes(bytes: &[u8]) -> (r: Result<Self, DecodeError>)
        ensures
            res_view(r) == UdpPacketView::spec_from_bytes(bytes@),
    {
        if bytes.len() < 8 {
            return Err(DecodeError::LengthError);
        }
        let p = UdpPacket {
            source: u16_of(bytes[0], bytes[1]),
            destination: u16_of(bytes[2], bytes[3]),
            length: u16_of(bytes[4], bytes[5]),
            checksum: u16_of(bytes[6], bytes[7]),
            payload: slice_to_vec(slice_subrange(bytes, 8, bytes.len())),
        };
        proof {
            assert(p@.payload =~= bytes@.skip(8));
            assert(p@ =~= UdpPacketView::spec_from_bytes(bytes@)->Ok_0);
        }
        Ok(p)
    }

    /// Encodes only the 8-byte header.
    pub fn header_to_bytes(&self) -> (r: Vec<u8>)
        ensures
            r@ == self@.spec_header_bytes(),
    {
        let mut packet: Vec<u8> = Vec::new();
        packet.push(u16_hi(self.source));
        packet.push(u16_lo(self.source));
        packet.push(u16_hi(self.destination));
        packet.push(u16_lo(self.destination));
        packet.push(u16_hi(self.length));
        packet.push(u16_lo(self.length));
        packet.push(u16_hi(self.checksum));
        packet.push(u16_lo(self.checksum));
        proof {
            assert(packet@ =~= self@.spec_header_bytes());
        }
        packet
    }

    /// Encodes the full datagram: header then payload.
    pub fn to_bytes(&self) -> (r: Vec<u8>)
        ensures
            r@ == self@.spec_bytes(),
    {
        let mut packet = self.header_to_bytes();
        let mut tail = clone_bytes(&self.payload);
        packet.append(&mut tail);
        packet
    }

    /// Recomputes the `length` field from the encoded size (8 header bytes
    /// plus the payload).
    pub fn recalculate_length(&mut self)
        ensures
            final(self)@ == old(self)@.spec_recalculate_length(),
    {
        proof {
            assert(old(self)@.spec_bytes().len() == 8 + old(self)@.payload.len());
        }
        let b = self.to_bytes();
        self.length = b.len() as u16;
    }

    /// Recomputes the checksum over the family-specific pseudo-header and
    /// the datagram with its checksum field zeroed.  Mixing address
    /// families fails with `InvalidArgument` and leaves the datagram
    /// unchanged.
    pub fn recalculate_checksum(&mut self, source_ip: IpAddress, destination_ip: IpAddress) -> (r:
        Result<(), DecodeError>)
        ensures
            r is Ok <==> ((source_ip is V4 && destination_ip is V4) || (source_ip is V6
                && destination_ip is V6)),
            r is Err ==> r->Err_0 == DecodeError::InvalidArgument && *final(self) == *old(self),
            (source_ip is V4 && destination_ip is V4) ==> final(self)@ == old(
                self,
            )@.spec_recalculate_checksum_v4(source_ip->V4_0@, destination_ip->V4_0@),
            (source_ip is V6 && destination_ip is V6) ==> final(self)@ == old(
                self,
            )@.spec_recalculate_checksum_v6(source_ip->V6_0@, destination_ip->V6_0@),
    {
        match (source_ip, destination_ip) {
            (IpAddress::V4(src), IpAddress::V4(dst)) => {
                let saved = self.checksum;
                self.checksum = 0;
                let mut packet = self.to_bytes();
                self.checksum = saved;
                let mut pseudo = src.to_vec();
                let mut d = dst.to_vec();
                pseudo.append(&mut d);
                pseudo.push(0);
                pseudo.push(17);
                let plen = packet.len() as u16;
                pseudo.push(u16_hi(plen));
                pseudo.push(u16_lo(plen));
                pseudo.append(&mut packet);
                proof {
                    assert(pseudo@ =~= old(self)@.spec_pseudo_v4(src@, dst@));
                }
                self.checksum = checksum(pseudo);
                proof {
                    assert(self@ =~= old(self)@.spec_recalculate_checksum_v4(src@, dst@));
                }
                Ok(())
            },
            (IpAddress::V6(src), IpAddress::V6(dst)) => {
                let saved = self.checksum;
                self.checksum = 0;
                let mut packet = self.to_bytes();
                self.checksum = saved;
                let mut pseudo = src.to_vec();
                let mut d = dst.to_vec();
                pseudo.append(&mut d);
                let plen = packet.len() as u32;
                pseudo.push(u32_byte(plen, 0));
                pseudo.push(u32_byte(plen, 1));
                pseudo.push(u32_byte(plen, 2));
                pseudo.push(u32_byte(plen, 3));
                pseudo.push(0);
                pseudo.push(0);
                pseudo.push(0);
                pseudo.push(17);
                pseudo.append(&mut packet);
                proof {
                    assert(pseudo@ =~= old(self)@.spec_pseudo_v6(src@, dst@));
                }
                self.checksum = checksum(pseudo);
                proof {
                    assert(self@ =~= old(self)@.spec_recalculate_checksum_v6(src@, dst@));
                }
                Ok(())
            },
            _ => Err(DecodeError::InvalidArgument),
        }
    }

    /// Recomputes the `length` field and then the checksum.  Mixing
    /// address families fails with `InvalidArgument` and leaves the
    /// datagram unchanged.
    pub fn recalculate_all(&mut self, source_ip: IpAddress, destination_ip: IpAddress) -> (r:
        Result<(), DecodeError>)
        ensures
            r is Ok <==> ((source_ip is V4 && destination_ip is V4) || (source_ip is V6
                && destination_ip is V6)),
            r is Err ==> r->Err_0 == DecodeError::InvalidArgument && *final(self) == *old(self),
            (source_ip is V4 && destination_ip is V4) ==> final(self)@ == old(
                self,
            )@.spec_recalculate_length().spec_recalculate_checksum_v4(
                source_ip->V4_0@,
                destination_ip->V4_0@,
            ),
            (source_ip is V6 && destination_ip is V6) ==> final(self)@ == old(
                self,
            )@.spec_recalculate_length().spec_recalculate_checksum_v6(
                source_ip->V6_0@,
                destination_ip->V6_0@,
            ),
    {
        match (source_ip, destination_ip) {
            (IpAddress::V4(_), IpAddress::V4(_)) | (IpAddress::V6(_), IpAddress::V6(_)) => {
                self.recalculate_length();
                self.recalculate_checksum(source_ip, destination_ip)
            },
            _ => Err(DecodeError::InvalidArgument),
        }
    }
}

/// Round trip: decoding an encoded datagram recovers the datagram.
pub proof fn lemma_udp_round_trip(v: UdpPacketView)
    ensures
        UdpPacketView::spec_from_bytes(v.spec_bytes()) == Ok::<UdpPacketView, DecodeError>(v),
{
    let b = v.spec_bytes();
    lemma_u16_bytes_round_trip(v.source);
    lemma_u16_bytes_round_trip(v.destination);
    lemma_u16_bytes_round_trip(v.length);
    lemma_u16_bytes_round_trip(v.checksum);
    assert(b.skip(8) =~= v.payload);
    assert(UdpPacketView::spec_from_bytes(b)->Ok_0 =~= v);
}

/// Round trip: re-encoding a decoded buffer reproduces the buffer exactly.
pub proof fn lemma_udp_bytes_round_trip(b: Seq<u8>)
    requires
        b.len() >= 8,
    ensures
        UdpPacketView::spec_from_bytes(b)->Ok_0.spec_bytes() == b,
{
    let v = UdpPacketView::spec_from_bytes(b)->Ok_0;
    lemma_u16_of_bytes(b[0], b[1]);
    lemma_u16_of_bytes(b[2], b[3]);
    lemma_u16_of_bytes(b[4], b[5]);
    lemma_u16_of_bytes(b[6], b[7]);
    assert(v.spec_bytes() =~= b);
}

/// Recomputing the `length` field twice equals recomputing it once.
pub proof fn lemma_udp_recalculate_length_idempotent(v: UdpPacketView)
    ensures
        v.spec_recalculate_length().spec_recalculate_length() == v.spec_recalculate_length(),
{
}

/// Recomputing the IPv4-family checksum twice equals recomputing it once.
pub proof fn lemma_udp_recalculate_checksum_v4_idempotent(v: UdpPacketView, src: Seq<u8>, dst: Seq<u8>)
    ensures
        v.spec_recalculate_checksum_v4(src, dst).spec_recalculate_checksum_v4(src, dst)
            == v.spec_recalculate_checksum_v4(src, dst),
{
    let v1 = v.spec_recalculate_checksum_v4(src, dst);
    assert((UdpPacketView { checksum: 0, ..v1 }) =~= (UdpPacketView { checksum: 0, ..v }));
}

/// Recomputing the IPv6-family checksum twice equals recomputing it once.
pub proof fn lemma_udp_recalculate_checksum_v6_idempotent(v: UdpPacketView, src: Seq<u8>, dst: Seq<u8>)
    ensures
        v.spec_recalculate_checksum_v6(src, dst).spec_recalculate_checksum_v6(src, dst)
            == v.spec_recalculate_checksum_v6(src, dst),
{
    let v1 = v.spec_recalculate_checksum_v6(src, dst);
    assert((UdpPacketView { checksum: 0, ..v1 }) =~= (UdpPacketView { checksum: 0, ..v }));
}

/// Recomputing length and checksum twice equals recomputing them once,
/// for either matching address family.
pub proof fn lemma_udp_recalculate_all_idempotent(v: UdpPacketView, src: Seq<u8>, dst: Seq<u8>)
    ensures
        v.spec_recalculate_length().spec_recalculate_checksum_v4(src, dst).spec_recalculate_length()
            .spec_recalculate_checksum_v4(src, dst) == v.spec_recalculate_length()
            .spec_recalculate_checksum_v4(src, dst),
        v.spec_recalculate_length().spec_recalculate_checksum_v6(src, dst).spec_recalculate_length()
            .spec_recalculate_checksum_v6(src, dst) == v.spec_recalculate_length()
            .spec_recalculate_checksum_v6(src, dst),
{
    let w = v.spec_recalculate_length();
    let w4 = w.spec_recalculate_checksum_v4(src, dst);
    assert(w4.spec_recalculate_length() == w4);
    assert((UdpPacketView { checksum: 0, ..w4 }) =~= (UdpPacketView { checksum: 0, ..w }));
    let w6 = w.spec_recalculate_checksum_v6(src, dst);
    assert(w6.spec_recalculate_length() == w6);
    assert((UdpPacketView { checksum: 0, ..w6 }) =~= (UdpPacketView { checksum: 0, ..w }));
}

} // verus!
