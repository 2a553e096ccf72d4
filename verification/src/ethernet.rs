//! Ethernet frame codec: a fixed 14-byte header (destination, source,
//! ethertype) followed by an opaque payload.  Link-layer framing only; the
//! FCS is out of scope.

use vstd::prelude::*;
use vstd::slice::{slice_subrange, slice_to_vec};
use crate::util::{
    DecodeError, MacAddress, clone_bytes, res_view, spec_u16_hi, spec_u16_lo, spec_u16_of, u16_hi, u16_lo,
    u16_of, lemma_u16_bytes_round_trip, lemma_u16_of_bytes,
};

verus! {

/// An Ethernet frame.
///
/// Build one from scratch with `EthernetPacket::new()` and edit it field by
/// field, or decode one from wire bytes with `EthernetPacket::from_bytes()`.
#[derive(Clone, Debug)]
pub struct EthernetPacket {
    pub destination: MacAddress,
    pub source: MacAddress,
    pub protocol: u16,
    pub payload: Vec<u8>,
}

/// The mathematical model of an Ethernet frame.
#[verifier::ext_equal]
pub struct EthernetPacketView {
    pub destination: Seq<u8>,
    pub source: Seq<u8>,
    pub protocol: u16,
    pub payload: Seq<u8>,
}

impl View for EthernetPacket {
    type V = EthernetPacketView;

    open spec fn view(&self) -> EthernetPacketView {
        EthernetPacketView {
            destination: self.destination@,
            source: self.source@,
            protocol: self.protocol,
            payload: self.payload@,
        }
    }
}

impl DeepView for EthernetPacket {
    type V = EthernetPacketView;

    open spec fn deep_view(&self) -> EthernetPacketView {
        self.view()
    }
}

impl EthernetPacketView {
    /// Structural validity: both addresses hold exactly 6 bytes.
    pub open spec fn wf(self) -> bool {
        self.destination.len() == 6 && self.source.len() == 6
    }

    /// The 14 header bytes on the wire.
    pub open spec fn spec_header_bytes(self) -> Seq<u8> {
        self.destination + self.source
            + seq![spec_u16_hi(self.protocol), spec_u16_lo(self.protocol)]
    }

    /// The full frame on the wire: header then payload.
    pub open spec fn spec_bytes(self) -> Seq<u8> {
        self.spec_header_bytes() + self.payload
    }

    /// The decoding of a byte buffer as an Ethernet frame.
    pub open spec fn spec_from_bytes(b: Seq<u8>) -> Result<EthernetPacketView, DecodeError> {
        if b.len() < 14 {
            Err(DecodeError::LengthError)
        } else {
            Ok(
                EthernetPacketView {
                    destination: b.subrange(0, 6),
                    source: b.subrange(6, 12),
                    protocol: spec_u16_of(b[12], b[13]),
                    payload: b.skip(14),
                },
            )
        }
    }
}

impl EthernetPacket {
    /// Constructs an all-zero, empty frame.
    pub fn new() -> (r: Self)
        ensures
            r@.destination =~= seq![0u8, 0u8, 0u8, 0u8, 0u8, 0u8],
            r@.source =~= seq![0u8, 0u8, 0u8, 0u8, 0u8, 0u8],
            r@.protocol == 0,
            r@.payload =~= Seq::<u8>::empty(),
    {
        EthernetPacket {
            destination: MacAddress::new(),
            source: MacAddress::new(),
            protocol: 0,
            payload: Vec::new(),
        }
    }

    /// Decodes an Ethernet frame: fails with `LengthError` on fewer than
    /// 14 bytes, otherwise copies addresses, ethertype and payload.
    pub fn from_bytes(bytes: &[u8]) -> (r: Result<Self, DecodeError>)
        ensures
            res_view(r) == EthernetPacketView::spec_from_bytes(bytes@),
    {
        if bytes.len() < 14 {
            return Err(DecodeError::LengthError);
        }
        let destination = MacAddress::from_bytes(
            [bytes[0], bytes[1], bytes[2], bytes[3], bytes[4], bytes[5]],
        );
        let source = MacAddress::from_bytes(
            [bytes[6], bytes[7], bytes[8], bytes[9], bytes[10], bytes[11]],
        );
        let protocol = u16_of(bytes[12], bytes[13]);
        let payload = slice_to_vec(slice_subrange(bytes, 14, bytes.len()));
        let p = EthernetPacket { destination, source, protocol, payload };
        proof {
            assert(p@.destination =~= bytes@.subrange(0, 6));
            assert(p@.source =~= bytes@.subrange(6, 12));
            assert(p@.payload =~= bytes@.skip(14));
            assert(p@ =~= EthernetPacketView::spec_from_bytes(bytes@)->Ok_0);
        }
        Ok(p)
    }

    /// Encodes only the 14-byte header.
    pub fn header_to_bytes(&self) -> (r: Vec<u8>)
        ensures
            r@ == self@.spec_header_bytes(),
    {
        let mut packet: Vec<u8> = Vec::new();
        let d = self.destination.to_bytes();
        let s = self.source.to_bytes();
        let mut i: usize = 0;
        while i < 6
            invariant
                i <= 6,
                d@ == self@.destination,
                packet@ =~= self@.destination.take(i as int),
            decreases 6 - i,
        {
            packet.push(d[i]);
            i = i + 1;
        }
        let mut j: usize = 0;
        while j < 6
            invariant
                j <= 6,
                s@ == self@.source,
                packet@ =~= self@.destination + self@.source.take(j as int),
            decreases 6 - j,
        {
            packet.push(s[j]);
            j = j + 1;
        }
        packet.push(u16_hi(self.protocol));
        packet.push(u16_lo(self.protocol));
        proof {
            assert(packet@ =~= self@.spec_header_bytes());
        }
        packet
    }

    /// Encodes the full frame: header then payload.
    pub fn to_bytes(&self) -> (r: Vec<u8>)
        ensures
            r@ == self@.spec_bytes(),
    {
        let mut packet = self.header_to_bytes();
        let mut tail = clone_bytes(&self.payload);
        packet.append(&mut tail);
        packet
    }
}

/// Round trip: decoding an encoded frame recovers the frame.
pub proof fn lemma_ethernet_round_trip(v: EthernetPacketView)
    requires
        v.wf(),
    ensures
        EthernetPacketView::spec_from_bytes(v.spec_bytes()) == Ok::<EthernetPacketView, DecodeError>(v),
{
    let b = v.spec_bytes();
    lemma_u16_bytes_round_trip(v.protocol);
    assert(b.subrange(0, 6) =~= v.destination);
    assert(b.subrange(6, 12) =~= v.source);
    assert(b[12] == spec_u16_hi(v.protocol) && b[13] == spec_u16_lo(v.protocol));
    assert(b.skip(14) =~= v.payload);
    assert(EthernetPacketView::spec_from_bytes(b)->Ok_0 =~= v);
}

/// Round trip: re-encoding a decoded buffer reproduces the buffer exactly.
pub proof fn lemma_ethernet_bytes_round_trip(b: Seq<u8>)
    requires
        b.len() >= 14,
    ensures
        EthernetPacketView::spec_from_bytes(b)->Ok_0.spec_bytes() == b,
{
    let v = EthernetPacketView::spec_from_bytes(b)->Ok_0;
    lemma_u16_of_bytes(b[12], b[13]);
    assert(v.spec_bytes() =~= b);
}

} // verus!
