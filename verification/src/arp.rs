//! ARP packet codec in two operating modes, chosen by type rather than by
//! runtime content: `ArpPacket` is the fixed Ethernet/IPv4 form (6-byte MAC
//! and 4-byte IPv4 addresses, validated on decode) and `ArpExtendedPacket`
//! carries variable-width address fields whose lengths come from the wire,
//! for non-Ethernet or non-IPv4 ARP variants.

use vstd::prelude::*;
use vstd::slice::{slice_subrange, slice_to_vec};
use crate::util::{
    DecodeError, Ipv4Address, MacAddress, clone_bytes, res_view, spec_u16_hi, spec_u16_lo,
    spec_u16_of, u16_hi, u16_lo, u16_of, lemma_u16_bytes_round_trip, lemma_u16_of_bytes,
};

verus! {

/// The ARP `operation` field.  Unrecognized wire values are preserved in
/// `Other` rather than rejected, since they appear for ARP variants this
/// library does not model.
#[derive(Clone, Copy, Debug, PartialEq, Eq, Structural)]
pub enum ArpOperation {
    Request,
    Reply,
    RarpRequest,
    RarpReply,
    InArpRequest,
    InArpReply,
    Other(u16),
}

impl ArpOperation {
    /// The decoding of a wire operation value; total, with `Other` as the
    /// fallback for unrecognized values.
    pub open spec fn spec_from_value(value: u16) -> ArpOperation {
        if value == 1 {
            ArpOperation::Request
        } else if value == 2 {
            ArpOperation::Reply
        } else if value == 3 {
            ArpOperation::RarpRequest
        } else if value == 4 {
            ArpOperation::RarpReply
        } else if value == 8 {
            ArpOperation::InArpRequest
        } else if value == 9 {
            ArpOperation::InArpReply
        } else {
            ArpOperation::Other(value)
        }
    }

    pub open spec fn spec_to_value(self) -> u16 {
        match self {
            ArpOperation::Request => 1,
            ArpOperation::Reply => 2,
            ArpOperation::RarpRequest => 3,
            ArpOperation::RarpReply => 4,
            ArpOperation::InArpRequest => 8,
            ArpOperation::InArpReply => 9,
            ArpOperation::Other(value) => value,
        }
    }

    /// An operation is canonical when `Other` is not used for a value that
    /// has a named variant; only canonical operations are produced by
    /// decoding.
    pub open spec fn canonical(self) -> bool {
        match self {
            ArpOperation::Other(value) => value != 1 && value != 2 && value != 3 && value != 4
                && value != 8 && value != 9,
            _ => true,
        }
    }

    pub fn from_value(value: u16) -> (r: Self)
        ensures
            r == Self::spec_from_value(value),
    {
        match value {
            1 => ArpOperation::Request,
            2 => ArpOperation::Reply,
            3 => ArpOperation::RarpRequest,
            4 => ArpOperation::RarpReply,
            8 => ArpOperation::InArpRequest,
            9 => ArpOperation::InArpReply,
            _ => ArpOperation::Other(value),
        }
    }

    pub fn to_value(&self) -> (r: u16)
        ensures
            r == self.spec_to_value(),
    {
        match self {
            ArpOperation::Request => 1,
            ArpOperation::Reply => 2,
            ArpOperation::RarpRequest => 3,
            ArpOperation::RarpReply => 4,
            ArpOperation::InArpRequest => 8,
            ArpOperation::InArpReply => 9,
            ArpOperation::Other(value) => *value,
        }
    }
}

/// Encoding then decoding any wire value is the identity.
pub proof fn lemma_arp_operation_value_round_trip(value: u16)
    ensures
        ArpOperation::spec_from_value(value).spec_to_value() == value,
{
}

/// Decoding then encoding recovers any canonical operation.
pub proof fn lemma_arp_operation_round_trip(op: ArpOperation)
    requires
        op.canonical(),
    ensures
        ArpOperation::spec_from_value(op.spec_to_value()) == op,
{
}

// ---------------------------------------------------------------------------
// Fixed mode
// ---------------------------------------------------------------------------

/// An ARP packet in fixed Ethernet/IPv4 mode: `hardware_type = 1`,
/// `protocol_type = 0x0800`, address lengths 6 and 4, all validated on
/// decode and written as constants on encode.
#[derive(Clone, Debug)]
pub struct ArpPacket {
    pub operation: ArpOperation,
    pub sender_mac: MacAddress,
    pub sender_ip: Ipv4Address,
    pub target_mac: MacAddress,
    pub target_ip: Ipv4Address,
}

/// The mathematical model of a fixed-mode ARP packet.
#[verifier::ext_equal]
pub struct ArpPacketView {
    pub operation: ArpOperation,
    pub sender_mac: Seq<u8>,
    pub sender_ip: Seq<u8>,
    pub target_mac: Seq<u8>,
    pub target_ip: Seq<u8>,
}

impl View for ArpPacket {
    type V = ArpPacketView;

    open spec fn view(&self) -> ArpPacketView {
        ArpPacketView {
            operation: self.operation,
            sender_mac: self.sender_mac@,
            sender_ip: self.sender_ip@,
            target_mac: self.target_mac@,
            target_ip: self.target_ip@,
        }
    }
}

impl DeepView for ArpPacket {
    type V = ArpPacketView;

    open spec fn deep_view(&self) -> ArpPacketView {
        self.view()
    }
}

impl ArpPacketView {
    /// Structural validity: the address fields have their fixed widths and
    /// the operation does not hide a named variant in `Other`.
    pub open spec fn wf(self) -> bool {
        self.sender_mac.len() == 6 && self.sender_ip.len() == 4 && self.target_mac.len() == 6
            && self.target_ip.len() == 4 && self.operation.canonical()
    }

    /// The 28 bytes on the wire: the 8-byte prologue with its constant
    /// fields, then the four address fields.
    pub open spec fn spec_header_bytes(self) -> Seq<u8> {
        seq![
            0u8,
            1u8,
            8u8,
            0u8,
            6u8,
            4u8,
            spec_u16_hi(self.operation.spec_to_value()),
            spec_u16_lo(self.operation.spec_to_value()),
        ] + self.sender_mac + self.sender_ip + self.target_mac + self.target_ip
    }

    /// The full packet on the wire; ARP carries no payload, so this equals
    /// the header encoding.
    pub open spec fn spec_bytes(self) -> Seq<u8> {
        self.spec_header_bytes()
    }

    /// The decoding of a byte buffer as a fixed-mode ARP packet.
    pub open spec fn spec_from_bytes(b: Seq<u8>) -> Result<ArpPacketView, DecodeError> {
        if b.len() < 28 {
            Err(DecodeError::LengthError)
        } else if spec_u16_of(b[0], b[1]) != 1 || spec_u16_of(b[2], b[3]) != 0x0800 || b[4] != 6
            || b[5] != 4 {
            Err(DecodeError::InvalidFieldValue)
        } else {
            Ok(
                ArpPacketView {
                    operation: ArpOperation::spec_from_value(spec_u16_of(b[6], b[7])),
                    sender_mac: b.subrange(8, 14),
                    sender_ip: b.subrange(14, 18),
                    target_mac: b.subrange(18, 24),
                    target_ip: b.subrange(24, 28),
                },
            )
        }
    }
}

impl ArpPacket {
    /// Constructs a request with all-zero addresses.
    pub fn new() -> (r: Self)
        ensures
            r@.operation == ArpOperation::Request,
            r@.wf(),
    {
        ArpPacket {
            operation: ArpOperation::Request,
            sender_mac: MacAddress::new(),
            sender_ip: Ipv4Address::new(0, 0, 0, 0),
            target_mac: MacAddress::new(),
            target_ip: Ipv4Address::new(0, 0, 0, 0),
        }
    }

    /// Decodes a fixed-mode ARP packet: fails with `LengthError` on fewer
    /// than 28 bytes and with `InvalidFieldValue` when the prologue does
    /// not declare Ethernet/IPv4 with address lengths 6 and 4.
    pub fn from_bytes(bytes: &[u8]) -> (r: Result<Self, DecodeError>)
        ensures
            res_view(r) == ArpPacketView::spec_from_bytes(bytes@),
    {
        if bytes.len() < 28 {
            return Err(DecodeError::LengthError);
        }
        if u16_of(bytes[0], bytes[1]) != 1 || u16_of(bytes[2], bytes[3]) != 0x0800 || bytes[4] != 6
            || bytes[5] != 4 {
            return Err(DecodeError::InvalidFieldValue);
        }
        let p = ArpPacket {
            operation: ArpOperation::from_value(u16_of(bytes[6], bytes[7])),
            sender_mac: MacAddress::from_bytes(
                [bytes[8], bytes[9], bytes[10], bytes[11], bytes[12], bytes[13]],
            ),
            sender_ip: Ipv4Address::new(bytes[14], bytes[15], bytes[16], bytes[17]),
            target_mac: MacAddress::from_bytes(
                [bytes[18], bytes[19], bytes[20], bytes[21], bytes[22], bytes[23]],
            ),
            target_ip: Ipv4Address::new(bytes[24], bytes[25], bytes[26], bytes[27]),
        };
        proof {
            assert(p@.sender_mac =~= bytes@.subrange(8, 14));
            assert(p@.sender_ip =~= bytes@.subrange(14, 18));
            assert(p@.target_mac =~= bytes@.subrange(18, 24));
            assert(p@.target_ip =~= bytes@.subrange(24, 28));
            assert(p@ =~= ArpPacketView::spec_from_bytes(bytes@)->Ok_0);
        }
        Ok(p)
    }

    /// Encodes the packet: the 8-byte prologue with its constant fields,
    /// then sender and target addresses.
    pub fn header_to_bytes(&self) -> (r: Vec<u8>)
        ensures
            r@ == self@.spec_header_bytes(),
    {
        let mut packet: Vec<u8> = Vec::new();
        packet.push(0);
        packet.push(1);
        packet.push(8);
        packet.push(0);
        packet.push(6);
        packet.push(4);
        let op = self.operation.to_value();
        packet.push(u16_hi(op));
        packet.push(u16_lo(op));
        let mut f = self.sender_mac.to_vec();
        packet.append(&mut f);
        let mut f = self.sender_ip.to_vec();
        packet.append(&mut f);
        let mut f = self.target_mac.to_vec();
        packet.append(&mut f);
        let mut f = self.target_ip.to_vec();
        packet.append(&mut f);
        proof {
            assert(packet@ =~= self@.spec_header_bytes());
        }
        packet
    }

    /// Identical to `header_to_bytes()`: an ARP packet has no payload.
    pub fn to_bytes(&self) -> (r: Vec<u8>)
        ensures
            r@ == self@.spec_bytes(),
    {
        self.header_to_bytes()
    }
}

/// Round trip: decoding an encoded fixed-mode packet recovers the packet.
pub proof fn lemma_arp_round_trip(v: ArpPacketView)
    requires
        v.wf(),
    ensures
        ArpPacketView::spec_from_bytes(v.spec_bytes()) == Ok::<ArpPacketView, DecodeError>(v),
{
    let b = v.spec_bytes();
    let op = v.operation.spec_to_value();
    lemma_u16_bytes_round_trip(op);
    assert(spec_u16_of(b[0], b[1]) == 1 && spec_u16_of(b[2], b[3]) == 0x0800);
    assert(spec_u16_of(b[6], b[7]) == op);
    lemma_arp_operation_round_trip(v.operation);
    assert(b.subrange(8, 14) =~= v.sender_mac);
    assert(b.subrange(14, 18) =~= v.sender_ip);
    assert(b.subrange(18, 24) =~= v.target_mac);
    assert(b.subrange(24, 28) =~= v.target_ip);
    assert(ArpPacketView::spec_from_bytes(b)->Ok_0 =~= v);
}

/// Round trip: re-encoding a decoded 28-byte buffer reproduces it exactly.
pub proof fn lemma_arp_bytes_round_trip(b: Seq<u8>)
    requires
        b.len() == 28,
        ArpPacketView::spec_from_bytes(b) is Ok,
    ensures
        ArpPacketView::spec_from_bytes(b)->Ok_0.spec_bytes() == b,
{
    let v = ArpPacketView::spec_from_bytes(b)->Ok_0;
    lemma_u16_of_bytes(b[0], b[1]);
    lemma_u16_of_bytes(b[2], b[3]);
    lemma_u16_of_bytes(b[6], b[7]);
    lemma_arp_operation_value_round_trip(spec_u16_of(b[6], b[7]));
    assert(v.spec_bytes() =~= b);
}

// ---------------------------------------------------------------------------
// Extended mode
// ---------------------------------------------------------------------------

/// An ARP packet in extended mode: address widths are carried in the
/// `hardware_addr_len` and `protocol_addr_len` fields and the four address
/// fields are variable-length byte strings, enabling legacy variants such
/// as AX.25 or ATM ARP.
#[derive(Clone, Debug)]
pub struct ArpExtendedPacket {
    pub hardware_type: u16,
    pub protocol_type: u16,
    pub hardware_addr_len: u8,
    pub protocol_addr_len: u8,
    pub operation: ArpOperation,
    pub sender_hardware_addr: Vec<u8>,
    pub sender_protocol_addr: Vec<u8>,
    pub target_hardware_addr: Vec<u8>,
    pub target_protocol_addr: Vec<u8>,
}

/// The mathematical model of an extended-mode ARP packet.
#[verifier::ext_equal]
pub struct ArpExtendedPacketView {
    pub hardware_type: u16,
    pub protocol_type: u16,
    pub hardware_addr_len: u8,
    pub protocol_addr_len: u8,
    pub operation: ArpOperation,
    pub sender_hardware_addr: Seq<u8>,
    pub sender_protocol_addr: Seq<u8>,
    pub target_hardware_addr: Seq<u8>,
    pub target_protocol_addr: Seq<u8>,
}

impl View for ArpExtendedPacket {
    type V = ArpExtendedPacketView;

    open spec fn view(&self) -> ArpExtendedPacketView {
        ArpExtendedPacketView {
            hardware_type: self.hardware_type,
            protocol_type: self.protocol_type,
            hardware_addr_len: self.hardware_addr_len,
            protocol_addr_len: self.protocol_addr_len,
            operation: self.operation,
            sender_hardware_addr: self.sender_hardware_addr@,
            sender_protocol_addr: self.sender_protocol_addr@,
            target_hardware_addr: self.target_hardware_addr@,
            target_protocol_addr: self.target_protocol_addr@,
        }
    }
}

impl DeepView for ArpExtendedPacket {
    type V = ArpExtendedPacketView;

    open spec fn deep_view(&self) -> ArpExtendedPacketView {
        self.view()
    }
}

impl ArpExtendedPacketView {
    /// Structural validity: every address field's length matches the
    /// declared length field, and the operation is canonical.
    pub open spec fn wf(self) -> bool {
        self.sender_hardware_addr.len() == self.hardware_addr_len
            && self.sender_protocol_addr.len() == self.protocol_addr_len
            && self.target_hardware_addr.len() == self.hardware_addr_len
            && self.target_protocol_addr.len() == self.protocol_addr_len
            && self.operation.canonical()
    }

    /// The bytes on the wire: the 8-byte prologue, then the four address
    /// fields in sender-hardware, sender-protocol, target-hardware,
    /// target-protocol order, with no padding.
    pub open spec fn spec_header_bytes(self) -> Seq<u8> {
        seq![
            spec_u16_hi(self.hardware_type),
            spec_u16_lo(self.hardware_type),
            spec_u16_hi(self.protocol_type),
            spec_u16_lo(self.protocol_type),
            self.hardware_addr_len,
            self.protocol_addr_len,
            spec_u16_hi(self.operation.spec_to_value()),
            spec_u16_lo(self.operation.spec_to_value()),
        ] + self.sender_hardware_addr + self.sender_protocol_addr + self.target_hardware_addr
            + self.target_protocol_addr
    }

    /// The full packet on the wire; ARP carries no payload.
    pub open spec fn spec_bytes(self) -> Seq<u8> {
        self.spec_header_bytes()
    }

    /// The decoding of a byte buffer as an extended-mode ARP packet: the
    /// address lengths are read from the wire and used to slice the four
    /// address fields.
    pub open spec fn spec_from_bytes(b: Seq<u8>) -> Result<ArpExtendedPacketView, DecodeError> {
        if b.len() < 8 {
            Err(DecodeError::LengthError)
        } else {
            let hl = b[4] as int;
            let pl = b[5] as int;
            if b.len() < 8 + 2 * hl + 2 * pl {
                Err(DecodeError::LengthError)
            } else {
                Ok(
                    ArpExtendedPacketView {
                        hardware_type: spec_u16_of(b[0], b[1]),
                        protocol_type: spec_u16_of(b[2], b[3]),
                        hardware_addr_len: b[4],
                        protocol_addr_len: b[5],
                        operation: ArpOperation::spec_from_value(spec_u16_of(b[6], b[7])),
                        sender_hardware_addr: b.subrange(8, 8 + hl),
                        sender_protocol_addr: b.subrange(8 + hl, 8 + hl + pl),
                        target_hardware_addr: b.subrange(8 + hl + pl, 8 + 2 * hl + pl),
                        target_protocol_addr: b.subrange(8 + 2 * hl + pl, 8 + 2 * hl + 2 * pl),
                    },
                )
            }
        }
    }
}

impl ArpExtendedPacket {
    /// Constructs an Ethernet/IPv4-shaped request with empty address
    /// fields.
    pub fn new() -> (r: Self)
        ensures
            r@.hardware_type == 1,
            r@.protocol_type == 0x0800,
            r@.hardware_addr_len == 6,
            r@.protocol_addr_len == 4,
            r@.operation == ArpOperation::Request,
            r@.sender_hardware_addr =~= Seq::<u8>::empty(),
            r@.sender_protocol_addr =~= Seq::<u8>::empty(),
            r@.target_hardware_addr =~= Seq::<u8>::empty(),
            r@.target_protocol_addr =~= Seq::<u8>::empty(),
    {
        ArpExtendedPacket {
            hardware_type: 1,
            protocol_type: 0x0800,
            hardware_addr_len: 6,
            protocol_addr_len: 4,
            operation: ArpOperation::Request,
            sender_hardware_addr: Vec::new(),
            sender_protocol_addr: Vec::new(),
            target_hardware_addr: Vec::new(),
            target_protocol_addr: Vec::new(),
        }
    }

    /// Decodes an extended-mode ARP packet: fails with `LengthError` when
    /// the buffer is shorter than the 8-byte prologue or than the four
    /// address fields the prologue declares.
    pub fn from_bytes(bytes: &[u8]) -> (r: Result<Self, DecodeError>)
        ensures
            res_view(r) == ArpExtendedPacketView::spec_from_bytes(bytes@),
    {
        if bytes.len() < 8 {
            return Err(DecodeError::LengthError);
        }
        let hl = bytes[4] as usize;
        let pl = bytes[5] as usize;
        if bytes.len() < 8 + 2 * hl + 2 * pl {
            return Err(DecodeError::LengthError);
        }
        let p = ArpExtendedPacket {
            hardware_type: u16_of(bytes[0], bytes[1]),
            protocol_type: u16_of(bytes[2], bytes[3]),
            hardware_addr_len: bytes[4],
            protocol_addr_len: bytes[5],
            operation: ArpOperation::from_value(u16_of(bytes[6], bytes[7])),
            sender_hardware_addr: slice_to_vec(slice_subrange(bytes, 8, 8 + hl)),
            sender_protocol_addr: slice_to_vec(slice_subrange(bytes, 8 + hl, 8 + hl + pl)),
            target_hardware_addr: slice_to_vec(
                slice_subrange(bytes, 8 + hl + pl, 8 + 2 * hl + pl),
            ),
            target_protocol_addr: slice_to_vec(
                slice_subrange(bytes, 8 + 2 * hl + pl, 8 + 2 * hl + 2 * pl),
            ),
        };
        proof {
            assert(p@ =~= ArpExtendedPacketView::spec_from_bytes(bytes@)->Ok_0);
        }
        Ok(p)
    }

    /// Encodes the packet: the 8-byte prologue, then the four address
    /// fields with no padding.
    pub fn header_to_bytes(&self) -> (r: Vec<u8>)
        ensures
            r@ == self@.spec_header_bytes(),
    {
        let mut packet: Vec<u8> = Vec::new();
        packet.push(u16_hi(self.hardware_type));
        packet.push(u16_lo(self.hardware_type));
        packet.push(u16_hi(self.protocol_type));
        packet.push(u16_lo(self.protocol_type));
        packet.push(self.hardware_addr_len);
        packet.push(self.protocol_addr_len);
        let op = self.operation.to_value();
        packet.push(u16_hi(op));
        packet.push(u16_lo(op));
        let mut f = clone_bytes(&self.sender_hardware_addr);
        packet.append(&mut f);
        let mut f = clone_bytes(&self.sender_protocol_addr);
        packet.append(&mut f);
        let mut f = clone_bytes(&self.target_hardware_addr);
        packet.append(&mut f);
        let mut f = clone_bytes(&self.target_protocol_addr);
        packet.append(&mut f);
        proof {
            assert(packet@ =~= self@.spec_header_bytes());
        }
        packet
    }

    /// Identical to `header_to_bytes()`: an ARP packet has no payload.
    pub fn to_bytes(&self) -> (r: Vec<u8>)
        ensures
            r@ == self@.spec_bytes(),
    {
        self.header_to_bytes()
    }
}

/// Round trip: decoding an encoded extended-mode packet recovers the
/// packet.
pub proof fn lemma_arp_extended_round_trip(v: ArpExtendedPacketView)
    requires
        v.wf(),
    ensures
        ArpExtendedPacketView::spec_from_bytes(v.spec_bytes()) == Ok::<
            ArpExtendedPacketView,
            DecodeError,
        >(v),
{
    let b = v.spec_bytes();
    lemma_u16_bytes_round_trip(v.hardware_type);
    lemma_u16_bytes_round_trip(v.protocol_type);
    lemma_u16_bytes_round_trip(v.operation.spec_to_value());
    lemma_arp_operation_round_trip(v.operation);
    let hl = v.hardware_addr_len as int;
    let pl = v.protocol_addr_len as int;
    assert(b[4] == v.hardware_addr_len && b[5] == v.protocol_addr_len);
    assert(b.subrange(8, 8 + hl) =~= v.sender_hardware_addr);
    assert(b.subrange(8 + hl, 8 + hl + pl) =~= v.sender_protocol_addr);
    assert(b.subrange(8 + hl + pl, 8 + 2 * hl + pl) =~= v.target_hardware_addr);
    assert(b.subrange(8 + 2 * hl + pl, 8 + 2 * hl + 2 * pl) =~= v.target_protocol_addr);
    assert(ArpExtendedPacketView::spec_from_bytes(b)->Ok_0 =~= v);
}

/// Round trip: re-encoding a decoded buffer of exactly the declared size
/// reproduces it exactly.
pub proof fn lemma_arp_extended_bytes_round_trip(b: Seq<u8>)
    requires
        b.len() >= 8,
        b.len() == 8 + 2 * (b[4] as int) + 2 * (b[5] as int),
    ensures
        ArpExtendedPacketView::spec_from_bytes(b)->Ok_0.spec_bytes() == b,
{
    let v = ArpExtendedPacketView::spec_from_bytes(b)->Ok_0;
    lemma_u16_of_bytes(b[0], b[1]);
    lemma_u16_of_bytes(b[2], b[3]);
    lemma_u16_of_bytes(b[6], b[7]);
    lemma_arp_operation_value_round_trip(spec_u16_of(b[6], b[7]));
    assert(v.spec_bytes() =~= b);
}

} // verus!
