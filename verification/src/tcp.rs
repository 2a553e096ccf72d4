//! TCP segment codec: a fixed 20-byte header, a type-length-value option
//! region padded to a 4-byte boundary, and the payload, with a
//! pseudo-header checksum over the source and destination IPv4 addresses.

use vstd::prelude::*;
use vstd::slice::{slice_subrange, slice_to_vec};
use crate::options::{
    TlvOptionView, lemma_pad4_properties, lemma_parse_tlv_round_trip, lemma_tlv_list_bytes_snoc,
    spec_pad4, spec_parse_prepend, spec_parse_tlv, spec_tlv_list_bytes, spec_tlv_list_wf,
};
use crate::util::{
    DecodeError, Ipv4Address, checksum, clone_bytes, res_view, spec_checksum, spec_u16_hi,
    spec_u16_lo, spec_u16_of, spec_u32_byte, spec_u32_of, u16_hi, u16_lo, u16_of, u32_byte,
    u32_of, lemma_u16_bytes_round_trip, lemma_u32_bytes_round_trip,
};

verus! {

/// A TCP option: a kind byte, a total-length byte (kind and length bytes
/// included) and the option data.
#[derive(Clone, Debug)]
pub struct TcpOption {
    /// The option kind.
    pub kind: u8,
    /// The option's total length in bytes.
    pub length: u8,
    /// The option data.
    pub data: Vec<u8>,
}

impl View for TcpOption {
    type V = TlvOptionView;

    open spec fn view(&self) -> TlvOptionView {
        TlvOptionView { kind: self.kind, length: self.length, data: self.data@ }
    }
}

impl DeepView for TcpOption {
    type V = TlvOptionView;

    open spec fn deep_view(&self) -> TlvOptionView {
        self.view()
    }
}

impl TcpOption {
    /// Constructs an empty option with all fields zero.
    pub fn new() -> (r: Self)
        ensures
            r@.kind == 0 && r@.length == 0 && r@.data =~= Seq::<u8>::empty(),
    {
        TcpOption { kind: 0, length: 0, data: Vec::new() }
    }

    /// Constructs exactly one option from its own bytes; this does not
    /// search a list for option boundaries.
    pub fn from_bytes(bytes: Vec<u8>) -> (r: Self)
        requires
            bytes@.len() >= 2,
        ensures
            r@.kind == bytes@[0],
            r@.length == bytes@[1],
            r@.data == bytes@.skip(2),
    {
        TcpOption {
            kind: bytes[0],
            length: bytes[1],
            data: slice_to_vec(slice_subrange(bytes.as_slice(), 2, bytes.len())),
        }
    }

    /// Encodes the option without any padding.
    pub fn to_bytes(&self) -> (r: Vec<u8>)
        ensures
            r@ == self@.spec_bytes(),
    {
        let mut option: Vec<u8> = Vec::new();
        option.push(self.kind);
        option.push(self.length);
        let mut tail = clone_bytes(&self.data);
        option.append(&mut tail);
        proof {
            assert(option@ =~= self@.spec_bytes());
        }
        option
    }

    /// Recomputes the `length` field as 2 plus the data length, truncated
    /// to the 8-bit field.
    pub fn recalculate_length(&mut self)
        ensures
            final(self)@ == old(self)@.spec_recalculate_length(),
    {
        let n = self.data.len();
        self.length = ((n % 256 + 2) % 256) as u8;
    }
}

/// The nine TCP control flags, `nonce_sum` first, then the eight classic
/// bits in wire order.
#[derive(Clone, Copy, Debug, PartialEq, Eq, Structural)]
pub struct TcpFlags {
    pub nonce_sum: bool,
    pub cwr: bool,
    pub ece: bool,
    pub urg: bool,
    pub ack: bool,
    pub psh: bool,
    pub rst: bool,
    pub syn: bool,
    pub fin: bool,
}

impl TcpFlags {
    /// The flag byte holding the eight classic bits, `cwr` down to `fin`
    /// from most to least significant.
    pub open spec fn spec_other_bits(self) -> u8 {
        ((if self.cwr {
            128int
        } else {
            0int
        }) + (if self.ece {
            64int
        } else {
            0int
        }) + (if self.urg {
            32int
        } else {
            0int
        }) + (if self.ack {
            16int
        } else {
            0int
        }) + (if self.psh {
            8int
        } else {
            0int
        }) + (if self.rst {
            4int
        } else {
            0int
        }) + (if self.syn {
            2int
        } else {
            0int
        }) + (if self.fin {
            1int
        } else {
            0int
        })) as u8
    }

    /// The decoding of the `nonce_sum` bit and the packed flag byte.
    pub open spec fn spec_from_bits(nonce_sum: bool, other: u8) -> TcpFlags {
        TcpFlags {
            nonce_sum,
            cwr: (other / 128) % 2 == 1,
            ece: (other / 64) % 2 == 1,
            urg: (other / 32) % 2 == 1,
            ack: (other / 16) % 2 == 1,
            psh: (other / 8) % 2 == 1,
            rst: (other / 4) % 2 == 1,
            syn: (other / 2) % 2 == 1,
            fin: other % 2 == 1,
        }
    }

    /// Constructs flags that are all clear.
    pub fn new() -> (r: Self)
        ensures
            r == TcpFlags::spec_from_bits(false, 0),
    {
        TcpFlags {
            nonce_sum: false,
            cwr: false,
            ece: false,
            urg: false,
            ack: false,
            psh: false,
            rst: false,
            syn: false,
            fin: false,
        }
    }

    /// Unpacks the `nonce_sum` bit and the byte holding the other eight
    /// flags in wire order.
    pub fn from_bits(nonce_sum: bool, other: u8) -> (r: Self)
        ensures
            r == TcpFlags::spec_from_bits(nonce_sum, other),
    {
        TcpFlags {
            nonce_sum,
            cwr: (other / 128) % 2 == 1,
            ece: (other / 64) % 2 == 1,
            urg: (other / 32) % 2 == 1,
            ack: (other / 16) % 2 == 1,
            psh: (other / 8) % 2 == 1,
            rst: (other / 4) % 2 == 1,
            syn: (other / 2) % 2 == 1,
            fin: other % 2 == 1,
        }
    }

    /// Packs the flags back: the `nonce_sum` bit and the byte holding the
    /// other eight flags in wire order.
    pub fn to_bits(&self) -> (r: (bool, u8))
        ensures
            r.0 == self.nonce_sum,
            r.1 == self.spec_other_bits(),
    {
        let mut byte: u8 = 0;
        if self.cwr {
            byte = byte + 128;
        }
        if self.ece {
            byte = byte + 64;
        }
        if self.urg {
            byte = byte + 32;
        }
        if self.ack {
            byte = byte + 16;
        }
        if self.psh {
            byte = byte + 8;
        }
        if self.rst {
            byte = byte + 4;
        }
        if self.syn {
            byte = byte + 2;
        }
        if self.fin {
            byte = byte + 1;
        }
        (self.nonce_sum, byte)
    }
}

/// Packing then unpacking any flag set is the identity.
pub proof fn lemma_tcp_flags_round_trip(f: TcpFlags)
    ensures
        TcpFlags::spec_from_bits(f.nonce_sum, f.spec_other_bits()) == f,
{
}

/// Unpacking then packing any flag byte is the identity.
pub proof fn lemma_tcp_flags_bits_round_trip(nonce_sum: bool, other: u8)
    ensures
        TcpFlags::spec_from_bits(nonce_sum, other).spec_other_bits() == other,
{
    assert(other == 128 * ((other / 128) % 2) + 64 * ((other / 64) % 2) + 32 * ((other / 32) % 2)
        + 16 * ((other / 16) % 2) + 8 * ((other / 8) % 2) + 4 * ((other / 4) % 2) + 2 * ((other
        / 2) % 2) + other % 2) by (bit_vector);
}

/// A TCP segment.
///
/// Build one from scratch with `TcpPacket::new()` and edit it field by
/// field, or decode one from wire bytes with `TcpPacket::from_bytes()`.
/// All multi-byte fields are held in native order and converted to
/// big-endian only on the wire.
#[derive(Clone, Debug)]
pub struct TcpPacket {
    /// Source port.
    pub source: u16,
    /// Destination port.
    pub destination: u16,
    /// Sequence number.
    pub sequence_number: u32,
    /// Acknowledgement number.
    pub acknowledgement_number: u32,
    /// Header length in bytes (not in 32-bit words as on the wire).
    pub data_offset: u8,
    /// The control flags.
    pub flags: TcpFlags,
    /// Receive window size.
    pub window_size: u16,
    /// Checksum over the pseudo-header and the segment.
    pub checksum: u16,
    /// Urgent pointer.
    pub urgent_pointer: u16,
    /// The options, without list padding.
    pub options: Vec<TcpOption>,
    /// Segment data.
    pub payload: Vec<u8>,
}

/// The mathematical model of a TCP segment.
#[verifier::ext_equal]
pub struct TcpPacketView {
    pub source: u16,
    pub destination: u16,
    pub sequence_number: u32,
    pub acknowledgement_number: u32,
    pub data_offset: u8,
    pub flags: TcpFlags,
    pub window_size: u16,
    pub checksum: u16,
    pub urgent_pointer: u16,
    pub options: Seq<TlvOptionView>,
    pub payload: Seq<u8>,
}

impl View for TcpPacket {
    type V = TcpPacketView;

    open spec fn view(&self) -> TcpPacketView {
        TcpPacketView {
            source: self.source,
            destination: self.destination,
            sequence_number: self.sequence_number,
            acknowledgement_number: self.acknowledgement_number,
            data_offset: self.data_offset,
            flags: self.flags,
            window_size: self.window_size,
            checksum: self.checksum,
            urgent_pointer: self.urgent_pointer,
            options: self.options.deep_view(),
            payload: self.payload@,
        }
    }
}

impl DeepView for TcpPacket {
    type V = TcpPacketView;

    open spec fn deep_view(&self) -> TcpPacketView {
        self.view()
    }
}

impl TcpPacketView {
    /// Byte 12 on the wire: the data offset in 32-bit words in the high
    /// nibble, the `nonce_sum` flag in bit 0.
    pub open spec fn spec_byte12(self) -> u8 {
        (((self.data_offset / 4) % 16) * 16 + (if self.flags.nonce_sum {
            1int
        } else {
            0int
        })) as u8
    }

    /// The 20 fixed header bytes on the wire.
    pub open spec fn spec_fixed_bytes(self) -> Seq<u8> {
        seq![
            spec_u16_hi(self.source),
            spec_u16_lo(self.source),
            spec_u16_hi(self.destination),
            spec_u16_lo(self.destination),
            spec_u32_byte(self.sequence_number, 0),
            spec_u32_byte(self.sequence_number, 1),
            spec_u32_byte(self.sequence_number, 2),
            spec_u32_byte(self.sequence_number, 3),
            spec_u32_byte(self.acknowledgement_number, 0),
            spec_u32_byte(self.acknowledgement_number, 1),
            spec_u32_byte(self.acknowledgement_number, 2),
            spec_u32_byte(self.acknowledgement_number, 3),
            self.spec_byte12(),
            self.flags.spec_other_bits(),
            spec_u16_hi(self.window_size),
            spec_u16_lo(self.window_size),
            spec_u16_hi(self.checksum),
            spec_u16_lo(self.checksum),
            spec_u16_hi(self.urgent_pointer),
            spec_u16_lo(self.urgent_pointer),
        ]
    }

    /// The header on the wire: fixed bytes, option bytes, and no-op/EOL
    /// padding to a 4-byte boundary.
    pub open spec fn spec_header_bytes(self) -> Seq<u8> {
        let head = self.spec_fixed_bytes() + spec_tlv_list_bytes(self.options);
        head + spec_pad4(head.len() as int)
    }

    /// The full segment on the wire: header then payload.
    pub open spec fn spec_bytes(self) -> Seq<u8> {
        self.spec_header_bytes() + self.payload
    }

    /// Structural validity: every option is valid and the `data_offset`
    /// field equals the real encoded header size (at most 60 bytes).
    pub open spec fn wf(self) -> bool {
        spec_tlv_list_wf(self.options) && self.data_offset == self.spec_header_bytes().len()
            && self.data_offset <= 60
    }

    /// The decoding of a byte buffer as a TCP segment.
    pub open spec fn spec_from_bytes(b: Seq<u8>) -> Result<TcpPacketView, DecodeError> {
        if b.len() < 20 {
            Err(DecodeError::LengthError)
        } else {
            let doff = (b[12] / 16) * 4;
            if doff < 20 {
                Err(DecodeError::InvalidFieldValue)
            } else if doff > b.len() {
                Err(DecodeError::LengthError)
            } else {
                match spec_parse_tlv(b, 20, doff as int) {
                    Err(e) => Err(e),
                    Ok(opts) => Ok(
                        TcpPacketView {
                            source: spec_u16_of(b[0], b[1]),
                            destination: spec_u16_of(b[2], b[3]),
                            sequence_number: spec_u32_of(b[4], b[5], b[6], b[7]),
                            acknowledgement_number: spec_u32_of(b[8], b[9], b[10], b[11]),
                            data_offset: doff as u8,
                            flags: TcpFlags::spec_from_bits(b[12] % 2 == 1, b[13]),
                            window_size: spec_u16_of(b[14], b[15]),
                            checksum: spec_u16_of(b[16], b[17]),
                            urgent_pointer: spec_u16_of(b[18], b[19]),
                            options: opts,
                            payload: b.skip(doff as int),
                        },
                    ),
                }
            }
        }
    }

    /// The segment with every option's length byte recomputed.
    pub open spec fn spec_recalculate_option_lengths(self) -> TcpPacketView {
        TcpPacketView {
            options: self.options.map_values(|t: TlvOptionView| t.spec_recalculate_length()),
            ..self
        }
    }

    /// The segment with `data_offset` recomputed from the encoded header
    /// size, truncated to the 8-bit field.
    pub open spec fn spec_recalculate_data_offset(self) -> TcpPacketView {
        TcpPacketView { data_offset: (self.spec_header_bytes().len() % 256) as u8, ..self }
    }

    /// The IPv4 pseudo-header followed by the segment with a zeroed
    /// checksum field, the input of the TCP checksum.
    pub open spec fn spec_pseudo(self, src: Seq<u8>, dst: Seq<u8>) -> Seq<u8> {
        let packet = TcpPacketView { checksum: 0, ..self }.spec_bytes();
        src + dst + seq![
            0u8,
            6u8,
            spec_u16_hi(packet.len() as u16),
            spec_u16_lo(packet.len() as u16),
        ] + packet
    }

    /// The segment with its checksum recomputed over the pseudo-header.
    pub open spec fn spec_recalculate_checksum(self, src: Seq<u8>, dst: Seq<u8>) -> TcpPacketView {
        TcpPacketView { checksum: spec_checksum(self.spec_pseudo(src, dst)), ..self }
    }
}

impl TcpPacket {
    /// Constructs an empty segment with all fields zero.
    pub fn new() -> (r: Self)
        ensures
            r@.source == 0 && r@.destination == 0 && r@.sequence_number == 0
                && r@.acknowledgement_number == 0 && r@.data_offset == 0,
            r@.flags == TcpFlags::spec_from_bits(false, 0),
            r@.window_size == 0 && r@.checksum == 0 && r@.urgent_pointer == 0,
            r@.options =~= Seq::<TlvOptionView>::empty(),
            r@.payload =~= Seq::<u8>::empty(),
    {
        let r = TcpPacket {
            source: 0,
            destination: 0,
            sequence_number: 0,
            acknowledgement_number: 0,
            data_offset: 0,
            flags: TcpFlags::new(),
            window_size: 0,
            checksum: 0,
            urgent_pointer: 0,
            options: Vec::new(),
            payload: Vec::new(),
        };
        proof {
            assert(r.options.deep_view() =~= Seq::<TlvOptionView>::empty());
        }
        r
    }

    /// Decodes a TCP segment: fails with `LengthError` on fewer than 20
    /// bytes or a `data_offset` past the buffer, with `InvalidFieldValue`
    /// on a `data_offset` below 20 or a malformed option length, and with
    /// `LengthError` on an option truncated by the header bound.
    pub fn from_bytes(bytes: Vec<u8>) -> (r: Result<Self, DecodeError>)
        ensures
            res_view(r) == TcpPacketView::spec_from_bytes(bytes@),
    {
        if bytes.len() < 20 {
            return Err(DecodeError::LengthError);
        }
        let doff_u8 = (bytes[12] / 16) * 4;
        let doff = doff_u8 as usize;
        if doff < 20 {
            return Err(DecodeError::InvalidFieldValue);
        }
        if doff > bytes.len() {
            return Err(DecodeError::LengthError);
        }
        let ghost full = spec_parse_tlv(bytes@, 20, doff as int);
        let mut opts: Vec<TcpOption> = Vec::new();
        let mut i: usize = 20;
        while i < doff && bytes[i] != 0
            invariant
                bytes@.len() >= 20,
                20 <= i <= doff <= bytes@.len(),
                doff as int == (bytes@[12] as int / 16) * 4,
                doff == doff_u8,
                full == spec_parse_tlv(bytes@, 20, doff as int),
                full == spec_parse_prepend(
                    opts.deep_view(),
                    spec_parse_tlv(bytes@, i as int, doff as int),
                ),
            decreases doff - i,
        {
            if bytes[i] == 1 {
                i = i + 1;
            } else {
                if i + 1 >= doff {
                    proof {
                        assert(full == Err::<Seq<TlvOptionView>, DecodeError>(
                            DecodeError::LengthError,
                        ));
                    }
                    return Err(DecodeError::LengthError);
                }
                let l = bytes[i + 1] as usize;
                if l < 2 {
                    return Err(DecodeError::InvalidFieldValue);
                }
                if i + l > doff {
                    return Err(DecodeError::LengthError);
                }
                let ghost acc0 = opts.deep_view();
                let data = slice_to_vec(slice_subrange(bytes.as_slice(), i + 2, i + l));
                let o = TcpOption { kind: bytes[i], length: bytes[i + 1], data };
                proof {
                    assert(o@ == (TlvOptionView {
                        kind: bytes@[i as int],
                        length: bytes@[i as int + 1],
                        data: bytes@.subrange(i as int + 2, i as int + bytes@[i as int + 1]),
                    }));
                }
                opts.push(o);
                i = i + l;
                proof {
                    assert(opts.deep_view() =~= acc0.push(o@));
                    match spec_parse_tlv(bytes@, i as int, doff as int) {
                        Ok(rest) => {
                            assert(acc0 + (seq![o@] + rest) =~= acc0.push(o@) + rest);
                        },
                        Err(_) => {},
                    }
                }
            }
        }
        proof {
            assert(spec_parse_tlv(bytes@, i as int, doff as int) == Ok::<
                Seq<TlvOptionView>,
                DecodeError,
            >(Seq::empty()));
            assert(opts.deep_view() + Seq::<TlvOptionView>::empty() =~= opts.deep_view());
            assert(full == Ok::<Seq<TlvOptionView>, DecodeError>(opts.deep_view()));
        }
        let p = TcpPacket {
            source: u16_of(bytes[0], bytes[1]),
            destination: u16_of(bytes[2], bytes[3]),
            sequence_number: u32_of(bytes[4], bytes[5], bytes[6], bytes[7]),
            acknowledgement_number: u32_of(bytes[8], bytes[9], bytes[10], bytes[11]),
            data_offset: doff_u8,
            flags: TcpFlags::from_bits(bytes[12] % 2 == 1, bytes[13]),
            window_size: u16_of(bytes[14], bytes[15]),
            checksum: u16_of(bytes[16], bytes[17]),
            urgent_pointer: u16_of(bytes[18], bytes[19]),
            options: opts,
            payload: slice_to_vec(slice_subrange(bytes.as_slice(), doff, bytes.len())),
        };
        proof {
            assert(p@ =~= TcpPacketView::spec_from_bytes(bytes@)->Ok_0);
        }
        Ok(p)
    }

    /// Encodes only the header: the 20 fixed bytes, the options, and
    /// no-op/EOL padding to a 4-byte boundary.  The result's length is
    /// always a multiple of 4.
    pub fn header_to_bytes(&self) -> (r: Vec<u8>)
        ensures
            r@ == self@.spec_header_bytes(),
            r@.len() % 4 == 0,
    {
        let mut packet: Vec<u8> = Vec::new();
        packet.push(u16_hi(self.source));
        packet.push(u16_lo(self.source));
        packet.push(u16_hi(self.destination));
        packet.push(u16_lo(self.destination));
        packet.push(u32_byte(self.sequence_number, 0));
        packet.push(u32_byte(self.sequence_number, 1));
        packet.push(u32_byte(self.sequence_number, 2));
        packet.push(u32_byte(self.sequence_number, 3));
        packet.push(u32_byte(self.acknowledgement_number, 0));
        packet.push(u32_byte(self.acknowledgement_number, 1));
        packet.push(u32_byte(self.acknowledgement_number, 2));
        packet.push(u32_byte(self.acknowledgement_number, 3));
        let flag_bits = self.flags.to_bits();
        let b12: u8 = ((self.data_offset / 4) % 16) * 16 + (if flag_bits.0 {
            1
        } else {
            0
        });
        packet.push(b12);
        packet.push(flag_bits.1);
        packet.push(u16_hi(self.window_size));
        packet.push(u16_lo(self.window_size));
        packet.push(u16_hi(self.checksum));
        packet.push(u16_lo(self.checksum));
        packet.push(u16_hi(self.urgent_pointer));
        packet.push(u16_lo(self.urgent_pointer));
        proof {
            assert(packet@ =~= self@.spec_fixed_bytes());
        }
        let ghost fixed = self@.spec_fixed_bytes();
        let ghost tlv = self@.options;
        let mut k: usize = 0;
        while k < self.options.len()
            invariant
                k <= self.options.len(),
                tlv == self@.options,
                fixed == self@.spec_fixed_bytes(),
                self.options.deep_view() == tlv,
                packet@ == fixed + spec_tlv_list_bytes(tlv.take(k as int)),
            decreases self.options.len() - k,
        {
            let mut ob = self.options[k].to_bytes();
            packet.append(&mut ob);
            proof {
                lemma_tlv_list_bytes_snoc(tlv, k as int);
                assert(tlv.take(k as int + 1) == tlv.take(k as int) + seq![tlv[k as int]]);
            }
            k = k + 1;
        }
        proof {
            assert(tlv.take(tlv.len() as int) =~= tlv);
        }
        let ghost head = fixed + spec_tlv_list_bytes(tlv);
        let rem = packet.len() % 4;
        if rem != 0 {
            let nops = 4 - rem - 1;
            let mut c: usize = 0;
            while c < nops
                invariant
                    c <= nops,
                    nops == 3 - (head.len() as int) % 4,
                    packet@ =~= head + Seq::new(c as nat, (|j: int| 1u8)),
                decreases nops - c,
            {
                packet.push(1);
                proof {
                    assert(packet@ =~= head + Seq::new((c + 1) as nat, (|j: int| 1u8)));
                }
                c = c + 1;
            }
            packet.push(0);
            proof {
                assert(packet@ =~= head + spec_pad4(head.len() as int));
            }
        } else {
            proof {
                assert(spec_pad4(head.len() as int) =~= Seq::<u8>::empty());
                assert(packet@ =~= head + spec_pad4(head.len() as int));
            }
        }
        proof {
            lemma_pad4_properties(head.len() as int);
        }
        packet
    }

    /// Encodes the full segment: header then payload.
    pub fn to_bytes(&self) -> (r: Vec<u8>)
        ensures
            r@ == self@.spec_bytes(),
    {
        let mut packet = self.header_to_bytes();
        let mut tail = clone_bytes(&self.payload);
        packet.append(&mut tail);
        packet
    }

    /// Recomputes `data_offset` from the encoded header size, truncated
    /// to the 8-bit field.
    pub fn recalculate_data_offset(&mut self)
        ensures
            final(self)@ == old(self)@.spec_recalculate_data_offset(),
    {
        let h = self.header_to_bytes();
        self.data_offset = (h.len() % 256) as u8;
        proof {
            assert(self@ =~= old(self)@.spec_recalculate_data_offset());
        }
    }

    /// Recomputes the checksum over the IPv4 pseudo-header (source and
    /// destination addresses, a zero byte, protocol number 6, and the
    /// encoded segment length) followed by the segment with its checksum
    /// field zeroed.
    pub fn recalculate_checksum(&mut self, source_ip: Ipv4Address, destination_ip: Ipv4Address)
        ensures
            final(self)@ == old(self)@.spec_recalculate_checksum(source_ip@, destination_ip@),
    {
        self.checksum = 0;
        let mut packet = self.to_bytes();
        let mut pseudo = source_ip.to_vec();
        let mut d = destination_ip.to_vec();
        pseudo.append(&mut d);
        pseudo.push(0);
        pseudo.push(6);
        let plen = packet.len() as u16;
        pseudo.push(u16_hi(plen));
        pseudo.push(u16_lo(plen));
        pseudo.append(&mut packet);
        proof {
            assert(pseudo@ =~= old(self)@.spec_pseudo(source_ip@, destination_ip@));
        }
        self.checksum = checksum(pseudo);
        proof {
            assert(self@ =~= old(self)@.spec_recalculate_checksum(source_ip@, destination_ip@));
        }
    }

    /// Recomputes every option's length byte, then `data_offset`, then
    /// the checksum, in that order: the checksum depends on a correctly
    /// sized header.
    pub fn recalculate_all(&mut self, source_ip: Ipv4Address, destination_ip: Ipv4Address)
        ensures
            final(self)@ == old(self)@.spec_recalculate_option_lengths()
                .spec_recalculate_data_offset().spec_recalculate_checksum(
                source_ip@,
                destination_ip@,
            ),
    {
        let ghost tlv = self@.options;
        let mut new_opts: Vec<TcpOption> = Vec::new();
        let mut k: usize = 0;
        while k < self.options.len()
            invariant
                k <= self.options.len(),
                self.options.deep_view() == tlv,
                new_opts.deep_view() =~= tlv.take(k as int).map_values(
                    (|t: TlvOptionView| t.spec_recalculate_length()),
                ),
            decreases self.options.len() - k,
        {
            let ghost acc0 = new_opts.deep_view();
            let kind = self.options[k].kind;
            let data = clone_bytes(&self.options[k].data);
            let n = data.len();
            let length = ((n % 256 + 2) % 256) as u8;
            let o = TcpOption { kind, length, data };
            proof {
                assert(o@.data == tlv[k as int].data);
                assert(o@ == tlv[k as int].spec_recalculate_length());
            }
            new_opts.push(o);
            k = k + 1;
            proof {
                assert(new_opts.deep_view() =~= acc0.push(o@));
                assert(tlv.take(k as int) =~= tlv.take(k as int - 1).push(tlv[k as int - 1]));
                assert(tlv.take(k as int).map_values(
                    (|t: TlvOptionView| t.spec_recalculate_length()),
                ) =~= tlv.take(k as int - 1).map_values(
                    (|t: TlvOptionView| t.spec_recalculate_length()),
                ).push(tlv[k as int - 1].spec_recalculate_length()));
            }
        }
        proof {
            assert(tlv.take(tlv.len() as int) =~= tlv);
        }
        self.options = new_opts;
        proof {
            assert(self@ =~= old(self)@.spec_recalculate_option_lengths());
        }
        self.recalculate_data_offset();
        self.recalculate_checksum(source_ip, destination_ip);
    }
}

/// Round trip: decoding an encoded, structurally valid segment recovers
/// the segment.
pub proof fn lemma_tcp_round_trip(v: TcpPacketView)
    requires
        v.wf(),
    ensures
        TcpPacketView::spec_from_bytes(v.spec_bytes()) == Ok::<TcpPacketView, DecodeError>(v),
{
    let fixed = v.spec_fixed_bytes();
    let body = spec_tlv_list_bytes(v.options);
    let head = fixed + body;
    let pad = spec_pad4(head.len() as int);
    let hb = v.spec_header_bytes();
    let b = v.spec_bytes();
    lemma_pad4_properties(head.len() as int);
    assert(hb == head + pad);
    assert(hb.len() == v.data_offset);
    assert forall|j: int| 0 <= j < 20 implies b[j] == fixed[j] by {
        assert(b[j] == hb[j]);
        assert(hb[j] == head[j]);
    }
    // byte 12 recovers the data offset and the nonce_sum bit
    let q = (v.data_offset / 4) as int;
    assert(q <= 15);
    let ns = if v.flags.nonce_sum {
        1int
    } else {
        0int
    };
    assert(b[12] == v.spec_byte12());
    assert(v.spec_byte12() == q * 16 + ns);
    assert((q * 16 + ns) / 16 == q && (q * 16 + ns) % 2 == ns % 2) by (nonlinear_arith)
        requires
            0 <= q <= 15,
            0 <= ns <= 1,
    ;
    assert(v.data_offset % 4 == 0) by {
        assert(hb.len() as int == head.len() + pad.len());
        assert((head.len() + pad.len()) % 4 == 0);
    }
    assert((b[12] / 16) * 4 == v.data_offset);
    let doff = v.data_offset as int;
    assert(doff >= 20 && doff <= b.len());
    // the fixed fields
    lemma_u16_bytes_round_trip(v.source);
    lemma_u16_bytes_round_trip(v.destination);
    lemma_u16_bytes_round_trip(v.window_size);
    lemma_u16_bytes_round_trip(v.checksum);
    lemma_u16_bytes_round_trip(v.urgent_pointer);
    lemma_u32_bytes_round_trip(v.sequence_number);
    lemma_u32_bytes_round_trip(v.acknowledgement_number);
    lemma_tcp_flags_round_trip(v.flags);
    assert(TcpFlags::spec_from_bits(b[12] % 2 == 1, b[13]) == v.flags);
    // the option region
    assert forall|j: int| 0 <= j < body.len() implies b[20 + j] == body[j] by {
        assert(b[20 + j] == hb[20 + j]);
        assert(hb[20 + j] == head[20 + j]);
    }
    assert(b.subrange(20, 20 + body.len() as int) =~= body);
    assert forall|j: int| 20 + body.len() <= j < doff - 1 implies b[j] == 1 by {
        assert(b[j] == hb[j]);
        assert(hb[j] == pad[j - head.len()]);
    }
    if 20 + body.len() < doff {
        assert(b[doff - 1] == pad[pad.len() - 1]);
    }
    lemma_parse_tlv_round_trip(b, 20, doff, v.options);
    // the payload
    assert(b.skip(doff) =~= v.payload);
    assert(TcpPacketView::spec_from_bytes(b)->Ok_0 =~= v);
}

/// Round trip in the byte direction: a wire capture that is the canonical
/// encoding of a structurally valid segment decodes and re-encodes to
/// exactly the same bytes.
pub proof fn lemma_tcp_bytes_round_trip(v: TcpPacketView)
    requires
        v.wf(),
    ensures
        TcpPacketView::spec_from_bytes(v.spec_bytes()) is Ok,
        TcpPacketView::spec_from_bytes(v.spec_bytes())->Ok_0.spec_bytes() == v.spec_bytes(),
{
    lemma_tcp_round_trip(v);
}

/// Recomputing every option length twice equals recomputing it once.
pub proof fn lemma_tcp_recalculate_option_lengths_idempotent(v: TcpPacketView)
    ensures
        v.spec_recalculate_option_lengths().spec_recalculate_option_lengths()
            == v.spec_recalculate_option_lengths(),
{
    let v1 = v.spec_recalculate_option_lengths();
    assert(v1.options.map_values((|t: TlvOptionView| t.spec_recalculate_length())) =~= v1.options);
    assert(v1.spec_recalculate_option_lengths() =~= v1);
}

/// Recomputing `data_offset` twice equals recomputing it once.
pub proof fn lemma_tcp_recalculate_data_offset_idempotent(v: TcpPacketView)
    ensures
        v.spec_recalculate_data_offset().spec_recalculate_data_offset()
            == v.spec_recalculate_data_offset(),
{
    let v1 = v.spec_recalculate_data_offset();
    assert(v1.spec_fixed_bytes().len() == v.spec_fixed_bytes().len());
    assert(v1.spec_header_bytes().len() == v.spec_header_bytes().len());
}

/// Recomputing the checksum twice equals recomputing it once.
pub proof fn lemma_tcp_recalculate_checksum_idempotent(v: TcpPacketView, src: Seq<u8>, dst: Seq<u8>)
    ensures
        v.spec_recalculate_checksum(src, dst).spec_recalculate_checksum(src, dst)
            == v.spec_recalculate_checksum(src, dst),
{
    let v1 = v.spec_recalculate_checksum(src, dst);
    assert((TcpPacketView { checksum: 0, ..v1 }) =~= (TcpPacketView { checksum: 0, ..v }));
}

/// Recomputing option lengths, `data_offset` and checksum twice in the
/// prescribed order equals recomputing them once.
pub proof fn lemma_tcp_recalculate_all_idempotent(v: TcpPacketView, src: Seq<u8>, dst: Seq<u8>)
    ensures
        v.spec_recalculate_option_lengths().spec_recalculate_data_offset().spec_recalculate_checksum(
            src,
            dst,
        ).spec_recalculate_option_lengths().spec_recalculate_data_offset().spec_recalculate_checksum(
            src,
            dst,
        ) == v.spec_recalculate_option_lengths().spec_recalculate_data_offset()
            .spec_recalculate_checksum(src, dst),
{
    let a = v.spec_recalculate_option_lengths();
    let b = a.spec_recalculate_data_offset();
    let c = b.spec_recalculate_checksum(src, dst);
    lemma_tcp_recalculate_option_lengths_idempotent(v);
    assert(b.spec_recalculate_option_lengths() =~= b);
    assert(c.spec_recalculate_option_lengths() =~= c);
    let d = c.spec_recalculate_option_lengths();
    assert(d.spec_recalculate_data_offset() =~= c) by {
        assert(d == c);
        assert(c.spec_fixed_bytes().len() == b.spec_fixed_bytes().len());
        assert(spec_tlv_list_bytes(c.options) == spec_tlv_list_bytes(b.options));
        assert(c.spec_header_bytes().len() == b.spec_header_bytes().len());
    }
    let e = d.spec_recalculate_data_offset();
    assert((TcpPacketView { checksum: 0, ..e }) =~= (TcpPacketView { checksum: 0, ..b }));
}

} // verus!
