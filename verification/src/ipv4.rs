//! IPv4 packet codec: a 20-byte fixed header, a self-describing
//! type-length-value option list padded to a 4-byte boundary, and the
//! payload, with the RFC 1071 header checksum and dispatch of the payload
//! to the upper-layer codec.

use vstd::prelude::*;
use vstd::slice::{slice_subrange, slice_to_vec};
use vstd::arithmetic::div_mod::lemma_add_mod_noop;
use crate::options::{
    TlvOptionView, lemma_pad4_properties, lemma_parse_tlv_round_trip, lemma_tlv_list_bytes_snoc,
    spec_pad4, spec_parse_prepend, spec_parse_tlv, spec_tlv_list_bytes, spec_tlv_list_wf,
};
use crate::tcp::{TcpPacket, TcpPacketView};
use crate::udp::{UdpPacket, UdpPacketView};
use crate::util::{
    DecodeError, Ipv4Address, checksum, clone_bytes, res_view, spec_checksum, spec_u16_hi,
    spec_u16_lo, spec_u16_of, u16_hi, u16_lo, u16_of, lemma_u16_bytes_round_trip,
};

verus! {

/// The upper-layer packet decoded from an IPv4 payload.
pub enum Ipv4NextLevelPacket {
    Tcp(TcpPacket),
    Udp(UdpPacket),
}

/// The IPv4 option class, bits 6-5 of an option's first byte.
#[derive(Clone, Copy, Debug, PartialEq, Eq, Structural)]
pub enum Ipv4OptionClass {
    /// Bit pattern 0.
    Control,
    /// Bit pattern 2.
    Debug,
    /// Bit pattern 1 when `false`, 3 when `true`.
    Reserved(bool),
}

impl Ipv4OptionClass {
    /// The decoding of the 2-bit class field.
    pub open spec fn spec_from_bits(bits: u8) -> Ipv4OptionClass {
        if bits == 0 {
            Ipv4OptionClass::Control
        } else if bits == 1 {
            Ipv4OptionClass::Reserved(false)
        } else if bits == 2 {
            Ipv4OptionClass::Debug
        } else {
            Ipv4OptionClass::Reserved(true)
        }
    }

    pub open spec fn spec_to_bits(self) -> u8 {
        match self {
            Ipv4OptionClass::Control => 0,
            Ipv4OptionClass::Debug => 2,
            Ipv4OptionClass::Reserved(v) => if v {
                3
            } else {
                1
            },
        }
    }

    /// Decodes the 2-bit class field; only values below 4 occur in a
    /// packed option byte.
    pub fn from_bits(bits: u8) -> (r: Self)
        requires
            bits < 4,
        ensures
            r == Self::spec_from_bits(bits),
    {
        match bits {
            0 => Ipv4OptionClass::Control,
            1 => Ipv4OptionClass::Reserved(false),
            2 => Ipv4OptionClass::Debug,
            _ => Ipv4OptionClass::Reserved(true),
        }
    }

    /// Encodes the class as its 2-bit pattern.
    pub fn to_bits(&self) -> (r: u8)
        ensures
            r == self.spec_to_bits(),
            r < 4,
    {
        match self {
            Ipv4OptionClass::Control => 0,
            Ipv4OptionClass::Debug => 2,
            Ipv4OptionClass::Reserved(v) => if *v {
                3
            } else {
                1
            },
        }
    }
}

/// Encoding then decoding any class is the identity.
pub proof fn lemma_ipv4_option_class_round_trip(c: Ipv4OptionClass)
    ensures
        Ipv4OptionClass::spec_from_bits(c.spec_to_bits()) == c,
{
}

/// Decoding then encoding any 2-bit pattern is the identity.
pub proof fn lemma_ipv4_option_class_bits_round_trip(bits: u8)
    requires
        bits < 4,
    ensures
        Ipv4OptionClass::spec_from_bits(bits).spec_to_bits() == bits,
{
}

/// An IPv4 option: a copy flag, a 2-bit class and 5-bit number packed
/// into the first byte, a total-length byte, and the option data.
#[derive(Clone, Debug)]
pub struct Ipv4Option {
    /// The copy-on-fragmentation flag, bit 7 of the first byte.
    pub copy: bool,
    /// The option class, bits 6-5 of the first byte.
    pub class: Ipv4OptionClass,
    /// The option number, bits 4-0 of the first byte.
    pub number: u8,
    /// The option's total length in bytes.
    pub length: u8,
    /// The option data.
    pub data: Vec<u8>,
}

/// The mathematical model of an IPv4 option.
#[verifier::ext_equal]
pub struct Ipv4OptionView {
    pub copy: bool,
    pub class: Ipv4OptionClass,
    pub number: u8,
    pub length: u8,
    pub data: Seq<u8>,
}

impl View for Ipv4Option {
    type V = Ipv4OptionView;

    open spec fn view(&self) -> Ipv4OptionView {
        Ipv4OptionView {
            copy: self.copy,
            class: self.class,
            number: self.number,
            length: self.length,
            data: self.data@,
        }
    }
}

impl DeepView for Ipv4Option {
    type V = Ipv4OptionView;

    open spec fn deep_view(&self) -> Ipv4OptionView {
        self.view()
    }
}

impl Ipv4OptionView {
    /// The packed first byte: copy flag, class and number.
    pub open spec fn spec_first_byte(self) -> u8 {
        ((if self.copy {
            128int
        } else {
            0int
        }) + self.class.spec_to_bits() * 32 + self.number % 32) as u8
    }

    /// The option as a raw type-length-value entry.
    pub open spec fn to_tlv(self) -> TlvOptionView {
        TlvOptionView { kind: self.spec_first_byte(), length: self.length, data: self.data }
    }

    /// The unpacking of a raw type-length-value entry.
    pub open spec fn from_tlv(t: TlvOptionView) -> Ipv4OptionView {
        Ipv4OptionView {
            copy: t.kind >= 128,
            class: Ipv4OptionClass::spec_from_bits(((t.kind / 32) % 4) as u8),
            number: (t.kind % 32) as u8,
            length: t.length,
            data: t.data,
        }
    }

    /// Structural validity: the number fits its 5 bits, the packed first
    /// byte collides with neither list marker, and the length byte is
    /// exact.
    pub open spec fn wf(self) -> bool {
        self.number < 32 && self.spec_first_byte() >= 2 && self.data.len() + 2 <= 255
            && self.length == 2 + self.data.len()
    }

    /// The option with its length byte recomputed from the data,
    /// truncated to the 8-bit field.
    pub open spec fn spec_recalculate_length(self) -> Ipv4OptionView {
        Ipv4OptionView { length: ((self.data.len() % 256 + 2) % 256) as u8, ..self }
    }
}

/// Packing an option into its raw form and unpacking again is the
/// identity, provided the number fits its 5 bits.
pub proof fn lemma_ipv4_option_tlv_round_trip(o: Ipv4OptionView)
    requires
        o.number < 32,
    ensures
        Ipv4OptionView::from_tlv(o.to_tlv()) == o,
{
    let ci = if o.copy {
        128int
    } else {
        0int
    };
    let cl = o.class.spec_to_bits() as int;
    let n = o.number as int;
    let k = ci + cl * 32 + n;
    assert((k / 32) % 4 == cl && k % 32 == n && (k >= 128 <==> ci == 128)) by (nonlinear_arith)
        requires
            k == ci + cl * 32 + n,
            ci == 0 || ci == 128,
            0 <= cl < 4,
            0 <= n < 32,
    ;
    lemma_ipv4_option_class_round_trip(o.class);
    assert(Ipv4OptionView::from_tlv(o.to_tlv()) =~= o);
}

/// Unpacking a raw entry and packing again is the identity.
pub proof fn lemma_ipv4_option_tlv_bytes_round_trip(t: TlvOptionView)
    ensures
        Ipv4OptionView::from_tlv(t).to_tlv() == t,
{
    let k = t.kind;
    assert(k == 128 * (k / 128) + 32 * ((k / 32) % 4) + k % 32) by (bit_vector);
    assert(k >= 128 ==> k / 128 == 1) by (bit_vector);
    assert(k < 128 ==> k / 128 == 0) by (bit_vector);
    lemma_ipv4_option_class_bits_round_trip(((k / 32) % 4) as u8);
    assert(Ipv4OptionView::from_tlv(t).to_tlv() =~= t);
}

impl Ipv4Option {
    /// Constructs an empty option with all fields zero.
    pub fn new() -> (r: Self)
        ensures
            r@.copy == false,
            r@.class == Ipv4OptionClass::Control,
            r@.number == 0 && r@.length == 0,
            r@.data =~= Seq::<u8>::empty(),
    {
        Ipv4Option {
            copy: false,
            class: Ipv4OptionClass::Control,
            number: 0,
            length: 0,
            data: Vec::new(),
        }
    }

    /// Constructs exactly one option from its own bytes; this does not
    /// search a list for option boundaries.
    pub fn from_bytes(bytes: &[u8]) -> (r: Self)
        requires
            bytes@.len() >= 2,
        ensures
            r@ == Ipv4OptionView::from_tlv(
                TlvOptionView { kind: bytes@[0], length: bytes@[1], data: bytes@.skip(2) },
            ),
    {
        let r = Ipv4Option {
            copy: bytes[0] >= 128,
            class: Ipv4OptionClass::from_bits((bytes[0] / 32) % 4),
            number: bytes[0] % 32,
            length: bytes[1],
            data: slice_to_vec(slice_subrange(bytes, 2, bytes.len())),
        };
        proof {
            assert(r@ =~= Ipv4OptionView::from_tlv(
                TlvOptionView { kind: bytes@[0], length: bytes@[1], data: bytes@.skip(2) },
            ));
        }
        r
    }

    /// Encodes the option without any padding.
    pub fn to_bytes(&self) -> (r: Vec<u8>)
        ensures
            r@ == self@.to_tlv().spec_bytes(),
    {
        let class_bits = self.class.to_bits();
        let first: u8 = (if self.copy {
            128
        } else {
            0
        }) + class_bits * 32 + self.number % 32;
        let mut option: Vec<u8> = Vec::new();
        option.push(first);
        option.push(self.length);
        let mut tail = clone_bytes(&self.data);
        option.append(&mut tail);
        proof {
            assert(option@ =~= self@.to_tlv().spec_bytes());
        }
        option
    }

    /// Recomputes the `length` field as 2 plus the data length, truncated
    /// to the 8-bit field.
    pub fn recalculate_length(&mut self)
        ensures
            final(self)@ == old(self)@.spec_recalculate_length(),
    {
        let n = self.data.len();
        self.length = ((n % 256 + 2) % 256) as u8;
    }
}

/// An IPv4 packet.
///
/// Build one from scratch with `Ipv4Packet::new()` and edit it field by
/// field, or decode one from wire bytes with `Ipv4Packet::from_bytes()`.
/// The `header_len` and `total_len` fields are not kept in sync with
/// option or payload edits: call `recalculate_lengths()` before trusting
/// a re-encoding.
#[derive(Clone, Debug)]
pub struct Ipv4Packet {
    /// Header length in bytes.
    pub header_len: u8,
    /// Type of service.
    pub tos: u8,
    /// Total packet length in bytes.
    pub total_len: u16,
    /// Identification number.
    pub id: u16,
    /// Set when the packet must not be fragmented.
    pub dont_fragment: bool,
    /// Set when another fragment follows this one.
    pub more_fragments: bool,
    /// Fragment position in bytes (the wire field counts 8-byte units).
    pub fragment_offset: u16,
    /// Time to live.
    pub ttl: u8,
    /// Upper-layer protocol number, e.g. 6 for TCP and 17 for UDP.
    pub protocol: u8,
    /// Header checksum; covers the header only.
    pub checksum: u16,
    /// Source address.
    pub source: Ipv4Address,
    /// Destination address.
    pub destination: Ipv4Address,
    /// The options, without list padding.
    pub options: Vec<Ipv4Option>,
    /// Packet data.
    pub payload: Vec<u8>,
}

/// The mathematical model of an IPv4 packet.
#[verifier::ext_equal]
pub struct Ipv4PacketView {
    pub header_len: u8,
    pub tos: u8,
    pub total_len: u16,
    pub id: u16,
    pub dont_fragment: bool,
    pub more_fragments: bool,
    pub fragment_offset: u16,
    pub ttl: u8,
    pub protocol: u8,
    pub checksum: u16,
    pub source: Seq<u8>,
    pub destination: Seq<u8>,
    pub options: Seq<Ipv4OptionView>,
    pub payload: Seq<u8>,
}

impl View for Ipv4Packet {
    type V = Ipv4PacketView;

    open spec fn view(&self) -> Ipv4PacketView {
        Ipv4PacketView {
            header_len: self.header_len,
            tos: self.tos,
            total_len: self.total_len,
            id: self.id,
            dont_fragment: self.dont_fragment,
            more_fragments: self.more_fragments,
            fragment_offset: self.fragment_offset,
            ttl: self.ttl,
            protocol: self.protocol,
            checksum: self.checksum,
            source: self.source@,
            destination: self.destination@,
            options: self.options.deep_view(),
            payload: self.payload@,
        }
    }
}

impl DeepView for Ipv4Packet {
    type V = Ipv4PacketView;

    open spec fn deep_view(&self) -> Ipv4PacketView {
        self.view()
    }
}

impl Ipv4PacketView {
    /// The options as raw type-length-value entries.
    pub open spec fn spec_options_tlv(self) -> Seq<TlvOptionView> {
        self.options.map_values(|o: Ipv4OptionView| o.to_tlv())
    }

    /// Byte 0 on the wire: version 4 in the high nibble, the header
    /// length in 32-bit words in the low nibble.
    pub open spec fn spec_byte0(self) -> u8 {
        (64 + (self.header_len / 4) % 16) as u8
    }

    /// Byte 6 on the wire: the two fragmentation flags and the high 5
    /// bits of the fragment-offset field.
    pub open spec fn spec_byte6(self) -> u8 {
        ((if self.dont_fragment {
            64int
        } else {
            0int
        }) + (if self.more_fragments {
            32int
        } else {
            0int
        }) + (self.fragment_offset / 8) / 256) as u8
    }

    /// Byte 7 on the wire: the low 8 bits of the fragment-offset field.
    pub open spec fn spec_byte7(self) -> u8 {
        ((self.fragment_offset / 8) % 256) as u8
    }

    /// The 20 fixed header bytes on the wire.
    pub open spec fn spec_fixed_bytes(self) -> Seq<u8> {
        seq![
            self.spec_byte0(),
            self.tos,
            spec_u16_hi(self.total_len),
            spec_u16_lo(self.total_len),
            spec_u16_hi(self.id),
            spec_u16_lo(self.id),
            self.spec_byte6(),
            self.spec_byte7(),
            self.ttl,
            self.protocol,
            spec_u16_hi(self.checksum),
            spec_u16_lo(self.checksum),
        ] + self.source + self.destination
    }

    /// The header on the wire: fixed bytes, option bytes, and no-op/EOL
    /// padding to a 4-byte boundary.
    pub open spec fn spec_header_bytes(self) -> Seq<u8> {
        let head = self.spec_fixed_bytes() + spec_tlv_list_bytes(self.spec_options_tlv());
        head + spec_pad4(head.len() as int)
    }

    /// The full packet on the wire: header then payload.
    pub open spec fn spec_bytes(self) -> Seq<u8> {
        self.spec_header_bytes() + self.payload
    }

    /// Every option is structurally valid.
    pub open spec fn spec_options_wf(self) -> bool {
        forall|k: int| 0 <= k < self.options.len() ==> (#[trigger] self.options[k]).wf()
    }

    /// Structural validity: 4-byte addresses, valid options, a
    /// `header_len` field that equals the real encoded header size (at
    /// most 60 bytes), and a byte-granular fragment offset.
    pub open spec fn wf(self) -> bool {
        self.source.len() == 4 && self.destination.len() == 4 && self.spec_options_wf()
            && self.header_len == self.spec_header_bytes().len() && self.header_len <= 60
            && self.fragment_offset % 8 == 0
    }

    /// The decoding of a byte buffer as an IPv4 packet.
    pub open spec fn spec_from_bytes(b: Seq<u8>) -> Result<Ipv4PacketView, DecodeError> {
        if b.len() < 20 {
            Err(DecodeError::LengthError)
        } else if b[0] / 16 != 4 {
            Err(DecodeError::InvalidVersion)
        } else {
            let hlen = (b[0] % 16) * 4;
            if hlen < 20 {
                Err(DecodeError::InvalidFieldValue)
            } else if hlen > b.len() {
                Err(DecodeError::LengthError)
            } else {
                match spec_parse_tlv(b, 20, hlen as int) {
                    Err(e) => Err(e),
                    Ok(raw) => Ok(
                        Ipv4PacketView {
                            header_len: hlen as u8,
                            tos: b[1],
                            total_len: spec_u16_of(b[2], b[3]),
                            id: spec_u16_of(b[4], b[5]),
                            dont_fragment: (b[6] / 64) % 2 == 1,
                            more_fragments: (b[6] / 32) % 2 == 1,
                            fragment_offset: (((b[6] % 32) * 256 + b[7]) * 8) as u16,
                            ttl: b[8],
                            protocol: b[9],
                            checksum: spec_u16_of(b[10], b[11]),
                            source: b.subrange(12, 16),
                            destination: b.subrange(16, 20),
                            options: raw.map_values(|t: TlvOptionView| Ipv4OptionView::from_tlv(t)),
                            payload: b.skip(hlen as int),
                        },
                    ),
                }
            }
        }
    }

    /// The packet with `header_len` and `total_len` recomputed from the
    /// encoding, truncated to their fields.
    pub open spec fn spec_recalculate_lengths(self) -> Ipv4PacketView {
        Ipv4PacketView {
            header_len: (self.spec_header_bytes().len() % 256) as u8,
            total_len: ((self.spec_header_bytes().len() + self.payload.len()) % 0x10000) as u16,
            ..self
        }
    }

    /// The packet with its checksum recomputed over the header with the
    /// checksum field zeroed.
    pub open spec fn spec_recalculate_checksum(self) -> Ipv4PacketView {
        Ipv4PacketView {
            checksum: spec_checksum((Ipv4PacketView { checksum: 0, ..self }).spec_header_bytes()),
            ..self
        }
    }
}

impl Ipv4Packet {
    /// Constructs an empty packet with all fields zero.
    pub fn new() -> (r: Self)
        ensures
            r@.header_len == 0 && r@.tos == 0 && r@.total_len == 0 && r@.id == 0,
            r@.dont_fragment == false && r@.more_fragments == false && r@.fragment_offset == 0,
            r@.ttl == 0 && r@.protocol == 0 && r@.checksum == 0,
            r@.source =~= seq![0u8, 0u8, 0u8, 0u8],
            r@.destination =~= seq![0u8, 0u8, 0u8, 0u8],
            r@.options =~= Seq::<Ipv4OptionView>::empty(),
            r@.payload =~= Seq::<u8>::empty(),
    {
        let r = Ipv4Packet {
            header_len: 0,
            tos: 0,
            total_len: 0,
            id: 0,
            dont_fragment: false,
            more_fragments: false,
            fragment_offset: 0,
            ttl: 0,
            protocol: 0,
            checksum: 0,
            source: Ipv4Address::new(0, 0, 0, 0),
            destination: Ipv4Address::new(0, 0, 0, 0),
            options: Vec::new(),
            payload: Vec::new(),
        };
        proof {
            assert(r.options.deep_view() =~= Seq::<Ipv4OptionView>::empty());
        }
        r
    }

    /// Decodes an IPv4 packet: fails with `LengthError` on fewer than 20
    /// bytes or a header length past the buffer, with `InvalidVersion`
    /// when the version nibble is not 4, and with `InvalidFieldValue` on
    /// a header length below 20 or a malformed option length.
    pub fn from_bytes(bytes: &[u8]) -> (r: Result<Self, DecodeError>)
        ensures
            res_view(r) == Ipv4PacketView::spec_from_bytes(bytes@),
    {
        if bytes.len() < 20 {
            return Err(DecodeError::LengthError);
        }
        if bytes[0] / 16 != 4 {
            return Err(DecodeError::InvalidVersion);
        }
        let hlen_u8 = (bytes[0] % 16) * 4;
        let hlen = hlen_u8 as usize;
        if hlen < 20 {
            return Err(DecodeError::InvalidFieldValue);
        }
        if hlen > bytes.len() {
            return Err(DecodeError::LengthError);
        }
        let ghost full = spec_parse_tlv(bytes@, 20, hlen as int);
        let mut opts: Vec<Ipv4Option> = Vec::new();
        let ghost raw_acc = Seq::<TlvOptionView>::empty();
        let mut i: usize = 20;
        proof {
            assert(opts.deep_view() =~= raw_acc.map_values(
                (|t: TlvOptionView| Ipv4OptionView::from_tlv(t)),
            ));
        }
        while i < hlen && bytes[i] != 0
            invariant
                bytes@.len() >= 20,
                20 <= i <= hlen <= bytes@.len(),
                bytes@[0] / 16 == 4,
                hlen as int == (bytes@[0] % 16) * 4,
                hlen == hlen_u8,
                full == spec_parse_tlv(bytes@, 20, hlen as int),
                full == spec_parse_prepend(
                    raw_acc,
                    spec_parse_tlv(bytes@, i as int, hlen as int),
                ),
                opts.deep_view() == raw_acc.map_values(
                    (|t: TlvOptionView| Ipv4OptionView::from_tlv(t)),
                ),
            decreases hlen - i,
        {
            if bytes[i] == 1 {
                i = i + 1;
            } else {
                if i + 1 >= hlen {
                    return Err(DecodeError::LengthError);
                }
                let l = bytes[i + 1] as usize;
                if l < 2 {
                    return Err(DecodeError::InvalidFieldValue);
                }
                if i + l > hlen {
                    return Err(DecodeError::LengthError);
                }
                let ghost t = TlvOptionView {
                    kind: bytes@[i as int],
                    length: bytes@[i as int + 1],
                    data: bytes@.subrange(i as int + 2, i as int + bytes@[i as int + 1]),
                };
                let first = bytes[i];
                let o = Ipv4Option {
                    copy: first >= 128,
                    class: Ipv4OptionClass::from_bits((first / 32) % 4),
                    number: first % 32,
                    length: bytes[i + 1],
                    data: slice_to_vec(slice_subrange(bytes, i + 2, i + l)),
                };
                proof {
                    assert(o@ =~= Ipv4OptionView::from_tlv(t));
                }
                opts.push(o);
                i = i + l;
                proof {
                    assert(opts.deep_view() =~= raw_acc.map_values(
                        (|x: TlvOptionView| Ipv4OptionView::from_tlv(x)),
                    ).push(Ipv4OptionView::from_tlv(t)));
                    assert(raw_acc.push(t).map_values(
                        (|x: TlvOptionView| Ipv4OptionView::from_tlv(x)),
                    ) =~= raw_acc.map_values(
                        (|x: TlvOptionView| Ipv4OptionView::from_tlv(x)),
                    ).push(Ipv4OptionView::from_tlv(t)));
                    match spec_parse_tlv(bytes@, i as int, hlen as int) {
                        Ok(rest) => {
                            assert(raw_acc + (seq![t] + rest) =~= raw_acc.push(t) + rest);
                        },
                        Err(_) => {},
                    }
                }
                proof {
                    raw_acc = raw_acc.push(t);
                }
            }
        }
        proof {
            assert(spec_parse_tlv(bytes@, i as int, hlen as int) == Ok::<
                Seq<TlvOptionView>,
                DecodeError,
            >(Seq::empty()));
            assert(raw_acc + Seq::<TlvOptionView>::empty() =~= raw_acc);
            assert(full == Ok::<Seq<TlvOptionView>, DecodeError>(raw_acc));
        }
        let p = Ipv4Packet {
            header_len: hlen_u8,
            tos: bytes[1],
            total_len: u16_of(bytes[2], bytes[3]),
            id: u16_of(bytes[4], bytes[5]),
            dont_fragment: (bytes[6] / 64) % 2 == 1,
            more_fragments: (bytes[6] / 32) % 2 == 1,
            fragment_offset: (((bytes[6] % 32) as u16 * 256 + bytes[7] as u16)) * 8,
            ttl: bytes[8],
            protocol: bytes[9],
            checksum: u16_of(bytes[10], bytes[11]),
            source: Ipv4Address::new(bytes[12], bytes[13], bytes[14], bytes[15]),
            destination: Ipv4Address::new(bytes[16], bytes[17], bytes[18], bytes[19]),
            options: opts,
            payload: slice_to_vec(slice_subrange(bytes, hlen, bytes.len())),
        };
        proof {
            assert(p@.source =~= bytes@.subrange(12, 16));
            assert(p@.destination =~= bytes@.subrange(16, 20));
            assert(p@ =~= Ipv4PacketView::spec_from_bytes(bytes@)->Ok_0);
        }
        Ok(p)
    }

    /// Encodes only the header: the 20 fixed bytes, the options, and
    /// no-op/EOL padding to a 4-byte boundary.  The result's length is
    /// always a multiple of 4.
    pub fn header_to_bytes(&self) -> (r: Vec<u8>)
        ensures
            r@ == self@.spec_header_bytes(),
            r@.len() % 4 == 0,
    {
        let mut packet: Vec<u8> = Vec::new();
        packet.push(64 + (self.header_len / 4) % 16);
        packet.push(self.tos);
        packet.push(u16_hi(self.total_len));
        packet.push(u16_lo(self.total_len));
        packet.push(u16_hi(self.id));
        packet.push(u16_lo(self.id));
        let fo = self.fragment_offset / 8;
        let b6: u8 = (if self.dont_fragment {
            64
        } else {
            0
        }) + (if self.more_fragments {
            32
        } else {
            0
        }) + (fo / 256) as u8;
        packet.push(b6);
        packet.push((fo % 256) as u8);
        packet.push(self.ttl);
        packet.push(self.protocol);
        packet.push(u16_hi(self.checksum));
        packet.push(u16_lo(self.checksum));
        let mut f = self.source.to_vec();
        packet.append(&mut f);
        let mut f = self.destination.to_vec();
        packet.append(&mut f);
        proof {
            assert(packet@ =~= self@.spec_fixed_bytes());
        }
        let ghost fixed = self@.spec_fixed_bytes();
        let ghost tlv = self@.spec_options_tlv();
        let mut k: usize = 0;
        while k < self.options.len()
            invariant
                k <= self.options.len(),
                tlv == self@.spec_options_tlv(),
                fixed == self@.spec_fixed_bytes(),
                self.options.deep_view() == self@.options,
                tlv.len() == self.options.len(),
                packet@ == fixed + spec_tlv_list_bytes(tlv.take(k as int)),
            decreases self.options.len() - k,
        {
            let mut ob = self.options[k].to_bytes();
            proof {
                assert(tlv[k as int] == self@.options[k as int].to_tlv());
            }
            packet.append(&mut ob);
            proof {
                lemma_tlv_list_bytes_snoc(tlv, k as int);
            }
            k = k + 1;
        }
        proof {
            assert(tlv.take(tlv.len() as int) =~= tlv);
        }
        let ghost head = fixed + spec_tlv_list_bytes(tlv);
        let rem = packet.len() % 4;
        if rem != 0 {
            let nops = 4 - rem - 1;
            let mut c: usize = 0;
            while c < nops
                invariant
                    c <= nops,
                    nops == 3 - (head.len() as int) % 4,
                    packet@ =~= head + Seq::new(c as nat, (|j: int| 1u8)),
                decreases nops - c,
            {
                packet.push(1);
                proof {
                    assert(packet@ =~= head + Seq::new((c + 1) as nat, (|j: int| 1u8)));
                }
                c = c + 1;
            }
            packet.push(0);
            proof {
                assert(packet@ =~= head + spec_pad4(head.len() as int));
            }
        } else {
            proof {
                assert(spec_pad4(head.len() as int) =~= Seq::<u8>::empty());
                assert(packet@ =~= head + spec_pad4(head.len() as int));
            }
        }
        proof {
            lemma_pad4_properties(head.len() as int);
        }
        packet
    }

    /// Encodes the full packet: header then payload.
    pub fn to_bytes(&self) -> (r: Vec<u8>)
        ensures
            r@ == self@.spec_bytes(),
    {
        let mut packet = self.header_to_bytes();
        let mut tail = clone_bytes(&self.payload);
        packet.append(&mut tail);
        packet
    }

    /// Recomputes `header_len` and `total_len` from the encoded sizes,
    /// truncated to their fields.
    pub fn recalculate_lengths(&mut self)
        ensures
            final(self)@ == old(self)@.spec_recalculate_lengths(),
    {
        let h = self.header_to_bytes();
        self.header_len = (h.len() % 256) as u8;
        let total = (h.len() % 0x10000 + self.payload.len() % 0x10000) % 0x10000;
        self.total_len = total as u16;
        proof {
            lemma_add_mod_noop(h@.len() as int, self.payload@.len() as int, 0x10000);
            assert(self@ =~= old(self)@.spec_recalculate_lengths());
        }
    }

    /// Recomputes the header checksum over the header with the checksum
    /// field itself zeroed; the payload is not covered.
    pub fn recalculate_checksum(&mut self)
        ensures
            final(self)@ == old(self)@.spec_recalculate_checksum(),
    {
        self.checksum = 0;
        let h = self.header_to_bytes();
        self.checksum = checksum(h);
        proof {
            assert(self@ =~= old(self)@.spec_recalculate_checksum());
        }
    }

    /// Decodes the payload as the upper-layer packet named by `protocol`:
    /// 6 as TCP and 17 as UDP; any other protocol number is reported as
    /// `UnsupportedProtocol` (the payload stays available to the caller).
    pub fn get_next_level_packet(&self) -> (r: Result<Ipv4NextLevelPacket, DecodeError>)
        ensures
            self.protocol == 6 ==> (match TcpPacketView::spec_from_bytes(self@.payload) {
                Ok(t) => r is Ok && r->Ok_0 is Tcp && r->Ok_0->Tcp_0@ == t,
                Err(e) => r == Err::<Ipv4NextLevelPacket, DecodeError>(e),
            }),
            self.protocol == 17 ==> (match UdpPacketView::spec_from_bytes(self@.payload) {
                Ok(u) => r is Ok && r->Ok_0 is Udp && r->Ok_0->Udp_0@ == u,
                Err(e) => r == Err::<Ipv4NextLevelPacket, DecodeError>(e),
            }),
            self.protocol != 6 && self.protocol != 17 ==> r == Err::<
                Ipv4NextLevelPacket,
                DecodeError,
            >(DecodeError::UnsupportedProtocol(self.protocol)),
    {
        if self.protocol == 6 {
            match TcpPacket::from_bytes(clone_bytes(&self.payload)) {
                Ok(t) => Ok(Ipv4NextLevelPacket::Tcp(t)),
                Err(e) => Err(e),
            }
        } else if self.protocol == 17 {
            match UdpPacket::from_bytes(self.payload.as_slice()) {
                Ok(u) => Ok(Ipv4NextLevelPacket::Udp(u)),
                Err(e) => Err(e),
            }
        } else {
            Err(DecodeError::UnsupportedProtocol(self.protocol))
        }
    }
}

/// Round trip: decoding an encoded, structurally valid packet recovers
/// the packet.
pub proof fn lemma_ipv4_round_trip(v: Ipv4PacketView)
    requires
        v.wf(),
    ensures
        Ipv4PacketView::spec_from_bytes(v.spec_bytes()) == Ok::<Ipv4PacketView, DecodeError>(v),
{
    let fixed = v.spec_fixed_bytes();
    let tlv = v.spec_options_tlv();
    let body = spec_tlv_list_bytes(tlv);
    let head = fixed + body;
    let pad = spec_pad4(head.len() as int);
    let hb = v.spec_header_bytes();
    let b = v.spec_bytes();
    lemma_pad4_properties(head.len() as int);
    assert(fixed.len() == 20);
    assert(hb == head + pad);
    assert(hb.len() == v.header_len);
    assert forall|j: int| 0 <= j < 20 implies b[j] == fixed[j] by {
        assert(b[j] == hb[j]);
        assert(hb[j] == head[j]);
    }
    // byte 0 recovers the version and the header length
    let q = (v.header_len / 4) as int;
    assert(v.header_len % 4 == 0) by {
        assert(hb.len() as int == head.len() + pad.len());
        assert((head.len() + pad.len()) % 4 == 0);
    }
    assert(q <= 15);
    assert(b[0] == v.spec_byte0());
    assert(v.spec_byte0() == 64 + q);
    assert((64 + q) / 16 == 4 && (64 + q) % 16 == q) by (nonlinear_arith)
        requires
            0 <= q <= 15,
    ;
    assert(((b[0] % 16) * 4) as int == v.header_len);
    let hlen = v.header_len as int;
    assert(hlen >= 20 && hlen <= b.len());
    // bytes 6 and 7 recover the flags and the fragment offset
    let dfv = if v.dont_fragment {
        64int
    } else {
        0int
    };
    let mfv = if v.more_fragments {
        32int
    } else {
        0int
    };
    let fo = (v.fragment_offset / 8) as int;
    assert(fo <= 8191);
    assert(b[6] == v.spec_byte6() && b[7] == v.spec_byte7());
    assert(v.spec_byte6() == dfv + mfv + fo / 256);
    assert({
        let b6 = dfv + mfv + fo / 256;
        (b6 / 64) % 2 == (if v.dont_fragment {
            1int
        } else {
            0int
        }) && (b6 / 32) % 2 == (if v.more_fragments {
            1int
        } else {
            0int
        }) && b6 % 32 == fo / 256
    }) by (nonlinear_arith)
        requires
            dfv == (if v.dont_fragment {
                64int
            } else {
                0int
            }),
            mfv == (if v.more_fragments {
                32int
            } else {
                0int
            }),
            0 <= fo / 256 < 32,
    ;
    assert((fo / 256) * 256 + fo % 256 == fo);
    assert(fo * 8 == v.fragment_offset);
    // the remaining fixed fields
    lemma_u16_bytes_round_trip(v.total_len);
    lemma_u16_bytes_round_trip(v.id);
    lemma_u16_bytes_round_trip(v.checksum);
    assert(b.subrange(12, 16) =~= v.source);
    assert(b.subrange(16, 20) =~= v.destination);
    // the option region
    assert(spec_tlv_list_wf(tlv)) by {
        assert forall|k: int| 0 <= k < tlv.len() implies (#[trigger] tlv[k]).wf() by {
            assert(v.options[k].wf());
            assert(tlv[k] == v.options[k].to_tlv());
        }
    }
    assert forall|j: int| 0 <= j < body.len() implies b[20 + j] == body[j] by {
        assert(b[20 + j] == hb[20 + j]);
        assert(hb[20 + j] == head[20 + j]);
    }
    assert(b.subrange(20, 20 + body.len() as int) =~= body);
    assert forall|j: int| 20 + body.len() <= j < hlen - 1 implies b[j] == 1 by {
        assert(b[j] == hb[j]);
        assert(hb[j] == pad[j - head.len()]);
    }
    if 20 + body.len() < hlen {
        assert(b[hlen - 1] == pad[pad.len() - 1]);
    }
    lemma_parse_tlv_round_trip(b, 20, hlen, tlv);
    // the options map back to their typed form
    assert(tlv.map_values(|t: TlvOptionView| Ipv4OptionView::from_tlv(t)) =~= v.options) by {
        assert forall|k: int| 0 <= k < tlv.len() implies Ipv4OptionView::from_tlv(tlv[k])
            == v.options[k] by {
            assert(v.options[k].wf());
            lemma_ipv4_option_tlv_round_trip(v.options[k]);
        }
    }
    // the payload
    assert(b.skip(hlen) =~= v.payload);
    assert(Ipv4PacketView::spec_from_bytes(b)->Ok_0 =~= v);
}

/// Round trip in the byte direction: a wire capture that is the canonical
/// encoding of a structurally valid packet decodes and re-encodes to
/// exactly the same bytes.
pub proof fn lemma_ipv4_bytes_round_trip(v: Ipv4PacketView)
    requires
        v.wf(),
    ensures
        Ipv4PacketView::spec_from_bytes(v.spec_bytes()) is Ok,
        Ipv4PacketView::spec_from_bytes(v.spec_bytes())->Ok_0.spec_bytes() == v.spec_bytes(),
{
    lemma_ipv4_round_trip(v);
}

/// Recomputing the length fields twice equals recomputing them once.
pub proof fn lemma_ipv4_recalculate_lengths_idempotent(v: Ipv4PacketView)
    ensures
        v.spec_recalculate_lengths().spec_recalculate_lengths() == v.spec_recalculate_lengths(),
{
    let v1 = v.spec_recalculate_lengths();
    assert(v1.spec_fixed_bytes().len() == v.spec_fixed_bytes().len());
    assert(v1.spec_options_tlv() == v.spec_options_tlv());
    assert(v1.spec_header_bytes().len() == v.spec_header_bytes().len());
}

/// The complement law at the packet level: after `recalculate_checksum`,
/// running the checksum over the whole header yields zero.
#[verifier::rlimit(100)]
#[verifier::spinoff_prover]
pub proof fn lemma_ipv4_checksum_verifies(v: Ipv4PacketView)
    ensures
        spec_checksum(v.spec_recalculate_checksum().spec_header_bytes()) == 0,
{
    let v0 = Ipv4PacketView { checksum: 0, ..v };
    let h0 = v0.spec_header_bytes();
    let c = spec_checksum(h0);
    let v2 = v.spec_recalculate_checksum();
    assert(v2.spec_byte0() == v0.spec_byte0() && v2.spec_byte6() == v0.spec_byte6()
        && v2.spec_byte7() == v0.spec_byte7());
    assert(v2.spec_fixed_bytes() =~= v0.spec_fixed_bytes().update(10, spec_u16_hi(c)).update(
        11,
        spec_u16_lo(c),
    ));
    assert(v2.spec_options_tlv() == v0.spec_options_tlv());
    let body = spec_tlv_list_bytes(v0.spec_options_tlv());
    let pad = spec_pad4((v0.spec_fixed_bytes() + body).len() as int);
    assert(v2.spec_header_bytes() =~= h0.update(10, spec_u16_hi(c)).update(11, spec_u16_lo(c)));
    lemma_pad4_properties((v0.spec_fixed_bytes() + body).len() as int);
    assert(h0.len() % 4 == 0);
    assert(h0.len() % 2 == 0) by {
        vstd::arithmetic::div_mod::lemma_mod_mod(h0.len() as int, 2, 2);
    }
    assert(h0[10] == 0 && h0[11] == 0);
    crate::util::lemma_checksum_complement(h0, 10);
}

/// Recomputing the checksum twice equals recomputing it once.
pub proof fn lemma_ipv4_recalculate_checksum_idempotent(v: Ipv4PacketView)
    ensures
        v.spec_recalculate_checksum().spec_recalculate_checksum() == v.spec_recalculate_checksum(),
{
    let v1 = v.spec_recalculate_checksum();
    assert((Ipv4PacketView { checksum: 0, ..v1 }) =~= (Ipv4PacketView { checksum: 0, ..v }));
}

} // verus!
