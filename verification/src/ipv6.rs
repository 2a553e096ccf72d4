//! IPv6 packet codec: a 40-byte fixed header, a linked chain of
//! variable-length extension headers (each aligned to 8 bytes, with
//! Hop-by-Hop and Destination Options carrying nested option lists), the
//! payload, and dispatch of the payload to the upper-layer codec.

use vstd::prelude::*;
use vstd::slice::{slice_subrange, slice_to_vec};
use vstd::arithmetic::div_mod::{
    lemma_add_mod_noop, lemma_add_mod_noop_right, lemma_fundamental_div_mod, lemma_mod_mod,
};
use crate::tcp::{TcpPacket, TcpPacketView};
use crate::udp::{UdpPacket, UdpPacketView};
use crate::util::{
    DecodeError, DscpType, EcnType, Ipv6Address, clone_bytes, res_view, spec_u16_hi, spec_u16_lo,
    spec_u16_of, u16_hi, u16_lo, u16_of, lemma_concat_region, lemma_u16_bytes_round_trip,
};

verus! {

/// The upper-layer packet decoded from an IPv6 payload.  A protocol this
/// library does not model is handed back as its raw bytes rather than
/// rejected: IPv6 traffic legitimately chains through many such values.
#[derive(Debug)]
pub enum Ipv6NextLevelPacket {
    Tcp(TcpPacket),
    Udp(UdpPacket),
    Unimplemented(Vec<u8>),
}

/// An option inside a Hop-by-Hop or Destination Options extension header.
/// Kind 0 is the single-byte Pad1 option, which carries no length or data.
#[derive(Clone, Debug)]
pub struct Ipv6Option {
    pub kind: u8,
    pub data: Vec<u8>,
}

/// The mathematical model of an IPv6 option.
#[verifier::ext_equal]
pub struct Ipv6OptionView {
    pub kind: u8,
    pub data: Seq<u8>,
}

impl View for Ipv6Option {
    type V = Ipv6OptionView;

    open spec fn view(&self) -> Ipv6OptionView {
        Ipv6OptionView { kind: self.kind, data: self.data@ }
    }
}

impl DeepView for Ipv6Option {
    type V = Ipv6OptionView;

    open spec fn deep_view(&self) -> Ipv6OptionView {
        self.view()
    }
}

impl Ipv6OptionView {
    /// Structural validity: Pad1 carries no data and any other option's
    /// data fits its length byte.
    pub open spec fn wf(self) -> bool {
        if self.kind == 0 {
            self.data.len() == 0
        } else {
            self.data.len() <= 255
        }
    }

    /// The option on the wire: a single byte for Pad1, else kind, length
    /// and data.
    pub open spec fn spec_bytes(self) -> Seq<u8> {
        if self.kind == 0 {
            seq![0u8]
        } else {
            seq![self.kind, self.data.len() as u8] + self.data
        }
    }
}

impl Ipv6Option {
    /// Encodes the option: a single byte for Pad1, else kind, length and
    /// data.
    pub fn to_bytes(&self) -> (r: Vec<u8>)
        ensures
            r@ == self@.spec_bytes(),
    {
        let mut option: Vec<u8> = Vec::new();
        if self.kind == 0 {
            option.push(0);
        } else {
            option.push(self.kind);
            option.push(self.data.len() as u8);
            let mut tail = clone_bytes(&self.data);
            option.append(&mut tail);
        }
        proof {
            assert(option@ =~= self@.spec_bytes());
        }
        option
    }
}

/// The concatenated wire encoding of an IPv6 option list.
pub open spec fn spec_ipv6_options_bytes(opts: Seq<Ipv6OptionView>) -> Seq<u8>
    decreases opts.len(),
{
    if opts.len() == 0 {
        Seq::empty()
    } else {
        opts[0].spec_bytes() + spec_ipv6_options_bytes(opts.skip(1))
    }
}

/// Every option of the list is structurally valid.
pub open spec fn spec_ipv6_options_wf(opts: Seq<Ipv6OptionView>) -> bool {
    forall|k: int| 0 <= k < opts.len() ==> (#[trigger] opts[k]).wf()
}

pub proof fn lemma_ipv6_options_bytes_append(a: Seq<Ipv6OptionView>, b: Seq<Ipv6OptionView>)
    ensures
        spec_ipv6_options_bytes(a + b) == spec_ipv6_options_bytes(a) + spec_ipv6_options_bytes(b),
    decreases a.len(),
{
    if a.len() == 0 {
        assert(a + b =~= b);
        assert(spec_ipv6_options_bytes(a) + spec_ipv6_options_bytes(b) =~= spec_ipv6_options_bytes(
            b,
        ));
    } else {
        assert((a + b).skip(1) =~= a.skip(1) + b);
        lemma_ipv6_options_bytes_append(a.skip(1), b);
        assert((a + b)[0] == a[0]);
        assert(a[0].spec_bytes() + (spec_ipv6_options_bytes(a.skip(1)) + spec_ipv6_options_bytes(b))
            =~= (a[0].spec_bytes() + spec_ipv6_options_bytes(a.skip(1)))
            + spec_ipv6_options_bytes(b));
    }
}

/// Extending an encoded prefix by one option appends that option's bytes.
pub proof fn lemma_ipv6_options_bytes_snoc(opts: Seq<Ipv6OptionView>, k: int)
    requires
        0 <= k < opts.len(),
    ensures
        spec_ipv6_options_bytes(opts.take(k + 1)) == spec_ipv6_options_bytes(opts.take(k))
            + opts[k].spec_bytes(),
{
    assert(opts.take(k + 1) =~= opts.take(k) + seq![opts[k]]);
    lemma_ipv6_options_bytes_append(opts.take(k), seq![opts[k]]);
    let s1 = seq![opts[k]];
    assert(s1.skip(1) =~= Seq::<Ipv6OptionView>::empty());
    assert(spec_ipv6_options_bytes(s1.skip(1)) =~= Seq::<u8>::empty());
    assert(spec_ipv6_options_bytes(s1) =~= opts[k].spec_bytes());
}

/// The parsing of an extension-header body as an option list: byte 0 is
/// a Pad1 option, anything else is kind, length and data.  Options are
/// confined to the body; one that overruns it is a `LengthError`.
pub open spec fn spec_parse_ipv6_options(d: Seq<u8>, j: int) -> Result<
    Seq<Ipv6OptionView>,
    DecodeError,
>
    decreases d.len() - j,
{
    if j >= d.len() {
        Ok(Seq::empty())
    } else if d[j] == 0 {
        match spec_parse_ipv6_options(d, j + 1) {
            Ok(rest) => Ok(seq![Ipv6OptionView { kind: 0, data: Seq::empty() }] + rest),
            Err(e) => Err(e),
        }
    } else if j + 1 >= d.len() {
        Err(DecodeError::LengthError)
    } else if j + 2 + d[j + 1] > d.len() {
        Err(DecodeError::LengthError)
    } else {
        let o = Ipv6OptionView { kind: d[j], data: d.subrange(j + 2, j + 2 + d[j + 1]) };
        match spec_parse_ipv6_options(d, j + 2 + d[j + 1]) {
            Ok(rest) => Ok(seq![o] + rest),
            Err(e) => Err(e),
        }
    }
}

/// Prepends already-parsed options to the result of parsing the rest of
/// the body.
pub open spec fn spec_ipv6_options_prepend(
    acc: Seq<Ipv6OptionView>,
    r: Result<Seq<Ipv6OptionView>, DecodeError>,
) -> Result<Seq<Ipv6OptionView>, DecodeError> {
    match r {
        Ok(s) => Ok(acc + s),
        Err(e) => Err(e),
    }
}

/// Round trip: a body that holds exactly the encoding of a structurally
/// valid option list parses back to that list.
pub proof fn lemma_parse_ipv6_options_round_trip(d: Seq<u8>, j: int, opts: Seq<Ipv6OptionView>)
    requires
        0 <= j,
        spec_ipv6_options_wf(opts),
        j + spec_ipv6_options_bytes(opts).len() == d.len(),
        d.subrange(j, d.len() as int) == spec_ipv6_options_bytes(opts),
    ensures
        spec_parse_ipv6_options(d, j) == Ok::<Seq<Ipv6OptionView>, DecodeError>(opts),
    decreases opts.len(),
{
    let body = spec_ipv6_options_bytes(opts);
    if opts.len() == 0 {
        assert(opts =~= Seq::<Ipv6OptionView>::empty());
    } else {
        let o = opts[0];
        assert(o.wf());
        let rest = opts.skip(1);
        let obytes = o.spec_bytes();
        let restbytes = spec_ipv6_options_bytes(rest);
        assert(body == obytes + restbytes);
        assert forall|x: int| 0 <= x < body.len() implies body[x] == d[j + x] by {
            assert(body[x] == d.subrange(j, d.len() as int)[x]);
        }
        let ol = obytes.len() as int;
        assert forall|x: int| 0 <= x < restbytes.len() implies d[j + ol + x] == restbytes[x] by {
            assert(restbytes[x] == body[ol + x]);
            assert(body[ol + x] == d[j + (ol + x)]);
        }
        assert(d.subrange(j + ol, d.len() as int) =~= restbytes);
        if o.kind == 0 {
            assert(d[j] == body[0] && body[0] == 0);
            assert(o =~= (Ipv6OptionView { kind: 0, data: Seq::empty() }));
            lemma_parse_ipv6_options_round_trip(d, j + 1, rest);
        } else {
            assert(d[j] == body[0] && body[0] == o.kind);
            assert(d[j + 1] == body[1] && body[1] == o.data.len() as u8);
            assert(o.data.len() <= 255);
            assert(ol == 2 + o.data.len());
            assert forall|x: int| 0 <= x < o.data.len() implies d[j + 2 + x] == o.data[x] by {
                assert(o.data[x] == obytes[2 + x]);
                assert(obytes[2 + x] == body[2 + x]);
                assert(body[2 + x] == d[j + (2 + x)]);
            }
            assert(d.subrange(j + 2, j + 2 + o.data.len() as int) =~= o.data);
            lemma_parse_ipv6_options_round_trip(d, j + ol, rest);
            assert((Ipv6OptionView { kind: d[j], data: d.subrange(j + 2, j + 2 + d[j + 1]) }) =~= o);
        }
        assert(seq![o] + rest =~= opts);
    }
}

/// The number of zero-padding bytes an extension-header body of `n` bytes
/// needs after its 2-byte prologue to reach an 8-byte boundary.
pub open spec fn spec_ext_pad_len(n: int) -> int {
    (8 - (n % 8 + 2) % 8) % 8
}

/// The wire length byte of an extension header whose body (after the
/// 2-byte prologue) holds `n` bytes plus padding: the padded size in
/// 8-byte units minus one, wrapped at the field's range.
pub open spec fn spec_ext_len_byte(n: int) -> u8 {
    ((n % 2048 + 2 + spec_ext_pad_len(n)) / 8 - 1) as u8
}

/// The trailing pad option appended to a Hop-by-Hop or Destination
/// Options body: nothing, a Pad1 byte, or a PadN option.
pub open spec fn spec_pad_option_bytes(pad: int) -> Seq<u8> {
    if pad == 0 {
        Seq::empty()
    } else if pad == 1 {
        seq![0u8]
    } else {
        seq![1u8, (pad - 2) as u8] + Seq::new((pad - 2) as nat, (|k: int| 0u8))
    }
}

/// An IPv6 extension header.  Each variant carries the `next_header`
/// byte that points at the following header or upper-layer protocol.
#[derive(Clone, Debug)]
pub enum Ipv6ExtensionHeader {
    HopByHopOptions { next_header: u8, options: Vec<Ipv6Option> },
    Routing { next_header: u8, payload: Vec<u8> },
    Fragment { next_header: u8, payload: Vec<u8> },
    DestinationOptions { next_header: u8, options: Vec<Ipv6Option> },
    Mobility { next_header: u8, payload: Vec<u8> },
}

/// The mathematical model of an IPv6 extension header.
#[verifier::ext_equal]
pub enum Ipv6ExtensionHeaderView {
    HopByHopOptions { next_header: u8, options: Seq<Ipv6OptionView> },
    Routing { next_header: u8, payload: Seq<u8> },
    Fragment { next_header: u8, payload: Seq<u8> },
    DestinationOptions { next_header: u8, options: Seq<Ipv6OptionView> },
    Mobility { next_header: u8, payload: Seq<u8> },
}

impl View for Ipv6ExtensionHeader {
    type V = Ipv6ExtensionHeaderView;

    open spec fn view(&self) -> Ipv6ExtensionHeaderView {
        match self {
            Ipv6ExtensionHeader::HopByHopOptions { next_header, options } =>
                Ipv6ExtensionHeaderView::HopByHopOptions {
                next_header: *next_header,
                options: options.deep_view(),
            },
            Ipv6ExtensionHeader::Routing { next_header, payload } =>
                Ipv6ExtensionHeaderView::Routing {
                next_header: *next_header,
                payload: payload@,
            },
            Ipv6ExtensionHeader::Fragment { next_header, payload } =>
                Ipv6ExtensionHeaderView::Fragment {
                next_header: *next_header,
                payload: payload@,
            },
            Ipv6ExtensionHeader::DestinationOptions { next_header, options } =>
                Ipv6ExtensionHeaderView::DestinationOptions {
                next_header: *next_header,
                options: options.deep_view(),
            },
            Ipv6ExtensionHeader::Mobility { next_header, payload } =>
                Ipv6ExtensionHeaderView::Mobility {
                next_header: *next_header,
                payload: payload@,
            },
        }
    }
}

impl DeepView for Ipv6ExtensionHeader {
    type V = Ipv6ExtensionHeaderView;

    open spec fn deep_view(&self) -> Ipv6ExtensionHeaderView {
        self.view()
    }
}

/// Whether a next-header code names an extension header this library
/// recognizes.
pub open spec fn spec_is_ext_code(code: u8) -> bool {
    code == 0 || code == 43 || code == 44 || code == 60 || code == 135
}

/// Whether a next-header code names an extension header this library
/// recognizes: 0 Hop-by-Hop, 43 Routing, 44 Fragment, 60 Destination
/// Options, 135 Mobility.
pub fn is_extension_code(code: u8) -> (r: bool)
    ensures
        r == spec_is_ext_code(code),
{
    code == 0 || code == 43 || code == 44 || code == 60 || code == 135
}

impl Ipv6ExtensionHeaderView {
    /// The wire type code of this header variant.
    pub open spec fn type_code(self) -> u8 {
        match self {
            Ipv6ExtensionHeaderView::HopByHopOptions { .. } => 0,
            Ipv6ExtensionHeaderView::Routing { .. } => 43,
            Ipv6ExtensionHeaderView::Fragment { .. } => 44,
            Ipv6ExtensionHeaderView::DestinationOptions { .. } => 60,
            Ipv6ExtensionHeaderView::Mobility { .. } => 135,
        }
    }

    /// The embedded pointer to the following header or protocol.
    pub open spec fn next_header(self) -> u8 {
        match self {
            Ipv6ExtensionHeaderView::HopByHopOptions { next_header, .. } => next_header,
            Ipv6ExtensionHeaderView::Routing { next_header, .. } => next_header,
            Ipv6ExtensionHeaderView::Fragment { next_header, .. } => next_header,
            Ipv6ExtensionHeaderView::DestinationOptions { next_header, .. } => next_header,
            Ipv6ExtensionHeaderView::Mobility { next_header, .. } => next_header,
        }
    }

    /// The header on the wire.  Hop-by-Hop and Destination Options close
    /// with a Pad1/PadN option, Mobility with literal zero bytes, all to
    /// an 8-byte boundary; Routing trusts its payload to be aligned;
    /// Fragment is fixed at 8 bytes.
    pub open spec fn spec_bytes(self) -> Seq<u8> {
        match self {
            Ipv6ExtensionHeaderView::HopByHopOptions { next_header, options } => {
                let ob = spec_ipv6_options_bytes(options);
                seq![next_header, spec_ext_len_byte(ob.len() as int)] + ob + spec_pad_option_bytes(
                    spec_ext_pad_len(ob.len() as int),
                )
            },
            Ipv6ExtensionHeaderView::DestinationOptions { next_header, options } => {
                let ob = spec_ipv6_options_bytes(options);
                seq![next_header, spec_ext_len_byte(ob.len() as int)] + ob + spec_pad_option_bytes(
                    spec_ext_pad_len(ob.len() as int),
                )
            },
            Ipv6ExtensionHeaderView::Routing { next_header, payload } => {
                seq![next_header, spec_ext_len_byte(payload.len() as int)] + payload
            },
            Ipv6ExtensionHeaderView::Fragment { next_header, payload } => {
                seq![next_header] + payload
            },
            Ipv6ExtensionHeaderView::Mobility { next_header, payload } => {
                seq![next_header, spec_ext_len_byte(payload.len() as int)] + payload + Seq::new(
                    spec_ext_pad_len(payload.len() as int) as nat,
                    (|k: int| 0u8),
                )
            },
        }
    }

    /// Structural validity: option lists are valid and every variant's
    /// body is already aligned so that its wire size is a multiple of 8
    /// bytes and its length byte is exact (Fragment carries exactly its
    /// 7 fixed body bytes).
    pub open spec fn wf(self) -> bool {
        match self {
            Ipv6ExtensionHeaderView::HopByHopOptions { options, .. } => {
                let ob = spec_ipv6_options_bytes(options);
                spec_ipv6_options_wf(options) && (2 + ob.len()) % 8 == 0 && ob.len() <= 2046
            },
            Ipv6ExtensionHeaderView::DestinationOptions { options, .. } => {
                let ob = spec_ipv6_options_bytes(options);
                spec_ipv6_options_wf(options) && (2 + ob.len()) % 8 == 0 && ob.len() <= 2046
            },
            Ipv6ExtensionHeaderView::Routing { payload, .. } => (2 + payload.len()) % 8 == 0
                && payload.len() <= 2046,
            Ipv6ExtensionHeaderView::Mobility { payload, .. } => (2 + payload.len()) % 8 == 0
                && payload.len() <= 2046,
            Ipv6ExtensionHeaderView::Fragment { payload, .. } => payload.len() == 7,
        }
    }
}

/// A body of `n` bytes that is already aligned needs no padding, and its
/// length byte recovers the exact block size.
pub proof fn lemma_ext_aligned_len_byte(n: int)
    requires
        0 <= n <= 2046,
        (2 + n) % 8 == 0,
    ensures
        spec_ext_pad_len(n) == 0,
        (spec_ext_len_byte(n) + 1) * 8 == 2 + n,
{
    lemma_mod_mod(n, 8, 256);
    assert((n % 2048) % 8 == n % 8);
    lemma_add_mod_noop_right(2, n, 8);
    assert((2 + n % 8) % 8 == (2 + n) % 8);
    assert(n % 2048 == n) by {
        lemma_fundamental_div_mod(n, 2048);
        assert(n / 2048 == 0) by (nonlinear_arith)
            requires
                0 <= n <= 2046,
        ;
    }
    lemma_fundamental_div_mod(2 + n, 8);
}

impl Ipv6ExtensionHeader {
    /// The wire type code of this header variant: 0 Hop-by-Hop, 43
    /// Routing, 44 Fragment, 60 Destination Options, 135 Mobility.
    pub fn get_type(&self) -> (r: u8)
        ensures
            r == self@.type_code(),
    {
        match self {
            Ipv6ExtensionHeader::HopByHopOptions { .. } => 0,
            Ipv6ExtensionHeader::Routing { .. } => 43,
            Ipv6ExtensionHeader::Fragment { .. } => 44,
            Ipv6ExtensionHeader::DestinationOptions { .. } => 60,
            Ipv6ExtensionHeader::Mobility { .. } => 135,
        }
    }

    /// The embedded pointer to the following header or protocol.
    pub fn get_next_header_type(&self) -> (r: u8)
        ensures
            r == self@.next_header(),
    {
        match self {
            Ipv6ExtensionHeader::HopByHopOptions { next_header, .. } => *next_header,
            Ipv6ExtensionHeader::Routing { next_header, .. } => *next_header,
            Ipv6ExtensionHeader::Fragment { next_header, .. } => *next_header,
            Ipv6ExtensionHeader::DestinationOptions { next_header, .. } => *next_header,
            Ipv6ExtensionHeader::Mobility { next_header, .. } => *next_header,
        }
    }

    /// Encodes the header with its alignment padding.  Hop-by-Hop,
    /// Destination Options and Mobility are always a multiple of 8 bytes;
    /// Routing is when its payload is aligned as required; Fragment is
    /// exactly 8 bytes when it carries its 7 fixed body bytes.
    pub fn to_bytes(&self) -> (r: Vec<u8>)
        ensures
            r@ == self@.spec_bytes(),
            (self@ is HopByHopOptions || self@ is DestinationOptions || self@ is Mobility)
                ==> r@.len() % 8 == 0,
            self@ is Routing && self@.wf() ==> r@.len() % 8 == 0,
            self@ is Fragment && self@.wf() ==> r@.len() == 8,
    {
        match self {
            Ipv6ExtensionHeader::HopByHopOptions { next_header, options }
            | Ipv6ExtensionHeader::DestinationOptions { next_header, options } => {
                let r = encode_options_block(*next_header, options);
                proof {
                    assert(r@ =~= self@.spec_bytes());
                }
                r
            },
            Ipv6ExtensionHeader::Routing { next_header, payload } => {
                let n = payload.len();
                let lf = ext_len_fields(n);
                let mut header: Vec<u8> = Vec::new();
                header.push(*next_header);
                header.push(lf.1);
                let mut tail = clone_bytes(payload);
                header.append(&mut tail);
                proof {
                    assert(header@ =~= self@.spec_bytes());
                    if self@.wf() {
                        assert(spec_ext_pad_len(n as int) == 0);
                        assert((2 + n) % 8 == 0);
                    }
                }
                header
            },
            Ipv6ExtensionHeader::Fragment { next_header, payload } => {
                let mut header: Vec<u8> = Vec::new();
                header.push(*next_header);
                let mut tail = clone_bytes(payload);
                header.append(&mut tail);
                proof {
                    assert(header@ =~= self@.spec_bytes());
                }
                header
            },
            Ipv6ExtensionHeader::Mobility { next_header, payload } => {
                let n = payload.len();
                let lf = ext_len_fields(n);
                let pad = lf.0;
                let mut header: Vec<u8> = Vec::new();
                header.push(*next_header);
                header.push(lf.1);
                let mut tail = clone_bytes(payload);
                header.append(&mut tail);
                let ghost base = header@;
                let mut c: usize = 0;
                while c < pad
                    invariant
                        c <= pad,
                        header@ =~= base + Seq::new(c as nat, (|x: int| 0u8)),
                    decreases pad - c,
                {
                    header.push(0);
                    proof {
                        assert(header@ =~= base + Seq::new((c + 1) as nat, (|x: int| 0u8)));
                    }
                    c = c + 1;
                }
                proof {
                    assert(header@ =~= self@.spec_bytes());
                    assert(header@.len() as int == 2 + n + pad);
                }
                header
            },
        }
    }
}

/// Computes the zero-padding size and the wire length byte for an
/// extension-header body of `n` bytes.
#[verifier::rlimit(100)]
#[verifier::spinoff_prover]
fn ext_len_fields(n: usize) -> (r: (usize, u8))
    ensures
        r.0 == spec_ext_pad_len(n as int),
        r.1 == spec_ext_len_byte(n as int),
        r.0 < 8,
        (2 + n + r.0) % 8 == 0,
{
    let pad = (8 - (n % 8 + 2) % 8) % 8;
    let numer = n % 2048 + 2 + pad;
    proof {
        lemma_mod_mod(n as int, 8, 256);
        lemma_add_mod_noop(n as int % 2048, 2 + pad as int, 8);
        lemma_add_mod_noop(n as int % 8, 2 + pad as int, 8);
        lemma_add_mod_noop(n as int, 2 + pad as int, 8);
        assert((n as int % 8 + 2 + pad) % 8 == 0) by {
            lemma_add_mod_noop_right(n as int % 8 + 2, pad as int, 8);
        }
        assert(numer >= 8);
    }
    let lb = (numer / 8 - 1) as u8;
    (pad, lb)
}

/// Encodes an option list as the body of a Hop-by-Hop or Destination
/// Options header: the next-header byte, the length byte, the options,
/// and a trailing Pad1/PadN option up to the 8-byte boundary.
fn encode_options_block(next_header: u8, options: &Vec<Ipv6Option>) -> (r: Vec<u8>)
    ensures
        ({
            let ob = spec_ipv6_options_bytes(options.deep_view());
            r@ == seq![next_header, spec_ext_len_byte(ob.len() as int)] + ob
                + spec_pad_option_bytes(spec_ext_pad_len(ob.len() as int))
        }),
        r@.len() % 8 == 0,
{
    let ghost ov = options.deep_view();
    let mut ob: Vec<u8> = Vec::new();
    let mut k: usize = 0;
    while k < options.len()
        invariant
            k <= options.len(),
            options.deep_view() == ov,
            ob@ == spec_ipv6_options_bytes(ov.take(k as int)),
        decreases options.len() - k,
    {
        let mut piece = options[k].to_bytes();
        ob.append(&mut piece);
        proof {
            lemma_ipv6_options_bytes_snoc(ov, k as int);
        }
        k = k + 1;
    }
    proof {
        assert(ov.take(ov.len() as int) =~= ov);
    }
    let n = ob.len();
    let lf = ext_len_fields(n);
    let pad = lf.0;
    let mut header: Vec<u8> = Vec::new();
    header.push(next_header);
    header.push(lf.1);
    header.append(&mut ob);
    if pad == 1 {
        header.push(0);
    } else if pad >= 2 {
        header.push(1);
        header.push((pad - 2) as u8);
        let mut c: usize = 0;
        let ghost base = header@;
        while c < pad - 2
            invariant
                c <= pad - 2,
                pad < 8,
                header@ =~= base + Seq::new(c as nat, (|x: int| 0u8)),
            decreases pad - 2 - c,
        {
            header.push(0);
            proof {
                assert(header@ =~= base + Seq::new((c + 1) as nat, (|x: int| 0u8)));
            }
            c = c + 1;
        }
    }
    proof {
        assert(header@ =~= seq![next_header, spec_ext_len_byte(n as int)] + spec_ipv6_options_bytes(
            ov,
        ) + spec_pad_option_bytes(spec_ext_pad_len(n as int)));
        assert(header@.len() as int == 2 + n + pad);
    }
    header
}

/// The concatenated wire encoding of an extension-header chain.
pub open spec fn spec_chain_bytes(hdrs: Seq<Ipv6ExtensionHeaderView>) -> Seq<u8>
    decreases hdrs.len(),
{
    if hdrs.len() == 0 {
        Seq::empty()
    } else {
        hdrs[0].spec_bytes() + spec_chain_bytes(hdrs.skip(1))
    }
}

pub proof fn lemma_chain_bytes_append(a: Seq<Ipv6ExtensionHeaderView>, b: Seq<Ipv6ExtensionHeaderView>)
    ensures
        spec_chain_bytes(a + b) == spec_chain_bytes(a) + spec_chain_bytes(b),
    decreases a.len(),
{
    if a.len() == 0 {
        assert(a + b =~= b);
        assert(spec_chain_bytes(a) + spec_chain_bytes(b) =~= spec_chain_bytes(b));
    } else {
        assert((a + b).skip(1) =~= a.skip(1) + b);
        lemma_chain_bytes_append(a.skip(1), b);
        assert((a + b)[0] == a[0]);
        assert(a[0].spec_bytes() + (spec_chain_bytes(a.skip(1)) + spec_chain_bytes(b)) =~= (
        a[0].spec_bytes() + spec_chain_bytes(a.skip(1))) + spec_chain_bytes(b));
    }
}

/// Extending an encoded chain prefix by one header appends its bytes.
pub proof fn lemma_chain_bytes_snoc(hdrs: Seq<Ipv6ExtensionHeaderView>, k: int)
    requires
        0 <= k < hdrs.len(),
    ensures
        spec_chain_bytes(hdrs.take(k + 1)) == spec_chain_bytes(hdrs.take(k))
            + hdrs[k].spec_bytes(),
{
    assert(hdrs.take(k + 1) =~= hdrs.take(k) + seq![hdrs[k]]);
    lemma_chain_bytes_append(hdrs.take(k), seq![hdrs[k]]);
    let s1 = seq![hdrs[k]];
    assert(s1.skip(1) =~= Seq::<Ipv6ExtensionHeaderView>::empty());
    assert(spec_chain_bytes(s1.skip(1)) =~= Seq::<u8>::empty());
    assert(spec_chain_bytes(s1) =~= hdrs[k].spec_bytes());
}

/// The parsing of the extension-header chain starting at position `i`
/// with discriminator `code`: each recognized code consumes one block
/// and takes the next code from the block's own first byte; the first
/// unrecognized code ends the chain and marks the start of the payload.
pub open spec fn spec_parse_ext_chain(b: Seq<u8>, i: int, code: u8) -> Result<
    (Seq<Ipv6ExtensionHeaderView>, int),
    DecodeError,
>
    decreases b.len() - i,
{
    if !spec_is_ext_code(code) {
        Ok((Seq::empty(), i))
    } else if code == 44 {
        if i + 8 > b.len() {
            Err(DecodeError::LengthError)
        } else {
            let h = Ipv6ExtensionHeaderView::Fragment {
                next_header: b[i],
                payload: b.subrange(i + 1, i + 8),
            };
            match spec_parse_ext_chain(b, i + 8, b[i]) {
                Ok(r) => Ok((seq![h] + r.0, r.1)),
                Err(e) => Err(e),
            }
        }
    } else {
        if i + 2 > b.len() {
            Err(DecodeError::LengthError)
        } else {
            let blen = (b[i + 1] + 1) * 8;
            if i + blen > b.len() {
                Err(DecodeError::LengthError)
            } else {
                let nh = b[i];
                let hdr_r: Result<Ipv6ExtensionHeaderView, DecodeError> = if code == 0 || code
                    == 60 {
                    match spec_parse_ipv6_options(b.subrange(i + 2, i + blen), 0) {
                        Ok(opts) => Ok(
                            if code == 0 {
                                Ipv6ExtensionHeaderView::HopByHopOptions {
                                    next_header: nh,
                                    options: opts,
                                }
                            } else {
                                Ipv6ExtensionHeaderView::DestinationOptions {
                                    next_header: nh,
                                    options: opts,
                                }
                            },
                        ),
                        Err(e) => Err(e),
                    }
                } else if code == 43 {
                    Ok(
                        Ipv6ExtensionHeaderView::Routing {
                            next_header: nh,
                            payload: b.subrange(i + 2, i + blen),
                        },
                    )
                } else {
                    Ok(
                        Ipv6ExtensionHeaderView::Mobility {
                            next_header: nh,
                            payload: b.subrange(i + 2, i + blen),
                        },
                    )
                };
                match hdr_r {
                    Err(e) => Err(e),
                    Ok(h) => match spec_parse_ext_chain(b, i + blen, nh) {
                        Ok(r) => Ok((seq![h] + r.0, r.1)),
                        Err(e) => Err(e),
                    },
                }
            }
        }
    }
}

/// Prepends already-parsed headers to the result of parsing the rest of
/// the chain.
pub open spec fn spec_chain_prepend(
    acc: Seq<Ipv6ExtensionHeaderView>,
    r: Result<(Seq<Ipv6ExtensionHeaderView>, int), DecodeError>,
) -> Result<(Seq<Ipv6ExtensionHeaderView>, int), DecodeError> {
    match r {
        Ok(p) => Ok((acc + p.0, p.1)),
        Err(e) => Err(e),
    }
}

/// The chain linkage a structurally valid packet maintains: the given
/// first code names the first header, every header's embedded next
/// header names its successor, and the last one leaves the recognized
/// set (so that decoding stops exactly at the payload).
pub open spec fn spec_chain_linked(hdrs: Seq<Ipv6ExtensionHeaderView>, first_code: u8) -> bool {
    &&& (if hdrs.len() == 0 {
        !spec_is_ext_code(first_code)
    } else {
        first_code == hdrs[0].type_code()
    })
    &&& (forall|k: int|
        0 <= k < hdrs.len() - 1 ==> (#[trigger] hdrs[k]).next_header() == hdrs[k + 1].type_code())
    &&& (hdrs.len() > 0 ==> !spec_is_ext_code(hdrs[hdrs.len() - 1].next_header()))
}

/// Every header of the chain is structurally valid.
pub open spec fn spec_chain_wf(hdrs: Seq<Ipv6ExtensionHeaderView>) -> bool {
    forall|k: int| 0 <= k < hdrs.len() ==> (#[trigger] hdrs[k]).wf()
}

/// Round trip: a region that holds the encoding of a structurally valid,
/// correctly linked chain parses back to exactly that chain, leaving the
/// cursor at the payload.
#[verifier::rlimit(100)]
#[verifier::spinoff_prover]
pub proof fn lemma_ipv6_chain_round_trip(
    b: Seq<u8>,
    i: int,
    hdrs: Seq<Ipv6ExtensionHeaderView>,
    code: u8,
)
    requires
        0 <= i,
        i + spec_chain_bytes(hdrs).len() <= b.len(),
        b.subrange(i, i + spec_chain_bytes(hdrs).len()) == spec_chain_bytes(hdrs),
        spec_chain_wf(hdrs),
        spec_chain_linked(hdrs, code),
    ensures
        spec_parse_ext_chain(b, i, code) == Ok::<(Seq<Ipv6ExtensionHeaderView>, int), DecodeError>(
            (hdrs, i + spec_chain_bytes(hdrs).len()),
        ),
    decreases hdrs.len(),
{
    let body = spec_chain_bytes(hdrs);
    if hdrs.len() == 0 {
        assert(hdrs =~= Seq::<Ipv6ExtensionHeaderView>::empty());
    } else {
        let h = hdrs[0];
        assert(h.wf());
        assert(code == h.type_code());
        let rest = hdrs.skip(1);
        let hb = h.spec_bytes();
        let restbytes = spec_chain_bytes(rest);
        assert(body == hb + restbytes);
        let hl = hb.len() as int;
        lemma_concat_region(b, i, hb, restbytes);
        assert(b[i] == hb[0]) by {
            assert(b.subrange(i, i + hl)[0] == b[i]);
        }
        assert(spec_chain_wf(rest) && spec_chain_linked(rest, h.next_header())) by {
            assert(forall|k: int| 0 <= k < rest.len() ==> rest[k] == hdrs[k + 1]);
            if rest.len() > 0 {
                assert(hdrs[0].next_header() == hdrs[1].type_code());
            }
        }
        match h {
            Ipv6ExtensionHeaderView::Fragment { next_header, payload } => {
                assert(hb == seq![next_header] + payload);
                assert(hl == 8);
                assert(hb[0] == next_header);
                lemma_concat_region(b, i, seq![next_header], payload);
                assert(b.subrange(i + 1, i + 8) == payload);
                lemma_ipv6_chain_round_trip(b, i + 8, rest, next_header);
            },
            Ipv6ExtensionHeaderView::HopByHopOptions { next_header, options } => {
                let ob = spec_ipv6_options_bytes(options);
                lemma_ext_aligned_len_byte(ob.len() as int);
                let lb = spec_ext_len_byte(ob.len() as int);
                assert(spec_pad_option_bytes(0) =~= Seq::<u8>::empty());
                assert(hb =~= seq![next_header, lb] + ob);
                assert(hl == 2 + ob.len());
                lemma_concat_region(b, i, seq![next_header, lb], ob);
                assert(b[i + 1] == lb) by {
                    assert(b.subrange(i, i + 2)[1] == b[i + 1]);
                }
                let blen = (b[i + 1] + 1) * 8;
                assert(blen == hl);
                let d = b.subrange(i + 2, i + blen);
                assert(d == ob);
                assert(d.subrange(0, d.len() as int) =~= d);
                lemma_parse_ipv6_options_round_trip(d, 0, options);
                lemma_ipv6_chain_round_trip(b, i + hl, rest, next_header);
            },
            Ipv6ExtensionHeaderView::DestinationOptions { next_header, options } => {
                let ob = spec_ipv6_options_bytes(options);
                lemma_ext_aligned_len_byte(ob.len() as int);
                let lb = spec_ext_len_byte(ob.len() as int);
                assert(spec_pad_option_bytes(0) =~= Seq::<u8>::empty());
                assert(hb =~= seq![next_header, lb] + ob);
                assert(hl == 2 + ob.len());
                lemma_concat_region(b, i, seq![next_header, lb], ob);
                assert(b[i + 1] == lb) by {
                    assert(b.subrange(i, i + 2)[1] == b[i + 1]);
                }
                let blen = (b[i + 1] + 1) * 8;
                assert(blen == hl);
                let d = b.subrange(i + 2, i + blen);
                assert(d == ob);
                assert(d.subrange(0, d.len() as int) =~= d);
                lemma_parse_ipv6_options_round_trip(d, 0, options);
                lemma_ipv6_chain_round_trip(b, i + hl, rest, next_header);
            },
            Ipv6ExtensionHeaderView::Routing { next_header, payload } => {
                lemma_ext_aligned_len_byte(payload.len() as int);
                let lb = spec_ext_len_byte(payload.len() as int);
                assert(hb == seq![next_header, lb] + payload);
                assert(hl == 2 + payload.len());
                lemma_concat_region(b, i, seq![next_header, lb], payload);
                assert(b[i + 1] == lb) by {
                    assert(b.subrange(i, i + 2)[1] == b[i + 1]);
                }
                let blen = (b[i + 1] + 1) * 8;
                assert(blen == hl);
                assert(b.subrange(i + 2, i + blen) == payload);
                lemma_ipv6_chain_round_trip(b, i + hl, rest, next_header);
            },
            Ipv6ExtensionHeaderView::Mobility { next_header, payload } => {
                lemma_ext_aligned_len_byte(payload.len() as int);
                let lb = spec_ext_len_byte(payload.len() as int);
                assert(Seq::new(0nat, (|k: int| 0u8)) =~= Seq::<u8>::empty());
                assert(hb =~= seq![next_header, lb] + payload);
                assert(hl == 2 + payload.len());
                lemma_concat_region(b, i, seq![next_header, lb], payload);
                assert(b[i + 1] == lb) by {
                    assert(b.subrange(i, i + 2)[1] == b[i + 1]);
                }
                let blen = (b[i + 1] + 1) * 8;
                assert(blen == hl);
                assert(b.subrange(i + 2, i + blen) == payload);
                lemma_ipv6_chain_round_trip(b, i + hl, rest, next_header);
            },
        }
        assert(seq![h] + rest =~= hdrs);
    }
}


/// Parses the body of a Hop-by-Hop or Destination Options header, the
/// region `[start, end)` of `bytes`, as an option list.
#[verifier::loop_isolation(false)]
fn parse_ipv6_options_region(bytes: &[u8], start: usize, end: usize) -> (r: Result<
    Vec<Ipv6Option>,
    DecodeError,
>)
    requires
        start <= end <= bytes@.len(),
    ensures
        ({
            let d = bytes@.subrange(start as int, end as int);
            match r {
                Ok(os) => spec_parse_ipv6_options(d, 0) == Ok::<Seq<Ipv6OptionView>, DecodeError>(
                    os.deep_view(),
                ),
                Err(e) => spec_parse_ipv6_options(d, 0) == Err::<Seq<Ipv6OptionView>, DecodeError>(
                    e,
                ),
            }
        }),
{
    let ghost d = bytes@.subrange(start as int, end as int);
    let dlen = end - start;
    let mut opts: Vec<Ipv6Option> = Vec::new();
    let mut j: usize = 0;
    while j < dlen
        invariant
            j <= dlen,
            spec_parse_ipv6_options(d, 0) == spec_ipv6_options_prepend(
                opts.deep_view(),
                spec_parse_ipv6_options(d, j as int),
            ),
        decreases dlen - j,
    {
        let a = start + j;
        proof {
            assert(d[j as int] == bytes@[a as int]);
        }
        if bytes[a] == 0 {
            let ghost acc0 = opts.deep_view();
            opts.push(Ipv6Option { kind: 0, data: Vec::new() });
            j = j + 1;
            proof {
                let o = Ipv6OptionView { kind: 0, data: Seq::empty() };
                assert(opts.deep_view() =~= acc0.push(o));
                match spec_parse_ipv6_options(d, j as int) {
                    Ok(rest) => {
                        assert(acc0 + (seq![o] + rest) =~= acc0.push(o) + rest);
                    },
                    Err(_) => {},
                }
            }
        } else {
            if j + 1 >= dlen {
                return Err(DecodeError::LengthError);
            }
            proof {
                assert(d[j as int + 1] == bytes@[a as int + 1]);
            }
            let olen = bytes[a + 1] as usize;
            if olen > dlen - j - 2 {
                return Err(DecodeError::LengthError);
            }
            let ghost acc0 = opts.deep_view();
            let data = slice_to_vec(slice_subrange(bytes, a + 2, a + 2 + olen));
            let o = Ipv6Option { kind: bytes[a], data };
            proof {
                assert(bytes@.subrange(a as int + 2, a as int + 2 + olen) =~= d.subrange(
                    j as int + 2,
                    j as int + 2 + d[j as int + 1],
                ));
                assert(o@ =~= (Ipv6OptionView {
                    kind: d[j as int],
                    data: d.subrange(j as int + 2, j as int + 2 + d[j as int + 1]),
                }));
            }
            opts.push(o);
            j = j + 2 + olen;
            proof {
                assert(opts.deep_view() =~= acc0.push(o@));
                match spec_parse_ipv6_options(d, j as int) {
                    Ok(rest) => {
                        assert(acc0 + (seq![o@] + rest) =~= acc0.push(o@) + rest);
                    },
                    Err(_) => {},
                }
            }
        }
    }
    proof {
        assert(spec_parse_ipv6_options(d, j as int) == Ok::<Seq<Ipv6OptionView>, DecodeError>(
            Seq::empty(),
        ));
        assert(opts.deep_view() + Seq::<Ipv6OptionView>::empty() =~= opts.deep_view());
    }
    Ok(opts)
}

/// Parses the extension-header chain that starts at byte 40, following
/// each header's embedded next-header byte, and returns the headers with
/// the position where the payload starts.
#[verifier::loop_isolation(false)]
#[verifier::rlimit(100)]
fn parse_extension_chain(bytes: &[u8], first_code: u8) -> (r: Result<
    (Vec<Ipv6ExtensionHeader>, usize),
    DecodeError,
>)
    requires
        bytes@.len() >= 40,
    ensures
        match r {
            Ok(hp) => 40 <= hp.1 <= bytes@.len() && spec_parse_ext_chain(bytes@, 40, first_code)
                == Ok::<(Seq<Ipv6ExtensionHeaderView>, int), DecodeError>(
                (hp.0.deep_view(), hp.1 as int),
            ),
            Err(e) => spec_parse_ext_chain(bytes@, 40, first_code) == Err::<
                (Seq<Ipv6ExtensionHeaderView>, int),
                DecodeError,
            >(e),
        },
{
    let mut hdrs: Vec<Ipv6ExtensionHeader> = Vec::new();
    let mut i: usize = 40;
    let mut code: u8 = first_code;
    while is_extension_code(code)
        invariant
            40 <= i <= bytes@.len(),
            spec_parse_ext_chain(bytes@, 40, first_code) == spec_chain_prepend(
                hdrs.deep_view(),
                spec_parse_ext_chain(bytes@, i as int, code),
            ),
        decreases bytes@.len() - i,
    {
        if code == 44 {
            if bytes.len() - i < 8 {
                return Err(DecodeError::LengthError);
            }
            let nh = bytes[i];
            let ghost acc0 = hdrs.deep_view();
            let h = Ipv6ExtensionHeader::Fragment {
                next_header: nh,
                payload: slice_to_vec(slice_subrange(bytes, i + 1, i + 8)),
            };
            proof {
                assert(h@ =~= (Ipv6ExtensionHeaderView::Fragment {
                    next_header: bytes@[i as int],
                    payload: bytes@.subrange(i as int + 1, i as int + 8),
                }));
            }
            hdrs.push(h);
            i = i + 8;
            code = nh;
            proof {
                assert(hdrs.deep_view() =~= acc0.push(h@));
                match spec_parse_ext_chain(bytes@, i as int, code) {
                    Ok(p) => {
                        assert(acc0 + (seq![h@] + p.0) =~= acc0.push(h@) + p.0);
                    },
                    Err(_) => {},
                }
            }
        } else {
            if bytes.len() - i < 2 {
                return Err(DecodeError::LengthError);
            }
            let blen = (bytes[i + 1] as usize + 1) * 8;
            if blen > bytes.len() - i {
                return Err(DecodeError::LengthError);
            }
            let nh = bytes[i];
            let ghost acc0 = hdrs.deep_view();
            let h: Ipv6ExtensionHeader;
            if code == 0 || code == 60 {
                let opts = match parse_ipv6_options_region(bytes, i + 2, i + blen) {
                    Ok(os) => os,
                    Err(e) => {
                        return Err(e);
                    },
                };
                if code == 0 {
                    h = Ipv6ExtensionHeader::HopByHopOptions { next_header: nh, options: opts };
                } else {
                    h = Ipv6ExtensionHeader::DestinationOptions { next_header: nh, options: opts };
                }
            } else if code == 43 {
                h = Ipv6ExtensionHeader::Routing {
                    next_header: nh,
                    payload: slice_to_vec(slice_subrange(bytes, i + 2, i + blen)),
                };
            } else {
                h = Ipv6ExtensionHeader::Mobility {
                    next_header: nh,
                    payload: slice_to_vec(slice_subrange(bytes, i + 2, i + blen)),
                };
            }
            hdrs.push(h);
            i = i + blen;
            code = nh;
            proof {
                assert(hdrs.deep_view() =~= acc0.push(h@));
                match spec_parse_ext_chain(bytes@, i as int, code) {
                    Ok(p) => {
                        assert(acc0 + (seq![h@] + p.0) =~= acc0.push(h@) + p.0);
                    },
                    Err(_) => {},
                }
            }
        }
    }
    proof {
        assert(spec_parse_ext_chain(bytes@, i as int, code) == Ok::<
            (Seq<Ipv6ExtensionHeaderView>, int),
            DecodeError,
        >((Seq::empty(), i as int)));
        assert(hdrs.deep_view() + Seq::<Ipv6ExtensionHeaderView>::empty() =~= hdrs.deep_view());
    }
    Ok((hdrs, i))
}

/// An IPv6 packet.
///
/// Build one from scratch with `Ipv6Packet::new()` and edit it field by
/// field, or decode one from wire bytes with `Ipv6Packet::from_bytes()`.
/// The `payload_len` and `next_header` fields are not kept in sync with
/// structural edits: call the recalculation methods before trusting a
/// re-encoding.
#[derive(Clone, Debug)]
pub struct Ipv6Packet {
    /// Differentiated services code point.
    pub dscp: DscpType,
    /// Explicit congestion notification.
    pub ecn: EcnType,
    /// 20-bit flow label held in a 32-bit field; only values below
    /// 0x100000 encode without truncation.
    pub flow_label: u32,
    /// Length of everything after the fixed header, in bytes.
    pub payload_len: u16,
    /// The first header or protocol after the fixed header.
    pub next_header: u8,
    /// Hop limit.
    pub hop_limit: u8,
    /// Source address.
    pub source: Ipv6Address,
    /// Destination address.
    pub destination: Ipv6Address,
    /// The extension-header chain, in wire order.
    pub extension_headers: Vec<Ipv6ExtensionHeader>,
    /// Packet data.
    pub payload: Vec<u8>,
}

/// The mathematical model of an IPv6 packet.
#[verifier::ext_equal]
pub struct Ipv6PacketView {
    pub dscp: DscpType,
    pub ecn: EcnType,
    pub flow_label: u32,
    pub payload_len: u16,
    pub next_header: u8,
    pub hop_limit: u8,
    pub source: Seq<u8>,
    pub destination: Seq<u8>,
    pub extension_headers: Seq<Ipv6ExtensionHeaderView>,
    pub payload: Seq<u8>,
}

impl View for Ipv6Packet {
    type V = Ipv6PacketView;

    open spec fn view(&self) -> Ipv6PacketView {
        Ipv6PacketView {
            dscp: self.dscp,
            ecn: self.ecn,
            flow_label: self.flow_label,
            payload_len: self.payload_len,
            next_header: self.next_header,
            hop_limit: self.hop_limit,
            source: self.source@,
            destination: self.destination@,
            extension_headers: self.extension_headers.deep_view(),
            payload: self.payload@,
        }
    }
}

impl DeepView for Ipv6Packet {
    type V = Ipv6PacketView;

    open spec fn deep_view(&self) -> Ipv6PacketView {
        self.view()
    }
}

impl Ipv6PacketView {
    /// Byte 0 on the wire: version 6 in the high nibble, the top 4 DSCP
    /// bits in the low nibble.
    pub open spec fn spec_byte0(self) -> u8 {
        (96 + self.dscp.spec_to_bits() / 4) as u8
    }

    /// Byte 1 on the wire: the low 2 DSCP bits, the ECN bits, and the
    /// top 4 flow-label bits.
    pub open spec fn spec_byte1(self) -> u8 {
        ((self.dscp.spec_to_bits() % 4) * 64 + self.ecn.spec_to_bits() * 16 + (self.flow_label
            / 0x10000) % 16) as u8
    }

    /// The 40 fixed header bytes on the wire.
    pub open spec fn spec_fixed_bytes(self) -> Seq<u8> {
        seq![
            self.spec_byte0(),
            self.spec_byte1(),
            ((self.flow_label / 0x100) % 256) as u8,
            (self.flow_label % 256) as u8,
            spec_u16_hi(self.payload_len),
            spec_u16_lo(self.payload_len),
            self.next_header,
            self.hop_limit,
        ] + self.source + self.destination
    }

    /// The header on the wire: the fixed bytes and the encoded
    /// extension-header chain.
    pub open spec fn spec_header_bytes(self) -> Seq<u8> {
        self.spec_fixed_bytes() + spec_chain_bytes(self.extension_headers)
    }

    /// The full packet on the wire: header then payload.
    pub open spec fn spec_bytes(self) -> Seq<u8> {
        self.spec_header_bytes() + self.payload
    }

    /// Structural validity: 16-byte addresses, a flow label within its
    /// 20 bits, a structurally valid chain, and chain linkage starting
    /// at the `next_header` field (so that decoding stops exactly at the
    /// payload).
    pub open spec fn wf(self) -> bool {
        self.source.len() == 16 && self.destination.len() == 16 && self.flow_label < 0x100000
            && spec_chain_wf(self.extension_headers) && spec_chain_linked(
            self.extension_headers,
            self.next_header,
        )
    }

    /// The decoding of a byte buffer as an IPv6 packet.
    pub open spec fn spec_from_bytes(b: Seq<u8>) -> Result<Ipv6PacketView, DecodeError> {
        if b.len() < 40 {
            Err(DecodeError::LengthError)
        } else if b[0] / 16 != 6 {
            Err(DecodeError::InvalidVersion)
        } else {
            let dscp_bits = ((b[0] % 16) * 4 + b[1] / 64) as u8;
            match DscpType::spec_from_bits(dscp_bits) {
                Err(e) => Err(e),
                Ok(dscp) => match EcnType::spec_from_bits(((b[1] / 16) % 4) as u8) {
                    Err(e) => Err(e),
                    Ok(ecn) => match spec_parse_ext_chain(b, 40, b[6]) {
                        Err(e) => Err(e),
                        Ok(hp) => Ok(
                            Ipv6PacketView {
                                dscp,
                                ecn,
                                flow_label: ((b[1] % 16) * 0x10000 + b[2] * 0x100 + b[3]) as u32,
                                payload_len: spec_u16_of(b[4], b[5]),
                                next_header: b[6],
                                hop_limit: b[7],
                                source: b.subrange(8, 24),
                                destination: b.subrange(24, 40),
                                extension_headers: hp.0,
                                payload: b.skip(hp.1),
                            },
                        ),
                    },
                },
            }
        }
    }

    /// The packet with `payload_len` recomputed as the payload size plus
    /// the encoded chain size, truncated to the 16-bit field.
    pub open spec fn spec_recalculate_length(self) -> Ipv6PacketView {
        Ipv6PacketView {
            payload_len: ((self.payload.len() + spec_chain_bytes(self.extension_headers).len())
                % 0x10000) as u16,
            ..self
        }
    }

    /// The packet with `next_header` recomputed as the first extension
    /// header's type code; a packet without extension headers keeps its
    /// `next_header`, which then names the upper-layer protocol.
    pub open spec fn spec_recalculate_next_header(self) -> Ipv6PacketView {
        if self.extension_headers.len() > 0 {
            Ipv6PacketView { next_header: self.extension_headers[0].type_code(), ..self }
        } else {
            self
        }
    }

    /// The upper-layer protocol number: the last extension header's
    /// embedded next header, or the packet's own `next_header` field
    /// when the chain is empty.
    pub open spec fn spec_upper_protocol(self) -> u8 {
        if self.extension_headers.len() == 0 {
            self.next_header
        } else {
            self.extension_headers[self.extension_headers.len() - 1].next_header()
        }
    }
}

impl Ipv6Packet {
    /// Constructs an empty packet with all fields zero.
    pub fn new() -> (r: Self)
        ensures
            r@.dscp == DscpType::CS0 && r@.ecn == EcnType::NotECT,
            r@.flow_label == 0 && r@.payload_len == 0 && r@.next_header == 0 && r@.hop_limit == 0,
            r@.source.len() == 16 && r@.destination.len() == 16,
            (forall|i: int| 0 <= i < 16 ==> r@.source[i] == 0 && r@.destination[i] == 0),
            r@.extension_headers =~= Seq::<Ipv6ExtensionHeaderView>::empty(),
            r@.payload =~= Seq::<u8>::empty(),
    {
        let r = Ipv6Packet {
            dscp: DscpType::CS0,
            ecn: EcnType::NotECT,
            flow_label: 0,
            payload_len: 0,
            next_header: 0,
            hop_limit: 0,
            source: Ipv6Address::new(),
            destination: Ipv6Address::new(),
            extension_headers: Vec::new(),
            payload: Vec::new(),
        };
        proof {
            assert(r.extension_headers.deep_view() =~= Seq::<Ipv6ExtensionHeaderView>::empty());
        }
        r
    }

    /// Decodes an IPv6 packet: fails with `LengthError` on fewer than 40
    /// bytes or a truncated extension header, with `InvalidVersion` when
    /// the version nibble is not 6, and with `InvalidFieldValue` on a
    /// DSCP bit pattern outside the closed legal set.
    pub fn from_bytes(bytes: &[u8]) -> (r: Result<Self, DecodeError>)
        ensures
            res_view(r) == Ipv6PacketView::spec_from_bytes(bytes@),
    {
        if bytes.len() < 40 {
            return Err(DecodeError::LengthError);
        }
        if bytes[0] / 16 != 6 {
            return Err(DecodeError::InvalidVersion);
        }
        let dscp_bits = (bytes[0] % 16) * 4 + bytes[1] / 64;
        let dscp = match DscpType::from_bits(dscp_bits) {
            Ok(d) => d,
            Err(e) => {
                return Err(e);
            },
        };
        let ecn = match EcnType::from_bits((bytes[1] / 16) % 4) {
            Ok(d) => d,
            Err(e) => {
                return Err(e);
            },
        };
        let chain = match parse_extension_chain(bytes, bytes[6]) {
            Ok(hp) => hp,
            Err(e) => {
                return Err(e);
            },
        };
        let (extension_headers, payload_start) = chain;
        let source = match Ipv6Address::from_slice(slice_subrange(bytes, 8, 24)) {
            Ok(a) => a,
            Err(_) => {
                return Err(DecodeError::LengthError);
            },
        };
        let destination = match Ipv6Address::from_slice(slice_subrange(bytes, 24, 40)) {
            Ok(a) => a,
            Err(_) => {
                return Err(DecodeError::LengthError);
            },
        };
        let p = Ipv6Packet {
            dscp,
            ecn,
            flow_label: ((bytes[1] % 16) as u32) * 0x10000 + (bytes[2] as u32) * 0x100 + (
            bytes[3] as u32),
            payload_len: u16_of(bytes[4], bytes[5]),
            next_header: bytes[6],
            hop_limit: bytes[7],
            source,
            destination,
            extension_headers,
            payload: slice_to_vec(slice_subrange(bytes, payload_start, bytes.len())),
        };
        proof {
            assert(p@.source =~= bytes@.subrange(8, 24));
            assert(p@.destination =~= bytes@.subrange(24, 40));
            assert(p@ =~= Ipv6PacketView::spec_from_bytes(bytes@)->Ok_0);
        }
        Ok(p)
    }

    /// Encodes only the header: the 40 fixed bytes and the
    /// extension-header chain.
    pub fn header_to_bytes(&self) -> (r: Vec<u8>)
        ensures
            r@ == self@.spec_header_bytes(),
    {
        let mut packet: Vec<u8> = Vec::new();
        packet.push(96 + self.dscp.to_bits() / 4);
        packet.push((self.dscp.to_bits() % 4) * 64 + self.ecn.to_bits() * 16 + ((self.flow_label
            / 0x10000) % 16) as u8);
        packet.push(((self.flow_label / 0x100) % 256) as u8);
        packet.push((self.flow_label % 256) as u8);
        packet.push(u16_hi(self.payload_len));
        packet.push(u16_lo(self.payload_len));
        packet.push(self.next_header);
        packet.push(self.hop_limit);
        let mut f = self.source.to_vec();
        packet.append(&mut f);
        let mut f = self.destination.to_vec();
        packet.append(&mut f);
        proof {
            assert(packet@ =~= self@.spec_fixed_bytes());
        }
        let ghost fixed = self@.spec_fixed_bytes();
        let ghost hv = self@.extension_headers;
        let mut k: usize = 0;
        while k < self.extension_headers.len()
            invariant
                k <= self.extension_headers.len(),
                self.extension_headers.deep_view() == hv,
                fixed == self@.spec_fixed_bytes(),
                packet@ == fixed + spec_chain_bytes(hv.take(k as int)),
            decreases self.extension_headers.len() - k,
        {
            let mut hb = self.extension_headers[k].to_bytes();
            packet.append(&mut hb);
            proof {
                lemma_chain_bytes_snoc(hv, k as int);
            }
            k = k + 1;
        }
        proof {
            assert(hv.take(hv.len() as int) =~= hv);
        }
        packet
    }

    /// Encodes the full packet: header then payload.
    pub fn to_bytes(&self) -> (r: Vec<u8>)
        ensures
            r@ == self@.spec_bytes(),
    {
        let mut packet = self.header_to_bytes();
        let mut tail = clone_bytes(&self.payload);
        packet.append(&mut tail);
        packet
    }

    /// Recomputes `payload_len` as the payload size plus the encoded
    /// chain size, truncated to the 16-bit field.
    #[verifier::loop_isolation(false)]
    pub fn recalculate_length(&mut self)
        ensures
            final(self)@ == old(self)@.spec_recalculate_length(),
    {
        let ghost hv = self@.extension_headers;
        let mut total: usize = self.payload.len() % 0x10000;
        proof {
            lemma_add_mod_noop(self.payload@.len() as int, 0, 0x10000);
            assert(spec_chain_bytes(hv.take(0)) =~= Seq::<u8>::empty());
        }
        let mut k: usize = 0;
        while k < self.extension_headers.len()
            invariant
                k <= self.extension_headers.len(),
                total < 0x10000,
                total as int == (self@.payload.len() + spec_chain_bytes(
                    hv.take(k as int),
                ).len()) % 0x10000,
            decreases self.extension_headers.len() - k,
        {
            let hb = self.extension_headers[k].to_bytes();
            proof {
                lemma_chain_bytes_snoc(hv, k as int);
                lemma_add_mod_noop(
                    self@.payload.len() + spec_chain_bytes(hv.take(k as int)).len() as int,
                    hb@.len() as int,
                    0x10000,
                );
            }
            total = (total + hb.len() % 0x10000) % 0x10000;
            k = k + 1;
        }
        proof {
            assert(hv.take(hv.len() as int) =~= hv);
        }
        self.payload_len = total as u16;
        proof {
            assert(self@ =~= old(self)@.spec_recalculate_length());
        }
    }

    /// Recomputes `next_header` as the first extension header's type
    /// code; without extension headers the field is left as the
    /// upper-layer protocol number it already names.
    pub fn recalculate_next_header(&mut self)
        ensures
            final(self)@ == old(self)@.spec_recalculate_next_header(),
    {
        if self.extension_headers.len() > 0 {
            let t = self.extension_headers[0].get_type();
            self.next_header = t;
            proof {
                assert(self@ =~= old(self)@.spec_recalculate_next_header());
            }
        }
    }

    /// Recomputes `payload_len`, then `next_header`.
    pub fn recalculate_all(&mut self)
        ensures
            final(self)@ == old(self)@.spec_recalculate_length().spec_recalculate_next_header(),
    {
        self.recalculate_length();
        self.recalculate_next_header();
    }

    /// Decodes the payload as the upper-layer packet named by the last
    /// extension header's embedded next header (or the packet's own
    /// `next_header` when no extension headers exist): 6 as TCP and 17
    /// as UDP; any other protocol number is handed back as the raw
    /// payload bytes, never a hard failure.
    pub fn get_next_level_packet(&self) -> (r: Result<Ipv6NextLevelPacket, DecodeError>)
        ensures
            ({
                let proto = self@.spec_upper_protocol();
                &&& (proto == 6 ==> (match TcpPacketView::spec_from_bytes(self@.payload) {
                    Ok(t) => r is Ok && r->Ok_0 is Tcp && r->Ok_0->Tcp_0@ == t,
                    Err(e) => r == Err::<Ipv6NextLevelPacket, DecodeError>(e),
                }))
                &&& (proto == 17 ==> (match UdpPacketView::spec_from_bytes(self@.payload) {
                    Ok(u) => r is Ok && r->Ok_0 is Udp && r->Ok_0->Udp_0@ == u,
                    Err(e) => r == Err::<Ipv6NextLevelPacket, DecodeError>(e),
                }))
                &&& (proto != 6 && proto != 17 ==> r is Ok && r->Ok_0 is Unimplemented
                    && r->Ok_0->Unimplemented_0@ == self@.payload)
            }),
    {
        let protocol: u8 = if self.extension_headers.len() == 0 {
            self.next_header
        } else {
            self.extension_headers[self.extension_headers.len() - 1].get_next_header_type()
        };
        proof {
            assert(protocol == self@.spec_upper_protocol());
        }
        if protocol == 6 {
            match TcpPacket::from_bytes(clone_bytes(&self.payload)) {
                Ok(t) => Ok(Ipv6NextLevelPacket::Tcp(t)),
                Err(e) => Err(e),
            }
        } else if protocol == 17 {
            match UdpPacket::from_bytes(self.payload.as_slice()) {
                Ok(u) => Ok(Ipv6NextLevelPacket::Udp(u)),
                Err(e) => Err(e),
            }
        } else {
            Ok(Ipv6NextLevelPacket::Unimplemented(clone_bytes(&self.payload)))
        }
    }
}

/// Round trip: decoding an encoded, structurally valid packet recovers
/// the packet.
#[verifier::rlimit(100)]
#[verifier::spinoff_prover]
pub proof fn lemma_ipv6_round_trip(v: Ipv6PacketView)
    requires
        v.wf(),
    ensures
        Ipv6PacketView::spec_from_bytes(v.spec_bytes()) == Ok::<Ipv6PacketView, DecodeError>(v),
{
    let fixed = v.spec_fixed_bytes();
    let chain = spec_chain_bytes(v.extension_headers);
    let hb = v.spec_header_bytes();
    let b = v.spec_bytes();
    assert(fixed.len() == 40);
    assert forall|j: int| 0 <= j < 40 implies b[j] == fixed[j] by {
        assert(b[j] == hb[j]);
        assert(hb[j] == fixed[j]);
    }
    let dscp = v.dscp.spec_to_bits() as int;
    let ecn = v.ecn.spec_to_bits() as int;
    let fl = v.flow_label as int;
    assert(0 <= dscp < 64 && 0 <= ecn < 4);
    assert(b[0] == v.spec_byte0() && b[1] == v.spec_byte1());
    assert((96 + dscp / 4) / 16 == 6 && (96 + dscp / 4) % 16 == dscp / 4) by (nonlinear_arith)
        requires
            0 <= dscp < 64,
    ;
    let flhi = (fl / 0x10000) % 16;
    assert(fl / 0x10000 < 16) by (nonlinear_arith)
        requires
            0 <= fl < 0x100000,
    ;
    assert(flhi == fl / 0x10000);
    let b1v = (dscp % 4) * 64 + ecn * 16 + flhi;
    assert(b1v / 64 == dscp % 4 && (b1v / 16) % 4 == ecn && b1v % 16 == flhi) by (nonlinear_arith)
        requires
            b1v == (dscp % 4) * 64 + ecn * 16 + flhi,
            0 <= dscp % 4 < 4,
            0 <= ecn < 4,
            0 <= flhi < 16,
    ;
    assert((dscp / 4) * 4 + dscp % 4 == dscp);
    crate::util::lemma_dscp_round_trip(v.dscp);
    crate::util::lemma_ecn_round_trip(v.ecn);
    assert((fl / 0x10000) * 0x10000 + ((fl / 0x100) % 256) * 0x100 + fl % 256 == fl) by (
    nonlinear_arith)
        requires
            0 <= fl < 0x100000,
    ;
    lemma_u16_bytes_round_trip(v.payload_len);
    assert(b.subrange(8, 24) =~= v.source);
    assert(b.subrange(24, 40) =~= v.destination);
    assert(b[6] == v.next_header);
    assert(b.subrange(0, 40 + chain.len() as int) =~= hb);
    lemma_concat_region(b, 0, fixed, chain);
    lemma_ipv6_chain_round_trip(b, 40, v.extension_headers, v.next_header);
    assert(b.skip(40 + chain.len() as int) =~= v.payload);
    assert(Ipv6PacketView::spec_from_bytes(b)->Ok_0 =~= v);
}

/// Round trip in the byte direction: a wire capture that is the canonical
/// encoding of a structurally valid packet decodes and re-encodes to
/// exactly the same bytes.
pub proof fn lemma_ipv6_bytes_round_trip(v: Ipv6PacketView)
    requires
        v.wf(),
    ensures
        Ipv6PacketView::spec_from_bytes(v.spec_bytes()) is Ok,
        Ipv6PacketView::spec_from_bytes(v.spec_bytes())->Ok_0.spec_bytes() == v.spec_bytes(),
{
    lemma_ipv6_round_trip(v);
}

/// Recomputing `payload_len` twice equals recomputing it once.
pub proof fn lemma_ipv6_recalculate_length_idempotent(v: Ipv6PacketView)
    ensures
        v.spec_recalculate_length().spec_recalculate_length() == v.spec_recalculate_length(),
{
}

/// Recomputing `next_header` twice equals recomputing it once.
pub proof fn lemma_ipv6_recalculate_next_header_idempotent(v: Ipv6PacketView)
    ensures
        v.spec_recalculate_next_header().spec_recalculate_next_header()
            == v.spec_recalculate_next_header(),
{
}

/// Recomputing length then next header twice equals recomputing them
/// once.
pub proof fn lemma_ipv6_recalculate_all_idempotent(v: Ipv6PacketView)
    ensures
        v.spec_recalculate_length().spec_recalculate_next_header().spec_recalculate_length()
            .spec_recalculate_next_header() == v.spec_recalculate_length()
            .spec_recalculate_next_header(),
{
    let v1 = v.spec_recalculate_length().spec_recalculate_next_header();
    assert(v1.spec_recalculate_length() =~= v1);
}

} // verus!
