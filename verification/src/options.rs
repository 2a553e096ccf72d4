//! The type-length-value option walker shared by the IPv4 and TCP codecs.
//!
//! Both protocols lay out their variable-length header region the same
//! way: byte value 0 ends the list, byte value 1 is a one-byte no-op pad,
//! and any other byte starts an option whose second byte is its total
//! length (kind and length bytes included).  Headers are padded to a
//! 4-byte boundary with no-ops followed by a final end-of-list marker.

use vstd::prelude::*;
use crate::util::DecodeError;

verus! {

/// A raw type-length-value option: a kind byte, a total-length byte and
/// `length - 2` data bytes.
#[verifier::ext_equal]
pub struct TlvOptionView {
    pub kind: u8,
    pub length: u8,
    pub data: Seq<u8>,
}

impl TlvOptionView {
    /// Structural validity: the kind collides with neither list marker,
    /// and the length byte is exact.
    pub open spec fn wf(self) -> bool {
        self.kind >= 2 && self.data.len() + 2 <= 255 && self.length == 2 + self.data.len()
    }

    /// The option on the wire.
    pub open spec fn spec_bytes(self) -> Seq<u8> {
        seq![self.kind, self.length] + self.data
    }
}

/// Every option of the list is structurally valid.
pub open spec fn spec_tlv_list_wf(opts: Seq<TlvOptionView>) -> bool {
    forall|k: int| 0 <= k < opts.len() ==> #[trigger] opts[k].wf()
}

/// The concatenated wire encoding of an option list.
pub open spec fn spec_tlv_list_bytes(opts: Seq<TlvOptionView>) -> Seq<u8>
    decreases opts.len(),
{
    if opts.len() == 0 {
        Seq::empty()
    } else {
        opts[0].spec_bytes() + spec_tlv_list_bytes(opts.skip(1))
    }
}

pub proof fn lemma_tlv_list_bytes_append(a: Seq<TlvOptionView>, b: Seq<TlvOptionView>)
    ensures
        spec_tlv_list_bytes(a + b) == spec_tlv_list_bytes(a) + spec_tlv_list_bytes(b),
    decreases a.len(),
{
    if a.len() == 0 {
        assert(a + b =~= b);
        assert(spec_tlv_list_bytes(a) + spec_tlv_list_bytes(b) =~= spec_tlv_list_bytes(b));
    } else {
        assert((a + b).skip(1) =~= a.skip(1) + b);
        lemma_tlv_list_bytes_append(a.skip(1), b);
        assert((a + b)[0] == a[0]);
        assert(a[0].spec_bytes() + (spec_tlv_list_bytes(a.skip(1)) + spec_tlv_list_bytes(b)) =~= (
        a[0].spec_bytes() + spec_tlv_list_bytes(a.skip(1))) + spec_tlv_list_bytes(b));
    }
}

/// Extending an encoded prefix by one option appends that option's bytes.
pub proof fn lemma_tlv_list_bytes_snoc(opts: Seq<TlvOptionView>, k: int)
    requires
        0 <= k < opts.len(),
    ensures
        spec_tlv_list_bytes(opts.take(k + 1)) == spec_tlv_list_bytes(opts.take(k))
            + opts[k].spec_bytes(),
{
    assert(opts.take(k + 1) =~= opts.take(k) + seq![opts[k]]);
    lemma_tlv_list_bytes_append(opts.take(k), seq![opts[k]]);
    let s1 = seq![opts[k]];
    assert(s1.skip(1) =~= Seq::<TlvOptionView>::empty());
    assert(spec_tlv_list_bytes(s1.skip(1)) =~= Seq::<u8>::empty());
    assert(spec_tlv_list_bytes(s1) =~= opts[k].spec_bytes());
}

/// The parsing of the option region `[i, end)` of `b`: a 0 byte ends the
/// list, a 1 byte is skipped, anything else is an option whose second
/// byte gives its total length.  A truncated option is a `LengthError`
/// and a length byte below 2 an `InvalidFieldValue`.
pub open spec fn spec_parse_tlv(b: Seq<u8>, i: int, end: int) -> Result<
    Seq<TlvOptionView>,
    DecodeError,
>
    decreases end - i,
{
    if i >= end {
        Ok(Seq::empty())
    } else if b[i] == 0 {
        Ok(Seq::empty())
    } else if b[i] == 1 {
        spec_parse_tlv(b, i + 1, end)
    } else if i + 1 >= end {
        Err(DecodeError::LengthError)
    } else if b[i + 1] < 2 {
        Err(DecodeError::InvalidFieldValue)
    } else if i + b[i + 1] > end {
        Err(DecodeError::LengthError)
    } else {
        let o = TlvOptionView {
            kind: b[i],
            length: b[i + 1],
            data: b.subrange(i + 2, i + b[i + 1]),
        };
        match spec_parse_tlv(b, i + b[i + 1], end) {
            Ok(rest) => Ok(seq![o] + rest),
            Err(e) => Err(e),
        }
    }
}

/// Prepends already-parsed options to the result of parsing the rest of
/// the region; the composition invariant of the executable option loops.
pub open spec fn spec_parse_prepend(
    acc: Seq<TlvOptionView>,
    r: Result<Seq<TlvOptionView>, DecodeError>,
) -> Result<Seq<TlvOptionView>, DecodeError> {
    match r {
        Ok(s) => Ok(acc + s),
        Err(e) => Err(e),
    }
}

/// The padding appended after a header of `n` bytes to reach a 4-byte
/// boundary: no-ops followed by one end-of-list marker.
pub open spec fn spec_pad4(n: int) -> Seq<u8> {
    if n % 4 == 0 {
        Seq::empty()
    } else {
        Seq::new((4 - n % 4 - 1) as nat, (|j: int| 1u8)).push(0u8)
    }
}

/// The padding is shorter than 4 bytes, aligns the header length to a
/// 4-byte boundary, and consists of no-ops closed by an end-of-list byte.
pub proof fn lemma_pad4_properties(n: int)
    requires
        n >= 0,
    ensures
        spec_pad4(n).len() < 4,
        (n + spec_pad4(n).len()) % 4 == 0,
        forall|j: int| 0 <= j < spec_pad4(n).len() - 1 ==> spec_pad4(n)[j] == 1,
        spec_pad4(n).len() > 0 ==> spec_pad4(n)[spec_pad4(n).len() - 1] == 0,
{
    if n % 4 != 0 {
        vstd::arithmetic::div_mod::lemma_fundamental_div_mod(n, 4);
        assert(n + spec_pad4(n).len() == 4 * (n / 4 + 1)) by (nonlinear_arith)
            requires
                n == 4 * (n / 4) + n % 4,
                spec_pad4(n).len() == 4 - n % 4,
        ;
        vstd::arithmetic::div_mod::lemma_mod_multiples_basic(n / 4 + 1, 4);
    }
}

/// An option list whose recalculated length bytes are exact.
impl TlvOptionView {
    /// The option with its length byte recomputed from the data, truncated
    /// to the 8-bit field.
    pub open spec fn spec_recalculate_length(self) -> TlvOptionView {
        TlvOptionView { length: ((self.data.len() % 256 + 2) % 256) as u8, ..self }
    }
}

/// Recomputing an option's length byte twice equals recomputing it once.
pub proof fn lemma_tlv_recalculate_length_idempotent(o: TlvOptionView)
    ensures
        o.spec_recalculate_length().spec_recalculate_length() == o.spec_recalculate_length(),
{
}

/// A region of no-ops closed by an end-of-list marker (or an empty
/// region) parses to the empty option list.
pub proof fn lemma_parse_tlv_padding(b: Seq<u8>, i: int, end: int)
    requires
        0 <= i <= end <= b.len(),
        forall|j: int| i <= j < end - 1 ==> b[j] == 1,
        i < end ==> b[end - 1] == 0,
    ensures
        spec_parse_tlv(b, i, end) == Ok::<Seq<TlvOptionView>, DecodeError>(Seq::empty()),
    decreases end - i,
{
    if i >= end {
    } else if i == end - 1 {
        assert(b[i] == 0);
    } else {
        assert(b[i] == 1);
        lemma_parse_tlv_padding(b, i + 1, end);
    }
}

/// Round trip: a region that holds the encoding of a structurally valid
/// option list, followed by no-op padding closed with an end-of-list
/// marker (or no padding at all), parses back to exactly that list.
pub proof fn lemma_parse_tlv_round_trip(b: Seq<u8>, i: int, end: int, opts: Seq<TlvOptionView>)
    requires
        0 <= i,
        end <= b.len(),
        spec_tlv_list_wf(opts),
        i + spec_tlv_list_bytes(opts).len() <= end,
        b.subrange(i, i + spec_tlv_list_bytes(opts).len()) == spec_tlv_list_bytes(opts),
        forall|j: int| i + spec_tlv_list_bytes(opts).len() <= j < end - 1 ==> b[j] == 1,
        i + spec_tlv_list_bytes(opts).len() < end ==> b[end - 1] == 0,
    ensures
        spec_parse_tlv(b, i, end) == Ok::<Seq<TlvOptionView>, DecodeError>(opts),
    decreases opts.len(),
{
    let body = spec_tlv_list_bytes(opts);
    if opts.len() == 0 {
        lemma_parse_tlv_padding(b, i, end);
        assert(opts =~= Seq::<TlvOptionView>::empty());
    } else {
        let o = opts[0];
        assert(o.wf());
        let rest = opts.skip(1);
        let obytes = o.spec_bytes();
        let restbytes = spec_tlv_list_bytes(rest);
        assert(body == obytes + restbytes);
        let ol = o.length as int;
        assert(obytes.len() == ol);
        assert forall|j: int| 0 <= j < body.len() implies body[j] == b[i + j] by {
            assert(body[j] == b.subrange(i, i + body.len())[j]);
        }
        assert(b[i] == body[0] && body[0] == o.kind);
        assert(b[i + 1] == body[1] && body[1] == o.length);
        assert(b[i] >= 2);
        assert(i + ol <= end);
        assert forall|j: int| 0 <= j < ol - 2 implies b[i + 2 + j] == o.data[j] by {
            assert(o.data[j] == obytes[2 + j]);
            assert(obytes[2 + j] == body[2 + j]);
            assert(body[2 + j] == b[i + (2 + j)]);
        }
        assert(b.subrange(i + 2, i + ol) =~= o.data);
        let o2 = TlvOptionView { kind: b[i], length: b[i + 1], data: b.subrange(i + 2, i + ol) };
        assert(o2 =~= o);
        assert forall|j: int| 0 <= j < restbytes.len() implies b[i + ol + j] == restbytes[j] by {
            assert(restbytes[j] == body[ol + j]);
            assert(body[ol + j] == b[i + (ol + j)]);
        }
        assert(b.subrange(i + ol, i + ol + restbytes.len()) =~= restbytes);
        assert(spec_tlv_list_wf(rest)) by {
            assert(forall|k: int| 0 <= k < rest.len() ==> rest[k] == opts[k + 1]);
        }
        lemma_parse_tlv_round_trip(b, i + ol, end, rest);
        assert(seq![o] + rest =~= opts);
    }
}

} // verus!
