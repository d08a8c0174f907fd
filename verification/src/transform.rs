//! The transform codec: packs a `(Flipped, CornerOffsets)` pair into
//! fixed-width 32-bit words and inverts that packing.
//!
//! Wire layout of the first word: bit 31 is a format marker, bits 24..30
//! hold the six flip flags, bits 0..24 hold one presence flag per
//! (corner, axis) slot in ascending flag-index order (corner outer, axis
//! inner). The following words carry the present offsets, two 16-bit values
//! per word, first value in the high half, in the exact order their presence
//! bits are set.

use vstd::prelude::*;

use crate::primitives::CornerOffsets;
use crate::primitives::Flipped;
use crate::primitives::ParseError;

verus! {

/// Two 16-bit offsets packed into one 32-bit word, first in the high half.
pub open spec fn spec_pack2(a: i16, b: i16) -> i32 {
    ((((a as u16) as u32) << 16) | ((b as u16) as u32)) as i32
}

/// The high 16-bit half of a packed word.
pub open spec fn spec_unpack_hi(w: i32) -> i16 {
    (((w as u32) >> 16) as u16) as i16
}

/// The low 16-bit half of a packed word.
pub open spec fn spec_unpack_lo(w: i32) -> i16 {
    (((w as u32) & 0xFFFF) as u16) as i16
}

/// The nonzero offsets among the first `n` slots, in ascending slot order.
pub open spec fn spec_vals(offs: Seq<i16>, n: int) -> Seq<i16>
    decreases n,
{
    if n <= 0 {
        Seq::empty()
    } else {
        let p = spec_vals(offs, n - 1);
        if offs[n - 1] != 0 {
            p.push(offs[n - 1])
        } else {
            p
        }
    }
}

/// The presence bits of the first `n` slots: bit `i` is set exactly when
/// slot `i` holds a nonzero offset.
pub open spec fn spec_flags(offs: Seq<i16>, n: int) -> u32
    decreases n,
{
    if n <= 0 {
        0u32
    } else {
        if offs[n - 1] != 0 {
            spec_flags(offs, n - 1) | (1u32 << ((n - 1) as u32))
        } else {
            spec_flags(offs, n - 1)
        }
    }
}

/// The payload's first word: format marker, flip flags, presence bits.
pub open spec fn spec_header(flips: u8, offs: Seq<i16>) -> u32 {
    0x8000_0000u32 | ((flips as u32) << 24) | spec_flags(offs, 24)
}

/// The present offsets packed two per word; an odd final count leaves the
/// low half of the last word zero.
pub open spec fn spec_pack_words(d: Seq<i16>) -> Seq<i32> {
    Seq::new(
        ((d.len() + 1) / 2) as nat,
        |i: int|
            spec_pack2(
                d[2 * i],
                if 2 * i + 1 < d.len() {
                    d[2 * i + 1]
                } else {
                    0i16
                },
            ),
    )
}

/// The complete encoded payload: header word, then the packed offsets.
pub open spec fn spec_encode_payload(flips: u8, offs: Seq<i16>) -> Seq<i32> {
    seq![spec_header(flips, offs) as i32] + spec_pack_words(spec_vals(offs, 24))
}

/// Whether bit `i` of a header word is set.
pub open spec fn spec_bit(h: u32, i: int) -> bool {
    (h >> (i as u32)) & 1 == 1
}

/// The number of presence bits set among bits `0..n` of a header word.
pub open spec fn spec_rank(h: u32, n: int) -> int
    decreases n,
{
    if n <= 0 {
        0
    } else {
        spec_rank(h, n - 1) + if spec_bit(h, n - 1) {
            1int
        } else {
            0int
        }
    }
}

/// The flat sequence of 16-bit values carried by the payload words.
pub open spec fn spec_unpack_words(w: Seq<i32>) -> Seq<i16> {
    Seq::new(
        (2 * w.len()) as nat,
        |i: int|
            if i % 2 == 0 {
                spec_unpack_hi(w[i / 2])
            } else {
                spec_unpack_lo(w[i / 2])
            },
    )
}

/// The 24-slot offset table a header and value stream describe: each slot
/// with a set presence bit consumes the next value, every other slot is zero.
pub open spec fn spec_assemble(h: u32, vals: Seq<i16>) -> Seq<i16> {
    Seq::new(
        24,
        |i: int|
            if spec_bit(h, i) {
                vals[spec_rank(h, i)]
            } else {
                0i16
            },
    )
}

/// The six flip flags carried in bits 24..30 of a header word.
pub open spec fn spec_flips_of(h: u32) -> u8 {
    ((h >> 24) & 0x3F) as u8
}

/// What a payload word sequence decodes to: `None` exactly when the payload
/// is empty or a presence bit is set with no value left to consume.
pub open spec fn spec_decode_payload(data: Seq<i32>) -> Option<(u8, Seq<i16>)> {
    if data.len() == 0 {
        None
    } else {
        let h = data[0] as u32;
        let vals = spec_unpack_words(data.subrange(1, data.len() as int));
        if spec_rank(h, 24) > vals.len() {
            None
        } else {
            Some((spec_flips_of(h), spec_assemble(h, vals)))
        }
    }
}

proof fn lemma_pack_unpack()
    by (bit_vector)
    ensures
        forall|a: i16, b: i16| #[trigger] spec_unpack_hi(spec_pack2(a, b)) == a,
        forall|a: i16, b: i16| #[trigger] spec_unpack_lo(spec_pack2(a, b)) == b,
{
}

/// Presence words stay below bit `n` after `n` slots.
proof fn lemma_flags_bound(offs: Seq<i16>, n: int)
    requires
        0 <= n <= 24,
    ensures
        spec_flags(offs, n) < (1u32 << (n as u32)),
    decreases n,
{
    if n == 0 {
        assert(0u32 < (1u32 << 0u32)) by (bit_vector);
    } else {
        lemma_flags_bound(offs, n - 1);
        let w = spec_flags(offs, n - 1);
        let k = (n - 1) as u32;
        assert(k < 31 && w < (1u32 << k) ==> (w | (1u32 << k)) < (1u32 << ((k + 1) as u32)) && w < (
        1u32 << ((k + 1) as u32))) by (bit_vector);
    }
}

/// Each bit of the presence word reports exactly whether its slot is nonzero.
proof fn lemma_flags_bits(offs: Seq<i16>, n: int)
    requires
        0 <= n <= 24,
    ensures
        forall|j: int|
            0 <= j < 24 ==> #[trigger] spec_bit(spec_flags(offs, n), j) == (j < n && offs[j] != 0),
    decreases n,
{
    if n == 0 {
        assert forall|j: int| 0 <= j < 24 implies #[trigger] spec_bit(spec_flags(offs, 0), j)
            == false by {
            let ju = j as u32;
            assert(ju < 24 ==> (0u32 >> ju) & 1 != 1) by (bit_vector);
        }
    } else {
        lemma_flags_bits(offs, n - 1);
        lemma_flags_bound(offs, n - 1);
        let w = spec_flags(offs, n - 1);
        let k = (n - 1) as u32;
        if offs[n - 1] != 0 {
            assert forall|j: int| 0 <= j < 24 implies #[trigger] spec_bit(spec_flags(offs, n), j)
                == (j < n && offs[j] != 0) by {
                let ju = j as u32;
                assert(ju < 24 && k < 24 ==> (((w | (1u32 << k)) >> ju) & 1) == (if ju == k {
                    1u32
                } else {
                    (w >> ju) & 1
                })) by (bit_vector);
                assert(ju < 24 && k < 24 && w < (1u32 << k) && ju > k ==> ((w >> ju) & 1) != 1)
                    by (bit_vector);
                assert(spec_bit(w, j) == (((w >> ju) & 1) == 1));
                assert(spec_flags(offs, n) == (w | (1u32 << k)));
            }
        } else {
            assert forall|j: int| 0 <= j < 24 implies #[trigger] spec_bit(spec_flags(offs, n), j)
                == (j < n && offs[j] != 0) by {
                let ju = j as u32;
                assert(ju < 24 && k < 24 && w < (1u32 << k) && ju >= k ==> ((w >> ju) & 1) != 1)
                    by (bit_vector);
            }
        }
    }
}

/// Bits 0..24 of the assembled header equal the presence word's bits, and
/// the flip bits come back unchanged.
proof fn lemma_header_fields(flips: u8, fl: u32)
    requires
        flips < 64,
        fl < 0x100_0000u32,
    ensures
        spec_flips_of(0x8000_0000u32 | ((flips as u32) << 24) | fl) == flips,
        forall|j: int|
            0 <= j < 24 ==> #[trigger] spec_bit(0x8000_0000u32 | ((flips as u32) << 24) | fl, j)
                == spec_bit(fl, j),
{
    let h = 0x8000_0000u32 | ((flips as u32) << 24) | fl;
    assert(flips < 64 && fl < 0x100_0000u32 ==> ((h >> 24) & 0x3F) as u8 == flips) by (bit_vector)
        requires
            h == 0x8000_0000u32 | ((flips as u32) << 24) | fl,
    ;
    assert forall|j: int| 0 <= j < 24 implies #[trigger] spec_bit(h, j) == spec_bit(fl, j) by {
        let ju = j as u32;
        assert(flips < 64 && fl < 0x100_0000u32 && ju < 24 ==> ((h >> ju) & 1) == ((fl >> ju) & 1))
            by (bit_vector)
            requires
                h == 0x8000_0000u32 | ((flips as u32) << 24) | fl,
        ;
    }
}

/// Counting set presence bits counts exactly the nonzero slots.
proof fn lemma_rank_vals(h: u32, offs: Seq<i16>, n: int)
    requires
        0 <= n <= 24,
        forall|j: int| 0 <= j < 24 ==> #[trigger] spec_bit(h, j) == (offs[j] != 0),
    ensures
        spec_rank(h, n) == spec_vals(offs, n).len(),
    decreases n,
{
    if n > 0 {
        lemma_rank_vals(h, offs, n - 1);
    }
}

/// The rank never decreases as more bits are scanned.
proof fn lemma_rank_monotone(h: u32, m: int, n: int)
    requires
        m <= n,
    ensures
        spec_rank(h, m) <= spec_rank(h, n),
    decreases n - m,
{
    if m < n {
        lemma_rank_monotone(h, m, n - 1);
    }
}

/// A set bit below `n` forces at least one counted value.
proof fn lemma_bit_implies_rank(h: u32, j: int, n: int)
    requires
        0 <= j < n,
        spec_bit(h, j),
    ensures
        spec_rank(h, n) >= 1,
    decreases n,
{
    if j < n - 1 {
        lemma_bit_implies_rank(h, j, n - 1);
        lemma_rank_monotone(h, n - 1, n);
    } else {
        lemma_rank_monotone(h, 0, n - 1);
    }
}

/// The nonzero-slot sequence of a shorter prefix is a prefix of a longer one.
proof fn lemma_vals_prefix(offs: Seq<i16>, m: int, n: int)
    requires
        0 <= m <= n,
    ensures
        spec_vals(offs, m) == spec_vals(offs, n).subrange(0, spec_vals(offs, m).len() as int),
        spec_vals(offs, m).len() <= spec_vals(offs, n).len(),
    decreases n - m,
{
    if m == n {
        assert(spec_vals(offs, m) =~= spec_vals(offs, n).subrange(
            0,
            spec_vals(offs, m).len() as int,
        ));
    } else {
        lemma_vals_prefix(offs, m, n - 1);
        assert(spec_vals(offs, m) =~= spec_vals(offs, n).subrange(
            0,
            spec_vals(offs, m).len() as int,
        ));
    }
}

/// The nonzero-slot sequence is never longer than the number of slots.
proof fn lemma_vals_len(offs: Seq<i16>, n: int)
    requires
        0 <= n,
    ensures
        spec_vals(offs, n).len() <= n,
    decreases n,
{
    if n > 0 {
        lemma_vals_len(offs, n - 1);
    }
}

/// Unpacking the packed value stream returns it, padded with one trailing
/// zero when its length is odd.
proof fn lemma_unpack_pack(d: Seq<i16>)
    ensures
        d.len() % 2 == 0 ==> spec_unpack_words(spec_pack_words(d)) == d,
        d.len() % 2 == 1 ==> spec_unpack_words(spec_pack_words(d)) == d.push(0i16),
{
    lemma_pack_unpack();
    let u = spec_unpack_words(spec_pack_words(d));
    if d.len() % 2 == 0 {
        assert(u =~= d);
    } else {
        assert(u =~= d.push(0i16));
    }
}

/// Round-trip law for the payload codec: decoding an encoded
/// `(flips, offsets)` pair returns exactly that pair, under the single
/// canonical ascending flag-index order used by both directions.
pub proof fn lemma_payload_round_trip(flips: u8, offs: Seq<i16>)
    requires
        flips < 64,
        offs.len() == 24,
    ensures
        spec_decode_payload(spec_encode_payload(flips, offs)) == Some((flips, offs)),
{
    let fl = spec_flags(offs, 24);
    let h = spec_header(flips, offs);
    let d = spec_vals(offs, 24);
    let words = spec_pack_words(d);
    let enc = spec_encode_payload(flips, offs);
    lemma_flags_bound(offs, 24);
    assert((1u32 << 24u32) == 0x100_0000u32) by (bit_vector);
    lemma_header_fields(flips, fl);
    lemma_flags_bits(offs, 24);
    assert(forall|j: int| 0 <= j < 24 ==> #[trigger] spec_bit(h, j) == (offs[j] != 0));

    // the decoder sees the same header word
    assert(enc[0] == h as i32);
    assert((h as i32) as u32 == h) by (bit_vector);

    // the value stream comes back, possibly padded with one zero
    assert(enc.subrange(1, enc.len() as int) =~= words);
    let vals = spec_unpack_words(words);
    lemma_unpack_pack(d);
    lemma_vals_len(offs, 24);

    // every presence bit finds its value
    lemma_rank_vals(h, offs, 24);
    assert(spec_rank(h, 24) == d.len());
    assert(d.len() <= vals.len());

    let rebuilt = spec_assemble(h, vals);
    assert forall|i: int| 0 <= i < 24 implies rebuilt[i] == offs[i] by {
        if spec_bit(h, i) {
            lemma_rank_vals(h, offs, i);
            lemma_vals_prefix(offs, i + 1, 24);
            let k = spec_vals(offs, i).len() as int;
            assert(spec_vals(offs, i + 1)[k] == offs[i]);
            assert(spec_vals(offs, i + 1) == d.subrange(0, spec_vals(offs, i + 1).len() as int));
            assert(d[k] == offs[i]);
            assert(vals[k] == d[k]);
        }
    }
    assert(rebuilt =~= offs);
}

/// Sparse-payload law: an all-zero offset table encodes to exactly one
/// header word, with no presence bit set and no value word.
pub proof fn lemma_sparse_payload(flips: u8, offs: Seq<i16>)
    requires
        offs.len() == 24,
        forall|i: int| 0 <= i < 24 ==> offs[i] == 0,
    ensures
        spec_flags(offs, 24) == 0,
        spec_encode_payload(flips, offs) == seq![
            (0x8000_0000u32 | ((flips as u32) << 24)) as i32,
        ],
{
    assert forall|n: int| 0 <= n <= 24 implies spec_flags(offs, n) == 0 && spec_vals(offs, n)
        =~= Seq::<i16>::empty() by {
        lemma_flags_zero(offs, n);
    }
    assert(0x8000_0000u32 | ((flips as u32) << 24) | 0u32 == 0x8000_0000u32 | ((flips as u32)
        << 24)) by (bit_vector);
    assert(spec_encode_payload(flips, offs) =~= seq![
        (0x8000_0000u32 | ((flips as u32) << 24)) as i32,
    ]);
}

proof fn lemma_flags_zero(offs: Seq<i16>, n: int)
    requires
        0 <= n,
        forall|i: int| 0 <= i < n ==> offs[i] == 0,
    ensures
        spec_flags(offs, n) == 0,
        spec_vals(offs, n) =~= Seq::<i16>::empty(),
    decreases n,
{
    if n > 0 {
        lemma_flags_zero(offs, n - 1);
    }
}

/// Boundary law: a header with some presence bit set and zero trailing
/// payload words never decodes.
pub proof fn lemma_missing_values_rejected(data: Seq<i32>, j: int)
    requires
        data.len() == 1,
        0 <= j < 24,
        spec_bit(data[0] as u32, j),
    ensures
        spec_decode_payload(data) is None,
{
    let h = data[0] as u32;
    lemma_bit_implies_rank(h, j, 24);
    assert(spec_unpack_words(data.subrange(1, 1)).len() == 0);
}

/// Whatever decodes, decodes to six flip bits and a full 24-slot table.
pub proof fn lemma_decode_payload_wf(data: Seq<i32>)
    ensures
        spec_decode_payload(data) matches Some(p) ==> p.0 < 64 && p.1.len() == 24,
{
    if data.len() > 0 {
        let h = data[0] as u32;
        assert((((h >> 24) & 0x3F) as u8) < 64) by (bit_vector);
    }
}

/// Encodes a `(flips, offsets)` pair into the payload's 32-bit words:
/// a header word followed by the nonzero offsets packed two per word in
/// ascending flag-index order. Never fails; the fallible interface mirrors
/// the rest of the codec.
pub fn encode_transformable_data(flips: Flipped, corner_offsets: &CornerOffsets) -> (r: Result<
    Vec<i32>,
    ParseError,
>)
    requires
        flips.wf(),
        corner_offsets.wf(),
    ensures
        r matches Ok(v) && v@ == spec_encode_payload(flips.bits, corner_offsets.vals@),
{
    let ghost offs = corner_offsets.vals@;
    let mut flags_bits: u32 = 0;
    let mut data: Vec<i16> = Vec::new();
    let mut i: usize = 0;
    while i < 24
        invariant
            corner_offsets.wf(),
            corner_offsets.vals@ == offs,
            i <= 24,
            flags_bits == spec_flags(offs, i as int),
            data@ == spec_vals(offs, i as int),
            data@.len() <= i,
        decreases 24 - i,
    {
        let offset = corner_offsets.vals[i];
        if offset != 0 {
            flags_bits = flags_bits | (1u32 << (i as u32));
            data.push(offset);
        }
        i = i + 1;
    }

    let header: u32 = 0x8000_0000u32 | ((flips.bits() as u32) << 24) | flags_bits;
    let ghost d = data@;
    let mut result: Vec<i32> = Vec::new();
    result.push(#[verifier::truncate] (header as i32));

    let total_words: usize = (data.len() + 1) / 2;
    let mut w: usize = 0;
    while w < total_words
        invariant
            data@ == d,
            d.len() <= 24,
            total_words == (d.len() + 1) / 2,
            w <= total_words,
            header == spec_header(flips.bits, offs),
            result@ == seq![(spec_header(flips.bits, offs)) as i32] + spec_pack_words(d).subrange(
                0,
                w as int,
            ),
        decreases total_words - w,
    {
        let hi: u32 = ((#[verifier::truncate] (data[2 * w] as u16)) as u32) << 16;
        let lo: u32 = if 2 * w + 1 < data.len() {
            (#[verifier::truncate] (data[2 * w + 1] as u16)) as u32
        } else {
            0
        };
        result.push(#[verifier::truncate] ((hi | lo) as i32));
        proof {
            assert(result@ =~= seq![(spec_header(flips.bits, offs)) as i32] + spec_pack_words(
                d,
            ).subrange(0, w + 1 as int));
        }
        w = w + 1;
    }
    proof {
        assert(spec_pack_words(d).subrange(0, spec_pack_words(d).len() as int) =~= spec_pack_words(
            d,
        ));
        assert(result@ =~= spec_encode_payload(flips.bits, offs));
    }
    Ok(result)
}

/// Decodes a payload word sequence into its `(flips, offsets)` pair.
/// Fails with `InvalidFormat` exactly when the payload is empty or some
/// presence bit has no value word left to consume.
pub fn decode_transformable_data(data: &[i32]) -> (r: Result<(Flipped, CornerOffsets), ParseError>)
    ensures
        match r {
            Ok(p) => {
                &&& p.0.wf()
                &&& p.1.wf()
                &&& spec_decode_payload(data@) == Some((p.0.bits, p.1.vals@))
            },
            Err(e) => {
                &&& e == ParseError::InvalidFormat
                &&& spec_decode_payload(data@) is None
            },
        },
{
    if data.len() == 0 {
        return Err(ParseError::InvalidFormat);
    }
    let n = data.len();
    let flags_bits: u32 = #[verifier::truncate] (data[0] as u32);
    let raw: u8 = #[verifier::truncate] ((flags_bits >> 24) as u8);
    let flips = Flipped::from_bits_truncate(raw);
    proof {
        assert((((flags_bits >> 24) as u8) & 0x3F) == ((flags_bits >> 24) & 0x3F) as u8)
            by (bit_vector);
    }

    let mut vals: Vec<i16> = Vec::new();
    let mut k: usize = 1;
    while k < n
        invariant
            n == data@.len(),
            1 <= k <= n,
            vals@ == spec_unpack_words(data@.subrange(1, k as int)),
        decreases n - k,
    {
        let u: u32 = #[verifier::truncate] (data[k] as u32);
        vals.push(#[verifier::truncate] (((u >> 16) as u16) as i16));
        vals.push(#[verifier::truncate] (((u & 0xFFFF) as u16) as i16));
        proof {
            assert(vals@ =~= spec_unpack_words(data@.subrange(1, k + 1 as int)));
        }
        k = k + 1;
    }
    proof {
        assert(data@.subrange(1, n as int) =~= data@.subrange(1, k as int));
    }

    let ghost full_vals = vals@;
    let mut offsets = CornerOffsets::new();
    let mut vi: usize = 0;
    let mut i: usize = 0;
    while i < 24
        invariant
            offsets.wf(),
            i <= 24,
            vals@ == full_vals,
            flags_bits == data@[0] as u32,
            data@.len() >= 1,
            full_vals == spec_unpack_words(data@.subrange(1, data@.len() as int)),
            vi == spec_rank(flags_bits, i as int),
            vi <= full_vals.len(),
            forall|j: int|
                0 <= j < i ==> offsets.vals@[j] == (if spec_bit(flags_bits, j) {
                    full_vals[spec_rank(flags_bits, j)]
                } else {
                    0i16
                }),
            forall|j: int| i <= j < 24 ==> offsets.vals@[j] == 0,
        decreases 24 - i,
    {
        if (flags_bits >> (i as u32)) & 1 == 1 {
            if vi >= vals.len() {
                proof {
                    lemma_rank_monotone(flags_bits, i + 1, 24);
                }
                return Err(ParseError::InvalidFormat);
            }
            offsets.set_index(i, vals[vi]);
            vi = vi + 1;
        }
        i = i + 1;
    }
    proof {
        assert(offsets.vals@ =~= spec_assemble(flags_bits, full_vals));
    }
    Ok((flips, offsets))
}

} // verus!
