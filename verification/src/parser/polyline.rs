//! Decoder for Google's signed-varint polyline encoding.
//!
//! Each coordinate axis is a delta from the previous point, zig-zag encoded
//! into an unsigned value and written as base-32 chunks, low bits first;
//! every chunk byte carries 5 data bits plus a continuation bit, offset by
//! 63 into printable ASCII.  The decoded accumulators are the coordinates
//! in degrees scaled by `1e5`.
//!
//! The decoder is total: a byte outside `[63, 127]` is `InvalidEncoding`,
//! and so is a completed value or a running coordinate sum that no `i64`
//! delta can carry (a machine limit; the format itself is unbounded);
//! input that ends inside a value is `UnexpectedEnd`, however many chunks
//! were already read.

use vstd::arithmetic::power2::{lemma2_to64, lemma2_to64_rest, lemma_pow2_adds, lemma_pow2_pos, lemma_pow2_strictly_increases, pow2};
use vstd::prelude::*;
use vstd::string::StringSliceAdditionalSpecFns;

use crate::types::Coordinate;

verus! {

#[derive(Debug, Clone, Copy, PartialEq, Eq, Structural)]
pub enum PolylineError {
    InvalidEncoding,
    UnexpectedEnd,
}

/// One varint read from `bytes` at `i`, continuing a value whose low bits
/// already hold `acc` below bit position `shift`: the raw value and the
/// index just past it.
pub open spec fn spec_varint(bytes: Seq<u8>, i: int, acc: int, shift: nat) -> Result<
    (int, int),
    PolylineError,
>
    decreases bytes.len() - i,
{
    if i < 0 || i >= bytes.len() {
        Err(PolylineError::UnexpectedEnd)
    } else if bytes[i] < 63 || bytes[i] > 127 {
        Err(PolylineError::InvalidEncoding)
    } else {
        let chunk = bytes[i] - 63;
        let acc2 = acc + (chunk as int % 32) * pow2(shift);
        if chunk >= 32 {
            spec_varint(bytes, i + 1, acc2, (shift + 5) as nat)
        } else {
            Ok((acc2, i + 1))
        }
    }
}

/// Zig-zag decoding: the signed delta packed into a raw unsigned value.
pub open spec fn spec_zigzag(raw: int) -> int {
    if raw % 2 == 1 {
        -(raw / 2) - 1
    } else {
        raw / 2
    }
}

/// One full value read at `start`: its signed delta and the next index.
/// A raw value at or above `pow2(64)` has no `i64` delta and is refused.
pub open spec fn spec_decode_value(bytes: Seq<u8>, start: int) -> Result<
    (int, int),
    PolylineError,
> {
    match spec_varint(bytes, start, 0, 0) {
        Ok((raw, next)) => if raw < pow2(64) {
            Ok((spec_zigzag(raw), next))
        } else {
            Err(PolylineError::InvalidEncoding)
        },
        Err(e) => Err(e),
    }
}

pub open spec fn in_i64(x: int) -> bool {
    i64::MIN <= x <= i64::MAX
}

/// The coordinates read from `i` on, with running accumulators `lat`, `lon`.
pub open spec fn spec_decode_from(bytes: Seq<u8>, i: int, lat: int, lon: int) -> Result<
    Seq<Coordinate>,
    PolylineError,
>
    decreases bytes.len() - i,
{
    if i < 0 || i >= bytes.len() {
        Ok(Seq::empty())
    } else {
        match spec_decode_value(bytes, i) {
            Err(e) => Err(e),
            Ok((dlat, j)) => match spec_decode_value(bytes, j) {
                Err(e) => Err(e),
                Ok((dlon, k)) => {
                    let nlat = lat + dlat;
                    let nlon = lon + dlon;
                    if !in_i64(nlat) || !in_i64(nlon) {
                        Err(PolylineError::InvalidEncoding)
                    } else if !(i < k <= bytes.len()) {
                        Err(PolylineError::InvalidEncoding)
                    } else {
                        match spec_decode_from(bytes, k, nlat, nlon) {
                            Ok(rest) => Ok(
                                seq![
                                    Coordinate {
                                        lat_e5: nlat as i64,
                                        lon_e5: nlon as i64,
                                        ele_e5: None,
                                    }
                                ] + rest,
                            ),
                            Err(e) => Err(e),
                        }
                    }
                },
            },
        }
    }
}

/// The whole decoded coordinate sequence of a polyline byte string.
pub open spec fn spec_poly_decode(bytes: Seq<u8>) -> Result<Seq<Coordinate>, PolylineError> {
    spec_decode_from(bytes, 0, 0, 0)
}

// ---------------------------------------------------------------------
// The reference encoder, and the round trip
// ---------------------------------------------------------------------

/// Zig-zag encoding: a signed delta packed into an unsigned value.
pub open spec fn spec_zigzag_enc(v: int) -> int {
    if v < 0 {
        -2 * v - 1
    } else {
        2 * v
    }
}

/// The chunk bytes of one raw value, low bits first.
pub open spec fn spec_varint_enc(raw: int) -> Seq<u8>
    recommends
        raw >= 0,
    decreases raw,
{
    if raw < 32 {
        seq![(raw + 63) as u8]
    } else {
        seq![(raw % 32 + 32 + 63) as u8] + spec_varint_enc(raw / 32)
    }
}

/// The reference encoding of a coordinate sequence: for each point, the
/// latitude delta then the longitude delta, each zig-zag packed.
pub open spec fn spec_encode_from(coords: Seq<Coordinate>, i: int, lat: int, lon: int) -> Seq<u8>
    decreases coords.len() - i,
{
    if i < 0 || i >= coords.len() {
        Seq::empty()
    } else {
        spec_varint_enc(spec_zigzag_enc(coords[i].lat_e5 - lat)) + spec_varint_enc(
            spec_zigzag_enc(coords[i].lon_e5 - lon),
        ) + spec_encode_from(coords, i + 1, coords[i].lat_e5 as int, coords[i].lon_e5 as int)
    }
}

pub open spec fn spec_poly_encode(coords: Seq<Coordinate>) -> Seq<u8> {
    spec_encode_from(coords, 0, 0, 0)
}

/// The largest coordinate magnitude (`pow2(62) - 1`) for which the round
/// trip below is stated: deltas between such coordinates zig-zag into raw
/// values below `pow2(64)`, the decoder's machine-word gate.
pub const ROUND_TRIP_LIMIT: i64 = 4_611_686_018_427_387_903;

proof fn lemma_zigzag_roundtrip(v: int)
    ensures
        spec_zigzag_enc(v) >= 0,
        spec_zigzag(spec_zigzag_enc(v)) == v,
{
    if v < 0 {
        assert((-2 * v - 1) % 2 == 1);
        assert((-2 * v - 1) / 2 == -v - 1);
    } else {
        assert((2 * v) % 2 == 0);
        assert((2 * v) / 2 == v);
    }
}

proof fn lemma_varint_enc_decode(bytes: Seq<u8>, i: int, raw: int, acc: int, shift: nat)
    requires
        0 <= i,
        0 <= acc,
        0 <= raw,
        i + spec_varint_enc(raw).len() <= bytes.len(),
        bytes.subrange(i, i + spec_varint_enc(raw).len() as int) == spec_varint_enc(raw),
    ensures
        spec_varint(bytes, i, acc, shift) == Ok::<(int, int), PolylineError>(
            (acc + raw * pow2(shift), i + spec_varint_enc(raw).len() as int),
        ),
    decreases raw,
{
    lemma2_to64();
    lemma2_to64_rest();
    lemma_pow2_pos(shift);
    let enc = spec_varint_enc(raw);
    assert(bytes[i] == enc[0]) by {
        assert(bytes.subrange(i, i + enc.len() as int)[0] == bytes[i]);
    }
    if raw < 32 {
        assert(bytes[i] == (raw + 63) as u8);
        assert(raw * pow2(shift) == (raw % 32) * pow2(shift));
    } else {
        assert(bytes[i] == (raw % 32 + 32 + 63) as u8);
        let chunk = bytes[i] - 63;
        assert(chunk as int == raw % 32 + 32);
        let acc2 = acc + (raw % 32) * pow2(shift);
        let enc2 = spec_varint_enc(raw / 32);
        assert(enc =~= seq![(raw % 32 + 32 + 63) as u8] + enc2);
        assert(bytes.subrange(i + 1, i + 1 + enc2.len() as int) =~= enc2) by {
            assert(forall|k: int|
                0 <= k < enc.len() ==> #[trigger] bytes.subrange(i, i + enc.len() as int)[k]
                    == bytes[i + k]);
            assert(forall|k: int| 0 <= k < enc2.len() ==> #[trigger] enc2[k] == enc[k + 1]);
        }
        assert(0 <= (raw % 32) * pow2(shift)) by (nonlinear_arith)
            requires
                0 <= raw % 32,
                0 < pow2(shift),
        ;
        lemma_varint_enc_decode(bytes, i + 1, raw / 32, acc2, (shift + 5) as nat);
        lemma_pow2_adds(shift, 5);
        assert(acc2 + (raw / 32) * pow2((shift + 5) as nat) == acc + raw * pow2(shift))
            by (nonlinear_arith)
            requires
                acc2 == acc + (raw % 32) * pow2(shift),
                pow2((shift + 5) as nat) == pow2(shift) * 32,
                raw >= 32,
        ;
    }
}

proof fn lemma_decode_encode_from(coords: Seq<Coordinate>, i: int, lat: int, lon: int, bytes: Seq<
    u8,
>, pos: int)
    requires
        0 <= i <= coords.len(),
        0 <= pos <= bytes.len(),
        bytes.subrange(pos, bytes.len() as int) == spec_encode_from(coords, i, lat, lon),
        -ROUND_TRIP_LIMIT <= lat <= ROUND_TRIP_LIMIT,
        -ROUND_TRIP_LIMIT <= lon <= ROUND_TRIP_LIMIT,
        forall|j: int|
            i <= j < coords.len() ==> -ROUND_TRIP_LIMIT <= (#[trigger] coords[j]).lat_e5
                <= ROUND_TRIP_LIMIT && -ROUND_TRIP_LIMIT <= coords[j].lon_e5 <= ROUND_TRIP_LIMIT
                && coords[j].ele_e5 is None,
    ensures
        spec_decode_from(bytes, pos, lat, lon) == Ok::<Seq<Coordinate>, PolylineError>(
            coords.subrange(i, coords.len() as int),
        ),
    decreases coords.len() - i,
{
    lemma2_to64();
    lemma2_to64_rest();
    if i >= coords.len() {
        assert(spec_encode_from(coords, i, lat, lon).len() == 0);
        assert(bytes.subrange(pos, bytes.len() as int).len() == bytes.len() - pos);
        assert(bytes.len() == pos);
        assert(coords.subrange(i, coords.len() as int) =~= Seq::<Coordinate>::empty());
    } else {
        let dlat = coords[i].lat_e5 - lat;
        let dlon = coords[i].lon_e5 - lon;
        let raw1 = spec_zigzag_enc(dlat);
        let raw2 = spec_zigzag_enc(dlon);
        lemma_zigzag_roundtrip(dlat);
        lemma_zigzag_roundtrip(dlon);
        let enc1 = spec_varint_enc(raw1);
        let enc2 = spec_varint_enc(raw2);
        let rest = spec_encode_from(coords, i + 1, coords[i].lat_e5 as int, coords[i].lon_e5 as int);
        let all = (enc1 + enc2) + rest;
        assert(bytes.subrange(pos, bytes.len() as int) == all);
        assert(enc1.len() >= 1 && enc2.len() >= 1);
        let pos1 = pos + enc1.len() as int;
        let pos2 = pos1 + enc2.len() as int;
        assert(pos2 <= bytes.len());
        assert(forall|k: int| 0 <= k < all.len() ==> bytes[pos + k] == #[trigger] all[k]) by {
            assert(forall|k: int|
                0 <= k < all.len() ==> #[trigger] bytes.subrange(pos, bytes.len() as int)[k]
                    == bytes[pos + k]);
        }
        assert(bytes.subrange(pos, pos1) =~= enc1) by {
            assert(forall|k: int| 0 <= k < enc1.len() ==> #[trigger] all[k] == enc1[k]);
        }
        assert forall|k: int| 0 <= k < enc2.len() implies bytes.subrange(pos1, pos2)[k] == enc2[k] by {
            assert(all[enc1.len() + k] == enc2[k]);
            assert(pos1 + k == pos + (enc1.len() + k));
            assert(bytes[pos + (enc1.len() + k)] == all[enc1.len() + k]);
            assert(bytes.subrange(pos1, pos2)[k] == bytes[pos1 + k]);
        }
        assert(bytes.subrange(pos1, pos2) =~= enc2);
        assert forall|k: int| 0 <= k < rest.len() implies bytes.subrange(
            pos2,
            bytes.len() as int,
        )[k] == rest[k] by {
            assert(all[enc1.len() + enc2.len() + k] == rest[k]);
            assert(pos2 + k == pos + (enc1.len() + enc2.len() + k));
            assert(bytes[pos + (enc1.len() + enc2.len() + k)] == all[enc1.len() + enc2.len() + k]);
            assert(bytes.subrange(pos2, bytes.len() as int)[k] == bytes[pos2 + k]);
        }
        assert(bytes.subrange(pos2, bytes.len() as int) =~= rest);
        lemma_varint_enc_decode(bytes, pos, raw1, 0, 0);
        lemma_varint_enc_decode(bytes, pos1, raw2, 0, 0);
        assert(raw1 * pow2(0) == raw1 && raw2 * pow2(0) == raw2);
        // The deltas stay within the word gate: magnitudes are bounded by
        // twice the round-trip limit.
        assert(raw1 < pow2(64));
        assert(raw2 < pow2(64));
        assert(spec_decode_value(bytes, pos) == Ok::<(int, int), PolylineError>((dlat, pos1)));
        assert(spec_decode_value(bytes, pos1) == Ok::<(int, int), PolylineError>((dlon, pos2)));
        lemma_decode_encode_from(
            coords,
            i + 1,
            coords[i].lat_e5 as int,
            coords[i].lon_e5 as int,
            bytes,
            pos2,
        );
        assert(seq![coords[i]] + coords.subrange(i + 1, coords.len() as int) =~= coords.subrange(
            i,
            coords.len() as int,
        ));
    }
}

/// Round trip: decoding the reference encoding of any coordinate sequence
/// within [`ROUND_TRIP_LIMIT`] per axis (and without elevations, which the
/// wire format cannot carry) returns exactly that sequence.
pub proof fn lemma_polyline_round_trip(coords: Seq<Coordinate>)
    requires
        forall|j: int|
            0 <= j < coords.len() ==> -ROUND_TRIP_LIMIT <= (#[trigger] coords[j]).lat_e5
                <= ROUND_TRIP_LIMIT && -ROUND_TRIP_LIMIT <= coords[j].lon_e5 <= ROUND_TRIP_LIMIT
                && coords[j].ele_e5 is None,
    ensures
        spec_poly_decode(spec_poly_encode(coords)) == Ok::<Seq<Coordinate>, PolylineError>(coords),
{
    let bytes = spec_poly_encode(coords);
    assert(bytes.subrange(0, bytes.len() as int) =~= bytes);
    lemma_decode_encode_from(coords, 0, 0, 0, bytes, 0);
    assert(coords.subrange(0, coords.len() as int) =~= coords);
}

proof fn lemma_varint_bad_byte(bytes: Seq<u8>, i: int, acc: int, shift: nat, j: int)
    requires
        0 <= i <= j < bytes.len(),
        !(63 <= bytes[j] <= 127),
    ensures
        match spec_varint(bytes, i, acc, shift) {
            Ok((raw, next)) => i < next <= j,
            Err(e) => e == PolylineError::InvalidEncoding,
        },
    decreases j - i,
{
    if i < j && 63 <= bytes[i] <= 127 {
        let chunk = bytes[i] - 63;
        if chunk >= 32 {
            lemma_varint_bad_byte(
                bytes,
                i + 1,
                acc + (chunk as int % 32) * pow2(shift),
                (shift + 5) as nat,
                j,
            );
        }
    }
}

proof fn lemma_decode_from_bad_byte(bytes: Seq<u8>, i: int, lat: int, lon: int, j: int)
    requires
        0 <= i <= j < bytes.len(),
        !(63 <= bytes[j] <= 127),
    ensures
        spec_decode_from(bytes, i, lat, lon) == Err::<Seq<Coordinate>, PolylineError>(
            PolylineError::InvalidEncoding,
        ),
    decreases j - i,
{
    lemma_varint_bad_byte(bytes, i, 0, 0, j);
    match spec_varint(bytes, i, 0, 0) {
        Err(_) => {},
        Ok((raw1, n1)) => {
            if raw1 < pow2(64) {
                lemma_varint_bad_byte(bytes, n1, 0, 0, j);
                match spec_varint(bytes, n1, 0, 0) {
                    Err(_) => {},
                    Ok((raw2, n2)) => {
                        if raw2 < pow2(64) {
                            let nlat = lat + spec_zigzag(raw1);
                            let nlon = lon + spec_zigzag(raw2);
                            if in_i64(nlat) && in_i64(nlon) {
                                lemma_decode_from_bad_byte(bytes, n2, nlat, nlon, j);
                            }
                        }
                    },
                }
            }
        },
    }
}

/// Byte validation: an input holding any byte outside `[63, 127]` decodes
/// to `InvalidEncoding`, never to a coordinate sequence.
pub proof fn lemma_invalid_byte_rejected(bytes: Seq<u8>, j: int)
    requires
        0 <= j < bytes.len(),
        !(63 <= bytes[j] <= 127),
    ensures
        spec_poly_decode(bytes) == Err::<Seq<Coordinate>, PolylineError>(
            PolylineError::InvalidEncoding,
        ),
{
    lemma_decode_from_bad_byte(bytes, 0, 0, 0, j);
}

fn varint_rec(
    bytes: &[u8],
    i: usize,
    acc: u64,
    sat: bool,
    m: u64,
    m_ok: bool,
    Ghost(shift): Ghost<nat>,
    Ghost(acc_math): Ghost<int>,
) -> (r: Result<(u64, bool, usize), PolylineError>)
    requires
        shift % 5 == 0,
        m_ok <==> shift <= 60,
        m_ok ==> m as int == pow2(shift),
        0 <= acc_math,
        !sat ==> acc_math == acc as int,
        sat ==> acc_math >= pow2(64),
    ensures
        match r {
            Ok((raw, rsat, next)) => match spec_varint(bytes@, i as int, acc_math, shift) {
                Ok((rm, nx)) => nx == next as int && i < next <= bytes@.len() && rm >= 0 && (rsat
                    <==> rm >= pow2(64)) && (!rsat ==> rm == raw as int),
                Err(_) => false,
            },
            Err(e) => spec_varint(bytes@, i as int, acc_math, shift) == Err::<
                (int, int),
                PolylineError,
            >(e),
        },
    decreases bytes@.len() - i,
{
    proof {
        lemma2_to64();
        lemma2_to64_rest();
        lemma_pow2_pos(shift);
    }
    let n = bytes.len();
    if i >= n {
        return Err(PolylineError::UnexpectedEnd);
    }
    let b = bytes[i];
    if b < 63 || b > 127 {
        return Err(PolylineError::InvalidEncoding);
    }
    let chunk = b - 63;
    let low5: u64 = (chunk % 32) as u64;
    let ghost acc2_math: int = acc_math + (low5 as int) * pow2(shift);
    proof {
        assert(0 <= (low5 as int) * pow2(shift)) by (nonlinear_arith)
            requires
                0 <= low5,
                0 < pow2(shift),
        ;
    }
    let mut acc2: u64 = acc;
    let mut sat2: bool = sat;
    if m_ok {
        // The chunk's weight still fits a word: add exactly, in double width.
        proof {
            assert((low5 as int) * (m as int) <= 31 * 0xffff_ffff_ffff_ffff) by (nonlinear_arith)
                requires
                    0 <= low5 <= 31,
                    0 <= m <= 0xffff_ffff_ffff_ffff,
            ;
        }
        let c: u128 = (low5 as u128) * (m as u128);
        let t: u128 = (acc as u128) + c;
        proof {
            assert(c == (low5 as int) * pow2(shift)) by (nonlinear_arith)
                requires
                    c == (low5 as u128) as int * (m as u128) as int,
                    m as int == pow2(shift),
                    low5 as int == (low5 as u128) as int,
            ;
        }
        if sat {
            sat2 = true;
        } else if t >= 0x1_0000_0000_0000_0000u128 {
            sat2 = true;
            proof {
                assert(acc2_math == t as int);
            }
        } else {
            acc2 = t as u64;
            proof {
                assert(acc2_math == t as int);
            }
        }
    } else {
        // Bit position 65 or higher: any non-zero chunk leaves the word.
        if low5 > 0 {
            sat2 = true;
            proof {
                lemma_pow2_strictly_increases(64, shift);
                assert((low5 as int) * pow2(shift) >= pow2(shift)) by (nonlinear_arith)
                    requires
                        1 <= low5,
                        0 < pow2(shift),
                ;
            }
        } else {
            proof {
                assert((low5 as int) * pow2(shift) == 0) by (nonlinear_arith)
                    requires
                        low5 == 0,
                ;
            }
        }
    }
    if chunk >= 32 {
        let m2_ok = m_ok && m <= 0x80_0000_0000_0000u64;
        let m2: u64 = if m2_ok {
            m * 32
        } else {
            1
        };
        proof {
            lemma_pow2_adds(shift, 5);
            if m_ok {
                if shift < 55 {
                    lemma_pow2_strictly_increases(shift, 55);
                }
                if 55 < shift {
                    lemma_pow2_strictly_increases(55, shift);
                }
            }
            assert(m2_ok <==> shift + 5 <= 60);
        }
        varint_rec(bytes, i + 1, acc2, sat2, m2, m2_ok, Ghost((shift + 5) as nat), Ghost(acc2_math))
    } else {
        Ok((acc2, sat2, i + 1))
    }
}

/// Reads one varint starting at `start` and undoes the zig-zag packing:
/// the signed delta and the index just past the value.
pub fn decode_value(bytes: &[u8], start: usize) -> (r: Result<(i64, usize), PolylineError>)
    ensures
        match r {
            Ok((value, next)) => spec_decode_value(bytes@, start as int) == Ok::<
                (int, int),
                PolylineError,
            >((value as int, next as int)) && start < next <= bytes@.len(),
            Err(e) => spec_decode_value(bytes@, start as int) == Err::<(int, int), PolylineError>(
                e,
            ),
        },
{
    proof {
        lemma2_to64();
        lemma2_to64_rest();
    }
    match varint_rec(bytes, start, 0, false, 1, true, Ghost(0nat), Ghost(0int)) {
        Ok((raw, sat, next)) => {
            if sat {
                // The raw value is at least `pow2(64)`: no delta carries it.
                Err(PolylineError::InvalidEncoding)
            } else {
                let value: i64 = if raw % 2 != 0 {
                    -((raw / 2) as i64) - 1
                } else {
                    (raw / 2) as i64
                };
                Ok((value, next))
            }
        },
        Err(e) => Err(e),
    }
}

/// Decodes a polyline string into its coordinate sequence, in degrees
/// scaled by `1e5`; the empty input yields the empty sequence.
pub fn decode(encoded: &str) -> (r: Result<Vec<Coordinate>, PolylineError>)
    ensures
        match r {
            Ok(coords) => spec_poly_decode(encoded.spec_bytes()) == Ok::<
                Seq<Coordinate>,
                PolylineError,
            >(coords@),
            Err(e) => spec_poly_decode(encoded.spec_bytes()) == Err::<
                Seq<Coordinate>,
                PolylineError,
            >(e),
        },
{
    let bytes = encoded.as_bytes();
    let n = bytes.len();
    let mut coordinates: Vec<Coordinate> = Vec::new();
    let mut index: usize = 0;
    let mut lat: i64 = 0;
    let mut lon: i64 = 0;
    while index < n
        invariant
            index <= n,
            n == bytes@.len(),
            bytes@ == encoded.spec_bytes(),
            match spec_decode_from(bytes@, index as int, lat as int, lon as int) {
                Ok(rest) => spec_poly_decode(bytes@) == Ok::<Seq<Coordinate>, PolylineError>(
                    coordinates@ + rest,
                ),
                Err(e) => spec_poly_decode(bytes@) == Err::<Seq<Coordinate>, PolylineError>(e),
            },
        decreases n - index,
    {
        let dlat = match decode_value(bytes, index) {
            Ok((d, j)) => {
                index = j;
                d
            },
            Err(e) => {
                return Err(e);
            },
        };
        let dlon = match decode_value(bytes, index) {
            Ok((d, j)) => {
                index = j;
                d
            },
            Err(e) => {
                return Err(e);
            },
        };
        if (dlat > 0 && lat > i64::MAX - dlat) || (dlat < 0 && lat < i64::MIN - dlat) {
            return Err(PolylineError::InvalidEncoding);
        }
        lat = lat + dlat;
        if (dlon > 0 && lon > i64::MAX - dlon) || (dlon < 0 && lon < i64::MIN - dlon) {
            return Err(PolylineError::InvalidEncoding);
        }
        lon = lon + dlon;
        let ghost c0 = coordinates@;
        coordinates.push(Coordinate::new(lat, lon));
        proof {
            assert(coordinates@ =~= c0.push(
                Coordinate { lat_e5: lat, lon_e5: lon, ele_e5: None },
            ));
            assert(forall|rest: Seq<Coordinate>|
                c0.push(Coordinate { lat_e5: lat, lon_e5: lon, ele_e5: None }) + rest =~= c0 + (
                seq![Coordinate { lat_e5: lat, lon_e5: lon, ele_e5: None }] + rest));
        }
    }
    proof {
        assert(coordinates@ + Seq::<Coordinate>::empty() =~= coordinates@);
    }
    Ok(coordinates)
}

} // verus!
