use vstd::prelude::*;

verus! {

/// The sign bit of a 32-bit float pattern; `b % SIGN_BIT` is the magnitude.
pub const SIGN_BIT: u32 = 0x8000_0000;

/// The magnitude pattern of infinity: every larger magnitude is a NaN.
pub const INFINITY_BITS: u32 = 0x7f80_0000;

/// A point in space, each coordinate held as the bit pattern of a 32-bit float.
#[derive(Clone, Copy, Debug, PartialEq, Eq, Structural)]
pub struct Vertex {
    pub x: u32,
    pub y: u32,
    pub z: u32,
}

/// A float pattern is NaN when its exponent is all ones and its mantissa is not zero.
pub open spec fn is_nan_bits(b: u32) -> bool {
    b % SIGN_BIT > INFINITY_BITS
}

/// Both zeros compare equal as floats, so they share one canonical pattern.
pub open spec fn canonical_bits(b: u32) -> u32 {
    if b % SIGN_BIT == 0 {
        0
    } else {
        b
    }
}

/// The value of a float pattern on a number line that orders floats as they compare:
/// negative patterns go below zero by their magnitude.
pub open spec fn order_key(b: u32) -> int {
    if b >= SIGN_BIT {
        -((b - SIGN_BIT) as int)
    } else {
        b as int
    }
}

/// A vertex is invalid when one of its coordinates is NaN.
pub open spec fn is_invalid(v: Vertex) -> bool {
    is_nan_bits(v.x) || is_nan_bits(v.y) || is_nan_bits(v.z)
}

/// The canonical form of a vertex: two vertices are one position when their keys agree.
pub open spec fn key(v: Vertex) -> (u32, u32, u32) {
    (canonical_bits(v.x), canonical_bits(v.y), canonical_bits(v.z))
}

/// The hash-map key of a canonical position: its three patterns side by side.
pub open spec fn packed(k: (u32, u32, u32)) -> u128 {
    (k.0 as u128) | ((k.1 as u128) << 32u128) | ((k.2 as u128) << 64u128)
}

/// The smaller of two float patterns; of two equal values, the first.
pub open spec fn lower_bits(a: u32, b: u32) -> u32 {
    if order_key(b) < order_key(a) {
        b
    } else {
        a
    }
}

/// The larger of two float patterns; of two equal values, the first.
pub open spec fn upper_bits(a: u32, b: u32) -> u32 {
    if order_key(b) > order_key(a) {
        b
    } else {
        a
    }
}

/// Component-wise minimum; of two equal components the first is kept.
pub open spec fn lower(a: Vertex, b: Vertex) -> Vertex {
    Vertex { x: lower_bits(a.x, b.x), y: lower_bits(a.y, b.y), z: lower_bits(a.z, b.z) }
}

/// Component-wise maximum; of two equal components the first is kept.
pub open spec fn upper(a: Vertex, b: Vertex) -> Vertex {
    Vertex { x: upper_bits(a.x, b.x), y: upper_bits(a.y, b.y), z: upper_bits(a.z, b.z) }
}

/// The little-endian bytes of a 32-bit word.
pub open spec fn le_bytes(w: u32) -> Seq<u8> {
    seq![
        (w % 256) as u8,
        ((w / 256) % 256) as u8,
        ((w / 65536) % 256) as u8,
        (w / 16777216) as u8,
    ]
}

/// The twelve bytes of a vertex: x, y and z, each little-endian.
pub open spec fn vertex_bytes(v: Vertex) -> Seq<u8> {
    le_bytes(v.x) + le_bytes(v.y) + le_bytes(v.z)
}

/// Whether a float pattern is NaN.
pub fn is_nan(b: u32) -> (r: bool)
    ensures
        r == is_nan_bits(b),
{
    b % SIGN_BIT > INFINITY_BITS
}

/// The canonical pattern of a float pattern.
pub fn canonical(b: u32) -> (r: u32)
    ensures
        r == canonical_bits(b),
{
    if b % SIGN_BIT == 0 {
        0
    } else {
        b
    }
}

impl Vertex {
    /// Whether a coordinate is NaN.
    pub fn is_invalid(&self) -> (r: bool)
        ensures
            r == is_invalid(*self),
    {
        is_nan(self.x) || is_nan(self.y) || is_nan(self.z)
    }

    /// The hash-map key of this vertex's canonical position.
    pub fn packed_key(&self) -> (r: u128)
        ensures
            r == packed(key(*self)),
    {
        let x = canonical(self.x);
        let y = canonical(self.y);
        let z = canonical(self.z);
        (x as u128) | ((y as u128) << 32u128) | ((z as u128) << 64u128)
    }
}

/// Distinct canonical positions have distinct hash-map keys.
pub proof fn lemma_packed_injective(a: (u32, u32, u32), b: (u32, u32, u32))
    ensures
        packed(a) == packed(b) <==> a == b,
{
    let (a0, a1, a2) = a;
    let (b0, b1, b2) = b;
    assert(((a0 as u128) | ((a1 as u128) << 32u128) | ((a2 as u128) << 64u128)) == ((b0 as u128)
        | ((b1 as u128) << 32u128) | ((b2 as u128) << 64u128)) ==> a0 == b0 && a1 == b1 && a2
        == b2) by (bit_vector);
}

fn lower_of(a: u32, b: u32) -> (r: u32)
    ensures
        r == lower_bits(a, b),
{
    let ka: i64 = if a >= SIGN_BIT { -((a - SIGN_BIT) as i64) } else { a as i64 };
    let kb: i64 = if b >= SIGN_BIT { -((b - SIGN_BIT) as i64) } else { b as i64 };
    if kb < ka {
        b
    } else {
        a
    }
}

fn upper_of(a: u32, b: u32) -> (r: u32)
    ensures
        r == upper_bits(a, b),
{
    let ka: i64 = if a >= SIGN_BIT { -((a - SIGN_BIT) as i64) } else { a as i64 };
    let kb: i64 = if b >= SIGN_BIT { -((b - SIGN_BIT) as i64) } else { b as i64 };
    if kb > ka {
        b
    } else {
        a
    }
}

/// The component-wise minimum of two vertices.
pub fn lower_corner(a: Vertex, b: Vertex) -> (r: Vertex)
    ensures
        r == lower(a, b),
{
    Vertex { x: lower_of(a.x, b.x), y: lower_of(a.y, b.y), z: lower_of(a.z, b.z) }
}

/// The component-wise maximum of two vertices.
pub fn upper_corner(a: Vertex, b: Vertex) -> (r: Vertex)
    ensures
        r == upper(a, b),
{
    Vertex { x: upper_of(a.x, b.x), y: upper_of(a.y, b.y), z: upper_of(a.z, b.z) }
}

/// Appends the little-endian bytes of `w`.
pub fn push_le(out: &mut Vec<u8>, w: u32)
    ensures
        final(out)@ == old(out)@ + le_bytes(w),
{
    out.push((w % 256) as u8);
    out.push(((w / 256) % 256) as u8);
    out.push(((w / 65536) % 256) as u8);
    out.push((w / 16777216) as u8);
    assert(final(out)@ =~= old(out)@ + le_bytes(w));
}

} // verus!
