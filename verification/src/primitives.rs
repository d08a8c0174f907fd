//! Primitive vocabulary types shared by every codec layer: positions, colors,
//! axes, box corners, flip flags, and the 24-slot corner-offset table.

use vstd::prelude::*;

verus! {

/// The single error kind of the codec: any structural violation found while
/// decoding, or an out-of-range component found while encoding.
#[derive(Debug, Clone, Copy, PartialEq, Eq, Structural)]
pub enum ParseError {
    InvalidFormat,
}

impl ParseError {
    /// A human-readable description of the error.
    pub fn message(&self) -> (r: &'static str)
        ensures
            r@ == "Invalid SNBT format"@,
    {
        "Invalid SNBT format"
    }
}

/// A position in "little units": fractional block coordinates at a group's
/// grid resolution.
#[derive(Debug, Clone, Copy, PartialEq, Eq, Hash, Structural)]
pub struct LittlePos {
    pub x: i32,
    pub y: i32,
    pub z: i32,
}

/// An RGBA color with four 8-bit channels, convertible losslessly to and from
/// a packed signed 32-bit integer (r in the highest byte, a in the lowest).
#[derive(Debug, Clone, Copy, PartialEq, Eq, Hash, Structural)]
pub struct LittleColor {
    pub r: u8,
    pub g: u8,
    pub b: u8,
    pub a: u8,
}

/// The color a packed signed 32-bit integer denotes.
pub open spec fn spec_int_to_color(v: i32) -> LittleColor {
    let c = v as u32;
    LittleColor {
        r: ((c >> 24) & 0xFF) as u8,
        g: ((c >> 16) & 0xFF) as u8,
        b: ((c >> 8) & 0xFF) as u8,
        a: (c & 0xFF) as u8,
    }
}

/// The packed signed 32-bit integer a color denotes.
pub open spec fn spec_color_to_int(c: LittleColor) -> i32 {
    ((((c.r as u32) << 24) | ((c.g as u32) << 16) | ((c.b as u32) << 8) | (c.a as u32))) as i32
}

/// The two conversions between colors and packed 32-bit integers are mutually
/// inverse bijections: unpacking then packing returns the original integer,
/// and packing then unpacking returns the original channels.
pub proof fn lemma_color_bijection()
    ensures
        forall|v: i32| #[trigger] spec_color_to_int(spec_int_to_color(v)) == v,
        forall|c: LittleColor| #[trigger] spec_int_to_color(spec_color_to_int(c)) == c,
{
    assert forall|v: i32| #[trigger] spec_color_to_int(spec_int_to_color(v)) == v by {
        let c = v as u32;
        assert(((((((c >> 24) & 0xFF) as u8 as u32) << 24) | ((((c >> 16) & 0xFF) as u8 as u32)
            << 16) | ((((c >> 8) & 0xFF) as u8 as u32) << 8) | ((c & 0xFF) as u8 as u32)) as i32)
            == v) by (bit_vector)
            requires
                c == v as u32,
        ;
    }
    assert forall|c: LittleColor| #[trigger] spec_int_to_color(spec_color_to_int(c)) == c by {
        let r = c.r;
        let g = c.g;
        let b = c.b;
        let a = c.a;
        let u: u32 = ((r as u32) << 24) | ((g as u32) << 16) | ((b as u32) << 8) | (a as u32);
        assert((((u as i32) as u32 >> 24) & 0xFF) as u8 == r && (((u as i32) as u32 >> 16) & 0xFF)
            as u8 == g && (((u as i32) as u32 >> 8) & 0xFF) as u8 == b && ((u as i32) as u32
            & 0xFF) as u8 == a) by (bit_vector)
            requires
                u == ((r as u32) << 24) | ((g as u32) << 16) | ((b as u32) << 8) | (a as u32),
        ;
    }
}

impl LittleColor {
    /// Unpacks a signed 32-bit integer into four channels. The conversion is
    /// total; the fallible interface only mirrors the rest of the codec.
    pub fn try_from(value: i32) -> (r: Result<LittleColor, ParseError>)
        ensures
            r == Ok::<LittleColor, ParseError>(spec_int_to_color(value)),
    {
        let c: u32 = #[verifier::truncate] (value as u32);
        proof {
            assert(((c >> 24) & 0xFF) < 256 && ((c >> 16) & 0xFF) < 256 && ((c >> 8) & 0xFF) < 256
                && (c & 0xFF) < 256) by (bit_vector);
        }
        Ok(LittleColor {
            r: ((c >> 24) & 0xFF) as u8,
            g: ((c >> 16) & 0xFF) as u8,
            b: ((c >> 8) & 0xFF) as u8,
            a: (c & 0xFF) as u8,
        })
    }

    /// Packs the four channels into a signed 32-bit integer. Total; the
    /// fallible interface only mirrors the rest of the codec.
    pub fn try_into(self) -> (r: Result<i32, ParseError>)
        ensures
            r == Ok::<i32, ParseError>(spec_color_to_int(self)),
    {
        let u: u32 = ((self.r as u32) << 24) | ((self.g as u32) << 16) | ((self.b as u32) << 8) | (
        self.a as u32);
        Ok(#[verifier::truncate] (u as i32))
    }

    /// The all-zero color, the initial "current color" of a tile-list scan.
    pub fn default_color() -> (r: LittleColor)
        ensures
            r == (LittleColor { r: 0, g: 0, b: 0, a: 0 }),
    {
        LittleColor { r: 0, g: 0, b: 0, a: 0 }
    }
}

/// One of the six face directions of a box.
#[derive(Debug, Clone, Copy, PartialEq, Eq, Hash, Structural)]
pub enum Facing {
    Down,
    Up,
    North,
    South,
    West,
    East,
}

/// The bit each face direction occupies inside the 6-bit flip-flag set.
pub open spec fn spec_facing_bit(f: Facing) -> u8 {
    match f {
        Facing::East => 0x01,
        Facing::West => 0x02,
        Facing::South => 0x04,
        Facing::North => 0x08,
        Facing::Up => 0x10,
        Facing::Down => 0x20,
    }
}

impl Facing {
    /// The single-bit mask of this face direction within a flip-flag set.
    pub fn flag_bit(self) -> (r: u8)
        ensures
            r == spec_facing_bit(self),
    {
        match self {
            Facing::East => 0x01,
            Facing::West => 0x02,
            Facing::South => 0x04,
            Facing::North => 0x08,
            Facing::Up => 0x10,
            Facing::Down => 0x20,
        }
    }
}

/// One of the 8 corners of a box, named by East/West, Up/Down, North/South.
/// The declaration order is the canonical wire order of the corners.
#[derive(Debug, Clone, Copy, PartialEq, Eq, Hash, Structural)]
pub enum BoxCorner {
    EUN,
    EUS,
    EDN,
    EDS,
    WUN,
    WUS,
    WDN,
    WDS,
}

/// The rank of a corner in the canonical 8-corner wire order.
pub open spec fn spec_corner_ordinal(c: BoxCorner) -> int {
    match c {
        BoxCorner::EUN => 0,
        BoxCorner::EUS => 1,
        BoxCorner::EDN => 2,
        BoxCorner::EDS => 3,
        BoxCorner::WUN => 4,
        BoxCorner::WUS => 5,
        BoxCorner::WDN => 6,
        BoxCorner::WDS => 7,
    }
}

impl BoxCorner {
    /// The rank of this corner in the canonical wire order.
    pub fn ordinal(self) -> (r: usize)
        ensures
            r == spec_corner_ordinal(self),
    {
        match self {
            BoxCorner::EUN => 0,
            BoxCorner::EUS => 1,
            BoxCorner::EDN => 2,
            BoxCorner::EDS => 3,
            BoxCorner::WUN => 4,
            BoxCorner::WUS => 5,
            BoxCorner::WDN => 6,
            BoxCorner::WDS => 7,
        }
    }
}

/// One of the three coordinate axes, in the fixed order X, Y, Z.
#[derive(Debug, Clone, Copy, PartialEq, Eq, Hash, Structural)]
pub enum Axis {
    X,
    Y,
    Z,
}

/// The rank of an axis in the fixed X, Y, Z order.
pub open spec fn spec_axis_ordinal(a: Axis) -> int {
    match a {
        Axis::X => 0,
        Axis::Y => 1,
        Axis::Z => 2,
    }
}

impl Axis {
    /// The rank of this axis in the fixed X, Y, Z order.
    pub fn ordinal(self) -> (r: usize)
        ensures
            r == spec_axis_ordinal(self),
    {
        match self {
            Axis::X => 0,
            Axis::Y => 1,
            Axis::Z => 2,
        }
    }
}

/// The presence-flag slot of a (corner, axis) pair: corners are the outer
/// loop and axes the inner loop, so the slot is `3 * corner + axis`.
pub open spec fn spec_flag_index(c: BoxCorner, a: Axis) -> int {
    3 * spec_corner_ordinal(c) + spec_axis_ordinal(a)
}

/// A 6-bit set of flip flags, one bit per face direction, independent of the
/// corner-offset payload.
#[derive(Debug, Clone, Copy, PartialEq, Eq, Hash, Structural)]
pub struct Flipped {
    pub bits: u8,
}

impl Flipped {
    /// Only the six low bits may be set.
    pub open spec fn wf(self) -> bool {
        self.bits < 64
    }

    /// Keeps the six defined flag bits of `bits` and drops the rest.
    pub fn from_bits_truncate(bits: u8) -> (r: Flipped)
        ensures
            r.bits == bits & 0x3F,
            r.wf(),
    {
        proof {
            assert((bits & 0x3F) < 64) by (bit_vector);
        }
        Flipped { bits: bits & 0x3F }
    }

    /// The raw 6-bit value.
    pub fn bits(&self) -> (r: u8)
        ensures
            r == self.bits,
    {
        self.bits
    }

    /// The empty flag set.
    pub fn empty() -> (r: Flipped)
        ensures
            r.bits == 0,
            r.wf(),
    {
        Flipped { bits: 0 }
    }

    /// Whether the flag of the given face direction is set.
    pub fn contains(&self, f: Facing) -> (r: bool)
        ensures
            r == (self.bits & spec_facing_bit(f) != 0),
    {
        self.bits & f.flag_bit() != 0
    }
}

/// The total mapping from (corner, axis) to a 16-bit signed offset: 24 slots
/// indexed by `spec_flag_index`, typically sparse, where zero means "absent".
#[derive(Debug, Clone, PartialEq, Eq)]
pub struct CornerOffsets {
    pub vals: Vec<i16>,
}

impl CornerOffsets {
    /// The table always holds exactly one value per (corner, axis) slot.
    pub open spec fn wf(self) -> bool {
        self.vals@.len() == 24
    }

    /// The offset stored for a (corner, axis) slot.
    pub open spec fn spec_get(self, c: BoxCorner, a: Axis) -> i16 {
        self.vals@[spec_flag_index(c, a)]
    }

    /// A table with every slot zero.
    pub fn new() -> (r: CornerOffsets)
        ensures
            r.wf(),
            forall|i: int| 0 <= i < 24 ==> r.vals@[i] == 0,
    {
        let mut vals: Vec<i16> = Vec::new();
        let mut i: usize = 0;
        while i < 24
            invariant
                vals@.len() == i,
                i <= 24,
                forall|j: int| 0 <= j < i ==> vals@[j] == 0,
            decreases 24 - i,
        {
            vals.push(0);
            i = i + 1;
        }
        CornerOffsets { vals }
    }

    /// Reads the offset of a (corner, axis) slot.
    pub fn get(&self, corner: BoxCorner, axis: Axis) -> (r: i16)
        requires
            self.wf(),
        ensures
            r == self.spec_get(corner, axis),
    {
        let idx: usize = 3 * corner.ordinal() + axis.ordinal();
        self.vals[idx]
    }

    /// Reads the offset of a slot addressed by its flag index.
    pub fn get_index(&self, idx: usize) -> (r: i16)
        requires
            self.wf(),
            idx < 24,
        ensures
            r == self.vals@[idx as int],
    {
        self.vals[idx]
    }

    /// Stores an offset into a slot addressed by its flag index.
    pub fn set_index(&mut self, idx: usize, v: i16)
        requires
            old(self).wf(),
            idx < 24,
        ensures
            final(self).wf(),
            final(self).vals@ == old(self).vals@.update(idx as int, v),
    {
        self.vals.set(idx, v);
    }

    /// Stores an offset into a (corner, axis) slot.
    pub fn set(&mut self, corner: BoxCorner, axis: Axis, v: i16)
        requires
            old(self).wf(),
        ensures
            final(self).wf(),
            final(self).vals@ == old(self).vals@.update(spec_flag_index(corner, axis), v),
    {
        let idx: usize = 3 * corner.ordinal() + axis.ordinal();
        self.vals.set(idx, v);
    }

    /// A deep copy of the table.
    pub fn duplicate(&self) -> (r: CornerOffsets)
        ensures
            r.vals@ == self.vals@,
    {
        let mut vals: Vec<i16> = Vec::new();
        let mut i: usize = 0;
        while i < self.vals.len()
            invariant
                i <= self.vals@.len(),
                vals@ == self.vals@.subrange(0, i as int),
            decreases self.vals@.len() - i,
        {
            vals.push(self.vals[i]);
            proof {
                assert(vals@ =~= self.vals@.subrange(0, i + 1 as int));
            }
            i = i + 1;
        }
        proof {
            assert(vals@ =~= self.vals@);
        }
        CornerOffsets { vals }
    }
}

} // verus!
