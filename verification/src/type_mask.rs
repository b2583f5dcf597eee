//! Bit masks that classify a 3x3 matrix for fast-path dispatch.
use vstd::prelude::*;

verus! {

/// Type mask bits for fast-path dispatch.
#[derive(Debug, Clone, Copy, PartialEq, Eq)]
pub struct TypeMask(u8);

impl View for TypeMask {
    type V = u8;

    closed spec fn view(&self) -> u8 {
        self.0
    }
}

impl Default for TypeMask {
    /// The identity mask: no bit set.
    fn default() -> (m: Self)
        ensures
            m@ == TypeMask::IDENTITY,
    {
        TypeMask(0)
    }
}

/// The mask that `TypeMask::compute` derives from the properties of a matrix.
pub open spec fn spec_compute_bits(
    perspective: bool,
    skewed: bool,
    scaled: bool,
    translated: bool,
    rotation_only: bool,
) -> u8 {
    if perspective {
        (TypeMask::PERSPECTIVE + TypeMask::AFFINE) as u8
    } else {
        let affine: int = if skewed { TypeMask::AFFINE as int } else { 0 };
        let scale: int = if scaled { TypeMask::SCALE as int } else { 0 };
        let translate: int = if translated { TypeMask::TRANSLATE as int } else { 0 };
        let rect: int = if skewed && !scaled && !translated && rotation_only {
            TypeMask::RECT_STAYS_RECT as int
        } else {
            0
        };
        (affine + scale + translate + rect) as u8
    }
}

impl TypeMask {
    pub const IDENTITY: u8 = 0;

    pub const TRANSLATE: u8 = 1;

    pub const SCALE: u8 = 2;

    pub const AFFINE: u8 = 4;

    pub const PERSPECTIVE: u8 = 8;

    pub const RECT_STAYS_RECT: u8 = 16;

    pub fn bits(self) -> (r: u8)
        ensures
            r == self@,
    {
        self.0
    }

    pub fn is_identity(self) -> (r: bool)
        ensures
            r == (self@ == Self::IDENTITY),
    {
        self.0 == Self::IDENTITY
    }

    pub fn is_translate(self) -> (r: bool)
        ensures
            r == (self@ == Self::TRANSLATE),
    {
        self.0 == Self::TRANSLATE
    }

    /// True when the perspective bit is clear.
    pub fn is_affine(self) -> (r: bool)
        ensures
            r == (self@ & Self::PERSPECTIVE == 0),
    {
        self.0 & Self::PERSPECTIVE == 0
    }

    /// Sets the bits of `bit`, keeping the others.
    pub fn set(&mut self, bit: u8)
        ensures
            final(self)@ == old(self)@ | bit,
    {
        self.0 = self.0 | bit;
    }

    /// Classifies a matrix from its properties, each decided by the caller on the matrix entries:
    /// `perspective` (the last row is not `0 0 1`), `skewed` (an off-diagonal entry is not 0),
    /// `scaled` (a diagonal entry is not 1), `translated` (a translation entry is not 0) and
    /// `rotation_only` (the 2x2 part is a rotation: `b == -c`, `a == d`, `a*a + b*b == 1`).
    /// A perspective matrix is marked perspective and affine and nothing else.
    pub fn compute(
        perspective: bool,
        skewed: bool,
        scaled: bool,
        translated: bool,
        rotation_only: bool,
    ) -> (m: TypeMask)
        ensures
            m@ == spec_compute_bits(perspective, skewed, scaled, translated, rotation_only),
    {
        let mut bits = Self::IDENTITY;
        if perspective {
            bits = bits | Self::PERSPECTIVE;
            bits = bits | Self::AFFINE;
            assert(0u8 | 8u8 | 4u8 == 12u8) by (bit_vector);
            return TypeMask(bits);
        }
        if skewed {
            bits = bits | Self::AFFINE;
        }
        if scaled {
            bits = bits | Self::SCALE;
        }
        if translated {
            bits = bits | Self::TRANSLATE;
        }
        if bits == Self::AFFINE && rotation_only {
            bits = bits | Self::RECT_STAYS_RECT;
        }
        proof {
            lemma_or_small_bits(skewed, scaled, translated);
        }
        TypeMask(bits)
    }
}

proof fn lemma_or_small_bits(skewed: bool, scaled: bool, translated: bool)
    ensures
        ({
            let a: u8 = if skewed { 4 } else { 0 };
            let s: u8 = if scaled { 2 } else { 0 };
            let t: u8 = if translated { 1 } else { 0 };
            &&& (0u8 | a) == a
            &&& (a | s) as int == a + s
            &&& ((a | s) | t) as int == a + s + t
            &&& (((a | s) | t) | 16u8) as int == a + s + t + 16
            &&& (((a | s) | t) == 4u8) == (skewed && !scaled && !translated)
        }),
{
    let a: u8 = if skewed { 4 } else { 0 };
    let s: u8 = if scaled { 2 } else { 0 };
    let t: u8 = if translated { 1 } else { 0 };
    assert((0u8 | a) == a) by (bit_vector);
    assert((a == 0u8 || a == 4u8) && (s == 0u8 || s == 2u8) && (t == 0u8 || t == 1u8) ==> {
        &&& (a | s) as int == a + s
        &&& ((a | s) | t) as int == a + s + t
        &&& (((a | s) | t) | 16u8) as int == a + s + t + 16
        &&& (((a | s) | t) == 4u8) == (a == 4u8 && s == 0u8 && t == 0u8)
    }) by (bit_vector);
}

/// Setting bits is idempotent: setting the same bits twice is setting them once.
pub proof fn lemma_set_idempotent(mask: u8, bit: u8)
    ensures
        (mask | bit) | bit == mask | bit,
        (mask | bit) & bit == bit,
{
    assert((mask | bit) | bit == mask | bit) by (bit_vector);
    assert((mask | bit) & bit == bit) by (bit_vector);
}

/// A mask is affine exactly when its perspective bit is clear; `compute` marks a matrix
/// affine unless it has perspective, and marks only affine rotations as keeping rectangles.
pub proof fn lemma_compute_affine(
    perspective: bool,
    skewed: bool,
    scaled: bool,
    translated: bool,
    rotation_only: bool,
)
    ensures
        (spec_compute_bits(perspective, skewed, scaled, translated, rotation_only)
            & TypeMask::PERSPECTIVE == 0) == !perspective,
        spec_compute_bits(perspective, skewed, scaled, translated, rotation_only)
            == TypeMask::IDENTITY <==> !perspective && !skewed && !scaled && !translated,
{
    let m = spec_compute_bits(perspective, skewed, scaled, translated, rotation_only);
    assert(m == 12u8 || m == 0u8 || m == 1u8 || m == 2u8 || m == 3u8 || m == 4u8 || m == 5u8
        || m == 6u8 || m == 7u8 || m == 20u8);
    assert(m == 12u8 || m == 0u8 || m == 1u8 || m == 2u8 || m == 3u8 || m == 4u8 || m == 5u8
        || m == 6u8 || m == 7u8 || m == 20u8 ==> ((m & 8u8 == 0u8) <==> m != 12u8)) by (bit_vector);
}

/// Each bit of a computed mask answers one question about the matrix. Without perspective:
/// the affine bit is set exactly when the matrix is skewed, the scale bit exactly when it is
/// scaled, the translate bit exactly when it is translated, the perspective bit is clear,
/// and the rectangle bit is set exactly for an unscaled, untranslated rotation. With
/// perspective, the mask is the perspective and affine bits and nothing else.
pub proof fn lemma_compute_bits_answer(
    perspective: bool,
    skewed: bool,
    scaled: bool,
    translated: bool,
    rotation_only: bool,
)
    ensures
        ({
            let m = spec_compute_bits(perspective, skewed, scaled, translated, rotation_only);
            &&& !perspective ==> {
                &&& (m & TypeMask::AFFINE != 0) == skewed
                &&& (m & TypeMask::SCALE != 0) == scaled
                &&& (m & TypeMask::TRANSLATE != 0) == translated
                &&& (m & TypeMask::PERSPECTIVE == 0)
                &&& (m & TypeMask::RECT_STAYS_RECT != 0) == (skewed && !scaled && !translated
                    && rotation_only)
            }
            &&& perspective ==> m == TypeMask::PERSPECTIVE | TypeMask::AFFINE
        }),
{
    let m = spec_compute_bits(perspective, skewed, scaled, translated, rotation_only);
    assert(8u8 | 4u8 == 12u8) by (bit_vector);
    if !perspective {
        let a: u8 = if skewed { 4 } else { 0 };
        let sc: u8 = if scaled { 2 } else { 0 };
        let t: u8 = if translated { 1 } else { 0 };
        let r: u8 = if skewed && !scaled && !translated && rotation_only { 16 } else { 0 };
        assert(m == a + sc + t + r);
        assert((a == 0u8 || a == 4u8) && (sc == 0u8 || sc == 2u8) && (t == 0u8 || t == 1u8) && (r
            == 0u8 || r == 16u8) && m == a + sc + t + r ==> {
            &&& (m & 4u8 != 0u8) == (a == 4u8)
            &&& (m & 2u8 != 0u8) == (sc == 2u8)
            &&& (m & 1u8 != 0u8) == (t == 1u8)
            &&& (m & 8u8 == 0u8)
            &&& (m & 16u8 != 0u8) == (r == 16u8)
        }) by (bit_vector);
    }
}

} // verus!
