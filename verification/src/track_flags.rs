//! Track presentation flags. The bit positions are shared with consumers
//! outside this crate and never change.

use vstd::prelude::*;

verus! {

/// No flag set.
pub const NONE: i32 = 0;

/// The track is meant for hearing-impaired viewers (bit 2).
pub const HEARING_IMPAIRED: i32 = 4;

/// The track is meant for visually impaired viewers (bit 3).
pub const VISUAL_IMPAIRED: i32 = 8;

/// The track is an attached picture (bit 4).
pub const ATTACHED_PICTURE: i32 = 16;

/// The track is forced (bit 5).
pub const FORCED: i32 = 32;

/// The track is the default one (bit 6).
pub const DEFAULT: i32 = 64;

/// Each flag is one bit, at its fixed place.
pub proof fn lemma_flag_bits()
    ensures
        HEARING_IMPAIRED == 1i32 << 2,
        VISUAL_IMPAIRED == 1i32 << 3,
        ATTACHED_PICTURE == 1i32 << 4,
        FORCED == 1i32 << 5,
        DEFAULT == 1i32 << 6,
{
    assert(4i32 == 1i32 << 2) by (bit_vector);
    assert(8i32 == 1i32 << 3) by (bit_vector);
    assert(16i32 == 1i32 << 4) by (bit_vector);
    assert(32i32 == 1i32 << 5) by (bit_vector);
    assert(64i32 == 1i32 << 6) by (bit_vector);
}

} // verus!
