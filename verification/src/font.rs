//! The embedded faces of the native-resolution help overlay, by identity.
//! Rasterizing them is the frontend's; the library names them and fixes the
//! slot each one occupies in the frontend's face table.

use vstd::prelude::*;

verus! {

/// One embedded face + weight.
#[derive(Clone, Copy, Debug, PartialEq, Eq, Hash, Structural)]
pub enum FontId {
    /// Silkscreen 400 — the wordmark and the word-keycaps.
    SilkRegular,
    /// IBM Plex Mono 400 — body copy, labels, footnotes.
    MonoRegular,
    /// IBM Plex Mono 500 — the headline styles.
    MonoMedium,
    /// IBM Plex Mono 600 — key chips, keycap legends, table keys, emphasis.
    MonoSemiBold,
    /// IBM Plex Mono 700 — section eyebrows.
    MonoBold,
}

/// The slot of a face in the face table, in declaration order.
pub open spec fn font_slot(id: FontId) -> nat {
    match id {
        FontId::SilkRegular => 0,
        FontId::MonoRegular => 1,
        FontId::MonoMedium => 2,
        FontId::MonoSemiBold => 3,
        FontId::MonoBold => 4,
    }
}

impl FontId {
    /// The number of embedded faces.
    pub const COUNT: usize = 5;

    /// This face's slot in the face table (declaration order), below
    /// [`FontId::COUNT`].
    pub fn index(self) -> (i: usize)
        ensures
            i == font_slot(self),
            i < FontId::COUNT,
    {
        match self {
            FontId::SilkRegular => 0,
            FontId::MonoRegular => 1,
            FontId::MonoMedium => 2,
            FontId::MonoSemiBold => 3,
            FontId::MonoBold => 4,
        }
    }
}

/// Distinct faces occupy distinct slots.
pub proof fn lemma_slots_distinct(a: FontId, b: FontId)
    ensures
        font_slot(a) == font_slot(b) ==> a == b,
{
}

} // verus!
