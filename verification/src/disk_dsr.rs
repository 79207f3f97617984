//! Build the rewritten TI Disk Controller **DSR ROM**, mirroring
//! [`crate::system_rom`].
//!
//! The disk card maps its DSR ROM at CPU `>4000..>5FFF`; the top 16 bytes
//! (`>5FF0..5FFF`) are the FD1771 register overlay, never ROM. The image is
//! assembled at an **absolute base of `>4000`** so the `>AA` header's chain /
//! entry pointers resolve to their real `>40xx` addresses — the console's SROM
//! (`XML >19`) reads those words and `BL *R9`-calls them.

use vstd::prelude::*;

use crate::strings::owned;
use crate::{
    assemble_spec, diags_view, layout_gate, matches_outcome, padded_to, pins_view, AsmOutcome,
    Assembly, Diag, DiagView, Options, OptionsView,
};

verus! {

/// The disk DSR is mapped at CPU `>4000`.
pub const DSR_BASE: u16 = 0x4000;

/// The DSR ROM window is 8 KiB (`>4000..>5FFF`). The top 16 (`>5FF0..5FFF`)
/// are shadowed by the FD1771 registers at run time, so nothing live may sit
/// there (enforced below).
pub const DSR_SIZE: usize = 0x2000;

/// Image offset of the FD1771 register shadow (`>5FF0..5FFF` → offsets
/// `>1FF0..1FFF`): those bytes are never visible as ROM, so they stay zero.
pub const REGISTER_SHADOW: usize = 0x1FF0;

/// Structurally pinned addresses: the console discovers every routine by
/// walking the `>AA` header chains, so only the header itself is fixed.
pub open spec fn frozen_pins() -> Seq<(Seq<char>, u16)> {
    seq![("HDR"@, 0x4000u16)]
}

/// The frozen entry points, `(symbol, address)`: the `>AA` peripheral-card
/// header.
pub fn frozen_entries() -> (v: Vec<(&'static str, u16)>)
    ensures
        pins_view(v@) == frozen_pins(),
{
    let v = vec![("HDR", 0x4000u16)];
    assert(pins_view(v@) =~= frozen_pins());
    v
}

/// The options of the DSR build: an absolute 8 KiB image at `>4000`.
pub open spec fn dsr_options() -> OptionsView {
    OptionsView {
        name: None,
        entry: None,
        base: DSR_BASE,
        auto_header: false,
        absolute: true,
        image_size: DSR_SIZE as nat,
    }
}

/// The register-shadow bytes of the image are present and zero.
pub open spec fn shadow_clear(rom: Seq<u8>) -> bool {
    rom.len() >= DSR_SIZE && forall|i: int| REGISTER_SHADOW <= i < DSR_SIZE ==> rom[i] == 0
}

/// The diagnostic for content in the register shadow.
pub open spec fn shadow_msg() -> Seq<char> {
    "disk-dsr: content in the FD1771 register shadow (>5FF0..5FFF) — those bytes are never visible as ROM"@
}

/// The DSR build of `src`: its assembly, unless the header moved or the
/// register shadow holds content.
pub open spec fn dsr_build(src: Seq<char>) -> Result<AsmOutcome, Seq<DiagView>> {
    match layout_gate(assemble_spec(src, dsr_options()), frozen_pins()) {
        Err(d) => Err(d),
        Ok(out) => if shadow_clear(out.rom) {
            Ok(out)
        } else {
            Err(seq![DiagView { line: 0, message: shadow_msg() }])
        },
    }
}

/// Whether the register-shadow bytes of `rom` are present and zero.
fn shadow_is_clear(rom: &Vec<u8>) -> (r: bool)
    ensures
        r == shadow_clear(rom@),
{
    if rom.len() < DSR_SIZE {
        return false;
    }
    let mut i: usize = REGISTER_SHADOW;
    while i < DSR_SIZE
        invariant
            REGISTER_SHADOW <= i <= DSR_SIZE <= rom@.len(),
            forall|j: int| REGISTER_SHADOW <= j < i ==> rom@[j] == 0,
        decreases DSR_SIZE - i,
    {
        if rom[i] != 0 {
            return false;
        }
        i += 1;
    }
    true
}

/// Assemble the disk DSR source `src` to its 8 KiB `>4000`-based
/// [`Assembly`] (symbols, listing), asserting that the header did not drift
/// and the FD1771 register shadow stays clear.
pub fn assemble_disk_dsr(src: &str) -> (r: Result<Assembly, Vec<Diag>>)
    ensures
        match r {
            Ok(a) => (match dsr_build(src@) {
                Ok(out) => matches_outcome(a, out),
                Err(_) => false,
            }) && padded_to(a.rom@, a.image@, DSR_SIZE as nat) && shadow_clear(a.rom@),
            Err(d) => dsr_build(src@) == Err::<AsmOutcome, Seq<DiagView>>(diags_view(d@)),
        },
{
    let opts = Options {
        name: None,
        entry: None,
        base: DSR_BASE,
        auto_header: false,
        absolute: true,
        image_size: DSR_SIZE,
    };
    let pins = frozen_entries();
    let a = match crate::assemble_pinned(src, &opts, pins.as_slice()) {
        Ok(a) => a,
        Err(d) => return Err(d),
    };
    if !shadow_is_clear(&a.rom) {
        let mut d: Vec<Diag> = Vec::new();
        d.push(
            Diag {
                line: 0,
                message: owned(
                    "disk-dsr: content in the FD1771 register shadow (>5FF0..5FFF) — those bytes are never visible as ROM",
                ),
            },
        );
        assert(diags_view(d@) =~= seq![DiagView { line: 0, message: shadow_msg() }]);
        return Err(d);
    }
    Ok(a)
}

/// Build the disk DSR's 8 KiB image. `image[0]` is the `>AA` valid-DSR
/// marker.
pub fn build_disk_dsr(src: &str) -> (r: Result<Vec<u8>, Vec<Diag>>)
    ensures
        match r {
            Ok(rom) => (match dsr_build(src@) {
                Ok(out) => rom@ == out.rom,
                Err(_) => false,
            }) && rom@.len() == DSR_SIZE && shadow_clear(rom@),
            Err(d) => dsr_build(src@) == Err::<AsmOutcome, Seq<DiagView>>(diags_view(d@)),
        },
{
    match assemble_disk_dsr(src) {
        Ok(a) => Ok(a.rom),
        Err(d) => Err(d),
    }
}

} // verus!
