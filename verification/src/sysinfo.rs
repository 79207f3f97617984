//! The identity strings of the system information screen: how the host-side
//! stamp names the console ROM being mounted and the host it runs on. The
//! stamping itself writes into the console GROM's identification block; the
//! library decides the texts that go there.

use vstd::prelude::*;

use crate::screenshot::{crc32, Crc};
use crate::strings::{ascii_upper, hex_fixed, owned, push_chars, push_hex, push_str};

verus! {

/// CRC-32 (IEEE) of the authentic TI-99/4A console ROM (`994aROM.Bin`). The
/// image itself is not distributed; the checksum — a public, well-known fact
/// about it — lets the system information screen recognize a user-supplied
/// console ROM.
pub const AUTHENTIC_ROM_CRC32: u32 = 0xDB8F_33E5;

/// The ROM row's text for a console ROM whose CRC-32 is `crc` and whose
/// rewrite marker, if it carries one, holds `marker`.
pub open spec fn rom_label(crc: u32, marker: Option<Seq<char>>) -> Seq<char> {
    if crc == AUTHENTIC_ROM_CRC32 {
        "TI 1981"@
    } else {
        match marker {
            Some(v) => "LIBRE99 "@ + v,
            None => "CUSTOM CRC "@ + hex_fixed(crc as nat, 8),
        }
    }
}

/// Name the console ROM `rom` for the screen's ROM row: the authentic image
/// (recognized by its well-known CRC-32), a Libre99 rewrite (self-identified
/// by its marker, whose version `marker` the caller read from the image — an
/// older rewrite under a newer emulator reports its own number), or an
/// unrecognized image named by its CRC-32.
pub fn rom_identity(rom: &[u8], marker: Option<&str>) -> (s: String)
    ensures
        s@ == rom_label(crc32(rom@), match marker {
            Some(v) => Some(v@),
            None => None,
        }),
{
    let mut c = Crc::new();
    c.update(rom);
    let crc = c.finish();
    proof {
        reveal_strlit("TI 1981");
        reveal_strlit("LIBRE99 ");
        reveal_strlit("CUSTOM CRC ");
    }
    if crc == AUTHENTIC_ROM_CRC32 {
        return owned("TI 1981");
    }
    match marker {
        Some(v) => {
            let mut s = owned("LIBRE99 ");
            push_str(&mut s, v);
            s
        },
        None => {
            let mut s = owned("CUSTOM CRC ");
            push_hex(&mut s, crc as u64, 8);
            s
        },
    }
}

/// The short name of a CPU architecture, in the console font's upper-case
/// range: `X64`, `ARM64`, or the name as given, ASCII upper-cased.
pub open spec fn arch_label(arch: Seq<char>) -> Seq<char> {
    if arch == "x86_64"@ {
        "X64"@
    } else if arch == "aarch64"@ {
        "ARM64"@
    } else {
        arch.map_values(|c: char| ascii_upper(c))
    }
}

/// `s` with its ASCII letters upper-cased.
fn upper_ascii(s: &str) -> (r: String)
    ensures
        r@ == s@.map_values(|c: char| ascii_upper(c)),
{
    let v = crate::strings::chars_of(s);
    let mut up: Vec<char> = Vec::new();
    let mut i: usize = 0;
    while i < v.len()
        invariant
            i <= v@.len(),
            v@ == s@,
            up@ == s@.take(i as int).map_values(|c: char| ascii_upper(c)),
        decreases v@.len() - i,
    {
        up.push(crate::strings::to_ascii_upper(v[i]));
        i += 1;
        assert(up@ =~= s@.take(i as int).map_values(|c: char| ascii_upper(c)));
    }
    assert(s@.take(s@.len() as int) =~= s@);
    let mut r = String::new();
    push_chars(&mut r, up.as_slice());
    assert(r@ =~= s@.map_values(|c: char| ascii_upper(c)));
    r
}

/// The short name of the architecture `arch` (as Rust names it), upper-cased.
pub fn arch_name(arch: &str) -> (s: String)
    ensures
        s@ == arch_label(arch@),
{
    proof {
        reveal_strlit("x86_64");
        reveal_strlit("aarch64");
    }
    if crate::strings::str_eq(arch, "x86_64") {
        owned("X64")
    } else if crate::strings::str_eq(arch, "aarch64") {
        owned("ARM64")
    } else {
        upper_ascii(arch)
    }
}

/// The host row's text for operating system `os` and architecture `arch`.
pub open spec fn host_label(os: Seq<char>, arch: Seq<char>) -> Seq<char> {
    let name = if os == "macos"@ {
        "MACOS"@
    } else if os == "windows"@ {
        "WINDOWS"@
    } else if os == "linux"@ {
        "LINUX"@
    } else {
        os.map_values(|c: char| ascii_upper(c))
    };
    name + " "@ + arch_label(arch)
}

/// The host OS and architecture (`os` and `arch` as Rust names them), in the
/// console font's upper-case-only range.
pub fn host_identity(os: &str, arch: &str) -> (s: String)
    ensures
        s@ == host_label(os@, arch@),
{
    proof {
        reveal_strlit("macos");
        reveal_strlit("windows");
        reveal_strlit("linux");
        reveal_strlit("MACOS");
        reveal_strlit("WINDOWS");
        reveal_strlit("LINUX");
        reveal_strlit(" ");
    }
    let mut s = if crate::strings::str_eq(os, "macos") {
        owned("MACOS")
    } else if crate::strings::str_eq(os, "windows") {
        owned("WINDOWS")
    } else if crate::strings::str_eq(os, "linux") {
        owned("LINUX")
    } else {
        upper_ascii(os)
    };
    push_str(&mut s, " ");
    let a = arch_name(arch);
    push_str(&mut s, a.as_str());
    s
}

} // verus!
