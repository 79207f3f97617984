//! Media files loaded at run time — no cartridge or disk image is embedded in
//! the binary. A cartridge (`.ctg`) or disk (`.dsk`) comes from an explicit
//! user-given path. This module owns the file-type detection and the texts of
//! the confirmation prompts; the native dialogs and the file reads are the
//! frontend's.

use vstd::prelude::*;

use crate::strings::{ascii_lower_seq, dec_nat, owned, push_dec_u64, push_str};

verus! {

/// Refuse to slurp files beyond this size (16 MiB). Real TI media is tiny — a
/// cartridge image tops out around half a megabyte and a floppy image around
/// three — so anything huge is a mis-pick in the browser, not media.
pub const MAX_MEDIA_BYTES: u64 = 16 * 1024 * 1024;

/// What kind of media a file is, judged by its extension.
#[derive(Clone, Copy, Debug, PartialEq, Eq, Structural)]
pub enum MediaKind {
    Cartridge,
    Disk,
}

/// The label of a media kind.
pub open spec fn kind_label(k: MediaKind) -> Seq<char> {
    match k {
        MediaKind::Cartridge => "CART"@,
        MediaKind::Disk => "DISK"@,
    }
}

impl MediaKind {
    /// Short uppercase label for toasts and list rows.
    pub fn label(self) -> (s: &'static str)
        ensures
            s@ == kind_label(self),
    {
        match self {
            MediaKind::Cartridge => "CART",
            MediaKind::Disk => "DISK",
        }
    }
}

/// The media kind of a file extension (ASCII case-insensitive): `ctg` is a
/// cartridge, `dsk` a disk image; anything else, or no extension, is not
/// mountable media.
pub open spec fn kind_of_ext(ext: Option<Seq<char>>) -> Option<MediaKind> {
    match ext {
        Some(e) => if ascii_lower_seq(e) == "ctg"@ {
            Some(MediaKind::Cartridge)
        } else if ascii_lower_seq(e) == "dsk"@ {
            Some(MediaKind::Disk)
        } else {
            None
        },
        None => None,
    }
}

/// The media kind of a file whose extension is `ext` (case-insensitive):
/// `.ctg` is a cartridge, `.dsk` a disk image; anything else is not
/// mountable media.
pub fn kind_of_extension(ext: Option<&str>) -> (r: Option<MediaKind>)
    ensures
        r == kind_of_ext(match ext {
            Some(e) => Some(e@),
            None => None,
        }),
{
    let e = match ext {
        Some(e) => e,
        None => return None,
    };
    let low = crate::strings::ascii_lowercase(e);
    let ctg = crate::strings::chars_of("ctg");
    let dsk = crate::strings::chars_of("dsk");
    if crate::strings::chars_eq(low.as_slice(), ctg.as_slice()) {
        Some(MediaKind::Cartridge)
    } else if crate::strings::chars_eq(low.as_slice(), dsk.as_slice()) {
        Some(MediaKind::Disk)
    } else {
        None
    }
}

/// Whether `s` occurs in `p` as a contiguous run of characters.
pub open spec fn piece_of(p: Seq<char>, s: Seq<char>) -> bool {
    exists|i: int| 0 <= i && i + s.len() <= p.len() && #[trigger] p.subrange(i, i + s.len()) == s
}

/// Whether `e` occurs in `p` right after a `.`.
pub open spec fn after_dot(p: Seq<char>, e: Seq<char>) -> bool {
    exists|i: int|
        0 <= i && i + 1 + e.len() <= p.len() && p[i] == '.' && #[trigger] p.subrange(i + 1, i + 1 + e.len()) == e
}

/// The index of the last `c` in `s`, or `-1`.
pub open spec fn last_index(s: Seq<char>, c: char) -> int
    decreases s.len(),
{
    if s.len() == 0 {
        -1
    } else if s.last() == c {
        s.len() - 1
    } else {
        last_index(s.drop_last(), c)
    }
}

/// What follows the last `/` of `p` (all of `p` when it has none).
pub open spec fn last_component(p: Seq<char>) -> Seq<char> {
    p.subrange(last_index(p, '/') + 1, p.len() as int)
}

/// A path that every platform splits the same way: no `\\` or `:` (no
/// Windows separators or prefixes), not starting with `//`, not ending in
/// `/`, and its last `/`-separated part is neither `.` nor `..`. Its file
/// name is then that last part.
pub open spec fn plain_path(p: Seq<char>) -> bool {
    &&& !p.contains('\\')
    &&& !p.contains(':')
    &&& !(p.len() >= 2 && p[0] == '/' && p[1] == '/')
    &&& (p.len() == 0 || p.last() != '/')
    &&& last_component(p) != "."@
    &&& last_component(p) != ".."@
}

/// The extension of file name `name` as std defines it: the text after its
/// last `.`, when that dot is not the name's first character.
pub open spec fn std_extension(name: Seq<char>) -> Option<Seq<char>> {
    let d = last_index(name, '.');
    if d >= 1 {
        Some(name.subrange(d + 1, name.len() as int))
    } else {
        None
    }
}

/// The stem of file name `name` as std defines it: the text before its last
/// `.`, or all of `name` when that dot is its first character or it has none.
pub open spec fn std_stem(name: Seq<char>) -> Seq<char> {
    let d = last_index(name, '.');
    if d >= 1 {
        name.take(d)
    } else {
        name
    }
}

/// Whether `p` holds `a` right before `b` somewhere.
pub open spec fn has_pair(p: Seq<char>, a: char, b: char) -> bool {
    exists|i: int| 0 <= i < p.len() - 1 && #[trigger] p[i] == a && p[i + 1] == b
}

/// A non-empty [`plain_path`] whose parts are all named: no empty part
/// (`//`) and no `.` part after the first (`/./`). Its parent is then the
/// text before its last `/` on every platform.
pub open spec fn simple_path(p: Seq<char>) -> bool {
    &&& plain_path(p)
    &&& p.len() > 0
    &&& !has_pair(p, '/', '/')
    &&& !(exists|i: int| 0 <= i < p.len() - 2 && #[trigger] p[i] == '/' && p[i + 1] == '.' && p[i + 2] == '/')
}

/// The parent of a [`simple_path`]: the text before its last `/` (`/` for a
/// part right under the root), empty when it has no `/`.
pub open spec fn parent_of(p: Seq<char>) -> Seq<char> {
    let i = last_index(p, '/');
    if i < 0 {
        Seq::empty()
    } else if i == 0 {
        seq!['/']
    } else {
        p.take(i)
    }
}

/// An optional string by its characters.
pub open spec fn opt_text(o: Option<String>) -> Option<Seq<char>> {
    match o {
        Some(s) => Some(s@),
        None => None,
    }
}

/// Calls `std::path::Path::extension` on `path`: the text after the last dot
/// of the path's file name, unless the name has no dot past its first
/// character. Claimed: that text stands in `path` right after a dot, and on
/// a [`plain_path`] — whose file name is its last `/`-separated part on
/// every platform — it is [`std_extension`] of that part. On other paths
/// which part is the file name depends on the host platform and is left
/// unsaid.
#[verifier::external_body]
fn path_extension(path: &str) -> (r: Option<String>)
    ensures
        r matches Some(e) ==> after_dot(path@, e@),
        plain_path(path@) ==> opt_text(r) == std_extension(last_component(path@)),
{
    std::path::Path::new(path).extension().map(|e| e.to_string_lossy().into_owned())
}

/// Calls `std::path::Path::file_name` on `path`: its final component, if it
/// has one. Claimed: that component stands in `path` as a contiguous run;
/// on a non-empty [`plain_path`] it is the last `/`-separated part, and the
/// empty path has none. On other paths the split depends on the host
/// platform and is left unsaid.
#[verifier::external_body]
fn path_file_name(path: &str) -> (r: Option<String>)
    ensures
        r matches Some(n) ==> piece_of(path@, n@),
        plain_path(path@) && path@.len() > 0 ==> opt_text(r) == Some(last_component(path@)),
        path@.len() == 0 ==> r is None,
{
    std::path::Path::new(path).file_name().map(|n| n.to_string_lossy().into_owned())
}

/// Calls `std::path::Path::file_stem` on `path`: its file name without the
/// extension. Claimed: on a non-empty [`plain_path`] it is [`std_stem`] of
/// the last `/`-separated part, and the empty path has none. On other paths
/// which part is the file name depends on the host platform and is left
/// unsaid.
#[verifier::external_body]
pub(crate) fn path_file_stem(path: &str) -> (r: Option<String>)
    ensures
        plain_path(path@) && path@.len() > 0 ==> opt_text(r) == Some(std_stem(last_component(path@))),
        path@.len() == 0 ==> r is None,
{
    std::path::Path::new(path).file_stem().map(|n| n.to_string_lossy().into_owned())
}

/// Calls `std::path::Path::parent` on `path`: the path without its final
/// component. Claimed: on a [`simple_path`] it is [`parent_of`] it (empty for
/// a single relative part), and the empty path has none. On other paths the
/// components, and so the parent, depend on the host platform and are left
/// unsaid.
#[verifier::external_body]
pub(crate) fn path_parent(path: &str) -> (r: Option<String>)
    ensures
        simple_path(path@) ==> opt_text(r) == Some(parent_of(path@)),
        path@.len() == 0 ==> r is None,
{
    std::path::Path::new(path).parent().map(|d| d.to_string_lossy().into_owned())
}

/// The media kind of `path` by extension (case-insensitive): `.ctg` is a
/// cartridge, `.dsk` a disk image; anything else is not mountable media.
/// The extension is the one the host platform's path rules find, which
/// stands in `path` right after a dot; on a [`plain_path`] it is the text
/// after the last dot of the last `/`-separated part.
pub fn kind_of(path: &str) -> (r: Option<MediaKind>)
    ensures
        plain_path(path@) ==> r == kind_of_ext(std_extension(last_component(path@))),
        r == kind_of_ext(None) || exists|e: Seq<char>| after_dot(path@, e) && r == kind_of_ext(Some(e)),
{
    let ext = path_extension(path);
    match &ext {
        Some(e) => {
            let r = kind_of_extension(Some(e.as_str()));
            assert(after_dot(path@, e@) && r == kind_of_ext(Some(e@)));
            r
        },
        None => kind_of_extension(None),
    }
}

/// A media file the user picked: its path and its bytes.
pub struct MediaItem {
    pub path: String,
    pub bytes: Vec<u8>,
}

impl MediaItem {
    /// The file name, for the window title and toasts: the final component
    /// of the path as the host platform splits it, or the whole path when it
    /// has none.
    pub fn name(&self) -> (r: String)
        ensures
            r@ == self.path@ || piece_of(self.path@, r@),
            plain_path(self.path@) && self.path@.len() > 0 ==> r@ == last_component(self.path@),
            self.path@.len() == 0 ==> r@ == self.path@,
    {
        match path_file_name(self.path.as_str()) {
            Some(n) => n,
            None => self.path.clone(),
        }
    }
}

/// The answer to the unload prompt for a modified disk.
#[derive(Clone, Copy, Debug, PartialEq, Eq, Structural)]
pub enum UnloadChoice {
    /// Export the image to a `.dsk` file first, then unload.
    Save,
    /// Unload without exporting — the in-memory changes are discarded.
    Discard,
    /// Keep the disk in memory; nothing happens.
    Cancel,
}

/// The warning before a snapshot load.
pub open spec fn snapshot_warning_text(name: Seq<char>, dirty_disks: nat) -> Seq<char> {
    "Load the snapshot "@ + name
        + "?\n\nIt replaces the running machine and becomes the resume state — the automatic save Libre99 reloads at startup — so the session running now is overwritten."@
        + if dirty_disks > 0 {
        "\n\nThis session holds "@ + dec_nat(dirty_disks)
            + " in-memory disk image(s) with unexported changes; loading the snapshot discards them. Export them first (F4) to keep them."@
    } else {
        seq![]
    }
}

/// The warning shown before a snapshot load: loading replaces the running
/// machine *and* the resume state — plus what that costs when the session
/// holds unexported disk changes the snapshot won't have.
pub fn snapshot_load_warning(name: &str, dirty_disks: usize) -> (s: String)
    ensures
        s@ == snapshot_warning_text(name@, dirty_disks as nat),
{
    let mut text = owned("Load the snapshot ");
    push_str(&mut text, name);
    push_str(
        &mut text,
        "?\n\nIt replaces the running machine and becomes the resume state — the automatic save Libre99 reloads at startup — so the session running now is overwritten.",
    );
    if dirty_disks > 0 {
        push_str(&mut text, "\n\nThis session holds ");
        push_dec_u64(&mut text, dirty_disks as u64);
        push_str(
            &mut text,
            " in-memory disk image(s) with unexported changes; loading the snapshot discards them. Export them first (F4) to keep them.",
        );
    }
    proof {
        assert(text@ =~= snapshot_warning_text(name@, dirty_disks as nat));
    }
    text
}

/// The warning before a resume-state load that would roll back disk
/// changes.
pub open spec fn resume_warning_text(dirty_disks: nat) -> Seq<char> {
    "Load the resume state?\n\nThis session holds "@ + dec_nat(dirty_disks)
        + " in-memory disk image(s) with unexported changes; loading rolls every disk back to the resume state's copy. Export them first (F4) to keep them."@
}

/// The warning shown before Load (`F8`) *only* when the session holds
/// unexported in-memory disk changes that the resume state would roll back.
pub fn resume_load_warning(dirty_disks: usize) -> (s: String)
    ensures
        s@ == resume_warning_text(dirty_disks as nat),
{
    let mut text = owned("Load the resume state?\n\nThis session holds ");
    push_dec_u64(&mut text, dirty_disks as u64);
    push_str(
        &mut text,
        " in-memory disk image(s) with unexported changes; loading rolls every disk back to the resume state's copy. Export them first (F4) to keep them.",
    );
    assert(text@ =~= resume_warning_text(dirty_disks as nat));
    text
}

/// The warning before a fresh start.
pub open spec fn fresh_start_text(disks: nat, dirty_disks: nat) -> Seq<char> {
    "Delete the resume state and start fresh?\n\nThe resume state is deleted permanently, and the console restarts bare — no cartridge, no disk — as on a first run."@
        + (if disks > 0 {
        "\n\nThe "@ + dec_nat(disks) + " disk image(s) held in memory are unloaded"@ + (if dirty_disks > 0 {
            " — "@ + dec_nat(dirty_disks)
                + " of them carry unexported changes that will be lost. Export them first (F4) to keep them"@
        } else {
            seq![]
        }) + "."@
    } else {
        seq![]
    }) + "\n\nFiles on your computer (.dsk, .ctg, snapshot .ti99) are never touched."@
}

/// The warning shown before a fresh start: the resume state is deleted
/// permanently and the console restarts bare, spelling out exactly what is
/// lost — every in-memory disk image, and unexported changes in particular.
/// Host files are never touched.
pub fn fresh_start_warning(disks: usize, dirty_disks: usize) -> (s: String)
    ensures
        s@ == fresh_start_text(disks as nat, dirty_disks as nat),
{
    let mut text = owned(
        "Delete the resume state and start fresh?\n\nThe resume state is deleted permanently, and the console restarts bare — no cartridge, no disk — as on a first run.",
    );
    if disks > 0 {
        push_str(&mut text, "\n\nThe ");
        push_dec_u64(&mut text, disks as u64);
        push_str(&mut text, " disk image(s) held in memory are unloaded");
        if dirty_disks > 0 {
            push_str(&mut text, " — ");
            push_dec_u64(&mut text, dirty_disks as u64);
            push_str(
                &mut text,
                " of them carry unexported changes that will be lost. Export them first (F4) to keep them",
            );
        }
        text.push('.');
        proof {
            reveal_strlit(".");
        }
    }
    push_str(&mut text, "\n\nFiles on your computer (.dsk, .ctg, snapshot .ti99) are never touched.");
    assert(text@ =~= fresh_start_text(disks as nat, dirty_disks as nat));
    text
}

/// The window title for the mounted cartridge and disk names (`None`: the
/// slot is empty); `dirty` marks disk changes not yet exported.
pub open spec fn title_text(cart: Option<Seq<char>>, disk: Option<Seq<char>>, dirty: bool) -> Seq<char> {
    let c = match cart {
        Some(n) => n,
        None => "(none)"@,
    };
    let d = match disk {
        Some(n) => n,
        None => "(none)"@,
    };
    let mark = if dirty {
        "*"@
    } else {
        ""@
    };
    "Libre99  —  "@ + c + "  ·  DSK1: "@ + d + mark
}

/// An optional string by its characters.
pub open spec fn opt_chars(o: Option<&str>) -> Option<Seq<char>> {
    match o {
        Some(s) => Some(s@),
        None => None,
    }
}

/// The window title showing the current media: the cartridge's and the
/// DSK1 image's file names (`(none)` for an empty slot), with a `*` after
/// the disk name when it holds in-memory changes not exported to a host
/// file.
pub fn window_title(cart: Option<&str>, disk: Option<&str>, dirty: bool) -> (t: String)
    ensures
        t@ == title_text(opt_chars(cart), opt_chars(disk), dirty),
{
    proof {
        reveal_strlit("(none)");
        reveal_strlit("*");
        reveal_strlit("");
    }
    let mut t = owned("Libre99  —  ");
    push_str(&mut t, match cart {
        Some(n) => n,
        None => "(none)",
    });
    push_str(&mut t, "  ·  DSK1: ");
    push_str(&mut t, match disk {
        Some(n) => n,
        None => "(none)",
    });
    if dirty {
        push_str(&mut t, "*");
    }
    assert(t@ =~= title_text(opt_chars(cart), opt_chars(disk), dirty));
    t
}

/// The name suggested for a snapshot file: the cartridge file's stem
/// (`console` for a bare console) with the `.ti99` extension.
pub open spec fn snapshot_name_text(stem: Option<Seq<char>>) -> Seq<char> {
    let base = match stem {
        Some(s) => s,
        None => "console"@,
    };
    base + ".ti99"@
}

/// The suggested snapshot file name for a cartridge whose file stem is
/// `stem` (`None`: no cartridge).
pub fn snapshot_suggested_name(stem: Option<&str>) -> (n: String)
    ensures
        n@ == snapshot_name_text(opt_chars(stem)),
{
    let mut n = match stem {
        Some(s) => owned(s),
        None => owned("console"),
    };
    push_str(&mut n, ".ti99");
    proof {
        reveal_strlit("console");
    }
    assert(n@ =~= snapshot_name_text(opt_chars(stem)));
    n
}

/// The refusal of a file of `len` bytes shown as `display`, when it is over
/// [`MAX_MEDIA_BYTES`].
pub open spec fn oversize_text(display: Seq<char>, len: u64) -> Seq<char> {
    display + " is "@ + dec_nat(len as nat / 0x10_0000) + " MiB — too large to be TI media"@
}

/// Refuse a media file of `len` bytes (shown as `display`) that is larger
/// than [`MAX_MEDIA_BYTES`] — real TI media is tiny, so a huge file is a
/// mis-pick, not media.
pub fn check_size(display: &str, len: u64) -> (r: Result<(), String>)
    ensures
        len <= MAX_MEDIA_BYTES ==> r is Ok,
        len > MAX_MEDIA_BYTES ==> (r matches Err(m) && m@ == oversize_text(display@, len)),
{
    if len > MAX_MEDIA_BYTES {
        let mut m = owned(display);
        push_str(&mut m, " is ");
        push_dec_u64(&mut m, len / (1024 * 1024));
        push_str(&mut m, " MiB — too large to be TI media");
        proof {
            reveal_strlit(" is ");
            reveal_strlit(" MiB — too large to be TI media");
        }
        assert(m@ =~= oversize_text(display@, len));
        return Err(m);
    }
    Ok(())
}

/// Refuse an empty disk image (shown as `display`): a disk must have bytes.
pub fn check_disk(display: &str, bytes: &[u8]) -> (r: Result<(), String>)
    ensures
        bytes@.len() > 0 ==> r is Ok,
        bytes@.len() == 0 ==> (r matches Err(m) && m@ == "empty disk image: "@ + display@),
{
    if bytes.len() == 0 {
        let mut m = owned("empty disk image: ");
        push_str(&mut m, display);
        return Err(m);
    }
    Ok(())
}

/// Windows' verbatim path prefix, `\\?\`.
pub open spec fn verbatim_prefix() -> Seq<char> {
    seq!['\\', '\\', '?', '\\']
}

/// The identity key of a file from its canonical path text: the text with
/// a leading verbatim prefix (`\\?\`, which Windows' canonicalisation adds)
/// removed, so that keys read like the paths the user sees.
pub open spec fn key_spec(canon: Seq<char>) -> Seq<char> {
    if canon.len() >= 4 && canon.take(4) == verbatim_prefix() {
        canon.skip(4)
    } else {
        canon
    }
}

/// The identity key of a file whose canonical path reads `canon` (see
/// [`key_spec`]); the frontend canonicalises the path first.
pub fn key_from_canonical(canon: &str) -> (r: String)
    ensures
        r@ == key_spec(canon@),
{
    let v = crate::strings::chars_of(canon);
    let strip = v.len() >= 4 && v[0] == '\\' && v[1] == '\\' && v[2] == '?' && v[3] == '\\';
    proof {
        if v@.len() >= 4 {
            assert(strip <==> v@.take(4) =~= verbatim_prefix());
        }
    }
    let start: usize = if strip { 4 } else { 0 };
    let mut r = String::new();
    let mut i: usize = start;
    while i < v.len()
        invariant
            start <= i <= v@.len(),
            v@ == canon@,
            r@ == v@.subrange(start as int, i as int),
        decreases v@.len() - i,
    {
        r.push(v[i]);
        i += 1;
        assert(r@ =~= v@.subrange(start as int, i as int));
    }
    assert(v@.subrange(start as int, v@.len() as int) =~= key_spec(canon@));
    r
}

/// What an eject does to the machine.
#[derive(Clone, Copy, Debug, PartialEq, Eq, Structural)]
pub enum EjectAction {
    /// Rebuild the machine without its cartridge: a cold boot, back to the
    /// bare console.
    ColdBoot,
    /// Empty DSK1 live (no reboot); the image stays in memory.
    EmptyDrive,
    /// Nothing to eject.
    Nothing,
}

/// An eject of `kind`, given whether a cartridge is plugged in, whether
/// DSK1 holds an image and whether that image has unexported changes: what
/// happens, and the toast that says so.
pub open spec fn eject_spec(kind: MediaKind, cart: bool, disk: bool, dirty: bool) -> (EjectAction, Seq<char>) {
    match kind {
        MediaKind::Cartridge => if cart {
            (EjectAction::ColdBoot, "CARTRIDGE EJECTED"@)
        } else {
            (EjectAction::Nothing, "ALREADY EMPTY"@)
        },
        MediaKind::Disk => if !disk {
            (EjectAction::Nothing, "ALREADY EMPTY"@)
        } else if dirty {
            (EjectAction::EmptyDrive, "DSK1 EJECTED - CHANGES KEPT IN MEMORY (F4)"@)
        } else {
            (EjectAction::EmptyDrive, "DSK1 EJECTED"@)
        },
    }
}

/// `F2` ejects the cartridge (a cold boot); `F3` empties DSK1 live, the
/// image staying in memory so remounting the file brings its edits back.
pub fn eject_step(kind: MediaKind, cart: bool, disk: bool, dirty: bool) -> (r: (EjectAction, &'static str))
    ensures
        (r.0, r.1@) == eject_spec(kind, cart, disk, dirty),
{
    match kind {
        MediaKind::Cartridge => if cart {
            (EjectAction::ColdBoot, "CARTRIDGE EJECTED")
        } else {
            (EjectAction::Nothing, "ALREADY EMPTY")
        },
        MediaKind::Disk => if !disk {
            (EjectAction::Nothing, "ALREADY EMPTY")
        } else if dirty {
            (EjectAction::EmptyDrive, "DSK1 EJECTED - CHANGES KEPT IN MEMORY (F4)")
        } else {
            (EjectAction::EmptyDrive, "DSK1 EJECTED")
        },
    }
}

/// The toast after mounting `name` as `kind`; `reattached` says that an
/// earlier in-memory copy of the same disk file came back instead of the
/// host bytes.
pub open spec fn mount_toast_text(kind: MediaKind, name: Seq<char>, reattached: bool) -> Seq<char> {
    match kind {
        MediaKind::Cartridge => "CART: "@ + name,
        MediaKind::Disk => if reattached {
            "DSK1: "@ + name + " (IN-MEMORY CHANGES APPLY)"@
        } else {
            "DSK1: "@ + name
        },
    }
}

/// The toast after a mount of `name` as `kind` (a cartridge mount is a cold
/// boot; a disk slots into the running machine).
pub fn mount_toast(kind: MediaKind, name: &str, reattached: bool) -> (t: String)
    ensures
        t@ == mount_toast_text(kind, name@, reattached),
{
    proof {
        reveal_strlit("CART: ");
        reveal_strlit("DSK1: ");
        reveal_strlit(" (IN-MEMORY CHANGES APPLY)");
    }
    let mut t = match kind {
        MediaKind::Cartridge => owned("CART: "),
        MediaKind::Disk => owned("DSK1: "),
    };
    push_str(&mut t, name);
    if kind == MediaKind::Disk && reattached {
        push_str(&mut t, " (IN-MEMORY CHANGES APPLY)");
    }
    assert(t@ =~= mount_toast_text(kind, name@, reattached));
    t
}

} // verus!
