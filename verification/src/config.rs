//! Where the user's files live, and the escaping of preference values.
//!
//! Every user-specific file lives in **`~/.libre99/`**: the preferences
//! (`libre99.toml`), the log (`libre99.log`), the resume state, and
//! screenshots. Paths here are built from the home directory the frontend
//! finds (`$HOME`, else `%USERPROFILE%`), joined with the host's path
//! separator.

use vstd::prelude::*;

use crate::strings::{owned, push_str};

verus! {

/// `base` joined with the relative name `name` by separator `sep`: a `sep`
/// between them unless `base` is empty or already ends with a separator
/// (`/`, or `sep` itself).
pub open spec fn join_path(base: Seq<char>, name: Seq<char>, sep: char) -> Seq<char> {
    if base.len() == 0 {
        name
    } else if base.last() == '/' || base.last() == sep {
        base + name
    } else {
        base.push(sep) + name
    }
}

/// `base` joined with `name` by separator `sep` (see [`join_path`]).
pub fn join(base: &str, name: &str, sep: char) -> (r: String)
    ensures
        r@ == join_path(base@, name@, sep),
{
    let v = crate::strings::chars_of(base);
    let mut r = owned(base);
    if v.len() > 0 && v[v.len() - 1] != '/' && v[v.len() - 1] != sep {
        r.push(sep);
    }
    push_str(&mut r, name);
    assert(r@ =~= join_path(base@, name@, sep));
    r
}

/// Reads `std::path::MAIN_SEPARATOR`, the host platform's path separator
/// (`/` on Unix, `\\` on Windows). Nothing is claimed of it: which character
/// the host uses is left unsaid.
#[verifier::external_body]
pub(crate) fn main_separator() -> (c: char) {
    std::path::MAIN_SEPARATOR
}

/// The user's home directory from the environment's `HOME` and
/// `USERPROFILE` values: `HOME`, falling back to `USERPROFILE` (a native
/// Windows launch has no `HOME`).
pub fn home_dir<'a>(home: Option<&'a str>, user_profile: Option<&'a str>) -> (r: Option<&'a str>)
    ensures
        r == (if home is Some {
            home
        } else {
            user_profile
        }),
{
    match home {
        Some(h) => Some(h),
        None => user_profile,
    }
}

/// The data directory under home directory `home`, joined by `sep`.
pub open spec fn data_dir_spec(home: Seq<char>, sep: char) -> Seq<char> {
    join_path(home, ".libre99"@, sep)
}

/// A user path under home directory `home` (if known), joined by `sep`:
/// the data directory itself (`name` is `None`) or the entry `name` in it.
pub open spec fn user_path(home: Option<Seq<char>>, name: Option<Seq<char>>, sep: char) -> Option<Seq<char>> {
    match home {
        None => None,
        Some(h) => match name {
            None => Some(data_dir_spec(h, sep)),
            Some(n) => Some(join_path(data_dir_spec(h, sep), n, sep)),
        },
    }
}

/// An optional string by its characters.
pub open spec fn opt_chars(o: Option<&str>) -> Option<Seq<char>> {
    match o {
        Some(s) => Some(s@),
        None => None,
    }
}

/// The user path `name` (the data directory itself when `None`) under
/// `home`, joined by separator `sep` (see [`user_path`]).
pub fn user_path_with(home: Option<&str>, name: Option<&str>, sep: char) -> (r: Option<String>)
    ensures
        match r {
            Some(p) => user_path(opt_chars(home), opt_chars(name), sep) == Some(p@),
            None => user_path(opt_chars(home), opt_chars(name), sep) is None,
        },
{
    match home {
        None => None,
        Some(h) => {
            let d = join(h, ".libre99", sep);
            match name {
                None => Some(d),
                Some(n) => Some(join(d.as_str(), n, sep)),
            }
        },
    }
}

/// `~/.libre99` — the directory holding every user-specific file for this
/// app (preferences, log, save states, screenshots). `home` is the user's
/// home directory, if one is known; the parts are joined by the host's
/// separator.
pub fn data_dir(home: Option<&str>) -> (r: Option<String>)
    ensures
        exists|sep: char|
            #![trigger user_path(opt_chars(home), None, sep)]
            match r {
                Some(p) => user_path(opt_chars(home), None, sep) == Some(p@),
                None => home is None,
            },
{
    let sep = main_separator();
    let r = user_path_with(home, None, sep);
    assert(match r {
        Some(p) => user_path(opt_chars(home), None, sep) == Some(p@),
        None => home is None,
    });
    r
}

/// `~/.libre99/libre99.toml` — the preferences file.
pub fn config_path(home: Option<&str>) -> (r: Option<String>)
    ensures
        exists|sep: char|
            #![trigger user_path(opt_chars(home), Some("libre99.toml"@), sep)]
            match r {
                Some(p) => user_path(opt_chars(home), Some("libre99.toml"@), sep) == Some(p@),
                None => home is None,
            },
{
    let sep = main_separator();
    let r = user_path_with(home, Some("libre99.toml"), sep);
    assert(match r {
        Some(p) => user_path(opt_chars(home), Some("libre99.toml"@), sep) == Some(p@),
        None => home is None,
    });
    r
}

/// `~/.libre99/libre99.log` — the run log (appended across runs).
pub fn log_path(home: Option<&str>) -> (r: Option<String>)
    ensures
        exists|sep: char|
            #![trigger user_path(opt_chars(home), Some("libre99.log"@), sep)]
            match r {
                Some(p) => user_path(opt_chars(home), Some("libre99.log"@), sep) == Some(p@),
                None => home is None,
            },
{
    let sep = main_separator();
    let r = user_path_with(home, Some("libre99.log"), sep);
    assert(match r {
        Some(p) => user_path(opt_chars(home), Some("libre99.log"@), sep) == Some(p@),
        None => home is None,
    });
    r
}

/// `~/.libre99/resume.ti99` — the **resume state**: the one automatic save
/// state, written on exit and by Save (`F6`), loaded at startup and by Load
/// (`F8`).
pub fn state_path(home: Option<&str>) -> (r: Option<String>)
    ensures
        exists|sep: char|
            #![trigger user_path(opt_chars(home), Some("resume.ti99"@), sep)]
            match r {
                Some(p) => user_path(opt_chars(home), Some("resume.ti99"@), sep) == Some(p@),
                None => home is None,
            },
{
    let sep = main_separator();
    let r = user_path_with(home, Some("resume.ti99"), sep);
    assert(match r {
        Some(p) => user_path(opt_chars(home), Some("resume.ti99"@), sep) == Some(p@),
        None => home is None,
    });
    r
}

/// `~/.libre99/screenshots` — where screenshots are written.
pub fn screenshot_dir(home: Option<&str>) -> (r: Option<String>)
    ensures
        exists|sep: char|
            #![trigger user_path(opt_chars(home), Some("screenshots"@), sep)]
            match r {
                Some(p) => user_path(opt_chars(home), Some("screenshots"@), sep) == Some(p@),
                None => home is None,
            },
{
    let sep = main_separator();
    let r = user_path_with(home, Some("screenshots"), sep);
    assert(match r {
        Some(p) => user_path(opt_chars(home), Some("screenshots"@), sep) == Some(p@),
        None => home is None,
    });
    r
}

/// A character of a double-quoted TOML value, escaped: `\` and `"` get a
/// backslash before them.
pub open spec fn toml_escape_char(c: char) -> Seq<char> {
    if c == '\\' {
        seq!['\\', '\\']
    } else if c == '"' {
        seq!['\\', '"']
    } else {
        seq![c]
    }
}

/// A string escaped for a double-quoted TOML value.
pub open spec fn toml_escaped(s: Seq<char>) -> Seq<char>
    decreases s.len(),
{
    if s.len() == 0 {
        seq![]
    } else {
        toml_escaped(s.drop_last()) + toml_escape_char(s.last())
    }
}

/// Escape a string for a double-quoted TOML value: Windows paths carry `\`,
/// which TOML basic strings treat as an escape character.
pub fn toml_escape(s: &str) -> (r: String)
    ensures
        r@ == toml_escaped(s@),
{
    let v = crate::strings::chars_of(s);
    let mut r = String::new();
    let mut i: usize = 0;
    while i < v.len()
        invariant
            i <= v@.len(),
            v@ == s@,
            r@ == toml_escaped(v@.take(i as int)),
        decreases v@.len() - i,
    {
        let c = v[i];
        if c == '\\' {
            r.push('\\');
            r.push('\\');
        } else if c == '"' {
            r.push('\\');
            r.push('"');
        } else {
            r.push(c);
        }
        proof {
            assert(v@.take(i + 1).drop_last() =~= v@.take(i as int));
        }
        i += 1;
        assert(r@ =~= toml_escaped(v@.take(i as int)));
    }
    assert(v@.take(i as int) =~= v@);
    r
}

} // verus!
