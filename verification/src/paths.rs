//! Path normalization and validation: trimming, separator translation,
//! and the trailing-separator rule, together with the checks an input
//! line must pass before any filesystem access.

use vstd::prelude::*;
use crate::text::{trim, trim_seq, push_char};

verus! {

/// The native path separator of the target platform. The caller picks the
/// style once, so the logic itself carries no per-platform branches.
#[derive(Clone, Copy, PartialEq, Eq, Structural, Debug)]
pub enum Separator {
    Slash,
    Backslash,
}

impl Separator {
    /// The separator character itself.
    pub open spec fn spec_char(self) -> char {
        match self {
            Separator::Slash => '/',
            Separator::Backslash => '\\',
        }
    }

    pub fn to_char(self) -> (c: char)
        ensures
            c == self.spec_char(),
    {
        match self {
            Separator::Slash => '/',
            Separator::Backslash => '\\',
        }
    }
}

/// True of the two characters an input may use as a path separator.
pub open spec fn is_sep(c: char) -> bool {
    c == '/' || c == '\\'
}

/// Every separator, of either style, replaced by the native one.
pub open spec fn convert_seps(s: Seq<char>, sep: char) -> Seq<char> {
    s.map_values(|c: char| if is_sep(c) { sep } else { c })
}

/// An already-trimmed path, separator-converted and ending in exactly one
/// native separator.
pub open spec fn ensure_trailing_sep(t: Seq<char>, sep: char) -> Seq<char> {
    let c = convert_seps(t, sep);
    if c.len() > 0 && c.last() == sep {
        c
    } else {
        c.push(sep)
    }
}

/// The full normalization of a raw input line: trim the whitespace,
/// translate the separators, and end the path in one native separator.
pub open spec fn normalize_spec(s: Seq<char>, sep: char) -> Seq<char> {
    ensure_trailing_sep(trim_seq(s), sep)
}

fn convert_seps_str(path: &str, sep: Separator) -> (r: String)
    ensures
        r@ == convert_seps(path@, sep.spec_char()),
{
    let n = path.unicode_len();
    let sc = sep.to_char();
    let mut out = String::new();
    let mut i: usize = 0;
    while i < n
        invariant
            n == path@.len(),
            sc == sep.spec_char(),
            0 <= i <= n,
            out@ == convert_seps(path@, sep.spec_char()).take(i as int),
        decreases n - i,
    {
        let c = path.get_char(i);
        if c == '/' || c == '\\' {
            push_char(&mut out, sc);
        } else {
            push_char(&mut out, c);
        }
        proof {
            assert(out@ =~= convert_seps(path@, sep.spec_char()).take(i + 1));
        }
        i += 1;
    }
    proof {
        assert(convert_seps(path@, sep.spec_char()).take(n as int) =~= convert_seps(
            path@,
            sep.spec_char(),
        ));
    }
    out
}

/// The path with every separator replaced by the native one.
pub fn convert_path_to_os_style(path: &String, sep: Separator) -> (r: String)
    ensures
        r@ == convert_seps(path@, sep.spec_char()),
{
    convert_seps_str(path.as_str(), sep)
}

fn normalize_trimmed(t: &str, sep: Separator) -> (r: String)
    ensures
        r@ == ensure_trailing_sep(t@, sep.spec_char()),
{
    let mut out = convert_seps_str(t, sep);
    let n = t.unicode_len();
    let sc = sep.to_char();
    if n > 0 {
        let last = out.as_str().get_char(n - 1);
        if last == sc {
            return out;
        }
    }
    push_char(&mut out, sc);
    out
}

/// A raw input line made into a usable directory path: trimmed, separator-
/// converted, and ending in one native separator. A trimmed input shorter
/// than two characters is rejected instead of being inspected.
pub fn format_path(path: &String, sep: Separator) -> (r: Option<String>)
    ensures
        match r {
            Some(p) => trim_seq(path@).len() >= 2 && p@ == normalize_spec(
                path@,
                sep.spec_char(),
            ),
            None => trim_seq(path@).len() < 2,
        },
{
    let t = trim(path.as_str());
    let n = t.unicode_len();
    if n < 2 {
        return None;
    }
    Some(normalize_trimmed(t, sep))
}

/// Why an input line was rejected before any filesystem check.
#[derive(Clone, Copy, PartialEq, Eq, Structural, Debug)]
pub enum PathError {
    /// The input was empty or held only whitespace.
    Empty,
    /// The trimmed input was too short to be a usable path.
    TooShort,
}

/// The checks an input line must pass before the filesystem is consulted:
/// the trimmed input may be neither empty nor a single character. On
/// success the normalized path comes back; whether it names an existing
/// directory is for the caller to ask the filesystem.
pub fn check_path(path: &String, sep: Separator) -> (r: Result<String, PathError>)
    ensures
        match r {
            Ok(p) => trim_seq(path@).len() >= 2 && p@ == normalize_spec(path@, sep.spec_char()),
            Err(PathError::Empty) => trim_seq(path@).len() == 0,
            Err(PathError::TooShort) => 0 < trim_seq(path@).len() < 2,
        },
{
    let t = trim(path.as_str());
    let n = t.unicode_len();
    if n == 0 {
        Err(PathError::Empty)
    } else if n < 2 {
        Err(PathError::TooShort)
    } else {
        Ok(normalize_trimmed(t, sep))
    }
}

/// A normalized path always ends in the native separator.
pub proof fn lemma_normalize_ends_with_sep(s: Seq<char>, sep: char)
    ensures
        normalize_spec(s, sep).len() > 0,
        normalize_spec(s, sep).last() == sep,
{
}

/// A path that is already trimmed and in native style, but lacks the
/// trailing separator, gains exactly one: the normalized result is the
/// path itself with a single separator appended.
pub proof fn lemma_normalize_appends_one_sep(s: Seq<char>, sep: char)
    requires
        trim_seq(s) == s,
        convert_seps(s, sep) == s,
        s.len() == 0 || s.last() != sep,
    ensures
        normalize_spec(s, sep) == s.push(sep),
{
}

/// After normalization every separator character is the native one.
pub proof fn lemma_normalize_native_seps(s: Seq<char>, sep: char)
    requires
        is_sep(sep),
    ensures
        forall|i: int|
            0 <= i < normalize_spec(s, sep).len() && is_sep(
                #[trigger] normalize_spec(s, sep)[i],
            ) ==> normalize_spec(s, sep)[i] == sep,
{
    let t = trim_seq(s);
    let c = convert_seps(t, sep);
    assert(forall|i: int| 0 <= i < c.len() && is_sep(#[trigger] c[i]) ==> c[i] == sep);
}

} // verus!
