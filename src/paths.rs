//! Path helpers: home-directory expansion, image extensions, cache-safe names.

use vstd::prelude::*;
use crate::text::{chars_of, copy_range, ends_with, ends_with_chars, string_of, text_opt};

verus! {

/// What `str::to_lowercase` returns for a given text.
pub uninterp spec fn lower_of(s: Seq<char>) -> Seq<char>;

/// Relies on `str::to_lowercase`: the result depends on the characters alone,
/// and the empty text stays empty.
#[verifier::external_body]
pub(crate) fn lowercase(s: &str) -> (r: String)
    ensures
        r@ == lower_of(s@),
        s@.len() == 0 ==> r@.len() == 0,
{
    s.to_lowercase()
}

/// Relies on `dirs::home_dir`: the current user's home directory, if one is
/// known, as text. What it is depends on the environment.
#[verifier::external_body]
fn home_dir() -> (r: Option<String>) {
    dirs::home_dir().map(|p| p.to_string_lossy().into_owned())
}

/// `s` without its leading slashes.
pub open spec fn skip_slashes(s: Seq<char>) -> Seq<char>
    decreases s.len(),
{
    if s.len() > 0 && s[0] == '/' {
        skip_slashes(s.drop_first())
    } else {
        s
    }
}

/// `rest` appended to `base` as a path, with one separator between them.
pub open spec fn join_path(base: Seq<char>, rest: Seq<char>) -> Seq<char> {
    if base.len() == 0 {
        rest
    } else if base.last() == '/' {
        base + rest
    } else {
        base + seq!['/'] + rest
    }
}

/// Whether `p` starts with the home-directory shorthand: `~` alone or `~/`.
pub open spec fn starts_with_tilde(p: Seq<char>) -> bool {
    p.len() >= 1 && p[0] == '~' && (p.len() == 1 || p[1] == '/')
}

/// `p` with a leading `~` replaced by `home`; `.` where no home is known.
/// Other paths are returned as they are.
pub open spec fn tilde_expanded(p: Seq<char>, home: Option<Seq<char>>) -> Seq<char> {
    if starts_with_tilde(p) {
        match home {
            None => seq!['.'],
            Some(h) => {
                let rest = skip_slashes(p.drop_first());
                if rest.len() == 0 {
                    h
                } else {
                    join_path(h, rest)
                }
            },
        }
    } else {
        p
    }
}

/// Expands a leading `~` against the given home directory.
pub fn expand_tilde_in(path: &str, home: &Option<String>) -> (r: String)
    ensures
        r@ == tilde_expanded(path@, text_opt(*home)),
{
    let v = chars_of(path);
    if !(v.len() >= 1 && v[0] == '~' && (v.len() == 1 || v[1] == '/')) {
        return path.to_owned();
    }
    match home {
        None => {
            let mut dot: Vec<char> = Vec::new();
            dot.push('.');
            proof {
                assert(dot@ =~= seq!['.']);
            }
            string_of(&dot)
        },
        Some(h) => {
            let mut k: usize = 1;
            while k < v.len() && v[k] == '/'
                invariant
                    1 <= k <= v@.len(),
                    skip_slashes(v@.drop_first()) == skip_slashes(v@.subrange(k as int, v@.len() as int)),
                decreases v@.len() - k,
            {
                assert(v@.subrange(k as int, v@.len() as int).drop_first() =~= v@.subrange(
                    k + 1,
                    v@.len() as int,
                ));
                k = k + 1;
            }
            assert(v@.drop_first() =~= v@.subrange(1, v@.len() as int));
            let rest = copy_range(&v, k, v.len());
            if rest.len() == 0 {
                return h.clone();
            }
            let base = chars_of(h.as_str());
            let mut out = copy_range(&base, 0, base.len());
            assert(base@.subrange(0, base@.len() as int) =~= base@);
            if base.len() > 0 && base[base.len() - 1] != '/' {
                out.push('/');
            }
            let mut j: usize = 0;
            let ghost start = out@;
            while j < rest.len()
                invariant
                    j <= rest@.len(),
                    out@ == start + rest@.take(j as int),
                decreases rest@.len() - j,
            {
                out.push(rest[j]);
                assert(out@ =~= start + rest@.take(j + 1));
                j = j + 1;
            }
            assert(rest@.take(j as int) =~= rest@);
            proof {
                if base@.len() > 0 && base@.last() != '/' {
                    assert(start =~= base@ + seq!['/']);
                }
                assert(out@ =~= join_path(base@, rest@));
            }
            string_of(&out)
        },
    }
}

/// Expands a leading `~` against the current user's home directory.
pub fn expand_tilde(path: &str) -> (r: String)
    ensures
        exists|home: Option<Seq<char>>| r@ == tilde_expanded(path@, home),
        !starts_with_tilde(path@) ==> r@ == path@,
{
    let home = home_dir();
    let r = expand_tilde_in(path, &home);
    assert(r@ == tilde_expanded(path@, text_opt(home)));
    r
}

/// Whether a lower-cased path names an image by its extension.
pub open spec fn has_image_extension(lower: Seq<char>) -> bool {
    ends_with(lower, ".jpg"@) || ends_with(lower, ".jpeg"@) || ends_with(lower, ".png"@)
        || ends_with(lower, ".gif"@) || ends_with(lower, ".bmp"@) || ends_with(lower, ".webp"@)
}

/// Whether `path` ends, ignoring case, in `.jpg`, `.jpeg`, `.png`, `.gif`, `.bmp` or `.webp`.
pub fn is_image_file(path: &str) -> (r: bool)
    ensures
        r == has_image_extension(lower_of(path@)),
{
    let lower = lowercase(path);
    is_image_name(lower.as_str())
}

/// Whether an already lower-cased path ends in an image extension.
pub fn is_image_name(lower: &str) -> (r: bool)
    ensures
        r == has_image_extension(lower@),
{
    let v = chars_of(lower);
    ends_with_chars(&v, &chars_of(".jpg")) || ends_with_chars(&v, &chars_of(".jpeg"))
        || ends_with_chars(&v, &chars_of(".png")) || ends_with_chars(&v, &chars_of(".gif"))
        || ends_with_chars(&v, &chars_of(".bmp")) || ends_with_chars(&v, &chars_of(".webp"))
}

/// Whether `c` is a control character (general category Cc).
pub open spec fn is_control(c: char) -> bool {
    (c as u32) <= 0x1f || (0x7f <= (c as u32) <= 0x9f)
}

/// The character that stands for `c` in a file name.
pub open spec fn safe_char(c: char) -> char {
    if c == '/' || c == '\\' || c == ':' || c == '*' || c == '?' || c == '"' || c == '<' || c
        == '>' || c == '|' || is_control(c) {
        '_'
    } else {
        c
    }
}

/// `path` with each separator, reserved or control character replaced by `_`.
pub fn path_to_safe_filename(path: &str) -> (r: String)
    ensures
        r@ == path@.map_values(|c: char| safe_char(c)),
{
    let v = chars_of(path);
    let mut out: Vec<char> = Vec::new();
    let mut i: usize = 0;
    while i < v.len()
        invariant
            i <= v@.len(),
            out@ == v@.take(i as int).map_values(|c: char| safe_char(c)),
        decreases v@.len() - i,
    {
        let c = v[i];
        let n = c as u32;
        let bad = c == '/' || c == '\\' || c == ':' || c == '*' || c == '?' || c == '"' || c
            == '<' || c == '>' || c == '|' || n <= 0x1f || (0x7f <= n && n <= 0x9f);
        if bad {
            out.push('_');
        } else {
            out.push(c);
        }
        assert(out@ =~= v@.take(i + 1).map_values(|c: char| safe_char(c)));
        i = i + 1;
    }
    assert(v@.take(i as int) =~= v@);
    string_of(&out)
}

} // verus!
