//! Where inside a content pack a requested asset or map may sit.

use vstd::prelude::*;
use crate::text::{has_prefix, push_char, strip_prefix};

verus! {

/// `s` without the prefix `p`, as a one-element list, or nothing where `s`
/// does not start with `p`.
pub open spec fn stripped(s: Seq<char>, p: Seq<char>) -> Seq<Seq<char>> {
    if has_prefix(s, p) {
        seq![s.skip(p.len() as int)]
    } else {
        Seq::empty()
    }
}

/// The paths, relative to a pack's root, to try for `requested`: the path as
/// requested, then the path with `assets/maps/`, with `assets/` and with
/// `maps/` taken off its front, for each of these it starts with.
pub open spec fn path_candidates(requested: Seq<char>) -> Seq<Seq<char>> {
    seq![requested] + stripped(requested, "assets/maps/"@) + stripped(requested, "assets/"@)
        + stripped(requested, "maps/"@)
}

/// Push `s` stripped of `prefix` onto `out`, if it starts with it.
fn push_stripped(out: &mut Vec<String>, s: &str, prefix: &str)
    ensures
        final(out)@.map_values(|t: String| t@) == old(out)@.map_values(|t: String| t@) + stripped(
            s@,
            prefix@,
        ),
{
    match strip_prefix(s, prefix) {
        Some(rest) => {
            out.push(rest.to_string());
        },
        None => {},
    }
    assert(out@.map_values(|t: String| t@) =~= old(out)@.map_values(|t: String| t@) + stripped(
        s@,
        prefix@,
    ));
}

/// The relative paths at which a pack may hold `requested`, in the order to
/// try them (see [`path_candidates`]); the caller joins each to the pack's
/// root.
pub fn pack_path_candidates(requested: &str) -> (r: Vec<String>)
    ensures
        r@.map_values(|t: String| t@) == path_candidates(requested@),
{
    let mut out: Vec<String> = Vec::new();
    out.push(requested.to_string());
    assert(out@.map_values(|t: String| t@) =~= seq![requested@]);
    push_stripped(&mut out, requested, "assets/maps/");
    push_stripped(&mut out, requested, "assets/");
    push_stripped(&mut out, requested, "maps/");
    out
}

/// `s` with every backslash turned into a forward slash.
pub open spec fn with_forward_slashes(s: Seq<char>) -> Seq<char> {
    s.map_values(|c: char| if c == '\\' { '/' } else { c })
}

/// A path's text with its separators written as forward slashes, as asset
/// paths are handed to the renderer.
pub fn forward_slashes(path: &str) -> (r: String)
    ensures
        r@ == with_forward_slashes(path@),
{
    let n = path.unicode_len();
    let mut out = String::new();
    let mut i: usize = 0;
    while i < n
        invariant
            n == path@.len(),
            i <= n,
            out@ == with_forward_slashes(path@.take(i as int)),
        decreases n - i,
    {
        let c = path.get_char(i);
        if c == '\\' {
            push_char(&mut out, '/');
        } else {
            push_char(&mut out, c);
        }
        i = i + 1;
        assert(out@ =~= with_forward_slashes(path@.take(i as int)));
    }
    assert(path@.take(n as int) =~= path@);
    out
}

} // verus!
