//! Pure classification helpers used by the scanner: which files are
//! videos, which are sidecars.

use vstd::prelude::*;

use crate::path::{extension, extension_spec};
use crate::text::{chars_of, lower, to_lower_char};

verus! {

/// Recognized video file extensions (lowercase, no leading dot).
pub open spec fn is_video_ext(e: Seq<char>) -> bool {
    ||| e == seq!['m', 'k', 'v']
    ||| e == seq!['m', 'p', '4']
    ||| e == seq!['a', 'v', 'i']
    ||| e == seq!['m', 'o', 'v']
    ||| e == seq!['w', 'm', 'v']
    ||| e == seq!['m', '4', 'v']
    ||| e == seq!['w', 'e', 'b', 'm']
}

/// Recognized sidecar extensions (subtitles, metadata) that travel with
/// the main video file.
pub open spec fn is_sidecar_ext(e: Seq<char>) -> bool {
    ||| e == seq!['s', 'r', 't']
    ||| e == seq!['a', 's', 's']
    ||| e == seq!['s', 's', 'a']
    ||| e == seq!['s', 'u', 'b']
    ||| e == seq!['v', 't', 't']
    ||| e == seq!['n', 'f', 'o']
}

/// The path's extension, lowercased, is a video extension.
pub open spec fn is_video_path(path: Seq<char>) -> bool {
    match extension_spec(path) {
        Some(e) => is_video_ext(lower(e)),
        None => false,
    }
}

/// The path's extension, lowercased, is a sidecar extension.
pub open spec fn is_sidecar_path(path: Seq<char>) -> bool {
    match extension_spec(path) {
        Some(e) => is_sidecar_ext(lower(e)),
        None => false,
    }
}

/// ASCII-lowercased copy.
pub fn lower_vec(v: &Vec<char>) -> (r: Vec<char>)
    ensures
        r@ == lower(v@),
{
    let mut r: Vec<char> = Vec::new();
    let mut i: usize = 0;
    while i < v.len()
        invariant
            i <= v.len(),
            r@ =~= lower(v@.subrange(0, i as int)),
        decreases v.len() - i,
    {
        r.push(to_lower_char(v[i]));
        i = i + 1;
    }
    assert(v@.subrange(0, v.len() as int) =~= v@);
    r
}

/// `v` spells exactly the three characters `a b c`.
fn is3(v: &Vec<char>, a: char, b: char, c: char) -> (r: bool)
    ensures
        r == (v@ == seq![a, b, c]),
{
    let r = v.len() == 3 && v[0] == a && v[1] == b && v[2] == c;
    proof {
        if r {
            assert(v@ =~= seq![a, b, c]);
        }
        if v@ == seq![a, b, c] {
            assert(v@[0] == a && v@[1] == b && v@[2] == c);
        }
    }
    r
}

fn is_video_ext_exec(e: &Vec<char>) -> (r: bool)
    ensures
        r == is_video_ext(e@),
{
    let webm = e.len() == 4 && e[0] == 'w' && e[1] == 'e' && e[2] == 'b' && e[3] == 'm';
    proof {
        if webm {
            assert(e@ =~= seq!['w', 'e', 'b', 'm']);
        }
        if e@ == seq!['w', 'e', 'b', 'm'] {
            assert(e@[0] == 'w' && e@[1] == 'e' && e@[2] == 'b' && e@[3] == 'm');
        }
    }
    is3(e, 'm', 'k', 'v') || is3(e, 'm', 'p', '4') || is3(e, 'a', 'v', 'i') || is3(
        e,
        'm',
        'o',
        'v',
    ) || is3(e, 'w', 'm', 'v') || is3(e, 'm', '4', 'v') || webm
}

fn is_sidecar_ext_exec(e: &Vec<char>) -> (r: bool)
    ensures
        r == is_sidecar_ext(e@),
{
    is3(e, 's', 'r', 't') || is3(e, 'a', 's', 's') || is3(e, 's', 's', 'a') || is3(
        e,
        's',
        'u',
        'b',
    ) || is3(e, 'v', 't', 't') || is3(e, 'n', 'f', 'o')
}

pub fn is_video_chars(path: &Vec<char>) -> (r: bool)
    ensures
        r == is_video_path(path@),
{
    match extension(path) {
        Some(e) => is_video_ext_exec(&lower_vec(&e)),
        None => false,
    }
}

pub fn is_sidecar_chars(path: &Vec<char>) -> (r: bool)
    ensures
        r == is_sidecar_path(path@),
{
    match extension(path) {
        Some(e) => is_sidecar_ext_exec(&lower_vec(&e)),
        None => false,
    }
}

/// Returns true if the given path looks like a video file we care about.
pub fn is_video_file(path: &str) -> (r: bool)
    ensures
        r == is_video_path(path@),
{
    is_video_chars(&chars_of(path))
}

/// Returns true if the path is a sidecar we should move with the video.
pub fn is_sidecar_file(path: &str) -> (r: bool)
    ensures
        r == is_sidecar_path(path@),
{
    is_sidecar_chars(&chars_of(path))
}

} // verus!
