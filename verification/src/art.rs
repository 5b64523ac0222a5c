//! Album-art source policy: which URL schemes are accepted, which local
//! paths may be read, and the size ceiling.  Fetching and reading are
//! the caller's concern; these checks decide what it may do.

use vstd::prelude::*;
use vstd::utf8::encode_utf8;

use crate::text::{has_prefix, has_prefix_exec};

verus! {

/// The bytes of `"file://"`.
pub open spec fn file_scheme() -> Seq<u8> {
    seq![102u8, 105u8, 108u8, 101u8, 58u8, 47u8, 47u8]
}

/// The bytes of `"http://"`.
pub open spec fn http_scheme() -> Seq<u8> {
    seq![104u8, 116u8, 116u8, 112u8, 58u8, 47u8, 47u8]
}

/// The bytes of `"https://"`.
pub open spec fn https_scheme() -> Seq<u8> {
    seq![104u8, 116u8, 116u8, 112u8, 115u8, 58u8, 47u8, 47u8]
}

fn file_scheme_exec() -> (r: Vec<u8>)
    ensures
        r@ =~= file_scheme(),
{
    let mut v: Vec<u8> = Vec::new();
    v.push(102);
    v.push(105);
    v.push(108);
    v.push(101);
    v.push(58);
    v.push(47);
    v.push(47);
    v
}

fn http_scheme_exec() -> (r: Vec<u8>)
    ensures
        r@ =~= http_scheme(),
{
    let mut v: Vec<u8> = Vec::new();
    v.push(104);
    v.push(116);
    v.push(116);
    v.push(112);
    v.push(58);
    v.push(47);
    v.push(47);
    v
}

fn https_scheme_exec() -> (r: Vec<u8>)
    ensures
        r@ =~= https_scheme(),
{
    let mut v: Vec<u8> = Vec::new();
    v.push(104);
    v.push(116);
    v.push(116);
    v.push(112);
    v.push(115);
    v.push(58);
    v.push(47);
    v.push(47);
    v
}

/// How one art reference may be fetched.
#[derive(Clone, Copy, Debug, PartialEq, Eq, Structural)]
pub enum ArtScheme {
    /// A `file://` reference: resolve it, then hold the canonical path
    /// against the allow-list before any read.
    LocalFile,
    /// An `http://` or `https://` reference for the pooled client.
    Remote,
    /// Anything else: no art.
    Unsupported,
}

pub open spec fn classify_art_url_spec(url: Seq<u8>) -> ArtScheme {
    if has_prefix(url, file_scheme()) {
        ArtScheme::LocalFile
    } else if has_prefix(url, http_scheme()) || has_prefix(url, https_scheme()) {
        ArtScheme::Remote
    } else {
        ArtScheme::Unsupported
    }
}

/// Classify an art reference by its scheme.
pub fn classify_art_url(url: &str) -> (r: ArtScheme)
    ensures
        r == classify_art_url_spec(encode_utf8(url@)),
{
    let bytes = url.as_bytes();
    let file_m = file_scheme_exec();
    if has_prefix_exec(bytes, file_m.as_slice()) {
        return ArtScheme::LocalFile;
    }
    let http_m = http_scheme_exec();
    if has_prefix_exec(bytes, http_m.as_slice()) {
        return ArtScheme::Remote;
    }
    let https_m = https_scheme_exec();
    if has_prefix_exec(bytes, https_m.as_slice()) {
        return ArtScheme::Remote;
    }
    ArtScheme::Unsupported
}

/// Componentwise path prefix: the prefix's bytes open the path, and the
/// match ends on a component boundary, so `/tmp` covers `/tmp/a.png`
/// but not `/tmpfoo`.
pub open spec fn path_has_prefix(path: Seq<u8>, prefix: Seq<u8>) -> bool {
    &&& prefix.len() > 0
    &&& has_prefix(path, prefix)
    &&& (path.len() == prefix.len() || prefix.last() == 47 || path[prefix.len() as int] == 47)
}

fn path_has_prefix_exec(path: &[u8], prefix: &[u8]) -> (r: bool)
    ensures
        r == path_has_prefix(path@, prefix@),
{
    let p_len = prefix.len();
    if p_len == 0 {
        return false;
    }
    if !has_prefix_exec(path, prefix) {
        return false;
    }
    path.len() == p_len || prefix[p_len - 1] == 47 || path[p_len] == 47
}

/// Spec-level image of the allow-list.
pub open spec fn prefix_views(prefixes: Seq<String>) -> Seq<Seq<u8>> {
    prefixes.map_values(|p: String| encode_utf8(p@))
}

/// The canonical path lies under one of the allowed directories.
pub open spec fn art_path_allowed(path: Seq<u8>, prefixes: Seq<Seq<u8>>) -> bool {
    exists|i: int| 0 <= i < prefixes.len() && path_has_prefix(path, prefixes[i])
}

/// Hold a canonicalized local art path against the allow-list of safe
/// directories.  Only a path under one of them may be read; everything
/// else yields "no art", with no read attempted.
pub fn is_safe_album_art_path(path: &str, safe_prefixes: &Vec<String>) -> (r: bool)
    ensures
        r == art_path_allowed(encode_utf8(path@), prefix_views(safe_prefixes@)),
{
    let ghost pv = prefix_views(safe_prefixes@);
    let bytes = path.as_bytes();
    let n = safe_prefixes.len();
    let mut i: usize = 0;
    while i < n
        invariant
            n == safe_prefixes@.len(),
            pv == prefix_views(safe_prefixes@),
            bytes@ == encode_utf8(path@),
            i <= n,
            forall|j: int| 0 <= j < i ==> !path_has_prefix(encode_utf8(path@), pv[j]),
        decreases n - i,
    {
        if path_has_prefix_exec(bytes, safe_prefixes[i].as_str().as_bytes()) {
            proof {
                assert(path_has_prefix(encode_utf8(path@), pv[i as int]));
            }
            return true;
        }
        i = i + 1;
    }
    false
}

/// What a change of art reference calls for on the display.
#[derive(Clone, Copy, Debug, PartialEq, Eq, Structural)]
pub enum ArtTransition {
    /// A new reference: fetch it in the background.
    Load,
    /// The reference went away: drop the displayed art.
    Clear,
    /// Nothing changed: keep what is shown.
    Keep,
}

pub open spec fn art_transition_spec(
    current: Option<Seq<char>>,
    fresh: Option<Seq<char>>,
) -> ArtTransition {
    match (current, fresh) {
        (Option::None, Option::Some(_)) => ArtTransition::Load,
        (Option::Some(o), Option::Some(n)) => if o != n {
            ArtTransition::Load
        } else {
            ArtTransition::Keep
        },
        (Option::Some(_), Option::None) => ArtTransition::Clear,
        (Option::None, Option::None) => ArtTransition::Keep,
    }
}

/// Compare the art reference on display with a freshly extracted one
/// and decide whether to fetch, clear, or keep.
pub fn art_transition(current: &Option<String>, fresh: &Option<String>) -> (r: ArtTransition)
    ensures
        r == art_transition_spec(
            crate::player::view_of_opt_string(*current),
            crate::player::view_of_opt_string(*fresh),
        ),
{
    match (current, fresh) {
        (Option::None, Option::Some(_)) => ArtTransition::Load,
        (Option::Some(o), Option::Some(n)) => {
            if !crate::text::str_eq(o.as_str(), n.as_str()) {
                ArtTransition::Load
            } else {
                ArtTransition::Keep
            }
        },
        (Option::Some(_), Option::None) => ArtTransition::Clear,
        (Option::None, Option::None) => ArtTransition::Keep,
    }
}

/// Ceiling on fetched or read art, in bytes.
pub const MAX_ART_BYTES: usize = 10 * 1024 * 1024;

/// Whether a fetched or read art blob may be kept: anything over the
/// ceiling yields "no art" rather than an error.
pub fn art_within_size_limit(len: usize) -> (r: bool)
    ensures
        r == (len <= MAX_ART_BYTES),
{
    len <= MAX_ART_BYTES
}

} // verus!
