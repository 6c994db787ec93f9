//! Paths as strings, joined the way `Path::join` joins them on Unix, and the
//! filesystem queries the resolution logic consults.

use vstd::prelude::*;

use crate::text::{chars_of, string_from_chars};

verus! {

/// `Path::join` on Unix: an absolute `rel` replaces `base`; otherwise a `/`
/// goes between them unless `base` is empty or already ends in one.
pub open spec fn path_join(base: Seq<char>, rel: Seq<char>) -> Seq<char> {
    if rel.len() > 0 && rel[0] == '/' {
        rel
    } else if base.len() == 0 {
        rel
    } else if base.last() == '/' {
        base + rel
    } else {
        base + seq!['/'] + rel
    }
}

pub fn join(base: &str, rel: &str) -> (r: String)
    ensures
        r@ == path_join(base@, rel@),
{
    let mut b = chars_of(base);
    let mut r = chars_of(rel);
    if r.len() > 0 && r[0] == '/' {
        return string_from_chars(r.as_slice());
    }
    if b.len() > 0 && b[b.len() - 1] != '/' {
        b.push('/');
    }
    b.append(&mut r);
    string_from_chars(b.as_slice())
}

/// `Path::exists`. What it answers depends on the filesystem at the time of
/// the call, so nothing is stated of the result.
#[verifier::external_body]
pub(crate) fn path_exists(path: &str) -> bool {
    std::path::Path::new(path).exists()
}

/// Asks the filesystem whether `path` exists. Nothing is stated of the
/// answer; every question asked, with the answer it got, is on record as
/// `call_ensures(probe_path, (path,), answer)`, which `answered` reads.
pub fn probe_path(path: String) -> bool {
    path_exists(path.as_str())
}

/// The filesystem was asked whether `path` exists and answered `b`.
pub open spec fn answered(path: Seq<char>, b: bool) -> bool {
    exists|s: String| s@ == path && #[trigger] call_ensures(probe_path, (s,), b)
}

/// The filesystem, as far as the questions asked show, agrees with `fs`:
/// every answer to whether a path exists is `fs` of that path.
pub open spec fn probes_agree(fs: spec_fn(Seq<char>) -> bool) -> bool {
    forall|s: String, b: bool| #[trigger] call_ensures(probe_path, (s,), b) ==> b == fs(s@)
}

/// Under a filesystem that answers consistently, an answer on record is
/// the filesystem's.
pub proof fn lemma_answered(fs: spec_fn(Seq<char>) -> bool, path: Seq<char>, b: bool)
    requires
        probes_agree(fs),
        answered(path, b),
    ensures
        b == fs(path),
{
    let s = choose|s: String| s@ == path && #[trigger] call_ensures(probe_path, (s,), b);
}
} // verus!
