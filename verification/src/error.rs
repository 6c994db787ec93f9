//! The library's error type: each variant names one refusal and carries the
//! values its message mentions.

use vstd::prelude::*;

use crate::origin::{kind_dir, Kind};
use crate::text::{chars_of, i64_to_string, push_str, signed_decimal, string_from_chars};

verus! {

#[derive(Debug, Clone, PartialEq, Eq)]
pub enum LabError {
    /// The platform has no config directory.
    NoConfigDir,
    /// The platform has no data directory.
    NoDataDir,
    /// The platform has no cache directory.
    NoCacheDir,
    /// A reference that is not of the form `<origin>/<name>`.
    NotQualified(String),
    /// No registered origin has this name.
    NoSuchOrigin(String),
    /// An `<origin>/<name>` reference names an origin that is not
    /// registered.
    UnknownOrigin(String),
    /// A local origin whose registered path does not exist: (name, path).
    LocalOriginMissing(String, String),
    /// An item missing from a local origin: (kind, reference, directory).
    ItemNotFound(Kind, String, String),
    /// An item of a remote origin that is not installed: (kind, reference).
    ItemNotInstalled(Kind, String),
    /// `install` asked of a local origin.
    LocalOriginNoInstall(String),
    /// Update asked of a local origin.
    LocalOriginNoUpdate(String),
    /// The named item is not in the origin's manifest: (origin, item).
    NoSuchItem(String, String),
    /// The origin's manifest lists nothing.
    EmptyManifest(String),
    /// The manifest lists an item whose directory is missing:
    /// (kind, item, directory, origin).
    ManifestItemMissing(Kind, String, String, String),
    /// A bundle refers to a case of an unregistered origin:
    /// (bundle, case reference, origin).
    UnregisteredCaseOrigin(String, String, String),
    /// Nothing is installed under `<origin>/<item>`: (origin, item).
    NotInstalled(String, String),
    /// A remote origin that has not been cloned yet.
    RemoteNotCloned(String),
    /// A local origin used where a remote one is needed (`origin remote rm`).
    NotRemote(String),
    /// A remote origin used where a local one is needed (`origin local rm`).
    NotLocal(String),
    /// Neither `--select` nor `--all` was given; true for origin-qualified names.
    NoSelection(bool),
    /// Nothing matched a run, list or build request; names what was sought.
    NothingSelected(String),
    /// A hook, build or install container exited non-zero: (what, exit code).
    ContainerFailed(String, i64),
    /// An image neither present, pullable nor buildable: (image, context dir).
    ImageUnavailable(String, String),
    /// A plugin project build produced no binaries.
    NoPluginBinaries(String),
    /// `HOME` is not set, so the plugin cache has no place.
    HomeNotSet,
    /// The published Loadsmith image is neither present nor pullable:
    /// (image, the pull error's text).
    LoadsmithImageUnavailable(String, String),
    /// A path that had to exist does not.
    NotFound(String),
    /// Neither an origin name nor `--all` was given.
    NoOriginGiven,
}

/// The message the command line prints for an error.
pub open spec fn message_spec(e: LabError) -> Seq<char> {
    match e {
        LabError::NoConfigDir => "no config dir available on this platform"@,
        LabError::NoDataDir => "no data dir available on this platform"@,
        LabError::NoCacheDir => "no cache dir available on this platform"@,
        LabError::NotQualified(q) => "expected an <origin>/<name> reference, got '"@ + q@
            + "' (names are always namespaced)"@,
        LabError::NoSuchOrigin(n) => "no such origin: '"@ + n@ + "'"@,
        LabError::UnknownOrigin(n) => "no such origin: '"@ + n@
            + "' (see `loadsmith-lab origin list`)"@,
        LabError::LocalOriginMissing(n, p) => "local origin '"@ + n@ + "' path does not exist: "@
            + p@,
        LabError::ItemNotFound(k, q, d) => kind_dir(k) + " '"@ + q@ + "' not found at "@ + d@
            + " (local origin)"@,
        LabError::ItemNotInstalled(k, q) => kind_dir(k) + " '"@ + q@
            + "' is not installed — run `loadsmith-lab install "@ + q@ + "`"@,
        LabError::LocalOriginNoInstall(o) => "origin '"@ + o@
            + "' is a local origin — its content is used live, no install needed"@,
        LabError::LocalOriginNoUpdate(o) => "origin '"@ + o@
            + "' is a local origin — nothing to update (it's read live)"@,
        LabError::NoSuchItem(o, i) => "origin '"@ + o@ + "' has no item named '"@ + i@
            + "' in its manifest"@,
        LabError::EmptyManifest(o) => "origin '"@ + o@ + "' manifest is empty"@,
        LabError::ManifestItemMissing(k, n, d, o) => "manifest lists "@ + kind_dir(k) + "."@ + n@
            + " but "@ + d@ + " is missing in origin '"@ + o@ + "'"@,
        LabError::UnregisteredCaseOrigin(b, c, o) => "bundle '"@ + b@ + "' references case '"@
            + c@ + "' from unregistered origin '"@ + o@ + "'"@,
        LabError::NotInstalled(o, i) => o@ + "/"@ + i@ + " is not installed"@,
        LabError::RemoteNotCloned(n) => "remote origin '"@ + n@
            + "' is not cloned yet — run a command that fetches it (e.g. `loadsmith-lab origin show "@
            + n@ + "`)"@,
        LabError::NotRemote(n) => "origin '"@ + n@ + "' is a local origin — use `origin local rm`"@,
        LabError::NotLocal(n) => "origin '"@ + n@ + "' is a remote origin — use `origin remote rm`"@,
        LabError::NoSelection(qualified) => if qualified {
            "specify --select <origin>/<name> or --all"@
        } else {
            "specify --select <name> or --all"@
        },
        LabError::NothingSelected(w) => "no matching "@ + w@ + " found"@,
        LabError::ContainerFailed(w, code) => w@ + " failed (exit "@ + signed_decimal(code as int)
            + ")"@,
        LabError::ImageUnavailable(i, d) => "image "@ + i@
            + " not found locally or in registry, and no Dockerfile found at "@ + d@,
        LabError::NoPluginBinaries(p) => "no loadsmith-* binaries produced building "@ + p@,
        LabError::HomeNotSet => "HOME not set"@,
        LabError::LoadsmithImageUnavailable(i, err) => "loadsmith image '"@ + i@
            + "' not found locally and pull failed: "@ + err@
            + "\nhint: pass --loadsmith <binary | project dir> to run a local core, or publish/tag the image first"@,
        LabError::NotFound(p) => "not found: "@ + p@,
        LabError::NoOriginGiven => "specify an origin name or --all"@,
    }
}

fn cat2(a: &str, b: &str) -> (r: String)
    ensures
        r@ == a@ + b@,
{
    let mut v = chars_of(a);
    push_str(&mut v, b);
    string_from_chars(v.as_slice())
}

fn cat3(a: &str, b: &str, c: &str) -> (r: String)
    ensures
        r@ == a@ + b@ + c@,
{
    let mut v = chars_of(a);
    push_str(&mut v, b);
    push_str(&mut v, c);
    string_from_chars(v.as_slice())
}

fn cat4(a: &str, b: &str, c: &str, d: &str) -> (r: String)
    ensures
        r@ == a@ + b@ + c@ + d@,
{
    let mut v = chars_of(a);
    push_str(&mut v, b);
    push_str(&mut v, c);
    push_str(&mut v, d);
    string_from_chars(v.as_slice())
}

fn cat6(a: &str, b: &str, c: &str, d: &str, e: &str, f: &str) -> (r: String)
    ensures
        r@ == a@ + b@ + c@ + d@ + e@ + f@,
{
    let mut v = chars_of(a);
    push_str(&mut v, b);
    push_str(&mut v, c);
    push_str(&mut v, d);
    push_str(&mut v, e);
    push_str(&mut v, f);
    string_from_chars(v.as_slice())
}

fn cat5(a: &str, b: &str, c: &str, d: &str, e: &str) -> (r: String)
    ensures
        r@ == a@ + b@ + c@ + d@ + e@,
{
    let mut v = chars_of(a);
    push_str(&mut v, b);
    push_str(&mut v, c);
    push_str(&mut v, d);
    push_str(&mut v, e);
    string_from_chars(v.as_slice())
}

fn cat7(a: &str, b: &str, c: &str, d: &str, e: &str, f: &str, g: &str) -> (r: String)
    ensures
        r@ == a@ + b@ + c@ + d@ + e@ + f@ + g@,
{
    let mut v = chars_of(a);
    push_str(&mut v, b);
    push_str(&mut v, c);
    push_str(&mut v, d);
    push_str(&mut v, e);
    push_str(&mut v, f);
    push_str(&mut v, g);
    string_from_chars(v.as_slice())
}

impl LabError {
    /// The message the command line prints for this error.
    pub fn message(&self) -> (r: String)
        ensures
            r@ == message_spec(*self),
    {
        match self {
            LabError::NoConfigDir => "no config dir available on this platform".to_owned(),
            LabError::NoDataDir => "no data dir available on this platform".to_owned(),
            LabError::NoCacheDir => "no cache dir available on this platform".to_owned(),
            LabError::NotQualified(q) => cat3(
                "expected an <origin>/<name> reference, got '",
                q.as_str(),
                "' (names are always namespaced)",
            ),
            LabError::NoSuchOrigin(n) => cat3("no such origin: '", n.as_str(), "'"),
            LabError::UnknownOrigin(n) => cat3(
                "no such origin: '",
                n.as_str(),
                "' (see `loadsmith-lab origin list`)",
            ),
            LabError::LocalOriginMissing(n, p) => cat4(
                "local origin '",
                n.as_str(),
                "' path does not exist: ",
                p.as_str(),
            ),
            LabError::ItemNotFound(k, q, d) => cat6(
                k.dir(),
                " '",
                q.as_str(),
                "' not found at ",
                d.as_str(),
                " (local origin)",
            ),
            LabError::ItemNotInstalled(k, q) => cat6(
                k.dir(),
                " '",
                q.as_str(),
                "' is not installed — run `loadsmith-lab install ",
                q.as_str(),
                "`",
            ),
            LabError::LocalOriginNoInstall(o) => cat3(
                "origin '",
                o.as_str(),
                "' is a local origin — its content is used live, no install needed",
            ),
            LabError::LocalOriginNoUpdate(o) => cat3(
                "origin '",
                o.as_str(),
                "' is a local origin — nothing to update (it's read live)",
            ),
            LabError::NoSuchItem(o, i) => cat5(
                "origin '",
                o.as_str(),
                "' has no item named '",
                i.as_str(),
                "' in its manifest",
            ),
            LabError::EmptyManifest(o) => cat3("origin '", o.as_str(), "' manifest is empty"),
            LabError::ManifestItemMissing(k, n, d, o) => {
                let head = cat5("manifest lists ", k.dir(), ".", n.as_str(), " but ");
                cat5(head.as_str(), d.as_str(), " is missing in origin '", o.as_str(), "'")
            },
            LabError::UnregisteredCaseOrigin(b, c, o) => cat7(
                "bundle '",
                b.as_str(),
                "' references case '",
                c.as_str(),
                "' from unregistered origin '",
                o.as_str(),
                "'",
            ),
            LabError::NotInstalled(o, i) => cat4(o.as_str(), "/", i.as_str(), " is not installed"),
            LabError::RemoteNotCloned(n) => cat5(
                "remote origin '",
                n.as_str(),
                "' is not cloned yet — run a command that fetches it (e.g. `loadsmith-lab origin show ",
                n.as_str(),
                "`)",
            ),
            LabError::NotRemote(n) => cat3(
                "origin '",
                n.as_str(),
                "' is a local origin — use `origin local rm`",
            ),
            LabError::NotLocal(n) => cat3(
                "origin '",
                n.as_str(),
                "' is a remote origin — use `origin remote rm`",
            ),
            LabError::NoSelection(qualified) => if *qualified {
                "specify --select <origin>/<name> or --all".to_owned()
            } else {
                "specify --select <name> or --all".to_owned()
            },
            LabError::NothingSelected(w) => cat3("no matching ", w.as_str(), " found"),
            LabError::ContainerFailed(w, code) => {
                let c = i64_to_string(*code);
                cat4(w.as_str(), " failed (exit ", c.as_str(), ")")
            },
            LabError::ImageUnavailable(i, d) => cat4(
                "image ",
                i.as_str(),
                " not found locally or in registry, and no Dockerfile found at ",
                d.as_str(),
            ),
            LabError::NoPluginBinaries(p) => cat2("no loadsmith-* binaries produced building ", p.as_str()),
            LabError::HomeNotSet => "HOME not set".to_owned(),
            LabError::LoadsmithImageUnavailable(i, err) => cat5(
                "loadsmith image '",
                i.as_str(),
                "' not found locally and pull failed: ",
                err.as_str(),
                "\nhint: pass --loadsmith <binary | project dir> to run a local core, or publish/tag the image first",
            ),
            LabError::NotFound(p) => cat2("not found: ", p.as_str()),
            LabError::NoOriginGiven => "specify an origin name or --all".to_owned(),
        }
    }
}

} // verus!
