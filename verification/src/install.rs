//! Installing remote-origin content into the workdir, as a state machine the
//! caller drives: it performs each requested action (reading a manifest,
//! copying an item directory, reading a bundle file) and reports back.
//!
//! Installing a bundle also installs, recursively and across origins, every
//! case the bundle lists. Each item (a kind, an origin and a name) is copied
//! at most once per run, so a case pulled in both directly and as a
//! dependency is copied once, a name listed under two kinds is copied under
//! each, and bundles that refer to each other cannot recurse forever.

use vstd::prelude::*;

use crate::error::LabError;
use crate::origin::{
    installed_item_dir, installed_item_path, local_item_dir, local_item_path,
    spec_category, spec_find, spec_is_git, spec_is_path, split_qualified, workdir, Config,
    Kind, Manifest, OriginConfig, OriginSpec,
};
use crate::paths::{join, path_join};
use crate::text::{opt_str_view, opt_view, split_once_spec, str_eq, string_views};

verus! {

// --- which manifest entries a request covers ---------------------------------

/// The names of a category that a request covers: all of them, or only the
/// named item.
pub open spec fn names_for(entries: Seq<(String, String)>, item: Option<Seq<char>>) -> Seq<
    Seq<char>,
> {
    entries.map_values(|e: (String, String)| e.0@).filter(
        |n: Seq<char>|
            match item {
                Some(i) => n == i,
                None => true,
            },
    )
}

pub open spec fn tagged(kind: Kind, names: Seq<Seq<char>>) -> Seq<(Kind, Seq<char>)> {
    names.map_values(|n: Seq<char>| (kind, n))
}

/// The entries an install request covers, in the order they are installed:
/// cases, then bundles, then images, each in manifest order.
pub open spec fn install_entries(m: Manifest, item: Option<Seq<char>>) -> Seq<(Kind, Seq<char>)> {
    tagged(Kind::Cases, names_for(m.cases@, item)) + tagged(Kind::Bundles, names_for(m.bundles@, item))
        + tagged(Kind::Images, names_for(m.images@, item))
}

pub open spec fn entry_views(v: Seq<(Kind, String)>) -> Seq<(Kind, Seq<char>)> {
    v.map_values(|e: (Kind, String)| (e.0, e.1@))
}

fn collect_names(
    entries: &Vec<(String, String)>,
    kind: Kind,
    item: Option<&str>,
    out: &mut Vec<(Kind, String)>,
)
    ensures
        entry_views(final(out)@) == entry_views(old(out)@) + tagged(
            kind,
            names_for(entries@, opt_str_view(item)),
        ),
{
    let ghost start = entry_views(out@);
    let ghost it = opt_str_view(item);
    let mut i: usize = 0;
    while i < entries.len()
        invariant
            i <= entries@.len(),
            it == opt_str_view(item),
            entry_views(out@) =~= start + tagged(kind, names_for(entries@.take(i as int), it)),
        decreases entries.len() - i,
    {
        proof {
            reveal_with_fuel(Seq::filter, 1);
            assert(entries@.take(i + 1).map_values(|e: (String, String)| e.0@).drop_last()
                =~= entries@.take(i as int).map_values(|e: (String, String)| e.0@));
        }
        let wanted = match item {
            Some(w) => str_eq(entries[i].0.as_str(), w),
            None => true,
        };
        if wanted {
            let ghost before = entry_views(out@);
            out.push((kind, entries[i].0.clone()));
            proof {
                assert(entry_views(out@) =~= before.push((kind, entries@[i as int].0@)));
                assert(names_for(entries@.take(i + 1), it) =~= names_for(
                    entries@.take(i as int),
                    it,
                ).push(entries@[i as int].0@));
            }
        } else {
            proof {
                assert(names_for(entries@.take(i + 1), it) =~= names_for(
                    entries@.take(i as int),
                    it,
                ));
            }
        }
        i = i + 1;
    }
    proof {
        assert(entries@.take(entries@.len() as int) =~= entries@);
    }
}

/// The entries an install request covers, in install order.
pub fn matching_entries(m: &Manifest, item: Option<&str>) -> (r: Vec<(Kind, String)>)
    ensures
        entry_views(r@) == install_entries(*m, opt_str_view(item)),
{
    let mut out: Vec<(Kind, String)> = Vec::new();
    assert(entry_views(out@) =~= Seq::<(Kind, Seq<char>)>::empty());
    collect_names(&m.cases, Kind::Cases, item, &mut out);
    collect_names(&m.bundles, Kind::Bundles, item, &mut out);
    collect_names(&m.images, Kind::Images, item, &mut out);
    proof {
        assert(entry_views(out@) =~= install_entries(*m, opt_str_view(item)));
    }
    out
}

// --- the state machine -----------------------------------------------------------

/// One item directory to copy into the workdir.
pub struct InstallCopy {
    pub kind: Kind,
    pub origin: String,
    pub name: String,
    /// The item in the origin's clone.
    pub src: String,
    /// Where it goes in the workdir (replaced if present).
    pub dest: String,
}

/// What the caller does next.
pub enum InstallAction {
    /// Clone the remote origin if needed, read its manifest, and hand it to
    /// `manifest_loaded`.
    LoadManifest(OriginConfig),
    /// Copy an item directory, print `installed <origin>/<name> (<kind>)`,
    /// and report to `copied` whether the source existed.
    Copy(InstallCopy),
    /// Read this `bundle.yaml` and hand its name and cases to
    /// `install_bundle_deps`.
    ReadBundle(String),
    /// The install is complete.
    Done,
    /// The install stopped with this error.
    Failed(LabError),
}

/// The cases of a just-installed bundle still to install.
struct DepCursor {
    bundle: String,
    cases: Vec<String>,
    pos: usize,
}

/// One `install` request in progress: its manifest's covered entries and,
/// while a bundle's dependencies are installed, their cursor.
struct Frame {
    origin: String,
    item: Option<String>,
    root: String,
    workdir: String,
    manifest: Ghost<Manifest>,
    entries: Vec<(Kind, String)>,
    pos: usize,
    deps: Option<DepCursor>,
}

enum Awaiting {
    /// The manifest of this origin, for a request of this item (or all).
    Manifest(String, Option<String>),
    /// The outcome of this copy.
    Copy(Kind, String, String, String, String),
    /// The contents of the bundle just copied.
    Bundle,
    /// Nothing: the run is over.
    Idle,
}

pub struct Installer {
    seen: Vec<(Kind, String, String)>,
    frames: Vec<Frame>,
    awaiting: Awaiting,
    requested: Ghost<Set<(Kind, Seq<char>, Seq<char>)>>,
    aborted: Ghost<bool>,
}

// --- the model -------------------------------------------------------------------

/// The model of the cases of a bundle still to install.
pub struct DepModel {
    pub bundle: Seq<char>,
    pub cases: Seq<Seq<char>>,
    pub pos: nat,
}

/// The model of one pending request: the origin and item asked for, the
/// origin's root and the workdir, its manifest, the entries the request
/// covers with the position reached, and the cases of a bundle being
/// installed.
pub struct FrameModel {
    pub origin: Seq<char>,
    pub item: Option<Seq<char>>,
    pub root: Seq<char>,
    pub workdir: Seq<char>,
    pub manifest: Manifest,
    pub entries: Seq<(Kind, Seq<char>)>,
    pub pos: nat,
    pub deps: Option<DepModel>,
}

/// Where walking the pending requests ends.
pub enum WalkOutcome {
    /// Copy `(kind, origin, name, src, dest)`.
    Copy(Kind, Seq<char>, Seq<char>, Seq<char>, Seq<char>),
    /// Load the manifest of this origin, for this item.
    Load(OriginSpec, Seq<char>),
    /// Nothing is left.
    Done,
    /// A bundle's case reference is not `<origin>/<name>`.
    NotQualified(Seq<char>),
    /// A bundle's case is of an unregistered origin: (bundle, case, origin).
    Unregistered(Seq<char>, Seq<char>, Seq<char>),
    /// A bundle's case is of an origin that is neither remote nor local.
    LocalNoInstall(Seq<char>),
}

spec fn dep_view(d: DepCursor) -> DepModel {
    DepModel { bundle: d.bundle@, cases: string_views(d.cases@), pos: d.pos as nat }
}

spec fn frame_view(f: Frame) -> FrameModel {
    FrameModel {
        origin: f.origin@,
        item: opt_view(f.item),
        root: f.root@,
        workdir: f.workdir@,
        manifest: f.manifest@,
        entries: entry_views(f.entries@),
        pos: f.pos as nat,
        deps: match f.deps {
            Some(d) => Some(dep_view(d)),
            None => None,
        },
    }
}

spec fn frames_view(fs: Seq<Frame>) -> Seq<FrameModel> {
    fs.map_values(|f: Frame| frame_view(f))
}

/// A request covers exactly the entries of its manifest that it names.
pub open spec fn frame_model_ok(f: FrameModel) -> bool {
    &&& f.entries == install_entries(f.manifest, f.item)
    &&& f.pos <= f.entries.len()
}

pub open spec fn dep_work(d: Option<DepModel>) -> nat {
    match d {
        Some(c) => if c.pos <= c.cases.len() {
            (c.cases.len() - c.pos) as nat
        } else {
            0
        },
        None => 0,
    }
}

pub open spec fn frame_work(f: FrameModel) -> nat {
    (if f.pos <= f.entries.len() {
        (f.entries.len() - f.pos) as nat
    } else {
        0
    }) + dep_work(f.deps)
}

/// What is left to walk: every pending entry and bundle case, plus one per
/// request.
pub open spec fn work(fs: Seq<FrameModel>) -> nat
    decreases fs.len(),
{
    if fs.len() == 0 {
        0
    } else {
        work(fs.drop_last()) + frame_work(fs.last()) + 1
    }
}

/// The request `f` with its bundle cursor moved past one case.
pub open spec fn next_case(f: FrameModel) -> FrameModel {
    FrameModel {
        origin: f.origin,
        item: f.item,
        root: f.root,
        workdir: f.workdir,
        manifest: f.manifest,
        entries: f.entries,
        pos: f.pos,
        deps: match f.deps {
            Some(d) => Some(DepModel { bundle: d.bundle, cases: d.cases, pos: d.pos + 1 }),
            None => None,
        },
    }
}

/// The request `f` moved past one entry, its bundle cases done.
pub open spec fn next_entry(f: FrameModel) -> FrameModel {
    FrameModel {
        origin: f.origin,
        item: f.item,
        root: f.root,
        workdir: f.workdir,
        manifest: f.manifest,
        entries: f.entries,
        pos: f.pos + 1,
        deps: None,
    }
}

/// The request `f` has a bundle case left to install.
pub open spec fn has_case(f: FrameModel) -> bool {
    f.deps matches Some(d) && d.pos < d.cases.len()
}

/// The key of the `j`-th entry of request `f`: its kind, the request's
/// origin, and its name.
pub open spec fn entry_key(f: FrameModel, j: int) -> (Kind, Seq<char>, Seq<char>) {
    (f.entries[j].0, f.origin, f.entries[j].1)
}

/// The keys of the given entries of an origin.
pub open spec fn request_keys(origin: Seq<char>, entries: Seq<(Kind, Seq<char>)>) -> Seq<
    (Kind, Seq<char>, Seq<char>),
> {
    entries.map_values(|e: (Kind, Seq<char>)| (e.0, origin, e.1))
}

/// Walks the pending requests, innermost first, to the next thing to do:
/// a bundle's next case (skipped for local origins, asked of its origin's
/// manifest otherwise), else the request's next entry (skipped when the
/// same kind, origin and name was copied before in the run, copied
/// otherwise), else the request is finished and the walk goes on with the
/// one around it. Gives the requests and copied keys after the walk, and
/// its outcome.
pub open spec fn walk_spec(
    cfg: Seq<OriginSpec>,
    frames: Seq<FrameModel>,
    seen: Seq<(Kind, Seq<char>, Seq<char>)>,
) -> (Seq<FrameModel>, Seq<(Kind, Seq<char>, Seq<char>)>, WalkOutcome)
    decreases work(frames),
{
    if frames.len() == 0 {
        (frames, seen, WalkOutcome::Done)
    } else {
        let f = frames.last();
        let rest = frames.drop_last();
        if has_case(f) {
            let d = f.deps.unwrap();
            let c = d.cases[d.pos as int];
            let f2 = next_case(f);
            match split_once_spec(c, '/') {
                None => (rest, seen, WalkOutcome::NotQualified(c)),
                Some((o, n)) => match spec_find(cfg, o) {
                    None => (rest, seen, WalkOutcome::Unregistered(d.bundle, c, o)),
                    Some(org) => if spec_is_path(org) {
                        proof {
                            assert(rest.push(f2).drop_last() =~= rest);
                        }
                        walk_spec(cfg, rest.push(f2), seen)
                    } else if !spec_is_git(org) {
                        (rest, seen, WalkOutcome::LocalNoInstall(o))
                    } else {
                        (rest.push(f2), seen, WalkOutcome::Load(org, n))
                    },
                },
            }
        } else if f.pos < f.entries.len() {
            let e = f.entries[f.pos as int];
            let key = (e.0, f.origin, e.1);
            let f2 = next_entry(f);
            if seen.contains(key) {
                proof {
                    assert(rest.push(f2).drop_last() =~= rest);
                }
                walk_spec(cfg, rest.push(f2), seen)
            } else {
                (
                    rest.push(f2),
                    seen.push(key),
                    WalkOutcome::Copy(
                        e.0,
                        f.origin,
                        e.1,
                        local_item_dir(f.root, e.0, e.1),
                        installed_item_dir(f.workdir, e.0, f.origin, e.1),
                    ),
                )
            }
        } else {
            walk_spec(cfg, rest, seen)
        }
    }
}

spec fn key_views(v: Seq<(Kind, String, String)>) -> Seq<(Kind, Seq<char>, Seq<char>)> {
    v.map_values(|e: (Kind, String, String)| (e.0, e.1@, e.2@))
}

/// Entry `j` of request `i` is still to be walked, and its key is `t`.
pub open spec fn pending_at(
    fs: Seq<FrameModel>,
    i: int,
    j: int,
    t: (Kind, Seq<char>, Seq<char>),
) -> bool {
    &&& 0 <= i < fs.len()
    &&& fs[i].pos <= j < fs[i].entries.len()
    &&& t == entry_key(fs[i], j)
}

/// Some pending request still has an entry with key `t` to walk.
pub open spec fn pending(fs: Seq<FrameModel>, t: (Kind, Seq<char>, Seq<char>)) -> bool {
    exists|i: int, j: int| #[trigger] pending_at(fs, i, j, t)
}

/// The account of a run: every requested key is copied or still pending,
/// every copied key was requested, and every entry of a pending request is
/// requested.
pub open spec fn ledger_ok(
    fs: Seq<FrameModel>,
    seen: Seq<(Kind, Seq<char>, Seq<char>)>,
    req: Set<(Kind, Seq<char>, Seq<char>)>,
) -> bool {
    &&& forall|t: (Kind, Seq<char>, Seq<char>)|
        #[trigger] req.contains(t) ==> seen.contains(t) || pending(fs, t)
    &&& forall|t: (Kind, Seq<char>, Seq<char>)| #[trigger] seen.contains(t) ==> req.contains(t)
    &&& forall|i: int, j: int|
        0 <= i < fs.len() && 0 <= j < fs[i].entries.len() ==> req.contains(
            #[trigger] entry_key(fs[i], j),
        )
}

/// The walk ends in a failure.
pub open spec fn walk_failed(out: WalkOutcome) -> bool {
    out is NotQualified || out is Unregistered || out is LocalNoInstall
}

impl Installer {
    /// The (kind, origin, name) of each item copied so far in this run, in
    /// order.
    pub closed spec fn seen_keys(&self) -> Seq<(Kind, Seq<char>, Seq<char>)> {
        key_views(self.seen@)
    }

    /// The (kind, origin, name) of every entry that a request of this run
    /// has covered.
    pub closed spec fn requested_keys(&self) -> Set<(Kind, Seq<char>, Seq<char>)> {
        self.requested@
    }

    /// The run is over and did not fail.
    pub closed spec fn completed(&self) -> bool {
        self.awaiting is Idle && !self.aborted@
    }

    spec fn shape_ok(&self) -> bool {
        &&& self.seen_keys().no_duplicates()
        &&& forall|i: int|
            0 <= i < self.frames@.len() ==> frame_model_ok(frame_view(#[trigger] self.frames@[i]))
        &&& (self.awaiting is Copy || self.awaiting is Bundle) ==> self.frames@.len() > 0
    }

    /// The pending requests, outermost first.
    pub closed spec fn requests(&self) -> Seq<FrameModel> {
        frames_view(self.frames@)
    }

    /// No key was copied twice; each pending request covers exactly the
    /// entries of its manifest that it names; a failed run awaits nothing;
    /// and in a run that has not failed, every requested key is copied or
    /// still pending, and only requested keys are copied.
    pub closed spec fn wf(&self) -> bool {
        &&& self.shape_ok()
        &&& self.aborted@ ==> self.awaiting is Idle
        &&& self.completed() ==> self.frames@.len() == 0
        &&& !self.aborted@ ==> ledger_ok(self.requests(), self.seen_keys(), self.requested@)
    }

    /// The caller is to report a manifest next.
    pub closed spec fn awaits_manifest(&self) -> bool {
        self.awaiting is Manifest
    }

    /// The caller is to report a copy next.
    pub closed spec fn awaits_copy(&self) -> bool {
        self.awaiting is Copy
    }

    /// The caller is to report a bundle's contents next.
    pub closed spec fn awaits_bundle(&self) -> bool {
        self.awaiting is Bundle
    }

    /// The run is over.
    pub closed spec fn is_idle(&self) -> bool {
        self.awaiting is Idle
    }

    /// The copy whose outcome is awaited: (kind, origin, name, src, dest).
    pub closed spec fn pending_copy(&self) -> (Kind, Seq<char>, Seq<char>, Seq<char>, Seq<char>) {
        match self.awaiting {
            Awaiting::Copy(k, o, n, s, d) => (k, o@, n@, s@, d@),
            _ => (Kind::Cases, Seq::empty(), Seq::empty(), Seq::empty(), Seq::empty()),
        }
    }

    /// The request awaiting its manifest: (origin, item).
    pub closed spec fn pending_request(&self) -> (Seq<char>, Option<Seq<char>>) {
        match self.awaiting {
            Awaiting::Manifest(o, i) => (o@, opt_view(i)),
            _ => (Seq::empty(), None),
        }
    }

    pub fn expects_manifest(&self) -> (r: bool)
        ensures
            r == self.awaits_manifest(),
    {
        match self.awaiting {
            Awaiting::Manifest(_, _) => true,
            _ => false,
        }
    }

    pub fn expects_copy(&self) -> (r: bool)
        ensures
            r == self.awaits_copy(),
    {
        match self.awaiting {
            Awaiting::Copy(_, _, _, _, _) => true,
            _ => false,
        }
    }

    pub fn expects_bundle(&self) -> (r: bool)
        ensures
            r == self.awaits_bundle(),
    {
        match self.awaiting {
            Awaiting::Bundle => true,
            _ => false,
        }
    }
}

/// The installer's state and action are those a walk ends in: its requests
/// and copied keys, and the action for the outcome (with what is awaited
/// next).
pub open spec fn walk_matches(
    inst: Installer,
    r: InstallAction,
    walked: (Seq<FrameModel>, Seq<(Kind, Seq<char>, Seq<char>)>, WalkOutcome),
) -> bool {
    &&& inst.requests() == walked.0
    &&& inst.seen_keys() == walked.1
    &&& match walked.2 {
        WalkOutcome::Copy(k, o, n, s, d) => {
            &&& (r matches InstallAction::Copy(c) && c.kind == k && c.origin@ == o && c.name@ == n
                && c.src@ == s && c.dest@ == d)
            &&& inst.awaits_copy()
            &&& inst.pending_copy() == (k, o, n, s, d)
        },
        WalkOutcome::Load(org, n) => {
            &&& (r matches InstallAction::LoadManifest(x) && x@ == org)
            &&& inst.awaits_manifest()
            &&& inst.pending_request() == (org.name, Some(n))
        },
        WalkOutcome::Done => r is Done && inst.completed(),
        WalkOutcome::NotQualified(c) => (r matches InstallAction::Failed(LabError::NotQualified(q))
            && q@ == c) && inst.is_idle() && !inst.completed(),
        WalkOutcome::Unregistered(b, c, o) => (r matches InstallAction::Failed(
            LabError::UnregisteredCaseOrigin(x, y, z),
        ) && x@ == b && y@ == c && z@ == o) && inst.is_idle() && !inst.completed(),
        WalkOutcome::LocalNoInstall(o) => (r matches InstallAction::Failed(
            LabError::LocalOriginNoInstall(x),
        ) && x@ == o) && inst.is_idle() && !inst.completed(),
    }
}

/// A walk copies only a key not copied before in the run, and records it;
/// every other outcome leaves the copied keys as they were. What it copies
/// is an entry that a pending request covers.
pub proof fn law_walk_copies_fresh_keys(
    cfg: Seq<OriginSpec>,
    frames: Seq<FrameModel>,
    seen: Seq<(Kind, Seq<char>, Seq<char>)>,
)
    requires
        forall|i: int| 0 <= i < frames.len() ==> frame_model_ok(#[trigger] frames[i]),
    ensures
        ({
            let (fs, keys, out) = walk_spec(cfg, frames, seen);
            &&& (out matches WalkOutcome::Copy(k, o, n, s, d) ==> {
                &&& !seen.contains((k, o, n))
                &&& keys == seen.push((k, o, n))
                &&& exists|i: int|
                    0 <= i < frames.len() && (#[trigger] frames[i]).origin == o
                        && frames[i].entries.contains((k, n))
            })
            &&& (!(out is Copy) ==> keys == seen)
            &&& forall|i: int| 0 <= i < fs.len() ==> frame_model_ok(#[trigger] fs[i])
        }),
    decreases work(frames),
{
    if frames.len() > 0 {
        let f = frames.last();
        let rest = frames.drop_last();
        assert(frame_model_ok(frames[frames.len() - 1]));
        if has_case(f) {
            let f2 = next_case(f);
            assert(rest.push(f2).drop_last() =~= rest);
            assert(forall|i: int| 0 <= i < rest.push(f2).len() ==> #[trigger] rest.push(f2)[i] == if i < rest.len() { frames[i] } else { f2 });
            let d = f.deps.unwrap();
            let c = d.cases[d.pos as int];
            match split_once_spec(c, '/') {
                None => {},
                Some((o, n)) => match spec_find(cfg, o) {
                    None => {},
                    Some(org) => if spec_is_path(org) {
                        law_walk_copies_fresh_keys(cfg, rest.push(f2), seen);
                        let (fs, keys, out) = walk_spec(cfg, rest.push(f2), seen);
                        match out { WalkOutcome::Copy(k, o2, n2, s, d2) => {
                            let i = choose|i: int|
                                0 <= i < rest.push(f2).len() && (#[trigger] rest.push(f2)[i]).origin == o2
                                    && rest.push(f2)[i].entries.contains((k, n2));
                            if i < rest.len() {
                                assert(frames[i] == rest.push(f2)[i]);
                            } else {
                                assert(frames[frames.len() - 1].origin == o2);
                            }
                        },
                        _ => {},
                        }
                    } else {
                    },
                },
            }
        } else if f.pos < f.entries.len() {
            let e = f.entries[f.pos as int];
            let key = (e.0, f.origin, e.1);
            let f2 = next_entry(f);
            assert(rest.push(f2).drop_last() =~= rest);
            assert(forall|i: int| 0 <= i < rest.push(f2).len() ==> #[trigger] rest.push(f2)[i] == if i < rest.len() { frames[i] } else { f2 });
            if seen.contains(key) {
                law_walk_copies_fresh_keys(cfg, rest.push(f2), seen);
                let (fs, keys, out) = walk_spec(cfg, rest.push(f2), seen);
                match out { WalkOutcome::Copy(k, o2, n2, s, d2) => {
                    let i = choose|i: int|
                        0 <= i < rest.push(f2).len() && (#[trigger] rest.push(f2)[i]).origin == o2
                            && rest.push(f2)[i].entries.contains((k, n2));
                    if i < rest.len() {
                        assert(frames[i] == rest.push(f2)[i]);
                    } else {
                        assert(frames[frames.len() - 1].origin == o2);
                    }
                },
                _ => {},
                }
            } else {
                assert(frames[frames.len() - 1].entries.contains(e));
            }
        } else {
            assert(forall|i: int| 0 <= i < rest.len() ==> #[trigger] rest[i] == frames[i]);
            law_walk_copies_fresh_keys(cfg, rest, seen);
            let (fs, keys, out) = walk_spec(cfg, rest, seen);
            match out { WalkOutcome::Copy(k, o2, n2, s, d2) => {
                let i = choose|i: int|
                    0 <= i < rest.len() && (#[trigger] rest[i]).origin == o2
                        && rest[i].entries.contains((k, n2));
                assert(frames[i] == rest[i]);
            },
            _ => {},
            }
        }
    }
}

/// Starts installing `item` of `origin_name` (everything its manifest
/// offers when `item` is `None`). Only remote origins are installed: a
/// local origin's content is read live.
pub fn install(cfg: &Config, origin_name: &str, item: Option<&str>) -> (r: (Installer, InstallAction))
    ensures
        r.0.wf(),
        r.0.seen_keys() == Seq::<(Kind, Seq<char>, Seq<char>)>::empty(),
        r.0.requests() == Seq::<FrameModel>::empty(),
        r.0.requested_keys() == Set::<(Kind, Seq<char>, Seq<char>)>::empty(),
        r.0.is_idle() ==> !r.0.completed(),
        match spec_find(cfg@, origin_name@) {
            None => r.1 matches InstallAction::Failed(LabError::NoSuchOrigin(m)) && m@ == origin_name@
                && r.0.is_idle(),
            Some(o) => if spec_is_git(o) {
                &&& r.1 matches InstallAction::LoadManifest(x) && x@ == o
                &&& r.0.awaits_manifest()
                &&& r.0.pending_request() == (origin_name@, opt_str_view(item))
            } else {
                &&& r.1 matches InstallAction::Failed(LabError::LocalOriginNoInstall(m)) && m@
                    == origin_name@
                &&& r.0.is_idle()
            },
        },
{
    let mut inst = Installer {
        seen: Vec::new(),
        frames: Vec::new(),
        awaiting: Awaiting::Idle,
        requested: Ghost(Set::empty()),
        aborted: Ghost(true),
    };
    assert(inst.seen_keys() =~= Seq::<(Kind, Seq<char>, Seq<char>)>::empty());
    assert(inst.requests() =~= Seq::<FrameModel>::empty());
    let action = match cfg.find(origin_name) {
        None => InstallAction::Failed(LabError::NoSuchOrigin(origin_name.to_owned())),
        Some(o) => if o.is_git() {
            let it = match item {
                Some(i) => Some(i.to_owned()),
                None => None,
            };
            inst.awaiting = Awaiting::Manifest(origin_name.to_owned(), it);
            inst.aborted = Ghost(false);
            InstallAction::LoadManifest(o.clone())
        } else {
            InstallAction::Failed(LabError::LocalOriginNoInstall(origin_name.to_owned()))
        },
    };
    (inst, action)
}

fn seen_contains(seen: &Vec<(Kind, String, String)>, kind: Kind, origin: &str, name: &str) -> (r:
    bool)
    ensures
        r == key_views(seen@).contains((kind, origin@, name@)),
{
    let ghost key = (kind, origin@, name@);
    let mut i: usize = 0;
    while i < seen.len()
        invariant
            i <= seen@.len(),
            key == (kind, origin@, name@),
            forall|k: int| 0 <= k < i ==> key_views(seen@)[k] != key,
        decreases seen.len() - i,
    {
        let ghost e = seen@[i as int];
        assert(key_views(seen@)[i as int] == (e.0, e.1@, e.2@));
        let same_kind = seen[i].0 == kind;
        let same_origin = str_eq(seen[i].1.as_str(), origin);
        let same_name = str_eq(seen[i].2.as_str(), name);
        if same_kind && same_origin && same_name {
            return true;
        }
        i = i + 1;
    }
    proof {
        if key_views(seen@).contains(key) {
            let k = choose|k: int| 0 <= k < key_views(seen@).len() && key_views(seen@)[k] == key;
            assert(key_views(seen@)[k] == key);
        }
    }
    false
}

/// Replacing the innermost request by one with the same origin and entries,
/// advanced over entries whose keys are now copied, keeps the account.
proof fn lemma_ledger_step(
    frames: Seq<FrameModel>,
    seen: Seq<(Kind, Seq<char>, Seq<char>)>,
    req: Set<(Kind, Seq<char>, Seq<char>)>,
    f2: FrameModel,
    seen2: Seq<(Kind, Seq<char>, Seq<char>)>,
)
    requires
        ledger_ok(frames, seen, req),
        frames.len() > 0,
        f2.origin == frames.last().origin,
        f2.entries == frames.last().entries,
        frames.last().pos <= f2.pos,
        forall|j: int|
            frames.last().pos <= j < f2.pos ==> seen2.contains(#[trigger] entry_key(frames.last(), j)),
        forall|t: (Kind, Seq<char>, Seq<char>)| seen.contains(t) ==> #[trigger] seen2.contains(t),
        forall|t: (Kind, Seq<char>, Seq<char>)| #[trigger] seen2.contains(t) ==> req.contains(t),
    ensures
        ledger_ok(frames.drop_last().push(f2), seen2, req),
{
    let rest = frames.drop_last();
    let fs = rest.push(f2);
    let last = frames.len() - 1;
    assert forall|i: int| 0 <= i < rest.len() implies #[trigger] fs[i] == frames[i] by {}
    assert forall|t: (Kind, Seq<char>, Seq<char>)| #[trigger]
        req.contains(t) implies seen2.contains(t) || pending(fs, t) by {
        if !seen2.contains(t) {
            assert(!seen.contains(t));
            let (i, j) = choose|i: int, j: int| #[trigger] pending_at(frames, i, j, t);
            if i < rest.len() {
                assert(pending_at(fs, i, j, t));
            } else {
                assert(i == last);
                if j < f2.pos {
                    assert(seen2.contains(entry_key(frames.last(), j)));
                } else {
                    assert(entry_key(fs[i], j) == entry_key(frames[i], j));
                    assert(pending_at(fs, i, j, t));
                }
            }
        }
    }
    assert forall|i: int, j: int| 0 <= i < fs.len() && 0 <= j < fs[i].entries.len() implies req.contains(
        #[trigger] entry_key(fs[i], j),
    ) by {
        assert(entry_key(fs[i], j) == entry_key(frames[i], j));
    }
}

/// A new innermost request, not yet walked, whose keys join the requested
/// ones, keeps the account.
proof fn lemma_ledger_push(
    frames: Seq<FrameModel>,
    seen: Seq<(Kind, Seq<char>, Seq<char>)>,
    req: Set<(Kind, Seq<char>, Seq<char>)>,
    f: FrameModel,
)
    requires
        ledger_ok(frames, seen, req),
        f.pos == 0,
    ensures
        ledger_ok(
            frames.push(f),
            seen,
            req.union(request_keys(f.origin, f.entries).to_set()),
        ),
{
    let fs = frames.push(f);
    let keys = request_keys(f.origin, f.entries);
    let req2 = req.union(keys.to_set());
    let last = frames.len() as int;
    assert forall|i: int| 0 <= i < frames.len() implies #[trigger] fs[i] == frames[i] by {}
    assert forall|t: (Kind, Seq<char>, Seq<char>)| #[trigger]
        req2.contains(t) implies seen.contains(t) || pending(fs, t) by {
        if req.contains(t) {
            if !seen.contains(t) {
                let (i, j) = choose|i: int, j: int| #[trigger] pending_at(frames, i, j, t);
                assert(pending_at(fs, i, j, t));
            }
        } else {
            assert(keys.contains(t));
            let j = choose|j: int| 0 <= j < keys.len() && keys[j] == t;
            assert(pending_at(fs, last, j, t));
        }
    }
    assert forall|i: int, j: int| 0 <= i < fs.len() && 0 <= j < fs[i].entries.len() implies req2.contains(
        #[trigger] entry_key(fs[i], j),
    ) by {
        if i < frames.len() {
            assert(req.contains(entry_key(frames[i], j)));
        } else {
            assert(keys[j] == entry_key(fs[i], j));
            assert(keys.contains(entry_key(fs[i], j)));
        }
    }
}

/// Dropping a finished innermost request keeps the account.
proof fn lemma_ledger_pop(
    frames: Seq<FrameModel>,
    seen: Seq<(Kind, Seq<char>, Seq<char>)>,
    req: Set<(Kind, Seq<char>, Seq<char>)>,
)
    requires
        ledger_ok(frames, seen, req),
        frames.len() > 0,
        frames.last().pos >= frames.last().entries.len(),
    ensures
        ledger_ok(frames.drop_last(), seen, req),
{
    let rest = frames.drop_last();
    assert forall|t: (Kind, Seq<char>, Seq<char>)| #[trigger]
        req.contains(t) implies seen.contains(t) || pending(rest, t) by {
        if !seen.contains(t) {
            let (i, j) = choose|i: int, j: int| #[trigger] pending_at(frames, i, j, t);
            assert(i < rest.len());
            assert(rest[i] == frames[i]);
            assert(pending_at(rest, i, j, t));
        }
    }
    assert forall|i: int, j: int| 0 <= i < rest.len() && 0 <= j < rest[i].entries.len() implies req.contains(
        #[trigger] entry_key(rest[i], j),
    ) by {
        assert(rest[i] == frames[i]);
    }
}

/// A walk that does not fail keeps the account of the run: what it copies
/// was requested, and what it leaves behind is copied.
proof fn lemma_walk_keeps_ledger(
    cfg: Seq<OriginSpec>,
    frames: Seq<FrameModel>,
    seen: Seq<(Kind, Seq<char>, Seq<char>)>,
    req: Set<(Kind, Seq<char>, Seq<char>)>,
)
    requires
        forall|i: int| 0 <= i < frames.len() ==> frame_model_ok(#[trigger] frames[i]),
        ledger_ok(frames, seen, req),
    ensures
        ({
            let (fs, keys, out) = walk_spec(cfg, frames, seen);
            walk_failed(out) || ledger_ok(fs, keys, req)
        }),
    decreases work(frames),
{
    if frames.len() > 0 {
        let f = frames.last();
        let rest = frames.drop_last();
        let last = frames.len() - 1;
        assert(frame_model_ok(frames[last]));
        if has_case(f) {
            let f2 = next_case(f);
            lemma_ledger_step(frames, seen, req, f2, seen);
            assert(rest.push(f2).drop_last() =~= rest);
            assert forall|i: int| 0 <= i < rest.push(f2).len() implies frame_model_ok(
                #[trigger] rest.push(f2)[i],
            ) by {
                if i < rest.len() {
                    assert(rest.push(f2)[i] == frames[i]);
                }
            }
            lemma_walk_keeps_ledger(cfg, rest.push(f2), seen, req);
        } else if f.pos < f.entries.len() {
            let e = f.entries[f.pos as int];
            let key = (e.0, f.origin, e.1);
            let f2 = next_entry(f);
            assert(entry_key(frames[last], f.pos as int) == key);
            assert(req.contains(key));
            assert(rest.push(f2).drop_last() =~= rest);
            if seen.contains(key) {
                lemma_ledger_step(frames, seen, req, f2, seen);
                assert forall|i: int| 0 <= i < rest.push(f2).len() implies frame_model_ok(
                    #[trigger] rest.push(f2)[i],
                ) by {
                    if i < rest.len() {
                        assert(rest.push(f2)[i] == frames[i]);
                    }
                }
                lemma_walk_keeps_ledger(cfg, rest.push(f2), seen, req);
            } else {
                let seen2 = seen.push(key);
                assert forall|t: (Kind, Seq<char>, Seq<char>)| #[trigger]
                    seen2.contains(t) implies seen.contains(t) || t == key by {
                    let k = choose|k: int| 0 <= k < seen2.len() && seen2[k] == t;
                    if k < seen.len() {
                        assert(seen[k] == t);
                    }
                }
                assert forall|t: (Kind, Seq<char>, Seq<char>)| #[trigger]
                    seen.contains(t) implies seen2.contains(t) by {
                    let k = choose|k: int| 0 <= k < seen.len() && seen[k] == t;
                    assert(seen2[k] == t);
                }
                assert(seen2[seen.len() as int] == key);
                lemma_ledger_step(frames, seen, req, f2, seen2);
            }
        } else {
            lemma_ledger_pop(frames, seen, req);
            assert forall|i: int| 0 <= i < rest.len() implies frame_model_ok(#[trigger] rest[i]) by {
                assert(rest[i] == frames[i]);
            }
            lemma_walk_keeps_ledger(cfg, rest, seen, req);
        }
    }
}

proof fn lemma_work_step(model0: Seq<FrameModel>, f2: FrameModel)
    requires
        model0.len() > 0,
    ensures
        work(model0) == work(model0.drop_last()) + frame_work(model0.last()) + 1,
        work(model0.drop_last().push(f2)) == work(model0.drop_last()) + frame_work(f2) + 1,
{
    assert(model0.drop_last().push(f2).drop_last() =~= model0.drop_last());
}

proof fn lemma_frames_push(fs: Seq<Frame>, f: Frame)
    ensures
        frames_view(fs.push(f)) == frames_view(fs).push(frame_view(f)),
{
    assert(frames_view(fs.push(f)) =~= frames_view(fs).push(frame_view(f)));
}

proof fn lemma_frames_pop(fs: Seq<Frame>)
    requires
        fs.len() > 0,
    ensures
        frames_view(fs.drop_last()) == frames_view(fs).drop_last(),
        frames_view(fs).last() == frame_view(fs.last()),
{
    assert(frames_view(fs.drop_last()) =~= frames_view(fs).drop_last());
}

impl Installer {
    /// Walks the pending requests to the next action (see `walk_spec`).
    fn walk(&mut self, cfg: &Config) -> (r: InstallAction)
        requires
            old(self).shape_ok(),
            !old(self).aborted@,
            ledger_ok(old(self).requests(), old(self).seen_keys(), old(self).requested@),
        ensures
            final(self).wf(),
            final(self).requested_keys() == old(self).requested_keys(),
            walk_matches(*final(self), r, walk_spec(cfg@, old(self).requests(), old(self).seen_keys())),
    {
        let ghost target = walk_spec(cfg@, self.requests(), self.seen_keys());
        proof {
            lemma_walk_keeps_ledger(cfg@, self.requests(), self.seen_keys(), self.requested@);
        }
        self.awaiting = Awaiting::Idle;
        loop
            invariant
                self.shape_ok(),
                !self.aborted@,
                self.requested@ == old(self).requested@,
                walk_failed(target.2) || ledger_ok(target.0, target.1, self.requested@),
                self.awaiting is Idle,
                target == walk_spec(cfg@, old(self).requests(), old(self).seen_keys()),
                walk_spec(cfg@, self.requests(), self.seen_keys()) == target,
            decreases work(self.requests()),
        {
            let ghost frames0 = self.frames@;
            let ghost model0 = self.requests();
            let popped = self.frames.pop();
            match popped {
                None => {
                    assert(model0.len() == 0);
                    return InstallAction::Done;
                },
                Some(f) => {
                    proof {
                        lemma_frames_pop(frames0);
                        assert(frame_model_ok(model0[model0.len() - 1]));
                        assert(forall|i: int|
                            0 <= i < self.requests().len() ==> #[trigger] self.requests()[i] == model0[i]);
                    }
                    let ghost fm = frame_view(f);
                    let ghost rest = model0.drop_last();
                    let Frame { origin, item, root, workdir, manifest, entries, pos, deps } = f;
                    let mut next: Option<DepCursor> = None;
                    let mut dep_case: Option<(String, String)> = None;
                    match deps {
                        Some(d) => {
                            if d.pos < d.cases.len() {
                                let c = d.cases[d.pos].clone();
                                let bundle = d.bundle.clone();
                                next = Some(DepCursor { bundle: d.bundle, cases: d.cases, pos: d.pos + 1 });
                                dep_case = Some((bundle, c));
                            }
                        },
                        None => {},
                    }
                    match dep_case {
                        Some((bundle, c)) => {
                            let frame = Frame { origin, item, root, workdir, manifest, entries, pos, deps: next };
                            proof {
                                assert(has_case(fm));
                                assert(frame_view(frame) == next_case(fm));
                                assert(c@ == fm.deps.unwrap().cases[fm.deps.unwrap().pos as int]);
                            }
                            match split_qualified(c.as_str()) {
                                Err(e) => {
                                    self.aborted = Ghost(true);
                                    return InstallAction::Failed(e);
                                },
                                Ok((o, n)) => {
                                    match cfg.find(o.as_str()) {
                                        None => {
                                            self.aborted = Ghost(true);
                                            return InstallAction::Failed(
                                                LabError::UnregisteredCaseOrigin(bundle, c, o),
                                            );
                                        },
                                        Some(org) => {
                                            if org.is_path() {
                                                let ghost before = self.frames@;
                                                self.frames.push(frame);
                                                proof {
                                                    lemma_frames_push(before, frame);
                                                    assert(frame_model_ok(frame_view(frame)));
                                                    assert(self.requests() =~= rest.push(next_case(fm)));
                                                    lemma_work_step(model0, next_case(fm));
                                                }
                                            } else if !org.is_git() {
                                                self.aborted = Ghost(true);
                                                return InstallAction::Failed(
                                                    LabError::LocalOriginNoInstall(o),
                                                );
                                            } else {
                                                let ghost before = self.frames@;
                                                self.frames.push(frame);
                                                proof {
                                                    lemma_frames_push(before, frame);
                                                    assert(frame_model_ok(frame_view(frame)));
                                                    assert(forall|i: int|
                                                        0 <= i < self.requests().len()
                                                            ==> #[trigger] self.requests()[i] == rest.push(next_case(fm))[i]);
                                                }
                                                let on = org.name.clone();
                                                self.awaiting = Awaiting::Manifest(on, Some(n));
                                                return InstallAction::LoadManifest(org.clone());
                                            }
                                        },
                                    }
                                },
                            }
                        },
                        None => {
                            proof {
                                assert(!has_case(fm));
                            }
                            if pos < entries.len() {
                                let kind = entries[pos].0;
                                let name = entries[pos].1.clone();
                                let known = seen_contains(
                                    &self.seen,
                                    kind,
                                    origin.as_str(),
                                    name.as_str(),
                                );
                                let src = local_item_path(root.as_str(), kind, name.as_str());
                                let dest = installed_item_path(
                                    workdir.as_str(),
                                    kind,
                                    origin.as_str(),
                                    name.as_str(),
                                );
                                let o2 = origin.clone();
                                let frame = Frame {
                                    origin,
                                    item,
                                    root,
                                    workdir,
                                    manifest,
                                    entries,
                                    pos: pos + 1,
                                    deps: None,
                                };
                                proof {
                                    assert(fm.entries[fm.pos as int] == (kind, name@));
                                    assert(frame_view(frame) == next_entry(fm));
                                }
                                let ghost before = self.frames@;
                                self.frames.push(frame);
                                proof {
                                    lemma_frames_push(before, frame);
                                    assert(frame_model_ok(frame_view(frame)));
                                    assert(self.requests() =~= rest.push(next_entry(fm)));
                                    lemma_work_step(model0, next_entry(fm));
                                }
                                if !known {
                                    let ghost old_seen = self.seen_keys();
                                    self.seen.push((kind, o2.clone(), name.clone()));
                                    proof {
                                        assert(self.seen_keys() =~= old_seen.push((kind, o2@, name@)));
                                    }
                                    self.awaiting = Awaiting::Copy(
                                        kind,
                                        o2.clone(),
                                        name.clone(),
                                        src.clone(),
                                        dest.clone(),
                                    );
                                    return InstallAction::Copy(
                                        InstallCopy { kind, origin: o2, name, src, dest },
                                    );
                                }
                            } else {
                                proof {
                                    assert(self.requests() =~= rest);
                                    lemma_work_step(model0, fm);
                                }
                            }
                        },
                    }
                },
            }
        }
    }

    /// Takes in the manifest of the origin asked for. A platform without a
    /// data directory fails with `NoDataDir`; otherwise a request that
    /// covers no entry fails, with `NoSuchItem` when it named an item and
    /// `EmptyManifest` when it asked for everything; otherwise the request
    /// is pushed, innermost, and the requests are walked to the next action.
    pub fn manifest_loaded(&mut self, cfg: &Config, root: &str, manifest: Manifest) -> (r:
        InstallAction)
        requires
            old(self).wf(),
            old(self).awaits_manifest(),
        ensures
            final(self).wf(),
            (r matches InstallAction::Failed(LabError::NoDataDir)) ==> final(self).seen_keys() == old(
                self,
            ).seen_keys() && final(self).is_idle() && !final(self).completed(),
            !(r matches InstallAction::Failed(LabError::NoDataDir)) ==> if install_entries(
                manifest,
                old(self).pending_request().1,
            ).len() == 0 {
                &&& final(self).seen_keys() == old(self).seen_keys()
                &&& final(self).is_idle()
                &&& !final(self).completed()
                &&& match old(self).pending_request().1 {
                    Some(i) => (r matches InstallAction::Failed(LabError::NoSuchItem(o, n)) && o@
                        == old(self).pending_request().0 && n@ == i),
                    None => (r matches InstallAction::Failed(LabError::EmptyManifest(o)) && o@ == old(
                        self,
                    ).pending_request().0),
                }
            } else {
                &&& final(self).requested_keys() == old(self).requested_keys().union(
                    request_keys(
                        old(self).pending_request().0,
                        install_entries(manifest, old(self).pending_request().1),
                    ).to_set(),
                )
                &&& exists|w: Seq<char>|
                    #![trigger request_model(old(self).pending_request(), root@, w, manifest)]
                    walk_matches(
                        *final(self),
                        r,
                        walk_spec(
                            cfg@,
                            old(self).requests().push(
                                request_model(old(self).pending_request(), root@, w, manifest),
                            ),
                            old(self).seen_keys(),
                        ),
                    )
            },
    {
        let (origin, item) = match &self.awaiting {
            Awaiting::Manifest(o, i) => (o.clone(), crate::text::copy_opt(i)),
            _ => (String::new(), None),
        };
        let w = match workdir() {
            Ok(w) => w,
            Err(e) => {
                self.awaiting = Awaiting::Idle;
                self.aborted = Ghost(true);
                return InstallAction::Failed(e);
            },
        };
        let entries = match &item {
            Some(i) => matching_entries(&manifest, Some(i.as_str())),
            None => matching_entries(&manifest, None),
        };
        assert(entry_views(entries@) == install_entries(manifest, opt_view(item)));
        if entries.len() == 0 {
            self.awaiting = Awaiting::Idle;
            self.aborted = Ghost(true);
            return match item {
                Some(i) => InstallAction::Failed(LabError::NoSuchItem(origin, i)),
                None => InstallAction::Failed(LabError::EmptyManifest(origin)),
            };
        }
        let ghost wv = w@;
        let frame = Frame {
            origin,
            item,
            root: root.to_owned(),
            workdir: w,
            manifest: Ghost(manifest),
            entries,
            pos: 0,
            deps: None,
        };
        let ghost before = self.frames@;
        let ghost keys = request_keys(origin@, entry_views(entries@));
        let ghost req0 = self.requested@;
        self.frames.push(frame);
        self.requested = Ghost(req0.union(keys.to_set()));
        proof {
            lemma_frames_push(before, frame);
            assert(frame_view(frame) == request_model(old(self).pending_request(), root@, wv, manifest));
            assert(frame_model_ok(frame_view(frame)));
            assert(forall|i: int|
                0 <= i < self.requests().len() ==> #[trigger] self.requests()[i] == frames_view(before).push(frame_view(frame))[i]);
            lemma_ledger_push(frames_view(before), self.seen_keys(), req0, frame_view(frame));
        }
        self.awaiting = Awaiting::Idle;
        self.walk(cfg)
    }

    /// Takes in the outcome of the awaited copy. A missing source directory
    /// fails with `ManifestItemMissing`; a copied bundle is read next, so its
    /// cases can be installed; anything else walks on.
    pub fn copied(&mut self, cfg: &Config, existed: bool) -> (r: InstallAction)
        requires
            old(self).wf(),
            old(self).awaits_copy(),
        ensures
            final(self).wf(),
            final(self).requested_keys() == old(self).requested_keys(),
            !existed ==> {
                &&& !final(self).completed()
                &&& (r matches InstallAction::Failed(LabError::ManifestItemMissing(k, n, d, o)) && k
                    == old(self).pending_copy().0 && n@ == old(self).pending_copy().2 && d@ == old(
                    self,
                ).pending_copy().3 && o@ == old(self).pending_copy().1)
                &&& final(self).seen_keys() == old(self).seen_keys()
                &&& final(self).is_idle()
            },
            existed && old(self).pending_copy().0 == Kind::Bundles ==> {
                &&& (r matches InstallAction::ReadBundle(p) && p@ == path_join(
                    old(self).pending_copy().4,
                    "bundle.yaml"@,
                ))
                &&& final(self).seen_keys() == old(self).seen_keys()
                &&& final(self).requests() == old(self).requests()
                &&& final(self).awaits_bundle()
            },
            existed && old(self).pending_copy().0 != Kind::Bundles ==> walk_matches(
                *final(self),
                r,
                walk_spec(cfg@, old(self).requests(), old(self).seen_keys()),
            ),
    {
        let (kind, origin, name, src, dest) = match &self.awaiting {
            Awaiting::Copy(k, o, n, s, d) => (*k, o.clone(), n.clone(), s.clone(), d.clone()),
            _ => (Kind::Cases, String::new(), String::new(), String::new(), String::new()),
        };
        if !existed {
            self.awaiting = Awaiting::Idle;
            self.aborted = Ghost(true);
            return InstallAction::Failed(LabError::ManifestItemMissing(kind, name, src, origin));
        }
        if kind == Kind::Bundles {
            self.awaiting = Awaiting::Bundle;
            return InstallAction::ReadBundle(join(dest.as_str(), "bundle.yaml"));
        }
        self.walk(cfg)
    }

    /// Takes in the bundle just copied: its name and the case references it
    /// lists. They become the innermost request's cases and the requests are
    /// walked on (see `walk_spec`): each case is installed next, in order,
    /// before the rest of the request; cases of local origins are skipped
    /// (they are read live); a reference that is not `<origin>/<name>`
    /// fails with `NotQualified`, one to an unregistered origin with
    /// `UnregisteredCaseOrigin`.
    pub fn install_bundle_deps(&mut self, cfg: &Config, bundle_name: String, cases: Vec<String>) -> (r:
        InstallAction)
        requires
            old(self).wf(),
            old(self).awaits_bundle(),
        ensures
            final(self).wf(),
            final(self).requested_keys() == old(self).requested_keys(),
            walk_matches(
                *final(self),
                r,
                walk_spec(
                    cfg@,
                    with_cases(old(self).requests(), bundle_name@, string_views(cases@)),
                    old(self).seen_keys(),
                ),
            ),
    {
        let ghost frames0 = self.frames@;
        let ghost model0 = self.requests();
        let ghost bname = bundle_name@;
        let ghost cviews = string_views(cases@);
        match self.frames.pop() {
            Some(f) => {
                proof {
                    lemma_frames_pop(frames0);
                    assert(frame_model_ok(model0[model0.len() - 1]));
                }
                let ghost fm = frame_view(f);
                let Frame { origin, item, root, workdir, manifest, entries, pos, deps: _ } = f;
                let frame = Frame {
                    origin,
                    item,
                    root,
                    workdir,
                    manifest,
                    entries,
                    pos,
                    deps: Some(DepCursor { bundle: bundle_name, cases, pos: 0 }),
                };
                let ghost before = self.frames@;
                self.frames.push(frame);
                proof {
                    lemma_frames_push(before, frame);
                    assert(frame_model_ok(frame_view(frame)));
                    assert(self.requests() =~= with_cases(model0, bname, cviews));
                    assert(forall|i: int|
                        0 <= i < self.requests().len() ==> #[trigger] self.requests()[i] == with_cases(model0, bname, cviews)[i]);
                    lemma_ledger_step(model0, self.seen_keys(), self.requested@, frame_view(frame), self.seen_keys());
                }
            },
            None => {},
        }
        self.awaiting = Awaiting::Idle;
        self.walk(cfg)
    }
}

/// The model of a request whose manifest has just been read.
pub open spec fn request_model(
    request: (Seq<char>, Option<Seq<char>>),
    root: Seq<char>,
    workdir: Seq<char>,
    manifest: Manifest,
) -> FrameModel {
    FrameModel {
        origin: request.0,
        item: request.1,
        root,
        workdir,
        manifest,
        entries: install_entries(manifest, request.1),
        pos: 0,
        deps: None,
    }
}

/// The requests with the cases of a just-copied bundle given to the
/// innermost one.
pub open spec fn with_cases(frames: Seq<FrameModel>, bundle: Seq<char>, cases: Seq<Seq<char>>) -> Seq<
    FrameModel,
> {
    if frames.len() == 0 {
        frames
    } else {
        let f = frames.last();
        frames.drop_last().push(
            FrameModel {
                origin: f.origin,
                item: f.item,
                root: f.root,
                workdir: f.workdir,
                manifest: f.manifest,
                entries: f.entries,
                pos: f.pos,
                deps: Some(DepModel { bundle, cases, pos: 0 }),
            },
        )
    }
}

/// A run never copies the same item twice: in every state the installer
/// reaches, the (kind, origin, name) keys copied so far are pairwise
/// distinct.
pub proof fn law_copies_are_distinct(inst: Installer)
    requires
        inst.wf(),
    ensures
        inst.seen_keys().no_duplicates(),
{
}

/// A run that completes has copied every item its requests covered exactly
/// once, and nothing else: with no item named, every (kind, name) of the
/// origin's manifest, an item listed under two kinds once under each; and
/// every case of every copied bundle.
pub proof fn law_completed_run_copies_each_requested_item_once(
    inst: Installer,
    t: (Kind, Seq<char>, Seq<char>),
)
    requires
        inst.wf(),
        inst.completed(),
    ensures
        inst.requested_keys().contains(t) <==> inst.seen_keys().contains(t),
        inst.seen_keys().no_duplicates(),
{
    if inst.requested_keys().contains(t) && !inst.seen_keys().contains(t) {
        let (i, j) = choose|i: int, j: int| #[trigger] pending_at(inst.requests(), i, j, t);
    }
}

// --- uninstall -----------------------------------------------------------------

/// The directories under workdir `w` that an installed `<origin>/<item>`
/// may occupy, one per kind, in kind order.
pub open spec fn uninstall_dirs(w: Seq<char>, origin: Seq<char>, item: Seq<char>) -> Seq<
    (Kind, Seq<char>),
> {
    seq![
        (Kind::Cases, installed_item_dir(w, Kind::Cases, origin, item)),
        (Kind::Bundles, installed_item_dir(w, Kind::Bundles, origin, item)),
        (Kind::Images, installed_item_dir(w, Kind::Images, origin, item)),
    ]
}

/// Uninstalling `<origin>/<name>` looks at every directory an install of
/// that name puts an item in, whatever its kind.
pub proof fn law_uninstall_covers_every_install(w: Seq<char>, k: Kind, origin: Seq<char>, name: Seq<char>)
    ensures
        uninstall_dirs(w, origin, name).contains((k, installed_item_dir(w, k, origin, name))),
{
    let d = uninstall_dirs(w, origin, name);
    match k {
        Kind::Cases => assert(d[0] == (k, installed_item_dir(w, k, origin, name))),
        Kind::Bundles => assert(d[1] == (k, installed_item_dir(w, k, origin, name))),
        Kind::Images => assert(d[2] == (k, installed_item_dir(w, k, origin, name))),
    }
}

/// The directories an installed `<origin>/<item>` may occupy, one per kind,
/// in kind order; those that exist are removed.
pub fn uninstall(origin_name: &str, item: &str) -> (r: Result<Vec<(Kind, String)>, LabError>)
    ensures
        r matches Ok(v) ==> exists|w: Seq<char>|
            entry_views(v@) == #[trigger] uninstall_dirs(w, origin_name@, item@),
        r matches Err(e) ==> e is NoDataDir,
{
    let w = workdir()?;
    let mut v: Vec<(Kind, String)> = Vec::new();
    v.push((Kind::Cases, installed_item_path(w.as_str(), Kind::Cases, origin_name, item)));
    v.push((Kind::Bundles, installed_item_path(w.as_str(), Kind::Bundles, origin_name, item)));
    v.push((Kind::Images, installed_item_path(w.as_str(), Kind::Images, origin_name, item)));
    assert(entry_views(v@) =~= uninstall_dirs(w@, origin_name@, item@));
    Ok(v)
}

/// An uninstall that removed nothing fails: nothing was installed under
/// that name.
pub fn uninstall_outcome(origin_name: &str, item: &str, removed_any: bool) -> (r: Result<
    (),
    LabError,
>)
    ensures
        removed_any ==> r is Ok,
        !removed_any ==> (r matches Err(LabError::NotInstalled(o, i)) && o@ == origin_name@ && i@
            == item@),
{
    if removed_any {
        Ok(())
    } else {
        Err(LabError::NotInstalled(origin_name.to_owned(), item.to_owned()))
    }
}

/// What `install <name>` asks for: one item for `<origin>/<item>` (split at
/// the first `/`), everything an origin offers for a bare `<origin>`.
pub fn install_target(name: &str) -> (r: (String, Option<String>))
    ensures
        match crate::text::split_once_spec(name@, '/') {
            Some((o, i)) => r.0@ == o && opt_view(r.1) == Some(i),
            None => r.0@ == name@ && r.1 is None,
        },
{
    match split_qualified(name) {
        Ok((o, i)) => (o, Some(i)),
        Err(_) => (name.to_owned(), None),
    }
}

} // verus!
