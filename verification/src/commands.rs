//! The decisions of the command line: what a run or a listing targets, which
//! origins a command acts on, and the verdict it reports.

use vstd::prelude::*;

use crate::error::LabError;
use crate::origin::{
    kind_dir, ref_views, resolve_item, spec_find, spec_is_git, spec_is_path,
    Config, Kind, OriginConfig, OriginSpec,
};
use crate::paths::{join, path_exists, path_join};
use crate::report::CaseResult;
use crate::sorting::{lemma_map_multiset, sort_by_name, sorted_by_name};
use crate::text::{opt_str_view, pair_views, string_views};

verus! {

// --- ad-hoc collection directories ---------------------------------------------

/// `<dir>/<name>/<manifest file>`.
pub open spec fn dir_item_path(dir: Seq<char>, name: Seq<char>, file: Seq<char>) -> Seq<char> {
    path_join(path_join(dir, name), file)
}

/// What a `--cases-dir` or `--bundles-dir` request selects.
pub enum DirSelection {
    /// Every item directory found in the collection directory.
    ScanAll,
    /// One named item and the path of its manifest file.
    Named(String, String),
}

/// Resolves a request against a bare collection directory, with
/// unqualified names: `--all` scans it; otherwise `--select <name>` names
/// an item whose manifest file must exist.
pub fn select_from_dir(dir: &str, manifest_file: &str, select: Option<&str>, all: bool) -> (r:
    Result<DirSelection, LabError>)
    ensures
        all ==> (r matches Ok(DirSelection::ScanAll)),
        !all ==> match select {
            None => (r matches Err(LabError::NoSelection(q)) && !q),
            Some(n) => match r {
                Ok(DirSelection::Named(a, p)) => a@ == n@ && p@ == dir_item_path(
                    dir@,
                    n@,
                    manifest_file@,
                ),
                Err(LabError::NotFound(p)) => p@ == dir_item_path(dir@, n@, manifest_file@),
                _ => false,
            },
        },
{
    if all {
        return Ok(DirSelection::ScanAll);
    }
    match select {
        None => Err(LabError::NoSelection(false)),
        Some(n) => {
            let d = join(dir, n);
            let p = join(d.as_str(), manifest_file);
            if path_exists(p.as_str()) {
                Ok(DirSelection::Named(n.to_owned(), p))
            } else {
                Err(LabError::NotFound(p))
            }
        },
    }
}

/// An entry of a collection directory, as the scan saw it.
pub struct DirEntryInfo {
    pub name: String,
    pub is_dir: bool,
    /// The entry's manifest file exists.
    pub has_manifest: bool,
}

pub open spec fn listed(e: DirEntryInfo) -> bool {
    e.is_dir && e.has_manifest
}

/// The `(name, manifest path)` pairs of the listed entries, in scan order.
pub open spec fn listing_spec(dir: Seq<char>, file: Seq<char>, entries: Seq<DirEntryInfo>) -> Seq<
    (Seq<char>, Seq<char>),
> {
    entries.filter(|e: DirEntryInfo| listed(e)).map_values(
        |e: DirEntryInfo| (e.name@, dir_item_path(dir, e.name@, file)),
    )
}

/// The items of a collection directory scan: each subdirectory holding the
/// manifest file, as `(name, manifest path)`, sorted by name.
pub fn dir_listing(dir: &str, manifest_file: &str, entries: &Vec<DirEntryInfo>) -> (r: Vec<
    (String, String),
>)
    ensures
        sorted_by_name(r@),
        pair_views(r@).to_multiset() == listing_spec(dir@, manifest_file@, entries@).to_multiset(),
{
    let mut out: Vec<(String, String)> = Vec::new();
    let mut i: usize = 0;
    while i < entries.len()
        invariant
            i <= entries@.len(),
            pair_views(out@) =~= listing_spec(dir@, manifest_file@, entries@.take(i as int)),
        decreases entries.len() - i,
    {
        proof {
            reveal_with_fuel(Seq::filter, 1);
            assert(entries@.take(i + 1).drop_last() =~= entries@.take(i as int));
        }
        if entries[i].is_dir && entries[i].has_manifest {
            let d = join(dir, entries[i].name.as_str());
            let p = join(d.as_str(), manifest_file);
            let ghost before = pair_views(out@);
            out.push((entries[i].name.clone(), p));
            proof {
                assert(pair_views(out@) =~= before.push(
                    (entries@[i as int].name@, dir_item_path(dir@, entries@[i as int].name@, manifest_file@)),
                ));
            }
        }
        i = i + 1;
    }
    proof {
        assert(entries@.take(entries@.len() as int) =~= entries@);
    }
    let ghost unsorted = out@;
    let r = sort_by_name(out);
    proof {
        lemma_map_multiset(r@, unsorted, |e: (String, String)| (e.0@, e.1@));
        assert(pair_views(r@) =~= r@.map_values(|e: (String, String)| (e.0@, e.1@)));
        assert(pair_views(unsorted) =~= unsorted.map_values(|e: (String, String)| (e.0@, e.1@)));
    }
    r
}

// --- origins -------------------------------------------------------------------------

/// Every item directory turned into the path of its manifest file, names
/// kept.
pub fn with_manifest_file(items: &Vec<(String, String)>, manifest_file: &str) -> (r: Vec<
    (String, String),
>)
    ensures
        r@.len() == items@.len(),
        forall|i: int|
            0 <= i < items@.len() ==> (#[trigger] r@[i]).0@ == items@[i].0@ && r@[i].1@ == path_join(
                items@[i].1@,
                manifest_file@,
            ),
{
    let mut r: Vec<(String, String)> = Vec::new();
    let mut i: usize = 0;
    while i < items.len()
        invariant
            i <= items@.len(),
            r@.len() == i,
            forall|k: int|
                0 <= k < i ==> (#[trigger] r@[k]).0@ == items@[k].0@ && r@[k].1@ == path_join(
                    items@[k].1@,
                    manifest_file@,
                ),
        decreases items.len() - i,
    {
        r.push((items[i].0.clone(), join(items[i].1.as_str(), manifest_file)));
        i = i + 1;
    }
    r
}

/// An entry of an origin's item directory, as the scan saw it.
pub struct ItemDirEntry {
    pub name: String,
    pub dir: String,
    /// A directory holding an item of the kind scanned for.
    pub present: bool,
}

/// The present items of one origin's scanned directory, as
/// `(<origin>/<name>, item dir)` in scan order.
pub fn collect_items(origin_name: &str, entries: &Vec<ItemDirEntry>) -> (r: Vec<(String, String)>)
    ensures
        pair_views(r@) == entries@.filter(|e: ItemDirEntry| e.present).map_values(
            |e: ItemDirEntry| (crate::origin::qualify(origin_name@, e.name@), e.dir@),
        ),
{
    let mut out: Vec<(String, String)> = Vec::new();
    let mut i: usize = 0;
    while i < entries.len()
        invariant
            i <= entries@.len(),
            pair_views(out@) =~= entries@.take(i as int).filter(|e: ItemDirEntry| e.present).map_values(
                |e: ItemDirEntry| (crate::origin::qualify(origin_name@, e.name@), e.dir@),
            ),
        decreases entries.len() - i,
    {
        proof {
            reveal_with_fuel(Seq::filter, 1);
            assert(entries@.take(i + 1).drop_last() =~= entries@.take(i as int));
        }
        if entries[i].present {
            let q = crate::origin::qualified_name(origin_name, entries[i].name.as_str());
            let ghost before = pair_views(out@);
            out.push((q, entries[i].dir.clone()));
            proof {
                assert(pair_views(out@) =~= before.push(
                    (crate::origin::qualify(origin_name@, entries@[i as int].name@), entries@[i as int].dir@),
                ));
            }
        }
        i = i + 1;
    }
    proof {
        assert(entries@.take(entries@.len() as int) =~= entries@);
    }
    out
}

/// The kind's directory in each of the first `i` local origins whose path
/// exists (`found[j]` answers for the `j`-th), as `(origin, dir)`.
pub open spec fn local_sources(
    ps: Seq<OriginSpec>,
    kind: Kind,
    found: Seq<bool>,
    i: int,
) -> Seq<(Seq<char>, Seq<char>)>
    decreases i,
{
    if i <= 0 {
        Seq::empty()
    } else {
        let prev = local_sources(ps, kind, found, i - 1);
        if i - 1 < found.len() && found[i - 1] {
            prev.push((ps[i - 1].name, path_join(ps[i - 1].location, kind_dir(kind))))
        } else {
            prev
        }
    }
}

/// Where discovery looks, given the workdir and which local origins' paths
/// exist: the workdir's directory for the kind, and the local sources.
pub open spec fn sources_spec(
    workdir: Seq<char>,
    origins: Seq<OriginSpec>,
    kind: Kind,
    found: Seq<bool>,
) -> (Seq<char>, Seq<(Seq<char>, Seq<char>)>) {
    let ps = origins.filter(|o: OriginSpec| spec_is_path(o));
    (path_join(workdir, kind_dir(kind)), local_sources(ps, kind, found, ps.len() as int))
}

/// Where discovery looks for items of a kind, given the workdir and, for
/// each local origin in registration order, whether its path exists: the
/// workdir's directory for the kind (holding one directory per origin), and
/// the kind's directory in each local origin whose path exists.
pub fn discover_sources_given(cfg: &Config, kind: Kind, workdir: &str, found: &Vec<bool>) -> (r: (
    String,
    Vec<(String, String)>,
))
    ensures
        (r.0@, pair_views(r.1@)) == sources_spec(workdir@, cfg@, kind, found@),
{
    let installed = join(workdir, kind.dir());
    let paths = cfg.path_origins();
    let ghost ps = cfg@.filter(|o: OriginSpec| spec_is_path(o));
    let mut locals: Vec<(String, String)> = Vec::new();
    let mut i: usize = 0;
    while i < paths.len()
        invariant
            i <= paths@.len(),
            ref_views(paths@) == ps,
            pair_views(locals@) =~= local_sources(ps, kind, found@, i as int),
        decreases paths.len() - i,
    {
        if i < found.len() && found[i] {
            let d = join(paths[i].location.as_str(), kind.dir());
            proof {
                assert(ps[i as int] == paths@[i as int]@);
            }
            let ghost before = pair_views(locals@);
            locals.push((paths[i].name.clone(), d));
            proof {
                assert(pair_views(locals@) =~= before.push((paths@[i as int]@.name, d@)));
            }
        }
        i = i + 1;
    }
    (installed, locals)
}

/// The flags say, for each local origin in registration order, what the
/// filesystem answered when asked whether its registered path exists.
pub open spec fn local_paths_answered(origins: Seq<OriginSpec>, found: Seq<bool>) -> bool {
    let ps = origins.filter(|o: OriginSpec| spec_is_path(o));
    &&& found.len() == ps.len()
    &&& forall|i: int|
        0 <= i < ps.len() ==> crate::paths::answered(ps[i].location, #[trigger] found[i])
}

/// The directory of `kind` in a local origin, labelled with its name.
pub open spec fn local_source(kind: Kind) -> spec_fn(OriginSpec) -> (Seq<char>, Seq<char>) {
    |o: OriginSpec| (o.name, path_join(o.location, kind_dir(kind)))
}

proof fn lemma_local_sources_prefix(
    ps: Seq<OriginSpec>,
    kind: Kind,
    found: Seq<bool>,
    fs: spec_fn(Seq<char>) -> bool,
    i: int,
)
    requires
        0 <= i <= ps.len(),
        found.len() == ps.len(),
        forall|k: int| 0 <= k < ps.len() ==> #[trigger] found[k] == fs(ps[k].location),
    ensures
        local_sources(ps, kind, found, i) == ps.take(i).filter(|o: OriginSpec| fs(o.location)).map_values(
            local_source(kind),
        ),
    decreases i,
{
    let p = |o: OriginSpec| fs(o.location);
    if i == 0 {
        assert(ps.take(0).filter(p) =~= Seq::<OriginSpec>::empty()) by {
            reveal_with_fuel(Seq::filter, 1);
        }
        assert(ps.take(0).filter(p).map_values(local_source(kind)) =~= Seq::<(Seq<char>, Seq<char>)>::empty());
    } else {
        lemma_local_sources_prefix(ps, kind, found, fs, i - 1);
        assert(ps.take(i) =~= ps.take(i - 1).push(ps[i - 1]));
        ps.take(i - 1).lemma_filter_push(ps[i - 1], p);
        let before = ps.take(i - 1).filter(p);
        assert(found[i - 1] == fs(ps[i - 1].location));
        if fs(ps[i - 1].location) {
            assert(before.push(ps[i - 1]).map_values(local_source(kind)) =~= before.map_values(
                local_source(kind),
            ).push((ps[i - 1].name, path_join(ps[i - 1].location, kind_dir(kind)))));
        }
    }
}

/// Against a filesystem that answers consistently (`fs` says which paths
/// exist), discovery searches exactly the local origins whose registered
/// path exists, in registration order, each at its directory for the kind:
/// no local origin with an existing path is left out, and no other is
/// searched.
pub proof fn law_discovery_searches_existing_local_origins(
    cfg: Seq<OriginSpec>,
    kind: Kind,
    workdir: Seq<char>,
    found: Seq<bool>,
    fs: spec_fn(Seq<char>) -> bool,
)
    requires
        local_paths_answered(cfg, found),
        crate::paths::probes_agree(fs),
    ensures
        sources_spec(workdir, cfg, kind, found).1 == cfg.filter(|o: OriginSpec| spec_is_path(o)).filter(
            |o: OriginSpec| fs(o.location),
        ).map_values(local_source(kind)),
{
    let ps = cfg.filter(|o: OriginSpec| spec_is_path(o));
    assert forall|k: int| 0 <= k < ps.len() implies #[trigger] found[k] == fs(ps[k].location) by {
        crate::paths::lemma_answered(fs, ps[k].location, found[k]);
    }
    lemma_local_sources_prefix(ps, kind, found, fs, ps.len() as int);
    assert(ps.take(ps.len() as int) =~= ps);
}

/// Where discovery looks for items of a kind (see `discover_sources_given`):
/// the workdir comes from the platform data directory, and whether each
/// local origin's path exists from the filesystem, asked of that path.
pub fn discover_sources(cfg: &Config, kind: Kind) -> (r: Result<
    (String, Vec<(String, String)>),
    LabError,
>)
    ensures
        r matches Err(e) ==> e is NoDataDir,
        r matches Ok((installed, locals)) ==> exists|w: Seq<char>, found: Seq<bool>|
            (installed@, pair_views(locals@)) == #[trigger] sources_spec(w, cfg@, kind, found)
                && local_paths_answered(cfg@, found),
{
    let w = crate::origin::workdir()?;
    let paths = cfg.path_origins();
    let ghost ps = cfg@.filter(|o: OriginSpec| spec_is_path(o));
    let mut found: Vec<bool> = Vec::new();
    let mut i: usize = 0;
    while i < paths.len()
        invariant
            i <= paths@.len(),
            ref_views(paths@) == ps,
            found@.len() == i,
            forall|k: int| 0 <= k < i ==> crate::paths::answered(ps[k].location, #[trigger] found@[k]),
        decreases paths.len() - i,
    {
        let b = crate::paths::probe_path(paths[i].location.clone());
        proof {
            assert(ps[i as int] == paths@[i as int]@);
        }
        found.push(b);
        i = i + 1;
    }
    let r = discover_sources_given(cfg, kind, w.as_str(), &found);
    Ok(r)
}

/// What a run, a bundle run or a build targets among the origins' items.
pub enum ItemSelection {
    /// Every discovered item (`--all`).
    All,
    /// One item: its reference and its directory.
    One(String, String),
}

/// Resolves what a command targets: every discovered item with `--all`,
/// else the selected `<origin>/<name>`, which must resolve to an item of
/// `kind` (see `resolve_item`).
pub fn select_items(cfg: &Config, kind: Kind, select: Option<&str>, all: bool) -> (r: Result<
    ItemSelection,
    LabError,
>)
    ensures
        all ==> (r matches Ok(ItemSelection::All)),
        !all ==> match select {
            None => (r matches Err(LabError::NoSelection(q)) && q),
            Some(s) => match r {
                Ok(ItemSelection::One(q, d)) => q@ == s@ && crate::origin::resolve_spec(
                    cfg@,
                    s@,
                    kind,
                    Ok(d),
                ),
                Ok(ItemSelection::All) => false,
                Err(e) => crate::origin::resolve_spec(cfg@, s@, kind, Err(e)),
            },
        },
{
    if all {
        return Ok(ItemSelection::All);
    }
    match select {
        None => Err(LabError::NoSelection(true)),
        Some(s) => {
            let dir = resolve_item(cfg, s, kind)?;
            Ok(ItemSelection::One(s.to_owned(), dir))
        },
    }
}

/// What a case run targets.
pub enum CaseSelection {
    /// A bare collection directory (`--cases-dir`), resolved as selected.
    FromDir(String, DirSelection),
    /// Every discovered case (`--all`).
    All,
    /// One case: its reference and the path of its `case.yaml`.
    One(String, String),
}

/// Resolves what a case run targets: the collection directory when one is
/// given (see `select_from_dir`), else the origins' cases (see
/// `select_items`), a selected case as the path of its `case.yaml`.
pub fn select_cases(cfg: &Config, select: Option<&str>, all: bool, cases_dir: Option<&str>) -> (r:
    Result<CaseSelection, LabError>)
    ensures
        match cases_dir {
            Some(d) => match r {
                Ok(CaseSelection::FromDir(x, s)) => x@ == d@ && (all ==> s is ScanAll) && (!all
                    ==> (s matches DirSelection::Named(n, p) && opt_str_view(select) == Some(n@)
                    && p@ == dir_item_path(d@, n@, "case.yaml"@))),
                Ok(_) => false,
                Err(e) => !all && match select {
                    None => e == LabError::NoSelection(false),
                    Some(n) => (e matches LabError::NotFound(p) && p@ == dir_item_path(
                        d@,
                        n@,
                        "case.yaml"@,
                    )),
                },
            },
            None => if all {
                r matches Ok(CaseSelection::All)
            } else {
                match select {
                    None => (r matches Err(LabError::NoSelection(q)) && q),
                    Some(s) => match r {
                        Ok(CaseSelection::One(q, p)) => q@ == s@ && match crate::text::split_once_spec(
                            s@,
                            '/',
                        ) {
                            Some((o, n)) => match spec_find(cfg@, o) {
                                Some(org) => if spec_is_path(org) {
                                    p@ == path_join(
                                        crate::origin::local_item_dir(org.location, Kind::Cases, n),
                                        "case.yaml"@,
                                    )
                                } else {
                                    exists|w: Seq<char>|
                                        p@ == path_join(
                                            #[trigger] crate::origin::installed_item_dir(
                                                w,
                                                Kind::Cases,
                                                o,
                                                n,
                                            ),
                                            "case.yaml"@,
                                        )
                                },
                                None => false,
                            },
                            None => false,
                        },
                        Ok(_) => false,
                        Err(e) => crate::origin::resolve_spec(cfg@, s@, Kind::Cases, Err(e)),
                    },
                }
            },
        },
{
    match cases_dir {
        Some(d) => {
            let s = select_from_dir(d, "case.yaml", select, all)?;
            Ok(CaseSelection::FromDir(d.to_owned(), s))
        },
        None => match select_items(cfg, Kind::Cases, select, all)? {
            ItemSelection::All => Ok(CaseSelection::All),
            ItemSelection::One(q, dir) => Ok(CaseSelection::One(q, join(dir.as_str(), "case.yaml"))),
        },
    }
}

/// A run, bundle run or build that selected nothing fails: there is no
/// matching `what` to act on.
pub fn check_selected(count: usize, what: &str) -> (r: Result<(), LabError>)
    ensures
        count > 0 ==> r is Ok,
        count == 0 ==> (r matches Err(LabError::NothingSelected(w)) && w@ == what@),
{
    if count > 0 {
        Ok(())
    } else {
        Err(LabError::NothingSelected(what.to_owned()))
    }
}

/// The origins `origin remote update` refreshes: every remote origin with
/// `--all`, else the named one, which must be registered.
pub fn update_targets<'a>(cfg: &'a Config, name: Option<&str>, all: bool) -> (r: Result<
    Vec<&'a OriginConfig>,
    LabError,
>)
    ensures
        all ==> (r matches Ok(v) && ref_views(v@) == cfg@.filter(|o: OriginSpec| spec_is_git(o))),
        !all ==> match name {
            None => r matches Err(LabError::NoOriginGiven),
            Some(n) => match spec_find(cfg@, n@) {
                Some(o) => (r matches Ok(v) && ref_views(v@) == seq![o]),
                None => (r matches Err(LabError::NoSuchOrigin(m)) && m@ == n@),
            },
        },
{
    if all {
        return Ok(cfg.git_origins());
    }
    match name {
        None => Err(LabError::NoOriginGiven),
        Some(n) => match cfg.find(n) {
            Some(o) => {
                let mut v: Vec<&OriginConfig> = Vec::new();
                v.push(o);
                assert(ref_views(v@) =~= seq![o@]);
                Ok(v)
            },
            None => Err(LabError::NoSuchOrigin(n.to_owned())),
        },
    }
}

/// `origin remote rm` and `origin local rm` act only on a registered origin
/// of their own kind.
pub fn check_removable(cfg: &Config, name: &str, remote: bool) -> (r: Result<(), LabError>)
    ensures
        match spec_find(cfg@, name@) {
            None => (r matches Err(LabError::NoSuchOrigin(m)) && m@ == name@),
            Some(o) => if remote {
                if spec_is_git(o) {
                    r is Ok
                } else {
                    (r matches Err(LabError::NotRemote(m)) && m@ == name@)
                }
            } else {
                if spec_is_path(o) {
                    r is Ok
                } else {
                    (r matches Err(LabError::NotLocal(m)) && m@ == name@)
                }
            },
        },
{
    match cfg.find(name) {
        None => Err(LabError::NoSuchOrigin(name.to_owned())),
        Some(o) => {
            if remote {
                if o.is_git() {
                    Ok(())
                } else {
                    Err(LabError::NotRemote(name.to_owned()))
                }
            } else {
                if o.is_path() {
                    Ok(())
                } else {
                    Err(LabError::NotLocal(name.to_owned()))
                }
            }
        },
    }
}

// --- verdicts ------------------------------------------------------------------------

/// The banner's run mode.
pub fn run_mode(local_loadsmith: bool) -> (r: &'static str)
    ensures
        r@ == if local_loadsmith {
            "local loadsmith"@
        } else {
            "remote image"@
        },
{
    if local_loadsmith {
        "local loadsmith"
    } else {
        "remote image"
    }
}

/// Every case of the run passed.
pub open spec fn all_passed_spec(results: Seq<CaseResult>) -> bool {
    forall|i: int| 0 <= i < results.len() ==> (#[trigger] results[i]).passed
}

/// True when every case of the run passed: the run's exit status.
pub fn all_passed(results: &Vec<CaseResult>) -> (r: bool)
    ensures
        r == all_passed_spec(results@),
{
    let mut i: usize = 0;
    while i < results.len()
        invariant
            i <= results@.len(),
            forall|k: int| 0 <= k < i ==> (#[trigger] results@[k]).passed,
        decreases results.len() - i,
    {
        if !results[i].passed {
            return false;
        }
        i = i + 1;
    }
    true
}

/// The result recorded for a case whose run failed with an error: failed,
/// with the error as its only failure (and a zero duration, which is not
/// stated: `Duration` is opaque here).
pub fn errored_case(name: &str, message: String) -> (r: CaseResult)
    ensures
        r.name@ == name@,
        r.description is None,
        !r.passed,
        r.failures@ == seq![message],
        r.rows_read is None,
        r.rows_written is None,
        r.prep_lines@.len() == 0,
        r.loadsmith_output@.len() == 0,
        r.output_dir@.len() == 0,
{
    let mut failures: Vec<String> = Vec::new();
    failures.push(message);
    let r = CaseResult {
        name: name.to_owned(),
        description: None,
        passed: false,
        duration: crate::report::zero_duration(),
        rows_read: None,
        rows_written: None,
        prep_lines: Vec::new(),
        loadsmith_output: String::new(),
        failures,
        output_dir: String::new(),
    };
    assert(r.failures@ =~= seq![message]);
    r
}

// --- listings -------------------------------------------------------------------------

/// `s` padded with spaces on the right to at least `width` characters.
pub open spec fn pad_spec(s: Seq<char>, width: nat) -> Seq<char> {
    if s.len() >= width {
        s
    } else {
        s + Seq::new((width - s.len()) as nat, |i: int| ' ')
    }
}

pub fn pad_right(s: &str, width: usize) -> (r: String)
    ensures
        r@ == pad_spec(s@, width as nat),
{
    let mut v = crate::text::chars_of(s);
    let n = v.len();
    while v.len() < width
        invariant
            n == s@.len(),
            n <= v@.len(),
            v@.len() <= if n >= width { n as nat } else { width as nat },
            v@ =~= s@ + Seq::new((v@.len() - n) as nat, |i: int| ' '),
        decreases width - v.len(),
    {
        v.push(' ');
    }
    crate::text::string_from_chars(v.as_slice())
}

/// One line of `origin list`: whether the origin is remote or local, its
/// name padded to 16 characters, and its location.
pub open spec fn origin_line_spec(o: OriginSpec) -> Seq<char> {
    "  "@ + (if spec_is_git(o) {
        "remote"@
    } else {
        "local "@
    }) + "  "@ + pad_spec(o.name, 16) + "  "@ + o.location
}

pub fn origin_line(o: &OriginConfig) -> (r: String)
    ensures
        r@ == origin_line_spec(o@),
{
    let mut v = crate::text::chars_of("  ");
    if o.is_git() {
        crate::text::push_str(&mut v, "remote");
    } else {
        crate::text::push_str(&mut v, "local ");
    }
    crate::text::push_str(&mut v, "  ");
    crate::text::push_str(&mut v, pad_right(o.name.as_str(), 16).as_str());
    crate::text::push_str(&mut v, "  ");
    crate::text::push_str(&mut v, o.location.as_str());
    crate::text::string_from_chars(v.as_slice())
}

/// What a local origin provides, as `origin local list` shows it.
pub open spec fn provides_spec(m: crate::origin::Manifest) -> Seq<char> {
    crate::text::decimal(m.cases@.len()) + " cases, "@ + crate::text::decimal(m.bundles@.len())
        + " bundles, "@ + crate::text::decimal(m.images@.len()) + " images"@
}

pub fn provides_text(m: &crate::origin::Manifest) -> (r: String)
    ensures
        r@ == provides_spec(*m),
{
    let mut v: Vec<char> = Vec::new();
    crate::text::push_str(&mut v, crate::text::u64_to_string(m.cases.len() as u64).as_str());
    crate::text::push_str(&mut v, " cases, ");
    crate::text::push_str(&mut v, crate::text::u64_to_string(m.bundles.len() as u64).as_str());
    crate::text::push_str(&mut v, " bundles, ");
    crate::text::push_str(&mut v, crate::text::u64_to_string(m.images.len() as u64).as_str());
    crate::text::push_str(&mut v, " images");
    crate::text::string_from_chars(v.as_slice())
}

/// One item line of `origin show`: `  <origin>/<item>  — <description>`.
pub open spec fn offer_line_spec(origin: Seq<char>, item: Seq<char>, desc: Seq<char>) -> Seq<char> {
    "  "@ + origin + "/"@ + item + "  — "@ + desc
}

pub fn offer_line(origin: &str, item: &str, desc: &str) -> (r: String)
    ensures
        r@ == offer_line_spec(origin@, item@, desc@),
{
    let mut v = crate::text::chars_of("  ");
    crate::text::push_str(&mut v, origin);
    crate::text::push_str(&mut v, "/");
    crate::text::push_str(&mut v, item);
    crate::text::push_str(&mut v, "  — ");
    crate::text::push_str(&mut v, desc);
    crate::text::string_from_chars(v.as_slice())
}

// --- install and uninstall ------------------------------------------------------

/// `install <name>`: one item for `<origin>/<item>`, everything the origin
/// offers for a bare `<origin>` (see `install_target` and `install`).
pub fn cmd_install(cfg: &Config, name: &str) -> (r: (crate::install::Installer, crate::install::InstallAction))
    ensures
        r.0.wf(),
        r.0.seen_keys() == Seq::<(crate::origin::Kind, Seq<char>, Seq<char>)>::empty(),
        r.0.requested_keys() == Set::<(crate::origin::Kind, Seq<char>, Seq<char>)>::empty(),
        ({
            let o = match crate::text::split_once_spec(name@, '/') {
                Some((o, _)) => o,
                None => name@,
            };
            match spec_find(cfg@, o) {
                None => (r.1 matches crate::install::InstallAction::Failed(LabError::NoSuchOrigin(m))
                    && m@ == o),
                Some(org) => if spec_is_git(org) {
                    &&& (r.1 matches crate::install::InstallAction::LoadManifest(x) && x@ == org)
                    &&& r.0.awaits_manifest()
                    &&& r.0.pending_request() == (o, match crate::text::split_once_spec(name@, '/') {
                        Some((_, i)) => Some(i),
                        None => None,
                    })
                } else {
                    (r.1 matches crate::install::InstallAction::Failed(
                        LabError::LocalOriginNoInstall(m),
                    ) && m@ == o)
                },
            }
        }),
{
    let (origin, item) = crate::install::install_target(name);
    match &item {
        Some(i) => crate::install::install(cfg, origin.as_str(), Some(i.as_str())),
        None => crate::install::install(cfg, origin.as_str(), None),
    }
}

/// `uninstall <origin>/<name>`: the reference must be qualified; the
/// directories it may occupy follow (see `uninstall`).
pub fn cmd_uninstall(name: &str) -> (r: Result<(String, String, Vec<(Kind, String)>), LabError>)
    ensures
        match crate::text::split_once_spec(name@, '/') {
            None => (r matches Err(LabError::NotQualified(q)) && q@ == name@),
            Some((o, i)) => match r {
                Ok((a, b, v)) => a@ == o && b@ == i && exists|w: Seq<char>|
                    crate::install::entry_views(v@) == #[trigger] crate::install::uninstall_dirs(
                        w,
                        o,
                        i,
                    ),
                Err(e) => e is NoDataDir,
            },
        },
{
    let (o, i) = crate::origin::split_qualified(name)?;
    let v = crate::install::uninstall(o.as_str(), i.as_str())?;
    Ok((o, i, v))
}

} // verus!
