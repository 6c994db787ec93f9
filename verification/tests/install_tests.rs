use loadsmith_lab::error::LabError;
use loadsmith_lab::install::{
    install, install_target, matching_entries, uninstall, uninstall_outcome, InstallAction,
    Installer,
};
use loadsmith_lab::origin::{installed_item_path, workdir, Config, Kind, Manifest, OriginConfig};

fn origin(name: &str, source: &str, location: &str) -> OriginConfig {
    OriginConfig { name: name.to_string(), source: source.to_string(), location: location.to_string() }
}

fn pairs(v: &[(&str, &str)]) -> Vec<(String, String)> {
    v.iter().map(|(a, b)| (a.to_string(), b.to_string())).collect()
}

fn cfg() -> Config {
    Config {
        origins: vec![
            origin("catalog", "git", "https://example.invalid/catalog.git"),
            origin("more", "git", "https://example.invalid/more.git"),
            origin("dev", "path", "/work/dev"),
        ],
    }
}

fn catalog_manifest() -> Manifest {
    Manifest {
        cases: pairs(&[("pg", "Postgres"), ("mysql", "MySQL")]),
        bundles: pairs(&[("smoke", "Smoke bundle")]),
        images: pairs(&[("postgres-15", "PG image")]),
    }
}

fn expect_copy(a: InstallAction) -> (Kind, String, String, String, String) {
    match a {
        InstallAction::Copy(c) => (c.kind, c.origin, c.name, c.src, c.dest),
        InstallAction::Failed(e) => panic!("expected a copy, got error {e:?}"),
        InstallAction::Done => panic!("expected a copy, got done"),
        InstallAction::LoadManifest(o) => panic!("expected a copy, got manifest of {}", o.name),
        InstallAction::ReadBundle(p) => panic!("expected a copy, got bundle {p}"),
    }
}

fn start(cfg: &Config, origin: &str, item: Option<&str>) -> Installer {
    let (inst, action) = install(cfg, origin, item);
    match action {
        InstallAction::LoadManifest(o) => assert_eq!(o.name, origin),
        _ => panic!("expected a manifest request"),
    }
    assert!(inst.expects_manifest());
    inst
}

#[test]
fn matching_entries_in_install_order() {
    let m = catalog_manifest();
    let all = matching_entries(&m, None);
    assert_eq!(
        all,
        vec![
            (Kind::Cases, "pg".to_string()),
            (Kind::Cases, "mysql".to_string()),
            (Kind::Bundles, "smoke".to_string()),
            (Kind::Images, "postgres-15".to_string()),
        ]
    );
    assert_eq!(matching_entries(&m, Some("smoke")), vec![(Kind::Bundles, "smoke".to_string())]);
    assert!(matching_entries(&m, Some("nope")).is_empty());
}

#[test]
fn install_refuses_unknown_and_local_origins() {
    let c = cfg();
    let (_, a) = install(&c, "nope", None);
    assert!(matches!(a, InstallAction::Failed(LabError::NoSuchOrigin(ref n)) if n == "nope"));
    let (_, a) = install(&c, "dev", Some("x"));
    assert!(matches!(a, InstallAction::Failed(LabError::LocalOriginNoInstall(ref n)) if n == "dev"));
}

#[test]
fn install_one_item() {
    let c = cfg();
    let w = match workdir() {
        Ok(w) => w,
        Err(_) => return,
    };
    let mut inst = start(&c, "catalog", Some("pg"));
    let a = inst.manifest_loaded(&c, "/cache/catalog", catalog_manifest());
    let (kind, o, n, src, dest) = expect_copy(a);
    assert_eq!((kind, o.as_str(), n.as_str()), (Kind::Cases, "catalog", "pg"));
    assert_eq!(src, "/cache/catalog/cases/pg");
    assert_eq!(dest, installed_item_path(&w, Kind::Cases, "catalog", "pg"));
    assert!(inst.expects_copy());
    assert!(matches!(inst.copied(&c, true), InstallAction::Done));
}

#[test]
fn install_reports_missing_item_and_empty_manifest() {
    let c = cfg();
    if workdir().is_err() {
        return;
    }
    let mut inst = start(&c, "catalog", Some("nope"));
    let a = inst.manifest_loaded(&c, "/cache/catalog", catalog_manifest());
    assert!(matches!(a, InstallAction::Failed(LabError::NoSuchItem(ref o, ref i)) if o == "catalog" && i == "nope"));

    let mut inst = start(&c, "catalog", None);
    let empty = Manifest { cases: vec![], bundles: vec![], images: vec![] };
    let a = inst.manifest_loaded(&c, "/cache/catalog", empty);
    assert!(matches!(a, InstallAction::Failed(LabError::EmptyManifest(ref o)) if o == "catalog"));
}

#[test]
fn install_fails_when_a_listed_item_is_missing() {
    let c = cfg();
    if workdir().is_err() {
        return;
    }
    let mut inst = start(&c, "catalog", Some("mysql"));
    let _ = expect_copy(inst.manifest_loaded(&c, "/cache/catalog", catalog_manifest()));
    match inst.copied(&c, false) {
        InstallAction::Failed(LabError::ManifestItemMissing(k, n, d, o)) => {
            assert_eq!(k, Kind::Cases);
            assert_eq!(n, "mysql");
            assert_eq!(d, "/cache/catalog/cases/mysql");
            assert_eq!(o, "catalog");
        }
        _ => panic!("expected ManifestItemMissing"),
    }
}

#[test]
fn installing_a_bundle_installs_its_cases_once() {
    let c = cfg();
    if workdir().is_err() {
        return;
    }
    // Everything of `catalog`: pg, mysql, then the bundle, whose cases are
    // catalog/pg (already copied), more/extra, and dev/live (local, skipped).
    let mut inst = start(&c, "catalog", None);
    let (_, _, n, _, _) = expect_copy(inst.manifest_loaded(&c, "/cache/catalog", catalog_manifest()));
    assert_eq!(n, "pg");
    let (_, _, n, _, _) = expect_copy(inst.copied(&c, true));
    assert_eq!(n, "mysql");
    let (k, _, n, _, dest) = expect_copy(inst.copied(&c, true));
    assert_eq!((k, n.as_str()), (Kind::Bundles, "smoke"));
    let bundle_file = match inst.copied(&c, true) {
        InstallAction::ReadBundle(p) => p,
        _ => panic!("expected the bundle to be read"),
    };
    assert_eq!(bundle_file, format!("{dest}/bundle.yaml"));
    assert!(inst.expects_bundle());
    let a = inst.install_bundle_deps(
        &c,
        "smoke".to_string(),
        vec!["catalog/pg".to_string(), "dev/live".to_string(), "more/extra".to_string()],
    );
    // catalog/pg was copied already: the dependency request re-reads the
    // catalog manifest and copies nothing new.
    match a {
        InstallAction::LoadManifest(o) => assert_eq!(o.name, "catalog"),
        _ => panic!("expected the catalog manifest"),
    }
    let a = inst.manifest_loaded(&c, "/cache/catalog", catalog_manifest());
    // dev/live is local: skipped; more/extra comes next.
    match a {
        InstallAction::LoadManifest(o) => assert_eq!(o.name, "more"),
        _ => panic!("expected the manifest of `more`"),
    }
    let more = Manifest { cases: pairs(&[("extra", "Extra")]), bundles: vec![], images: vec![] };
    let (_, o, n, src, _) = expect_copy(inst.manifest_loaded(&c, "/cache/more", more));
    assert_eq!((o.as_str(), n.as_str(), src.as_str()), ("more", "extra", "/cache/more/cases/extra"));
    // back in catalog: the image, then the end.
    let (k, _, n, _, _) = expect_copy(inst.copied(&c, true));
    assert_eq!((k, n.as_str()), (Kind::Images, "postgres-15"));
    assert!(matches!(inst.copied(&c, true), InstallAction::Done));
}

#[test]
fn bundle_dependencies_that_are_not_installable_fail() {
    let c = cfg();
    if workdir().is_err() {
        return;
    }
    let run_to_bundle = |c: &Config| {
        let mut inst = start(c, "catalog", Some("smoke"));
        let _ = expect_copy(inst.manifest_loaded(c, "/cache/catalog", catalog_manifest()));
        assert!(matches!(inst.copied(c, true), InstallAction::ReadBundle(_)));
        inst
    };
    let mut inst = run_to_bundle(&c);
    let a = inst.install_bundle_deps(&c, "smoke".to_string(), vec!["unqualified".to_string()]);
    assert!(matches!(a, InstallAction::Failed(LabError::NotQualified(ref q)) if q == "unqualified"));

    let mut inst = run_to_bundle(&c);
    let a = inst.install_bundle_deps(&c, "smoke".to_string(), vec!["ghost/x".to_string()]);
    match a {
        InstallAction::Failed(LabError::UnregisteredCaseOrigin(b, r, o)) => {
            assert_eq!((b.as_str(), r.as_str(), o.as_str()), ("smoke", "ghost/x", "ghost"));
        }
        _ => panic!("expected UnregisteredCaseOrigin"),
    }

    let mut inst = run_to_bundle(&c);
    let a = inst.install_bundle_deps(&c, "smoke".to_string(), vec!["dev/live".to_string()]);
    assert!(matches!(a, InstallAction::Done));
}

#[test]
fn install_target_splits_item_from_origin() {
    assert_eq!(install_target("catalog/pg"), ("catalog".to_string(), Some("pg".to_string())));
    assert_eq!(install_target("catalog"), ("catalog".to_string(), None));
}

#[test]
fn uninstall_paths_and_outcome() {
    if let Ok(v) = uninstall("catalog", "pg") {
        let w = workdir().unwrap();
        assert_eq!(
            v,
            vec![
                (Kind::Cases, format!("{w}/cases/catalog/pg")),
                (Kind::Bundles, format!("{w}/bundles/catalog/pg")),
                (Kind::Images, format!("{w}/images/catalog/pg")),
            ]
        );
    }
    assert_eq!(uninstall_outcome("catalog", "pg", true), Ok(()));
    assert_eq!(
        uninstall_outcome("catalog", "pg", false),
        Err(LabError::NotInstalled("catalog".to_string(), "pg".to_string()))
    );
}

#[test]
fn an_item_listed_under_two_kinds_is_copied_under_each() {
    let c = cfg();
    if workdir().is_err() {
        return;
    }
    let m = Manifest {
        cases: pairs(&[("pg", "Postgres case")]),
        bundles: vec![],
        images: pairs(&[("pg", "Postgres image")]),
    };
    let mut inst = start(&c, "catalog", None);
    let (k, o, n, src, _) = expect_copy(inst.manifest_loaded(&c, "/cache/catalog", m));
    assert_eq!((k, o.as_str(), n.as_str(), src.as_str()), (Kind::Cases, "catalog", "pg", "/cache/catalog/cases/pg"));
    let (k, o, n, src, _) = expect_copy(inst.copied(&c, true));
    assert_eq!((k, o.as_str(), n.as_str(), src.as_str()), (Kind::Images, "catalog", "pg", "/cache/catalog/images/pg"));
    assert!(matches!(inst.copied(&c, true), InstallAction::Done));
}
