use loadsmith_lab::commands::{
    all_passed, check_removable, cmd_install, cmd_uninstall, collect_items, dir_listing,
    discover_sources, discover_sources_given, offer_line, origin_line, pad_right, provides_text, run_mode, select_cases,
    select_from_dir, select_items, update_targets, with_manifest_file, CaseSelection,
    DirEntryInfo, DirSelection, ItemDirEntry, ItemSelection,
};
use loadsmith_lab::error::LabError;
use loadsmith_lab::install::InstallAction;
use loadsmith_lab::origin::{Config, Kind, Manifest, OriginConfig};
use loadsmith_lab::report::CaseResult;

fn origin(name: &str, source: &str, location: &str) -> OriginConfig {
    OriginConfig { name: name.to_string(), source: source.to_string(), location: location.to_string() }
}

fn cfg() -> Config {
    Config {
        origins: vec![
            origin("catalog", "git", "https://github.com/loadsmith-el/loadsmith-lab-catalog.git"),
            origin("dev", "path", "/definitely/missing/dev-origin"),
        ],
    }
}

#[test]
fn selecting_from_a_directory() {
    assert!(matches!(select_from_dir("/cases", "case.yaml", None, true), Ok(DirSelection::ScanAll)));
    assert_eq!(select_from_dir("/cases", "case.yaml", None, false).err(), Some(LabError::NoSelection(false)));
    assert_eq!(
        select_from_dir("/definitely/missing", "case.yaml", Some("pg"), false).err(),
        Some(LabError::NotFound("/definitely/missing/pg/case.yaml".to_string()))
    );
}

#[test]
fn directory_listing_is_sorted_and_filtered() {
    let e = |name: &str, is_dir: bool, has_manifest: bool| DirEntryInfo { name: name.to_string(), is_dir, has_manifest };
    let out = dir_listing(
        "/cases",
        "case.yaml",
        &vec![e("b", true, true), e("a", true, true), e("README.md", false, false), e("empty", true, false)],
    );
    assert_eq!(
        out,
        vec![
            ("a".to_string(), "/cases/a/case.yaml".to_string()),
            ("b".to_string(), "/cases/b/case.yaml".to_string()),
        ]
    );
}

#[test]
fn discovery_pieces() {
    let items = collect_items(
        "catalog",
        &vec![
            ItemDirEntry { name: "pg".to_string(), dir: "/w/cases/catalog/pg".to_string(), present: true },
            ItemDirEntry { name: "junk".to_string(), dir: "/w/cases/catalog/junk".to_string(), present: false },
        ],
    );
    assert_eq!(items, vec![("catalog/pg".to_string(), "/w/cases/catalog/pg".to_string())]);
    assert_eq!(
        with_manifest_file(&items, "case.yaml"),
        vec![("catalog/pg".to_string(), "/w/cases/catalog/pg/case.yaml".to_string())]
    );
    if let Ok((installed, locals)) = discover_sources(&cfg(), Kind::Bundles) {
        assert!(installed.ends_with("/loadsmith-lab/installed/bundles"));
        // the local origin's path does not exist, so it is not searched
        assert!(locals.is_empty());
    }
}

#[test]
fn selecting_cases() {
    let c = cfg();
    assert!(matches!(select_cases(&c, None, true, None), Ok(CaseSelection::All)));
    assert_eq!(select_cases(&c, None, false, None).err().map(|e| e == LabError::NoSelection(true)), Some(true));
    assert!(matches!(select_cases(&c, Some("x"), false, None), Err(LabError::NotQualified(_))));
    assert!(matches!(select_cases(&c, Some("nope/x"), false, None), Err(LabError::UnknownOrigin(_))));
    assert!(matches!(
        select_cases(&c, None, true, Some("/cases")),
        Ok(CaseSelection::FromDir(ref d, DirSelection::ScanAll)) if d == "/cases"
    ));
    assert!(matches!(select_items(&c, Kind::Images, None, true), Ok(ItemSelection::All)));
    assert!(matches!(select_items(&c, Kind::Images, None, false), Err(LabError::NoSelection(true))));
}

#[test]
fn update_and_removal_targets() {
    let c = cfg();
    let all = update_targets(&c, None, true).unwrap();
    assert_eq!(all.len(), 1);
    assert_eq!(all[0].name, "catalog");
    assert_eq!(update_targets(&c, Some("dev"), false).unwrap()[0].name, "dev");
    assert_eq!(update_targets(&c, None, false).err(), Some(LabError::NoOriginGiven));
    assert_eq!(update_targets(&c, Some("nope"), false).err(), Some(LabError::NoSuchOrigin("nope".to_string())));

    assert_eq!(check_removable(&c, "catalog", true), Ok(()));
    assert_eq!(check_removable(&c, "catalog", false), Err(LabError::NotLocal("catalog".to_string())));
    assert_eq!(check_removable(&c, "dev", false), Ok(()));
    assert_eq!(check_removable(&c, "dev", true), Err(LabError::NotRemote("dev".to_string())));
    assert_eq!(check_removable(&c, "nope", true), Err(LabError::NoSuchOrigin("nope".to_string())));
}

#[test]
fn install_and_uninstall_commands() {
    let c = cfg();
    let (inst, a) = cmd_install(&c, "catalog/pg");
    assert!(matches!(a, InstallAction::LoadManifest(ref o) if o.name == "catalog"));
    assert!(inst.expects_manifest());
    let (_, a) = cmd_install(&c, "dev");
    assert!(matches!(a, InstallAction::Failed(LabError::LocalOriginNoInstall(ref n)) if n == "dev"));
    let (_, a) = cmd_install(&c, "nope/x");
    assert!(matches!(a, InstallAction::Failed(LabError::NoSuchOrigin(ref n)) if n == "nope"));

    assert_eq!(cmd_uninstall("noslash").err(), Some(LabError::NotQualified("noslash".to_string())));
    if let Ok((o, i, dirs)) = cmd_uninstall("catalog/pg") {
        assert_eq!((o.as_str(), i.as_str()), ("catalog", "pg"));
        assert_eq!(dirs.len(), 3);
        assert!(dirs[1].1.ends_with("/bundles/catalog/pg"));
    }
}

#[test]
fn run_verdicts() {
    assert_eq!(run_mode(true), "local loadsmith");
    assert_eq!(run_mode(false), "remote image");
    let r = |passed: bool| CaseResult {
        name: "c".to_string(),
        description: None,
        passed,
        duration: std::time::Duration::ZERO,
        rows_read: None,
        rows_written: None,
        prep_lines: vec![],
        loadsmith_output: String::new(),
        failures: vec![],
        output_dir: String::new(),
    };
    assert!(all_passed(&vec![r(true), r(true)]));
    assert!(!all_passed(&vec![r(true), r(false)]));
    assert!(all_passed(&vec![]));
}

#[test]
fn listing_lines() {
    assert_eq!(pad_right("ab", 4), "ab  ");
    assert_eq!(pad_right("abcdef", 4), "abcdef");
    let c = cfg();
    assert_eq!(
        origin_line(&c.origins[0]),
        "  remote  catalog           https://github.com/loadsmith-el/loadsmith-lab-catalog.git"
    );
    assert_eq!(origin_line(&c.origins[1]), "  local   dev               /definitely/missing/dev-origin");
    let m = Manifest {
        cases: vec![("pg".to_string(), "Postgres".to_string())],
        bundles: vec![],
        images: vec![("a".to_string(), "A".to_string()), ("b".to_string(), "B".to_string())],
    };
    assert_eq!(provides_text(&m), "1 cases, 0 bundles, 2 images");
    assert_eq!(offer_line("catalog", "pg", "Postgres to JSONL"), "  catalog/pg  — Postgres to JSONL");
}

#[test]
fn discovery_sources_given_answers() {
    let cfg = Config {
        origins: vec![
            origin("catalog", "git", "u"),
            origin("dev", "path", "/work/dev"),
            origin("gone", "path", "/work/gone"),
            origin("more", "path", "/work/more/"),
        ],
    };
    let (installed, locals) = discover_sources_given(&cfg, Kind::Images, "/w", &vec![true, false, true]);
    assert_eq!(installed, "/w/images");
    assert_eq!(
        locals,
        vec![
            ("dev".to_string(), "/work/dev/images".to_string()),
            ("more".to_string(), "/work/more/images".to_string()),
        ]
    );
}

#[test]
fn an_empty_selection_fails() {
    assert_eq!(loadsmith_lab::commands::check_selected(2, "cases"), Ok(()));
    assert_eq!(
        loadsmith_lab::commands::check_selected(0, "bundles"),
        Err(LabError::NothingSelected("bundles".to_string()))
    );
}
