use loadsmith_lab::error::LabError;
use loadsmith_lab::origin::{
    origin_root_given, update_origin_given, item_location, located_item, ItemLocation, available, available_among, config_path_from, origin_root, update_origin, OriginUpdate, default_config, image_tag, local_item_path, manifest_of,
    origin_cache_dir_from, qualified_name, resolve_item, split_qualified, update_available,
    update_hint, update_hints, workdir_from, Config, Kind, Manifest, OriginConfig,
};

fn origin(name: &str, source: &str, location: &str) -> OriginConfig {
    OriginConfig { name: name.to_string(), source: source.to_string(), location: location.to_string() }
}

fn pairs(v: &[(&str, &str)]) -> Vec<(String, String)> {
    v.iter().map(|(a, b)| (a.to_string(), b.to_string())).collect()
}

#[test]
fn default_config_seeds_catalog_and_images() {
    let cfg = default_config();
    assert_eq!(cfg.origins.len(), 2);
    assert_eq!(cfg.origins[0].name, "catalog");
    assert_eq!(cfg.origins[0].source, "git");
    assert_eq!(cfg.origins[0].location, "https://github.com/loadsmith-el/loadsmith-lab-catalog.git");
    assert_eq!(cfg.origins[1].name, "images");
    assert_eq!(cfg.origins[1].location, "https://github.com/loadsmith-el/loadsmith-lab-images.git");
    assert!(cfg.origins.iter().all(|o| o.is_git() && !o.is_path()));
}

#[test]
fn kind_directories_and_markers() {
    assert_eq!(Kind::Cases.dir(), "cases");
    assert_eq!(Kind::Bundles.dir(), "bundles");
    assert_eq!(Kind::Images.dir(), "images");
    assert_eq!(Kind::Cases.item_manifest(), Some("case.yaml"));
    assert_eq!(Kind::Bundles.item_manifest(), Some("bundle.yaml"));
    assert_eq!(Kind::Images.item_manifest(), None);
    assert_eq!(Kind::all(), [Kind::Cases, Kind::Bundles, Kind::Images]);
}

#[test]
fn find_gives_the_first_origin_of_a_name() {
    let cfg = Config {
        origins: vec![origin("a", "git", "u1"), origin("b", "path", "/p"), origin("a", "path", "/q")],
    };
    assert_eq!(cfg.find("a").unwrap().location, "u1");
    assert_eq!(cfg.find("b").unwrap().location, "/p");
    assert!(cfg.find("c").is_none());
    let gits: Vec<&str> = cfg.git_origins().iter().map(|o| o.name.as_str()).collect();
    assert_eq!(gits, vec!["a"]);
    let paths: Vec<&str> = cfg.path_origins().iter().map(|o| o.location.as_str()).collect();
    assert_eq!(paths, vec!["/p", "/q"]);
}

#[test]
fn register_then_find_gives_the_new_origin() {
    let mut cfg = default_config();
    cfg.register(origin("catalog", "path", "/work/catalog"));
    assert_eq!(cfg.origins.len(), 2);
    assert_eq!(cfg.origins[0].name, "images");
    let found = cfg.find("catalog").unwrap();
    assert!(found.is_path());
    assert_eq!(found.location, "/work/catalog");
    // the other origin is untouched
    assert_eq!(cfg.find("images").unwrap().location, "https://github.com/loadsmith-el/loadsmith-lab-images.git");
}

#[test]
fn deregister_removes_every_origin_of_the_name() {
    let mut cfg = Config {
        origins: vec![origin("a", "git", "u1"), origin("b", "path", "/p"), origin("a", "path", "/q")],
    };
    cfg.deregister("a");
    assert!(cfg.find("a").is_none());
    assert_eq!(cfg.origins.len(), 1);
    assert_eq!(cfg.find("b").unwrap().location, "/p");
}

#[test]
fn split_qualified_splits_at_the_first_slash() {
    assert_eq!(split_qualified("catalog/postgres-to-jsonl").unwrap(), ("catalog".to_string(), "postgres-to-jsonl".to_string()));
    assert_eq!(split_qualified("a/b/c").unwrap(), ("a".to_string(), "b/c".to_string()));
    assert_eq!(split_qualified("noslash"), Err(LabError::NotQualified("noslash".to_string())));
}

#[test]
fn split_qualified_reads_back_a_qualified_name() {
    let q = qualified_name("catalog", "pg/extra");
    assert_eq!(q, "catalog/pg/extra");
    assert_eq!(split_qualified(&q).unwrap(), ("catalog".to_string(), "pg/extra".to_string()));
}

#[test]
fn image_tag_is_local_and_namespaced() {
    assert_eq!(image_tag("images/postgres-15"), "loadsmith-lab/images/postgres-15:local");
}

#[test]
fn platform_directories() {
    assert_eq!(config_path_from(Some("/home/u/.config")), Ok("/home/u/.config/loadsmith-lab/origins.toml".to_string()));
    assert_eq!(config_path_from(None), Err(LabError::NoConfigDir));
    assert_eq!(workdir_from(Some("/home/u/.local/share")), Ok("/home/u/.local/share/loadsmith-lab/installed".to_string()));
    assert_eq!(workdir_from(None), Err(LabError::NoDataDir));
    assert_eq!(origin_cache_dir_from(Some("/home/u/.cache"), "catalog"), Ok("/home/u/.cache/loadsmith-lab/origins/catalog".to_string()));
    assert_eq!(origin_cache_dir_from(None, "catalog"), Err(LabError::NoCacheDir));
}

#[test]
fn config_path_uses_the_platform_config_dir() {
    if let Ok(p) = loadsmith_lab::origin::config_path() {
        assert!(p.ends_with("/loadsmith-lab/origins.toml"));
        assert_ne!(p, "loadsmith-lab/origins.toml");
    }
}

#[test]
fn resolve_item_errors() {
    let cfg = Config { origins: vec![origin("local", "path", "/definitely/not/here/loadsmith-lab")] };
    assert_eq!(resolve_item(&cfg, "noslash", Kind::Cases), Err(LabError::NotQualified("noslash".to_string())));
    assert_eq!(resolve_item(&cfg, "other/x", Kind::Cases), Err(LabError::UnknownOrigin("other".to_string())));
    assert_eq!(
        resolve_item(&cfg, "local/x", Kind::Cases),
        Err(LabError::LocalOriginMissing("local".to_string(), "/definitely/not/here/loadsmith-lab".to_string()))
    );
}

#[test]
fn resolve_item_in_a_local_origin() {
    // `/` exists, but holds no `cases/zz-lab-missing/case.yaml`.
    let cfg = Config { origins: vec![origin("dev", "path", "/")] };
    assert_eq!(local_item_path("/", Kind::Cases, "zz-lab-missing"), "/cases/zz-lab-missing");
    assert_eq!(local_item_path("/work/dev", Kind::Images, "pg"), "/work/dev/images/pg");
    assert_eq!(
        resolve_item(&cfg, "dev/zz-lab-missing", Kind::Cases),
        Err(LabError::ItemNotFound(Kind::Cases, "dev/zz-lab-missing".to_string(), "/cases/zz-lab-missing".to_string()))
    );
}

#[test]
fn resolve_item_of_a_remote_origin_needs_an_install() {
    let cfg = Config { origins: vec![origin("remote", "git", "https://example.invalid/r.git")] };
    match resolve_item(&cfg, "remote/zz-not-installed-item", Kind::Cases) {
        Err(LabError::ItemNotInstalled(Kind::Cases, q)) => assert_eq!(q, "remote/zz-not-installed-item"),
        Err(LabError::NoDataDir) => {}
        other => panic!("unexpected {other:?}"),
    }
}

#[test]
fn manifest_of_finds_the_origin() {
    let cfg = default_config();
    assert_eq!(manifest_of(&cfg, "catalog").unwrap().name, "catalog");
    assert_eq!(manifest_of(&cfg, "nope").err(), Some(LabError::NoSuchOrigin("nope".to_string())));
}

#[test]
fn manifest_category() {
    let m = Manifest {
        cases: pairs(&[("pg", "Postgres")]),
        bundles: vec![],
        images: pairs(&[("postgres-15", "PG 15"), ("mysql-8", "MySQL")]),
    };
    assert_eq!(m.category(Kind::Cases).len(), 1);
    assert_eq!(m.category(Kind::Bundles).len(), 0);
    assert_eq!(m.category(Kind::Images)[1].0, "mysql-8");
}

#[test]
fn update_hint_text() {
    assert_eq!(
        update_hint("catalog"),
        "origin 'catalog': new version available — run 'loadsmith-lab origin remote update catalog' to refresh"
    );
}

#[test]
fn update_hints_only_for_remote_origins_with_updates() {
    let cfg = Config {
        origins: vec![origin("a", "git", "u1"), origin("l", "path", "/p"), origin("b", "git", "u2"), origin("c", "git", "u3")],
    };
    let hints = update_hints(&cfg, &vec![false, true, true]);
    assert_eq!(hints, vec![update_hint("b"), update_hint("c")]);
    // a missing answer counts as no update
    assert_eq!(update_hints(&cfg, &vec![true]), vec![update_hint("a")]);
}

#[test]
fn update_available_compares_heads() {
    let o = origin("catalog", "git", "u");
    assert!(update_available(&o, true, Some("abc123\n"), Some("def456\tHEAD\n")));
    assert!(!update_available(&o, true, Some("  abc123 \n"), Some("abc123\tHEAD\n")));
    assert!(!update_available(&o, false, Some("abc123\n"), Some("def456\tHEAD\n")));
    assert!(!update_available(&o, true, None, Some("def456\tHEAD\n")));
    assert!(!update_available(&o, true, Some("abc123"), Some("   \n")));
    let local = origin("dev", "path", "/p");
    assert!(!update_available(&local, true, Some("abc123\n"), Some("def456\tHEAD\n")));
}

#[test]
fn available_lists_offered_items_sorted() {
    let cfg = Config {
        origins: vec![origin("zz-lab-test-remote", "git", "u"), origin("dev", "path", "/p")],
    };
    let m = Manifest {
        cases: pairs(&[("b-case", "B"), ("a-case", "A")]),
        bundles: pairs(&[("smoke", "S")]),
        images: vec![],
    };
    let out = available(&cfg, Kind::Cases, &vec![Some(m)]).unwrap();
    assert_eq!(
        out,
        vec![
            ("zz-lab-test-remote/a-case".to_string(), "A".to_string()),
            ("zz-lab-test-remote/b-case".to_string(), "B".to_string()),
        ]
    );
    let none = available(&cfg, Kind::Cases, &vec![None]).unwrap();
    assert!(none.is_empty());
}

#[test]
fn available_among_skips_installed_entries() {
    let cfg = Config {
        origins: vec![origin("b-remote", "git", "u"), origin("dev", "path", "/p"), origin("a-remote", "git", "v")],
    };
    let mb = Manifest { cases: pairs(&[("x", "X"), ("y", "Y")]), bundles: vec![], images: vec![] };
    let ma = Manifest { cases: pairs(&[("z", "Z")]), bundles: vec![], images: vec![] };
    let out = available_among(&cfg, Kind::Cases, &vec![Some(mb), Some(ma)], &vec![vec![true, false], vec![]]);
    assert_eq!(
        out,
        vec![
            ("a-remote/z".to_string(), "Z".to_string()),
            ("b-remote/y".to_string(), "Y".to_string()),
        ]
    );
}

#[test]
fn origin_roots() {
    assert_eq!(origin_root(&origin("dev", "path", "/"), false), Ok(("/".to_string(), false)));
    assert_eq!(
        origin_root(&origin("dev", "path", "/definitely/not/here/lab"), true),
        Err(LabError::LocalOriginMissing("dev".to_string(), "/definitely/not/here/lab".to_string()))
    );
    let remote = origin("zz-lab-never-cloned", "git", "https://example.invalid/x.git");
    match origin_root(&remote, false) {
        Err(LabError::RemoteNotCloned(n)) => assert_eq!(n, "zz-lab-never-cloned"),
        Err(LabError::NoCacheDir) => {}
        other => panic!("unexpected {other:?}"),
    }
    match origin_root(&remote, true) {
        Ok((dir, must_clone)) => {
            assert!(must_clone);
            assert!(dir.ends_with("/loadsmith-lab/origins/zz-lab-never-cloned"));
        }
        Err(LabError::NoCacheDir) => {}
        other => panic!("unexpected {other:?}"),
    }
}

#[test]
fn updating_origins() {
    assert!(matches!(
        update_origin(&origin("dev", "path", "/p")),
        Err(LabError::LocalOriginNoUpdate(ref n)) if n == "dev"
    ));
    match update_origin(&origin("zz-lab-never-cloned", "git", "https://example.invalid/x.git")) {
        Ok(OriginUpdate::Clone(url, dir)) => {
            assert_eq!(url, "https://example.invalid/x.git");
            assert!(dir.ends_with("/loadsmith-lab/origins/zz-lab-never-cloned"));
        }
        Ok(OriginUpdate::Pull(_)) => panic!("never cloned"),
        Err(e) => assert_eq!(e, LabError::NoCacheDir),
    }
}

#[test]
fn manifest_names_are_unique_and_ordered() {
    let ok = Manifest { cases: pairs(&[("a", ""), ("b", "")]), bundles: vec![], images: pairs(&[("x", "")]) };
    assert!(ok.well_formed());
    let unsorted = Manifest { cases: pairs(&[("b", ""), ("a", "")]), bundles: vec![], images: vec![] };
    assert!(!unsorted.well_formed());
    let twice = Manifest { cases: vec![], bundles: pairs(&[("s", ""), ("s", "")]), images: vec![] };
    assert!(!twice.well_formed());
}

#[test]
fn item_locations_and_answers() {
    let cfg = Config { origins: vec![origin("dev", "path", "/work/dev"), origin("catalog", "git", "u")] };
    match item_location(&cfg, "dev/pg", Kind::Cases, None) {
        Ok(ItemLocation::Local(o, root, dir)) => {
            assert_eq!((o.as_str(), root.as_str(), dir.as_str()), ("dev", "/work/dev", "/work/dev/cases/pg"));
        }
        _ => panic!("expected a local location"),
    }
    match item_location(&cfg, "catalog/pg", Kind::Bundles, Some("/home/u/.local/share")) {
        Ok(ItemLocation::Installed(dir)) => {
            assert_eq!(dir, "/home/u/.local/share/loadsmith-lab/installed/bundles/catalog/pg")
        }
        _ => panic!("expected an installed location"),
    }
    assert!(matches!(item_location(&cfg, "catalog/pg", Kind::Cases, None), Err(LabError::NoDataDir)));
    assert!(matches!(item_location(&cfg, "pg", Kind::Cases, None), Err(LabError::NotQualified(_))));

    let local = || ItemLocation::Local("dev".to_string(), "/work/dev".to_string(), "/work/dev/cases/pg".to_string());
    assert_eq!(located_item("dev/pg", Kind::Cases, local(), true, true), Ok("/work/dev/cases/pg".to_string()));
    assert_eq!(
        located_item("dev/pg", Kind::Cases, local(), false, false),
        Err(LabError::LocalOriginMissing("dev".to_string(), "/work/dev".to_string()))
    );
    assert_eq!(
        located_item("dev/pg", Kind::Cases, local(), true, false),
        Err(LabError::ItemNotFound(Kind::Cases, "dev/pg".to_string(), "/work/dev/cases/pg".to_string()))
    );
    let installed = || ItemLocation::Installed("/w/cases/catalog/pg".to_string());
    assert_eq!(located_item("catalog/pg", Kind::Cases, installed(), true, true), Ok("/w/cases/catalog/pg".to_string()));
    assert_eq!(
        located_item("catalog/pg", Kind::Cases, installed(), true, false),
        Err(LabError::ItemNotInstalled(Kind::Cases, "catalog/pg".to_string()))
    );
}

#[test]
fn origin_roots_given_answers() {
    let local = origin("dev", "path", "/work/dev");
    assert_eq!(origin_root_given(&local, false, None, true), Ok(("/work/dev".to_string(), false)));
    assert_eq!(
        origin_root_given(&local, true, Some("/c"), false),
        Err(LabError::LocalOriginMissing("dev".to_string(), "/work/dev".to_string()))
    );
    let remote = origin("catalog", "git", "https://example.invalid/c.git");
    assert_eq!(origin_root_given(&remote, false, Some("/c"), true), Ok(("/c/loadsmith-lab/origins/catalog".to_string(), false)));
    assert_eq!(origin_root_given(&remote, true, Some("/c"), false), Ok(("/c/loadsmith-lab/origins/catalog".to_string(), true)));
    assert_eq!(origin_root_given(&remote, false, Some("/c"), false), Err(LabError::RemoteNotCloned("catalog".to_string())));
    assert_eq!(origin_root_given(&remote, true, None, false), Err(LabError::NoCacheDir));

    match update_origin_given(&remote, Some("/c"), true) {
        Ok(OriginUpdate::Pull(dir)) => assert_eq!(dir, "/c/loadsmith-lab/origins/catalog"),
        _ => panic!("expected a pull"),
    }
    match update_origin_given(&remote, Some("/c"), false) {
        Ok(OriginUpdate::Clone(url, dir)) => {
            assert_eq!(url, "https://example.invalid/c.git");
            assert_eq!(dir, "/c/loadsmith-lab/origins/catalog");
        }
        _ => panic!("expected a clone"),
    }
    assert!(matches!(update_origin_given(&remote, None, true), Err(LabError::NoCacheDir)));
    assert!(matches!(update_origin_given(&local, Some("/c"), true), Err(LabError::LocalOriginNoUpdate(_))));
}

#[test]
fn sort_by_name_is_stable() {
    let v: Vec<(String, u32)> = vec![
        ("b".to_string(), 1),
        ("a".to_string(), 2),
        ("b".to_string(), 0),
        ("a".to_string(), 1),
        ("ab".to_string(), 9),
    ];
    let r = loadsmith_lab::sorting::sort_by_name(v);
    assert_eq!(
        r,
        vec![
            ("a".to_string(), 2),
            ("a".to_string(), 1),
            ("ab".to_string(), 9),
            ("b".to_string(), 1),
            ("b".to_string(), 0),
        ]
    );
}
