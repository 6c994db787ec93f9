use loadsmith_lab::case::{Case, CaseMeta, Expect, LoadsmithDef, PipelineDef};
use loadsmith_lab::error::LabError;
use loadsmith_lab::image::{
    check_exit, is_excluded, is_executable_mode, loadsmith_image_plan, local_loadsmith_tag,
    plugin_binaries, plugin_build_container, plugin_cache_dir, plugin_install_container,
    plugin_manifest_path, plugin_sources, published_after_pull, relative_to, resolve_image_step,
    source_context_excludes, workspace_root, wrap_dockerfile, BuildOutput, ImageEvent, ImageStep,
    LoadsmithImage, PluginSource,
};
use loadsmith_lab::origin::Config;
use loadsmith_lab::runner::RunOpts;

fn case_with_image(image: &str) -> Case {
    Case {
        case: CaseMeta { name: "c".to_string(), description: None, tags: vec![] },
        services: vec![],
        loadsmith: LoadsmithDef { image: image.to_string(), volumes: vec![], env: vec![], docker_args: vec![] },
        pipeline: PipelineDef { file: "p.yaml".to_string() },
        expect: Expect { status: "success".to_string(), rows_read: None, rows_written: None, output: None },
    }
}

fn opts(source: Option<&str>, tag: Option<&str>) -> RunOpts {
    RunOpts {
        loadsmith_source: source.map(String::from),
        loadsmith_tag: tag.map(String::from),
        origins: Config { origins: vec![] },
        color: true,
        log_level: "info".to_string(),
        plugin_overrides: vec![],
    }
}

fn strings(v: &[&str]) -> Vec<String> {
    v.iter().map(|s| s.to_string()).collect()
}

#[test]
fn loadsmith_image_plans() {
    let case = case_with_image("ghcr.io/loadsmith/loadsmith:0.3");
    assert!(matches!(loadsmith_image_plan(&opts(Some("/src/loadsmith"), None), &case, true), LoadsmithImage::BuildProject(ref p) if p == "/src/loadsmith"));
    assert!(matches!(loadsmith_image_plan(&opts(Some("/bin/loadsmith"), Some("9")), &case, false), LoadsmithImage::WrapBinary(ref p) if p == "/bin/loadsmith"));
    assert!(matches!(loadsmith_image_plan(&opts(None, Some("0.4")), &case, false), LoadsmithImage::Published(ref i) if i == "loadsmith:0.4"));
    assert!(matches!(loadsmith_image_plan(&opts(None, None), &case, false), LoadsmithImage::Published(ref i) if i == "ghcr.io/loadsmith/loadsmith:0.3"));
    assert_eq!(local_loadsmith_tag(), "loadsmith:local");
}

#[test]
fn published_image_after_a_pull() {
    assert_eq!(published_after_pull("loadsmith:0.4", Ok(())), Ok("loadsmith:0.4".to_string()));
    assert_eq!(
        published_after_pull("loadsmith:0.4", Err("manifest unknown".to_string())),
        Err(LabError::LoadsmithImageUnavailable("loadsmith:0.4".to_string(), "manifest unknown".to_string()))
    );
}

#[test]
fn build_context_exclusions() {
    let ex = source_context_excludes();
    assert_eq!(ex, strings(&["target", ".git", "docs", "definitions"]));
    assert!(is_excluded("target", &ex));
    assert!(!is_excluded("src", &ex));
    assert!(!is_excluded("target", &vec![]));
    assert!(is_excluded("target/debug/loadsmith", &ex));
    assert!(is_excluded(".git/HEAD", &ex));
    assert!(!is_excluded("src/target", &ex));
    assert!(!is_excluded("crates/docs/lib.rs", &ex));
    assert!(!is_excluded("targets", &ex));
}

#[test]
fn wrapper_dockerfile() {
    let d = wrap_dockerfile();
    assert!(d.starts_with("FROM debian:bookworm-slim\n"));
    assert!(d.contains("ca-certificates"));
    assert!(d.ends_with("ENTRYPOINT [\"loadsmith\"]\n"));
}

#[test]
fn service_image_resolution_steps() {
    assert!(matches!(resolve_image_step("img", "/ctx", ImageEvent::Lookup(true)), ImageStep::Ready(false)));
    assert!(matches!(resolve_image_step("img", "/ctx", ImageEvent::Lookup(false)), ImageStep::Pull));
    assert!(matches!(resolve_image_step("img", "/ctx", ImageEvent::Pulled(true)), ImageStep::Ready(false)));
    assert!(matches!(resolve_image_step("img", "/ctx", ImageEvent::Pulled(false)), ImageStep::CheckDockerfile(ref p) if p == "/ctx/Dockerfile"));
    assert!(matches!(resolve_image_step("img", "/ctx", ImageEvent::Dockerfile(true)), ImageStep::Build));
    match resolve_image_step("img", "/ctx", ImageEvent::Dockerfile(false)) {
        ImageStep::Fail(e) => assert_eq!(e, LabError::ImageUnavailable("img".to_string(), "/ctx".to_string())),
        _ => panic!("expected a failure"),
    }
    assert!(matches!(resolve_image_step("img", "/ctx", ImageEvent::Built), ImageStep::Ready(true)));
}

#[test]
fn plugin_cache_and_install_container() {
    assert_eq!(plugin_cache_dir(Some("/home/u")), Ok("/home/u/.cache/loadsmith-lab/plugins".to_string()));
    assert_eq!(plugin_cache_dir(None), Err(LabError::HomeNotSet));
    let c = plugin_install_container("loadsmith:local", "/home/u/.cache/loadsmith-lab/plugins");
    assert_eq!(c.image, "loadsmith:local");
    assert_eq!(c.binds, strings(&["/home/u/.cache/loadsmith-lab/plugins:/plugins"]));
    assert_eq!(c.cmd, strings(&["plugin", "install", "--all", "--plugin-dir", "/plugins"]));
    assert!(c.env.is_empty() && c.hostname.is_none() && c.network.is_none());
}

#[test]
fn exit_codes() {
    assert_eq!(check_exit("`loadsmith plugin install --all`", 0), Ok(()));
    assert_eq!(
        check_exit("`loadsmith plugin install --all`", 101),
        Err(LabError::ContainerFailed("`loadsmith plugin install --all`".to_string(), 101))
    );
}

#[test]
fn plugin_override_sources() {
    let v = plugin_sources(&strings(&["/p/proj", "/p/bin"]), &vec![true, false]);
    assert!(matches!(v[0], PluginSource::Project(ref p) if p == "/p/proj"));
    assert!(matches!(v[1], PluginSource::Binary(ref p) if p == "/p/bin"));
}

#[test]
fn plugin_build_paths() {
    assert_eq!(relative_to("/w", "/w/plugins/jsonl"), "plugins/jsonl");
    assert_eq!(relative_to("/w", "/w"), "");
    assert_eq!(relative_to("/w", "/wx/plugins"), "");
    assert_eq!(relative_to("/", "/w"), "w");
    assert_eq!(plugin_manifest_path(""), "/src/Cargo.toml");
    assert_eq!(plugin_manifest_path("plugins/jsonl"), "/src/plugins/jsonl/Cargo.toml");
    let c = plugin_build_container("/w", "/tmp/build", "/src/Cargo.toml");
    assert_eq!(c.image, "rust:bookworm");
    assert_eq!(c.env, vec![("CARGO_TARGET_DIR".to_string(), "/target".to_string())]);
    assert_eq!(c.binds, strings(&["/w:/src:ro", "/tmp/build:/target"]));
    assert_eq!(c.cmd, strings(&["cargo", "build", "--release", "--manifest-path", "/src/Cargo.toml"]));
}

#[test]
fn workspace_root_walks_up() {
    let dirs = strings(&["/w/plugins/jsonl", "/w/plugins", "/w", "/"]);
    let manifests = vec![
        Some("[package]\nname = \"jsonl\"\n".to_string()),
        None,
        Some("[workspace]\nmembers = [\"plugins/*\"]\n".to_string()),
        None,
    ];
    assert_eq!(workspace_root("/w/plugins/jsonl", &dirs, &manifests), "/w");
    let standalone = vec![Some("[package]\n".to_string()), None, None, None];
    assert_eq!(workspace_root("/w/plugins/jsonl", &dirs, &standalone), "/w/plugins/jsonl");
}

#[test]
fn executable_modes() {
    assert!(is_executable_mode(0o755));
    assert!(is_executable_mode(0o100));
    assert!(is_executable_mode(0o001));
    assert!(!is_executable_mode(0o644));
}

#[test]
fn plugin_binaries_are_executable_loadsmith_files() {
    let out = |name: &str, executable: bool| BuildOutput {
        name: name.to_string(),
        path: format!("/t/release/{name}"),
        executable,
    };
    let entries = vec![
        out("loadsmith-destination-jsonl", true),
        out("loadsmith-destination-jsonl.d", false),
        out("build", false),
        out("other-tool", true),
        out("loadsmith-source-pg", true),
    ];
    assert_eq!(
        plugin_binaries("/w", &entries),
        Ok(strings(&["/t/release/loadsmith-destination-jsonl", "/t/release/loadsmith-source-pg"]))
    );
    assert_eq!(
        plugin_binaries("/w", &vec![out("other-tool", true)]),
        Err(LabError::NoPluginBinaries("/w".to_string()))
    );
}

#[test]
fn plugin_directory_plan_and_overlay() {
    let p = loadsmith_lab::image::plugin_dir_plan(true, 0);
    assert!(p.populate_cache && !p.overlay);
    let p = loadsmith_lab::image::plugin_dir_plan(false, 2);
    assert!(!p.populate_cache && p.overlay);
    assert_eq!(loadsmith_lab::image::plugin_overlay_dir("/tmp", 4242), "/tmp/loadsmith-lab-plugins-4242");
}
