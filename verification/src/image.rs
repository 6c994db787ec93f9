//! The decisions behind the images a run needs: which Loadsmith image to use,
//! how a service image is made available, and how plugin overrides are built
//! and collected.

use vstd::prelude::*;

use crate::case::Case;
use crate::docker::ContainerConfig;
use crate::error::LabError;
use crate::paths::{join, path_join};
use crate::runner::RunOpts;
use crate::text::{
    chars_of, concat, contains, contains_seq, has_prefix, opt_view, pair_views, starts_with,
    str_eq, string_from_chars, string_views, sub_chars,
};

verus! {

// --- the Loadsmith image -------------------------------------------------------

/// The tag a local Loadsmith core is built or wrapped under.
pub open spec fn local_loadsmith_tag_spec() -> Seq<char> {
    "loadsmith:local"@
}

/// How the run gets its Loadsmith image.
pub enum LoadsmithImage {
    /// `--loadsmith <dir>`: build `loadsmith:local` from the project's
    /// Dockerfile.
    BuildProject(String),
    /// `--loadsmith <file>`: wrap the binary in a minimal image tagged
    /// `loadsmith:local`.
    WrapBinary(String),
    /// Neither: use this published image, pulling it when absent.
    Published(String),
}

/// The published image: `loadsmith:<tag>` when a tag was given, else the
/// case's own image.
pub open spec fn published_image_spec(tag: Option<Seq<char>>, case_image: Seq<char>) -> Seq<char> {
    match tag {
        Some(t) => "loadsmith:"@ + t,
        None => case_image,
    }
}

/// Picks how the Loadsmith image is obtained; `source_is_dir` says whether
/// the `--loadsmith` path is a directory.
pub fn loadsmith_image_plan(opts: &RunOpts, case: &Case, source_is_dir: bool) -> (r:
    LoadsmithImage)
    ensures
        match opts.loadsmith_source {
            Some(p) => if source_is_dir {
                r == LoadsmithImage::BuildProject(p)
            } else {
                r == LoadsmithImage::WrapBinary(p)
            },
            None => r matches LoadsmithImage::Published(i) && i@ == published_image_spec(
                opt_view(opts.loadsmith_tag),
                case.loadsmith.image@,
            ),
        },
{
    match &opts.loadsmith_source {
        Some(p) => if source_is_dir {
            LoadsmithImage::BuildProject(p.clone())
        } else {
            LoadsmithImage::WrapBinary(p.clone())
        },
        None => {
            let image = match &opts.loadsmith_tag {
                Some(t) => concat("loadsmith:", t.as_str()),
                None => case.loadsmith.image.clone(),
            };
            LoadsmithImage::Published(image)
        },
    }
}

/// The tag a local Loadsmith core is built or wrapped under.
pub fn local_loadsmith_tag() -> (r: String)
    ensures
        r@ == local_loadsmith_tag_spec(),
{
    "loadsmith:local".to_owned()
}

/// Top-level directories of a Loadsmith project left out of its build
/// context.
pub fn source_context_excludes() -> (r: Vec<String>)
    ensures
        string_views(r@) == seq!["target"@, ".git"@, "docs"@, "definitions"@],
{
    let mut v: Vec<String> = Vec::new();
    v.push("target".to_owned());
    v.push(".git".to_owned());
    v.push("docs".to_owned());
    v.push("definitions".to_owned());
    assert(string_views(v@) =~= seq!["target"@, ".git"@, "docs"@, "definitions"@]);
    v
}

/// The first component of a relative path: what comes before its first
/// `/`, or the whole path.
pub open spec fn first_component(rel: Seq<char>) -> Seq<char> {
    match crate::text::split_once_spec(rel, '/') {
        Some((a, _)) => a,
        None => rel,
    }
}

/// A path of a build context, relative to the context's root, is left out
/// when its first component is one `exclude` lists: `target/debug/x` is
/// left out for `target`, `src/target/x` is not.
pub fn is_excluded(rel: &str, exclude: &Vec<String>) -> (r: bool)
    ensures
        r == string_views(exclude@).contains(first_component(rel@)),
{
    let rc = crate::text::chars_of(rel);
    let first = match crate::text::split_once_char(rc.as_slice(), '/') {
        Some((a, _)) => crate::text::string_from_chars(a.as_slice()),
        None => rel.to_owned(),
    };
    listed(first.as_str(), exclude)
}

fn listed(name: &str, exclude: &Vec<String>) -> (r: bool)
    ensures
        r == string_views(exclude@).contains(name@),
{
    let mut i: usize = 0;
    while i < exclude.len()
        invariant
            i <= exclude@.len(),
            forall|k: int| 0 <= k < i ==> exclude@[k]@ != name@,
        decreases exclude.len() - i,
    {
        if str_eq(exclude[i].as_str(), name) {
            proof {
                assert(string_views(exclude@)[i as int] == name@);
            }
            return true;
        }
        i = i + 1;
    }
    proof {
        if string_views(exclude@).contains(name@) {
            let k = choose|k: int| 0 <= k < string_views(exclude@).len() && string_views(exclude@)[k] == name@;
            assert(exclude@[k]@ == name@);
        }
    }
    false
}

/// The Dockerfile that wraps a prebuilt Loadsmith binary: Debian slim with
/// CA certificates (the plugin install downloads over HTTPS) and the binary
/// as entrypoint.
pub open spec fn wrap_dockerfile_spec() -> Seq<char> {
    "FROM debian:bookworm-slim\nRUN apt-get update && apt-get install -y --no-install-recommends ca-certificates && rm -rf /var/lib/apt/lists/*\nCOPY loadsmith /usr/local/bin/loadsmith\nRUN chmod 755 /usr/local/bin/loadsmith\nENTRYPOINT [\"loadsmith\"]\n"@
}

pub fn wrap_dockerfile() -> (r: String)
    ensures
        r@ == wrap_dockerfile_spec(),
{
    "FROM debian:bookworm-slim\nRUN apt-get update && apt-get install -y --no-install-recommends ca-certificates && rm -rf /var/lib/apt/lists/*\nCOPY loadsmith /usr/local/bin/loadsmith\nRUN chmod 755 /usr/local/bin/loadsmith\nENTRYPOINT [\"loadsmith\"]\n".to_owned()
}

/// The published Loadsmith image after the pull that follows a failed
/// lookup: usable when the pull succeeded, else refused with the pull's
/// error.
pub fn published_after_pull(image: &str, pull: Result<(), String>) -> (r: Result<String, LabError>)
    ensures
        match pull {
            Ok(()) => r matches Ok(i) && i@ == image@,
            Err(e) => r matches Err(LabError::LoadsmithImageUnavailable(i, m)) && i@ == image@
                && m@ == e@,
        },
{
    match pull {
        Ok(()) => Ok(image.to_owned()),
        Err(e) => Err(LabError::LoadsmithImageUnavailable(image.to_owned(), e)),
    }
}

// --- service images --------------------------------------------------------

/// What the image resolution has just learned.
pub enum ImageEvent {
    /// Whether the image is present locally.
    Lookup(bool),
    /// Whether pulling it succeeded.
    Pulled(bool),
    /// Whether the context directory holds a Dockerfile.
    Dockerfile(bool),
    /// The build from the context directory finished.
    Built,
}

/// What the image resolution does next.
pub enum ImageStep {
    /// Try to pull the image.
    Pull,
    /// Check for this Dockerfile.
    CheckDockerfile(String),
    /// Build the image from the context directory.
    Build,
    /// The image is available; `true` when it had to be built.
    Ready(bool),
    /// The image cannot be had.
    Fail(LabError),
}

/// One step of resolving a service image to its tag: local, then pull, then
/// a build from the context directory's Dockerfile, else an error. The
/// resolution begins with a lookup of the tag.
pub open spec fn image_step_ok(
    image: Seq<char>,
    context_dir: Seq<char>,
    event: ImageEvent,
    step: ImageStep,
) -> bool {
    match event {
        ImageEvent::Lookup(true) => step == ImageStep::Ready(false),
        ImageEvent::Lookup(false) => step == ImageStep::Pull,
        ImageEvent::Pulled(true) => step == ImageStep::Ready(false),
        ImageEvent::Pulled(false) => step matches ImageStep::CheckDockerfile(p) && p@ == path_join(
            context_dir,
            "Dockerfile"@,
        ),
        ImageEvent::Dockerfile(true) => step == ImageStep::Build,
        ImageEvent::Dockerfile(false) => step matches ImageStep::Fail(
            LabError::ImageUnavailable(i, d),
        ) && i@ == image && d@ == context_dir,
        ImageEvent::Built => step == ImageStep::Ready(true),
    }
}

pub fn resolve_image_step(image: &str, context_dir: &str, event: ImageEvent) -> (r: ImageStep)
    ensures
        image_step_ok(image@, context_dir@, event, r),
{
    match event {
        ImageEvent::Lookup(true) => ImageStep::Ready(false),
        ImageEvent::Lookup(false) => ImageStep::Pull,
        ImageEvent::Pulled(true) => ImageStep::Ready(false),
        ImageEvent::Pulled(false) => ImageStep::CheckDockerfile(join(context_dir, "Dockerfile")),
        ImageEvent::Dockerfile(true) => ImageStep::Build,
        ImageEvent::Dockerfile(false) => ImageStep::Fail(
            LabError::ImageUnavailable(image.to_owned(), context_dir.to_owned()),
        ),
        ImageEvent::Built => ImageStep::Ready(true),
    }
}

/// An image is reported built only at the end of a build, and the
/// resolution fails only when no Dockerfile was found: a present or pulled
/// image is never rebuilt.
pub proof fn law_built_only_after_build(
    image: Seq<char>,
    context_dir: Seq<char>,
    event: ImageEvent,
    step: ImageStep,
)
    requires
        image_step_ok(image, context_dir, event, step),
    ensures
        step == ImageStep::Ready(true) <==> event is Built,
        step is Fail <==> event == ImageEvent::Dockerfile(false),
        step is Build <==> event == ImageEvent::Dockerfile(true),
{
}

// --- plugins -------------------------------------------------------------------

/// The persistent plugin cache under the home directory.
pub open spec fn plugin_cache_spec(home: Seq<char>) -> Seq<char> {
    path_join(home, ".cache/loadsmith-lab/plugins"@)
}

/// The plugin cache directory, given the value of `HOME`.
pub fn plugin_cache_dir(home: Option<&str>) -> (r: Result<String, LabError>)
    ensures
        match home {
            Some(h) => r matches Ok(p) && p@ == plugin_cache_spec(h@),
            None => r matches Err(LabError::HomeNotSet),
        },
{
    match home {
        Some(h) => Ok(join(h, ".cache/loadsmith-lab/plugins")),
        None => Err(LabError::HomeNotSet),
    }
}

/// What preparing the plugin directory does: fill the cache first when it
/// is empty, and lay the overrides over a copy of it when there are any.
pub struct PluginDirPlan {
    pub populate_cache: bool,
    pub overlay: bool,
}

pub fn plugin_dir_plan(cache_empty: bool, override_count: usize) -> (r: PluginDirPlan)
    ensures
        r.populate_cache == cache_empty,
        r.overlay == (override_count > 0),
{
    PluginDirPlan { populate_cache: cache_empty, overlay: override_count > 0 }
}

/// The per-process overlay directory under the temporary directory:
/// `loadsmith-lab-plugins-<pid>`.
pub fn plugin_overlay_dir(tmp_dir: &str, pid: u32) -> (r: String)
    ensures
        r@ == path_join(tmp_dir@, "loadsmith-lab-plugins-"@ + crate::text::decimal(pid as nat)),
{
    let mut v = crate::text::chars_of("loadsmith-lab-plugins-");
    let n = crate::text::u64_to_string(pid as u64);
    crate::text::push_str(&mut v, n.as_str());
    let name = crate::text::string_from_chars(v.as_slice());
    join(tmp_dir, name.as_str())
}

/// The throwaway container that fills the plugin cache with
/// `loadsmith plugin install --all`, the cache mounted at `/plugins`.
pub fn plugin_install_container(image: &str, cache_dir: &str) -> (r: ContainerConfig)
    ensures
        r.image@ == image@,
        r.hostname is None,
        r.network is None,
        r.env@.len() == 0,
        string_views(r.binds@) == seq![cache_dir@ + ":/plugins"@],
        r.publish_ports@.len() == 0,
        string_views(r.cmd@) == seq![
            "plugin"@,
            "install"@,
            "--all"@,
            "--plugin-dir"@,
            "/plugins"@,
        ],
        r.docker_args@.len() == 0,
{
    let mut binds: Vec<String> = Vec::new();
    binds.push(concat(cache_dir, ":/plugins"));
    let mut cmd: Vec<String> = Vec::new();
    cmd.push("plugin".to_owned());
    cmd.push("install".to_owned());
    cmd.push("--all".to_owned());
    cmd.push("--plugin-dir".to_owned());
    cmd.push("/plugins".to_owned());
    let r = ContainerConfig {
        image: image.to_owned(),
        hostname: None,
        network: None,
        env: Vec::new(),
        binds,
        publish_ports: Vec::new(),
        cmd,
        docker_args: Vec::new(),
    };
    assert(string_views(r.binds@) =~= seq![cache_dir@ + ":/plugins"@]);
    assert(string_views(r.cmd@) =~= seq![
        "plugin"@,
        "install"@,
        "--all"@,
        "--plugin-dir"@,
        "/plugins"@,
    ]);
    r
}

/// A one-shot container's exit code: zero is success, anything else the
/// failure of `what`.
pub fn check_exit(what: &str, code: i64) -> (r: Result<(), LabError>)
    ensures
        code == 0 ==> r is Ok,
        code != 0 ==> (r matches Err(LabError::ContainerFailed(w, c)) && w@ == what@ && c == code),
{
    if code == 0 {
        Ok(())
    } else {
        Err(LabError::ContainerFailed(what.to_owned(), code))
    }
}

/// A `--plugin` override: a project to build, or a binary to use as is.
pub enum PluginSource {
    Project(String),
    Binary(String),
}

/// Classifies each override, in order, by whether its path is a directory.
pub fn plugin_sources(overrides: &Vec<String>, is_dir: &Vec<bool>) -> (r: Vec<PluginSource>)
    requires
        is_dir@.len() == overrides@.len(),
    ensures
        r@.len() == overrides@.len(),
        forall|i: int|
            0 <= i < overrides@.len() ==> #[trigger] r@[i] == if is_dir@[i] {
                PluginSource::Project(overrides@[i])
            } else {
                PluginSource::Binary(overrides@[i])
            },
{
    let mut r: Vec<PluginSource> = Vec::new();
    let mut i: usize = 0;
    while i < overrides.len()
        invariant
            i <= overrides@.len(),
            is_dir@.len() == overrides@.len(),
            r@.len() == i,
            forall|k: int|
                0 <= k < i ==> #[trigger] r@[k] == if is_dir@[k] {
                    PluginSource::Project(overrides@[k])
                } else {
                    PluginSource::Binary(overrides@[k])
                },
        decreases overrides.len() - i,
    {
        let p = overrides[i].clone();
        if is_dir[i] {
            r.push(PluginSource::Project(p));
        } else {
            r.push(PluginSource::Binary(p));
        }
        i = i + 1;
    }
    r
}

/// `path` relative to `root`, for canonical paths (no `.` or `..`
/// components, no trailing `/`): empty when they are equal or `root` is not
/// a leading component sequence of `path`.
pub open spec fn relative_spec(root: Seq<char>, path: Seq<char>) -> Seq<char> {
    let base = if root.len() > 0 && root.last() == '/' {
        root
    } else {
        root + seq!['/']
    };
    if path != root && has_prefix(path, base) {
        path.skip(base.len() as int)
    } else {
        Seq::empty()
    }
}

pub fn relative_to(root: &str, path: &str) -> (r: String)
    ensures
        r@ == relative_spec(root@, path@),
{
    let mut base = chars_of(root);
    if !(base.len() > 0 && base[base.len() - 1] == '/') {
        base.push('/');
    }
    let ghost b = if root@.len() > 0 && root@.last() == '/' {
        root@
    } else {
        root@ + seq!['/']
    };
    assert(base@ =~= b);
    let p = chars_of(path);
    if !str_eq(path, root) && starts_with(p.as_slice(), base.as_slice()) {
        let rest = sub_chars(p.as_slice(), base.len(), p.len());
        assert(rest@ =~= path@.skip(base@.len() as int));
        string_from_chars(rest.as_slice())
    } else {
        let e = String::new();
        assert(e@ =~= Seq::<char>::empty());
        e
    }
}

/// The manifest a plugin build is pointed at, inside the container where
/// the workspace root is mounted at `/src`.
pub open spec fn plugin_manifest_spec(rel: Seq<char>) -> Seq<char> {
    if rel.len() == 0 {
        "/src/Cargo.toml"@
    } else {
        "/src/"@ + rel + "/Cargo.toml"@
    }
}

pub fn plugin_manifest_path(rel: &str) -> (r: String)
    ensures
        r@ == plugin_manifest_spec(rel@),
{
    let rc = chars_of(rel);
    if rc.len() == 0 {
        "/src/Cargo.toml".to_owned()
    } else {
        let a = concat("/src/", rel);
        concat(a.as_str(), "/Cargo.toml")
    }
}

/// The `rust:bookworm` container that builds a plugin project: the
/// workspace root mounted read-only at `/src`, a fresh target directory at
/// `/target`, and a release build of the given manifest.
pub fn plugin_build_container(root: &str, target: &str, manifest: &str) -> (r: ContainerConfig)
    ensures
        r.image@ == "rust:bookworm"@,
        r.hostname is None,
        r.network is None,
        pair_views(r.env@) == seq![("CARGO_TARGET_DIR"@, "/target"@)],
        string_views(r.binds@) == seq![root@ + ":/src:ro"@, target@ + ":/target"@],
        r.publish_ports@.len() == 0,
        string_views(r.cmd@) == seq![
            "cargo"@,
            "build"@,
            "--release"@,
            "--manifest-path"@,
            manifest@,
        ],
        r.docker_args@.len() == 0,
{
    let mut env: Vec<(String, String)> = Vec::new();
    env.push(("CARGO_TARGET_DIR".to_owned(), "/target".to_owned()));
    let mut binds: Vec<String> = Vec::new();
    binds.push(concat(root, ":/src:ro"));
    binds.push(concat(target, ":/target"));
    let mut cmd: Vec<String> = Vec::new();
    cmd.push("cargo".to_owned());
    cmd.push("build".to_owned());
    cmd.push("--release".to_owned());
    cmd.push("--manifest-path".to_owned());
    cmd.push(manifest.to_owned());
    let r = ContainerConfig {
        image: "rust:bookworm".to_owned(),
        hostname: None,
        network: None,
        env,
        binds,
        publish_ports: Vec::new(),
        cmd,
        docker_args: Vec::new(),
    };
    assert(pair_views(r.env@) =~= seq![("CARGO_TARGET_DIR"@, "/target"@)]);
    assert(string_views(r.binds@) =~= seq![root@ + ":/src:ro"@, target@ + ":/target"@]);
    assert(string_views(r.cmd@) =~= seq![
        "cargo"@,
        "build"@,
        "--release"@,
        "--manifest-path"@,
        manifest@,
    ]);
    r
}

/// A file mode with an execute bit for anyone.
pub open spec fn mode_executable(mode: u32) -> bool {
    mode & 0o111u32 != 0
}

pub fn is_executable_mode(mode: u32) -> (r: bool)
    ensures
        r == mode_executable(mode),
{
    mode & 0o111u32 != 0
}

/// An entry of the release directory after a plugin build.
pub struct BuildOutput {
    pub name: String,
    pub path: String,
    /// A regular file with an execute bit.
    pub executable: bool,
}

/// A built plugin: an executable named `loadsmith-…` (which leaves out the
/// `.d` dependency files and everything else in the release directory).
pub open spec fn is_plugin_binary(e: BuildOutput) -> bool {
    has_prefix(e.name@, "loadsmith-"@) && e.executable
}

/// The plugin binaries a build produced, in directory order; a build that
/// produced none is an error naming the project.
pub fn plugin_binaries(project: &str, entries: &Vec<BuildOutput>) -> (r: Result<
    Vec<String>,
    LabError,
>)
    ensures
        match r {
            Ok(v) => {
                &&& v@.len() > 0
                &&& string_views(v@) == entries@.filter(|e: BuildOutput| is_plugin_binary(e)).map_values(
                    |e: BuildOutput| e.path@,
                )
            },
            Err(e) => {
                &&& e matches LabError::NoPluginBinaries(p) && p@ == project@
                &&& entries@.filter(|e: BuildOutput| is_plugin_binary(e)).len() == 0
            },
        },
{
    let mut out: Vec<String> = Vec::new();
    let prefix = chars_of("loadsmith-");
    let mut i: usize = 0;
    while i < entries.len()
        invariant
            i <= entries@.len(),
            prefix@ == "loadsmith-"@,
            string_views(out@) =~= entries@.take(i as int).filter(
                |e: BuildOutput| is_plugin_binary(e),
            ).map_values(|e: BuildOutput| e.path@),
        decreases entries.len() - i,
    {
        proof {
            reveal_with_fuel(Seq::filter, 1);
            assert(entries@.take(i + 1).drop_last() =~= entries@.take(i as int));
        }
        let n = chars_of(entries[i].name.as_str());
        if starts_with(n.as_slice(), prefix.as_slice()) && entries[i].executable {
            let ghost before = string_views(out@);
            out.push(entries[i].path.clone());
            proof {
                assert(string_views(out@) =~= before.push(entries@[i as int].path@));
            }
        }
        i = i + 1;
    }
    proof {
        assert(entries@.take(entries@.len() as int) =~= entries@);
    }
    if out.len() == 0 {
        Err(LabError::NoPluginBinaries(project.to_owned()))
    } else {
        Ok(out)
    }
}

/// A Cargo manifest that declares a workspace.
pub open spec fn declares_workspace(manifest: Seq<char>) -> bool {
    contains(manifest, "[workspace]"@)
}

/// A manifest that is there and declares a workspace.
pub open spec fn workspace_manifest(m: Option<Seq<char>>) -> bool {
    match m {
        Some(t) => declares_workspace(t),
        None => false,
    }
}

/// Walking up from `dirs[i]`: the first directory whose manifest declares
/// a workspace, else `start`.
pub open spec fn workspace_root_from(
    start: Seq<char>,
    dirs: Seq<Seq<char>>,
    manifests: Seq<Option<Seq<char>>>,
    i: int,
) -> Seq<char>
    decreases dirs.len() - i,
{
    if i < 0 || i >= dirs.len() {
        start
    } else if i < manifests.len() && workspace_manifest(manifests[i]) {
        dirs[i]
    } else {
        workspace_root_from(start, dirs, manifests, i + 1)
    }
}

/// `manifests[j]` is there and holds a `[workspace]` table header.
spec fn has_workspace_table(manifests: Seq<Option<Seq<char>>>, j: int) -> bool {
    j < manifests.len() && (manifests[j] matches Some(t) && contains(t, "[workspace]"@))
}

proof fn lemma_workspace_root_from(
    start: Seq<char>,
    dirs: Seq<Seq<char>>,
    manifests: Seq<Option<Seq<char>>>,
    i: int,
)
    requires
        0 <= i <= dirs.len(),
    ensures
        ({
            let r = workspace_root_from(start, dirs, manifests, i);
            ||| r == start && forall|j: int| i <= j < dirs.len() ==> !has_workspace_table(manifests, j)
            ||| exists|k: int|
                i <= k < dirs.len() && has_workspace_table(manifests, k) && r == dirs[k] && forall|
                    j: int,
                | i <= j < k ==> !has_workspace_table(manifests, j)
        }),
    decreases dirs.len() - i,
{
    if i < dirs.len() {
        lemma_workspace_root_from(start, dirs, manifests, i + 1);
        if !has_workspace_table(manifests, i) {
            let r = workspace_root_from(start, dirs, manifests, i + 1);
            if exists|k: int|
                i + 1 <= k < dirs.len() && has_workspace_table(manifests, k) && r == dirs[k] && forall|
                    j: int,
                | i + 1 <= j < k ==> !has_workspace_table(manifests, j) {
                let k = choose|k: int|
                    i + 1 <= k < dirs.len() && has_workspace_table(manifests, k) && r == dirs[k]
                        && forall|j: int| i + 1 <= j < k ==> !has_workspace_table(manifests, j);
                assert(forall|j: int| i <= j < k ==> !has_workspace_table(manifests, j));
            }
        }
    }
}

/// The workspace root is the innermost directory whose `Cargo.toml` holds
/// a `[workspace]` table header, every directory below it having none; a
/// manifest that only mentions the word (`version.workspace = true`) is
/// walked past. With no such manifest, the start is its own root.
pub proof fn law_workspace_root_is_innermost_workspace_table(
    start: Seq<char>,
    dirs: Seq<Seq<char>>,
    manifests: Seq<Option<Seq<char>>>,
)
    ensures
        ({
            let r = workspace_root_from(start, dirs, manifests, 0);
            ||| r == start && forall|j: int|
                #![trigger manifests[j]]
                0 <= j < dirs.len() ==> !(j < manifests.len() && (manifests[j] matches Some(t)
                    && contains(t, "[workspace]"@)))
            ||| exists|k: int|
                0 <= k < dirs.len() && k < manifests.len() && (manifests[k] matches Some(t)
                    && contains(t, "[workspace]"@)) && r == dirs[k] && forall|j: int|
                    #![trigger manifests[j]]
                    0 <= j < k ==> !(manifests[j] matches Some(t) && contains(t, "[workspace]"@))
        }),
{
    lemma_workspace_root_from(start, dirs, manifests, 0);
    let r = workspace_root_from(start, dirs, manifests, 0);
    if exists|k: int|
        0 <= k < dirs.len() && has_workspace_table(manifests, k) && r == dirs[k] && forall|j: int|
            0 <= j < k ==> !has_workspace_table(manifests, j) {
        let k = choose|k: int|
            0 <= k < dirs.len() && has_workspace_table(manifests, k) && r == dirs[k] && forall|j: int|
                0 <= j < k ==> !has_workspace_table(manifests, j);
        assert forall|j: int| #![trigger manifests[j]] 0 <= j < k implies !(manifests[j] matches Some(t) && contains(
            t,
            "[workspace]"@,
        )) by {
            assert(!has_workspace_table(manifests, j));
        }
    } else {
        assert forall|j: int| #![trigger manifests[j]] 0 <= j < dirs.len() implies !(j < manifests.len() && (
        manifests[j] matches Some(t) && contains(t, "[workspace]"@))) by {
            assert(!has_workspace_table(manifests, j));
        }
    }
}

/// The Cargo workspace root containing a plugin project: walking up from
/// `start` (`dirs` are the directories tried, innermost first, and
/// `manifests[i]` the text of `dirs[i]/Cargo.toml` when it is a readable
/// file), the first directory whose manifest declares a workspace; a
/// standalone crate is its own root.
pub fn workspace_root(start: &str, dirs: &Vec<String>, manifests: &Vec<Option<String>>) -> (r: String)
    ensures
        r@ == workspace_root_from(
            start@,
            string_views(dirs@),
            manifests@.map_values(|m: Option<String>| opt_view(m)),
            0,
        ),
{
    let ghost ds = string_views(dirs@);
    let ghost ms = manifests@.map_values(|m: Option<String>| opt_view(m));
    let needle = chars_of("[workspace]");
    let mut i: usize = 0;
    while i < dirs.len()
        invariant
            i <= dirs@.len(),
            ds == string_views(dirs@),
            ms == manifests@.map_values(|m: Option<String>| opt_view(m)),
            needle@ == "[workspace]"@,
            workspace_root_from(start@, ds, ms, 0) == workspace_root_from(start@, ds, ms, i as int),
        decreases dirs.len() - i,
    {
        if i < manifests.len() {
            match &manifests[i] {
                Some(m) => {
                    let mc = chars_of(m.as_str());
                    proof {
                        assert(ms[i as int] == Some(m@));
                    }
                    if contains_seq(mc.as_slice(), needle.as_slice()) {
                        return dirs[i].clone();
                    }
                },
                None => {
                    proof {
                        assert(ms[i as int] == None::<Seq<char>>);
                    }
                },
            }
        }
        i = i + 1;
    }
    start.to_owned()
}

} // verus!
