//! Origins: where cases, bundles and service images come from.
//!
//! Every item is addressed as `<origin>/<name>`. A remote origin (git) is
//! cloned into a cache and its items are installed into the workdir; a local
//! origin (path) is read live from its registered directory. Each origin has a
//! `loadsmith-lab.toml` manifest listing its items per category.

use vstd::prelude::*;

use crate::error::LabError;
use crate::paths::{answered, join, path_exists, path_join, probe_path};
use crate::text::{
    chars_of, pair_views, split_once_char, split_once_spec, str_eq, string_from_chars, string_views,
};

verus! {

/// The three kinds of content an origin can provide.
#[derive(Debug, Clone, Copy, PartialEq, Eq, Structural)]
pub enum Kind {
    Cases,
    Bundles,
    Images,
}

/// The content subdirectory of a kind, at an origin root and in the workdir.
pub open spec fn kind_dir(k: Kind) -> Seq<char> {
    match k {
        Kind::Cases => "cases"@,
        Kind::Bundles => "bundles"@,
        Kind::Images => "images"@,
    }
}

/// The file whose presence marks an item directory of a kind.
pub open spec fn kind_marker(k: Kind) -> Seq<char> {
    match k {
        Kind::Cases => "case.yaml"@,
        Kind::Bundles => "bundle.yaml"@,
        Kind::Images => "Dockerfile"@,
    }
}

impl Kind {
    /// The content subdirectory name at an origin root (and in the workdir).
    pub fn dir(self) -> (r: &'static str)
        ensures
            r@ == kind_dir(self),
    {
        match self {
            Kind::Cases => "cases",
            Kind::Bundles => "bundles",
            Kind::Images => "images",
        }
    }

    /// The manifest file inside an item directory, if any (images are just a
    /// Dockerfile dir, so they have none).
    pub fn item_manifest(self) -> (r: Option<&'static str>)
        ensures
            match self {
                Kind::Images => r is None,
                _ => r matches Some(f) && f@ == kind_marker(self),
            },
    {
        match self {
            Kind::Cases => Some("case.yaml"),
            Kind::Bundles => Some("bundle.yaml"),
            Kind::Images => None,
        }
    }

    /// Every kind, in the order installs and listings visit them.
    pub fn all() -> (r: [Kind; 3])
        ensures
            r@ == seq![Kind::Cases, Kind::Bundles, Kind::Images],
    {
        let r = [Kind::Cases, Kind::Bundles, Kind::Images];
        assert(r@ =~= seq![Kind::Cases, Kind::Bundles, Kind::Images]);
        r
    }
}

// --- config (origins.toml) -------------------------------------------------

/// One registered origin, as written to `origins.toml`.
pub struct OriginConfig {
    pub name: String,
    /// "git" (remote) or "path" (local).
    pub source: String,
    /// Clone URL for git origins, filesystem path for path origins.
    pub location: String,
}

/// The model of an origin: its three fields as character sequences.
pub struct OriginSpec {
    pub name: Seq<char>,
    pub source: Seq<char>,
    pub location: Seq<char>,
}

impl View for OriginConfig {
    type V = OriginSpec;

    open spec fn view(&self) -> OriginSpec {
        OriginSpec { name: self.name@, source: self.source@, location: self.location@ }
    }
}

impl Clone for OriginConfig {
    fn clone(&self) -> (r: Self)
        ensures
            r == *self,
    {
        OriginConfig {
            name: self.name.clone(),
            source: self.source.clone(),
            location: self.location.clone(),
        }
    }
}

pub open spec fn spec_is_git(o: OriginSpec) -> bool {
    o.source == "git"@
}

pub open spec fn spec_is_path(o: OriginSpec) -> bool {
    o.source == "path"@
}

impl OriginConfig {
    pub fn is_git(&self) -> (r: bool)
        ensures
            r == spec_is_git(self@),
    {
        str_eq(self.source.as_str(), "git")
    }

    pub fn is_path(&self) -> (r: bool)
        ensures
            r == spec_is_path(self@),
    {
        str_eq(self.source.as_str(), "path")
    }
}

/// All registered origins, in registration order.
pub struct Config {
    pub origins: Vec<OriginConfig>,
}

impl Clone for Config {
    fn clone(&self) -> (r: Self)
        ensures
            r.origins@ == self.origins@,
    {
        let mut origins: Vec<OriginConfig> = Vec::new();
        let mut i: usize = 0;
        while i < self.origins.len()
            invariant
                i <= self.origins@.len(),
                origins@ =~= self.origins@.take(i as int),
            decreases self.origins.len() - i,
        {
            origins.push(self.origins[i].clone());
            i = i + 1;
            proof {
                assert(origins@ =~= self.origins@.take(i as int));
            }
        }
        proof {
            assert(self.origins@.take(self.origins@.len() as int) =~= self.origins@);
        }
        Config { origins }
    }
}

pub open spec fn origin_views(s: Seq<OriginConfig>) -> Seq<OriginSpec> {
    s.map_values(|o: OriginConfig| o@)
}

pub open spec fn ref_views(s: Seq<&OriginConfig>) -> Seq<OriginSpec> {
    s.map_values(|o: &OriginConfig| o@)
}

impl View for Config {
    type V = Seq<OriginSpec>;

    open spec fn view(&self) -> Seq<OriginSpec> {
        origin_views(self.origins@)
    }
}

/// `i` is the first position of an origin called `name`.
pub open spec fn is_first_named(s: Seq<OriginSpec>, name: Seq<char>, i: int) -> bool {
    &&& 0 <= i < s.len()
    &&& s[i].name == name
    &&& forall|j: int| 0 <= j < i ==> s[j].name != name
}

/// The first origin called `name`, if any.
pub open spec fn spec_find(s: Seq<OriginSpec>, name: Seq<char>) -> Option<OriginSpec> {
    if exists|i: int| is_first_named(s, name, i) {
        Some(s[choose|i: int| is_first_named(s, name, i)])
    } else {
        None
    }
}

pub proof fn lemma_find_at(s: Seq<OriginSpec>, name: Seq<char>, i: int)
    requires
        is_first_named(s, name, i),
    ensures
        spec_find(s, name) == Some(s[i]),
{
    let j = choose|j: int| is_first_named(s, name, j);
    if j < i {
        assert(s[j].name != name);
    } else if i < j {
        assert(s[i].name != name);
    }
}

pub proof fn lemma_find_none(s: Seq<OriginSpec>, name: Seq<char>)
    requires
        forall|i: int| 0 <= i < s.len() ==> s[i].name != name,
    ensures
        spec_find(s, name) is None,
{
}

/// An origin called `name` at `j` means there is a first one.
pub proof fn lemma_first_named_exists(s: Seq<OriginSpec>, name: Seq<char>, j: int)
    requires
        0 <= j < s.len(),
        s[j].name == name,
    ensures
        exists|k: int| is_first_named(s, name, k),
    decreases j,
{
    if forall|m: int| 0 <= m < j ==> s[m].name != name {
        assert(is_first_named(s, name, j));
    } else {
        let m = choose|m: int| 0 <= m < j && s[m].name == name;
        lemma_first_named_exists(s, name, m);
    }
}

/// Appending an origin changes what `find` gives only when nothing earlier
/// has the name.
pub proof fn lemma_find_push(s: Seq<OriginSpec>, x: OriginSpec, name: Seq<char>)
    ensures
        spec_find(s.push(x), name) == if spec_find(s, name) is Some {
            spec_find(s, name)
        } else if x.name == name {
            Some(x)
        } else {
            None
        },
{
    let t = s.push(x);
    if spec_find(s, name) is Some {
        let i = choose|i: int| is_first_named(s, name, i);
        lemma_find_at(s, name, i);
        assert(is_first_named(t, name, i));
        lemma_find_at(t, name, i);
    } else {
        assert forall|j: int| 0 <= j < s.len() implies s[j].name != name by {
            if s[j].name == name {
                lemma_first_named_exists(s, name, j);
            }
        }
        if x.name == name {
            assert(is_first_named(t, name, s.len() as int));
            lemma_find_at(t, name, s.len() as int);
        } else {
            lemma_find_none(t, name);
        }
    }
}

/// Dropping the origins called `n` leaves `find` of any other name as it
/// was.
pub proof fn lemma_find_filter_other(s: Seq<OriginSpec>, n: Seq<char>, name: Seq<char>)
    requires
        name != n,
    ensures
        spec_find(s.filter(|o: OriginSpec| o.name != n), name) == spec_find(s, name),
    decreases s.len(),
{
    reveal_with_fuel(Seq::filter, 1);
    if s.len() == 0 {
        assert(s.filter(|o: OriginSpec| o.name != n) =~= s);
    } else {
        let p = s.drop_last();
        let x = s.last();
        lemma_find_filter_other(p, n, name);
        assert(s =~= p.push(x));
        lemma_find_push(p, x, name);
        if x.name != n {
            assert(s.filter(|o: OriginSpec| o.name != n) =~= p.filter(|o: OriginSpec| o.name != n).push(x));
            lemma_find_push(p.filter(|o: OriginSpec| o.name != n), x, name);
        } else {
            assert(s.filter(|o: OriginSpec| o.name != n) =~= p.filter(|o: OriginSpec| o.name != n));
        }
    }
}

/// After registering an origin, looking up its name gives that origin.
pub proof fn law_find_after_register(s: Seq<OriginSpec>, o: OriginSpec)
    ensures
        spec_find(s.filter(|x: OriginSpec| x.name != o.name).push(o), o.name) == Some(o),
{
    broadcast use vstd::seq_lib::group_filter_ensures;

    let f = s.filter(|x: OriginSpec| x.name != o.name);
    assert forall|j: int| 0 <= j < f.len() implies f[j].name != o.name by {
        assert(f.contains(f[j]));
    }
    lemma_find_none(f, o.name);
    lemma_find_push(f, o, o.name);
}

/// No two origins share a name.
pub open spec fn names_distinct(s: Seq<OriginSpec>) -> bool {
    forall|i: int, j: int| 0 <= i < j < s.len() ==> (#[trigger] s[i]).name != (#[trigger] s[j]).name
}

proof fn lemma_filter_keeps_names_distinct(s: Seq<OriginSpec>, n: Seq<char>)
    requires
        names_distinct(s),
    ensures
        names_distinct(s.filter(|x: OriginSpec| x.name != n)),
    decreases s.len(),
{
    if s.len() > 0 {
        let p = |x: OriginSpec| x.name != n;
        let r = s.drop_last();
        let last = s.last();
        assert forall|i: int, j: int| 0 <= i < j < r.len() implies (#[trigger] r[i]).name != (
        #[trigger] r[j]).name by {
            assert(r[i] == s[i] && r[j] == s[j]);
        }
        lemma_filter_keeps_names_distinct(r, n);
        assert(s =~= r.push(last));
        r.lemma_filter_push(last, p);
        let fr = r.filter(p);
        if p(last) {
            let g = fr.push(last);
            assert forall|i: int, j: int| 0 <= i < j < g.len() implies (#[trigger] g[i]).name != (
            #[trigger] g[j]).name by {
                if j == fr.len() {
                    assert(fr.contains(fr[i]));
                    r.lemma_filter_contains_rev(p, fr[i]);
                    let k = choose|k: int| 0 <= k < r.len() && r[k] == fr[i];
                    assert(s[k] == r[k]);
                    assert(s[s.len() - 1] == last);
                } else {
                    assert(g[i] == fr[i] && g[j] == fr[j]);
                }
            }
        }
    }
}

/// Registering an origin keeps the origins' names pairwise distinct: the
/// old entry of that name, if any, is dropped and the new one appended.
pub proof fn law_register_keeps_names_distinct(s: Seq<OriginSpec>, o: OriginSpec)
    requires
        names_distinct(s),
    ensures
        names_distinct(s.filter(|x: OriginSpec| x.name != o.name).push(o)),
{
    broadcast use vstd::seq_lib::group_filter_ensures;

    let f = s.filter(|x: OriginSpec| x.name != o.name);
    lemma_filter_keeps_names_distinct(s, o.name);
    let g = f.push(o);
    assert forall|i: int, j: int| 0 <= i < j < g.len() implies (#[trigger] g[i]).name != (
    #[trigger] g[j]).name by {
        assert(g[i] == f[i]);
        if j == f.len() {
            assert(g[j] == o);
        } else {
            assert(g[j] == f[j]);
        }
    }
}

/// Registering an origin leaves the lookup of every other name as it was.
pub proof fn law_register_keeps_others(s: Seq<OriginSpec>, o: OriginSpec, name: Seq<char>)
    requires
        name != o.name,
    ensures
        spec_find(s.filter(|x: OriginSpec| x.name != o.name).push(o), name) == spec_find(s, name),
{
    lemma_find_filter_other(s, o.name, name);
    lemma_find_push(s.filter(|x: OriginSpec| x.name != o.name), o, name);
}

/// After deregistering a name, nothing is found under it, and every other
/// name is found as before.
pub proof fn law_deregister(s: Seq<OriginSpec>, n: Seq<char>, name: Seq<char>)
    ensures
        spec_find(s.filter(|x: OriginSpec| x.name != n), n) is None,
        name != n ==> spec_find(s.filter(|x: OriginSpec| x.name != n), name) == spec_find(s, name),
{
    broadcast use vstd::seq_lib::group_filter_ensures;

    let f = s.filter(|x: OriginSpec| x.name != n);
    assert forall|j: int| 0 <= j < f.len() implies f[j].name != n by {
        assert(f.contains(f[j]));
    }
    lemma_find_none(f, n);
    if name != n {
        lemma_find_filter_other(s, n, name);
    }
}

impl Config {
    /// The first registered origin called `name`.
    pub fn find(&self, name: &str) -> (r: Option<&OriginConfig>)
        ensures
            match r {
                Some(o) => spec_find(self@, name@) == Some(o@),
                None => spec_find(self@, name@) is None,
            },
    {
        let mut i: usize = 0;
        while i < self.origins.len()
            invariant
                i <= self.origins@.len(),
                forall|j: int| 0 <= j < i ==> self@[j].name != name@,
            decreases self.origins.len() - i,
        {
            if str_eq(self.origins[i].name.as_str(), name) {
                proof {
                    lemma_find_at(self@, name@, i as int);
                }
                return Some(&self.origins[i]);
            }
            i = i + 1;
        }
        proof {
            lemma_find_none(self@, name@);
        }
        None
    }

    /// The remote (git) origins, in registration order.
    pub fn git_origins(&self) -> (r: Vec<&OriginConfig>)
        ensures
            ref_views(r@) == self@.filter(|o: OriginSpec| spec_is_git(o)),
    {
        let mut r: Vec<&OriginConfig> = Vec::new();
        let mut i: usize = 0;
        while i < self.origins.len()
            invariant
                i <= self.origins@.len(),
                ref_views(r@) =~= self@.take(i as int).filter(|o: OriginSpec| spec_is_git(o)),
            decreases self.origins.len() - i,
        {
            proof {
                reveal_with_fuel(Seq::filter, 1);
                assert(self@.take(i + 1).drop_last() =~= self@.take(i as int));
            }
            if self.origins[i].is_git() {
                r.push(&self.origins[i]);
            }
            i = i + 1;
        }
        proof {
            assert(self@.take(self@.len() as int) =~= self@);
        }
        r
    }

    /// The local (path) origins, in registration order.
    pub fn path_origins(&self) -> (r: Vec<&OriginConfig>)
        ensures
            ref_views(r@) == self@.filter(|o: OriginSpec| spec_is_path(o)),
    {
        let mut r: Vec<&OriginConfig> = Vec::new();
        let mut i: usize = 0;
        while i < self.origins.len()
            invariant
                i <= self.origins@.len(),
                ref_views(r@) =~= self@.take(i as int).filter(|o: OriginSpec| spec_is_path(o)),
            decreases self.origins.len() - i,
        {
            proof {
                reveal_with_fuel(Seq::filter, 1);
                assert(self@.take(i + 1).drop_last() =~= self@.take(i as int));
            }
            if self.origins[i].is_path() {
                r.push(&self.origins[i]);
            }
            i = i + 1;
        }
        proof {
            assert(self@.take(self@.len() as int) =~= self@);
        }
        r
    }

    /// Removes every origin called `name`, keeping the others in order.
    pub fn deregister(&mut self, name: &str)
        ensures
            final(self)@ == old(self)@.filter(|o: OriginSpec| o.name != name@),
    {
        let mut kept: Vec<OriginConfig> = Vec::new();
        let mut i: usize = 0;
        while i < self.origins.len()
            invariant
                i <= self.origins@.len(),
                origin_views(kept@) =~= self@.take(i as int).filter(
                    |o: OriginSpec| o.name != name@,
                ),
            decreases self.origins.len() - i,
        {
            proof {
                reveal_with_fuel(Seq::filter, 1);
                assert(self@.take(i + 1).drop_last() =~= self@.take(i as int));
            }
            if !str_eq(self.origins[i].name.as_str(), name) {
                let o = self.origins[i].clone();
                kept.push(o);
            }
            i = i + 1;
        }
        proof {
            assert(self@.take(self@.len() as int) =~= self@);
        }
        self.origins = kept;
    }

    /// Registers `origin`, replacing any origin of the same name: the others
    /// keep their order and the new one goes last.
    pub fn register(&mut self, origin: OriginConfig)
        ensures
            final(self)@ == old(self)@.filter(|o: OriginSpec| o.name != origin@.name).push(
                origin@,
            ),
    {
        self.deregister(origin.name.as_str());
        self.origins.push(origin);
        proof {
            assert(self@ =~= old(self)@.filter(|o: OriginSpec| o.name != origin@.name).push(
                origin@,
            ));
        }
    }
}

/// The default origins seeded on first run (not auto-cloned: lazily fetched
/// the first time their content or manifest is needed).
pub fn default_config() -> (r: Config)
    ensures
        r@ == seq![
            OriginSpec {
                name: "catalog"@,
                source: "git"@,
                location: "https://github.com/loadsmith-el/loadsmith-lab-catalog.git"@,
            },
            OriginSpec {
                name: "images"@,
                source: "git"@,
                location: "https://github.com/loadsmith-el/loadsmith-lab-images.git"@,
            },
        ],
{
    let mut origins: Vec<OriginConfig> = Vec::new();
    origins.push(
        OriginConfig {
            name: "catalog".to_owned(),
            source: "git".to_owned(),
            location: "https://github.com/loadsmith-el/loadsmith-lab-catalog.git".to_owned(),
        },
    );
    origins.push(
        OriginConfig {
            name: "images".to_owned(),
            source: "git".to_owned(),
            location: "https://github.com/loadsmith-el/loadsmith-lab-images.git".to_owned(),
        },
    );
    let r = Config { origins };
    assert(r@ =~= seq![
        OriginSpec {
            name: "catalog"@,
            source: "git"@,
            location: "https://github.com/loadsmith-el/loadsmith-lab-catalog.git"@,
        },
        OriginSpec {
            name: "images"@,
            source: "git"@,
            location: "https://github.com/loadsmith-el/loadsmith-lab-images.git"@,
        },
    ]);
    r
}

// --- filesystem locations --------------------------------------------------

/// `dirs::config_dir`, as a string. It reads the environment
/// (`XDG_CONFIG_HOME`, `HOME`), so nothing is stated of the result.
#[verifier::external_body]
fn platform_config_dir() -> Option<String> {
    dirs::config_dir().map(|p| p.to_string_lossy().into_owned())
}

/// `dirs::data_dir`, as a string. It reads the environment
/// (`XDG_DATA_HOME`, `HOME`), so nothing is stated of the result.
#[verifier::external_body]
fn platform_data_dir() -> Option<String> {
    dirs::data_dir().map(|p| p.to_string_lossy().into_owned())
}

/// `dirs::cache_dir`, as a string. It reads the environment
/// (`XDG_CACHE_HOME`, `HOME`), so nothing is stated of the result.
#[verifier::external_body]
fn platform_cache_dir() -> Option<String> {
    dirs::cache_dir().map(|p| p.to_string_lossy().into_owned())
}

/// `<config dir>/loadsmith-lab/origins.toml`.
pub open spec fn config_file_in(config_dir: Seq<char>) -> Seq<char> {
    path_join(path_join(config_dir, "loadsmith-lab"@), "origins.toml"@)
}

/// `<data dir>/loadsmith-lab/installed`: where installs land.
pub open spec fn workdir_in(data_dir: Seq<char>) -> Seq<char> {
    path_join(data_dir, "loadsmith-lab/installed"@)
}

/// `<cache dir>/loadsmith-lab/origins/<name>`: a git origin's clone.
pub open spec fn cache_dir_in(cache_dir: Seq<char>, name: Seq<char>) -> Seq<char> {
    path_join(path_join(cache_dir, "loadsmith-lab/origins"@), name)
}

/// The config file path, given the platform config directory.
pub fn config_path_from(config_dir: Option<&str>) -> (r: Result<String, LabError>)
    ensures
        match config_dir {
            Some(d) => r matches Ok(p) && p@ == config_file_in(d@),
            None => r matches Err(LabError::NoConfigDir),
        },
{
    match config_dir {
        Some(d) => {
            let base = join(d, "loadsmith-lab");
            Ok(join(base.as_str(), "origins.toml"))
        },
        None => Err(LabError::NoConfigDir),
    }
}

/// Where `origins.toml` lives: `<config dir>/loadsmith-lab/origins.toml`.
pub fn config_path() -> (r: Result<String, LabError>)
    ensures
        r matches Ok(p) ==> exists|d: Seq<char>| p@ == config_file_in(d),
        r matches Err(e) ==> e is NoConfigDir,
{
    let d = platform_config_dir();
    match d {
        Some(d) => config_path_from(Some(d.as_str())),
        None => config_path_from(None),
    }
}

/// The workdir, given the platform data directory.
pub fn workdir_from(data_dir: Option<&str>) -> (r: Result<String, LabError>)
    ensures
        match data_dir {
            Some(d) => r matches Ok(p) && p@ == workdir_in(d@),
            None => r matches Err(LabError::NoDataDir),
        },
{
    match data_dir {
        Some(d) => Ok(join(d, "loadsmith-lab/installed")),
        None => Err(LabError::NoDataDir),
    }
}

/// Where `install` copies remote-origin content to. Items land at
/// `<workdir>/{cases,bundles,images}/<origin>/<name>/`.
pub fn workdir() -> (r: Result<String, LabError>)
    ensures
        r matches Ok(p) ==> exists|d: Seq<char>| p@ == workdir_in(d),
        r matches Err(e) ==> e is NoDataDir,
{
    let d = platform_data_dir();
    match d {
        Some(d) => workdir_from(Some(d.as_str())),
        None => workdir_from(None),
    }
}

/// A git origin's clone location, given the platform cache directory.
pub fn origin_cache_dir_from(cache_dir: Option<&str>, name: &str) -> (r: Result<String, LabError>)
    ensures
        match cache_dir {
            Some(d) => r matches Ok(p) && p@ == cache_dir_in(d@, name@),
            None => r matches Err(LabError::NoCacheDir),
        },
{
    match cache_dir {
        Some(d) => {
            let base = join(d, "loadsmith-lab/origins");
            Ok(join(base.as_str(), name))
        },
        None => Err(LabError::NoCacheDir),
    }
}

/// The cache clone location for a git origin.
pub fn origin_cache_dir(name: &str) -> (r: Result<String, LabError>)
    ensures
        r matches Ok(p) ==> exists|d: Seq<char>| p@ == cache_dir_in(d, name@),
        r matches Err(e) ==> e is NoCacheDir,
{
    let d = platform_cache_dir();
    match d {
        Some(d) => origin_cache_dir_from(Some(d.as_str()), name),
        None => origin_cache_dir_from(None, name),
    }
}

// --- names and resolution --------------------------------------------------

/// Splits `<origin>/<name>` at its first `/`.
pub fn split_qualified(qualified: &str) -> (r: Result<(String, String), LabError>)
    ensures
        match split_once_spec(qualified@, '/') {
            Some((o, n)) => r matches Ok((a, b)) && a@ == o && b@ == n,
            None => r matches Err(LabError::NotQualified(q)) && q@ == qualified@,
        },
{
    let cs = chars_of(qualified);
    match split_once_char(cs.as_slice(), '/') {
        Some((a, b)) => Ok((string_from_chars(a.as_slice()), string_from_chars(b.as_slice()))),
        None => Err(LabError::NotQualified(qualified.to_owned())),
    }
}

/// A reference built from an origin name without `/` splits back into that
/// origin and name.
pub proof fn law_split_qualified_roundtrip(origin: Seq<char>, name: Seq<char>)
    requires
        !origin.contains('/'),
    ensures
        split_once_spec(qualify(origin, name), '/') == Some((origin, name)),
{
    let q = qualify(origin, name);
    let i = origin.len() as int;
    assert(q.take(i) =~= origin);
    assert(q.skip(i + 1) =~= name);
    crate::text::lemma_split_once_at(q, '/', i);
}

/// `loadsmith-lab/<origin>/<name>:local`.
pub open spec fn image_tag_spec(qualified: Seq<char>) -> Seq<char> {
    "loadsmith-lab/"@ + qualified + ":local"@
}

/// Derives the local Docker build tag for an `<origin>/<name>` image item.
pub fn image_tag(qualified: &str) -> (r: String)
    ensures
        r@ == image_tag_spec(qualified@),
{
    let mut v = chars_of("loadsmith-lab/");
    let mut q = chars_of(qualified);
    let mut t = chars_of(":local");
    v.append(&mut q);
    v.append(&mut t);
    string_from_chars(v.as_slice())
}

/// `<origin>/<name>`.
pub open spec fn qualify(origin: Seq<char>, name: Seq<char>) -> Seq<char> {
    origin + seq!['/'] + name
}

pub fn qualified_name(origin: &str, name: &str) -> (r: String)
    ensures
        r@ == qualify(origin@, name@),
{
    let mut v = chars_of(origin);
    v.push('/');
    let mut n = chars_of(name);
    v.append(&mut n);
    string_from_chars(v.as_slice())
}

/// An item directory of a local origin: `<root>/<kind>/<name>`.
pub open spec fn local_item_dir(root: Seq<char>, kind: Kind, name: Seq<char>) -> Seq<char> {
    path_join(path_join(root, kind_dir(kind)), name)
}

/// An installed item directory: `<workdir>/<kind>/<origin>/<name>`.
pub open spec fn installed_item_dir(
    workdir: Seq<char>,
    kind: Kind,
    origin: Seq<char>,
    name: Seq<char>,
) -> Seq<char> {
    path_join(path_join(path_join(workdir, kind_dir(kind)), origin), name)
}

pub fn local_item_path(root: &str, kind: Kind, name: &str) -> (r: String)
    ensures
        r@ == local_item_dir(root@, kind, name@),
{
    let k = join(root, kind.dir());
    join(k.as_str(), name)
}

pub fn installed_item_path(workdir: &str, kind: Kind, origin: &str, name: &str) -> (r: String)
    ensures
        r@ == installed_item_dir(workdir@, kind, origin@, name@),
{
    let k = join(workdir, kind.dir());
    let o = join(k.as_str(), origin);
    join(o.as_str(), name)
}

/// True if `dir` holds an item of `kind`: its manifest file exists, or for
/// images the dir holds a Dockerfile. The filesystem is asked about that
/// marker file of the kind, and its answer is returned.
pub fn item_present(dir: &str, kind: Kind) -> (r: bool)
    ensures
        answered(path_join(dir@, kind_marker(kind)), r),
{
    let marker = match kind.item_manifest() {
        Some(file) => join(dir, file),
        None => join(dir, "Dockerfile"),
    };
    probe_path(marker)
}

/// A local origin's root: its registered path, which must exist.
pub fn local_origin_root(origin: &OriginConfig) -> (r: Result<String, LabError>)
    ensures
        r matches Ok(p) ==> p@ == origin@.location,
        r matches Err(e) ==> (e matches LabError::LocalOriginMissing(n, l) && n@ == origin@.name
            && l@ == origin@.location),
{
    if path_exists(origin.location.as_str()) {
        Ok(origin.location.clone())
    } else {
        Err(LabError::LocalOriginMissing(origin.name.clone(), origin.location.clone()))
    }
}

/// An origin's root directory, given the platform cache directory and
/// whether the path in question (a local origin's registered path, or a
/// remote origin's clone) exists: a local origin's path, which must exist,
/// or a remote origin's cache clone. The flag says the clone is missing and
/// is to be made first, which is allowed only when `ensure` is set; a
/// missing clone without `ensure` is an error.
pub fn origin_root_given(
    origin: &OriginConfig,
    ensure: bool,
    cache_dir: Option<&str>,
    found: bool,
) -> (r: Result<(String, bool), LabError>)
    ensures
        spec_is_path(origin@) ==> if found {
            (r matches Ok((p, c)) && p@ == origin@.location && !c)
        } else {
            (r matches Err(LabError::LocalOriginMissing(n, l)) && n@ == origin@.name && l@
                == origin@.location)
        },
        !spec_is_path(origin@) ==> match cache_dir {
            None => (r matches Err(LabError::NoCacheDir)),
            Some(d) => if found {
                (r matches Ok((p, c)) && p@ == cache_dir_in(d@, origin@.name) && !c)
            } else if ensure {
                (r matches Ok((p, c)) && p@ == cache_dir_in(d@, origin@.name) && c)
            } else {
                (r matches Err(LabError::RemoteNotCloned(n)) && n@ == origin@.name)
            },
        },
{
    if origin.is_path() {
        if found {
            return Ok((origin.location.clone(), false));
        } else {
            return Err(LabError::LocalOriginMissing(origin.name.clone(), origin.location.clone()));
        }
    }
    let cache = match origin_cache_dir_from(cache_dir, origin.name.as_str()) {
        Ok(c) => c,
        Err(e) => {
            return Err(e);
        },
    };
    if found {
        Ok((cache, false))
    } else if ensure {
        Ok((cache, true))
    } else {
        Err(LabError::RemoteNotCloned(origin.name.clone()))
    }
}

/// Resolves an origin's root directory (see `origin_root_given`): the
/// cache directory comes from the platform, and whether the path exists
/// from the filesystem.
pub fn origin_root(origin: &OriginConfig, ensure: bool) -> (r: Result<(String, bool), LabError>)
    ensures
        spec_is_path(origin@) ==> match r {
            Ok((p, c)) => p@ == origin@.location && !c,
            Err(e) => (e matches LabError::LocalOriginMissing(n, l) && n@ == origin@.name && l@
                == origin@.location),
        },
        !spec_is_path(origin@) ==> match r {
            Ok((p, c)) => (exists|d: Seq<char>| p@ == cache_dir_in(d, origin@.name)) && (c
                ==> ensure),
            Err(e) => e is NoCacheDir || (!ensure && (e matches LabError::RemoteNotCloned(n)
                && n@ == origin@.name)),
        },
{
    if origin.is_path() {
        let found = path_exists(origin.location.as_str());
        return origin_root_given(origin, ensure, None, found);
    }
    let cache_dir = platform_cache_dir();
    match &cache_dir {
        Some(d) => {
            let cache = origin_cache_dir_from(Some(d.as_str()), origin.name.as_str());
            let found = match &cache {
                Ok(p) => path_exists(p.as_str()),
                Err(_) => false,
            };
            origin_root_given(origin, ensure, Some(d.as_str()), found)
        },
        None => origin_root_given(origin, ensure, None, false),
    }
}

/// How a remote origin is refreshed.
pub enum OriginUpdate {
    /// No clone yet: clone the URL into the cache directory.
    Clone(String, String),
    /// Pull in the existing clone.
    Pull(String),
}

/// Refreshing a remote origin, given the platform cache directory and
/// whether its clone exists: pull in the clone, or clone it when there is
/// none. A local origin is read live and has nothing to refresh.
pub fn update_origin_given(origin: &OriginConfig, cache_dir: Option<&str>, cloned: bool) -> (r:
    Result<OriginUpdate, LabError>)
    ensures
        !spec_is_git(origin@) ==> (r matches Err(LabError::LocalOriginNoUpdate(n)) && n@
            == origin@.name),
        spec_is_git(origin@) ==> match cache_dir {
            None => (r matches Err(LabError::NoCacheDir)),
            Some(d) => if cloned {
                (r matches Ok(OriginUpdate::Pull(dir)) && dir@ == cache_dir_in(d@, origin@.name))
            } else {
                (r matches Ok(OriginUpdate::Clone(url, dir)) && url@ == origin@.location && dir@
                    == cache_dir_in(d@, origin@.name))
            },
        },
{
    if !origin.is_git() {
        return Err(LabError::LocalOriginNoUpdate(origin.name.clone()));
    }
    let cache = match origin_cache_dir_from(cache_dir, origin.name.as_str()) {
        Ok(c) => c,
        Err(e) => {
            return Err(e);
        },
    };
    if cloned {
        Ok(OriginUpdate::Pull(cache))
    } else {
        Ok(OriginUpdate::Clone(origin.location.clone(), cache))
    }
}

/// Refreshing is for remote origins only (see `update_origin_given`): the
/// cache directory comes from the platform, and whether the clone exists
/// from the filesystem.
pub fn update_origin(origin: &OriginConfig) -> (r: Result<OriginUpdate, LabError>)
    ensures
        !spec_is_git(origin@) ==> (r matches Err(LabError::LocalOriginNoUpdate(n)) && n@
            == origin@.name),
        spec_is_git(origin@) ==> match r {
            Ok(OriginUpdate::Clone(url, dir)) => url@ == origin@.location && exists|d: Seq<char>|
                dir@ == cache_dir_in(d, origin@.name),
            Ok(OriginUpdate::Pull(dir)) => exists|d: Seq<char>| dir@ == cache_dir_in(d, origin@.name),
            Err(e) => e is NoCacheDir,
        },
{
    let cache_dir = platform_cache_dir();
    match &cache_dir {
        Some(d) => {
            let cloned = match origin_cache_dir_from(Some(d.as_str()), origin.name.as_str()) {
                Ok(p) => path_exists(p.as_str()),
                Err(_) => false,
            };
            update_origin_given(origin, Some(d.as_str()), cloned)
        },
        None => update_origin_given(origin, None, false),
    }
}

/// Where an item reference points, before the filesystem is asked.
pub enum ItemLocation {
    /// In a local origin: (origin name, registered path, item directory).
    Local(String, String, String),
    /// Installed from a remote origin: the item directory in the workdir.
    Installed(String),
}

/// Where `<origin>/<name>` points: under a local origin's registered path,
/// or under the workdir (`data_dir` is the platform data directory) for a
/// remote one.
pub fn item_location(cfg: &Config, qualified: &str, kind: Kind, data_dir: Option<&str>) -> (r:
    Result<ItemLocation, LabError>)
    ensures
        match split_once_spec(qualified@, '/') {
            None => (r matches Err(LabError::NotQualified(q)) && q@ == qualified@),
            Some((o, n)) => match spec_find(cfg@, o) {
                None => (r matches Err(LabError::UnknownOrigin(m)) && m@ == o),
                Some(org) => if spec_is_path(org) {
                    r matches Ok(ItemLocation::Local(a, b, d)) && a@ == org.name && b@
                        == org.location && d@ == local_item_dir(org.location, kind, n)
                } else {
                    match data_dir {
                        Some(dd) => (r matches Ok(ItemLocation::Installed(d)) && d@
                            == installed_item_dir(workdir_in(dd@), kind, o, n)),
                        None => (r matches Err(LabError::NoDataDir)),
                    }
                },
            },
        },
{
    let (origin_name, name) = split_qualified(qualified)?;
    let origin = match cfg.find(origin_name.as_str()) {
        Some(o) => o,
        None => {
            return Err(LabError::UnknownOrigin(origin_name));
        },
    };
    if origin.is_path() {
        let dir = local_item_path(origin.location.as_str(), kind, name.as_str());
        Ok(ItemLocation::Local(origin.name.clone(), origin.location.clone(), dir))
    } else {
        let w = match workdir_from(data_dir) {
            Ok(w) => w,
            Err(e) => {
                return Err(e);
            },
        };
        let dir = installed_item_path(w.as_str(), kind, origin_name.as_str(), name.as_str());
        Ok(ItemLocation::Installed(dir))
    }
}

/// The resolution of a located item, given what the filesystem answered:
/// whether a local origin's path exists, and whether the item directory
/// holds its marker file.
pub fn located_item(
    qualified: &str,
    kind: Kind,
    location: ItemLocation,
    root_exists: bool,
    present: bool,
) -> (r: Result<String, LabError>)
    ensures
        match location {
            ItemLocation::Local(o, root, d) => if !root_exists {
                r matches Err(LabError::LocalOriginMissing(a, b)) && a == o && b == root
            } else if present {
                r == Ok::<String, LabError>(d)
            } else {
                r matches Err(LabError::ItemNotFound(k, q, x)) && k == kind && q@ == qualified@
                    && x == d
            },
            ItemLocation::Installed(d) => if present {
                r == Ok::<String, LabError>(d)
            } else {
                r matches Err(LabError::ItemNotInstalled(k, q)) && k == kind && q@ == qualified@
            },
        },
{
    match location {
        ItemLocation::Local(o, root, d) => {
            if !root_exists {
                Err(LabError::LocalOriginMissing(o, root))
            } else if present {
                Ok(d)
            } else {
                Err(LabError::ItemNotFound(kind, qualified.to_owned(), d))
            }
        },
        ItemLocation::Installed(d) => {
            if present {
                Ok(d)
            } else {
                Err(LabError::ItemNotInstalled(kind, qualified.to_owned()))
            }
        },
    }
}

/// What resolving `qualified` to an item of `kind` may give: a reference
/// that is not `<origin>/<name>` fails with `NotQualified`, one to an
/// unregistered origin with `UnknownOrigin`; a local origin's item is its
/// directory under the origin's path, given when the filesystem answered
/// that the path exists and that the directory holds the kind's marker
/// file, else `LocalOriginMissing` or `ItemNotFound` on the answer that
/// failed; a remote origin's item is its installed directory under some
/// workdir, given when the filesystem answered that it holds the kind's
/// marker file, else `ItemNotInstalled` on that answer (or `NoDataDir`).
pub open spec fn resolve_spec(
    cfg: Seq<OriginSpec>,
    qualified: Seq<char>,
    kind: Kind,
    r: Result<String, LabError>,
) -> bool {
    match split_once_spec(qualified, '/') {
        None => r matches Err(LabError::NotQualified(q)) && q@ == qualified,
        Some((o, n)) => match spec_find(cfg, o) {
            None => r matches Err(LabError::UnknownOrigin(m)) && m@ == o,
            Some(org) => if spec_is_path(org) {
                &&& r matches Ok(d) ==> {
                    &&& d@ == local_item_dir(org.location, kind, n)
                    &&& answered(org.location, true)
                    &&& answered(path_join(d@, kind_marker(kind)), true)
                }
                &&& r matches Err(e) ==> {
                    ||| e matches LabError::LocalOriginMissing(a, b) && a@ == org.name && b@
                        == org.location && answered(org.location, false)
                    ||| e matches LabError::ItemNotFound(k, q, d) && k == kind && q@ == qualified
                        && d@ == local_item_dir(org.location, kind, n) && answered(org.location, true)
                        && answered(path_join(d@, kind_marker(kind)), false)
                }
            } else {
                &&& r matches Ok(d) ==> exists|w: Seq<char>|
                    d@ == installed_item_dir(w, kind, o, n) && answered(
                        path_join(d@, kind_marker(kind)),
                        true,
                    )
                &&& r matches Err(e) ==> {
                    ||| e is NoDataDir
                    ||| e matches LabError::ItemNotInstalled(k, q) && k == kind && q@ == qualified
                        && exists|w: Seq<char>|
                        answered(
                            path_join(#[trigger] installed_item_dir(w, kind, o, n), kind_marker(kind)),
                            false,
                        )
                }
            },
        },
    }
}

/// Against a filesystem that answers consistently (`fs` says which paths
/// exist), an item resolves exactly to a directory holding the marker file
/// of the requested kind (`case.yaml`, `bundle.yaml` or `Dockerfile`): a
/// local origin's item when its path exists and the marker is there, a
/// remote origin's installed item when the marker is there; a missing
/// marker is `ItemNotFound` or `ItemNotInstalled`, a missing local path
/// `LocalOriginMissing`.
pub proof fn law_resolved_item_holds_its_marker(
    cfg: Seq<OriginSpec>,
    qualified: Seq<char>,
    kind: Kind,
    r: Result<String, LabError>,
    fs: spec_fn(Seq<char>) -> bool,
)
    requires
        resolve_spec(cfg, qualified, kind, r),
        crate::paths::probes_agree(fs),
    ensures
        split_once_spec(qualified, '/') matches Some((o, n)) ==> (spec_find(cfg, o) matches Some(
            org,
        ) ==> {
            &&& spec_is_path(org) ==> {
                &&& r matches Ok(d) ==> fs(org.location) && d@ == local_item_dir(org.location, kind, n)
                    && fs(path_join(d@, kind_marker(kind)))
                &&& r matches Err(LabError::LocalOriginMissing(_, _)) ==> !fs(org.location)
                &&& r matches Err(LabError::ItemNotFound(_, _, _)) ==> fs(org.location) && !fs(
                    path_join(local_item_dir(org.location, kind, n), kind_marker(kind)),
                )
            }
            &&& !spec_is_path(org) ==> {
                &&& r matches Ok(d) ==> fs(path_join(d@, kind_marker(kind))) && exists|w: Seq<char>|
                    d@ == installed_item_dir(w, kind, o, n)
                &&& r matches Err(LabError::ItemNotInstalled(_, _)) ==> exists|w: Seq<char>|
                    !fs(path_join(#[trigger] installed_item_dir(w, kind, o, n), kind_marker(kind)))
                &&& r is Ok || r matches Err(LabError::ItemNotInstalled(_, _)) || r matches Err(
                    LabError::NoDataDir,
                )
            }
        }),
{
    match split_once_spec(qualified, '/') {
        None => {},
        Some((o, n)) => match spec_find(cfg, o) {
            None => {},
            Some(org) => {
                if spec_is_path(org) {
                    match r {
                        Ok(d) => {
                            crate::paths::lemma_answered(fs, org.location, true);
                            crate::paths::lemma_answered(fs, path_join(d@, kind_marker(kind)), true);
                        },
                        Err(LabError::LocalOriginMissing(_, _)) => {
                            crate::paths::lemma_answered(fs, org.location, false);
                        },
                        Err(LabError::ItemNotFound(_, _, d)) => {
                            crate::paths::lemma_answered(fs, org.location, true);
                            crate::paths::lemma_answered(
                                fs,
                                path_join(d@, kind_marker(kind)),
                                false,
                            );
                        },
                        _ => {},
                    }
                } else {
                    match r {
                        Ok(d) => {
                            crate::paths::lemma_answered(fs, path_join(d@, kind_marker(kind)), true);
                        },
                        Err(LabError::ItemNotInstalled(_, _)) => {
                            let w = choose|w: Seq<char>|
                                answered(
                                    path_join(#[trigger] installed_item_dir(w, kind, o, n), kind_marker(kind)),
                                    false,
                                );
                            crate::paths::lemma_answered(
                                fs,
                                path_join(installed_item_dir(w, kind, o, n), kind_marker(kind)),
                                false,
                            );
                        },
                        _ => {},
                    }
                }
            },
        },
    }
}

/// Resolves an `<origin>/<name>` reference to its item directory: the live
/// directory of a local origin, or the installed copy of a remote one (see
/// `item_location`); whether the origin's path and the item exist is then
/// read from the filesystem (see `located_item` for each answer).
pub fn resolve_item(cfg: &Config, qualified: &str, kind: Kind) -> (r: Result<String, LabError>)
    ensures
        resolve_spec(cfg@, qualified@, kind, r),
{
    let data_dir = platform_data_dir();
    let location = match &data_dir {
        Some(d) => item_location(cfg, qualified, kind, Some(d.as_str())),
        None => item_location(cfg, qualified, kind, None),
    }?;
    let (root_exists, present) = match &location {
        ItemLocation::Local(_, root, dir) => {
            let found = probe_path(root.clone());
            if found {
                (true, item_present(dir.as_str(), kind))
            } else {
                (false, false)
            }
        },
        ItemLocation::Installed(dir) => (true, item_present(dir.as_str(), kind)),
    };
    located_item(qualified, kind, location, root_exists, present)
}

// --- manifest --------------------------------------------------------------

/// The `loadsmith-lab.toml` index at an origin root: `(name, description)`
/// pairs per category, in name order.
pub struct Manifest {
    pub cases: Vec<(String, String)>,
    pub bundles: Vec<(String, String)>,
    pub images: Vec<(String, String)>,
}

pub open spec fn spec_category(m: &Manifest, kind: Kind) -> Seq<(String, String)> {
    match kind {
        Kind::Cases => m.cases@,
        Kind::Bundles => m.bundles@,
        Kind::Images => m.images@,
    }
}

/// Names strictly increase along a category: sorted, and none twice (as
/// the keys of the manifest's maps).
pub open spec fn names_strictly_sorted(entries: Seq<(String, String)>) -> bool {
    forall|i: int, j: int|
        0 <= i < j < entries.len() ==> crate::text::seq_lt(#[trigger] entries[i].0@, #[trigger] entries[j].0@)
}

fn strictly_sorted(entries: &Vec<(String, String)>) -> (r: bool)
    ensures
        r == names_strictly_sorted(entries@),
{
    let mut i: usize = 1;
    if entries.len() == 0 {
        return true;
    }
    while i < entries.len()
        invariant
            1 <= i <= entries@.len(),
            names_strictly_sorted(entries@.take(i as int)),
        decreases entries.len() - i,
    {
        let a = chars_of(entries[i - 1].0.as_str());
        let b = chars_of(entries[i].0.as_str());
        if !crate::text::chars_lt(a.as_slice(), b.as_slice()) {
            proof {
                assert(!crate::text::seq_lt(entries@[i - 1].0@, entries@[i as int].0@));
            }
            return false;
        }
        proof {
            assert forall|x: int, y: int| 0 <= x < y < i + 1 implies crate::text::seq_lt(
                #[trigger] entries@.take(i + 1)[x].0@,
                #[trigger] entries@.take(i + 1)[y].0@,
            ) by {
                if y < i {
                    assert(entries@.take(i as int)[x] == entries@[x]);
                    assert(entries@.take(i as int)[y] == entries@[y]);
                } else if x < i - 1 {
                    assert(entries@.take(i as int)[x] == entries@[x]);
                    assert(entries@.take(i as int)[i - 1] == entries@[i - 1]);
                    crate::text::lemma_seq_lt_trans(
                        entries@[x].0@,
                        entries@[i - 1].0@,
                        entries@[y].0@,
                    );
                }
            }
        }
        i = i + 1;
    }
    proof {
        assert(entries@.take(entries@.len() as int) =~= entries@);
    }
    true
}

impl Manifest {
    /// The manifest's maps hold each name once, in name order: every
    /// category's names strictly increase.
    pub open spec fn wf(&self) -> bool {
        &&& names_strictly_sorted(self.cases@)
        &&& names_strictly_sorted(self.bundles@)
        &&& names_strictly_sorted(self.images@)
    }

    /// Checks that every category holds each name once, in name order.
    pub fn well_formed(&self) -> (r: bool)
        ensures
            r == self.wf(),
    {
        strictly_sorted(&self.cases) && strictly_sorted(&self.bundles) && strictly_sorted(
            &self.images,
        )
    }

    /// The `(name, description)` pairs of one category.
    pub fn category(&self, kind: Kind) -> (r: &Vec<(String, String)>)
        ensures
            r@ == spec_category(self, kind),
    {
        match kind {
            Kind::Cases => &self.cases,
            Kind::Bundles => &self.bundles,
            Kind::Images => &self.images,
        }
    }
}

/// Finds the origin whose manifest `origin show` reads (a remote one is
/// cloned on demand before reading).
pub fn manifest_of<'a>(cfg: &'a Config, origin_name: &str) -> (r: Result<&'a OriginConfig, LabError>)
    ensures
        match spec_find(cfg@, origin_name@) {
            Some(o) => r matches Ok(x) && x@ == o,
            None => r matches Err(LabError::NoSuchOrigin(m)) && m@ == origin_name@,
        },
{
    match cfg.find(origin_name) {
        Some(o) => Ok(o),
        None => Err(LabError::NoSuchOrigin(origin_name.to_owned())),
    }
}

/// The entries `0..j` of a manifest category that are not installed, as
/// `(<origin>/<name>, description)` in manifest order; `flags[j]` says
/// whether entry `j` is installed (a missing flag counts as not installed).
pub open spec fn offers_of(
    name: Seq<char>,
    entries: Seq<(String, String)>,
    flags: Seq<bool>,
    j: int,
) -> Seq<(Seq<char>, Seq<char>)>
    decreases j,
{
    if j <= 0 {
        Seq::empty()
    } else {
        let prev = offers_of(name, entries, flags, j - 1);
        if j - 1 < flags.len() && flags[j - 1] {
            prev
        } else {
            prev.push((qualify(name, entries[j - 1].0@), entries[j - 1].1@))
        }
    }
}

/// What the first `i` remote origins offer that is not installed, origin by
/// origin: `manifests[k]` and `installed[k]` belong to the `k`-th remote
/// origin, and an origin without a manifest offers nothing.
pub open spec fn offers_upto(
    gits: Seq<OriginSpec>,
    manifests: Seq<Option<Manifest>>,
    kind: Kind,
    installed: Seq<Seq<bool>>,
    i: int,
) -> Seq<(Seq<char>, Seq<char>)>
    decreases i,
{
    if i <= 0 {
        Seq::empty()
    } else {
        let prev = offers_upto(gits, manifests, kind, installed, i - 1);
        let k = i - 1;
        if k < manifests.len() && manifests[k] is Some {
            let entries = spec_category(&manifests[k].unwrap(), kind);
            prev + offers_of(
                gits[k].name,
                entries,
                if k < installed.len() {
                    installed[k]
                } else {
                    Seq::empty()
                },
                entries.len() as int,
            )
        } else {
            prev
        }
    }
}

/// What the remote origins among `origins` offer that is not installed.
pub open spec fn offered_uninstalled(
    origins: Seq<OriginSpec>,
    manifests: Seq<Option<Manifest>>,
    kind: Kind,
    installed: Seq<Seq<bool>>,
) -> Seq<(Seq<char>, Seq<char>)> {
    let g = origins.filter(|o: OriginSpec| spec_is_git(o));
    offers_upto(g, manifests, kind, installed, g.len() as int)
}

/// The views of per-origin flag vectors.
pub open spec fn flag_views(v: Seq<Vec<bool>>) -> Seq<Seq<bool>> {
    v.map_values(|f: Vec<bool>| f@)
}

/// Items offered by remote origins' manifests that aren't installed, as
/// `(<origin>/<name>, description)` sorted by name: `manifests[i]` is the
/// manifest of the `i`-th remote origin when it is cloned and readable, and
/// `installed[i][j]` whether entry `j` of its category is installed.
pub fn available_among(
    cfg: &Config,
    kind: Kind,
    manifests: &Vec<Option<Manifest>>,
    installed: &Vec<Vec<bool>>,
) -> (r: Vec<(String, String)>)
    ensures
        crate::sorting::sorted_by_name(r@),
        pair_views(r@).to_multiset() == offered_uninstalled(
            cfg@,
            manifests@,
            kind,
            flag_views(installed@),
        ).to_multiset(),
{
    let gits = cfg.git_origins();
    let ghost g = cfg@.filter(|o: OriginSpec| spec_is_git(o));
    let ghost fl = flag_views(installed@);
    let mut out: Vec<(String, String)> = Vec::new();
    let mut i: usize = 0;
    while i < gits.len()
        invariant
            i <= gits@.len(),
            ref_views(gits@) == g,
            fl == flag_views(installed@),
            pair_views(out@) =~= offers_upto(g, manifests@, kind, fl, i as int),
        decreases gits.len() - i,
    {
        proof {
            assert(g[i as int] == gits@[i as int]@);
        }
        if i < manifests.len() {
            match &manifests[i] {
                Some(m) => {
                    let items = m.category(kind);
                    let ghost flags: Seq<bool> = if (i as int) < fl.len() {
                        fl[i as int]
                    } else {
                        Seq::empty()
                    };
                    let ghost before = pair_views(out@);
                    let mut j: usize = 0;
                    while j < items.len()
                        invariant
                            i < gits@.len(),
                            i < manifests@.len(),
                            manifests@[i as int] == Some(*m),
                            items@ == spec_category(m, kind),
                            ref_views(gits@) == g,
                            fl == flag_views(installed@),
                            flags == (if (i as int) < fl.len() {
                                fl[i as int]
                            } else {
                                Seq::<bool>::empty()
                            }),
                            j <= items@.len(),
                            before == offers_upto(g, manifests@, kind, fl, i as int),
                            pair_views(out@) =~= before + offers_of(
                                g[i as int].name,
                                items@,
                                flags,
                                j as int,
                            ),
                        decreases items.len() - j,
                    {
                        let is_installed = i < installed.len() && j < installed[i].len()
                            && installed[i][j];
                        proof {
                            if (i as int) < fl.len() {
                                assert(fl[i as int] == installed@[i as int]@);
                            }
                            assert(is_installed == ((j as int) < flags.len() && flags[j as int]));
                            assert(g[i as int] == gits@[i as int]@);
                        }
                        if !is_installed {
                            let q = qualified_name(gits[i].name.as_str(), items[j].0.as_str());
                            let d = items[j].1.clone();
                            let ghost mid = pair_views(out@);
                            out.push((q, d));
                            proof {
                                assert(pair_views(out@) =~= mid.push((q@, d@)));
                            }
                        }
                        j = j + 1;
                    }
                    proof {
                        assert(spec_category(&manifests@[i as int].unwrap(), kind) == items@);
                    }
                },
                None => {},
            }
        }
        i = i + 1;
    }
    let ghost unsorted = out@;
    let sorted = crate::sorting::sort_by_name(out);
    proof {
        crate::sorting::lemma_map_multiset(
            sorted@,
            unsorted,
            |e: (String, String)| (e.0@, e.1@),
        );
        assert(pair_views(sorted@) =~= sorted@.map_values(|e: (String, String)| (e.0@, e.1@)));
        assert(pair_views(unsorted) =~= unsorted.map_values(|e: (String, String)| (e.0@, e.1@)));
    }
    sorted
}

/// The offer for entry `j` of `entries` of origin `name`: `<origin>/<name>`
/// and its description.
pub open spec fn entry_offer(
    name: Seq<char>,
    entries: Seq<(String, String)>,
    j: int,
) -> (Seq<char>, Seq<char>) {
    (qualify(name, entries[j].0@), entries[j].1@)
}

/// Flag `j` is there and set.
spec fn flag_set(flags: Seq<bool>, j: int) -> bool {
    0 <= j < flags.len() && flags[j]
}

proof fn lemma_offers_of(name: Seq<char>, entries: Seq<(String, String)>, flags: Seq<bool>, n: int)
    requires
        0 <= n <= entries.len(),
    ensures
        forall|x: (Seq<char>, Seq<char>)|
            #[trigger] offers_of(name, entries, flags, n).contains(x) ==> exists|j: int|
                0 <= j < n && x == #[trigger] entry_offer(name, entries, j) && !flag_set(flags, j),
        forall|j: int|
            0 <= j < n && !flag_set(flags, j) ==> offers_of(name, entries, flags, n).contains(
                #[trigger] entry_offer(name, entries, j),
            ),
    decreases n,
{
    if n > 0 {
        lemma_offers_of(name, entries, flags, n - 1);
        let prev = offers_of(name, entries, flags, n - 1);
        let cur = offers_of(name, entries, flags, n);
        if !flag_set(flags, n - 1) {
            assert(cur == prev.push(entry_offer(name, entries, n - 1)));
            assert forall|x: (Seq<char>, Seq<char>)| #[trigger] cur.contains(x) implies exists|j: int|
                0 <= j < n && x == #[trigger] entry_offer(name, entries, j) && !flag_set(flags, j) by {
                let idx = choose|idx: int| 0 <= idx < cur.len() && cur[idx] == x;
                if idx < prev.len() {
                    assert(prev[idx] == x);
                    assert(prev.contains(x));
                } else {
                    assert(x == entry_offer(name, entries, n - 1));
                }
            }
            assert forall|j: int| 0 <= j < n && !flag_set(flags, j) implies cur.contains(
                #[trigger] entry_offer(name, entries, j),
            ) by {
                if j < n - 1 {
                    assert(prev.contains(entry_offer(name, entries, j)));
                    let idx = choose|idx: int| 0 <= idx < prev.len() && prev[idx] == entry_offer(name, entries, j);
                    assert(cur[idx] == prev[idx]);
                } else {
                    assert(cur[prev.len() as int] == entry_offer(name, entries, j));
                }
            }
        } else {
            assert(cur == prev);
        }
    }
}

/// The flags given to the `k`-th remote origin.
spec fn flags_of(installed: Seq<Seq<bool>>, k: int) -> Seq<bool> {
    if 0 <= k < installed.len() {
        installed[k]
    } else {
        Seq::empty()
    }
}

/// The `k`-th manifest is there and lists entry `j` of `kind`.
pub open spec fn listed(manifests: Seq<Option<Manifest>>, kind: Kind, k: int, j: int) -> bool {
    0 <= k < manifests.len() && manifests[k] is Some && 0 <= j < spec_category(
        &manifests[k].unwrap(),
        kind,
    ).len()
}

proof fn lemma_offers_upto(
    gits: Seq<OriginSpec>,
    manifests: Seq<Option<Manifest>>,
    kind: Kind,
    installed: Seq<Seq<bool>>,
    i: int,
)
    requires
        0 <= i <= gits.len(),
    ensures
        forall|x: (Seq<char>, Seq<char>)|
            #[trigger] offers_upto(gits, manifests, kind, installed, i).contains(x) ==> exists|
                k: int,
                j: int,
            |
                0 <= k < i && listed(manifests, kind, k, j) && x == #[trigger] entry_offer(
                    gits[k].name,
                    spec_category(&manifests[k].unwrap(), kind),
                    j,
                ) && !flag_set(flags_of(installed, k), j),
        forall|k: int, j: int|
            0 <= k < i && listed(manifests, kind, k, j) && !flag_set(flags_of(installed, k), j)
                ==> offers_upto(gits, manifests, kind, installed, i).contains(
                #[trigger] entry_offer(gits[k].name, spec_category(&manifests[k].unwrap(), kind), j),
            ),
    decreases i,
{
    if i > 0 {
        lemma_offers_upto(gits, manifests, kind, installed, i - 1);
        let prev = offers_upto(gits, manifests, kind, installed, i - 1);
        let cur = offers_upto(gits, manifests, kind, installed, i);
        let k0 = i - 1;
        if k0 < manifests.len() && manifests[k0] is Some {
            let entries = spec_category(&manifests[k0].unwrap(), kind);
            let fl = flags_of(installed, k0);
            let mine = offers_of(gits[k0].name, entries, fl, entries.len() as int);
            lemma_offers_of(gits[k0].name, entries, fl, entries.len() as int);
            assert(cur == prev + mine);
            assert forall|x: (Seq<char>, Seq<char>)| #[trigger] cur.contains(x) implies exists|
                k: int,
                j: int,
            |
                0 <= k < i && listed(manifests, kind, k, j) && x == #[trigger] entry_offer(
                    gits[k].name,
                    spec_category(&manifests[k].unwrap(), kind),
                    j,
                ) && !flag_set(flags_of(installed, k), j) by {
                let idx = choose|idx: int| 0 <= idx < cur.len() && cur[idx] == x;
                if idx < prev.len() {
                    assert(prev[idx] == x);
                    assert(prev.contains(x));
                } else {
                    assert(mine[idx - prev.len()] == x);
                    assert(mine.contains(x));
                    let j = choose|j: int|
                        0 <= j < entries.len() && x == #[trigger] entry_offer(gits[k0].name, entries, j)
                            && !flag_set(fl, j);
                    assert(listed(manifests, kind, k0, j));
                }
            }
            assert forall|k: int, j: int|
                0 <= k < i && listed(manifests, kind, k, j) && !flag_set(flags_of(installed, k), j)
                    implies cur.contains(
                #[trigger] entry_offer(gits[k].name, spec_category(&manifests[k].unwrap(), kind), j),
            ) by {
                let x = entry_offer(gits[k].name, spec_category(&manifests[k].unwrap(), kind), j);
                if k < i - 1 {
                    assert(prev.contains(x));
                    let idx = choose|idx: int| 0 <= idx < prev.len() && prev[idx] == x;
                    assert(cur[idx] == prev[idx]);
                } else {
                    assert(mine.contains(x));
                    let idx = choose|idx: int| 0 <= idx < mine.len() && mine[idx] == x;
                    assert(cur[prev.len() + idx] == mine[idx]);
                }
            }
        } else {
            assert(cur == prev);
            assert forall|k: int, j: int|
                0 <= k < i && listed(manifests, kind, k, j) && !flag_set(flags_of(installed, k), j)
                    implies cur.contains(
                #[trigger] entry_offer(gits[k].name, spec_category(&manifests[k].unwrap(), kind), j),
            ) by {
                assert(k < i - 1);
            }
        }
    }
}

/// Against a filesystem that answers consistently (`fs` says which paths
/// exist), `list --available` offers exactly the manifest entries of remote
/// origins whose directory under the workdir (`<kind>/<origin>/<name>`)
/// does not exist: every such entry is offered, and every offer is one.
pub proof fn law_available_offers_exactly_the_uninstalled(
    workdir: Seq<char>,
    cfg: Seq<OriginSpec>,
    manifests: Seq<Option<Manifest>>,
    kind: Kind,
    installed: Seq<Seq<bool>>,
    fs: spec_fn(Seq<char>) -> bool,
)
    requires
        installed_answered(workdir, cfg, manifests, kind, installed),
        crate::paths::probes_agree(fs),
    ensures
        ({
            let g = cfg.filter(|o: OriginSpec| spec_is_git(o));
            let offered = offered_uninstalled(cfg, manifests, kind, installed);
            &&& forall|k: int, j: int|
                0 <= k < g.len() && listed(manifests, kind, k, j) && !fs(
                    installed_item_dir(
                        workdir,
                        kind,
                        g[k].name,
                        spec_category(&manifests[k].unwrap(), kind)[j].0@,
                    ),
                ) ==> offered.contains(
                    #[trigger] entry_offer(g[k].name, spec_category(&manifests[k].unwrap(), kind), j),
                )
            &&& forall|x: (Seq<char>, Seq<char>)|
                #[trigger] offered.contains(x) ==> exists|k: int, j: int|
                    0 <= k < g.len() && listed(manifests, kind, k, j) && x == #[trigger] entry_offer(
                        g[k].name,
                        spec_category(&manifests[k].unwrap(), kind),
                        j,
                    ) && !fs(
                        installed_item_dir(
                            workdir,
                            kind,
                            g[k].name,
                            spec_category(&manifests[k].unwrap(), kind)[j].0@,
                        ),
                    )
        }),
{
    let g = cfg.filter(|o: OriginSpec| spec_is_git(o));
    let offered = offered_uninstalled(cfg, manifests, kind, installed);
    lemma_offers_upto(g, manifests, kind, installed, g.len() as int);
    assert forall|k: int, j: int| 0 <= k < g.len() && listed(manifests, kind, k, j) implies flag_set(
        flags_of(installed, k),
        j,
    ) == fs(
        installed_item_dir(
            workdir,
            kind,
            g[k].name,
            spec_category(&manifests[k].unwrap(), kind)[j].0@,
        ),
    ) by {
        assert(installed[k].len() == entry_count(manifests, kind, k));
        crate::paths::lemma_answered(
            fs,
            installed_item_dir(
                workdir,
                kind,
                g[k].name,
                spec_category(&manifests[k].unwrap(), kind)[j].0@,
            ),
            installed[k][j],
        );
    }
}

/// How many entries of `kind` the `i`-th manifest lists (none without a
/// manifest).
pub open spec fn entry_count(manifests: Seq<Option<Manifest>>, kind: Kind, i: int) -> nat {
    if 0 <= i < manifests.len() && manifests[i] is Some {
        spec_category(&manifests[i].unwrap(), kind).len()
    } else {
        0
    }
}

/// The installed flags say, for entry `j` of the `i`-th remote origin's
/// manifest, what the filesystem answered when asked whether that entry's
/// installed directory under `workdir` exists; an origin without a
/// manifest has none.
pub open spec fn installed_answered(
    workdir: Seq<char>,
    origins: Seq<OriginSpec>,
    manifests: Seq<Option<Manifest>>,
    kind: Kind,
    installed: Seq<Seq<bool>>,
) -> bool {
    let g = origins.filter(|o: OriginSpec| spec_is_git(o));
    &&& installed.len() == g.len()
    &&& forall|i: int| 0 <= i < g.len() ==> (#[trigger] installed[i]).len() == entry_count(manifests, kind, i)
    &&& forall|i: int, j: int|
        0 <= i < g.len() && 0 <= j < installed[i].len() ==> answered(
            installed_item_dir(workdir, kind, g[i].name, spec_category(&manifests[i].unwrap(), kind)[j].0@),
            #[trigger] installed[i][j],
        )
}

/// Items offered by remote origins' manifests that aren't installed yet:
/// whether an item is installed is read from the filesystem (its directory
/// in the workdir exists, asked of that directory), and the list is then
/// as `available_among` gives it for those answers.
pub fn available(cfg: &Config, kind: Kind, manifests: &Vec<Option<Manifest>>) -> (r: Result<
    Vec<(String, String)>,
    LabError,
>)
    ensures
        r matches Ok(v) ==> exists|w: Seq<char>, installed: Seq<Seq<bool>>|
            #![trigger installed_answered(w, cfg@, manifests@, kind, installed)]
            {
                &&& crate::sorting::sorted_by_name(v@)
                &&& pair_views(v@).to_multiset() == offered_uninstalled(
                    cfg@,
                    manifests@,
                    kind,
                    installed,
                ).to_multiset()
                &&& installed_answered(w, cfg@, manifests@, kind, installed)
            },
        r matches Err(e) ==> e is NoDataDir,
{
    let w = workdir()?;
    let gits = cfg.git_origins();
    let ghost g = cfg@.filter(|o: OriginSpec| spec_is_git(o));
    let mut installed: Vec<Vec<bool>> = Vec::new();
    let mut i: usize = 0;
    while i < gits.len()
        invariant
            i <= gits@.len(),
            ref_views(gits@) == g,
            installed@.len() == i,
            forall|k: int|
                0 <= k < i ==> (#[trigger] flag_views(installed@)[k]).len() == entry_count(
                    manifests@,
                    kind,
                    k,
                ),
            forall|k: int, j: int|
                0 <= k < i && 0 <= j < flag_views(installed@)[k].len() ==> answered(
                    installed_item_dir(
                        w@,
                        kind,
                        g[k].name,
                        spec_category(&manifests@[k].unwrap(), kind)[j].0@,
                    ),
                    #[trigger] flag_views(installed@)[k][j],
                ),
        decreases gits.len() - i,
    {
        proof {
            assert(g[i as int] == gits@[i as int]@);
        }
        let mut flags: Vec<bool> = Vec::new();
        if i < manifests.len() {
            match &manifests[i] {
                Some(m) => {
                    let items = m.category(kind);
                    proof {
                        assert(manifests@[i as int] == Some(*m));
                    }
                    let mut j: usize = 0;
                    while j < items.len()
                        invariant
                            i < gits@.len(),
                            g[i as int] == gits@[i as int]@,
                            manifests@[i as int] == Some(*m),
                            items@ == spec_category(m, kind),
                            j <= items@.len(),
                            flags@.len() == j,
                            forall|jj: int|
                                0 <= jj < j ==> answered(
                                    installed_item_dir(w@, kind, g[i as int].name, items@[jj].0@),
                                    #[trigger] flags@[jj],
                                ),
                        decreases items.len() - j,
                    {
                        let dir = installed_item_path(
                            w.as_str(),
                            kind,
                            gits[i].name.as_str(),
                            items[j].0.as_str(),
                        );
                        let b = probe_path(dir);
                        flags.push(b);
                        j = j + 1;
                    }
                },
                None => {},
            }
        }
        let ghost before = installed@;
        installed.push(flags);
        proof {
            assert(flag_views(installed@) =~= flag_views(before).push(flags@));
        }
        i = i + 1;
    }
    let r = available_among(cfg, kind, manifests, &installed);
    proof {
        assert(installed_answered(w@, cfg@, manifests@, kind, flag_views(installed@)));
    }
    Ok(r)
}

// --- update hints ----------------------------------------------------------

/// `origin '<name>': new version available — run 'loadsmith-lab origin remote
/// update <name>' to refresh`.
pub open spec fn hint_text(name: Seq<char>) -> Seq<char> {
    "origin '"@ + name + "': new version available — run 'loadsmith-lab origin remote update "@
        + name + "' to refresh"@
}

pub fn update_hint(name: &str) -> (r: String)
    ensures
        r@ == hint_text(name@),
{
    let mut v = chars_of("origin '");
    let mut a = chars_of(name);
    let mut b = chars_of("': new version available — run 'loadsmith-lab origin remote update ");
    let mut c = chars_of(name);
    let mut d = chars_of("' to refresh");
    v.append(&mut a);
    v.append(&mut b);
    v.append(&mut c);
    v.append(&mut d);
    string_from_chars(v.as_slice())
}

/// The hints for the first `gits.len()` remote origins: one for each whose
/// flag is set (a missing flag counts as unset).
pub open spec fn hints_spec(gits: Seq<OriginSpec>, flags: Seq<bool>) -> Seq<Seq<char>>
    decreases gits.len(),
{
    if gits.len() == 0 {
        Seq::empty()
    } else {
        let prev = hints_spec(gits.drop_last(), flags);
        let i = gits.len() - 1;
        if i < flags.len() && flags[i] {
            prev.push(hint_text(gits.last().name))
        } else {
            prev
        }
    }
}

/// One "new version available" line per remote origin whose remote has
/// moved ahead: `has_update[i]` is the check's answer for the `i`-th remote
/// origin.
pub fn update_hints(cfg: &Config, has_update: &Vec<bool>) -> (r: Vec<String>)
    ensures
        string_views(r@) == hints_spec(cfg@.filter(|o: OriginSpec| spec_is_git(o)), has_update@),
{
    let gits = cfg.git_origins();
    let ghost g = cfg@.filter(|o: OriginSpec| spec_is_git(o));
    let mut r: Vec<String> = Vec::new();
    let mut i: usize = 0;
    while i < gits.len()
        invariant
            i <= gits@.len(),
            ref_views(gits@) == g,
            string_views(r@) =~= hints_spec(g.take(i as int), has_update@),
        decreases gits.len() - i,
    {
        proof {
            assert(g.take(i + 1).drop_last() =~= g.take(i as int));
        }
        if i < has_update.len() && has_update[i] {
            let h = update_hint(gits[i].name.as_str());
            r.push(h);
        }
        i = i + 1;
    }
    proof {
        assert(g.take(g.len() as int) =~= g);
    }
    r
}

/// The decision of the update check: a remote origin whose clone exists,
/// whose local `git rev-parse HEAD` output and remote `git ls-remote <url>
/// HEAD` output were both obtained, and whose remote names a commit, has an
/// update when the trimmed local commit differs from the first word of the
/// remote listing. Every other case answers `false`.
pub open spec fn update_available_spec(
    origin: OriginSpec,
    cloned: bool,
    local_head: Option<Seq<char>>,
    remote_refs: Option<Seq<char>>,
) -> bool {
    if !spec_is_git(origin) || !cloned {
        false
    } else {
        match (local_head, remote_refs) {
            (Some(l), Some(rr)) => {
                let ws = crate::text::words_of(rr);
                let remote = if ws.len() > 0 {
                    ws[0]
                } else {
                    Seq::empty()
                };
                remote.len() > 0 && crate::text::trim(l) != remote
            },
            _ => false,
        }
    }
}

pub fn update_available(
    origin: &OriginConfig,
    cloned: bool,
    local_head: Option<&str>,
    remote_refs: Option<&str>,
) -> (r: bool)
    ensures
        r == update_available_spec(
            origin@,
            cloned,
            match local_head {
                Some(l) => Some(l@),
                None => None,
            },
            match remote_refs {
                Some(x) => Some(x@),
                None => None,
            },
        ),
{
    if !origin.is_git() || !cloned {
        return false;
    }
    match (local_head, remote_refs) {
        (Some(l), Some(rr)) => {
            let rc = chars_of(rr);
            let ws = crate::text::words(rc.as_slice());
            let remote: Vec<char> = if ws.len() > 0 {
                crate::text::copy_chars(ws[0].as_slice())
            } else {
                Vec::new()
            };
            proof {
                if ws@.len() > 0 {
                    assert(crate::text::views(ws@)[0] == ws@[0]@);
                }
            }
            if remote.len() == 0 {
                return false;
            }
            let lc = chars_of(l);
            let local = crate::text::trim_chars(lc.as_slice());
            let same = string_from_chars(local.as_slice()) == string_from_chars(remote.as_slice());
            !same
        },
        _ => false,
    }
}

} // verus!
