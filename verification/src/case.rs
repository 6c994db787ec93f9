//! The `case.yaml` model: what to start, how to run Loadsmith, what to expect.

use vstd::prelude::*;

use crate::text::opt_view;

verus! {

pub struct Case {
    pub case: CaseMeta,
    pub services: Vec<ServiceDef>,
    pub loadsmith: LoadsmithDef,
    pub pipeline: PipelineDef,
    pub expect: Expect,
}

pub struct CaseMeta {
    pub name: String,
    pub description: Option<String>,
    pub tags: Vec<String>,
}

pub struct ServiceDef {
    pub image: String,
    pub alias: String,
    pub readiness: Option<ReadinessDef>,
    pub env: Vec<String>,
    pub docker_args: Vec<String>,
}

pub struct ReadinessDef {
    pub tcp: u16,
    pub timeout_seconds: u64,
    /// Optional postgres-level readiness: wait until a query succeeds.
    pub postgres: Option<PostgresReadiness>,
}

pub struct PostgresReadiness {
    pub dbname: String,
    pub user: String,
    pub password: String,
    /// SQL that must return at least one row before the service is considered
    /// ready. Defaults to "SELECT 1" if not set.
    pub probe_query: Option<String>,
}

/// The readiness timeout when `timeout_seconds` is not given.
pub fn default_timeout() -> (r: u64)
    ensures
        r == 60,
{
    60
}

pub struct LoadsmithDef {
    pub image: String,
    pub volumes: Vec<VolumeMount>,
    pub env: Vec<String>,
    pub docker_args: Vec<String>,
}

pub struct VolumeMount {
    pub host: String,
    pub container: String,
}

pub struct PipelineDef {
    pub file: String,
}

pub struct Expect {
    pub status: String,
    pub rows_read: Option<u64>,
    pub rows_written: Option<u64>,
    pub output: Option<OutputExpect>,
}

pub struct OutputExpect {
    pub file: String,
    pub row_count: Option<u64>,
}

/// The string at `case.description` in a YAML document, if the text parses
/// as YAML and holds a string there.
pub uninterp spec fn yaml_case_description(text: Seq<char>) -> Option<Seq<char>>;

/// Parses the text with `serde_yaml::from_str` into a `serde_yaml::Value`
/// and takes `case.description` with `Value::get` and `Value::as_str`. The
/// result depends on the text alone; which texts the YAML parser accepts is
/// left to the parser, so the result is named `yaml_case_description`.
#[verifier::external_body]
fn case_description(text: &str) -> (r: Option<String>)
    ensures
        opt_view(r) == yaml_case_description(text@),
{
    let value: serde_yaml::Value = serde_yaml::from_str(text).ok()?;
    value.get("case")?.get("description")?.as_str().map(|s| s.to_string())
}

/// The description of a case for the run header, read cheaply from the text
/// of its `case.yaml` before the full parse: `None` when the text is not
/// YAML or has no `case.description` string.
pub fn peek_description(text: &str) -> (r: Option<String>)
    ensures
        opt_view(r) == yaml_case_description(text@),
{
    case_description(text)
}

} // verus!
