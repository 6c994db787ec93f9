//! Bundles: an ordered sequence of existing cases, each wrapped with optional
//! setup → case → validate → cleanup hook scripts that run in the bundle's own
//! image.

use vstd::prelude::*;

use crate::docker::ContainerConfig;
use crate::report::{BundleEntryResult, BundleResult, CaseResult};
use crate::text::{
    chars_of, i64_to_string, opt_view, push_str, signed_decimal, string_from_chars, string_views,
};

verus! {

pub struct Bundle {
    pub bundle: BundleMeta,
    pub cases: Vec<BundleEntry>,
}

pub struct BundleMeta {
    pub name: String,
    pub description: Option<String>,
}

pub struct BundleEntry {
    /// An existing case, referenced as `<origin>/<name>`.
    pub case: String,
    /// Optional hook script paths, as they exist inside the bundle image.
    pub setup: Option<String>,
    pub validate: Option<String>,
    pub cleanup: Option<String>,
}

/// The tag the bundle's hook image is built under:
/// `loadsmith-lab-bundle-<name>:local`.
pub fn bundle_image_tag(name: &str) -> (r: String)
    ensures
        r@ == "loadsmith-lab-bundle-"@ + name@ + ":local"@,
{
    let mut v = chars_of("loadsmith-lab-bundle-");
    push_str(&mut v, name);
    push_str(&mut v, ":local");
    string_from_chars(v.as_slice())
}

/// The failure a hook's outcome amounts to: none on a clean exit 0,
/// `exit N` on a non-zero exit, the error's text on an infrastructure error.
pub open spec fn hook_failure_spec(outcome: Result<i64, Seq<char>>) -> Option<Seq<char>> {
    match outcome {
        Ok(0) => None,
        Ok(code) => Some("exit "@ + signed_decimal(code as int)),
        Err(e) => Some(e),
    }
}

pub open spec fn outcome_view(outcome: Result<i64, String>) -> Result<i64, Seq<char>> {
    match outcome {
        Ok(c) => Ok(c),
        Err(e) => Err(e@),
    }
}

/// Maps a hook's run outcome to an optional failure message.
pub fn hook_failure(outcome: Result<i64, String>) -> (r: Option<String>)
    ensures
        opt_view(r) == hook_failure_spec(outcome_view(outcome)),
{
    match outcome {
        Ok(0) => None,
        Ok(code) => {
            let mut v = chars_of("exit ");
            push_str(&mut v, i64_to_string(code).as_str());
            Some(string_from_chars(v.as_slice()))
        },
        Err(e) => Some(e),
    }
}

/// The one-shot container a hook script runs in. With an output directory
/// (validate and cleanup), it is mounted at `/output` and passed both as
/// `LOADSMITH_LAB_OUTPUT_DIR` and as the script's first argument.
pub fn hook_config(
    image: &str,
    bundle_name: &str,
    case_name: &str,
    script: &str,
    output_dir: Option<&str>,
) -> (r: ContainerConfig)
    ensures
        r.image@ == image@,
        r.hostname is None,
        r.network is None,
        r.publish_ports@.len() == 0,
        r.docker_args@.len() == 0,
        crate::text::pair_views(r.env@) == seq![
            ("LOADSMITH_LAB_BUNDLE_NAME"@, bundle_name@),
            ("LOADSMITH_LAB_CASE_NAME"@, case_name@),
        ] + match output_dir {
            Some(_) => seq![("LOADSMITH_LAB_OUTPUT_DIR"@, "/output"@)],
            None => Seq::empty(),
        },
        string_views(r.binds@) == match output_dir {
            Some(d) => seq![d@ + ":/output"@],
            None => Seq::empty(),
        },
        string_views(r.cmd@) == seq![script@] + match output_dir {
            Some(_) => seq!["/output"@],
            None => Seq::empty(),
        },
{
    let mut env: Vec<(String, String)> = Vec::new();
    env.push(("LOADSMITH_LAB_BUNDLE_NAME".to_owned(), bundle_name.to_owned()));
    env.push(("LOADSMITH_LAB_CASE_NAME".to_owned(), case_name.to_owned()));
    let mut binds: Vec<String> = Vec::new();
    let mut cmd: Vec<String> = Vec::new();
    cmd.push(script.to_owned());
    match output_dir {
        Some(d) => {
            env.push(("LOADSMITH_LAB_OUTPUT_DIR".to_owned(), "/output".to_owned()));
            let mut b = chars_of(d);
            push_str(&mut b, ":/output");
            binds.push(string_from_chars(b.as_slice()));
            cmd.push("/output".to_owned());
        },
        None => {},
    }
    let r = ContainerConfig {
        image: image.to_owned(),
        hostname: None,
        network: None,
        env,
        binds,
        publish_ports: Vec::new(),
        cmd,
        docker_args: Vec::new(),
    };
    proof {
        assert(crate::text::pair_views(r.env@) =~= seq![
            ("LOADSMITH_LAB_BUNDLE_NAME"@, bundle_name@),
            ("LOADSMITH_LAB_CASE_NAME"@, case_name@),
        ] + match output_dir {
            Some(_) => seq![("LOADSMITH_LAB_OUTPUT_DIR"@, "/output"@)],
            None => Seq::empty(),
        });
        assert(string_views(r.binds@) =~= match output_dir {
            Some(d) => seq![d@ + ":/output"@],
            None => Seq::<Seq<char>>::empty(),
        });
        assert(string_views(r.cmd@) =~= seq![script@] + match output_dir {
            Some(_) => seq!["/output"@],
            None => Seq::<Seq<char>>::empty(),
        });
    }
    r
}

// --- one entry: setup → case → validate → cleanup ------------------------------

/// What the runner does next for a bundle entry.
pub enum EntryStep {
    /// Run the setup hook; no output directory exists yet.
    Setup(String),
    /// Resolve the entry's case (`<origin>/<name>`) and run it.
    RunCase(String),
    /// Run the validate hook with the case's output directory.
    Validate(String, Option<String>),
    /// Run the cleanup hook, with the output directory when there is one.
    Cleanup(String, Option<String>),
    /// Remove the output directory, if any, and take the result from `finish`.
    Finish,
}

/// How the case of an entry went.
pub enum CaseOutcome {
    /// The case reference did not resolve; the error's text.
    Unresolved(String),
    /// The case ran and produced a result.
    Ran(CaseResult),
    /// The case run failed with an error before producing a result.
    Errored(String),
}

/// The state of one bundle entry between steps.
pub struct EntryRun {
    pub result: BundleEntryResult,
    /// The case's output directory, once it has run.
    pub output_dir: Option<String>,
    pub setup: Option<String>,
    pub validate: Option<String>,
    pub cleanup: Option<String>,
}

/// The case ran and passed.
pub open spec fn case_passed(r: &BundleEntryResult) -> bool {
    r.case_result matches Some(c) && c.passed
}

/// The step after the case or a skipped phase: cleanup when there is a
/// cleanup hook, else finishing.
pub open spec fn cleanup_step(run: &EntryRun) -> EntryStep {
    match run.cleanup {
        Some(c) => EntryStep::Cleanup(c, run.output_dir),
        None => EntryStep::Finish,
    }
}

/// An entry passes only if setup (if any) succeeded, the case passed, and
/// validate (if any) succeeded.
pub open spec fn entry_passes(r: &BundleEntryResult) -> bool {
    r.setup_failure is None && case_passed(r) && r.validate_failure is None
}

impl EntryRun {
    /// Starts an entry: the setup hook first if there is one, else the case.
    pub fn start(entry: &BundleEntry) -> (r: (EntryRun, EntryStep))
        ensures
            r.0.result.case_name == entry.case,
            !r.0.result.passed,
            r.0.result.case_result is None,
            r.0.result.setup_failure is None,
            r.0.result.validate_failure is None,
            r.0.result.cleanup_warning is None,
            r.0.output_dir is None,
            r.0.setup == entry.setup,
            r.0.validate == entry.validate,
            r.0.cleanup == entry.cleanup,
            r.1 == match entry.setup {
                Some(s) => EntryStep::Setup(s),
                None => EntryStep::RunCase(entry.case),
            },
    {
        let run = EntryRun {
            result: BundleEntryResult {
                case_name: entry.case.clone(),
                passed: false,
                case_result: None,
                setup_failure: None,
                validate_failure: None,
                cleanup_warning: None,
            },
            output_dir: None,
            setup: crate::text::copy_opt(&entry.setup),
            validate: crate::text::copy_opt(&entry.validate),
            cleanup: crate::text::copy_opt(&entry.cleanup),
        };
        let step = match &entry.setup {
            Some(s) => EntryStep::Setup(s.clone()),
            None => EntryStep::RunCase(entry.case.clone()),
        };
        (run, step)
    }

    fn next_cleanup(&self) -> (r: EntryStep)
        ensures
            r == cleanup_step(self),
    {
        match &self.cleanup {
            Some(c) => EntryStep::Cleanup(c.clone(), crate::text::copy_opt(&self.output_dir)),
            None => EntryStep::Finish,
        }
    }

    /// Records the setup hook's outcome. A failed setup skips the case and
    /// validate; cleanup still runs.
    pub fn setup_done(&mut self, outcome: Result<i64, String>) -> (r: EntryStep)
        ensures
            opt_view(final(self).result.setup_failure) == hook_failure_spec(outcome_view(outcome)),
            final(self).result.case_name == old(self).result.case_name,
            final(self).result.passed == old(self).result.passed,
            final(self).result.case_result == old(self).result.case_result,
            final(self).result.validate_failure == old(self).result.validate_failure,
            final(self).result.cleanup_warning == old(self).result.cleanup_warning,
            final(self).output_dir == old(self).output_dir,
            final(self).setup == old(self).setup,
            final(self).validate == old(self).validate,
            final(self).cleanup == old(self).cleanup,
            r == if final(self).result.setup_failure is None {
                EntryStep::RunCase(final(self).result.case_name)
            } else {
                cleanup_step(final(self))
            },
    {
        self.result.setup_failure = hook_failure(outcome);
        if self.result.setup_failure.is_none() {
            EntryStep::RunCase(self.result.case_name.clone())
        } else {
            self.next_cleanup()
        }
    }

    /// Records how the case went. An unresolved case counts as a setup
    /// failure; a case that errored counts as a failed case whose only
    /// failure is the error. Validate runs only when the case passed.
    pub fn case_done(&mut self, outcome: CaseOutcome) -> (r: EntryStep)
        ensures
            match outcome {
                CaseOutcome::Unresolved(e) => {
                    &&& final(self).result.setup_failure == Some(e)
                    &&& final(self).result.case_result == old(self).result.case_result
                    &&& final(self).output_dir == old(self).output_dir
                },
                CaseOutcome::Ran(c) => {
                    &&& final(self).result.setup_failure == old(self).result.setup_failure
                    &&& final(self).result.case_result == Some(c)
                    &&& final(self).output_dir == Some(c.output_dir)
                },
                CaseOutcome::Errored(e) => {
                    &&& final(self).result.setup_failure == old(self).result.setup_failure
                    &&& final(self).result.case_result matches Some(c) && {
                        &&& c.name == old(self).result.case_name
                        &&& !c.passed
                        &&& c.failures@ == seq![e]
                        &&& c.rows_read is None
                        &&& c.rows_written is None
                        &&& c.description is None
                        &&& c.prep_lines@.len() == 0
                        &&& c.loadsmith_output@.len() == 0
                        &&& c.output_dir@.len() == 0
                    }
                    &&& final(self).output_dir == old(self).output_dir
                },
            },
            final(self).result.case_name == old(self).result.case_name,
            final(self).result.passed == old(self).result.passed,
            final(self).result.validate_failure == old(self).result.validate_failure,
            final(self).result.cleanup_warning == old(self).result.cleanup_warning,
            final(self).setup == old(self).setup,
            final(self).validate == old(self).validate,
            final(self).cleanup == old(self).cleanup,
            r == match final(self).validate {
                Some(v) => if case_passed(&final(self).result) {
                    EntryStep::Validate(v, final(self).output_dir)
                } else {
                    cleanup_step(final(self))
                },
                None => cleanup_step(final(self)),
            },
    {
        match outcome {
            CaseOutcome::Unresolved(e) => {
                self.result.setup_failure = Some(e);
            },
            CaseOutcome::Ran(c) => {
                self.output_dir = Some(c.output_dir.clone());
                self.result.case_result = Some(c);
            },
            CaseOutcome::Errored(e) => {
                let mut failures: Vec<String> = Vec::new();
                failures.push(e);
                self.result.case_result = Some(
                    CaseResult {
                        name: self.result.case_name.clone(),
                        description: None,
                        passed: false,
                        duration: crate::report::zero_duration(),
                        rows_read: None,
                        rows_written: None,
                        prep_lines: Vec::new(),
                        loadsmith_output: String::new(),
                        failures,
                        output_dir: String::new(),
                    },
                );
                proof {
                    assert(self.result.case_result->Some_0.failures@ =~= seq![e]);
                }
            },
        }
        let passed = match &self.result.case_result {
            Some(c) => c.passed,
            None => false,
        };
        match &self.validate {
            Some(v) => if passed {
                EntryStep::Validate(v.clone(), crate::text::copy_opt(&self.output_dir))
            } else {
                self.next_cleanup()
            },
            None => self.next_cleanup(),
        }
    }

    /// Records the validate hook's outcome; cleanup comes next.
    pub fn validate_done(&mut self, outcome: Result<i64, String>) -> (r: EntryStep)
        ensures
            opt_view(final(self).result.validate_failure) == hook_failure_spec(
                outcome_view(outcome),
            ),
            final(self).result.case_name == old(self).result.case_name,
            final(self).result.passed == old(self).result.passed,
            final(self).result.case_result == old(self).result.case_result,
            final(self).result.setup_failure == old(self).result.setup_failure,
            final(self).result.cleanup_warning == old(self).result.cleanup_warning,
            final(self).output_dir == old(self).output_dir,
            final(self).setup == old(self).setup,
            final(self).validate == old(self).validate,
            final(self).cleanup == old(self).cleanup,
            r == cleanup_step(final(self)),
    {
        self.result.validate_failure = hook_failure(outcome);
        self.next_cleanup()
    }

    /// Records the cleanup hook's outcome as a warning only; the entry
    /// finishes next.
    pub fn cleanup_done(&mut self, outcome: Result<i64, String>) -> (r: EntryStep)
        ensures
            opt_view(final(self).result.cleanup_warning) == hook_failure_spec(outcome_view(outcome)),
            final(self).result.case_name == old(self).result.case_name,
            final(self).result.passed == old(self).result.passed,
            final(self).result.case_result == old(self).result.case_result,
            final(self).result.setup_failure == old(self).result.setup_failure,
            final(self).result.validate_failure == old(self).result.validate_failure,
            final(self).output_dir == old(self).output_dir,
            final(self).setup == old(self).setup,
            final(self).validate == old(self).validate,
            final(self).cleanup == old(self).cleanup,
            r == EntryStep::Finish,
    {
        self.result.cleanup_warning = hook_failure(outcome);
        EntryStep::Finish
    }

    /// The entry's result, with its verdict.
    pub fn finish(self) -> (r: BundleEntryResult)
        ensures
            r.passed == entry_passes(&self.result),
            r.case_name == self.result.case_name,
            r.case_result == self.result.case_result,
            r.setup_failure == self.result.setup_failure,
            r.validate_failure == self.result.validate_failure,
            r.cleanup_warning == self.result.cleanup_warning,
    {
        let mut result = self.result;
        let case_ok = match &result.case_result {
            Some(c) => c.passed,
            None => false,
        };
        result.passed = result.setup_failure.is_none() && case_ok
            && result.validate_failure.is_none();
        result
    }
}

/// Cleanup only ever warns: two entries with the same setup, case and
/// validate outcomes both pass or both fail, whatever their cleanup did.
pub proof fn law_cleanup_is_only_a_warning(a: BundleEntryResult, b: BundleEntryResult)
    requires
        a.case_result == b.case_result,
        a.setup_failure == b.setup_failure,
        a.validate_failure == b.validate_failure,
    ensures
        entry_passes(&a) == entry_passes(&b),
{
}

/// A failed setup never leads to the case or to validate: the next step is
/// cleanup when the entry has one, else finishing.
pub proof fn law_failed_setup_skips_case(run: EntryRun)
    requires
        run.result.setup_failure is Some,
    ensures
        !entry_passes(&run.result),
        match run.cleanup {
            Some(c) => cleanup_step(&run) == EntryStep::Cleanup(c, run.output_dir),
            None => cleanup_step(&run) == EntryStep::Finish,
        },
{
}

/// Every entry of the bundle passed.
pub open spec fn bundle_passed_spec(result: &BundleResult) -> bool {
    forall|i: int| 0 <= i < result.entries@.len() ==> (#[trigger] result.entries@[i]).passed
}

/// True when every entry of the bundle passed.
pub fn bundle_passed(result: &BundleResult) -> (r: bool)
    ensures
        r == bundle_passed_spec(result),
{
    let mut i: usize = 0;
    while i < result.entries.len()
        invariant
            i <= result.entries@.len(),
            forall|k: int| 0 <= k < i ==> (#[trigger] result.entries@[k]).passed,
        decreases result.entries.len() - i,
    {
        if !result.entries[i].passed {
            return false;
        }
        i = i + 1;
    }
    true
}

} // verus!
