//! What a template source is: the registrations it makes, step by step, and
//! the errors that end them.

use vstd::prelude::*;

use crate::registry::{accepts_template, helper_names, templates_of, TemplateMap};

verus! {

/// Why a source could not be loaded.
#[derive(Debug)]
pub enum SourceError {
    /// The backing storage could not be read or listed at `path`.
    Io { path: String, cause: String },
    /// The text of the template `name` did not compile.
    Compile { name: String, cause: String },
}

impl SourceError {
    /// The reason the source could not be loaded, as the failing storage or
    /// compiler reported it.
    pub fn message(&self) -> (r: String)
        ensures
            r@ == match self {
                SourceError::Io { cause, .. } => cause@,
                SourceError::Compile { cause, .. } => cause@,
            },
    {
        match self {
            SourceError::Io { cause, .. } => cause.clone(),
            SourceError::Compile { cause, .. } => cause.clone(),
        }
    }
}

/// What was found at one path while a directory tree was walked.
#[derive(Debug)]
pub enum FileContent {
    /// A file, read as text.
    Text(String),
    /// A file that could not be read, with the reason.
    ReadFailed(String),
    /// A directory entry that could not be listed, with the reason.
    ListFailed(String),
}

/// One path of a walked directory tree and what was found there.
#[derive(Debug)]
pub struct FileEntry {
    pub path: String,
    pub content: FileContent,
}

/// One thing that a source does to a registry while it loads.
pub enum Step {
    /// Compile `text` and store it under `name`.
    Register { name: Seq<char>, text: Seq<char> },
    /// Stop: the storage failed at `path`.
    Fail { path: Seq<char>, cause: Seq<char> },
}

/// The templates after one step, or the step at which loading stops.
pub open spec fn apply_step(m: TemplateMap, s: Step) -> Result<TemplateMap, Step> {
    match s {
        Step::Register { name, text } => if accepts_template(text) {
            Ok(m.insert(name, text))
        } else {
            Err(s)
        },
        Step::Fail { .. } => Err(s),
    }
}

/// The templates after taking `steps` in order from `m`, or the first step
/// that fails.
pub open spec fn run_steps(m: TemplateMap, steps: Seq<Step>) -> Result<TemplateMap, Step>
    decreases steps.len(),
{
    if steps.len() == 0 {
        Ok(m)
    } else {
        match run_steps(m, steps.drop_last()) {
            Ok(m2) => apply_step(m2, steps.last()),
            Err(s) => Err(s),
        }
    }
}

/// Whether the error `e` is the one that the failing step `s` reports.
pub open spec fn reports(e: SourceError, s: Step) -> bool {
    match s {
        Step::Register { name, .. } => e matches SourceError::Compile { name: n, .. } && n@ == name,
        Step::Fail { path, cause } => e matches SourceError::Io { path: p, cause: c } && p@ == path
            && c@ == cause,
    }
}

/// The templates at the point where taking `steps` from `m` stops: after
/// every step when none fails, else after the steps before the failing one.
pub open spec fn reached(m: TemplateMap, steps: Seq<Step>) -> TemplateMap
    decreases steps.len(),
{
    if steps.len() == 0 {
        m
    } else {
        match run_steps(m, steps.drop_last()) {
            Ok(m2) => match apply_step(m2, steps.last()) {
                Ok(m3) => m3,
                Err(_) => m2,
            },
            Err(_) => reached(m, steps.drop_last()),
        }
    }
}

/// Whether the step `s` registers a template under `name`.
pub open spec fn step_registers(s: Step, name: Seq<char>) -> bool {
    match s {
        Step::Register { name: n, .. } => n == name,
        Step::Fail { .. } => false,
    }
}

/// Whether some step registers a template under `name`.
pub open spec fn registers(steps: Seq<Step>, name: Seq<char>) -> bool {
    exists|i: int| 0 <= i < steps.len() && step_registers(#[trigger] steps[i], name)
}

/// Whether `a` and `b` hold the same template, or none, under `name`.
pub open spec fn same_at(a: TemplateMap, b: TemplateMap, name: Seq<char>) -> bool {
    a.contains_key(name) == b.contains_key(name) && (a.contains_key(name) ==> a[name] == b[name])
}

/// What a source's `load` does to a registry holding `before`, ending in
/// `after` with result `r`. On failure the registry keeps what the steps
/// before the failing one did.
pub open spec fn loads(
    steps: Seq<Step>,
    before: TemplateMap,
    after: TemplateMap,
    r: Result<(), SourceError>,
) -> bool {
    match run_steps(before, steps) {
        Ok(m) => r is Ok && after == m,
        Err(s) => r matches Err(e) && reports(e, s) && after == reached(before, steps),
    }
}

/// Something that registers named templates into a registry.
pub trait Source {
    /// The registrations that loading makes, in order, given the directory
    /// trees as walked in `files`.
    spec fn steps(&self, files: Seq<FileEntry>) -> Seq<Step>;

    /// Takes the steps in order; stops at the first that fails, keeping
    /// what the earlier steps did. Templates of names that no step
    /// registers are left as they were, as are the helpers.
    fn load(&self, reg: &mut handlebars::Handlebars<'static>, files: &Vec<FileEntry>) -> (r:
        Result<(), SourceError>)
        ensures
            loads(self.steps(files@), templates_of(*old(reg)), templates_of(*final(reg)), r),
            helper_names(*final(reg)) == helper_names(*old(reg)),
    ;
}

pub proof fn lemma_run_steps_push(m: TemplateMap, steps: Seq<Step>, s: Step)
    ensures
        run_steps(m, steps.push(s)) == match run_steps(m, steps) {
            Ok(m2) => apply_step(m2, s),
            Err(e) => Err(e),
        },
        reached(m, steps.push(s)) == match run_steps(m, steps) {
            Ok(m2) => match apply_step(m2, s) {
                Ok(m3) => m3,
                Err(_) => m2,
            },
            Err(_) => reached(m, steps),
        },
{
    assert(steps.push(s).drop_last() =~= steps);
}

/// Once a step has failed, later steps change nothing.
pub proof fn lemma_run_steps_failed(m: TemplateMap, steps: Seq<Step>, more: Seq<Step>)
    requires
        run_steps(m, steps) is Err,
    ensures
        run_steps(m, steps + more) == run_steps(m, steps),
        reached(m, steps + more) == reached(m, steps),
    decreases more.len(),
{
    if more.len() == 0 {
        assert(steps + more =~= steps);
    } else {
        lemma_run_steps_failed(m, steps, more.drop_last());
        assert((steps + more).drop_last() =~= steps + more.drop_last());
    }
}

proof fn lemma_run_steps_keep(m: TemplateMap, steps: Seq<Step>, name: Seq<char>)
    requires
        !registers(steps, name),
    ensures
        run_steps(m, steps) matches Ok(m2) ==> same_at(m2, m, name),
        same_at(reached(m, steps), m, name),
    decreases steps.len(),
{
    if steps.len() > 0 {
        let prev = steps.drop_last();
        assert(!registers(prev, name)) by {
            if registers(prev, name) {
                let i = choose|i: int| 0 <= i < prev.len() && step_registers(#[trigger] prev[i], name);
                assert(steps[i] == prev[i]);
            }
        }
        assert(steps[steps.len() - 1] == steps.last());
        lemma_run_steps_keep(m, prev, name);
    }
}

/// A load, whether it succeeds or fails, keeps the template (or the
/// absence of one) under every name that none of its steps registers.
pub proof fn lemma_load_keeps_other_names(
    steps: Seq<Step>,
    before: TemplateMap,
    after: TemplateMap,
    r: Result<(), SourceError>,
    name: Seq<char>,
)
    requires
        loads(steps, before, after, r),
        !registers(steps, name),
    ensures
        same_at(after, before, name),
{
    lemma_run_steps_keep(before, steps, name);
}

} // verus!
