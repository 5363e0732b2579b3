//! The engine: an ordered list of sources and the registry that a reload
//! rebuilds from them, all or nothing.

use vstd::prelude::*;

use crate::directory::DirectorySource;
use crate::memory::{lemma_memory_load, lemma_memory_result, MemorySource};
use crate::registry::{
    accepts_template, clear_templates, clone_registry, has_template, helper_names, new_registry, render_registered,
    render_text, templates_of, TemplateMap,
};
use crate::source::{run_steps, FileEntry, Source, SourceError, Step};

verus! {

/// One of the kinds of source that an engine loads from.
pub enum TemplateSource {
    Directory(DirectorySource),
    Memory(MemorySource),
}

impl Source for TemplateSource {
    open spec fn steps(&self, files: Seq<FileEntry>) -> Seq<Step> {
        match self {
            TemplateSource::Directory(d) => d.steps(files),
            TemplateSource::Memory(m) => m.steps(files),
        }
    }

    fn load(&self, reg: &mut handlebars::Handlebars<'static>, files: &Vec<FileEntry>) -> (r:
        Result<(), SourceError>) {
        match self {
            TemplateSource::Directory(d) => d.load(reg, files),
            TemplateSource::Memory(m) => m.load(reg, files),
        }
    }
}

/// The first source error of a reload, with the position of its source.
#[derive(Debug)]
pub struct EngineError {
    pub source_index: usize,
    pub error: SourceError,
}

/// Why a render produced no text.
#[derive(Debug)]
pub enum RenderError {
    /// No template is registered under `name`.
    NotFound { name: String },
    /// An inline template did not compile.
    Compile { cause: String },
    /// The template failed while it was expanded with the data.
    Render { cause: String },
}

/// What a handler asks to have rendered: a registered template by name, or
/// an inline template text, with the data to render it with.
#[derive(Debug)]
pub struct Template {
    pub name: Option<String>,
    pub content: Option<String>,
    pub value: serde_json::Value,
}

impl Template {
    /// Render the registered template `name` with `value`.
    pub fn new(name: &str, value: serde_json::Value) -> (r: Template)
        ensures
            r.name matches Some(n) && n@ == name@,
            r.content is None,
            r.value == value,
    {
        Template { name: Some(name.to_owned()), content: None, value }
    }

    /// Render the template text `content` with `value`.
    pub fn with(content: &str, value: serde_json::Value) -> (r: Template)
        ensures
            r.name is None,
            r.content matches Some(c) && c@ == content@,
            r.value == value,
    {
        Template { name: None, content: Some(content.to_owned()), value }
    }
}

/// The templates that loading `sources` in order into an empty registry
/// gives, or the position of the first source that fails with the step it
/// fails at.
pub open spec fn run_sources(sources: Seq<TemplateSource>, files: Seq<FileEntry>) -> Result<
    TemplateMap,
    (int, Step),
>
    decreases sources.len(),
{
    if sources.len() == 0 {
        Ok(TemplateMap::empty())
    } else {
        match run_sources(sources.drop_last(), files) {
            Err(f) => Err(f),
            Ok(m) => match run_steps(m, sources.last().steps(files)) {
                Ok(m2) => Ok(m2),
                Err(s) => Err((sources.len() - 1, s)),
            },
        }
    }
}

/// Whether `e` is the error of the failure `f` of `run_sources`.
pub open spec fn reports_failure(e: EngineError, f: (int, Step)) -> bool {
    e.source_index == f.0 && crate::source::reports(e.error, f.1)
}

proof fn lemma_run_sources_failed(sources: Seq<TemplateSource>, files: Seq<FileEntry>, j: int)
    requires
        0 <= j <= sources.len(),
        run_sources(sources.take(j), files) is Err,
    ensures
        run_sources(sources, files) == run_sources(sources.take(j), files),
    decreases sources.len(),
{
    if j == sources.len() {
        assert(sources.take(j) =~= sources);
    } else {
        assert(sources.drop_last().take(j) =~= sources.take(j));
        lemma_run_sources_failed(sources.drop_last(), files, j);
    }
}

/// The template engine: its sources, in the order they were added, and the
/// registry that renders read.
pub struct HandlebarsEngine {
    pub sources: Vec<TemplateSource>,
    pub registry: handlebars::Handlebars<'static>,
}

impl HandlebarsEngine {
    /// An engine with no sources and an empty registry.
    pub fn new() -> (r: HandlebarsEngine)
        ensures
            r.sources@.len() == 0,
            templates_of(r.registry) == TemplateMap::empty(),
    {
        HandlebarsEngine { sources: Vec::new(), registry: new_registry() }
    }

    /// An engine with no sources around an existing registry, whose
    /// helpers and settings a reload keeps.
    pub fn from(reg: handlebars::Handlebars<'static>) -> (r: HandlebarsEngine)
        ensures
            r.sources@.len() == 0,
            r.registry == reg,
    {
        HandlebarsEngine { sources: Vec::new(), registry: reg }
    }

    /// Adds a source after those already added.
    pub fn add(&mut self, source: TemplateSource)
        ensures
            final(self).sources@ == old(self).sources@.push(source),
            final(self).registry == old(self).registry,
    {
        self.sources.push(source);
    }

    /// A fresh registry built from every source in order, over a copy of the
    /// current registry whose templates were dropped: helpers stay. The
    /// engine itself is not touched.
    pub fn build(&self, files: &Vec<FileEntry>) -> (r: Result<
        handlebars::Handlebars<'static>,
        EngineError,
    >)
        ensures
            match run_sources(self.sources@, files@) {
                Ok(m) => r matches Ok(h) && templates_of(h) == m && helper_names(h) == helper_names(
                    self.registry,
                ),
                Err(f) => r matches Err(e) && reports_failure(e, f),
            },
    {
        let mut scratch = clone_registry(&self.registry);
        clear_templates(&mut scratch);
        let mut i: usize = 0;
        while i < self.sources.len()
            invariant
                i <= self.sources@.len(),
                run_sources(self.sources@.take(i as int), files@) == Ok::<TemplateMap, (int, Step)>(
                    templates_of(scratch),
                ),
                helper_names(scratch) == helper_names(self.registry),
            decreases self.sources@.len() - i,
        {
            proof {
                assert(self.sources@.take(i + 1).drop_last() =~= self.sources@.take(i as int));
            }
            match self.sources[i].load(&mut scratch, files) {
                Ok(()) => {},
                Err(error) => {
                    proof {
                        lemma_run_sources_failed(self.sources@, files@, i + 1);
                    }
                    return Err(EngineError { source_index: i, error });
                },
            }
            i += 1;
        }
        assert(self.sources@.take(i as int) =~= self.sources@);
        Ok(scratch)
    }

    /// Puts `reg` in place of the current registry.
    pub fn install(&mut self, reg: handlebars::Handlebars<'static>)
        ensures
            final(self).registry == reg,
            final(self).sources == old(self).sources,
    {
        self.registry = reg;
    }

    /// Rebuilds the registry from every source, given the directory trees
    /// as walked in `files`. On success the templates are exactly those
    /// that the sources give, whatever was registered before; on failure
    /// the engine is left as it was.
    pub fn reload(&mut self, files: &Vec<FileEntry>) -> (r: Result<(), EngineError>)
        ensures
            final(self).sources == old(self).sources,
            match run_sources(old(self).sources@, files@) {
                Ok(m) => r is Ok && templates_of(final(self).registry) == m && helper_names(
                    final(self).registry,
                ) == helper_names(old(self).registry),
                Err(f) => r matches Err(e) && reports_failure(e, f) && *final(self) == *old(self),
            },
    {
        match self.build(files) {
            Ok(reg) => {
                self.install(reg);
                Ok(())
            },
            Err(e) => Err(e),
        }
    }

    /// The registry itself, to register helpers or anything else directly.
    pub fn handlebars_mut(&mut self) -> (r: &mut handlebars::Handlebars<'static>)
        ensures
            *r == old(self).registry,
            final(self).registry == *final(r),
            final(self).sources == old(self).sources,
    {
        &mut self.registry
    }

    /// Whether a template is registered under `name`.
    pub fn has_template(&self, name: &str) -> (r: bool)
        ensures
            r == templates_of(self.registry).contains_key(name@),
    {
        has_template(&self.registry, name)
    }

    /// Renders the template registered under `name` with `data`.
    pub fn render(&self, name: &str, data: &serde_json::Value) -> (r: Result<String, RenderError>)
        ensures
            (r matches Err(RenderError::NotFound { .. })) <==> !templates_of(
                self.registry,
            ).contains_key(name@),
            r matches Err(RenderError::NotFound { name: n }) ==> n@ == name@,
            !(r matches Err(RenderError::Compile { .. })),
    {
        if !has_template(&self.registry, name) {
            return Err(RenderError::NotFound { name: name.to_owned() });
        }
        match render_registered(&self.registry, name, data) {
            Ok(text) => Ok(text),
            Err(cause) => Err(RenderError::Render { cause }),
        }
    }

    /// Compiles `body` for this call only and renders it with `data`; the
    /// registry is left as it is.
    pub fn render_inline(&self, body: &str, data: &serde_json::Value) -> (r: Result<
        String,
        RenderError,
    >)
        ensures
            !(r matches Err(RenderError::NotFound { .. })),
            !accepts_template(body@) ==> (r matches Err(RenderError::Compile { .. })),
    {
        render_text(&self.registry, body, data)
    }

    /// Renders what `page` asks for: the registered template it names, else
    /// its inline text; `None` when it holds neither.
    pub fn render_page(&self, page: &Template) -> (r: Option<Result<String, RenderError>>)
        ensures
            page.name matches Some(n) ==> (r matches Some(res) && ((res matches Err(
                RenderError::NotFound { .. },
            )) <==> !templates_of(self.registry).contains_key(n@))),
            page.name matches Some(n) ==> (r matches Some(Err(RenderError::NotFound { name: m }))
                ==> m@ == n@),
            page.name is None && page.content is Some ==> (r matches Some(res) && !(res matches Err(
                RenderError::NotFound { .. },
            ))),
            page.name is None ==> (page.content matches Some(c) ==> (!accepts_template(c@) ==> (
            r matches Some(Err(RenderError::Compile { .. }))))),
            page.name is None && page.content is None ==> r is None,
    {
        match &page.name {
            Some(name) => Some(self.render(name.as_str(), &page.value)),
            None => match &page.content {
                Some(content) => Some(self.render_inline(content.as_str(), &page.value)),
                None => None,
            },
        }
    }
}

/// Of two or more sources, the last one's template wins: when the last
/// source holds `x` in memory and every source loads, the engine's template
/// under `x` is the last source's.
pub proof fn lemma_last_source_wins(
    sources: Seq<TemplateSource>,
    files: Seq<FileEntry>,
    last: MemorySource,
    x: Seq<char>,
)
    requires
        sources.len() > 0,
        sources.last() == TemplateSource::Memory(last),
        last@.contains_key(x),
        run_sources(sources, files) is Ok,
    ensures
        run_sources(sources, files)->Ok_0.contains_key(x),
        run_sources(sources, files)->Ok_0[x] == last@[x],
{
    let m = run_sources(sources.drop_last(), files)->Ok_0;
    lemma_memory_result(last, m, files);
}

/// Whether `s` is a well-formed memory source each of whose texts the
/// parser accepts.
pub open spec fn accepted_memory(s: TemplateSource) -> bool {
    match s {
        TemplateSource::Memory(ms) => ms.wf() && forall|n: Seq<char>|
            #[trigger] ms@.contains_key(n) ==> accepts_template(ms@[n]),
        TemplateSource::Directory(_) => false,
    }
}

/// Sources that are all memory sources whose texts the parser accepts
/// always load, whatever the directory trees.
pub proof fn lemma_memory_sources_load(sources: Seq<TemplateSource>, files: Seq<FileEntry>)
    requires
        forall|i: int| 0 <= i < sources.len() ==> accepted_memory(#[trigger] sources[i]),
    ensures
        run_sources(sources, files) is Ok,
    decreases sources.len(),
{
    if sources.len() > 0 {
        let prev = sources.drop_last();
        assert forall|i: int| 0 <= i < prev.len() implies accepted_memory(#[trigger] prev[i]) by {
            assert(prev[i] == sources[i]);
        }
        lemma_memory_sources_load(prev, files);
        assert(accepted_memory(sources[sources.len() - 1]));
        if let TemplateSource::Memory(ms) = sources.last() {
            lemma_memory_load(ms, run_sources(prev, files)->Ok_0, files);
        }
    }
}

} // verus!
