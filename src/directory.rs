//! A source that registers the template files found under a directory.

use vstd::prelude::*;

use crate::naming::{relative_start, template_name, template_name_of, within};
use crate::registry::{helper_names, register_template_string, templates_of, TemplateMap};
use crate::source::{
    lemma_run_steps_push, reached, run_steps, FileContent, FileEntry, Source, SourceError, Step,
};

verus! {

/// Every file below `prefix` whose name ends with `suffix` is a template.
pub struct DirectorySource {
    pub prefix: String,
    pub suffix: String,
}

/// What loading does with one walked entry, if anything: a template file is
/// registered, or fails the load when it could not be read; an entry below
/// the root that could not be listed fails the load; anything else is
/// passed over.
pub open spec fn entry_step(root: Seq<char>, suffix: Seq<char>, e: FileEntry) -> Option<Step> {
    match e.content {
        FileContent::Text(t) => match template_name_of(root, suffix, e.path@) {
            Some(n) => Some(Step::Register { name: n, text: t@ }),
            None => None,
        },
        FileContent::ReadFailed(c) => if template_name_of(root, suffix, e.path@) is Some {
            Some(Step::Fail { path: e.path@, cause: c@ })
        } else {
            None
        },
        FileContent::ListFailed(c) => if within(root, e.path@) {
            Some(Step::Fail { path: e.path@, cause: c@ })
        } else {
            None
        },
    }
}

/// The steps of a directory source, walking `files` in order.
pub open spec fn directory_steps(root: Seq<char>, suffix: Seq<char>, files: Seq<FileEntry>) -> Seq<
    Step,
>
    decreases files.len(),
{
    if files.len() == 0 {
        Seq::empty()
    } else {
        let prev = directory_steps(root, suffix, files.drop_last());
        match entry_step(root, suffix, files.last()) {
            Some(s) => prev.push(s),
            None => prev,
        }
    }
}

proof fn lemma_directory_failed(
    m: TemplateMap,
    root: Seq<char>,
    suffix: Seq<char>,
    files: Seq<FileEntry>,
    j: int,
)
    requires
        0 <= j <= files.len(),
        run_steps(m, directory_steps(root, suffix, files.take(j))) is Err,
    ensures
        run_steps(m, directory_steps(root, suffix, files)) == run_steps(
            m,
            directory_steps(root, suffix, files.take(j)),
        ),
        reached(m, directory_steps(root, suffix, files)) == reached(
            m,
            directory_steps(root, suffix, files.take(j)),
        ),
    decreases files.len(),
{
    if j == files.len() {
        assert(files.take(j) =~= files);
    } else {
        assert(files.drop_last().take(j) =~= files.take(j));
        lemma_directory_failed(m, root, suffix, files.drop_last(), j);
        let prev = directory_steps(root, suffix, files.drop_last());
        if let Some(s) = entry_step(root, suffix, files.last()) {
            lemma_run_steps_push(m, prev, s);
        }
    }
}

impl DirectorySource {
    /// A source over the directory `prefix`, taking the files whose names
    /// end with `suffix`.
    pub fn new(prefix: &str, suffix: &str) -> (r: DirectorySource)
        ensures
            r.prefix@ == prefix@,
            r.suffix@ == suffix@,
    {
        DirectorySource { prefix: prefix.to_owned(), suffix: suffix.to_owned() }
    }

    /// The name under which this source registers the file at `path`, or
    /// `None` when that file is not one of its templates.
    pub fn template_name(&self, path: &str) -> (r: Option<String>)
        ensures
            r is Some == template_name_of(self.prefix@, self.suffix@, path@) is Some,
            r is Some ==> r->0@ == template_name_of(self.prefix@, self.suffix@, path@)->0,
    {
        template_name(self.prefix.as_str(), self.suffix.as_str(), path)
    }

    /// Whether `path` is the root of this source or lies below it.
    pub fn covers(&self, path: &String) -> (r: bool)
        ensures
            r == within(self.prefix@, path@),
    {
        *path == self.prefix || relative_start(self.prefix.as_str(), path.as_str()).is_some()
    }
}

impl Source for DirectorySource {
    open spec fn steps(&self, files: Seq<FileEntry>) -> Seq<Step> {
        directory_steps(self.prefix@, self.suffix@, files)
    }

    fn load(&self, reg: &mut handlebars::Handlebars<'static>, files: &Vec<FileEntry>) -> (r:
        Result<(), SourceError>) {
        let ghost start = templates_of(*reg);
        let ghost root = self.prefix@;
        let ghost suffix = self.suffix@;
        let mut i: usize = 0;
        while i < files.len()
            invariant
                i <= files@.len(),
                root == self.prefix@,
                suffix == self.suffix@,
                run_steps(start, directory_steps(root, suffix, files@.take(i as int))) == Ok::<
                    TemplateMap,
                    Step,
                >(templates_of(*reg)),
                helper_names(*reg) == helper_names(*old(reg)),
                start == templates_of(*old(reg)),
            decreases files@.len() - i,
        {
            let e = &files[i];
            let ghost prev = directory_steps(root, suffix, files@.take(i as int));
            proof {
                assert(files@.take(i + 1).drop_last() =~= files@.take(i as int));
                assert(files@.take(i + 1).last() == *e);
                if let Some(s) = entry_step(root, suffix, *e) {
                    lemma_run_steps_push(start, prev, s);
                }
            }
            let failure = match &e.content {
                FileContent::Text(text) => match self.template_name(e.path.as_str()) {
                    Some(name) => match register_template_string(reg, name.as_str(), text.as_str()) {
                        Ok(()) => None,
                        Err(cause) => Some(SourceError::Compile { name, cause }),
                    },
                    None => None,
                },
                FileContent::ReadFailed(cause) => if self.template_name(e.path.as_str()).is_some() {
                    Some(SourceError::Io { path: e.path.clone(), cause: cause.clone() })
                } else {
                    None
                },
                FileContent::ListFailed(cause) => if self.covers(&e.path) {
                    Some(SourceError::Io { path: e.path.clone(), cause: cause.clone() })
                } else {
                    None
                },
            };
            if let Some(err) = failure {
                proof {
                    lemma_directory_failed(start, root, suffix, files@, i + 1);
                }
                return Err(err);
            }
            i += 1;
        }
        assert(files@.take(i as int) =~= files@);
        Ok(())
    }
}

} // verus!
