//! A source that holds a fixed mapping from names to template texts.

use vstd::prelude::*;

use crate::registry::{
    accepts_template, helper_names, register_template_string, templates_of, TemplateMap,
};
use crate::source::{
    lemma_run_steps_failed, lemma_run_steps_push, reached, run_steps, FileEntry, Source, SourceError, Step,
};

verus! {

/// Names mapped to template texts, held in memory.
pub struct MemorySource {
    entries: Vec<(String, String)>,
}

/// The mapping that `entries` describe, a later entry winning over an
/// earlier one of the same name.
pub open spec fn pairs_map(entries: Seq<(String, String)>) -> TemplateMap
    decreases entries.len(),
{
    if entries.len() == 0 {
        TemplateMap::empty()
    } else {
        pairs_map(entries.drop_last()).insert(entries.last().0@, entries.last().1@)
    }
}

/// One registration for each entry, in order.
pub open spec fn pairs_steps(entries: Seq<(String, String)>) -> Seq<Step> {
    entries.map_values(|e: (String, String)| Step::Register { name: e.0@, text: e.1@ })
}

pub open spec fn names_unique(entries: Seq<(String, String)>) -> bool {
    forall|i: int, j: int|
        0 <= i < j < entries.len() ==> (#[trigger] entries[i]).0@ != (#[trigger] entries[j]).0@
}

impl View for MemorySource {
    type V = TemplateMap;

    closed spec fn view(&self) -> TemplateMap {
        pairs_map(self.entries@)
    }
}

impl MemorySource {
    /// No two entries share a name.
    pub closed spec fn wf(&self) -> bool {
        names_unique(self.entries@)
    }

    /// The registrations that loading makes.
    pub closed spec fn registrations(&self) -> Seq<Step> {
        pairs_steps(self.entries@)
    }

    /// A source with no templates.
    pub fn new() -> (r: MemorySource)
        ensures
            r.wf(),
            r@ == TemplateMap::empty(),
    {
        MemorySource { entries: Vec::new() }
    }

    /// Sets the text of the template `name`, replacing any earlier one.
    pub fn insert(&mut self, name: String, text: String)
        requires
            old(self).wf(),
        ensures
            final(self).wf(),
            final(self)@ == old(self)@.insert(name@, text@),
    {
        let mut i: usize = 0;
        while i < self.entries.len()
            invariant
                i <= self.entries@.len(),
                *self == *old(self),
                names_unique(self.entries@),
                forall|k: int| 0 <= k < i ==> (#[trigger] self.entries@[k]).0@ != name@,
            decreases self.entries@.len() - i,
        {
            if self.entries[i].0 == name {
                let ghost before = self.entries@;
                proof {
                    lemma_pairs_map_update(before, i as int, name, text);
                }
                self.entries.set(i, (name, text));
                assert(self.entries@ == before.update(i as int, (name, text)));
                return;
            }
            i += 1;
        }
        let ghost before = self.entries@;
        self.entries.push((name, text));
        assert(self.entries@.drop_last() =~= before);

    }
}

proof fn lemma_pairs_map_update(entries: Seq<(String, String)>, i: int, name: String, text: String)
    requires
        0 <= i < entries.len(),
        entries[i].0@ == name@,
        names_unique(entries),
    ensures
        names_unique(entries.update(i, (name, text))),
        pairs_map(entries.update(i, (name, text))) == pairs_map(entries).insert(name@, text@),
    decreases entries.len(),
{
    let updated = entries.update(i, (name, text));
    assert forall|a: int, b: int| 0 <= a < b < updated.len() implies (#[trigger] updated[a]).0@
        != (#[trigger] updated[b]).0@ by {
        assert(entries[a].0@ != entries[b].0@);
    }
    if i == entries.len() - 1 {
        assert(updated.drop_last() =~= entries.drop_last());
        assert(pairs_map(updated) =~= pairs_map(entries).insert(name@, text@));
    } else {
        assert(updated.drop_last() =~= entries.drop_last().update(i, (name, text)));
        assert(names_unique(entries.drop_last()));
        lemma_pairs_map_update(entries.drop_last(), i, name, text);
        assert(entries.last().0@ != name@);
        assert(pairs_map(updated) =~= pairs_map(entries).insert(name@, text@));
    }
}

/// Registering every entry over `m` gives `m` updated with the mapping.
proof fn lemma_pairs_steps_result(m: TemplateMap, entries: Seq<(String, String)>)
    requires
        run_steps(m, pairs_steps(entries)) is Ok,
    ensures
        run_steps(m, pairs_steps(entries))->Ok_0 == m.union_prefer_right(pairs_map(entries)),
    decreases entries.len(),
{
    if entries.len() == 0 {
        assert(pairs_steps(entries) =~= Seq::<Step>::empty());
        assert(m.union_prefer_right(pairs_map(entries)) =~= m);
    } else {
        let last = entries.last();
        let step = Step::Register { name: last.0@, text: last.1@ };
        assert(pairs_steps(entries) =~= pairs_steps(entries.drop_last()).push(step));
        lemma_run_steps_push(m, pairs_steps(entries.drop_last()), step);
        lemma_pairs_steps_result(m, entries.drop_last());
        assert(m.union_prefer_right(pairs_map(entries)) =~= m.union_prefer_right(
            pairs_map(entries.drop_last()),
        ).insert(last.0@, last.1@));
    }
}

impl Source for MemorySource {
    open spec fn steps(&self, files: Seq<FileEntry>) -> Seq<Step> {
        self.registrations()
    }

    fn load(&self, reg: &mut handlebars::Handlebars<'static>, files: &Vec<FileEntry>) -> (r:
        Result<(), SourceError>) {
        let ghost start = templates_of(*reg);
        let ghost all = self.entries@;
        let mut i: usize = 0;
        while i < self.entries.len()
            invariant
                i <= all.len(),
                all == self.entries@,
                run_steps(start, pairs_steps(all.take(i as int))) == Ok::<TemplateMap, Step>(
                    templates_of(*reg),
                ),
                helper_names(*reg) == helper_names(*old(reg)),
                start == templates_of(*old(reg)),
            decreases all.len() - i,
        {
            let name = &self.entries[i].0;
            let text = &self.entries[i].1;
            let step = Ghost(Step::Register { name: name@, text: text@ });
            proof {
                assert(pairs_steps(all.take(i + 1)) =~= pairs_steps(all.take(i as int)).push(
                    step@,
                ));
                lemma_run_steps_push(start, pairs_steps(all.take(i as int)), step@);
            }
            match register_template_string(reg, name.as_str(), text.as_str()) {
                Ok(()) => {},
                Err(cause) => {
                    proof {
                        lemma_run_steps_failed(
                            start,
                            pairs_steps(all.take(i + 1)),
                            pairs_steps(all.skip(i + 1)),
                        );
                        assert(pairs_steps(all.take(i + 1)) + pairs_steps(all.skip(i + 1))
                            =~= pairs_steps(all));
                    }
                    return Err(SourceError::Compile { name: name.clone(), cause });
                },
            }
            i += 1;
        }
        assert(all.take(i as int) =~= all);
        Ok(())
    }
}

/// Loading a memory source over `m` gives `m` updated with its mapping.
pub proof fn lemma_memory_result(src: MemorySource, m: TemplateMap, files: Seq<FileEntry>)
    requires
        run_steps(m, src.steps(files)) is Ok,
    ensures
        run_steps(m, src.steps(files))->Ok_0 == m.union_prefer_right(src@),
{
    lemma_pairs_steps_result(m, src.entries@);
}

proof fn lemma_pairs_map_entry(entries: Seq<(String, String)>, i: int)
    requires
        names_unique(entries),
        0 <= i < entries.len(),
    ensures
        pairs_map(entries).contains_key(entries[i].0@),
        pairs_map(entries)[entries[i].0@] == entries[i].1@,
    decreases entries.len(),
{
    if i < entries.len() - 1 {
        let prev = entries.drop_last();
        assert(names_unique(prev));
        assert(prev[i] == entries[i]);
        lemma_pairs_map_entry(prev, i);
        assert(entries.last().0@ != entries[i].0@);
    }
}

proof fn lemma_pairs_map_key(entries: Seq<(String, String)>, name: Seq<char>)
    requires
        pairs_map(entries).contains_key(name),
    ensures
        exists|i: int| 0 <= i < entries.len() && (#[trigger] entries[i]).0@ == name,
    decreases entries.len(),
{
    if entries.last().0@ == name {
        assert(entries[entries.len() - 1].0@ == name);
    } else {
        let prev = entries.drop_last();
        lemma_pairs_map_key(prev, name);
        let i = choose|i: int| 0 <= i < prev.len() && (#[trigger] prev[i]).0@ == name;
        assert(entries[i] == prev[i]);
    }
}

proof fn lemma_pairs_steps_outcome(m: TemplateMap, entries: Seq<(String, String)>)
    ensures
        run_steps(m, pairs_steps(entries)) is Ok <==> (forall|i: int|
            0 <= i < entries.len() ==> accepts_template(#[trigger] entries[i].1@)),
        run_steps(m, pairs_steps(entries)) is Err ==> (exists|i: int|
            0 <= i < entries.len() && run_steps(m, pairs_steps(entries))->Err_0 == (Step::Register {
                name: (#[trigger] entries[i]).0@,
                text: entries[i].1@,
            }) && !accepts_template(entries[i].1@)),
    decreases entries.len(),
{
    if entries.len() == 0 {
        assert(pairs_steps(entries) =~= Seq::<Step>::empty());
    } else {
        let prev = entries.drop_last();
        let last = entries.last();
        let step = Step::Register { name: last.0@, text: last.1@ };
        assert(pairs_steps(entries) =~= pairs_steps(prev).push(step));
        lemma_run_steps_push(m, pairs_steps(prev), step);
        lemma_pairs_steps_outcome(m, prev);
        assert forall|i: int| 0 <= i < prev.len() implies prev[i] == entries[i] by {}
        assert(entries[entries.len() - 1] == last);
        if run_steps(m, pairs_steps(prev)) is Err {
            let i = choose|i: int|
                0 <= i < prev.len() && run_steps(m, pairs_steps(prev))->Err_0 == (Step::Register {
                    name: (#[trigger] prev[i]).0@,
                    text: prev[i].1@,
                }) && !accepts_template(prev[i].1@);
            assert(entries[i] == prev[i]);
        }
    }
}

/// Loading a well-formed memory source over `m` succeeds exactly when the
/// parser accepts every text of its mapping, and then gives `m` updated
/// with the mapping, whatever the order of the entries. A failing load stops
/// at the registration of an entry of the mapping whose text is rejected.
pub proof fn lemma_memory_load(src: MemorySource, m: TemplateMap, files: Seq<FileEntry>)
    requires
        src.wf(),
    ensures
        run_steps(m, src.steps(files)) is Ok <==> (forall|n: Seq<char>|
            #[trigger] src@.contains_key(n) ==> accepts_template(src@[n])),
        run_steps(m, src.steps(files)) is Ok ==> run_steps(m, src.steps(files))->Ok_0
            == m.union_prefer_right(src@),
        run_steps(m, src.steps(files)) matches Err(s) ==> (s matches Step::Register { name, text }
            && src@.contains_key(name) && src@[name] == text && !accepts_template(text)),
{
    let entries = src.entries@;
    lemma_pairs_steps_outcome(m, entries);
    if run_steps(m, src.steps(files)) is Ok {
        lemma_pairs_steps_result(m, entries);
        assert forall|n: Seq<char>| #[trigger] src@.contains_key(n) implies accepts_template(
            src@[n],
        ) by {
            lemma_pairs_map_key(entries, n);
            let i = choose|i: int| 0 <= i < entries.len() && (#[trigger] entries[i]).0@ == n;
            lemma_pairs_map_entry(entries, i);
        }
    } else {
        let i = choose|i: int|
            0 <= i < entries.len() && run_steps(m, pairs_steps(entries))->Err_0 == (Step::Register {
                name: (#[trigger] entries[i]).0@,
                text: entries[i].1@,
            }) && !accepts_template(entries[i].1@);
        lemma_pairs_map_entry(entries, i);
        assert(src@.contains_key(entries[i].0@) && !accepts_template(src@[entries[i].0@]));
    }
}

} // verus!
