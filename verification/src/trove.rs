//! The store: an ordered collection of templates in which namespace
//! and name together are unique.

use crate::template::{CommandTemplate, TemplateView};
use crate::text::{distinct, lemma_distinct, push_distinct, texts};
use vstd::prelude::*;

verus! {

/// Why the store turned an operation down.
#[derive(Debug, Clone, Copy, PartialEq, Eq, Structural)]
pub enum StoreError {
    /// No template stands under the given name or namespace.
    NotFound,
    /// A template already stands under that namespace and name.
    DuplicateName,
}

/// The ordered collection of stored command templates.
#[derive(Debug, PartialEq, Eq)]
pub struct Trove {
    pub commands: Vec<CommandTemplate>,
}

/// The views of a run of templates.
pub open spec fn template_views(templates: Seq<CommandTemplate>) -> Seq<TemplateView> {
    Seq::new(templates.len(), |i: int| templates[i]@)
}

/// No two entries stand under one namespace and one name.
pub open spec fn unique_keys(entries: Seq<TemplateView>) -> bool {
    forall|i: int, j: int|
        0 <= i < j < entries.len() ==> !CommandTemplate::same_key(
            #[trigger] entries[i],
            #[trigger] entries[j],
        )
}

/// The position of the first entry under `namespace` and `name`, or -1.
pub open spec fn key_index(entries: Seq<TemplateView>, namespace: Seq<char>, name: Seq<char>) -> int
    decreases entries.len(),
{
    if entries.len() == 0 {
        -1
    } else {
        let earlier = key_index(entries.drop_last(), namespace, name);
        if earlier >= 0 {
            earlier
        } else if entries.last().namespace == namespace && entries.last().name == name {
            entries.len() - 1
        } else {
            -1
        }
    }
}

/// The entries after `template` came in: it takes the place of the entry
/// under its namespace and name where `overwrite` allows, and goes to the
/// end where there is no such entry.
pub open spec fn add_spec(
    entries: Seq<TemplateView>,
    template: TemplateView,
    overwrite: bool,
) -> Seq<TemplateView> {
    let at = key_index(entries, template.namespace, template.name);
    if at < 0 {
        entries.push(template)
    } else if overwrite {
        entries.update(at, template)
    } else {
        entries
    }
}

/// `key_index` is -1 where no entry has the key, else the first position
/// of one that has it.
pub proof fn lemma_key_index(entries: Seq<TemplateView>, namespace: Seq<char>, name: Seq<char>)
    ensures
        -1 <= key_index(entries, namespace, name) < entries.len(),
        key_index(entries, namespace, name) >= 0 ==> {
            let at = key_index(entries, namespace, name);
            entries[at].namespace == namespace && entries[at].name == name
        },
        forall|k: int|
            0 <= k < entries.len() && (key_index(entries, namespace, name) < 0 || k < key_index(
                entries,
                namespace,
                name,
            )) ==> !(#[trigger] entries[k].namespace == namespace && entries[k].name == name),
    decreases entries.len(),
{
    if entries.len() > 0 {
        lemma_key_index(entries.drop_last(), namespace, name);
        assert forall|k: int|
            0 <= k < entries.len() && (key_index(entries, namespace, name) < 0 || k < key_index(
                entries,
                namespace,
                name,
            )) implies !(#[trigger] entries[k].namespace == namespace && entries[k].name
            == name) by {
            if k < entries.len() - 1 {
                assert(entries.drop_last()[k] == entries[k]);
            }
        }
    }
}

/// Adding keeps the keys unique.
pub proof fn lemma_add_unique(entries: Seq<TemplateView>, template: TemplateView, overwrite: bool)
    requires
        unique_keys(entries),
    ensures
        unique_keys(add_spec(entries, template, overwrite)),
{
    lemma_key_index(entries, template.namespace, template.name);
    let at = key_index(entries, template.namespace, template.name);
    let after = add_spec(entries, template, overwrite);
    assert forall|i: int, j: int| 0 <= i < j < after.len() implies !CommandTemplate::same_key(
        #[trigger] after[i],
        #[trigger] after[j],
    ) by {
        if at < 0 {
            if j == entries.len() {
                assert(!(entries[i].namespace == template.namespace && entries[i].name
                    == template.name));
            } else {
                assert(!CommandTemplate::same_key(entries[i], entries[j]));
            }
        } else if overwrite {
            if i == at {
                assert(!CommandTemplate::same_key(entries[at], entries[j]));
            } else if j == at {
                assert(!CommandTemplate::same_key(entries[i], entries[at]));
            } else {
                assert(!CommandTemplate::same_key(entries[i], entries[j]));
            }
        } else {
            assert(!CommandTemplate::same_key(entries[i], entries[j]));
        }
    }
}

impl View for Trove {
    type V = Seq<TemplateView>;

    open spec fn view(&self) -> Seq<TemplateView> {
        template_views(self.commands@)
    }
}

impl Trove {
    /// The store's invariant: keys are unique.
    pub open spec fn wf(&self) -> bool {
        unique_keys(self@)
    }

    /// A store without templates.
    pub fn new() -> (trove: Trove)
        ensures
            trove@ == Seq::<TemplateView>::empty(),
            trove.wf(),
    {
        let trove = Trove { commands: Vec::new() };
        assert(trove@ =~= Seq::<TemplateView>::empty());
        trove
    }

    /// The number of templates.
    pub fn len(&self) -> (n: usize)
        ensures
            n == self@.len(),
    {
        self.commands.len()
    }

    /// Whether the store holds no template.
    pub fn is_empty(&self) -> (empty: bool)
        ensures
            empty == (self@.len() == 0),
    {
        self.commands.len() == 0
    }

    /// The position of the template under `namespace` and `name`.
    pub fn position(&self, namespace: &String, name: &String) -> (at: Option<usize>)
        ensures
            match at {
                Some(i) => i as int == key_index(self@, namespace@, name@),
                None => key_index(self@, namespace@, name@) == -1,
            },
    {
        let ghost all = self@;
        let mut i: usize = 0;
        while i < self.commands.len()
            invariant
                i <= self.commands.len(),
                all == self@,
                key_index(all.take(i as int), namespace@, name@) == -1,
            decreases self.commands.len() - i,
        {
            assert(all.take(i + 1).drop_last() =~= all.take(i as int));
            if self.commands[i].namespace == *namespace && self.commands[i].name == *name {
                proof {
                    lemma_key_kept(all, namespace@, name@, i + 1);
                }
                return Some(i);
            }
            i += 1;
        }
        assert(all.take(self.commands.len() as int) =~= all);
        None
    }

    /// Whether both stores hold the same templates in the same order.
    pub fn same_as(&self, other: &Trove) -> (same: bool)
        ensures
            same == (self@ == other@),
    {
        if self.commands.len() != other.commands.len() {
            assert(self@.len() != other@.len());
            return false;
        }
        let mut i: usize = 0;
        while i < self.commands.len()
            invariant
                i <= self.commands.len(),
                self.commands.len() == other.commands.len(),
                forall|k: int| 0 <= k < i ==> self@[k] == other@[k],
            decreases self.commands.len() - i,
        {
            if !self.commands[i].same_as(&other.commands[i]) {
                assert(self@[i as int] != other@[i as int]);
                return false;
            }
            i += 1;
        }
        assert(self@ =~= other@);
        true
    }

    /// Whether the keys are unique.
    pub fn is_well_formed(&self) -> (ok: bool)
        ensures
            ok == self.wf(),
    {
        let ghost all = self@;
        let mut j: usize = 0;
        while j < self.commands.len()
            invariant
                j <= self.commands.len(),
                all == self@,
                unique_keys(all.take(j as int)),
            decreases self.commands.len() - j,
        {
            let mut i: usize = 0;
            while i < j
                invariant
                    i <= j < self.commands.len(),
                    all == self@,
                    forall|k: int| 0 <= k < i ==> !CommandTemplate::same_key(all[k], all[j as int]),
                decreases j - i,
            {
                if self.commands[i].has_key_of(&self.commands[j]) {
                    assert(CommandTemplate::same_key(all[i as int], all[j as int]));
                    return false;
                }
                i += 1;
            }
            j += 1;
            assert forall|a: int, b: int| 0 <= a < b < j implies !CommandTemplate::same_key(
                #[trigger] all.take(j as int)[a],
                #[trigger] all.take(j as int)[b],
            ) by {
                if b < j - 1 {
                    assert(!CommandTemplate::same_key(
                        all.take(j - 1)[a],
                        all.take(j - 1)[b],
                    ));
                }
            }
        }
        assert(all.take(self.commands.len() as int) =~= all);
        true
    }

    /// Inserts `template`, or puts it in the place of the template that
    /// stands under its namespace and name. Without `overwrite` such a
    /// template stays and the call fails.
    pub fn add(&mut self, template: CommandTemplate, overwrite: bool) -> (result: Result<
        (),
        StoreError,
    >)
        requires
            old(self).wf(),
        ensures
            final(self).wf(),
            final(self)@ == add_spec(old(self)@, template@, overwrite),
            result == if key_index(old(self)@, template@.namespace, template@.name) >= 0
                && !overwrite {
                Err::<(), StoreError>(StoreError::DuplicateName)
            } else {
                Ok(())
            },
    {
        proof {
            lemma_add_unique(self@, template@, overwrite);
            lemma_key_index(self@, template@.namespace, template@.name);
        }
        match self.position(&template.namespace, &template.name) {
            Some(at) => {
                if !overwrite {
                    return Err(StoreError::DuplicateName);
                }
                self.commands.set(at, template);
                assert(self@ =~= add_spec(old(self)@, template@, overwrite));
                Ok(())
            },
            None => {
                self.commands.push(template);
                assert(self@ =~= add_spec(old(self)@, template@, overwrite));
                Ok(())
            },
        }
    }

    /// Removes every template called `name`, whatever its namespace.
    pub fn remove(&mut self, name: &String) -> (result: Result<(), StoreError>)
        requires
            old(self).wf(),
        ensures
            final(self).wf(),
            final(self)@ == old(self)@.filter(not_named(name@)),
            result is Err ==> final(self)@ == old(self)@,
            result == if old(self)@.filter(not_named(name@)).len() == old(self)@.len() {
                Err::<(), StoreError>(StoreError::NotFound)
            } else {
                Ok(())
            },
    {
        let ghost all = self@;
        let ghost keep = not_named(name@);
        let mut kept: Vec<CommandTemplate> = Vec::new();
        let mut i: usize = 0;
        assert(template_views(kept@) =~= all.take(0).filter(keep)) by {
            reveal(Seq::filter);
        }
        while i < self.commands.len()
            invariant
                i <= self.commands.len(),
                all == self@,
                keep == not_named(name@),
                template_views(kept@) == all.take(i as int).filter(keep),
            decreases self.commands.len() - i,
        {
            proof {
                lemma_filter_step(all, keep, i as int);
            }
            if self.commands[i].name != *name {
                kept.push(self.commands[i].clone());
                assert(template_views(kept@) =~= all.take(i as int).filter(keep).push(
                    all[i as int],
                ));
            }
            i += 1;
        }
        proof {
            assert(all.take(self.commands.len() as int) =~= all);
            lemma_filter_unique(all, keep);
            all.lemma_filter_len(keep);
            if all.filter(keep).len() == all.len() {
                lemma_filter_all(all, keep);
            }
        }
        let found = kept.len() != self.commands.len();
        self.commands = kept;
        if found {
            Ok(())
        } else {
            Err(StoreError::NotFound)
        }
    }

    /// Removes every template of `namespace`.
    pub fn remove_namespace(&mut self, namespace: &String) -> (result: Result<(), StoreError>)
        requires
            old(self).wf(),
        ensures
            final(self).wf(),
            final(self)@ == old(self)@.filter(not_in_namespace(namespace@)),
            result is Err ==> final(self)@ == old(self)@,
            result == if old(self)@.filter(not_in_namespace(namespace@)).len() == old(
                self,
            )@.len() {
                Err::<(), StoreError>(StoreError::NotFound)
            } else {
                Ok(())
            },
    {
        let ghost all = self@;
        let ghost keep = not_in_namespace(namespace@);
        let mut kept: Vec<CommandTemplate> = Vec::new();
        let mut i: usize = 0;
        assert(template_views(kept@) =~= all.take(0).filter(keep)) by {
            reveal(Seq::filter);
        }
        while i < self.commands.len()
            invariant
                i <= self.commands.len(),
                all == self@,
                keep == not_in_namespace(namespace@),
                template_views(kept@) == all.take(i as int).filter(keep),
            decreases self.commands.len() - i,
        {
            proof {
                lemma_filter_step(all, keep, i as int);
            }
            if self.commands[i].namespace != *namespace {
                kept.push(self.commands[i].clone());
                assert(template_views(kept@) =~= all.take(i as int).filter(keep).push(
                    all[i as int],
                ));
            }
            i += 1;
        }
        proof {
            assert(all.take(self.commands.len() as int) =~= all);
            lemma_filter_unique(all, keep);
            all.lemma_filter_len(keep);
            if all.filter(keep).len() == all.len() {
                lemma_filter_all(all, keep);
            }
        }
        let found = kept.len() != self.commands.len();
        self.commands = kept;
        if found {
            Ok(())
        } else {
            Err(StoreError::NotFound)
        }
    }

    /// The entries of `base` with those of `incoming` brought in: an
    /// incoming template takes the place of the one under its namespace
    /// and name, and goes to the end where `base` has none.
    pub fn merge(base: &Trove, incoming: &Trove) -> (merged: Trove)
        requires
            base.wf(),
        ensures
            merged.wf(),
            merged@ == merge_spec(base@, incoming@),
    {
        let mut merged = base.clone();
        let ghost all = incoming@;
        let mut i: usize = 0;
        while i < incoming.commands.len()
            invariant
                i <= incoming.commands.len(),
                all == incoming@,
                merged.wf(),
                merged@ == merge_spec(base@, all.take(i as int)),
            decreases incoming.commands.len() - i,
        {
            assert(all.take(i + 1).drop_last() =~= all.take(i as int));
            let _ = merged.add(incoming.commands[i].clone(), true);
            i += 1;
        }
        assert(all.take(incoming.commands.len() as int) =~= all);
        merged
    }

    /// A store of `commands`, a later one taking the place of an earlier
    /// one under the same namespace and name.
    pub fn from_commands(commands: &Vec<CommandTemplate>) -> (trove: Trove)
        ensures
            trove.wf(),
            trove@ == merge_spec(Seq::<TemplateView>::empty(), template_views(commands@)),
    {
        let mut trove = Trove::new();
        let ghost all = template_views(commands@);
        let mut i: usize = 0;
        while i < commands.len()
            invariant
                i <= commands.len(),
                all == template_views(commands@),
                trove.wf(),
                trove@ == merge_spec(Seq::<TemplateView>::empty(), all.take(i as int)),
            decreases commands.len() - i,
        {
            assert(all.take(i + 1).drop_last() =~= all.take(i as int));
            let _ = trove.add(commands[i].clone(), true);
            i += 1;
        }
        assert(all.take(commands.len() as int) =~= all);
        trove
    }

    /// The namespaces in use, each once, in the order of first use.
    pub fn namespaces(&self) -> (names: Vec<String>)
        ensures
            texts(names@) == namespaces_spec(self@),
    {
        let ghost all = self@;
        let mut names: Vec<String> = Vec::new();
        let mut i: usize = 0;
        assert(texts(names@) =~= namespaces_spec(all.take(0)));
        while i < self.commands.len()
            invariant
                i <= self.commands.len(),
                all == self@,
                texts(names@) == namespaces_spec(all.take(i as int)),
            decreases self.commands.len() - i,
        {
            assert(all.take(i + 1).drop_last() =~= all.take(i as int));
            assert(namespaces_of(all.take(i + 1)).drop_last() =~= namespaces_of(
                all.take(i as int),
            ));
            push_distinct(&mut names, self.commands[i].namespace.clone());
            i += 1;
        }
        assert(all.take(self.commands.len() as int) =~= all);
        names
    }

    /// The first template called `name`.
    pub fn pick(&self, name: &String) -> (result: Result<CommandTemplate, StoreError>)
        ensures
            match result {
                Ok(template) => exists|i: int|
                    0 <= i < self@.len() && template@ == self@[i] && is_first_named(
                        self@,
                        name@,
                        i,
                    ),
                Err(error) => error == StoreError::NotFound && forall|i: int|
                    0 <= i < self@.len() ==> (#[trigger] self@[i]).name != name@,
            },
    {
        let mut i: usize = 0;
        while i < self.commands.len()
            invariant
                i <= self.commands.len(),
                forall|k: int| 0 <= k < i ==> (#[trigger] self@[k]).name != name@,
            decreases self.commands.len() - i,
        {
            if self.commands[i].name == *name {
                let template = self.commands[i].clone();
                assert(template@ == self@[i as int] && is_first_named(self@, name@, i as int));
                return Ok(template);
            }
            i += 1;
        }
        Err(StoreError::NotFound)
    }

    /// Puts `template` in the place of the entry at `index`, unless
    /// another entry already stands under its namespace and name.
    pub fn replace_at(&mut self, index: usize, template: CommandTemplate) -> (result: Result<
        (),
        StoreError,
    >)
        requires
            old(self).wf(),
        ensures
            final(self).wf(),
            result == replace_outcome(old(self)@, index as int, template@),
            final(self)@ == if result is Ok {
                old(self)@.update(index as int, template@)
            } else {
                old(self)@
            },
    {
        if index >= self.commands.len() {
            return Err(StoreError::NotFound);
        }
        let ghost all = self@;
        let mut j: usize = 0;
        while j < self.commands.len()
            invariant
                j <= self.commands.len(),
                index < self.commands.len(),
                all == self@,
                unique_keys(all),
                forall|k: int|
                    0 <= k < j && k != index ==> !CommandTemplate::same_key(
                        #[trigger] all[k],
                        template@,
                    ),
            decreases self.commands.len() - j,
        {
            if j != index && self.commands[j].has_key_of(&template) {
                assert(taken_elsewhere(all, index as int, template@)) by {
                    assert(CommandTemplate::same_key(all[j as int], template@));
                }
                return Err(StoreError::DuplicateName);
            }
            j += 1;
        }
        self.commands.set(index, template);
        assert(self@ =~= all.update(index as int, template@));
        assert forall|a: int, b: int| 0 <= a < b < self@.len() implies !CommandTemplate::same_key(
            #[trigger] self@[a],
            #[trigger] self@[b],
        ) by {
            if a == index {
                assert(!CommandTemplate::same_key(all[b], template@));
            } else if b == index {
                assert(!CommandTemplate::same_key(all[a], template@));
            } else {
                assert(!CommandTemplate::same_key(all[a], all[b]));
            }
        }
        Ok(())
    }

    /// Counts one use, at time `now`, of the template under `namespace`
    /// and `name`.
    pub fn record_use(&mut self, namespace: &String, name: &String, now: u64) -> (result: Result<
        (),
        StoreError,
    >)
        requires
            old(self).wf(),
        ensures
            final(self).wf(),
            result == if key_index(old(self)@, namespace@, name@) >= 0 {
                Ok::<(), StoreError>(())
            } else {
                Err(StoreError::NotFound)
            },
            final(self)@ == if key_index(old(self)@, namespace@, name@) >= 0 {
                old(self)@.update(
                    key_index(old(self)@, namespace@, name@),
                    CommandTemplate::used(
                        old(self)@[key_index(old(self)@, namespace@, name@)],
                        now,
                    ),
                )
            } else {
                old(self)@
            },
    {
        proof {
            lemma_key_index(self@, namespace@, name@);
        }
        match self.position(namespace, name) {
            Some(at) => {
                let ghost all = self@;
                let mut template = self.commands[at].clone();
                template.record_use(now);
                self.commands.set(at, template);
                assert(self@ =~= all.update(at as int, CommandTemplate::used(all[at as int], now)));
                assert forall|a: int, b: int|
                    0 <= a < b < self@.len() implies !CommandTemplate::same_key(
                    #[trigger] self@[a],
                    #[trigger] self@[b],
                ) by {
                    assert(!CommandTemplate::same_key(all[a], all[b]));
                }
                Ok(())
            },
            None => Err(StoreError::NotFound),
        }
    }
}

impl Clone for Trove {
    fn clone(&self) -> (copy: Self)
        ensures
            copy@ == self@,
    {
        let mut commands: Vec<CommandTemplate> = Vec::new();
        let mut i: usize = 0;
        while i < self.commands.len()
            invariant
                i <= self.commands.len(),
                commands.len() == i,
                forall|k: int| 0 <= k < i ==> commands@[k]@ == self.commands@[k]@,
            decreases self.commands.len() - i,
        {
            commands.push(self.commands[i].clone());
            i += 1;
        }
        let copy = Trove { commands };
        assert(copy@ =~= self@);
        copy
    }
}

/// Holds of the templates that are not called `name`.
pub open spec fn not_named(name: Seq<char>) -> spec_fn(TemplateView) -> bool {
    |t: TemplateView| t.name != name
}

/// Holds of the templates outside `namespace`.
pub open spec fn not_in_namespace(namespace: Seq<char>) -> spec_fn(TemplateView) -> bool {
    |t: TemplateView| t.namespace != namespace
}

/// The entry at `i` is called `name` and none before it is.
pub open spec fn is_first_named(entries: Seq<TemplateView>, name: Seq<char>, i: int) -> bool {
    &&& 0 <= i < entries.len()
    &&& entries[i].name == name
    &&& forall|k: int| 0 <= k < i ==> (#[trigger] entries[k]).name != name
}

/// An entry other than the one at `index` stands under the namespace and
/// name of `template`.
pub open spec fn taken_elsewhere(
    entries: Seq<TemplateView>,
    index: int,
    template: TemplateView,
) -> bool {
    exists|j: int|
        0 <= j < entries.len() && j != index && CommandTemplate::same_key(
            #[trigger] entries[j],
            template,
        )
}

/// What `replace_at` answers.
pub open spec fn replace_outcome(
    entries: Seq<TemplateView>,
    index: int,
    template: TemplateView,
) -> Result<(), StoreError> {
    if index >= entries.len() {
        Err(StoreError::NotFound)
    } else if taken_elsewhere(entries, index, template) {
        Err(StoreError::DuplicateName)
    } else {
        Ok(())
    }
}

/// The namespaces of `entries`, entry by entry.
pub open spec fn namespaces_of(entries: Seq<TemplateView>) -> Seq<Seq<char>> {
    Seq::new(entries.len(), |i: int| entries[i].namespace)
}

/// The namespaces in use, each once, in the order of first use.
pub open spec fn namespaces_spec(entries: Seq<TemplateView>) -> Seq<Seq<char>> {
    distinct(namespaces_of(entries))
}

/// `base` after each entry of `incoming` was added with leave to
/// overwrite, first to last.
pub open spec fn merge_spec(
    base: Seq<TemplateView>,
    incoming: Seq<TemplateView>,
) -> Seq<TemplateView>
    decreases incoming.len(),
{
    if incoming.len() == 0 {
        base
    } else {
        add_spec(merge_spec(base, incoming.drop_last()), incoming.last(), true)
    }
}

/// One more entry of a prefix either joins what the filter keeps or not.
pub proof fn lemma_filter_step(
    entries: Seq<TemplateView>,
    keep: spec_fn(TemplateView) -> bool,
    i: int,
)
    requires
        0 <= i < entries.len(),
    ensures
        entries.take(i + 1).filter(keep) == if keep(entries[i]) {
            entries.take(i).filter(keep).push(entries[i])
        } else {
            entries.take(i).filter(keep)
        },
{
    reveal(Seq::filter);
    assert(entries.take(i + 1).drop_last() =~= entries.take(i));
}

/// A filter that keeps as many entries as there are keeps them all.
pub proof fn lemma_filter_all(entries: Seq<TemplateView>, keep: spec_fn(TemplateView) -> bool)
    requires
        entries.filter(keep).len() == entries.len(),
    ensures
        entries.filter(keep) == entries,
    decreases entries.len(),
{
    reveal(Seq::filter);
    if entries.len() > 0 {
        let head = entries.drop_last();
        head.lemma_filter_len(keep);
        lemma_filter_all(head, keep);
        assert(entries.filter(keep) =~= entries);
    }
}

/// What a filter keeps of unique keys has unique keys.
pub proof fn lemma_filter_unique(entries: Seq<TemplateView>, keep: spec_fn(TemplateView) -> bool)
    requires
        unique_keys(entries),
    ensures
        unique_keys(entries.filter(keep)),
    decreases entries.len(),
{
    reveal(Seq::filter);
    if entries.len() > 0 {
        let head = entries.drop_last();
        assert forall|i: int, j: int| 0 <= i < j < head.len() implies !CommandTemplate::same_key(
            #[trigger] head[i],
            #[trigger] head[j],
        ) by {
            assert(!CommandTemplate::same_key(entries[i], entries[j]));
        }
        lemma_filter_unique(head, keep);
        let kept = head.filter(keep);
        let after = entries.filter(keep);
        assert forall|i: int, j: int| 0 <= i < j < after.len() implies !CommandTemplate::same_key(
            #[trigger] after[i],
            #[trigger] after[j],
        ) by {
            if j < kept.len() {
                assert(!CommandTemplate::same_key(kept[i], kept[j]));
            } else {
                head.lemma_filter_contains_rev(keep, kept[i]);
                assert(kept.contains(kept[i]));
                let k = choose|k: int| 0 <= k < head.len() && head[k] == kept[i];
                assert(!CommandTemplate::same_key(entries[k], entries[entries.len() - 1]));
            }
        }
    }
}

/// A hit within a prefix is the hit of the whole run.
pub proof fn lemma_key_kept(
    entries: Seq<TemplateView>,
    namespace: Seq<char>,
    name: Seq<char>,
    k: int,
)
    requires
        0 <= k <= entries.len(),
        key_index(entries.take(k), namespace, name) >= 0,
    ensures
        key_index(entries, namespace, name) == key_index(entries.take(k), namespace, name),
    decreases entries.len() - k,
{
    if k == entries.len() {
        assert(entries.take(k) =~= entries);
    } else {
        assert(entries.take(k + 1).drop_last() =~= entries.take(k));
        lemma_key_kept(entries, namespace, name, k + 1);
    }
}

/// The entries of a store that was empty and then took the calls of
/// `add` in `calls`, each a template with its leave to overwrite.
pub open spec fn after_adds(calls: Seq<(TemplateView, bool)>) -> Seq<TemplateView>
    decreases calls.len(),
{
    if calls.len() == 0 {
        seq![]
    } else {
        add_spec(after_adds(calls.drop_last()), calls.last().0, calls.last().1)
    }
}

/// Whatever is added, in whatever order and with or without leave to
/// overwrite, no two templates of the store share namespace and name.
pub proof fn lemma_adds_keep_keys_unique(calls: Seq<(TemplateView, bool)>)
    ensures
        unique_keys(after_adds(calls)),
    decreases calls.len(),
{
    if calls.len() > 0 {
        lemma_adds_keep_keys_unique(calls.drop_last());
        lemma_add_unique(after_adds(calls.drop_last()), calls.last().0, calls.last().1);
    }
}

/// Merging keeps the keys unique.
pub proof fn lemma_merge_unique(base: Seq<TemplateView>, incoming: Seq<TemplateView>)
    requires
        unique_keys(base),
    ensures
        unique_keys(merge_spec(base, incoming)),
    decreases incoming.len(),
{
    if incoming.len() > 0 {
        lemma_merge_unique(base, incoming.drop_last());
        lemma_add_unique(merge_spec(base, incoming.drop_last()), incoming.last(), true);
    }
}

/// Merging a prefix of a store into the store changes nothing.
proof fn lemma_merge_prefix(entries: Seq<TemplateView>, k: int)
    requires
        unique_keys(entries),
        0 <= k <= entries.len(),
    ensures
        merge_spec(entries, entries.take(k)) == entries,
    decreases k,
{
    if k > 0 {
        lemma_merge_prefix(entries, k - 1);
        assert(entries.take(k).drop_last() =~= entries.take(k - 1));
        let entry = entries[k - 1];
        lemma_key_index(entries, entry.namespace, entry.name);
        let at = key_index(entries, entry.namespace, entry.name);
        if at != k - 1 {
            assert(!CommandTemplate::same_key(entries[at], entries[k - 1]));
        }
        assert(entries.update(at, entry) =~= entries);
    }
}

/// A store merged with itself is the store.
pub proof fn lemma_merge_idempotent(entries: Seq<TemplateView>)
    requires
        unique_keys(entries),
    ensures
        merge_spec(entries, entries) == entries,
{
    lemma_merge_prefix(entries, entries.len() as int);
    assert(entries.take(entries.len() as int) =~= entries);
}

/// The namespaces of a store are exactly the namespaces of its
/// templates, none twice.
pub proof fn lemma_namespaces(entries: Seq<TemplateView>)
    ensures
        namespaces_spec(entries).no_duplicates(),
        forall|x: Seq<char>| #[trigger]
            namespaces_spec(entries).contains(x) <==> exists|i: int|
                0 <= i < entries.len() && (#[trigger] entries[i]).namespace == x,
{
    let all = namespaces_of(entries);
    lemma_distinct(all);
    assert forall|x: Seq<char>| #[trigger]
        namespaces_spec(entries).contains(x) <==> exists|i: int|
            0 <= i < entries.len() && (#[trigger] entries[i]).namespace == x by {
        if all.contains(x) {
            let k = choose|k: int| 0 <= k < all.len() && all[k] == x;
            assert(entries[k].namespace == x);
        }
        if exists|i: int| 0 <= i < entries.len() && (#[trigger] entries[i]).namespace == x {
            let i = choose|i: int| 0 <= i < entries.len() && (#[trigger] entries[i]).namespace == x;
            assert(all[i] == x);
        }
    }
}

} // verus!
