//! The store with its settings, and the operations of the command
//! line on it.

use crate::filter::{filter, filter_spec, ALL_NAMESPACES};
use crate::template::{complete, drafted, CommandTemplate, TemplateDraft, TemplateView};
use crate::text::{contains_text, texts};
use crate::trove::{
    add_spec, lemma_filter_step, merge_spec, not_in_namespace, not_named, template_views,
    StoreError, Trove,
};
use vstd::prelude::*;

verus! {

/// What is appended to the store's path for the path of its backup.
pub const BACKUP_SUFFIX: &'static str = ".bk";

/// The settings that the store's operations read.
#[derive(Debug, PartialEq, Eq)]
pub struct HoardConfig {
    /// Where the store is kept.
    pub trove_path: Option<String>,
    /// Marks a placeholder in a command.
    pub parameter_token: Option<String>,
    /// Ends the identifier of a named placeholder.
    pub parameter_ending_token: Option<String>,
}

/// A store to be written, whole, to a path.
#[derive(Debug, PartialEq, Eq)]
pub struct SaveRequest {
    pub path: String,
    pub trove: Trove,
}

/// The store together with its settings.
#[derive(Debug)]
pub struct Hoard {
    pub config: HoardConfig,
    pub trove: Trove,
}

/// Holds of the templates whose namespace is one of `namespaces`.
pub open spec fn in_namespaces(namespaces: Seq<Seq<char>>) -> spec_fn(TemplateView) -> bool {
    |t: TemplateView| namespaces.contains(t.namespace)
}

impl Hoard {
    /// The invariant: that of the store.
    pub open spec fn wf(&self) -> bool {
        self.trove.wf()
    }

    /// An empty store under `config`.
    pub fn new(config: HoardConfig) -> (hoard: Hoard)
        ensures
            hoard.wf(),
            hoard.trove@ == Seq::<TemplateView>::empty(),
            hoard.config == config,
    {
        Hoard { config, trove: Trove::new() }
    }

    /// Takes `loaded`, the store as it was read, in place of the store
    /// held so far.
    pub fn load_trove(&mut self, loaded: Trove)
        requires
            loaded.wf(),
        ensures
            final(self).wf(),
            final(self).trove == loaded,
            final(self).config == old(self).config,
    {
        self.trove = loaded;
    }

    /// What is to be written to save the store: the whole store, to
    /// `path`, or to the configured path where `path` is not given.
    pub fn save_trove(&self, path: Option<String>) -> (request: SaveRequest)
        requires
            path is Some || self.config.trove_path is Some,
        ensures
            request.trove@ == self.trove@,
            request.path@ == match path {
                Some(given) => given@,
                None => self.config.trove_path->0@,
            },
    {
        let target = match path {
            Some(given) => given,
            None => match &self.config.trove_path {
                Some(configured) => configured.clone(),
                None => String::new(),
            },
        };
        SaveRequest { path: target, trove: self.trove.clone() }
    }

    /// What is to be written to back the store up: the whole store, to
    /// `path`, or to the configured path with the backup suffix where
    /// `path` is not given.
    pub fn save_backup_trove(&self, path: Option<String>) -> (request: SaveRequest)
        requires
            self.config.trove_path is Some,
        ensures
            request.trove@ == self.trove@,
            request.path@ == match path {
                Some(given) => given@,
                None => self.config.trove_path->0@ + BACKUP_SUFFIX@,
            },
    {
        let target = match path {
            Some(given) => given,
            None => match &self.config.trove_path {
                Some(configured) => configured.clone().concat(BACKUP_SUFFIX),
                None => String::new(),
            },
        };
        SaveRequest { path: target, trove: self.trove.clone() }
    }

    /// Makes a template of `draft` and puts it into the store, in the
    /// place of the template under its namespace and name if there is
    /// one. An incomplete draft changes nothing.
    pub fn new_command(&mut self, draft: &TemplateDraft, identity: u64, now: u64) -> (added: bool)
        requires
            old(self).wf(),
        ensures
            final(self).wf(),
            final(self).config == old(self).config,
            added == complete(draft@),
            final(self).trove@ == if complete(draft@) {
                add_spec(old(self).trove@, drafted(draft@, identity, now), true)
            } else {
                old(self).trove@
            },
    {
        match CommandTemplate::from_draft(draft, identity, now) {
            Some(template) => {
                let _ = self.trove.add(template, true);
                true
            },
            None => false,
        }
    }

    /// The first template called `name`.
    pub fn pick_command(&self, name: &String) -> (result: Result<CommandTemplate, StoreError>)
        ensures
            match result {
                Ok(template) => exists|i: int|
                    0 <= i < self.trove@.len() && template@ == self.trove@[i]
                        && crate::trove::is_first_named(self.trove@, name@, i),
                Err(error) => error == StoreError::NotFound && forall|i: int|
                    0 <= i < self.trove@.len() ==> (#[trigger] self.trove@[i]).name != name@,
            },
    {
        self.trove.pick(name)
    }

    /// Removes every template called `name`.
    pub fn remove_command(&mut self, name: &String) -> (result: Result<(), StoreError>)
        requires
            old(self).wf(),
        ensures
            final(self).wf(),
            final(self).config == old(self).config,
            final(self).trove@ == old(self).trove@.filter(not_named(name@)),
            result == if old(self).trove@.filter(not_named(name@)).len() == old(self).trove@.len() {
                Err::<(), StoreError>(StoreError::NotFound)
            } else {
                Ok(())
            },
    {
        self.trove.remove(name)
    }

    /// Removes every template of `namespace`.
    pub fn remove_namespace(&mut self, namespace: &String) -> (result: Result<(), StoreError>)
        requires
            old(self).wf(),
        ensures
            final(self).wf(),
            final(self).config == old(self).config,
            final(self).trove@ == old(self).trove@.filter(not_in_namespace(namespace@)),
            result == if old(self).trove@.filter(not_in_namespace(namespace@)).len() == old(
                self,
            ).trove@.len() {
                Err::<(), StoreError>(StoreError::NotFound)
            } else {
                Ok(())
            },
    {
        self.trove.remove_namespace(namespace)
    }

    /// Brings the templates of `imported` into the store: each takes the
    /// place of the template under its namespace and name, or goes to
    /// the end.
    pub fn import_trove(&mut self, imported: &Trove)
        requires
            old(self).wf(),
        ensures
            final(self).wf(),
            final(self).config == old(self).config,
            final(self).trove@ == merge_spec(old(self).trove@, imported@),
    {
        self.trove = Trove::merge(&self.trove, imported);
    }

    /// The templates that stand under one of `namespaces`, in the order
    /// of the store: those among which an export chooses.
    pub fn export_candidates(&self, namespaces: &Vec<String>) -> (candidates: Vec<CommandTemplate>)
        ensures
            template_views(candidates@) == self.trove@.filter(in_namespaces(texts(namespaces@))),
    {
        let ghost all = self.trove@;
        let ghost keep = in_namespaces(texts(namespaces@));
        let mut candidates: Vec<CommandTemplate> = Vec::new();
        let mut i: usize = 0;
        assert(template_views(candidates@) =~= all.take(0).filter(keep)) by {
            reveal(Seq::filter);
        }
        while i < self.trove.commands.len()
            invariant
                i <= self.trove.commands.len(),
                all == self.trove@,
                keep == in_namespaces(texts(namespaces@)),
                template_views(candidates@) == all.take(i as int).filter(keep),
            decreases self.trove.commands.len() - i,
        {
            proof {
                lemma_filter_step(all, keep, i as int);
            }
            if contains_text(namespaces, &self.trove.commands[i].namespace) {
                candidates.push(self.trove.commands[i].clone());
                assert(template_views(candidates@) =~= all.take(i as int).filter(keep).push(
                    all[i as int],
                ));
            }
            i += 1;
        }
        assert(all.take(self.trove.commands.len() as int) =~= all);
        candidates
    }

    /// The store to export: one of the chosen templates, a later one
    /// taking the place of an earlier one under the same namespace and
    /// name.
    pub fn export_command(chosen: &Vec<CommandTemplate>) -> (exported: Trove)
        ensures
            exported.wf(),
            exported@ == merge_spec(Seq::<TemplateView>::empty(), template_views(chosen@)),
    {
        Trove::from_commands(chosen)
    }

    /// The templates whose name holds `query`, of every namespace; all
    /// of them where no query is given.
    pub fn list_commands(&self, query: Option<String>) -> (listed: Trove)
        requires
            self.wf(),
        ensures
            listed.wf(),
            listed@ == filter_spec(
                self.trove@,
                match query {
                    Some(text) => text@,
                    None => Seq::<char>::empty(),
                },
                ALL_NAMESPACES@,
            ),
    {
        let text = match query {
            Some(text) => text,
            None => String::new(),
        };
        filter(&self.trove, text.as_str(), ALL_NAMESPACES)
    }

    /// Takes `parameter_token` as the mark of a placeholder from now on.
    pub fn set_parameter_token(&mut self, parameter_token: String)
        ensures
            final(self).trove == old(self).trove,
            final(self).config.trove_path == old(self).config.trove_path,
            final(self).config.parameter_ending_token == old(self).config.parameter_ending_token,
            final(self).config.parameter_token == Some(parameter_token),
    {
        self.config.parameter_token = Some(parameter_token);
    }

    /// Puts `edited` in the place of the templates called `name`: they
    /// leave the store, and `edited` comes in, taking the place of the
    /// template under its own namespace and name if one is left. Fails,
    /// and changes nothing, where no template is called `name`.
    pub fn edit_command(&mut self, name: &String, edited: CommandTemplate) -> (result: Result<
        (),
        StoreError,
    >)
        requires
            old(self).wf(),
        ensures
            final(self).wf(),
            final(self).config == old(self).config,
            result == if old(self).trove@.filter(not_named(name@)).len() == old(self).trove@.len() {
                Err::<(), StoreError>(StoreError::NotFound)
            } else {
                Ok(())
            },
            final(self).trove@ == if result is Ok {
                add_spec(old(self).trove@.filter(not_named(name@)), edited@, true)
            } else {
                old(self).trove@
            },
    {
        match self.trove.remove(name) {
            Ok(()) => {
                let _ = self.trove.add(edited, true);
                Ok(())
            },
            Err(error) => Err(error),
        }
    }
}

} // verus!
