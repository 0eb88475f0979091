//! A command template and its tags.

use crate::text::{
    char_is_whitespace, chars_of, contains_text, is_whitespace, joined, same_texts, string_of,
    texts,
};
use vstd::prelude::*;

verus! {

/// The namespace of a template that names none.
pub const DEFAULT_NAMESPACE: &'static str = "default";

/// A stored command snippet with its metadata.
#[derive(Debug, PartialEq, Eq)]
pub struct CommandTemplate {
    /// Stays the same when the template is renamed.
    pub identity: u64,
    pub name: String,
    pub namespace: String,
    /// The raw command text, placeholders included.
    pub command: String,
    pub description: String,
    pub tags: Vec<String>,
    /// How often the template was resolved and handed out.
    pub usage_count: u64,
    pub created: u64,
    pub modified: u64,
    pub last_used: u64,
}

pub struct TemplateView {
    pub identity: u64,
    pub name: Seq<char>,
    pub namespace: Seq<char>,
    pub command: Seq<char>,
    pub description: Seq<char>,
    pub tags: Seq<Seq<char>>,
    pub usage_count: u64,
    pub created: u64,
    pub modified: u64,
    pub last_used: u64,
}

impl View for CommandTemplate {
    type V = TemplateView;

    open spec fn view(&self) -> TemplateView {
        TemplateView {
            identity: self.identity,
            name: self.name@,
            namespace: self.namespace@,
            command: self.command@,
            description: self.description@,
            tags: texts(self.tags@),
            usage_count: self.usage_count,
            created: self.created,
            modified: self.modified,
            last_used: self.last_used,
        }
    }
}

/// A copy of `strings`, text for text.
pub fn clone_strings(strings: &Vec<String>) -> (copy: Vec<String>)
    ensures
        texts(copy@) == texts(strings@),
{
    let mut copy: Vec<String> = Vec::new();
    let mut i: usize = 0;
    while i < strings.len()
        invariant
            i <= strings.len(),
            copy.len() == i,
            forall|k: int| 0 <= k < i ==> copy@[k]@ == strings@[k]@,
        decreases strings.len() - i,
    {
        copy.push(strings[i].clone());
        i += 1;
    }
    assert(texts(copy@) =~= texts(strings@));
    copy
}

impl Clone for CommandTemplate {
    fn clone(&self) -> (copy: Self)
        ensures
            copy@ == self@,
    {
        CommandTemplate {
            identity: self.identity,
            name: self.name.clone(),
            namespace: self.namespace.clone(),
            command: self.command.clone(),
            description: self.description.clone(),
            tags: clone_strings(&self.tags),
            usage_count: self.usage_count,
            created: self.created,
            modified: self.modified,
            last_used: self.last_used,
        }
    }
}

/// The later of two points in time.
pub open spec fn later(a: u64, b: u64) -> u64 {
    if a >= b {
        a
    } else {
        b
    }
}

/// The later of two points in time.
pub fn later_of(a: u64, b: u64) -> (t: u64)
    ensures
        t == later(a, b),
{
    if a >= b {
        a
    } else {
        b
    }
}

/// `count` plus one, held at the largest value.
pub open spec fn bumped(count: u64) -> u64 {
    if count < u64::MAX {
        (count + 1) as u64
    } else {
        count
    }
}

impl CommandTemplate {
    /// Both templates stand under one namespace and one name.
    pub open spec fn same_key(a: TemplateView, b: TemplateView) -> bool {
        a.namespace == b.namespace && a.name == b.name
    }

    /// Whether both templates stand under one namespace and one name.
    pub fn has_key_of(&self, other: &CommandTemplate) -> (same: bool)
        ensures
            same == Self::same_key(self@, other@),
    {
        self.namespace == other.namespace && self.name == other.name
    }

    /// Whether both templates are the same in every part.
    pub fn same_as(&self, other: &CommandTemplate) -> (same: bool)
        ensures
            same == (self@ == other@),
    {
        self.identity == other.identity && self.name == other.name && self.namespace
            == other.namespace && self.command == other.command && self.description
            == other.description && same_texts(&self.tags, &other.tags) && self.usage_count
            == other.usage_count && self.created == other.created && self.modified
            == other.modified && self.last_used == other.last_used
    }

    /// The template after one more use at time `now`: the count goes up
    /// by one and the time of the last use never moves back.
    pub open spec fn used(t: TemplateView, now: u64) -> TemplateView {
        TemplateView { usage_count: bumped(t.usage_count), last_used: later(t.last_used, now), ..t }
    }

    /// Counts one use at time `now`.
    pub fn record_use(&mut self, now: u64)
        ensures
            final(self)@ == Self::used(old(self)@, now),
    {
        if self.usage_count < u64::MAX {
            self.usage_count = self.usage_count + 1;
        }
        self.last_used = later_of(self.last_used, now);
    }
}

/// The pieces between the commas of `text`, white space left out.
pub open spec fn tag_pieces(text: Seq<char>) -> Seq<Seq<char>>
    decreases text.len(),
{
    if text.len() == 0 {
        seq![Seq::<char>::empty()]
    } else {
        let head = tag_pieces(text.drop_last());
        let c = text.last();
        if c == ',' {
            head.push(Seq::<char>::empty())
        } else if is_whitespace(c) {
            head
        } else {
            head.drop_last().push(head.last().push(c))
        }
    }
}

/// `pieces` without the empty ones and without repeats: of equal pieces
/// the first one stays.
pub open spec fn nonempty_distinct(pieces: Seq<Seq<char>>) -> Seq<Seq<char>>
    decreases pieces.len(),
{
    if pieces.len() == 0 {
        seq![]
    } else {
        let before = nonempty_distinct(pieces.drop_last());
        if pieces.last().len() == 0 || before.contains(pieces.last()) {
            before
        } else {
            before.push(pieces.last())
        }
    }
}

/// The tags that `text` spells: its pieces between commas, white space
/// left out, each once, none empty.
pub open spec fn tags_spec(text: Seq<char>) -> Seq<Seq<char>> {
    nonempty_distinct(tag_pieces(text))
}

/// There is always a piece, if an empty one.
pub proof fn lemma_tag_pieces_len(text: Seq<char>)
    ensures
        tag_pieces(text).len() >= 1,
    decreases text.len(),
{
    if text.len() > 0 {
        lemma_tag_pieces_len(text.drop_last());
    }
}

/// Ends a piece: it joins `tags` unless it is empty or already there.
fn close_piece(tags: &mut Vec<String>, piece: &Vec<char>, Ghost(pieces): Ghost<Seq<Seq<char>>>)
    requires
        pieces.len() >= 1,
        texts(old(tags)@) == nonempty_distinct(pieces.drop_last()),
        piece@ == pieces.last(),
    ensures
        texts(final(tags)@) == nonempty_distinct(pieces),
{
    if piece.len() > 0 {
        let tag = string_of(piece);
        if !contains_text(tags, &tag) {
            tags.push(tag);
            assert(texts(tags@) =~= texts(old(tags)@).push(piece@));
        }
    }
}

/// Reads a comma-separated list of tags.
pub fn parse_tags(text: &str) -> (tags: Vec<String>)
    ensures
        texts(tags@) == tags_spec(text@),
{
    let chars = chars_of(text);
    let mut tags: Vec<String> = Vec::new();
    let mut piece: Vec<char> = Vec::new();
    let mut k: usize = 0;
    assert(texts(tags@) =~= nonempty_distinct(tag_pieces(chars@.take(0)).drop_last()));
    while k < chars.len()
        invariant
            k <= chars.len(),
            tag_pieces(chars@.take(k as int)).len() >= 1,
            texts(tags@) == nonempty_distinct(tag_pieces(chars@.take(k as int)).drop_last()),
            piece@ == tag_pieces(chars@.take(k as int)).last(),
        decreases chars.len() - k,
    {
        let ghost before = tag_pieces(chars@.take(k as int));
        assert(chars@.take(k + 1).drop_last() =~= chars@.take(k as int));
        proof {
            lemma_tag_pieces_len(chars@.take(k + 1));
        }
        let c = chars[k];
        if c == ',' {
            close_piece(&mut tags, &piece, Ghost(before));
            piece = Vec::new();
            assert(before.push(Seq::<char>::empty()).drop_last() =~= before);
        } else if !char_is_whitespace(c) {
            piece.push(c);
            assert(before.drop_last().push(before.last().push(c)).drop_last()
                =~= before.drop_last());
        }
        k += 1;
    }
    assert(chars@.take(chars.len() as int) =~= chars@);
    close_piece(&mut tags, &piece, Ghost(tag_pieces(chars@)));
    tags
}

/// The tags as one comma-separated text.
pub fn tags_to_string(tags: &Vec<String>) -> (text: String)
    ensures
        text@ == joined(texts(tags@), ','),
{
    let ghost all = texts(tags@);
    let mut text = String::new();
    let mut i: usize = 0;
    assert(text@ =~= joined(all.take(0), ','));
    while i < tags.len()
        invariant
            i <= tags.len(),
            all == texts(tags@),
            text@ == joined(all.take(i as int), ','),
        decreases tags.len() - i,
    {
        assert(all.take(i + 1).drop_last() =~= all.take(i as int));
        if i > 0 {
            text.append(",");
            proof {
                reveal_strlit(",");
            }
            assert(","@ =~= seq![',']);
        }
        text.append(tags[i].as_str());
        i += 1;
        assert(text@ =~= joined(all.take(i as int), ','));
    }
    assert(all.take(tags.len() as int) =~= all);
    text
}

/// What is known of a template before it is made: any part may be
/// missing.
#[derive(Debug, PartialEq, Eq)]
pub struct TemplateDraft {
    pub name: Option<String>,
    pub namespace: Option<String>,
    pub command: Option<String>,
    pub description: Option<String>,
    /// The tags as a comma-separated list.
    pub tags: Option<String>,
}

pub struct DraftView {
    pub name: Option<Seq<char>>,
    pub namespace: Option<Seq<char>>,
    pub command: Option<Seq<char>>,
    pub description: Option<Seq<char>>,
    pub tags: Option<Seq<char>>,
}

/// The text of a string that may be missing.
pub open spec fn text_of(s: Option<String>) -> Option<Seq<char>> {
    match s {
        Some(s) => Some(s@),
        None => None,
    }
}

impl View for TemplateDraft {
    type V = DraftView;

    open spec fn view(&self) -> DraftView {
        DraftView {
            name: text_of(self.name),
            namespace: text_of(self.namespace),
            command: text_of(self.command),
            description: text_of(self.description),
            tags: text_of(self.tags),
        }
    }
}

/// A draft can be made into a template where it has a name that is not
/// empty, and a command.
pub open spec fn complete(draft: DraftView) -> bool {
    &&& draft.name is Some
    &&& draft.name->0.len() > 0
    &&& draft.command is Some
}

/// The template that a complete draft makes at time `now`: the namespace
/// is the default one and the description empty where the draft has
/// none, the tags are read from the draft's list, and the template was
/// never used.
pub open spec fn drafted(draft: DraftView, identity: u64, now: u64) -> TemplateView {
    TemplateView {
        identity,
        name: draft.name->0,
        namespace: match draft.namespace {
            Some(namespace) => namespace,
            None => DEFAULT_NAMESPACE@,
        },
        command: draft.command->0,
        description: match draft.description {
            Some(description) => description,
            None => Seq::<char>::empty(),
        },
        tags: match draft.tags {
            Some(tags) => tags_spec(tags),
            None => Seq::<Seq<char>>::empty(),
        },
        usage_count: 0,
        created: now,
        modified: now,
        last_used: now,
    }
}

impl CommandTemplate {
    /// Makes a template of `draft`, or nothing where the draft lacks a
    /// name or a command.
    pub fn from_draft(draft: &TemplateDraft, identity: u64, now: u64) -> (template: Option<
        CommandTemplate,
    >)
        ensures
            match template {
                Some(t) => complete(draft@) && t@ == drafted(draft@, identity, now),
                None => !complete(draft@),
            },
    {
        let name = match &draft.name {
            Some(name) => name.clone(),
            None => {
                return None;
            },
        };
        if name.as_str().unicode_len() == 0 {
            return None;
        }
        let command = match &draft.command {
            Some(command) => command.clone(),
            None => {
                return None;
            },
        };
        let namespace = match &draft.namespace {
            Some(namespace) => namespace.clone(),
            None => DEFAULT_NAMESPACE.to_owned(),
        };
        let description = match &draft.description {
            Some(description) => description.clone(),
            None => String::new(),
        };
        let tags = match &draft.tags {
            Some(tags) => parse_tags(tags.as_str()),
            None => Vec::new(),
        };
        let template = CommandTemplate {
            identity,
            name,
            namespace,
            command,
            description,
            tags,
            usage_count: 0,
            created: now,
            modified: now,
            last_used: now,
        };
        assert(template@.tags =~= drafted(draft@, identity, now).tags);
        Some(template)
    }
}

/// A use counts once and never moves the time of the last use back; it
/// leaves the rest of the template as it is.
pub proof fn lemma_use_moves_forward(t: TemplateView, now: u64)
    ensures
        CommandTemplate::used(t, now).last_used >= t.last_used,
        CommandTemplate::used(t, now).last_used >= now,
        t.usage_count < u64::MAX ==> CommandTemplate::used(t, now).usage_count == t.usage_count
            + 1,
        CommandTemplate::used(t, now) == (TemplateView {
            usage_count: CommandTemplate::used(t, now).usage_count,
            last_used: CommandTemplate::used(t, now).last_used,
            ..t
        }),
{
}

} // verus!
