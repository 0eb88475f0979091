//! The placeholders of a command: parsing a command into literal text
//! and placeholders, and filling the placeholders in.

use crate::text::{
    chars_of, contains, find, find_from, lemma_contains_find, lemma_find_from, occurs_at,
    slice_string, texts,
};
use vstd::prelude::*;

verus! {

/// A substitution point of a command string.
#[derive(Debug, PartialEq, Eq)]
pub enum Placeholder {
    /// A bare token: every occurrence is a slot of its own.
    Positional,
    /// A delimited identifier: all occurrences of one identifier share a value.
    Named(String),
}

/// One piece of a parsed command string.
#[derive(Debug, PartialEq, Eq)]
pub enum Segment {
    /// Text that stays as it is.
    Literal(String),
    /// A substitution point.
    Slot(Placeholder),
}

pub enum PlaceholderView {
    Positional,
    Named(Seq<char>),
}

pub enum SegmentView {
    Literal(Seq<char>),
    Slot(PlaceholderView),
}

impl View for Placeholder {
    type V = PlaceholderView;

    open spec fn view(&self) -> PlaceholderView {
        match self {
            Placeholder::Positional => PlaceholderView::Positional,
            Placeholder::Named(identifier) => PlaceholderView::Named(identifier@),
        }
    }
}

impl View for Segment {
    type V = SegmentView;

    open spec fn view(&self) -> SegmentView {
        match self {
            Segment::Literal(text) => SegmentView::Literal(text@),
            Segment::Slot(placeholder) => SegmentView::Slot(placeholder@),
        }
    }
}

/// The views of a run of segments.
pub open spec fn segment_views(segments: Seq<Segment>) -> Seq<SegmentView> {
    Seq::new(segments.len(), |i: int| segments[i]@)
}

/// The views of a run of placeholders.
pub open spec fn placeholder_views(placeholders: Seq<Placeholder>) -> Seq<PlaceholderView> {
    Seq::new(placeholders.len(), |i: int| placeholders[i]@)
}

/// A literal segment for `text`, or nothing where `text` is empty.
pub open spec fn literal_part(text: Seq<char>) -> Seq<SegmentView> {
    if text.len() == 0 {
        seq![]
    } else {
        seq![SegmentView::Literal(text)]
    }
}

/// The segments of `command` from position `start` on.
///
/// The next `token` opens a placeholder. Under the named reading, an
/// `ending` behind it closes a named placeholder whose identifier is the
/// text in between; without one the token counts as a bare, positional
/// slot. An empty `token` marks nothing.
pub open spec fn parse_from(
    command: Seq<char>,
    token: Seq<char>,
    ending: Seq<char>,
    named: bool,
    start: int,
) -> Seq<SegmentView>
    decreases command.len() + 1 - start,
    via parse_from_decreases
{
    let open = find_from(command, token, start);
    if token.len() == 0 || start < 0 || open < 0 {
        literal_part(command.subrange(start, command.len() as int))
    } else {
        let close = if named {
            find_from(command, ending, open + token.len())
        } else {
            -1
        };
        if close >= 0 {
            literal_part(command.subrange(start, open)) + seq![
                SegmentView::Slot(
                    PlaceholderView::Named(command.subrange(open + token.len(), close)),
                ),
            ] + parse_from(command, token, ending, named, close + ending.len())
        } else {
            literal_part(command.subrange(start, open)) + seq![
                SegmentView::Slot(PlaceholderView::Positional),
            ] + parse_from(command, token, ending, named, open + token.len())
        }
    }
}

#[via_fn]
proof fn parse_from_decreases(
    command: Seq<char>,
    token: Seq<char>,
    ending: Seq<char>,
    named: bool,
    start: int,
) {
    if start >= 0 {
        lemma_find_from(command, token, start);
        let open = find_from(command, token, start);
        if open >= 0 {
            lemma_find_from(command, ending, open + token.len());
        }
    }
}

/// The segments of `command`: the named reading applies exactly where
/// `ending` occurs in `command` at all.
pub open spec fn parse_spec(command: Seq<char>, token: Seq<char>, ending: Seq<char>) -> Seq<
    SegmentView,
> {
    parse_from(command, token, ending, contains(command, ending), 0)
}

/// Appends the literal segment for `chars[from..to]`, if it is not empty.
fn push_literal(segments: &mut Vec<Segment>, chars: &Vec<char>, from: usize, to: usize)
    requires
        from <= to <= chars.len(),
    ensures
        segment_views(final(segments)@) == segment_views(old(segments)@) + literal_part(
            chars@.subrange(from as int, to as int),
        ),
{
    if from < to {
        let text = slice_string(chars, from, to);
        segments.push(Segment::Literal(text));
        assert(segment_views(segments@) =~= segment_views(old(segments)@) + literal_part(
            chars@.subrange(from as int, to as int),
        ));
    } else {
        assert(segment_views(segments@) =~= segment_views(old(segments)@) + literal_part(
            chars@.subrange(from as int, to as int),
        ));
    }
}

/// Appends one placeholder segment.
fn push_slot(segments: &mut Vec<Segment>, placeholder: Placeholder)
    ensures
        segment_views(final(segments)@) == segment_views(old(segments)@).push(
            SegmentView::Slot(placeholder@),
        ),
{
    segments.push(Segment::Slot(placeholder));
    assert(segment_views(segments@) =~= segment_views(old(segments)@).push(
        SegmentView::Slot(placeholder@),
    ));
}

/// Splits `command` into literal text and placeholders.
pub fn parse(command: &str, token: &str, ending: &str) -> (segments: Vec<Segment>)
    ensures
        segment_views(segments@) == parse_spec(command@, token@, ending@),
{
    let chars = chars_of(command);
    let open_mark = chars_of(token);
    let close_mark = chars_of(ending);
    let mut segments: Vec<Segment> = Vec::new();
    assert(segment_views(segments@) =~= Seq::<SegmentView>::empty());
    let named = find(&chars, &close_mark, 0).is_some();
    proof {
        lemma_contains_find(chars@, close_mark@);
    }
    if open_mark.len() == 0 {
        push_literal(&mut segments, &chars, 0, chars.len());
        return segments;
    }
    let mut start: usize = 0;
    loop
        invariant
            chars@ == command@,
            open_mark@ == token@,
            close_mark@ == ending@,
            open_mark.len() > 0,
            named == contains(chars@, close_mark@),
            start <= chars.len(),
            segment_views(segments@) + parse_from(
                chars@,
                open_mark@,
                close_mark@,
                named,
                start as int,
            ) == parse_spec(chars@, open_mark@, close_mark@),
        decreases chars.len() - start,
    {
        let ghost rest = parse_from(chars@, open_mark@, close_mark@, named, start as int);
        let ghost before = segment_views(segments@);
        proof {
            lemma_find_from(chars@, open_mark@, start as int);
        }
        match find(&chars, &open_mark, start) {
            None => {
                push_literal(&mut segments, &chars, start, chars.len());
                return segments;
            },
            Some(open) => {
                let after_open: usize = open + open_mark.len();
                proof {
                    lemma_find_from(chars@, close_mark@, after_open as int);
                }
                let close = if named {
                    find(&chars, &close_mark, after_open)
                } else {
                    None
                };
                push_literal(&mut segments, &chars, start, open);
                match close {
                    Some(close) => {
                        let identifier = slice_string(&chars, after_open, close);
                        push_slot(&mut segments, Placeholder::Named(identifier));
                        start = close + close_mark.len();
                    },
                    None => {
                        push_slot(&mut segments, Placeholder::Positional);
                        start = after_open;
                    },
                }
                proof {
                    let tail = parse_from(chars@, open_mark@, close_mark@, named, start as int);
                    assert(segment_views(segments@) + tail =~= before + rest);
                }
            },
        }
    }
}

/// The position of the first `Named(identifier)` among `slots`, or -1.
pub open spec fn named_index(slots: Seq<PlaceholderView>, identifier: Seq<char>) -> int
    decreases slots.len(),
{
    if slots.len() == 0 {
        -1
    } else {
        let earlier = named_index(slots.drop_last(), identifier);
        if earlier >= 0 {
            earlier
        } else if slots.last() == PlaceholderView::Named(identifier) {
            slots.len() - 1
        } else {
            -1
        }
    }
}

/// The logical placeholders of `segments`, in the order of their first
/// occurrence: one for each positional slot, one for each distinct
/// identifier.
pub open spec fn slots(segments: Seq<SegmentView>) -> Seq<PlaceholderView>
    decreases segments.len(),
{
    if segments.len() == 0 {
        seq![]
    } else {
        let before = slots(segments.drop_last());
        match segments.last() {
            SegmentView::Literal(_) => before,
            SegmentView::Slot(PlaceholderView::Positional) => before.push(
                PlaceholderView::Positional,
            ),
            SegmentView::Slot(PlaceholderView::Named(identifier)) => if named_index(
                before,
                identifier,
            ) >= 0 {
                before
            } else {
                before.push(PlaceholderView::Named(identifier))
            },
        }
    }
}

/// The text of `segments` once the logical placeholder of ordinal `k` has
/// been replaced by `values[k]`, for every `k`.
pub open spec fn render(segments: Seq<SegmentView>, values: Seq<Seq<char>>) -> Seq<char>
    decreases segments.len(),
{
    if segments.len() == 0 {
        seq![]
    } else {
        let head = segments.drop_last();
        render(head, values) + match segments.last() {
            SegmentView::Literal(text) => text,
            SegmentView::Slot(PlaceholderView::Positional) => values[slots(head).len() as int],
            SegmentView::Slot(PlaceholderView::Named(identifier)) => values[named_index(
                slots(segments),
                identifier,
            )],
        }
    }
}

/// `named_index` is -1 or a position in `slots` that holds the identifier.
pub proof fn lemma_named_index(slots: Seq<PlaceholderView>, identifier: Seq<char>)
    ensures
        -1 <= named_index(slots, identifier) < slots.len(),
        named_index(slots, identifier) >= 0 ==> slots[named_index(slots, identifier)]
            == PlaceholderView::Named(identifier),
    decreases slots.len(),
{
    if slots.len() > 0 {
        lemma_named_index(slots.drop_last(), identifier);
    }
}

/// The placeholders of a prefix are a prefix of the placeholders.
pub proof fn lemma_slots_prefix(segments: Seq<SegmentView>, k: int)
    requires
        0 <= k <= segments.len(),
    ensures
        slots(segments.take(k)).len() <= slots(segments).len(),
        slots(segments.take(k)) == slots(segments).take(slots(segments.take(k)).len() as int),
    decreases segments.len() - k,
{
    if k == segments.len() {
        assert(segments.take(k) =~= segments);
        assert(slots(segments).take(slots(segments).len() as int) =~= slots(segments));
    } else {
        lemma_slots_prefix(segments, k + 1);
        let longer = segments.take(k + 1);
        assert(longer.drop_last() =~= segments.take(k));
        let short = slots(segments.take(k));
        assert(short =~= slots(longer).take(short.len() as int));
        assert(short =~= slots(segments).take(short.len() as int));
    }
}

/// The position of the first `Named(identifier)` among `found`.
fn find_named(found: &Vec<Placeholder>, identifier: &String) -> (at: Option<usize>)
    ensures
        match at {
            Some(i) => i as int == named_index(placeholder_views(found@), identifier@),
            None => named_index(placeholder_views(found@), identifier@) == -1,
        },
{
    let ghost all = placeholder_views(found@);
    let mut i: usize = 0;
    while i < found.len()
        invariant
            i <= found.len(),
            all == placeholder_views(found@),
            named_index(all.take(i as int), identifier@) == -1,
        decreases found.len() - i,
    {
        assert(all.take(i + 1).drop_last() =~= all.take(i as int));
        let hit = match &found[i] {
            Placeholder::Named(name) => *name == *identifier,
            Placeholder::Positional => false,
        };
        if hit {
            proof {
                lemma_named_at(all, identifier@, i as int);
            }
            return Some(i);
        }
        i += 1;
    }
    assert(all.take(found.len() as int) =~= all);
    None
}

/// A first hit at `i` is what `named_index` returns for the whole run.
proof fn lemma_named_at(slots: Seq<PlaceholderView>, identifier: Seq<char>, i: int)
    requires
        0 <= i < slots.len(),
        named_index(slots.take(i), identifier) == -1,
        slots[i] == PlaceholderView::Named(identifier),
    ensures
        named_index(slots, identifier) == i,
    decreases slots.len() - i,
{
    assert(slots.take(i + 1).drop_last() =~= slots.take(i));
    assert(named_index(slots.take(i + 1), identifier) == i);
    lemma_named_kept(slots, identifier, i + 1);
}

/// A hit within a prefix is the hit of the whole run.
proof fn lemma_named_kept(slots: Seq<PlaceholderView>, identifier: Seq<char>, k: int)
    requires
        0 <= k <= slots.len(),
        named_index(slots.take(k), identifier) >= 0,
    ensures
        named_index(slots, identifier) == named_index(slots.take(k), identifier),
    decreases slots.len() - k,
{
    if k == slots.len() {
        assert(slots.take(k) =~= slots);
    } else {
        assert(slots.take(k + 1).drop_last() =~= slots.take(k));
        lemma_named_kept(slots, identifier, k + 1);
    }
}

/// The logical placeholders of `segments`, in the order in which they are
/// to be filled in.
pub fn placeholders(segments: &Vec<Segment>) -> (found: Vec<Placeholder>)
    ensures
        placeholder_views(found@) == slots(segment_views(segments@)),
{
    let ghost all = segment_views(segments@);
    let mut found: Vec<Placeholder> = Vec::new();
    assert(placeholder_views(found@) =~= slots(all.take(0)));
    let mut k: usize = 0;
    while k < segments.len()
        invariant
            k <= segments.len(),
            all == segment_views(segments@),
            placeholder_views(found@) == slots(all.take(k as int)),
        decreases segments.len() - k,
    {
        let ghost before = placeholder_views(found@);
        assert(all.take(k + 1).drop_last() =~= all.take(k as int));
        assert(all.take(k + 1).last() == segments@[k as int]@);
        match &segments[k] {
            Segment::Literal(_) => {},
            Segment::Slot(Placeholder::Positional) => {
                found.push(Placeholder::Positional);
                assert(placeholder_views(found@) =~= before.push(PlaceholderView::Positional));
            },
            Segment::Slot(Placeholder::Named(identifier)) => {
                if find_named(&found, identifier).is_none() {
                    found.push(Placeholder::Named(identifier.clone()));
                    assert(placeholder_views(found@) =~= before.push(
                        PlaceholderView::Named(identifier@),
                    ));
                }
            },
        }
        k += 1;
    }
    assert(all.take(segments.len() as int) =~= all);
    found
}

/// The placeholder to ask for once `provided` values are in hand, with
/// its ordinal; `None` once every placeholder has its value.
pub fn next_placeholder(segments: &Vec<Segment>, provided: usize) -> (next: Option<
    (usize, Placeholder),
>)
    ensures
        match next {
            Some((ordinal, kind)) => provided < slots(segment_views(segments@)).len() && ordinal
                == provided && kind@ == slots(segment_views(segments@))[provided as int],
            None => provided >= slots(segment_views(segments@)).len(),
        },
{
    let mut found = placeholders(segments);
    if provided < found.len() {
        let kind = found.swap_remove(provided);
        Some((provided, kind))
    } else {
        None
    }
}

/// Fills in the placeholders of `segments`: the logical placeholder of
/// ordinal `k` takes `values[k]`. The text of `values` is put in as it is.
/// `None` where the number of values is not the number of placeholders.
pub fn resolve(segments: &Vec<Segment>, values: &Vec<String>) -> (resolved: Option<String>)
    ensures
        match resolved {
            Some(text) => values.len() == slots(segment_views(segments@)).len() && text@
                == render(segment_views(segments@), texts(values@)),
            None => values.len() != slots(segment_views(segments@)).len(),
        },
{
    let ghost all = segment_views(segments@);
    let needed = placeholders(segments);
    if needed.len() != values.len() {
        return None;
    }
    let mut seen: Vec<Placeholder> = Vec::new();
    let mut text = String::new();
    assert(placeholder_views(seen@) =~= slots(all.take(0)));
    let mut k: usize = 0;
    while k < segments.len()
        invariant
            k <= segments.len(),
            all == segment_views(segments@),
            values.len() == slots(all).len(),
            placeholder_views(seen@) == slots(all.take(k as int)),
            text@ == render(all.take(k as int), texts(values@)),
        decreases segments.len() - k,
    {
        let ghost before = placeholder_views(seen@);
        let ghost longer = all.take(k + 1);
        assert(longer.drop_last() =~= all.take(k as int));
        assert(longer.last() == segments@[k as int]@);
        proof {
            lemma_slots_prefix(all, k + 1);
        }
        match &segments[k] {
            Segment::Literal(piece) => {
                text.append(piece.as_str());
            },
            Segment::Slot(Placeholder::Positional) => {
                let ordinal: usize = seen.len();
                seen.push(Placeholder::Positional);
                assert(placeholder_views(seen@) =~= before.push(PlaceholderView::Positional));
                text.append(values[ordinal].as_str());
            },
            Segment::Slot(Placeholder::Named(identifier)) => {
                proof {
                    lemma_named_index(before, identifier@);
                }
                let ordinal: usize = match find_named(&seen, identifier) {
                    Some(at) => at,
                    None => {
                        let at: usize = seen.len();
                        seen.push(Placeholder::Named(identifier.clone()));
                        assert(placeholder_views(seen@) =~= before.push(
                            PlaceholderView::Named(identifier@),
                        ));
                        at
                    },
                };
                assert(ordinal as int == named_index(slots(longer), identifier@)) by {
                    assert(slots(longer).drop_last() =~= before || slots(longer) == before);
                }
                text.append(values[ordinal].as_str());
            },
        }
        k += 1;
    }
    assert(all.take(segments.len() as int) =~= all);
    Some(text)
}

/// Parses `command` and fills in its placeholders with `values`.
pub fn resolve_command(command: &str, token: &str, ending: &str, values: &Vec<String>) -> (resolved:
    Option<String>)
    ensures
        match resolved {
            Some(text) => values.len() == slots(parse_spec(command@, token@, ending@)).len()
                && text@ == render(parse_spec(command@, token@, ending@), texts(values@)),
            None => values.len() != slots(parse_spec(command@, token@, ending@)).len(),
        },
{
    let segments = parse(command, token, ending);
    resolve(&segments, values)
}

/// The text that `segments` were read from: a literal stands for
/// itself, a positional slot for the token, a named slot for its
/// identifier between the token and the ending token.
pub open spec fn source_text(
    segments: Seq<SegmentView>,
    token: Seq<char>,
    ending: Seq<char>,
) -> Seq<char>
    decreases segments.len(),
{
    if segments.len() == 0 {
        seq![]
    } else {
        source_text(segments.drop_last(), token, ending) + match segments.last() {
            SegmentView::Literal(text) => text,
            SegmentView::Slot(PlaceholderView::Positional) => token,
            SegmentView::Slot(PlaceholderView::Named(identifier)) => token + identifier + ending,
        }
    }
}

/// The source text of two runs of segments is that of the first followed
/// by that of the second.
pub proof fn lemma_source_text_concat(
    a: Seq<SegmentView>,
    b: Seq<SegmentView>,
    token: Seq<char>,
    ending: Seq<char>,
)
    ensures
        source_text(a + b, token, ending) == source_text(a, token, ending) + source_text(
            b,
            token,
            ending,
        ),
    decreases b.len(),
{
    if b.len() == 0 {
        assert(a + b =~= a);
        assert(source_text(a, token, ending) + source_text(b, token, ending) =~= source_text(
            a,
            token,
            ending,
        ));
    } else {
        assert((a + b).drop_last() =~= a + b.drop_last());
        assert((a + b).last() == b.last());
        lemma_source_text_concat(a, b.drop_last(), token, ending);
        assert(source_text(a + b, token, ending) =~= source_text(a, token, ending) + source_text(
            b,
            token,
            ending,
        ));
    }
}

/// The segments from `start` on spell the command from `start` on.
proof fn lemma_parse_from_lossless(
    command: Seq<char>,
    token: Seq<char>,
    ending: Seq<char>,
    named: bool,
    start: int,
)
    requires
        0 <= start <= command.len(),
    ensures
        source_text(parse_from(command, token, ending, named, start), token, ending)
            == command.subrange(start, command.len() as int),
    decreases command.len() - start,
{
    let open = find_from(command, token, start);
    let end = command.len() as int;
    lemma_find_from(command, token, start);
    if token.len() == 0 || open < 0 {
        lemma_literal_part(command.subrange(start, end), token, ending);
    } else {
        lemma_find_from(command, ending, open + token.len());
        let close = if named {
            find_from(command, ending, open + token.len())
        } else {
            -1
        };
        let head = literal_part(command.subrange(start, open));
        lemma_literal_part(command.subrange(start, open), token, ending);
        if close >= 0 {
            let slot = seq![
                SegmentView::Slot(
                    PlaceholderView::Named(command.subrange(open + token.len(), close)),
                ),
            ];
            let next = close + ending.len();
            let tail = parse_from(command, token, ending, named, next);
            lemma_parse_from_lossless(command, token, ending, named, next);
            lemma_source_text_concat(head + slot, tail, token, ending);
            lemma_source_text_concat(head, slot, token, ending);
            assert(slot.drop_last() =~= Seq::<SegmentView>::empty());
            assert(source_text(slot.drop_last(), token, ending) =~= Seq::<char>::empty());
            assert(source_text(slot, token, ending) =~= token + command.subrange(
                open + token.len(),
                close,
            ) + ending);
            assert(command.subrange(start, end) =~= command.subrange(start, open) + (token
                + command.subrange(open + token.len(), close) + ending) + command.subrange(
                next,
                end,
            ));
        } else {
            let slot = seq![SegmentView::Slot(PlaceholderView::Positional)];
            let next = open + token.len();
            let tail = parse_from(command, token, ending, named, next);
            lemma_parse_from_lossless(command, token, ending, named, next);
            lemma_source_text_concat(head + slot, tail, token, ending);
            lemma_source_text_concat(head, slot, token, ending);
            assert(slot.drop_last() =~= Seq::<SegmentView>::empty());
            assert(source_text(slot.drop_last(), token, ending) =~= Seq::<char>::empty());
            assert(source_text(slot, token, ending) =~= token);
            assert(command.subrange(start, end) =~= command.subrange(start, open) + token
                + command.subrange(next, end));
        }
    }
}

/// A literal part spells its text.
proof fn lemma_literal_part(text: Seq<char>, token: Seq<char>, ending: Seq<char>)
    ensures
        source_text(literal_part(text), token, ending) == text,
{
    if text.len() > 0 {
        let part = literal_part(text);
        assert(part.drop_last() =~= Seq::<SegmentView>::empty());
        assert(source_text(part.drop_last(), token, ending) =~= Seq::<char>::empty());
        assert(source_text(part, token, ending) =~= text);
    } else {
        assert(source_text(literal_part(text), token, ending) =~= text);
    }
}

/// Parsing loses nothing: the segments of a command spell the command.
pub proof fn lemma_parse_lossless(command: Seq<char>, token: Seq<char>, ending: Seq<char>)
    ensures
        source_text(parse_spec(command, token, ending), token, ending) == command,
{
    lemma_parse_from_lossless(command, token, ending, contains(command, ending), 0);
    assert(command.subrange(0, command.len() as int) =~= command);
}

/// Segments without placeholders resolve to the text they were read
/// from, whatever the values.
pub proof fn lemma_render_without_slots(
    segments: Seq<SegmentView>,
    values: Seq<Seq<char>>,
    token: Seq<char>,
    ending: Seq<char>,
)
    requires
        slots(segments).len() == 0,
    ensures
        render(segments, values) == source_text(segments, token, ending),
    decreases segments.len(),
{
    if segments.len() > 0 {
        let head = segments.drop_last();
        match segments.last() {
            SegmentView::Literal(_) => {
                lemma_render_without_slots(head, values, token, ending);
            },
            SegmentView::Slot(PlaceholderView::Positional) => {},
            SegmentView::Slot(PlaceholderView::Named(identifier)) => {
                lemma_named_index(slots(head), identifier);
            },
        }
    }
}

/// A command without placeholders resolves to itself.
pub proof fn lemma_plain_command_resolves_to_itself(
    command: Seq<char>,
    token: Seq<char>,
    ending: Seq<char>,
    values: Seq<Seq<char>>,
)
    requires
        slots(parse_spec(command, token, ending)).len() == 0,
    ensures
        render(parse_spec(command, token, ending), values) == command,
{
    lemma_render_without_slots(parse_spec(command, token, ending), values, token, ending);
    lemma_parse_lossless(command, token, ending);
}

} // verus!
