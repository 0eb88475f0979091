//! Small computations for showing a template: the bar and the sign of
//! its use, and its name split around a match.

use crate::text::{
    chars_of, find, find_from, lemma_find_from, push_char, slice_string, string_of,
};
use vstd::prelude::*;

verus! {

/// The most ticks that a bar of uses shows.
pub const MAX_TICKS: u64 = 30;

/// The mark for one use in a bar of uses.
pub const TICK: char = '▌';

/// The bar of uses for a template used `usage_count` times: one tick for
/// each use up to the most that a bar shows, and three dots behind a
/// bar that is full.
pub open spec fn ticks_spec(usage_count: u64) -> Seq<char> {
    if usage_count >= MAX_TICKS {
        Seq::new(MAX_TICKS as nat, |i: int| TICK) + seq!['.', '.', '.']
    } else {
        Seq::new(usage_count as nat, |i: int| TICK)
    }
}

/// The bar of uses for a template used `usage_count` times.
pub fn usage_count_to_ticks(usage_count: u64) -> (bar: String)
    ensures
        bar@ == ticks_spec(usage_count),
{
    let shown: u64 = if usage_count >= MAX_TICKS {
        MAX_TICKS
    } else {
        usage_count
    };
    let mut bar = String::new();
    let mut i: u64 = 0;
    assert(bar@ =~= Seq::new(0nat, |k: int| TICK));
    while i < shown
        invariant
            i <= shown,
            bar@ == Seq::new(i as nat, |k: int| TICK),
        decreases shown - i,
    {
        push_char(&mut bar, TICK);
        i += 1;
        assert(bar@ =~= Seq::new(i as nat, |k: int| TICK));
    }
    if usage_count >= MAX_TICKS {
        push_char(&mut bar, '.');
        push_char(&mut bar, '.');
        push_char(&mut bar, '.');
        assert(bar@ =~= ticks_spec(usage_count));
    }
    bar
}

/// The sign for how much a template is used: none for a template never
/// used, a seedling up to two uses, a herb up to four, a fire up to
/// thirty, a skull beyond.
pub open spec fn emoji_spec(usage_count: u64) -> Seq<char> {
    if usage_count == 0 {
        seq![]
    } else if usage_count <= 2 {
        seq!['🌱']
    } else if usage_count <= 4 {
        seq!['🌿']
    } else if usage_count <= 30 {
        seq!['🔥']
    } else {
        seq!['💀']
    }
}

/// The sign for how much a template is used.
pub fn usage_count_to_emoji(usage_count: u64) -> (sign: String)
    ensures
        sign@ == emoji_spec(usage_count),
{
    let mut sign = String::new();
    if usage_count == 0 {
        assert(sign@ =~= emoji_spec(usage_count));
    } else {
        let c = if usage_count <= 2 {
            '🌱'
        } else if usage_count <= 4 {
            '🌿'
        } else if usage_count <= 30 {
            '🔥'
        } else {
            '💀'
        };
        push_char(&mut sign, c);
        assert(sign@ =~= emoji_spec(usage_count));
    }
    sign
}

/// The text before the first occurrence of `search` in `text`, the
/// occurrence itself, and the text behind it; nothing where `search`
/// does not occur.
pub open spec fn highlight_spec(text: Seq<char>, search: Seq<char>) -> Option<
    (Seq<char>, Seq<char>, Seq<char>),
> {
    let at = find_from(text, search, 0);
    if at < 0 {
        None
    } else {
        Some(
            (
                text.subrange(0, at),
                search,
                text.subrange(at + search.len(), text.len() as int),
            ),
        )
    }
}

/// Splits `text` around the first occurrence of `search`, for a line
/// that sets the occurrence off.
pub fn partial_highlighted_line(text: &str, search: &str) -> (parts: Option<
    (String, String, String),
>)
    ensures
        match parts {
            Some((before, hit, after)) => highlight_spec(text@, search@) == Some(
                (before@, hit@, after@),
            ),
            None => highlight_spec(text@, search@) is None,
        },
{
    let hay = chars_of(text);
    let needle = chars_of(search);
    proof {
        lemma_find_from(hay@, needle@, 0);
    }
    match find(&hay, &needle, 0) {
        Some(at) => {
            let before = slice_string(&hay, 0, at);
            let hit = string_of(&needle);
            let after = slice_string(&hay, at + needle.len(), hay.len());
            Some((before, hit, after))
        },
        None => None,
    }
}

} // verus!
