//! The filter over a store, by search text and namespace selector, and
//! the cycle of selectors.

use crate::template::{CommandTemplate, TemplateView};
use crate::selection::{next_index, previous_index, spec_next_index, spec_previous_index};
use crate::text::{
    chars_of, contains, find, find_text, index_of_text, lemma_contains_find, lemma_index_of_text,
    increasing, lemma_insert_sorted_len, lemma_sorted_distinct, sort_distinct, sorted_distinct,
    texts,
};
use crate::trove::{
    lemma_filter_step, lemma_filter_unique, namespaces_of, template_views, Trove,
};
use vstd::prelude::*;

verus! {

/// The namespace selector that lets every namespace through.
pub const ALL_NAMESPACES: &'static str = "All";

/// The lowercase form of a text, as `str::to_lowercase` gives it.
pub uninterp spec fn lowercase(text: Seq<char>) -> Seq<char>;

/// `str::to_lowercase`: the lowercase form of `text` under the Unicode
/// rules of the standard library, a function of the text alone.
#[verifier::external_body]
fn to_lowercase(text: &str) -> (lower: String)
    ensures
        lower@ == lowercase(text@),
{
    text.to_lowercase()
}

/// `template` passes the filter: its name holds `query`, letter case set
/// aside, unless `query` is empty, and its namespace is the selected one,
/// letter case set aside, unless the selector lets all through.
pub open spec fn passes(template: TemplateView, query: Seq<char>, selector: Seq<char>) -> bool {
    &&& (query.len() == 0 || contains(lowercase(template.name), lowercase(query)))
    &&& (selector == ALL_NAMESPACES@ || lowercase(template.namespace) == lowercase(selector))
}

/// The filter for `query` and `selector` as a predicate.
pub open spec fn passing(query: Seq<char>, selector: Seq<char>) -> spec_fn(TemplateView) -> bool {
    |template: TemplateView| passes(template, query, selector)
}

/// What the filter shows of `entries`: those that pass, in their order.
pub open spec fn filter_spec(
    entries: Seq<TemplateView>,
    query: Seq<char>,
    selector: Seq<char>,
) -> Seq<TemplateView> {
    entries.filter(passing(query, selector))
}

/// Whether `name` holds the lowercase `needle`, letter case set aside.
fn name_matches(name: &String, needle: &Vec<char>) -> (hit: bool)
    ensures
        hit == contains(lowercase(name@), needle@),
{
    let lower = to_lowercase(name.as_str());
    let hay = chars_of(lower.as_str());
    proof {
        lemma_contains_find(hay@, needle@);
    }
    find(&hay, needle, 0).is_some()
}

/// The templates of `base` whose name holds `query` and whose namespace
/// `selector` lets through, as a store of their own, in the order of
/// `base`.
pub fn filter(base: &Trove, query: &str, selector: &str) -> (shown: Trove)
    requires
        base.wf(),
    ensures
        shown.wf(),
        shown@ == filter_spec(base@, query@, selector@),
{
    let ghost all = base@;
    let ghost keep = passing(query@, selector@);
    let needle_text = to_lowercase(query);
    let needle = chars_of(needle_text.as_str());
    let every = selector.to_owned() == ALL_NAMESPACES.to_owned();
    let any_name = query.unicode_len() == 0;
    let wanted = to_lowercase(selector);
    let mut kept: Vec<CommandTemplate> = Vec::new();
    let mut i: usize = 0;
    assert(template_views(kept@) =~= all.take(0).filter(keep)) by {
        reveal(Seq::filter);
    }
    while i < base.commands.len()
        invariant
            i <= base.commands.len(),
            all == base@,
            keep == passing(query@, selector@),
            needle@ == lowercase(query@),
            wanted@ == lowercase(selector@),
            every == (selector@ == ALL_NAMESPACES@),
            any_name == (query@.len() == 0),
            template_views(kept@) == all.take(i as int).filter(keep),
        decreases base.commands.len() - i,
    {
        proof {
            lemma_filter_step(all, keep, i as int);
        }
        let template = &base.commands[i];
        let in_namespace = every || to_lowercase(template.namespace.as_str()) == wanted;
        if in_namespace && (any_name || name_matches(&template.name, &needle)) {
            kept.push(template.clone());
            assert(template_views(kept@) =~= all.take(i as int).filter(keep).push(all[i as int]));
        }
        i += 1;
    }
    proof {
        assert(all.take(base.commands.len() as int) =~= all);
        lemma_filter_unique(all, keep);
    }
    Trove { commands: kept }
}

/// An empty query hides nothing: the selector alone decides.
pub proof fn lemma_empty_query(template: TemplateView, selector: Seq<char>)
    ensures
        passes(template, Seq::<char>::empty(), selector) <==> (selector == ALL_NAMESPACES@
            || lowercase(template.namespace) == lowercase(selector)),
{
}

/// The selectors to cycle through: the one that lets all through and the
/// namespaces in use, in the order of a dictionary, each once.
pub open spec fn selectors_spec(entries: Seq<TemplateView>) -> Seq<Seq<char>> {
    sorted_distinct(seq![ALL_NAMESPACES@] + namespaces_of(entries))
}

/// The position in `list` from which cycling starts: that of `current`,
/// or the first where `current` is not in the list.
pub open spec fn selector_index(list: Seq<Seq<char>>, current: Seq<char>) -> int {
    if index_of_text(list, current) >= 0 {
        index_of_text(list, current)
    } else {
        0
    }
}

/// The selector behind `current`, the first one behind the last.
pub open spec fn next_selector_spec(entries: Seq<TemplateView>, current: Seq<char>) -> Seq<char> {
    let list = selectors_spec(entries);
    list[spec_next_index(selector_index(list, current), list.len() as int)]
}

/// The selector before `current`, the last one before the first.
pub open spec fn previous_selector_spec(entries: Seq<TemplateView>, current: Seq<char>) -> Seq<
    char,
> {
    let list = selectors_spec(entries);
    list[spec_previous_index(selector_index(list, current), list.len() as int)]
}

/// There is always a selector to choose.
pub proof fn lemma_selectors_nonempty(entries: Seq<TemplateView>)
    ensures
        selectors_spec(entries).len() >= 1,
{
    let items = seq![ALL_NAMESPACES@] + namespaces_of(entries);
    lemma_insert_sorted_len(sorted_distinct(items.drop_last()), items.last());
}

/// The selectors to cycle through.
pub fn selectors(base: &Trove) -> (list: Vec<String>)
    ensures
        texts(list@) == selectors_spec(base@),
        list.len() >= 1,
{
    let mut items: Vec<String> = Vec::new();
    items.push(ALL_NAMESPACES.to_owned());
    let mut i: usize = 0;
    while i < base.commands.len()
        invariant
            i <= base.commands.len(),
            items.len() == i + 1,
            items@[0]@ == ALL_NAMESPACES@,
            forall|k: int| 1 <= k <= i ==> (#[trigger] items@[k])@ == base@[k - 1].namespace,
        decreases base.commands.len() - i,
    {
        items.push(base.commands[i].namespace.clone());
        i += 1;
    }
    assert(texts(items@) =~= seq![ALL_NAMESPACES@] + namespaces_of(base@)) by {
        assert forall|k: int| 0 <= k < items.len() implies texts(items@)[k] == (seq![
            ALL_NAMESPACES@,
        ] + namespaces_of(base@))[k] by {
            if k >= 1 {
                assert(items@[k]@ == base@[k - 1].namespace);
            }
        }
    }
    proof {
        lemma_selectors_nonempty(base@);
    }
    sort_distinct(&items)
}

/// The selector that follows `current` among those of `base`.
pub fn next_selector(base: &Trove, current: &String) -> (next: String)
    ensures
        next@ == next_selector_spec(base@, current@),
{
    let list = selectors(base);
    proof {
        lemma_index_of_text(texts(list@), current@);
    }
    let at: usize = match find_text(&list, current) {
        Some(at) => at,
        None => 0,
    };
    list[next_index(at, list.len())].clone()
}

/// The selector that precedes `current` among those of `base`.
pub fn previous_selector(base: &Trove, current: &String) -> (previous: String)
    ensures
        previous@ == previous_selector_spec(base@, current@),
{
    let list = selectors(base);
    proof {
        lemma_index_of_text(texts(list@), current@);
    }
    let at: usize = match find_text(&list, current) {
        Some(at) => at,
        None => 0,
    };
    list[previous_index(at, list.len())].clone()
}

/// The selectors stand in the order of a dictionary, none twice, and
/// are the one that lets all through and the namespaces in use.
pub proof fn lemma_selectors(entries: Seq<TemplateView>)
    ensures
        increasing(selectors_spec(entries)),
        forall|x: Seq<char>| #[trigger]
            selectors_spec(entries).contains(x) <==> (x == ALL_NAMESPACES@ || exists|i: int|
                0 <= i < entries.len() && (#[trigger] entries[i]).namespace == x),
{
    let items = seq![ALL_NAMESPACES@] + namespaces_of(entries);
    lemma_sorted_distinct(items);
    assert forall|x: Seq<char>| #[trigger]
        selectors_spec(entries).contains(x) <==> (x == ALL_NAMESPACES@ || exists|i: int|
            0 <= i < entries.len() && (#[trigger] entries[i]).namespace == x) by {
        if items.contains(x) {
            let k = choose|k: int| 0 <= k < items.len() && items[k] == x;
            if k > 0 {
                assert(entries[k - 1].namespace == x);
            }
        }
        if x == ALL_NAMESPACES@ {
            assert(items[0] == x);
        }
        if exists|i: int| 0 <= i < entries.len() && (#[trigger] entries[i]).namespace == x {
            let i = choose|i: int| 0 <= i < entries.len() && (#[trigger] entries[i]).namespace == x;
            assert(items[i + 1] == x);
        }
    }
}

/// The filter shows exactly the templates that pass: each shown one
/// passes and stands in the store, and each one of the store that passes
/// is shown.
pub proof fn lemma_filter_shows_passing(
    entries: Seq<TemplateView>,
    query: Seq<char>,
    selector: Seq<char>,
)
    ensures
        forall|i: int|
            0 <= i < filter_spec(entries, query, selector).len() ==> passes(
                #[trigger] filter_spec(entries, query, selector)[i],
                query,
                selector,
            ) && entries.contains(filter_spec(entries, query, selector)[i]),
        forall|j: int|
            0 <= j < entries.len() && passes(#[trigger] entries[j], query, selector)
                ==> filter_spec(entries, query, selector).contains(entries[j]),
        filter_spec(entries, query, selector).len() <= entries.len(),
{
    let keep = passing(query, selector);
    let shown = entries.filter(keep);
    entries.lemma_filter_len(keep);
    assert forall|i: int| 0 <= i < shown.len() implies passes(#[trigger] shown[i], query, selector)
        && entries.contains(shown[i]) by {
        entries.lemma_filter_pred(keep, i);
        assert(shown.contains(shown[i]));
        entries.lemma_filter_contains_rev(keep, shown[i]);
    }
    assert forall|j: int|
        0 <= j < entries.len() && passes(#[trigger] entries[j], query, selector) implies shown.contains(
        entries[j],
    ) by {
        entries.lemma_filter_contains(keep, j);
    }
}

} // verus!
