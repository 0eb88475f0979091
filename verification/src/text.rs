//! Texts as sequences of characters: search, order, words, and the
//! conversions between strings and characters.

use vstd::prelude::*;
use vstd::std_specs::iter::IteratorSpec;

verus! {

/// `needle` stands in `hay` at position `at`.
pub open spec fn occurs_at(hay: Seq<char>, needle: Seq<char>, at: int) -> bool {
    &&& 0 <= at
    &&& at + needle.len() <= hay.len()
    &&& hay.subrange(at, at + needle.len()) == needle
}

/// `needle` stands somewhere in `hay`.
pub open spec fn contains(hay: Seq<char>, needle: Seq<char>) -> bool {
    exists|at: int| occurs_at(hay, needle, at)
}

/// The first position at or after `from` where `needle` stands in `hay`,
/// or -1 where there is none.
pub open spec fn find_from(hay: Seq<char>, needle: Seq<char>, from: int) -> int
    decreases hay.len() + 1 - from,
{
    if from < 0 || from + needle.len() > hay.len() {
        -1
    } else if occurs_at(hay, needle, from) {
        from
    } else {
        find_from(hay, needle, from + 1)
    }
}

/// What `find_from` returns is the least match at or after `from`.
pub proof fn lemma_find_from(hay: Seq<char>, needle: Seq<char>, from: int)
    requires
        0 <= from,
    ensures
        find_from(hay, needle, from) == -1 || (from <= find_from(hay, needle, from)
            && occurs_at(hay, needle, find_from(hay, needle, from))),
        forall|k: int|
            from <= k && (find_from(hay, needle, from) == -1 || k < find_from(hay, needle, from))
                ==> !occurs_at(hay, needle, k),
    decreases hay.len() + 1 - from,
{
    if from + needle.len() > hay.len() {
    } else if occurs_at(hay, needle, from) {
    } else {
        lemma_find_from(hay, needle, from + 1);
    }
}

/// `contains` holds exactly where a search from the start finds a match.
pub proof fn lemma_contains_find(hay: Seq<char>, needle: Seq<char>)
    ensures
        contains(hay, needle) <==> find_from(hay, needle, 0) >= 0,
{
    lemma_find_from(hay, needle, 0);
    if find_from(hay, needle, 0) >= 0 {
        assert(occurs_at(hay, needle, find_from(hay, needle, 0)));
    }
}

/// The texts of a run of strings.
pub open spec fn texts(strings: Seq<String>) -> Seq<Seq<char>> {
    Seq::new(strings.len(), |i: int| strings[i]@)
}

/// The characters of `s`, one by one.
pub fn chars_of(s: &str) -> (chars: Vec<char>)
    ensures
        chars@ == s@,
{
    let mut chars: Vec<char> = Vec::new();
    let mut rest = s.chars();
    proof {
        broadcast use vstd::string::axiom_spec_iter;
    }
    assert(chars@ + rest.remaining() =~= s@);
    loop
        invariant
            rest.obeys_prophetic_iter_laws(),
            rest.decrease() is Some,
            chars@ + rest.remaining() == s@,
        decreases rest.decrease()->0,
    {
        let ghost before = rest;
        let next = rest.next();
        proof {
            vstd::string::next_postcondition(&before, &rest, next);
        }
        match next {
            Some(c) => {
                chars.push(c);
                assert(chars@ + rest.remaining() =~= s@);
            },
            None => {
                assert(chars@ + rest.remaining() =~= chars@);
                return chars;
            },
        }
    }
}

/// `String::push`: the string grows by the one character, at its end.
#[verifier::external_body]
pub(crate) fn push_char(s: &mut String, c: char)
    ensures
        final(s)@ == old(s)@.push(c),
{
    s.push(c)
}

/// `String::pop`: the string loses its last character, if it has one.
#[verifier::external_body]
pub(crate) fn pop_char(s: &mut String)
    ensures
        final(s)@ == if old(s)@.len() == 0 {
            old(s)@
        } else {
            old(s)@.drop_last()
        },
{
    s.pop();
}

/// The string spelled by `chars`.
pub fn string_of(chars: &Vec<char>) -> (s: String)
    ensures
        s@ == chars@,
{
    let mut s = String::new();
    let mut i: usize = 0;
    while i < chars.len()
        invariant
            i <= chars.len(),
            s@ == chars@.subrange(0, i as int),
        decreases chars.len() - i,
    {
        push_char(&mut s, chars[i]);
        i += 1;
        assert(s@ =~= chars@.subrange(0, i as int));
    }
    assert(chars@.subrange(0, chars.len() as int) =~= chars@);
    s
}

/// The string spelled by `chars[from..to]`.
pub fn slice_string(chars: &Vec<char>, from: usize, to: usize) -> (s: String)
    requires
        from <= to <= chars.len(),
    ensures
        s@ == chars@.subrange(from as int, to as int),
{
    let mut part: Vec<char> = Vec::new();
    let mut i: usize = from;
    while i < to
        invariant
            from <= i <= to <= chars.len(),
            part@ == chars@.subrange(from as int, i as int),
        decreases to - i,
    {
        part.push(chars[i]);
        i += 1;
        assert(part@ =~= chars@.subrange(from as int, i as int));
    }
    string_of(&part)
}

/// Whether `needle` stands in `hay` at position `at`.
pub fn matches_at(hay: &Vec<char>, needle: &Vec<char>, at: usize) -> (found: bool)
    ensures
        found == occurs_at(hay@, needle@, at as int),
{
    if needle.len() > hay.len() || at > hay.len() - needle.len() {
        return false;
    }
    let mut k: usize = 0;
    while k < needle.len()
        invariant
            k <= needle.len(),
            at + needle.len() <= hay.len(),
            forall|m: int| 0 <= m < k ==> hay@[at + m] == needle@[m],
        decreases needle.len() - k,
    {
        if hay[at + k] != needle[k] {
            proof {
                let sub = hay@.subrange(at as int, at + needle.len());
                assert(sub[k as int] == hay@[at + k]);
            }
            return false;
        }
        k += 1;
    }
    assert(hay@.subrange(at as int, at + needle.len()) =~= needle@);
    true
}

/// The first position at or after `from` where `needle` stands in `hay`.
pub fn find(hay: &Vec<char>, needle: &Vec<char>, from: usize) -> (found: Option<usize>)
    ensures
        match found {
            Some(at) => at as int == find_from(hay@, needle@, from as int),
            None => find_from(hay@, needle@, from as int) == -1,
        },
{
    if needle.len() > hay.len() {
        return None;
    }
    let last: usize = hay.len() - needle.len();
    let mut at: usize = from;
    while at <= last
        invariant
            last == hay.len() - needle.len(),
            from <= at,
            find_from(hay@, needle@, from as int) == find_from(hay@, needle@, at as int),
        decreases last + 1 - at,
    {
        if matches_at(hay, needle, at) {
            return Some(at);
        }
        if at == last {
            assert(find_from(hay@, needle@, at + 1) == -1);
            return None;
        }
        at += 1;
    }
    None
}

/// `items` without the repeats: of equal texts the first one stays.
pub open spec fn distinct(items: Seq<Seq<char>>) -> Seq<Seq<char>>
    decreases items.len(),
{
    if items.len() == 0 {
        seq![]
    } else {
        let before = distinct(items.drop_last());
        if before.contains(items.last()) {
            before
        } else {
            before.push(items.last())
        }
    }
}

/// `distinct` holds exactly the texts of `items`, each once.
pub proof fn lemma_distinct(items: Seq<Seq<char>>)
    ensures
        distinct(items).no_duplicates(),
        forall|x: Seq<char>| #[trigger] distinct(items).contains(x) <==> items.contains(x),
    decreases items.len(),
{
    if items.len() > 0 {
        let head = items.drop_last();
        let before = distinct(head);
        lemma_distinct(head);
        assert forall|x: Seq<char>| #[trigger]
            distinct(items).contains(x) <==> items.contains(x) by {
            if items.contains(x) {
                let i = choose|i: int| 0 <= i < items.len() && items[i] == x;
                if i < items.len() - 1 {
                    assert(head[i] == x);
                    assert(head.contains(x));
                    assert(before.contains(x));
                    let k = choose|k: int| 0 <= k < before.len() && before[k] == x;
                    assert(distinct(items)[k] == x);
                } else if before.contains(x) {
                } else {
                    assert(distinct(items)[before.len() as int] == x);
                }
            }
            if distinct(items).contains(x) {
                let k = choose|k: int| 0 <= k < distinct(items).len() && distinct(items)[k] == x;
                if k < before.len() {
                    assert(before[k] == x);
                    assert(before.contains(x));
                    assert(head.contains(x));
                    let i = choose|i: int| 0 <= i < head.len() && head[i] == x;
                    assert(head[i] == items[i]);
                } else {
                    assert(items[items.len() - 1] == x);
                }
            }
        }
    }
}

/// Whether one of `items` spells `wanted`.
pub fn contains_text(items: &Vec<String>, wanted: &String) -> (found: bool)
    ensures
        found == texts(items@).contains(wanted@),
{
    let mut i: usize = 0;
    while i < items.len()
        invariant
            i <= items.len(),
            forall|k: int| 0 <= k < i ==> texts(items@)[k] != wanted@,
        decreases items.len() - i,
    {
        if items[i] == *wanted {
            assert(texts(items@)[i as int] == wanted@);
            return true;
        }
        i += 1;
    }
    false
}

/// Appends `item` to `items` unless an equal text is there already.
pub fn push_distinct(items: &mut Vec<String>, item: String)
    ensures
        texts(final(items)@) == if texts(old(items)@).contains(item@) {
            texts(old(items)@)
        } else {
            texts(old(items)@).push(item@)
        },
{
    if !contains_text(items, &item) {
        items.push(item);
        assert(texts(items@) =~= texts(old(items)@).push(item@));
    }
}

/// `a` comes before `b` in the order of a dictionary, character by
/// character, a character counting by its code point.
pub open spec fn lex_less(a: Seq<char>, b: Seq<char>) -> bool
    decreases a.len(),
{
    if a.len() == 0 {
        b.len() > 0
    } else if b.len() == 0 {
        false
    } else if a[0] == b[0] {
        lex_less(a.drop_first(), b.drop_first())
    } else {
        (a[0] as u32) < (b[0] as u32)
    }
}

/// Whether `a` comes before `b` in the order of a dictionary.
pub fn less(a: &Vec<char>, b: &Vec<char>) -> (before: bool)
    ensures
        before == lex_less(a@, b@),
{
    let mut i: usize = 0;
    assert(a@.skip(0) =~= a@ && b@.skip(0) =~= b@);
    while i < a.len() && i < b.len()
        invariant
            i <= a.len(),
            i <= b.len(),
            lex_less(a@, b@) == lex_less(a@.skip(i as int), b@.skip(i as int)),
        decreases a.len() - i,
    {
        assert(a@.skip(i as int).drop_first() =~= a@.skip(i + 1));
        assert(b@.skip(i as int).drop_first() =~= b@.skip(i + 1));
        if a[i] != b[i] {
            return (a[i] as u32) < (b[i] as u32);
        }
        i += 1;
    }
    i < b.len()
}

/// The sorted run `list` with `item` in its place, unless it is there.
pub open spec fn insert_sorted(list: Seq<Seq<char>>, item: Seq<char>) -> Seq<Seq<char>>
    decreases list.len(),
{
    if list.len() == 0 {
        seq![item]
    } else if list.last() == item {
        list
    } else if lex_less(list.last(), item) {
        list.push(item)
    } else {
        insert_sorted(list.drop_last(), item).push(list.last())
    }
}

/// The texts of `items` in the order of a dictionary, each once.
pub open spec fn sorted_distinct(items: Seq<Seq<char>>) -> Seq<Seq<char>>
    decreases items.len(),
{
    if items.len() == 0 {
        seq![]
    } else {
        insert_sorted(sorted_distinct(items.drop_last()), items.last())
    }
}

/// Inserting below a tail of later texts leaves the tail as it is.
proof fn lemma_insert_below(head: Seq<Seq<char>>, tail: Seq<Seq<char>>, item: Seq<char>)
    requires
        forall|k: int|
            0 <= k < tail.len() ==> tail[k] != item && !lex_less(#[trigger] tail[k], item),
    ensures
        insert_sorted(head + tail, item) == insert_sorted(head, item) + tail,
    decreases tail.len(),
{
    if tail.len() == 0 {
        assert(head + tail =~= head);
        assert(insert_sorted(head, item) + tail =~= insert_sorted(head, item));
    } else {
        let whole = head + tail;
        assert(whole.last() == tail.last());
        assert(whole.drop_last() =~= head + tail.drop_last());
        lemma_insert_below(head, tail.drop_last(), item);
        assert(insert_sorted(head, item) + tail =~= (insert_sorted(head, item)
            + tail.drop_last()).push(tail.last()));
    }
}

/// Puts `item` in its place in the sorted `list`, unless it is there.
pub fn insert_in_order(list: &mut Vec<String>, item: String)
    ensures
        texts(final(list)@) == insert_sorted(texts(old(list)@), item@),
{
    let ghost all = texts(list@);
    let wanted = chars_of(item.as_str());
    let mut at: usize = list.len();
    assert(all.skip(at as int) =~= Seq::<Seq<char>>::empty());
    assert(all.take(at as int) =~= all);
    while at > 0
        invariant
            at <= list.len(),
            all == texts(list@),
            list@ == old(list)@,
            wanted@ == item@,
            forall|k: int|
                at <= k < all.len() ==> all[k] != item@ && !lex_less(#[trigger] all[k], item@),
        decreases at,
    {
        let here = chars_of(list[at - 1].as_str());
        assert(here@ == all[at - 1]);
        let ghost head = all.take(at as int);
        let ghost tail = all.skip(at as int);
        proof {
            assert(head + tail =~= all);
            assert(head.last() == here@);
            lemma_insert_below(head, tail, item@);
        }
        if list[at - 1] == item {
            assert(insert_sorted(head, item@) + tail =~= all);
            return ;
        }
        if less(&here, &wanted) {
            list.insert(at, item);
            assert(texts(list@) =~= head.push(item@) + tail);
            return ;
        }
        at -= 1;
    }
    proof {
        assert(all.take(0) + all =~= all);
        lemma_insert_below(all.take(0), all, item@);
        assert(insert_sorted(all.take(0), item@) =~= seq![item@]);
    }
    list.insert(0, item);
    assert(texts(list@) =~= seq![item@] + all);
}

/// The texts of `items` in the order of a dictionary, each once.
pub fn sort_distinct(items: &Vec<String>) -> (sorted: Vec<String>)
    ensures
        texts(sorted@) == sorted_distinct(texts(items@)),
{
    let ghost all = texts(items@);
    let mut sorted: Vec<String> = Vec::new();
    let mut i: usize = 0;
    assert(texts(sorted@) =~= sorted_distinct(all.take(0)));
    while i < items.len()
        invariant
            i <= items.len(),
            all == texts(items@),
            texts(sorted@) == sorted_distinct(all.take(i as int)),
        decreases items.len() - i,
    {
        assert(all.take(i + 1).drop_last() =~= all.take(i as int));
        insert_in_order(&mut sorted, items[i].clone());
        i += 1;
    }
    assert(all.take(items.len() as int) =~= all);
    sorted
}

/// The position of the first of `items` that spells `wanted`, or -1.
pub open spec fn index_of_text(items: Seq<Seq<char>>, wanted: Seq<char>) -> int
    decreases items.len(),
{
    if items.len() == 0 {
        -1
    } else {
        let earlier = index_of_text(items.drop_last(), wanted);
        if earlier >= 0 {
            earlier
        } else if items.last() == wanted {
            items.len() - 1
        } else {
            -1
        }
    }
}

/// `index_of_text` is -1 or a position that holds the text.
pub proof fn lemma_index_of_text(items: Seq<Seq<char>>, wanted: Seq<char>)
    ensures
        -1 <= index_of_text(items, wanted) < items.len(),
        index_of_text(items, wanted) >= 0 ==> items[index_of_text(items, wanted)] == wanted,
    decreases items.len(),
{
    if items.len() > 0 {
        lemma_index_of_text(items.drop_last(), wanted);
    }
}

/// A hit within a prefix is the hit of the whole run.
proof fn lemma_index_kept(items: Seq<Seq<char>>, wanted: Seq<char>, k: int)
    requires
        0 <= k <= items.len(),
        index_of_text(items.take(k), wanted) >= 0,
    ensures
        index_of_text(items, wanted) == index_of_text(items.take(k), wanted),
    decreases items.len() - k,
{
    if k == items.len() {
        assert(items.take(k) =~= items);
    } else {
        assert(items.take(k + 1).drop_last() =~= items.take(k));
        lemma_index_kept(items, wanted, k + 1);
    }
}

/// The position of the first of `items` that spells `wanted`.
pub fn find_text(items: &Vec<String>, wanted: &String) -> (at: Option<usize>)
    ensures
        match at {
            Some(i) => i as int == index_of_text(texts(items@), wanted@),
            None => index_of_text(texts(items@), wanted@) == -1,
        },
{
    let ghost all = texts(items@);
    let mut i: usize = 0;
    while i < items.len()
        invariant
            i <= items.len(),
            all == texts(items@),
            index_of_text(all.take(i as int), wanted@) == -1,
        decreases items.len() - i,
    {
        assert(all.take(i + 1).drop_last() =~= all.take(i as int));
        if items[i] == *wanted {
            proof {
                lemma_index_kept(all, wanted@, i + 1);
            }
            return Some(i);
        }
        i += 1;
    }
    assert(all.take(items.len() as int) =~= all);
    None
}

/// A sorted run with one more text in it is not empty.
pub proof fn lemma_insert_sorted_len(list: Seq<Seq<char>>, item: Seq<char>)
    ensures
        insert_sorted(list, item).len() >= 1,
        insert_sorted(list, item).len() >= list.len(),
    decreases list.len(),
{
    if list.len() > 0 {
        lemma_insert_sorted_len(list.drop_last(), item);
    }
}

/// Whether a character is white space, as `char::is_whitespace` has it.
pub uninterp spec fn is_whitespace(c: char) -> bool;

/// `char::is_whitespace`: whether `c` has the Unicode property
/// White_Space, a function of the character alone.
#[verifier::external_body]
pub(crate) fn char_is_whitespace(c: char) -> (white: bool)
    ensures
        white == is_whitespace(c),
{
    c.is_whitespace()
}

/// `items` in one text, `separator` between each two.
pub open spec fn joined(items: Seq<Seq<char>>, separator: char) -> Seq<char>
    decreases items.len(),
{
    if items.len() == 0 {
        seq![]
    } else if items.len() == 1 {
        items[0]
    } else {
        joined(items.drop_last(), separator).push(separator) + items.last()
    }
}

/// The words of `text`: its runs of characters between white space.
pub open spec fn words(text: Seq<char>) -> Seq<Seq<char>>
    decreases text.len(),
{
    if text.len() == 0 {
        seq![]
    } else {
        let head = words(text.drop_last());
        let c = text.last();
        if is_whitespace(c) {
            head
        } else if text.len() >= 2 && !is_whitespace(text[text.len() - 2]) {
            head.drop_last().push(head.last().push(c))
        } else {
            head.push(seq![c])
        }
    }
}

/// `text` without its last word: the words before it, one space between
/// each two.
pub open spec fn without_last_word(text: Seq<char>) -> Seq<char> {
    if words(text).len() == 0 {
        seq![]
    } else {
        joined(words(text).drop_last(), ' ')
    }
}

/// A text that ends in a word has a word.
proof fn lemma_words_open(text: Seq<char>)
    requires
        text.len() > 0,
        !is_whitespace(text.last()),
    ensures
        words(text).len() >= 1,
    decreases text.len(),
{
    if text.len() >= 2 && !is_whitespace(text[text.len() - 2]) {
        assert(text.drop_last().last() == text[text.len() - 2]);
        lemma_words_open(text.drop_last());
    }
}

/// `text` without its last word.
pub fn drop_last_word(text: &str) -> (rest: String)
    ensures
        rest@ == without_last_word(text@),
{
    let chars = chars_of(text);
    let mut found: Vec<Vec<char>> = Vec::new();
    let mut k: usize = 0;
    assert(Seq::new(found@.len(), |i: int| found@[i]@) =~= words(chars@.take(0)));
    while k < chars.len()
        invariant
            k <= chars.len(),
            Seq::new(found@.len(), |i: int| found@[i]@) == words(chars@.take(k as int)),
        decreases chars.len() - k,
    {
        let ghost before = words(chars@.take(k as int));
        let ghost longer = chars@.take(k + 1);
        assert(longer.drop_last() =~= chars@.take(k as int));
        let c = chars[k];
        if !char_is_whitespace(c) {
            if k > 0 && !char_is_whitespace(chars[k - 1]) {
                proof {
                    assert(longer[longer.len() - 2] == chars@[k - 1]);
                    assert(chars@.take(k as int).last() == chars@[k - 1]);
                    lemma_words_open(chars@.take(k as int));
                }
                let mut word = found.pop().unwrap();
                word.push(c);
                found.push(word);
                assert(Seq::new(found@.len(), |i: int| found@[i]@) =~= before.drop_last().push(
                    before.last().push(c),
                ));
            } else {
                let mut word: Vec<char> = Vec::new();
                word.push(c);
                found.push(word);
                assert(Seq::new(found@.len(), |i: int| found@[i]@) =~= before.push(seq![c]));
            }
        }
        k += 1;
    }
    assert(chars@.take(chars.len() as int) =~= chars@);
    let ghost all = words(chars@);
    let mut rest: Vec<char> = Vec::new();
    if found.len() == 0 {
        return string_of(&rest);
    }
    let kept: usize = found.len() - 1;
    let mut i: usize = 0;
    assert(rest@ =~= joined(all.drop_last().take(0), ' '));
    while i < kept
        invariant
            i <= kept,
            kept == found.len() - 1,
            all == Seq::new(found@.len(), |i: int| found@[i]@),
            rest@ == joined(all.drop_last().take(i as int), ' '),
        decreases kept - i,
    {
        let ghost head = all.drop_last();
        assert(head.take(i + 1).drop_last() =~= head.take(i as int));
        assert(head.take(i + 1).last() == found@[i as int]@);
        if i > 0 {
            rest.push(' ');
        }
        let word = &found[i];
        let mut m: usize = 0;
        let ghost start = rest@;
        while m < word.len()
            invariant
                m <= word.len(),
                rest@ == start + word@.take(m as int),
            decreases word.len() - m,
        {
            rest.push(word[m]);
            m += 1;
            assert(rest@ =~= start + word@.take(m as int));
        }
        assert(word@.take(word.len() as int) =~= word@);
        i += 1;
        assert(rest@ =~= joined(head.take(i as int), ' '));
    }
    assert(all.drop_last().take(kept as int) =~= all.drop_last());
    string_of(&rest)
}

/// Whether two runs of strings spell the same texts.
pub fn same_texts(a: &Vec<String>, b: &Vec<String>) -> (same: bool)
    ensures
        same == (texts(a@) == texts(b@)),
{
    if a.len() != b.len() {
        assert(texts(a@).len() != texts(b@).len());
        return false;
    }
    let mut i: usize = 0;
    while i < a.len()
        invariant
            i <= a.len(),
            a.len() == b.len(),
            forall|k: int| 0 <= k < i ==> texts(a@)[k] == texts(b@)[k],
        decreases a.len() - i,
    {
        if a[i] != b[i] {
            assert(texts(a@)[i as int] != texts(b@)[i as int]);
            return false;
        }
        i += 1;
    }
    assert(texts(a@) =~= texts(b@));
    true
}

/// No text comes before itself.
pub proof fn lemma_lex_irreflexive(a: Seq<char>)
    ensures
        !lex_less(a, a),
    decreases a.len(),
{
    if a.len() > 0 {
        lemma_lex_irreflexive(a.drop_first());
    }
}

/// Of two different texts one comes before the other.
pub proof fn lemma_lex_total(a: Seq<char>, b: Seq<char>)
    requires
        a != b,
    ensures
        lex_less(a, b) || lex_less(b, a),
    decreases a.len(),
{
    if a.len() > 0 && b.len() > 0 && a[0] == b[0] {
        if a.drop_first() == b.drop_first() {
            assert(a =~= seq![a[0]] + a.drop_first());
            assert(b =~= seq![b[0]] + b.drop_first());
        }
        lemma_lex_total(a.drop_first(), b.drop_first());
    } else if a.len() > 0 && b.len() > 0 {
        vstd::utf8::char_u32_cast(a[0], a[0] as u32);
        vstd::utf8::char_u32_cast(b[0], b[0] as u32);
    } else if a.len() == 0 && b.len() == 0 {
        assert(a =~= b);
    }
}

/// What comes before a text comes before all that the text comes before.
pub proof fn lemma_lex_transitive(a: Seq<char>, b: Seq<char>, c: Seq<char>)
    requires
        lex_less(a, b),
        lex_less(b, c),
    ensures
        lex_less(a, c),
    decreases a.len(),
{
    if a.len() > 0 && b.len() > 0 && c.len() > 0 && a[0] == b[0] && b[0] == c[0] {
        lemma_lex_transitive(a.drop_first(), b.drop_first(), c.drop_first());
    }
}

/// Each text of the run comes before all that follow it.
pub open spec fn increasing(list: Seq<Seq<char>>) -> bool {
    forall|i: int, j: int|
        0 <= i < j < list.len() ==> lex_less(#[trigger] list[i], #[trigger] list[j])
}

/// A text put into an increasing run in its place leaves the run
/// increasing, with the text in it and nothing else new.
pub proof fn lemma_insert_sorted(list: Seq<Seq<char>>, item: Seq<char>)
    requires
        increasing(list),
    ensures
        increasing(insert_sorted(list, item)),
        forall|x: Seq<char>| #[trigger]
            insert_sorted(list, item).contains(x) <==> (list.contains(x) || x == item),
    decreases list.len(),
{
    let after = insert_sorted(list, item);
    if list.len() == 0 {
        assert(after[0] == item);
    } else if list.last() == item {
        assert(list[list.len() - 1] == item);
    } else if lex_less(list.last(), item) {
        assert forall|i: int, j: int| 0 <= i < j < after.len() implies lex_less(
            #[trigger] after[i],
            #[trigger] after[j],
        ) by {
            if j == list.len() {
                if i < list.len() - 1 {
                    assert(lex_less(list[i], list[list.len() - 1]));
                    lemma_lex_transitive(list[i], list.last(), item);
                }
            } else {
                assert(lex_less(list[i], list[j]));
            }
        }
        assert forall|x: Seq<char>| #[trigger]
            after.contains(x) <==> (list.contains(x) || x == item) by {
            if after.contains(x) {
                let k = choose|k: int| 0 <= k < after.len() && after[k] == x;
                if k < list.len() {
                    assert(list[k] == x);
                }
            }
            if list.contains(x) {
                let k = choose|k: int| 0 <= k < list.len() && list[k] == x;
                assert(after[k] == x);
            }
            if x == item {
                assert(after[list.len() as int] == x);
            }
        }
    } else {
        let head = list.drop_last();
        let last = list.last();
        assert forall|i: int, j: int| 0 <= i < j < head.len() implies lex_less(
            #[trigger] head[i],
            #[trigger] head[j],
        ) by {
            assert(lex_less(list[i], list[j]));
        }
        lemma_insert_sorted(head, item);
        lemma_lex_total(item, last);
        let inner = insert_sorted(head, item);
        assert forall|i: int| 0 <= i < inner.len() implies lex_less(#[trigger] inner[i], last) by {
            assert(inner.contains(inner[i]));
            if inner[i] != item {
                assert(head.contains(inner[i]));
                let k = choose|k: int| 0 <= k < head.len() && head[k] == inner[i];
                assert(lex_less(list[k], list[list.len() - 1]));
            }
        }
        assert forall|i: int, j: int| 0 <= i < j < after.len() implies lex_less(
            #[trigger] after[i],
            #[trigger] after[j],
        ) by {
            if j < inner.len() {
                assert(lex_less(inner[i], inner[j]));
            } else {
                assert(lex_less(inner[i], last));
            }
        }
        assert forall|x: Seq<char>| #[trigger]
            after.contains(x) <==> (list.contains(x) || x == item) by {
            if after.contains(x) {
                let k = choose|k: int| 0 <= k < after.len() && after[k] == x;
                if k < inner.len() {
                    assert(inner[k] == x);
                    assert(inner.contains(x));
                    if x != item {
                        assert(head.contains(x));
                        let m = choose|m: int| 0 <= m < head.len() && head[m] == x;
                        assert(list[m] == x);
                    }
                } else {
                    assert(list[list.len() - 1] == x);
                }
            }
            if list.contains(x) {
                let k = choose|k: int| 0 <= k < list.len() && list[k] == x;
                if k < head.len() {
                    assert(head[k] == x);
                    assert(head.contains(x));
                    assert(inner.contains(x));
                    let m = choose|m: int| 0 <= m < inner.len() && inner[m] == x;
                    assert(after[m] == x);
                } else {
                    assert(after[inner.len() as int] == x);
                }
            }
            if x == item {
                assert(inner.contains(x));
                let m = choose|m: int| 0 <= m < inner.len() && inner[m] == x;
                assert(after[m] == x);
            }
        }
    }
}

/// `sorted_distinct` holds exactly the texts of `items`, each before all
/// that follow it, so none twice.
pub proof fn lemma_sorted_distinct(items: Seq<Seq<char>>)
    ensures
        increasing(sorted_distinct(items)),
        forall|x: Seq<char>| #[trigger] sorted_distinct(items).contains(x) <==> items.contains(x),
    decreases items.len(),
{
    if items.len() > 0 {
        let head = items.drop_last();
        lemma_sorted_distinct(head);
        lemma_insert_sorted(sorted_distinct(head), items.last());
        assert forall|x: Seq<char>| #[trigger]
            sorted_distinct(items).contains(x) <==> items.contains(x) by {
            if items.contains(x) {
                let k = choose|k: int| 0 <= k < items.len() && items[k] == x;
                if k < head.len() {
                    assert(head[k] == x);
                    assert(head.contains(x));
                }
            }
            if head.contains(x) {
                let k = choose|k: int| 0 <= k < head.len() && head[k] == x;
                assert(items[k] == x);
            }
            if x == items.last() {
                assert(items[items.len() - 1] == x);
            }
        }
    }
}

} // verus!
