//! The query part of a request target: `a=1&b=2&c&d=&d=7`.
//!
//! Every key and value is a view into the text that was parsed.
use super::text::{
    cut_at, is_free_of, join, lemma_split_all_join, lemma_split_first_none,
    lemma_split_first_of_parts, lemma_split_first_parts, split_all, split_once, str_eq,
};
use vstd::prelude::*;

verus! {

/// What a query string holds for one key.
#[derive(Debug)]
pub enum Value<'buf> {
    /// The key occurs once.
    Single(&'buf str),
    /// The key occurs more than once; the values stand in order of
    /// appearance.
    Multiple(Vec<&'buf str>),
}

/// The mathematical content of a [`Value`].
#[verifier::ext_equal]
pub enum ValueView {
    Single(Seq<char>),
    Multiple(Seq<Seq<char>>),
}

impl<'buf> View for Value<'buf> {
    type V = ValueView;

    open spec fn view(&self) -> ValueView {
        match self {
            Value::Single(value) => ValueView::Single(value@),
            Value::Multiple(values) => ValueView::Multiple(values@.map_values(|s: &str| s@)),
        }
    }
}

/// The part of a fragment before its first `=`, or the whole fragment.
pub open spec fn fragment_key(fragment: Seq<char>) -> Seq<char> {
    match split_once(fragment, '=') {
        Some((key, _)) => key,
        None => fragment,
    }
}

/// The part of a fragment after its first `=`, or the empty text.
pub open spec fn fragment_value(fragment: Seq<char>) -> Seq<char> {
    match split_once(fragment, '=') {
        Some((_, value)) => value,
        None => Seq::empty(),
    }
}

/// The values that `fragments` give to `key`, in order of appearance.
pub open spec fn values_of(fragments: Seq<Seq<char>>, key: Seq<char>) -> Seq<Seq<char>> {
    fragments.filter(|f: Seq<char>| fragment_key(f) == key).map_values(
        |f: Seq<char>| fragment_value(f),
    )
}

/// One value stands alone; several stand as a list.
pub open spec fn value_of(values: Seq<Seq<char>>) -> ValueView {
    if values.len() == 1 {
        ValueView::Single(values[0])
    } else {
        ValueView::Multiple(values)
    }
}

/// The mapping that a sequence of fragments denotes: every key that occurs,
/// with all the values given to it.
pub open spec fn query_of_fragments(fragments: Seq<Seq<char>>) -> Map<Seq<char>, ValueView> {
    Map::new(
        |key: Seq<char>| values_of(fragments, key).len() > 0,
        |key: Seq<char>| value_of(values_of(fragments, key)),
    )
}

/// The mapping that a raw query text denotes.
pub open spec fn parse_query(raw: Seq<char>) -> Map<Seq<char>, ValueView> {
    query_of_fragments(split_all(raw, '&'))
}

/// A mapping after one more value was given to `key`: a new key holds the
/// value alone, a single value becomes a list of two, a list grows.
pub open spec fn with_value(
    query: Map<Seq<char>, ValueView>,
    key: Seq<char>,
    value: Seq<char>,
) -> Map<Seq<char>, ValueView> {
    if !query.contains_key(key) {
        query.insert(key, ValueView::Single(value))
    } else {
        match query[key] {
            ValueView::Single(previous) => query.insert(
                key,
                ValueView::Multiple(seq![previous, value]),
            ),
            ValueView::Multiple(values) => query.insert(key, ValueView::Multiple(values.push(value))),
        }
    }
}

/// Reading one more fragment gives its value to its key.
pub proof fn lemma_query_push(fragments: Seq<Seq<char>>, fragment: Seq<char>)
    ensures
        query_of_fragments(fragments.push(fragment)) == with_value(
            query_of_fragments(fragments),
            fragment_key(fragment),
            fragment_value(fragment),
        ),
{
    let key = fragment_key(fragment);
    let value = fragment_value(fragment);
    let before = query_of_fragments(fragments);
    let after = query_of_fragments(fragments.push(fragment));
    let to_value = |f: Seq<char>| fragment_value(f);
    assert forall|k: Seq<char>|
        values_of(fragments.push(fragment), k) == if k == key {
            values_of(fragments, k).push(value)
        } else {
            values_of(fragments, k)
        } by {
        let has_key = |f: Seq<char>| fragment_key(f) == k;
        Seq::lemma_filter_push(fragments, fragment, has_key);
        if k == key {
            fragments.filter(has_key).lemma_push_map_commute(to_value, fragment);
        }
    }
    let values = values_of(fragments, key);
    if values.len() == 1 {
        assert(values.push(value) =~= seq![values[0], value]);
    }
    assert(after =~= with_value(before, key, value));
}

/// What a query holds for a key tells how often the key occurs: a single
/// value stands for one occurrence, a list for two or more, and the list
/// holds the values of all of them.
pub proof fn lemma_value_shape(fragments: Seq<Seq<char>>, key: Seq<char>)
    requires
        query_of_fragments(fragments).contains_key(key),
    ensures
        (match query_of_fragments(fragments)[key] {
            ValueView::Single(value) => values_of(fragments, key) == seq![value],
            ValueView::Multiple(values) => values_of(fragments, key) == values && values.len() >= 2,
        }),
{
    let values = values_of(fragments, key);
    if values.len() == 1 {
        assert(values =~= seq![values[0]]);
    }
}

/// A fragment `key=value` gives `value` to `key`, if the key holds no `=`.
pub proof fn lemma_fragment_with_value(key: Seq<char>, value: Seq<char>)
    requires
        is_free_of(key, set!['=']),
    ensures
        fragment_key(key + seq!['='] + value) == key,
        fragment_value(key + seq!['='] + value) == value,
{
    lemma_split_first_of_parts(key, '=', value, set!['=']);
}

/// A fragment without `=` is a key with the empty value.
pub proof fn lemma_fragment_without_value(key: Seq<char>)
    requires
        is_free_of(key, set!['=']),
    ensures
        fragment_key(key) == key,
        fragment_value(key) == Seq::<char>::empty(),
{
    lemma_split_first_none(key, set!['=']);
}

/// A key and a value as a fragment: `key=value`.
pub open spec fn fragment_of(pair: (Seq<char>, Seq<char>)) -> Seq<char> {
    pair.0 + seq!['='] + pair.1
}

/// The fragments of a list of pairs.
pub open spec fn fragments_of(pairs: Seq<(Seq<char>, Seq<char>)>) -> Seq<Seq<char>> {
    Seq::new(pairs.len(), |i: int| fragment_of(pairs[i]))
}

/// The query text of a list of pairs: `k1=v1&k2=v2&...`.
pub open spec fn query_text(pairs: Seq<(Seq<char>, Seq<char>)>) -> Seq<char> {
    join(fragments_of(pairs), '&')
}

/// The values that `pairs` give to `key`, in order.
pub open spec fn pair_values(pairs: Seq<(Seq<char>, Seq<char>)>, key: Seq<char>) -> Seq<Seq<char>>
    decreases pairs.len(),
{
    if pairs.len() == 0 {
        Seq::empty()
    } else if pairs.last().0 == key {
        pair_values(pairs.drop_last(), key).push(pairs.last().1)
    } else {
        pair_values(pairs.drop_last(), key)
    }
}

/// True when a key and a value can stand in a query text: the key holds
/// neither `=` nor `&`, the value holds no `&`.
pub open spec fn is_pair(pair: (Seq<char>, Seq<char>)) -> bool {
    is_free_of(pair.0, set!['=', '&']) && is_free_of(pair.1, set!['&'])
}

/// The fragments of pairs give to each key the values that the pairs give
/// to it.
proof fn lemma_values_of_pairs(pairs: Seq<(Seq<char>, Seq<char>)>, key: Seq<char>)
    requires
        forall|i: int| 0 <= i < pairs.len() ==> is_pair(#[trigger] pairs[i]),
    ensures
        values_of(fragments_of(pairs), key) == pair_values(pairs, key),
    decreases pairs.len(),
{
    let has_key = |f: Seq<char>| fragment_key(f) == key;
    let to_value = |f: Seq<char>| fragment_value(f);
    if pairs.len() == 0 {
        assert(fragments_of(pairs).filter(has_key) =~= Seq::<Seq<char>>::empty());
        assert(values_of(fragments_of(pairs), key) =~= pair_values(pairs, key));
    } else {
        let init = pairs.drop_last();
        let last = pairs.last();
        assert forall|i: int| 0 <= i < init.len() implies is_pair(#[trigger] init[i]) by {
            assert(init[i] == pairs[i]);
        }
        lemma_values_of_pairs(init, key);
        assert(is_pair(last));
        assert(is_free_of(last.0, set!['=']));
        lemma_fragment_with_value(last.0, last.1);
        let fragments = fragments_of(init);
        assert(fragments_of(pairs) =~= fragments.push(fragment_of(last)));
        Seq::lemma_filter_push(fragments, fragment_of(last), has_key);
        if last.0 == key {
            fragments.filter(has_key).lemma_push_map_commute(to_value, fragment_of(last));
        }
    }
}

/// A query written as `k1=v1&k2=v2&...` and parsed holds, for every key,
/// the values that were written for it, in the order in which they were
/// written, and holds no other key.
pub proof fn lemma_query_round_trip(pairs: Seq<(Seq<char>, Seq<char>)>)
    requires
        pairs.len() >= 1,
        forall|i: int| 0 <= i < pairs.len() ==> is_pair(#[trigger] pairs[i]),
    ensures
        parse_query(query_text(pairs)) == Map::new(
            |key: Seq<char>| pair_values(pairs, key).len() > 0,
            |key: Seq<char>| value_of(pair_values(pairs, key)),
        ),
{
    let fragments = fragments_of(pairs);
    assert forall|i: int| 0 <= i < fragments.len() implies is_free_of(
        #[trigger] fragments[i],
        set!['&'],
    ) by {
        assert(is_pair(pairs[i]));
        assert(fragments[i] == pairs[i].0 + seq!['='] + pairs[i].1);
    }
    lemma_split_all_join(fragments, '&');
    assert forall|key: Seq<char>| values_of(fragments, key) == pair_values(pairs, key) by {
        lemma_values_of_pairs(pairs, key);
    }
    assert(parse_query(query_text(pairs)) =~= Map::new(
        |key: Seq<char>| pair_values(pairs, key).len() > 0,
        |key: Seq<char>| value_of(pair_values(pairs, key)),
    ));
}

/// A key with its value, as the query string stores it.
#[derive(Debug)]
struct Entry<'buf> {
    key: &'buf str,
    value: Value<'buf>,
}

/// True when the entry at position `i` has the key `key`.
spec fn entry_has_key(entries: Seq<Entry>, i: int, key: Seq<char>) -> bool {
    0 <= i < entries.len() && entries[i].key@ == key
}

/// No two entries have the same key.
spec fn distinct_keys(entries: Seq<Entry>) -> bool {
    forall|i: int, j: int|
        0 <= i < j < entries.len() ==> (#[trigger] entries[i]).key@ != (#[trigger] entries[j]).key@
}

/// The mapping that a sequence of entries stores.
spec fn entries_map(entries: Seq<Entry>) -> Map<Seq<char>, ValueView> {
    Map::new(
        |key: Seq<char>| exists|i: int| entry_has_key(entries, i, key),
        |key: Seq<char>| entries[choose|i: int| entry_has_key(entries, i, key)].value@,
    )
}

/// With distinct keys, the mapping holds each entry's value under its key.
proof fn lemma_entry_lookup(entries: Seq<Entry>, i: int)
    requires
        distinct_keys(entries),
        0 <= i < entries.len(),
    ensures
        entries_map(entries).contains_key(entries[i].key@),
        entries_map(entries)[entries[i].key@] == entries[i].value@,
{
    let key = entries[i].key@;
    assert(entry_has_key(entries, i, key));
    let j = choose|j: int| entry_has_key(entries, j, key);
    assert(j == i);
}

/// An entry with a new key, put at the end, adds its key to the mapping.
proof fn lemma_entries_push(entries: Seq<Entry>, entry: Entry)
    requires
        distinct_keys(entries),
        forall|j: int| !entry_has_key(entries, j, entry.key@),
    ensures
        distinct_keys(entries.push(entry)),
        entries_map(entries.push(entry)) == entries_map(entries).insert(entry.key@, entry.value@),
{
    let after = entries.push(entry);
    let last = entries.len() as int;
    let expected = entries_map(entries).insert(entry.key@, entry.value@);
    assert(distinct_keys(after)) by {
        assert forall|x: int, y: int| 0 <= x < y < after.len() implies (#[trigger] after[x]).key@
            != (#[trigger] after[y]).key@ by {
            assert(entry_has_key(entries, x, entries[x].key@));
            if y < last {
                assert(after[y] == entries[y]);
            }
        }
    }
    assert forall|k: Seq<char>| #[trigger]
        entries_map(after).contains_key(k) == expected.contains_key(k) by {
        if entries_map(after).contains_key(k) {
            let j = choose|j: int| entry_has_key(after, j, k);
            if j < last {
                assert(entry_has_key(entries, j, k));
            }
        }
        if entries_map(entries).contains_key(k) {
            let j = choose|j: int| entry_has_key(entries, j, k);
            assert(entry_has_key(after, j, k));
        }
        if k == entry.key@ {
            assert(entry_has_key(after, last, k));
        }
    }
    assert forall|k: Seq<char>| #[trigger]
        entries_map(after).contains_key(k) implies entries_map(after)[k] == expected[k] by {
        let j = choose|j: int| entry_has_key(after, j, k);
        lemma_entry_lookup(after, j);
        if j < last {
            assert(after[j] == entries[j]);
            lemma_entry_lookup(entries, j);
        }
    }
    assert(entries_map(after) =~= expected);
}

/// An entry put in the place of one with the same key changes the value
/// that the mapping holds for that key, and nothing else.
proof fn lemma_entries_update(entries: Seq<Entry>, i: int, entry: Entry)
    requires
        distinct_keys(entries),
        entry_has_key(entries, i, entry.key@),
    ensures
        distinct_keys(entries.update(i, entry)),
        entries_map(entries.update(i, entry)) == entries_map(entries).insert(
            entry.key@,
            entry.value@,
        ),
{
    let after = entries.update(i, entry);
    let expected = entries_map(entries).insert(entry.key@, entry.value@);
    assert(distinct_keys(after)) by {
        assert forall|x: int, y: int| 0 <= x < y < after.len() implies (#[trigger] after[x]).key@
            != (#[trigger] after[y]).key@ by {
            assert(after[x].key@ == entries[x].key@);
            assert(after[y].key@ == entries[y].key@);
        }
    }
    assert forall|k: Seq<char>| #[trigger]
        entries_map(after).contains_key(k) == expected.contains_key(k) by {
        if entries_map(after).contains_key(k) {
            let j = choose|j: int| entry_has_key(after, j, k);
            assert(entry_has_key(entries, j, k));
        }
        if entries_map(entries).contains_key(k) {
            let j = choose|j: int| entry_has_key(entries, j, k);
            assert(entry_has_key(after, j, k));
        }
        if k == entry.key@ {
            assert(entry_has_key(after, i, k));
        }
    }
    assert forall|k: Seq<char>| #[trigger]
        entries_map(after).contains_key(k) implies entries_map(after)[k] == expected[k] by {
        let j = choose|j: int| entry_has_key(after, j, k);
        lemma_entry_lookup(after, j);
        if j != i {
            assert(after[j] == entries[j]);
            lemma_entry_lookup(entries, j);
        }
    }
    assert(entries_map(after) =~= expected);
}

/// The position of the entry with the key `key`, if there is one.
fn position(entries: &Vec<Entry>, key: &str) -> (found: Option<usize>)
    ensures
        found matches Some(i) ==> entry_has_key(entries@, i as int, key@),
        found is None ==> forall|j: int| !entry_has_key(entries@, j, key@),
{
    let mut i: usize = 0;
    while i < entries.len()
        invariant
            i <= entries@.len(),
            forall|j: int| 0 <= j < i ==> !entry_has_key(entries@, j, key@),
        decreases entries@.len() - i,
    {
        if str_eq(entries[i].key, key) {
            return Some(i);
        }
        i += 1;
    }
    None
}

/// Gives `value` to `key`: in a new entry if the key is new, else added to
/// the values that the key already has.
fn add_value<'buf>(entries: &mut Vec<Entry<'buf>>, key: &'buf str, value: &'buf str)
    requires
        distinct_keys(old(entries)@),
    ensures
        distinct_keys(final(entries)@),
        entries_map(final(entries)@) == with_value(entries_map(old(entries)@), key@, value@),
{
    let ghost before = entries@;
    match position(entries, key) {
        Some(i) => {
            let found = entries.remove(i);
            let values = match found.value {
                Value::Single(previous) => {
                    let mut values: Vec<&'buf str> = Vec::new();
                    values.push(previous);
                    values.push(value);
                    assert(values@.map_values(|s: &str| s@) =~= seq![previous@, value@]);
                    values
                },
                Value::Multiple(earlier) => {
                    let mut values = earlier;
                    values.push(value);
                    assert(values@.map_values(|s: &str| s@) =~= earlier@.map_values(
                        |s: &str| s@,
                    ).push(value@));
                    values
                },
            };
            let entry = Entry { key: found.key, value: Value::Multiple(values) };
            entries.insert(i, entry);
            proof {
                assert(entries@ =~= before.update(i as int, entry));
                lemma_entry_lookup(before, i as int);
                lemma_entries_update(before, i as int, entry);
            }
        },
        None => {
            let entry = Entry { key, value: Value::Single(value) };
            entries.push(entry);
            proof {
                lemma_entries_push(before, entry);
            }
        },
    }
}

/// Gives the value of one fragment to its key.
fn add_fragment<'buf>(entries: &mut Vec<Entry<'buf>>, fragment: &'buf str)
    requires
        distinct_keys(old(entries)@),
    ensures
        distinct_keys(final(entries)@),
        entries_map(final(entries)@) == with_value(
            entries_map(old(entries)@),
            fragment_key(fragment@),
            fragment_value(fragment@),
        ),
{
    match cut_at(fragment, '=') {
        Some((key, value)) => add_value(entries, key, value),
        None => {
            let empty: &'static str = "";
            proof {
                reveal_strlit("");
                assert(empty@ =~= Seq::<char>::empty());
            }
            add_value(entries, fragment, empty)
        },
    }
}

/// A parsed query string: a mapping from each key to the value or values
/// given to it.
#[derive(Debug)]
pub struct QueryString<'buf> {
    entries: Vec<Entry<'buf>>,
}

impl<'buf> View for QueryString<'buf> {
    type V = Map<Seq<char>, ValueView>;

    closed spec fn view(&self) -> Map<Seq<char>, ValueView> {
        entries_map(self.entries@)
    }
}

impl<'buf> QueryString<'buf> {
    #[verifier::type_invariant]
    spec fn well_formed(self) -> bool {
        distinct_keys(self.entries@)
    }

    /// Parses a raw query text. Every text is a query string: a fragment
    /// without `=` is a key with the empty value, and an empty fragment is
    /// the empty key with the empty value.
    pub fn from(s: &'buf str) -> (query: QueryString<'buf>)
        ensures
            query@ == parse_query(s@),
    {
        let mut entries: Vec<Entry<'buf>> = Vec::new();
        let mut rest: &'buf str = s;
        let ghost mut done: Seq<Seq<char>> = Seq::empty();
        assert(entries_map(entries@) =~= query_of_fragments(done));
        assert(done + split_all(rest@, '&') =~= split_all(s@, '&'));
        loop
            invariant
                distinct_keys(entries@),
                entries_map(entries@) == query_of_fragments(done),
                done + split_all(rest@, '&') == split_all(s@, '&'),
            ensures
                split_once(rest@, '&') is None,
            decreases rest@.len(),
        {
            match cut_at(rest, '&') {
                Some((fragment, tail)) => {
                    add_fragment(&mut entries, fragment);
                    proof {
                        lemma_split_first_parts(rest@, set!['&']);
                        lemma_query_push(done, fragment@);
                        assert(done.push(fragment@) + split_all(tail@, '&') =~= done + split_all(
                            rest@,
                            '&',
                        ));
                        done = done.push(fragment@);
                    }
                    rest = tail;
                },
                None => {
                    break ;
                },
            }
        }
        add_fragment(&mut entries, rest);
        proof {
            lemma_query_push(done, rest@);
            assert(done.push(rest@) =~= split_all(s@, '&'));
        }
        QueryString { entries }
    }

    /// Looks up what the query string holds for `key`.
    pub fn get(&self, key: &str) -> (found: Option<&Value<'buf>>)
        ensures
            found is Some <==> self@.contains_key(key@),
            found matches Some(value) ==> value@ == self@[key@],
    {
        proof {
            use_type_invariant(self);
        }
        match position(&self.entries, key) {
            Some(i) => {
                proof {
                    lemma_entry_lookup(self.entries@, i as int);
                }
                Some(&self.entries[i].value)
            },
            None => None,
        }
    }
}

} // verus!
