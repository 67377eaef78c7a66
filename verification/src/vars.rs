//! Named variables, and the `{name}` templates that they are substituted into.

use indexmap::IndexMap;
use vstd::prelude::*;
use vstd::string::*;

use crate::text::split_once;

verus! {

// ---------------------------------------------------------------------------------------------
// Ordered entries
// ---------------------------------------------------------------------------------------------

/// Where the entry of `key` stands among `entries`.
pub open spec fn find_key(entries: Seq<(Seq<char>, Seq<char>)>, key: Seq<char>) -> Option<int>
    decreases entries.len(),
{
    if entries.len() == 0 {
        None
    } else if entries.last().0 == key {
        Some(entries.len() - 1)
    } else {
        find_key(entries.drop_last(), key)
    }
}

/// The value of `key` among `entries`.
pub open spec fn value_of(entries: Seq<(Seq<char>, Seq<char>)>, key: Seq<char>) -> Option<
    Seq<char>,
> {
    match find_key(entries, key) {
        Some(i) => Some(entries[i].1),
        None => None,
    }
}

/// `entries` with `key` set to `value`: in its place where there is such an entry, last where
/// there is none.
pub open spec fn with_entry(
    entries: Seq<(Seq<char>, Seq<char>)>,
    key: Seq<char>,
    value: Seq<char>,
) -> Seq<(Seq<char>, Seq<char>)> {
    match find_key(entries, key) {
        Some(i) => entries.update(i, (key, value)),
        None => entries.push((key, value)),
    }
}

/// No key occurs twice.
pub open spec fn distinct_keys(entries: Seq<(Seq<char>, Seq<char>)>) -> bool {
    forall|i: int, j: int|
        0 <= i < j < entries.len() ==> (#[trigger] entries[i]).0 != (#[trigger] entries[j]).0
}

proof fn lemma_find_key(entries: Seq<(Seq<char>, Seq<char>)>, key: Seq<char>)
    ensures
        match find_key(entries, key) {
            Some(i) => 0 <= i < entries.len() && entries[i].0 == key,
            None => forall|i: int| 0 <= i < entries.len() ==> (#[trigger] entries[i]).0 != key,
        },
    decreases entries.len(),
{
    if entries.len() > 0 && entries.last().0 != key {
        lemma_find_key(entries.drop_last(), key);
        assert forall|i: int|
            find_key(entries, key) is None && 0 <= i < entries.len() implies (
        #[trigger] entries[i]).0 != key by {
            if i < entries.len() - 1 {
                assert(entries.drop_last()[i] == entries[i]);
            }
        }
    }
}

/// Setting a variable keeps the keys distinct.
pub proof fn lemma_distinct_keys(
    entries: Seq<(Seq<char>, Seq<char>)>,
    key: Seq<char>,
    value: Seq<char>,
)
    ensures
        distinct_keys(entries) ==> distinct_keys(with_entry(entries, key, value)),
{
    lemma_find_key(entries, key);
}

/// A variable reads as it was last set, and setting it changes no other variable.
pub proof fn lemma_get_after_insert(
    entries: Seq<(Seq<char>, Seq<char>)>,
    key: Seq<char>,
    value: Seq<char>,
    other: Seq<char>,
)
    ensures
        value_of(with_entry(entries, key, value), other) == if other == key {
            Some(value)
        } else {
            value_of(entries, other)
        },
    decreases entries.len(),
{
    lemma_find_key(entries, key);
    lemma_find_key(entries, other);
    let new = with_entry(entries, key, value);
    if find_key(entries, key) is None {
        assert(new.drop_last() =~= entries);
    } else if entries.last().0 == key {
        assert(new.drop_last() =~= entries.drop_last());
    } else {
        lemma_get_after_insert(entries.drop_last(), key, value, other);
        assert(new.drop_last() =~= with_entry(entries.drop_last(), key, value));
        lemma_find_key(new.drop_last(), other);
        lemma_find_key(entries.drop_last(), other);
    }
}

/// A variable has a value exactly where there is an entry for it, and the value is that of an entry.
pub proof fn lemma_value_is_held(entries: Seq<(Seq<char>, Seq<char>)>, key: Seq<char>)
    ensures
        value_of(entries, key) matches Some(value) ==> entries.contains((key, value)),
        forall|i: int|
            0 <= i < entries.len() && (#[trigger] entries[i]).0 == key ==> value_of(entries, key)
                is Some,
{
    lemma_find_key(entries, key);
    if let Some(i) = find_key(entries, key) {
        assert(entries[i] == (key, entries[i].1));
    }
}

/// Setting a variable that is there keeps every variable in its place; a new one comes last.
pub proof fn lemma_insert_keeps_order(
    entries: Seq<(Seq<char>, Seq<char>)>,
    key: Seq<char>,
    value: Seq<char>,
)
    ensures
        entries.len() <= with_entry(entries, key, value).len() <= entries.len() + 1,
        with_entry(entries, key, value).len() == entries.len() <==> value_of(entries, key) is Some,
        forall|i: int|
            0 <= i < entries.len() ==> (#[trigger] with_entry(entries, key, value)[i]).0
                == entries[i].0,
        value_of(entries, key) is None ==> with_entry(entries, key, value).last() == (key, value),
{
    lemma_find_key(entries, key);
}

// ---------------------------------------------------------------------------------------------
// The map
// ---------------------------------------------------------------------------------------------

/// Declares [`indexmap::IndexMap`], a hash map that keeps the order of insertion.
#[verifier::external_type_specification]
#[verifier::external_body]
#[verifier::reject_recursive_types(K)]
#[verifier::reject_recursive_types(V)]
#[verifier::reject_recursive_types(S)]
pub struct ExIndexMap<K, V, S>(IndexMap<K, V, S>);

/// What a map of strings holds, in its order.
pub uninterp spec fn map_entries(map: IndexMap<String, String>) -> Seq<(Seq<char>, Seq<char>)>;

/// Calls `IndexMap::default`.
///
/// Claims that the map is empty.
#[verifier::external_body]
fn map_default() -> (map: IndexMap<String, String>)
    ensures
        map_entries(map) == Seq::<(Seq<char>, Seq<char>)>::empty(),
{
    IndexMap::default()
}

/// Calls `IndexMap::clone`.
///
/// Claims that the clone holds the same entries in the same order.
#[verifier::external_body]
fn map_clone(map: &IndexMap<String, String>) -> (copy: IndexMap<String, String>)
    ensures
        map_entries(copy) == map_entries(*map),
{
    map.clone()
}

/// Calls `IndexMap::insert`.
///
/// Claims what its documentation says: a key that is there stays in its place and gets the new
/// value, any other entry comes last.
#[verifier::external_body]
fn map_insert(map: &mut IndexMap<String, String>, key: String, value: String)
    ensures
        map_entries(*final(map)) == with_entry(map_entries(*old(map)), key@, value@),
{
    map.insert(key, value);
}

/// Calls `IndexMap::get`.
///
/// Claims that the value stored for the key is handed out, and nothing where there is none.
#[verifier::external_body]
fn map_get<'a>(map: &'a IndexMap<String, String>, key: &str) -> (value: Option<&'a String>)
    ensures
        match value {
            Some(v) => value_of(map_entries(*map), key@) == Some(v@),
            None => value_of(map_entries(*map), key@) is None,
        },
{
    map.get(key)
}

/// Calls `IndexMap::iter`.
///
/// Claims that it hands out every entry, in the map's order.
#[verifier::external_body]
fn map_iter(map: &IndexMap<String, String>) -> (entries: Vec<(&String, &String)>)
    ensures
        entries@.len() == map_entries(*map).len(),
        forall|i: int|
            0 <= i < entries@.len() ==> (
            (#[trigger] entries@[i]).0@,
            entries@[i].1@,
            ) == map_entries(*map)[i],
{
    map.iter().collect()
}

/// Calls `IndexMap::into_iter`.
///
/// Claims that it hands out every entry, in the map's order.
#[verifier::external_body]
fn map_into_iter(map: IndexMap<String, String>) -> (entries: Vec<(String, String)>)
    ensures
        entries@.len() == map_entries(map).len(),
        forall|i: int|
            0 <= i < entries@.len() ==> (
            (#[trigger] entries@[i]).0@,
            entries@[i].1@,
            ) == map_entries(map)[i],
{
    map.into_iter().collect()
}

// ---------------------------------------------------------------------------------------------
// Templates
// ---------------------------------------------------------------------------------------------

/// The first `{key}` of a text: what stands before it, the key, and what stands after it. The key
/// reaches from the first `{` to the first `}` after it.
pub open spec fn first_template(s: Seq<char>) -> Option<(Seq<char>, Seq<char>, Seq<char>)> {
    match s.index_of_first('{') {
        None => None,
        Some(open) => {
            let rest = s.skip(open + 1);
            match rest.index_of_first('}') {
                None => None,
                Some(close) => Some((s.take(open), rest.take(close), rest.skip(close + 1))),
            }
        },
    }
}

/// What `{key}` stands for: the value of `key`, or itself where `key` has none.
pub open spec fn substitution(
    entries: Seq<(Seq<char>, Seq<char>)>,
    key: Seq<char>,
) -> Seq<char> {
    match value_of(entries, key) {
        Some(value) => value,
        None => seq!['{'] + key + seq!['}'],
    }
}

/// `s` with every `{key}`, from the left, replaced by what it stands for. What is put in is not
/// looked at again.
pub open spec fn expanded(entries: Seq<(Seq<char>, Seq<char>)>, s: Seq<char>) -> Seq<char>
    decreases s.len(),
{
    match first_template(s) {
        None => s,
        Some((before, key, after)) => {
            proof {
                lemma_template_bounds(s);
            }
            before + substitution(entries, key) + expanded(entries, after)
        },
    }
}

/// The three parts and the two braces make up the text.
pub proof fn lemma_template_bounds(s: Seq<char>)
    ensures
        first_template(s) matches Some((before, key, after)) ==> {
            &&& s == before + seq!['{'] + key + seq!['}'] + after
            &&& !before.contains('{')
            &&& !key.contains('}')
            &&& after.len() < s.len()
        },
{
    s.index_of_first_ensures('{');
    if let Some(open) = s.index_of_first('{') {
        let rest = s.skip(open + 1);
        rest.index_of_first_ensures('}');
        if let Some(close) = rest.index_of_first('}') {
            assert(s =~= s.take(open) + seq!['{'] + rest.take(close) + seq!['}'] + rest.skip(
                close + 1,
            ));
        }
    }
}

/// The place of the first `c` in `s`, known from what surrounds it.
proof fn lemma_index_of_first(s: Seq<char>, c: char, at: int)
    requires
        0 <= at < s.len(),
        s[at] == c,
        forall|i: int| 0 <= i < at ==> s[i] != c,
    ensures
        s.index_of_first(c) == Some(at),
{
    s.index_of_first_ensures(c);
}

proof fn lemma_no_index(s: Seq<char>, c: char)
    requires
        forall|i: int| 0 <= i < s.len() ==> s[i] != c,
    ensures
        s.index_of_first(c) is None,
{
    s.index_of_first_ensures(c);
}

/// A text without `{` expands to itself.
pub proof fn lemma_expand_plain(entries: Seq<(Seq<char>, Seq<char>)>, s: Seq<char>)
    requires
        !s.contains('{'),
    ensures
        expanded(entries, s) == s,
{
    lemma_no_index(s, '{');
}

/// A text in which no `{` is closed expands to itself.
pub proof fn lemma_expand_unclosed(
    entries: Seq<(Seq<char>, Seq<char>)>,
    before: Seq<char>,
    rest: Seq<char>,
)
    requires
        !before.contains('{'),
        !rest.contains('}'),
    ensures
        expanded(entries, before + seq!['{'] + rest) == before + seq!['{'] + rest,
{
    let s = before + seq!['{'] + rest;
    assert forall|i: int| 0 <= i < before.len() implies s[i] != '{' by {
        assert(before.contains(before[i]));
    }
    lemma_index_of_first(s, '{', before.len() as int);
    assert(s.skip(before.len() as int + 1) =~= rest);
    lemma_no_index(rest, '}');
}

/// The first `{key}` of a text is replaced by what it stands for, and the text goes on after it.
pub proof fn lemma_expand_reference(
    entries: Seq<(Seq<char>, Seq<char>)>,
    before: Seq<char>,
    key: Seq<char>,
    after: Seq<char>,
)
    requires
        !before.contains('{'),
        !key.contains('}'),
    ensures
        expanded(entries, before + seq!['{'] + key + seq!['}'] + after) == before + substitution(
            entries,
            key,
        ) + expanded(entries, after),
{
    let s = before + seq!['{'] + key + seq!['}'] + after;
    assert forall|i: int| 0 <= i < before.len() implies s[i] != '{' by {
        assert(before.contains(before[i]));
    }
    lemma_index_of_first(s, '{', before.len() as int);
    let rest = s.skip(before.len() as int + 1);
    assert(rest =~= key + seq!['}'] + after);
    assert forall|i: int| 0 <= i < key.len() implies rest[i] != '}' by {
        assert(key.contains(key[i]));
    }
    lemma_index_of_first(rest, '}', key.len() as int);
    assert(s.take(before.len() as int) =~= before);
    assert(rest.take(key.len() as int) =~= key);
    assert(rest.skip(key.len() as int + 1) =~= after);
}

/// A reference to a variable that is set stands for its value, and what stands around it stays.
pub proof fn lemma_expand_one(
    entries: Seq<(Seq<char>, Seq<char>)>,
    before: Seq<char>,
    key: Seq<char>,
    value: Seq<char>,
    after: Seq<char>,
)
    requires
        !before.contains('{'),
        !key.contains('}'),
        !after.contains('{'),
        value_of(entries, key) == Some(value),
    ensures
        expanded(entries, before + seq!['{'] + key + seq!['}'] + after) == before + value + after,
{
    lemma_expand_reference(entries, before, key, after);
    lemma_expand_plain(entries, after);
}

/// Where no variable is set, every text expands to itself.
pub proof fn lemma_expand_unset(s: Seq<char>)
    ensures
        expanded(Seq::empty(), s) == s,
    decreases s.len(),
{
    lemma_template_bounds(s);
    if let Some((before, key, after)) = first_template(s) {
        lemma_expand_unset(after);
        assert(s =~= before + (seq!['{'] + key + seq!['}']) + after);
    }
}

/// A text in which no name of a variable stands in braces expands to itself.
pub proof fn lemma_expand_undefined(entries: Seq<(Seq<char>, Seq<char>)>, s: Seq<char>)
    requires
        forall|i: int, j: int|
            0 <= i < j < s.len() && s[i] == '{' && s[j] == '}' ==> value_of(
                entries,
                #[trigger] s.subrange(i + 1, j),
            ) is None,
    ensures
        expanded(entries, s) == s,
    decreases s.len(),
{
    lemma_template_bounds(s);
    if let Some((before, key, after)) = first_template(s) {
        let i = before.len() as int;
        let j = i + 1 + key.len();
        assert(s.subrange(i + 1, j) =~= key);
        assert(s[i] == '{' && s[j] == '}');
        assert(value_of(entries, key) is None);
        let at = s.len() - after.len();
        assert forall|k: int, l: int|
            0 <= k < l < after.len() && after[k] == '{' && after[l] == '}' implies value_of(
            entries,
            #[trigger] after.subrange(k + 1, l),
        ) is None by {
            assert(s[at + k] == after[k] && s[at + l] == after[l]);
            assert(s.subrange(at + k + 1, at + l) =~= after.subrange(k + 1, l));
        }
        lemma_expand_undefined(entries, after);
        assert(s =~= before + (seq!['{'] + key + seq!['}']) + after);
    }
}

/// Whether every brace that opens in `s`, read from the left, is closed in `s`.
pub open spec fn closes_braces(s: Seq<char>) -> bool
    decreases s.len(),
{
    match first_template(s) {
        None => !s.contains('{'),
        Some((before, key, after)) => {
            proof {
                lemma_template_bounds(s);
            }
            closes_braces(after)
        },
    }
}

/// Behind a text that closes its braces, a further text expands as it does alone.
pub proof fn lemma_expand_concat(
    entries: Seq<(Seq<char>, Seq<char>)>,
    left: Seq<char>,
    right: Seq<char>,
)
    requires
        closes_braces(left),
    ensures
        expanded(entries, left + right) == expanded(entries, left) + expanded(entries, right),
    decreases left.len(),
{
    lemma_template_bounds(left);
    match first_template(left) {
        Some((before, key, after)) => {
            lemma_expand_concat(entries, after, right);
            lemma_expand_reference(entries, before, key, after + right);
            assert(before + seq!['{'] + key + seq!['}'] + (after + right) =~= left + right);
            assert(expanded(entries, left + right) =~= expanded(entries, left) + expanded(
                entries,
                right,
            ));
        },
        None => {
            lemma_expand_plain(entries, left);
            lemma_template_bounds(right);
            match first_template(right) {
                Some((before, key, after)) => {
                    let longer = left + before;
                    assert(!longer.contains('{')) by {
                        if longer.contains('{') {
                            let i = choose|i: int| 0 <= i < longer.len() && longer[i] == '{';
                            if i < left.len() {
                                assert(left.contains(left[i]));
                            } else {
                                assert(before.contains(before[i - left.len()]));
                            }
                        }
                    }
                    lemma_expand_reference(entries, longer, key, after);
                    assert(longer + seq!['{'] + key + seq!['}'] + after =~= left + right);
                    assert(expanded(entries, left + right) =~= left + expanded(entries, right));
                },
                None => {
                    lemma_no_template(left, right);
                },
            }
        },
    }
}

/// A text without `{` before one without a template makes one without a template.
proof fn lemma_no_template(left: Seq<char>, right: Seq<char>)
    requires
        !left.contains('{'),
        first_template(right) is None,
    ensures
        first_template(left + right) is None,
{
    let s = left + right;
    assert forall|i: int| 0 <= i < left.len() implies s[i] != '{' by {
        assert(left.contains(left[i]));
    }
    right.index_of_first_ensures('{');
    match right.index_of_first('{') {
        None => {
            assert forall|i: int| 0 <= i < s.len() implies s[i] != '{' by {
                if i >= left.len() {
                    assert(right.contains(right[i - left.len()]));
                }
            }
            lemma_no_index(s, '{');
        },
        Some(open) => {
            lemma_index_of_first(s, '{', left.len() + open);
            assert(s.skip(left.len() + open + 1) =~= right.skip(open + 1));
        },
    }
}

/// The first `{key}` of `input`, cut into what stands before it, the key, and what stands after
/// it.
pub fn split_template(input: &str) -> (parts: Option<(&str, &str, &str)>)
    ensures
        match parts {
            Some((before, key, after)) => first_template(input@) == Some((before@, key@, after@)),
            None => first_template(input@) is None,
        },
{
    let open = vec!['{'];
    let close = vec!['}'];
    assert(open@.contains(open@[0]) && close@.contains(close@[0]));
    match split_once(input, open.as_slice()) {
        None => {
            proof {
                lemma_no_index(input@, '{');
            }
            None
        },
        Some((before, rest)) => {
            proof {
                lemma_index_of_first(input@, '{', before@.len() as int);
            }
            match split_once(rest, close.as_slice()) {
                None => {
                    proof {
                        lemma_no_index(rest@, '}');
                    }
                    None
                },
                Some((key, after)) => {
                    proof {
                        lemma_index_of_first(rest@, '}', key@.len() as int);
                    }
                    Some((before, key, after))
                },
            }
        },
    }
}

// ---------------------------------------------------------------------------------------------
// Variables
// ---------------------------------------------------------------------------------------------

/// A set of named variables, in the order in which they were first set.
pub struct Variables {
    vars: IndexMap<String, String>,
}

impl Variables {
    /// No variable is held twice.
    pub open spec fn wf(&self) -> bool {
        distinct_keys(self@)
    }
}

impl View for Variables {
    type V = Seq<(Seq<char>, Seq<char>)>;

    closed spec fn view(&self) -> Seq<(Seq<char>, Seq<char>)> {
        map_entries(self.vars)
    }
}

/// `entries` after setting each of `new`, in order.
pub open spec fn with_all(
    entries: Seq<(Seq<char>, Seq<char>)>,
    new: Seq<(Seq<char>, Seq<char>)>,
) -> Seq<(Seq<char>, Seq<char>)>
    decreases new.len(),
{
    if new.len() == 0 {
        entries
    } else {
        let done = with_all(entries, new.drop_last());
        with_entry(done, new.last().0, expanded(done, new.last().1))
    }
}

/// Setting one variable among several is setting it alone: to what its value comes to under the
/// variables before it. Setting none changes nothing.
pub proof fn lemma_insert_all_of_one(
    entries: Seq<(Seq<char>, Seq<char>)>,
    key: Seq<char>,
    value: Seq<char>,
    other: Seq<char>,
)
    ensures
        with_all(entries, Seq::empty()) == entries,
        with_all(entries, seq![(key, value)]) == with_entry(entries, key, expanded(entries, value)),
        value_of(with_all(entries, seq![(key, value)]), other) == if other == key {
            Some(expanded(entries, value))
        } else {
            value_of(entries, other)
        },
{
    let none = Seq::<(Seq<char>, Seq<char>)>::empty();
    assert(seq![(key, value)].drop_last() =~= none);
    assert(with_all(entries, none) == entries);
    lemma_get_after_insert(entries, key, expanded(entries, value), other);
}

/// Setting one list and then another is setting the two in a row.
pub proof fn lemma_insert_all_in_turn(
    entries: Seq<(Seq<char>, Seq<char>)>,
    first: Seq<(Seq<char>, Seq<char>)>,
    second: Seq<(Seq<char>, Seq<char>)>,
)
    ensures
        with_all(entries, first + second) == with_all(with_all(entries, first), second),
    decreases second.len(),
{
    if second.len() == 0 {
        assert(first + second =~= first);
    } else {
        assert((first + second).drop_last() =~= first + second.drop_last());
        lemma_insert_all_in_turn(entries, first, second.drop_last());
    }
}

/// A variable set to `{name}` gets the value that `name` has from those set before it.
pub proof fn lemma_later_refers_to_earlier(
    entries: Seq<(Seq<char>, Seq<char>)>,
    earlier: Seq<(Seq<char>, Seq<char>)>,
    key: Seq<char>,
    name: Seq<char>,
)
    requires
        !name.contains('}'),
    ensures
        value_of(
            with_all(entries, earlier.push((key, seq!['{'] + name + seq!['}']))),
            key,
        ) == Some(substitution(with_all(entries, earlier), name)),
{
    let reference = seq!['{'] + name + seq!['}'];
    let done = with_all(entries, earlier);
    let none = Seq::<char>::empty();
    assert(earlier.push((key, reference)).drop_last() =~= earlier);
    lemma_expand_reference(done, none, name, none);
    assert(none + seq!['{'] + name + seq!['}'] + none =~= reference);
    lemma_expand_plain(done, none);
    assert(none + substitution(done, name) + none =~= substitution(done, name));
    lemma_get_after_insert(done, key, substitution(done, name), key);
}

/// The characters of a list of pairs of strings.
pub open spec fn pairs_view(pairs: Seq<(String, String)>) -> Seq<(Seq<char>, Seq<char>)> {
    pairs.map_values(|pair: (String, String)| (pair.0@, pair.1@))
}

impl Default for Variables {
    fn default() -> (vars: Self)
        ensures
            vars@ == Seq::<(Seq<char>, Seq<char>)>::empty(),
            vars.wf(),
    {
        Variables { vars: map_default() }
    }
}

impl Clone for Variables {
    fn clone(&self) -> (copy: Self)
        ensures
            copy@ == self@,
            self.wf() ==> copy.wf(),
    {
        Variables { vars: map_clone(&self.vars) }
    }
}

impl Variables {
    /// Sets `key` to `value`, in which the variables that are set so far are expanded.
    pub fn insert(&mut self, key: String, value: String)
        ensures
            final(self)@ == with_entry(old(self)@, key@, expanded(old(self)@, value@)),
            old(self).wf() ==> final(self).wf(),
    {
        proof {
            lemma_distinct_keys(self@, key@, expanded(self@, value@));
        }
        if split_once(value.as_str(), vec!['{'].as_slice()).is_none() {
            proof {
                let open = seq!['{'];
                assert(open.contains(open[0]));
                lemma_no_index(value@, '{');
            }
            map_insert(&mut self.vars, key, value);
            return;
        }
        let resolved_value = self.expand_vars(value.as_str());
        map_insert(&mut self.vars, key, resolved_value);
    }

    /// Sets each of `entries`, in order, as [`Variables::insert`] does.
    pub fn insert_all(&mut self, entries: Vec<(String, String)>)
        ensures
            final(self)@ == with_all(old(self)@, pairs_view(entries@)),
            old(self).wf() ==> final(self).wf(),
    {
        let ghost distinct = self.wf();
        let ghost start = self@;
        let ghost all = pairs_view(entries@);
        assert(all.take(0) =~= Seq::<(Seq<char>, Seq<char>)>::empty());
        for entry in it: entries
            invariant
                it.seq() == entries@,
                all == pairs_view(entries@),
                self@ == with_all(start, all.take(it.index())),
                distinct ==> self.wf(),
        {
            assert(all.take(it.index() + 1).drop_last() =~= all.take(it.index()));
            assert(all[it.index()] == (entry.0@, entry.1@));
            self.insert(entry.0, entry.1);
        }
        assert(all.take(all.len() as int) =~= all);
    }

    /// `input` with every `{key}` replaced by the value of that variable; one that is not set
    /// stays as it is.
    pub fn expand_vars(&self, input: &str) -> (text: String)
        ensures
            text@ == expanded(self@, input@),
    {
        let mut expanded_text = String::new();
        let mut rest: &str = input;
        assert(expanded_text@ + expanded(self@, rest@) =~= expanded(self@, input@));
        while !rest.is_empty()
            invariant
                expanded_text@ + expanded(self@, rest@) == expanded(self@, input@),
            decreases rest@.len(),
        {
            match split_template(rest) {
                None => {
                    expanded_text.append(rest);
                    return expanded_text;
                },
                Some((before, key, after)) => {
                    let ghost done = expanded_text@;
                    proof {
                        lemma_template_bounds(rest@);
                        reveal_strlit("{");
                        reveal_strlit("}");
                    }
                    expanded_text.append(before);
                    match map_get(&self.vars, key) {
                        Some(value) => expanded_text.append(value.as_str()),
                        None => {
                            expanded_text.append("{");
                            expanded_text.append(key);
                            expanded_text.append("}");
                        },
                    }
                    assert(expanded_text@ =~= done + before@ + substitution(self@, key@));
                    assert(expanded_text@ + expanded(self@, after@) =~= done + (before@
                        + substitution(self@, key@) + expanded(self@, after@)));
                    rest = after;
                },
            }
        }
        proof {
            lemma_no_index(rest@, '{');
            assert(expanded_text@ + expanded(self@, rest@) =~= expanded_text@);
        }
        expanded_text
    }

    /// The value of `key`.
    pub fn get(&self, key: &str) -> (value: Option<&str>)
        ensures
            match value {
                Some(v) => value_of(self@, key@) == Some(v@),
                None => value_of(self@, key@) is None,
            },
    {
        match map_get(&self.vars, key) {
            Some(value) => Some(value.as_str()),
            None => None,
        }
    }

    /// Every variable with its value, in order.
    pub fn iter(&self) -> (entries: Vec<(&String, &String)>)
        ensures
            entries@.len() == self@.len(),
            forall|i: int|
                0 <= i < entries@.len() ==> ((#[trigger] entries@[i]).0@, entries@[i].1@)
                    == self@[i],
    {
        map_iter(&self.vars)
    }

    /// Every variable with its value, in order.
    pub fn into_iter(self) -> (entries: Vec<(String, String)>)
        ensures
            pairs_view(entries@) == self@,
    {
        let entries = map_into_iter(self.vars);
        assert(pairs_view(entries@) =~= self@);
        entries
    }
}

} // verus!
