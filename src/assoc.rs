//! Association lists keyed by strings, and the maps they denote.
//!
//! A list is read in order: a later entry for a key overrides an earlier
//! one, as repeated insertions into a map would.

use vstd::prelude::*;

verus! {

/// The map denoted by the list `s`.
pub open spec fn assoc_map<V>(s: Seq<(Seq<char>, V)>) -> Map<Seq<char>, V>
    decreases s.len(),
{
    if s.len() == 0 {
        Map::empty()
    } else {
        assoc_map(s.drop_last()).insert(s.last().0, s.last().1)
    }
}

/// A list with string keys, seen through the keys' views.
pub open spec fn keyed<V>(s: Seq<(String, V)>) -> Seq<(Seq<char>, V)> {
    s.map_values(|p: (String, V)| (p.0@, p.1))
}

/// A list of string pairs, seen through the views of both sides.
pub open spec fn pairs_view(s: Seq<(String, String)>) -> Seq<(Seq<char>, Seq<char>)> {
    s.map_values(|p: (String, String)| (p.0@, p.1@))
}

/// Appending an entry inserts it into the denoted map.
pub proof fn lemma_assoc_push<V>(s: Seq<(Seq<char>, V)>, k: Seq<char>, v: V)
    ensures
        assoc_map(s.push((k, v))) == assoc_map(s).insert(k, v),
{
    assert(s.push((k, v)).drop_last() =~= s);
}

/// A key that no entry carries is not in the denoted map.
pub proof fn lemma_assoc_absent<V>(s: Seq<(Seq<char>, V)>, k: Seq<char>)
    requires
        forall|j: int| 0 <= j < s.len() ==> s[j].0 != k,
    ensures
        !assoc_map(s).contains_key(k),
    decreases s.len(),
{
    if s.len() > 0 {
        lemma_assoc_absent(s.drop_last(), k);
    }
}

/// The last entry that carries a key gives the key's value.
pub proof fn lemma_assoc_at<V>(s: Seq<(Seq<char>, V)>, k: Seq<char>, i: int)
    requires
        0 <= i < s.len(),
        s[i].0 == k,
        forall|j: int| i < j < s.len() ==> s[j].0 != k,
    ensures
        assoc_map(s).contains_key(k),
        assoc_map(s)[k] == s[i].1,
    decreases s.len(),
{
    if i < s.len() - 1 {
        lemma_assoc_at(s.drop_last(), k, i);
    }
}

/// Index of the last entry of `entries` whose key is `key`.
pub fn find_last<V>(entries: &Vec<(String, V)>, key: &String) -> (r: Option<usize>)
    ensures
        match r {
            Some(i) => {
                &&& i < entries@.len()
                &&& entries@[i as int].0@ == key@
                &&& forall|j: int| i < j < entries@.len() ==> entries@[j].0@ != key@
            },
            None => forall|j: int| 0 <= j < entries@.len() ==> entries@[j].0@ != key@,
        },
{
    let mut i: usize = entries.len();
    while i > 0
        invariant
            i <= entries@.len(),
            forall|j: int| i <= j < entries@.len() ==> entries@[j].0@ != key@,
        decreases i,
    {
        i = i - 1;
        if entries[i].0 == *key {
            return Some(i);
        }
    }
    None
}

/// Looks `key` up in `entries`, the last entry for a key taking precedence.
pub fn lookup<'a, V>(entries: &'a Vec<(String, V)>, key: &String) -> (r: Option<&'a V>)
    ensures
        match r {
            Some(v) => {
                &&& assoc_map(keyed(entries@)).contains_key(key@)
                &&& *v == assoc_map(keyed(entries@))[key@]
            },
            None => !assoc_map(keyed(entries@)).contains_key(key@),
        },
{
    let found = find_last(entries, key);
    proof {
        let s = keyed(entries@);
        match found {
            Some(i) => lemma_assoc_at(s, key@, i as int),
            None => lemma_assoc_absent(s, key@),
        }
    }
    match found {
        Some(i) => Some(&entries[i].1),
        None => None,
    }
}

/// A mapping from variable names to values, built by one resolution.
///
/// `entries` keeps the assignments in the order they were made; the map
/// it denotes is the view.
pub struct ResolvedEnvironment {
    pub entries: Vec<(String, String)>,
}

impl View for ResolvedEnvironment {
    type V = Map<Seq<char>, Seq<char>>;

    open spec fn view(&self) -> Map<Seq<char>, Seq<char>> {
        assoc_map(pairs_view(self.entries@))
    }
}

impl ResolvedEnvironment {
    /// An environment with no assignment.
    pub fn new() -> (r: Self)
        ensures
            r.entries@.len() == 0,
            r@ == Map::<Seq<char>, Seq<char>>::empty(),
    {
        ResolvedEnvironment { entries: Vec::new() }
    }

    /// Assigns `value` to `variable`, after every earlier assignment.
    pub fn insert(&mut self, variable: String, value: String)
        ensures
            final(self).entries@ == old(self).entries@.push((variable, value)),
            final(self)@ == old(self)@.insert(variable@, value@),
    {
        let ghost before = self.entries@;
        self.entries.push((variable, value));
        proof {
            assert(pairs_view(self.entries@) =~= pairs_view(before).push((variable@, value@)));
            lemma_assoc_push(pairs_view(before), variable@, value@);
        }
    }

    /// The value assigned last to `variable`, if any.
    pub fn get(&self, variable: &String) -> (r: Option<&String>)
        ensures
            match r {
                Some(v) => self@.contains_key(variable@) && v@ == self@[variable@],
                None => !self@.contains_key(variable@),
            },
    {
        let found = find_last(&self.entries, variable);
        proof {
            let s = pairs_view(self.entries@);
            match found {
                Some(i) => lemma_assoc_at(s, variable@, i as int),
                None => lemma_assoc_absent(s, variable@),
            }
        }
        match found {
            Some(i) => Some(&self.entries[i].1),
            None => None,
        }
    }

    /// Number of assignments made, a variable assigned twice counting
    /// twice: at least the number of distinct variables in the view.
    pub fn len(&self) -> (r: usize)
        ensures
            r == self.entries@.len(),
    {
        self.entries.len()
    }
}

} // verus!
