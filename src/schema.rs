//! The configuration model: for each asset, its content identifiers and
//! the variable name of each.

use crate::assoc::{assoc_map, keyed, lookup, pairs_view};
use crate::error::{is_bad_key, IgnitionError};
use vstd::prelude::*;
use vstd::string::*;

verus! {

/// Environment configuration for a particular asset.
pub struct AssetEnvironment {
    /// Content identifiers expected on extraction of the asset, in order.
    pub contents: Vec<String>,
    /// Variable name of each content identifier (a later entry for an
    /// identifier overrides an earlier one).
    pub environment: Vec<(String, String)>,
}

/// A content identifier together with its configured variable name.
pub struct Binding {
    pub content: String,
    pub variable: String,
}

/// The content identifiers of an asset that resolution processes: those
/// before the first one without a variable name.
pub struct Plan {
    /// Each of those content identifiers with its variable name, in order.
    pub bindings: Vec<Binding>,
    /// The failed lookup of the first content identifier without a variable
    /// name, if there is one.
    pub unmapped: Option<IgnitionError>,
}

/// The configuration of every asset, keyed by asset name (a later entry
/// for a name overrides an earlier one).
pub struct Schema {
    pub assets: Vec<(String, AssetEnvironment)>,
}

impl Binding {
    pub open spec fn pair(self) -> (Seq<char>, Seq<char>) {
        (self.content@, self.variable@)
    }
}

/// Content identifier and variable name of each binding, in order.
pub open spec fn binding_pairs(b: Seq<Binding>) -> Seq<(Seq<char>, Seq<char>)> {
    b.map_values(|x: Binding| x.pair())
}

impl AssetEnvironment {
    /// Variable name of each content identifier.
    pub open spec fn variables(self) -> Map<Seq<char>, Seq<char>> {
        assoc_map(pairs_view(self.environment@))
    }

    /// The `i`-th content identifier has a variable name.
    pub open spec fn mapped_at(self, i: int) -> bool {
        self.variables().contains_key(self.contents@[i]@)
    }

    /// Index of the first content identifier, from `i` on, that has no
    /// variable name; the number of content identifiers if there is none.
    pub open spec fn mapped_from(self, i: nat) -> nat
        decreases self.contents@.len() - i,
    {
        if i >= self.contents@.len() {
            self.contents@.len()
        } else if !self.mapped_at(i as int) {
            i
        } else {
            self.mapped_from(i + 1)
        }
    }

    /// Length of the run of content identifiers, from the first, that have a
    /// variable name: resolution processes these, and stops at the next.
    pub open spec fn mapped_len(self) -> nat {
        self.mapped_from(0)
    }

    /// Every content identifier has a variable name.
    pub open spec fn fully_mapped(self) -> bool {
        forall|i: int| 0 <= i < self.contents@.len() ==> self.mapped_at(i)
    }

    /// `b` pairs each of the first `b.len()` content identifiers, in order,
    /// with its variable name.
    pub open spec fn bound_by(self, b: Seq<(Seq<char>, Seq<char>)>) -> bool {
        &&& b.len() <= self.contents@.len()
        &&& forall|i: int|
            0 <= i < b.len() ==> #[trigger] b[i] == (
                self.contents@[i]@,
                self.variables()[self.contents@[i]@],
            )
    }

    /// The first `mapped_len()` content identifiers, each with its variable
    /// name.
    pub open spec fn mapped_pairs(self) -> Seq<(Seq<char>, Seq<char>)> {
        Seq::new(
            self.mapped_len(),
            |i: int| (self.contents@[i]@, self.variables()[self.contents@[i]@]),
        )
    }

    /// The content identifiers before `mapped_len()` have a variable name,
    /// and the one at `mapped_len()`, if any, has none.
    pub proof fn lemma_mapped_run(self)
        ensures
            self.mapped_len() <= self.contents@.len(),
            forall|j: int| 0 <= j < self.mapped_len() ==> self.mapped_at(j),
            self.mapped_len() < self.contents@.len() ==> !self.mapped_at(self.mapped_len() as int),
    {
        self.lemma_mapped_run_from(0);
    }

    proof fn lemma_mapped_run_from(self, m: nat)
        ensures
            m <= self.contents@.len() ==> m <= self.mapped_from(m) <= self.contents@.len(),
            forall|j: int| m <= j < self.mapped_from(m) ==> self.mapped_at(j),
            self.mapped_from(m) < self.contents@.len() ==> !self.mapped_at(self.mapped_from(m) as int),
        decreases self.contents@.len() - m,
    {
        if m < self.contents@.len() && self.mapped_at(m as int) {
            self.lemma_mapped_run_from(m + 1);
        }
    }

    /// The run of mapped content identifiers ends at `i`.
    pub proof fn lemma_mapped_len(self, i: nat)
        requires
            i <= self.contents@.len(),
            forall|j: int| 0 <= j < i ==> self.mapped_at(j),
            i == self.contents@.len() || !self.mapped_at(i as int),
        ensures
            self.mapped_len() == i,
    {
        self.lemma_mapped_from(0, i);
    }

    proof fn lemma_mapped_from(self, m: nat, i: nat)
        requires
            m <= i <= self.contents@.len(),
            forall|j: int| m <= j < i ==> self.mapped_at(j),
            i == self.contents@.len() || !self.mapped_at(i as int),
        ensures
            self.mapped_from(m) == i,
        decreases i - m,
    {
        if m < i {
            self.lemma_mapped_from(m + 1, i);
        }
    }

    /// The variable name configured for `content`; fails with
    /// `BadHashMapKeyError(content)` where there is none.
    pub fn lookup_variable(&self, content: &String) -> (r: Result<String, IgnitionError>)
        ensures
            match r {
                Ok(v) => self.variables().contains_key(content@) && v@ == self.variables()[content@],
                Err(e) => !self.variables().contains_key(content@) && is_bad_key(e, content@),
            },
    {
        match self.find_variable(content) {
            Some(v) => Ok(v.clone()),
            None => Err(IgnitionError::BadHashMapKeyError(content.clone())),
        }
    }

    fn find_variable(&self, content: &String) -> (r: Option<&String>)
        ensures
            match r {
                Some(v) => self.variables().contains_key(content@) && v@ == self.variables()[content@],
                None => !self.variables().contains_key(content@),
            },
    {
        let r = lookup(&self.environment, content);
        proof {
            lemma_keyed_views(self.environment@, content@);
        }
        r
    }

    /// Pairs the content identifiers, in declared order, with their
    /// variable names, up to the first one that has none; that one gives
    /// `BadHashMapKeyError` with its identifier.
    pub fn plan(&self) -> (r: Plan)
        ensures
            r.bindings@.len() == self.mapped_len(),
            self.bound_by(binding_pairs(r.bindings@)),
            r.unmapped is None <==> self.fully_mapped(),
            r.unmapped is None <==> self.mapped_len() == self.contents@.len(),
            r.unmapped matches Some(e) ==> is_bad_key(e, self.contents@[self.mapped_len() as int]@),
    {
        let mut out: Vec<Binding> = Vec::new();
        let mut i: usize = 0;
        while i < self.contents.len()
            invariant
                i <= self.contents@.len(),
                out@.len() == i,
                forall|j: int| 0 <= j < i ==> self.mapped_at(j),
                forall|j: int|
                    0 <= j < i ==> #[trigger] out@[j].pair() == (
                        self.contents@[j]@,
                        self.variables()[self.contents@[j]@],
                    ),
            decreases self.contents@.len() - i,
        {
            let content = &self.contents[i];
            match self.lookup_variable(content) {
                Ok(v) => {
                    out.push(Binding { content: content.clone(), variable: v });
                },
                Err(e) => {
                    proof {
                        assert(!self.mapped_at(i as int));
                        self.lemma_mapped_len(i as nat);
                        self.lemma_bound_prefix(out@);
                    }
                    return Plan { bindings: out, unmapped: Some(e) };
                },
            }
            i = i + 1;
        }
        proof {
            self.lemma_mapped_len(i as nat);
            self.lemma_bound_prefix(out@);
        }
        Plan { bindings: out, unmapped: None }
    }

    proof fn lemma_bound_prefix(self, out: Seq<Binding>)
        requires
            out.len() <= self.contents@.len(),
            forall|j: int|
                0 <= j < out.len() ==> #[trigger] out[j].pair() == (
                    self.contents@[j]@,
                    self.variables()[self.contents@[j]@],
                ),
        ensures
            self.bound_by(binding_pairs(out)),
    {
        let b = binding_pairs(out);
        assert forall|j: int| 0 <= j < b.len() implies #[trigger] b[j] == (
            self.contents@[j]@,
            self.variables()[self.contents@[j]@],
        ) by {
            assert(out[j].pair() == b[j]);
        }
    }
}

/// Looking a key up through `keyed` and through `pairs_view` agrees.
proof fn lemma_keyed_views(s: Seq<(String, String)>, k: Seq<char>)
    ensures
        assoc_map(keyed(s)).contains_key(k) == assoc_map(pairs_view(s)).contains_key(k),
        assoc_map(keyed(s)).contains_key(k) ==> assoc_map(keyed(s))[k]@ == assoc_map(pairs_view(s))[k],
    decreases s.len(),
{
    if s.len() > 0 {
        lemma_keyed_views(s.drop_last(), k);
        assert(keyed(s).drop_last() =~= keyed(s.drop_last()));
        assert(pairs_view(s).drop_last() =~= pairs_view(s.drop_last()));
    }
}

impl Schema {
    /// Configuration of each asset, by name.
    pub open spec fn assets_map(self) -> Map<Seq<char>, AssetEnvironment> {
        assoc_map(keyed(self.assets@))
    }

    /// The configuration of the asset named `name`; fails with
    /// `BadHashMapKeyError(name)` where there is none.
    pub fn lookup_asset(&self, name: &str) -> (r: Result<&AssetEnvironment, IgnitionError>)
        ensures
            match r {
                Ok(a) => self.assets_map().contains_key(name@) && *a == self.assets_map()[name@],
                Err(e) => !self.assets_map().contains_key(name@) && is_bad_key(e, name@),
            },
    {
        let key = String::from_str(name);
        match lookup(&self.assets, &key) {
            Some(a) => Ok(a),
            None => Err(IgnitionError::BadHashMapKeyError(key)),
        }
    }
}

} // verus!
