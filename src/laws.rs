//! Properties of Export mode that relate the result to the whole input.

use crate::assoc::{assoc_map, lemma_assoc_push};
use crate::resolve::{export_entries, joined_path, observed};
use vstd::prelude::*;
use vstd::seq_lib::to_multiset_contains;

verus! {

/// The variable names of a sequence of bindings (content identifier,
/// variable name), in order.
pub open spec fn variables_of(b: Seq<(Seq<char>, Seq<char>)>) -> Seq<Seq<char>> {
    b.map_values(|p: (Seq<char>, Seq<char>)| p.1)
}

/// The map that Export mode returns for the observations `t`.
pub open spec fn export_map(base: Seq<char>, t: Seq<(Seq<char>, Seq<char>, bool)>) -> Map<Seq<char>, Seq<char>> {
    assoc_map(export_entries(base, t))
}

/// Observations that carry the same variable name carry the same content
/// identifier.
pub open spec fn consistent_variables(t: Seq<(Seq<char>, Seq<char>, bool)>) -> bool {
    forall|i: int, j: int| 0 <= i < t.len() && 0 <= j < t.len() && t[i].1 == t[j].1 ==> t[i].0 == t[j].0
}

/// Bindings that carry the same variable name carry the same content
/// identifier.
pub open spec fn consistent_bindings(b: Seq<(Seq<char>, Seq<char>)>) -> bool {
    forall|i: int, j: int| 0 <= i < b.len() && 0 <= j < b.len() && b[i].1 == b[j].1 ==> b[i].0 == b[j].0
}

/// The Export map holds a variable exactly when some content carrying it
/// was found, with the path of that content.
proof fn lemma_export_map(base: Seq<char>, t: Seq<(Seq<char>, Seq<char>, bool)>)
    requires
        consistent_variables(t),
    ensures
        forall|i: int|
            0 <= i < t.len() && t[i].2 ==> {
                &&& export_map(base, t).contains_key(#[trigger] t[i].1)
                &&& export_map(base, t)[t[i].1] == joined_path(base, t[i].0)
            },
        forall|k: Seq<char>|
            #[trigger] export_map(base, t).contains_key(k) ==> exists|i: int| 0 <= i < t.len() && t[i].1 == k && t[i].2,
    decreases t.len(),
{
    if t.len() > 0 {
        let s = t.drop_last();
        let n = t.len() - 1;
        assert(consistent_variables(s));
        lemma_export_map(base, s);
        if t.last().2 {
            lemma_assoc_push(export_entries(base, s), t.last().1, joined_path(base, t.last().0));
        } else {
            assert(export_entries(base, t) == export_entries(base, s));
        }
        assert forall|i: int| 0 <= i < t.len() && t[i].2 implies {
            &&& export_map(base, t).contains_key(#[trigger] t[i].1)
            &&& export_map(base, t)[t[i].1] == joined_path(base, t[i].0)
        } by {
            if i < n {
                assert(s[i] == t[i]);
            }
        }
        assert forall|k: Seq<char>| #[trigger] export_map(base, t).contains_key(k) implies exists|i: int| 0 <= i < t.len() && t[i].1 == k && t[i].2 by {
            if !(t[n].2 && k == t[n].1) {
                assert(export_map(base, s).contains_key(k));
                let j = choose|j: int| 0 <= j < s.len() && s[j].1 == k && s[j].2;
                assert(s[j] == t[j]);
            }
        }
    }
}

proof fn lemma_observed_consistent(b: Seq<(Seq<char>, Seq<char>)>, present: Seq<bool>)
    requires
        b.len() == present.len(),
        consistent_bindings(b),
    ensures
        consistent_variables(observed(b, present)),
        forall|i: int| 0 <= i < b.len() ==> #[trigger] observed(b, present)[i] == (b[i].0, b[i].1, present[i]),
{
}

/// When every content is found, Export mode returns one entry per variable
/// name, valued with the path under `base` of the content that carries it;
/// where no two contents share a variable name, that is one entry per
/// content identifier.
pub proof fn lemma_export_all_present(base: Seq<char>, b: Seq<(Seq<char>, Seq<char>)>, present: Seq<bool>)
    requires
        b.len() == present.len(),
        forall|i: int| 0 <= i < present.len() ==> present[i],
        consistent_bindings(b),
    ensures
        export_map(base, observed(b, present)).dom() == variables_of(b).to_set(),
        variables_of(b).no_duplicates() ==> export_map(base, observed(b, present)).dom().len() == b.len(),
        forall|i: int|
            0 <= i < b.len() ==> export_map(base, observed(b, present))[#[trigger] b[i].1] == joined_path(base, b[i].0),
{
    let t = observed(b, present);
    let m = export_map(base, t);
    lemma_observed_consistent(b, present);
    lemma_export_map(base, t);
    assert forall|k: Seq<char>| m.dom().contains(k) <==> variables_of(b).to_set().contains(k) by {
        if m.dom().contains(k) {
            let i = choose|i: int| 0 <= i < t.len() && t[i].1 == k && t[i].2;
            assert(variables_of(b)[i] == k);
        }
        if variables_of(b).to_set().contains(k) {
            let i = choose|i: int| 0 <= i < variables_of(b).len() && variables_of(b)[i] == k;
            assert(t[i].1 == k);
        }
    }
    assert(m.dom() =~= variables_of(b).to_set());
    if variables_of(b).no_duplicates() {
        variables_of(b).unique_seq_to_set();
    }
    assert forall|i: int| 0 <= i < b.len() implies m[#[trigger] b[i].1] == joined_path(base, b[i].0) by {
        assert(t[i].1 == b[i].1);
    }
}

/// Export mode holds the variable of each found content, valued with its
/// path whatever else was found; for a content that was not found (at any
/// of its places), neither an assignment nor a directive names its
/// variable.
pub proof fn lemma_export_skips_missing(base: Seq<char>, b: Seq<(Seq<char>, Seq<char>)>, present: Seq<bool>)
    requires
        b.len() == present.len(),
        consistent_bindings(b),
    ensures
        forall|i: int|
            0 <= i < b.len() && present[i] ==> {
                &&& export_map(base, observed(b, present)).contains_key(#[trigger] b[i].1)
                &&& export_map(base, observed(b, present))[b[i].1] == joined_path(base, b[i].0)
            },
        forall|i: int|
            0 <= i < b.len() && (forall|j: int| 0 <= j < b.len() && b[j].1 == b[i].1 ==> !present[j]) ==> {
                &&& !export_map(base, observed(b, present)).contains_key(#[trigger] b[i].1)
                &&& forall|j: int|
                    0 <= j < export_entries(base, observed(b, present)).len()
                        ==> #[trigger] export_entries(base, observed(b, present))[j].0 != b[i].1
            },
{
    let t = observed(b, present);
    let e = export_entries(base, t);
    lemma_observed_consistent(b, present);
    lemma_export_map(base, t);
    assert forall|i: int| 0 <= i < b.len() && present[i] implies {
        &&& export_map(base, t).contains_key(#[trigger] b[i].1)
        &&& export_map(base, t)[b[i].1] == joined_path(base, b[i].0)
    } by {
        assert(t[i].1 == b[i].1);
    }
    assert forall|i: int|
        0 <= i < b.len() && (forall|j: int| 0 <= j < b.len() && b[j].1 == b[i].1 ==> !present[j]) implies {
        &&& !export_map(base, t).contains_key(#[trigger] b[i].1)
        &&& forall|j: int| 0 <= j < e.len() ==> #[trigger] e[j].0 != b[i].1
    } by {
        if export_map(base, t).contains_key(b[i].1) {
            let l = choose|l: int| 0 <= l < t.len() && t[l].1 == b[i].1 && t[l].2;
            assert(t[l] == (b[l].0, b[l].1, present[l]));
        }
        assert forall|j: int| 0 <= j < e.len() implies #[trigger] e[j].0 != b[i].1 by {
            if e[j].0 == b[i].1 {
                lemma_entries_in_map(base, t, j);
            }
        }
    }
}

/// Every assignment of Export mode leaves its variable in the map.
proof fn lemma_entries_in_map(base: Seq<char>, t: Seq<(Seq<char>, Seq<char>, bool)>, j: int)
    requires
        0 <= j < export_entries(base, t).len(),
    ensures
        export_map(base, t).contains_key(export_entries(base, t)[j].0),
    decreases t.len(),
{
    let s = t.drop_last();
    let e = export_entries(base, s);
    if t.last().2 {
        lemma_assoc_push(e, t.last().1, joined_path(base, t.last().0));
        if j < e.len() {
            lemma_entries_in_map(base, s, j);
        }
    } else {
        lemma_entries_in_map(base, s, j);
    }
}

/// The order in which the content identifiers are processed does not
/// change the map that Export mode returns, as long as contents that share
/// a variable name share their content identifier: two orderings of the
/// same observations give the same map.
pub proof fn lemma_export_order_irrelevant(
    base: Seq<char>,
    b1: Seq<(Seq<char>, Seq<char>)>,
    present1: Seq<bool>,
    b2: Seq<(Seq<char>, Seq<char>)>,
    present2: Seq<bool>,
)
    requires
        b1.len() == present1.len(),
        b2.len() == present2.len(),
        observed(b1, present1).to_multiset() == observed(b2, present2).to_multiset(),
        consistent_bindings(b1),
    ensures
        export_map(base, observed(b1, present1)) == export_map(base, observed(b2, present2)),
{
    let t1 = observed(b1, present1);
    let t2 = observed(b2, present2);
    let m1 = export_map(base, t1);
    let m2 = export_map(base, t2);
    lemma_observed_consistent(b1, present1);
    assert forall|i: int, j: int| 0 <= i < t2.len() && 0 <= j < t2.len() && t2[i].1 == t2[j].1 implies t2[i].0 == t2[j].0 by {
        to_multiset_contains(t1, t2[i]);
        to_multiset_contains(t2, t2[i]);
        to_multiset_contains(t1, t2[j]);
        to_multiset_contains(t2, t2[j]);
        assert(t2.contains(t2[i]));
        assert(t2.contains(t2[j]));
        let a = choose|a: int| 0 <= a < t1.len() && t1[a] == t2[i];
        let c = choose|c: int| 0 <= c < t1.len() && t1[c] == t2[j];
    }
    lemma_export_map(base, t1);
    lemma_export_map(base, t2);
    assert forall|k: Seq<char>| m1.contains_key(k) implies m2.contains_key(k) && m2[k] == m1[k] by {
        let i = choose|i: int| 0 <= i < t1.len() && t1[i].1 == k && t1[i].2;
        to_multiset_contains(t1, t1[i]);
        to_multiset_contains(t2, t1[i]);
        assert(t1.contains(t1[i]));
        let j = choose|j: int| 0 <= j < t2.len() && t2[j] == t1[i];
        assert(t2[j].1 == k);
    }
    assert forall|k: Seq<char>| m2.contains_key(k) implies m1.contains_key(k) by {
        let j = choose|j: int| 0 <= j < t2.len() && t2[j].1 == k && t2[j].2;
        to_multiset_contains(t1, t2[j]);
        to_multiset_contains(t2, t2[j]);
        assert(t2.contains(t2[j]));
        let i = choose|i: int| 0 <= i < t1.len() && t1[i] == t2[j];
        assert(t1[i].1 == k);
    }
    assert(m1 =~= m2);
}

} // verus!
