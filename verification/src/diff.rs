//! Configuration diffs: the added, removed, and changed component names
//! between two configuration generations, per role.
//!
//! A component present in both generations whose serialized definition
//! differs is *changed* — never split into a removal plus an addition, so a
//! respawn treats it as an atomic replacement.

use vstd::prelude::*;
use crate::config::{
    Component, ConfigAggregate, Role, has_name, names, unique_names, defn_at, lemma_defn_at,
    find_definition, lemma_has_name_take_succ,
};

verus! {

/// Names defined by `next` but not by `prev`.
pub open spec fn added_set(prev: Seq<Component>, next: Seq<Component>) -> Set<Seq<char>> {
    Set::new(|n: Seq<char>| has_name(next, n) && !has_name(prev, n))
}

/// Names defined by `prev` but not by `next`.
pub open spec fn removed_set(prev: Seq<Component>, next: Seq<Component>) -> Set<Seq<char>> {
    Set::new(|n: Seq<char>| has_name(prev, n) && !has_name(next, n))
}

/// Names defined by both generations, with differing definitions.
pub open spec fn changed_set(prev: Seq<Component>, next: Seq<Component>) -> Set<Seq<char>> {
    Set::new(
        |n: Seq<char>|
            has_name(prev, n) && has_name(next, n) && defn_at(prev, n) != defn_at(next, n),
    )
}

/// True when some string of `v` reads `n`.
pub open spec fn string_listed(v: Seq<String>, n: Seq<char>) -> bool {
    exists|i: int| 0 <= i < v.len() && v[i]@ == n
}

/// Pushing one string extends `string_listed` by exactly that string.
pub proof fn lemma_string_listed_push(v: Seq<String>, s: String, n: Seq<char>)
    ensures
        string_listed(v.push(s), n) <==> (string_listed(v, n) || s@ == n),
{
    if string_listed(v.push(s), n) {
        let j = choose|j: int| 0 <= j < v.push(s).len() && (#[trigger] v.push(s)[j]@) == n;
        if j < v.len() {
            assert(v[j]@ == n);
        }
    }
    if string_listed(v, n) {
        let j = choose|j: int| 0 <= j < v.len() && (#[trigger] v[j]@) == n;
        assert(v.push(s)[j]@ == n);
    }
    if s@ == n {
        assert(v.push(s)[v.len() as int]@ == n);
    }
}

/// A list in which nothing is listed is empty.
pub proof fn lemma_unlisted_empty(v: Seq<String>)
    requires
        forall|n: Seq<char>| !string_listed(v, n),
    ensures
        v.len() == 0,
{
    if v.len() > 0 {
        assert(string_listed(v, v[0]@));
    }
}

/// No two strings of `v` read alike.
pub open spec fn strings_distinct(v: Seq<String>) -> bool {
    forall|i: int, j: int| 0 <= i < j < v.len() ==> v[i]@ != v[j]@
}

/// Pushing a string listed nowhere in `v` preserves distinctness.
pub proof fn lemma_distinct_push(v: Seq<String>, s: String)
    requires
        strings_distinct(v),
        !string_listed(v, s@),
    ensures
        strings_distinct(v.push(s)),
{
    assert forall|i: int, j: int| 0 <= i < j < v.push(s).len() implies v.push(s)[i]@ != v.push(
        s,
    )[j]@ by {
        if j == v.len() {
            if v[i]@ == s@ {
                assert(string_listed(v, s@));
            }
        }
    }
}

/// The added, removed, and changed names of one role.
pub struct RoleDiff {
    pub added: Vec<String>,
    pub removed: Vec<String>,
    pub changed: Vec<String>,
}

/// Computes one role's diff between two generations.
pub fn diff_role(prev: &Vec<Component>, next: &Vec<Component>) -> (d: RoleDiff)
    requires
        unique_names(prev@),
        unique_names(next@),
    ensures
        forall|n: Seq<char>|
            #[trigger] string_listed(d.added@, n) <==> added_set(prev@, next@).contains(n),
        forall|n: Seq<char>|
            #[trigger] string_listed(d.removed@, n) <==> removed_set(prev@, next@).contains(n),
        forall|n: Seq<char>|
            #[trigger] string_listed(d.changed@, n) <==> changed_set(prev@, next@).contains(n),
        strings_distinct(d.added@),
        strings_distinct(d.removed@),
        strings_distinct(d.changed@),
{
    let mut added: Vec<String> = Vec::new();
    let mut removed: Vec<String> = Vec::new();
    let mut changed: Vec<String> = Vec::new();
    let mut i: usize = 0;
    while i < next.len()
        invariant
            0 <= i <= next.len(),
            unique_names(prev@),
            unique_names(next@),
            forall|n: Seq<char>|
                #[trigger] string_listed(added@, n) <==> (has_name(next@.take(i as int), n)
                    && !has_name(prev@, n)),
            forall|n: Seq<char>|
                #[trigger] string_listed(changed@, n) <==> (has_name(next@.take(i as int), n)
                    && has_name(prev@, n) && defn_at(prev@, n) != defn_at(next@, n)),
            strings_distinct(added@),
            strings_distinct(changed@),
        decreases next.len() - i,
    {
        let ghost pre_added = added@;
        let ghost pre_changed = changed@;
        let ghost nm = next@[i as int].name@;
        proof {
            lemma_defn_at(next@, i as int);
            assert(!has_name(next@.take(i as int), nm)) by {
                if has_name(next@.take(i as int), nm) {
                    let j = choose|j: int|
                        0 <= j < next@.take(i as int).len() && (#[trigger] next@.take(
                            i as int,
                        )[j].name@) == nm;
                    assert(next@[j].name@ == nm && next@[i as int].name@ == nm);
                }
            }
            assert(!string_listed(added@, nm));
            assert(!string_listed(changed@, nm));
            lemma_distinct_push(added@, next@[i as int].name);
            lemma_distinct_push(changed@, next@[i as int].name);
        }
        match find_definition(prev, &next[i].name) {
            None => {
                added.push(next[i].name.clone());
            },
            Some(prev_def) => {
                if !(*prev_def == next[i].definition) {
                    changed.push(next[i].name.clone());
                }
            },
        }
        proof {
            assert forall|n: Seq<char>| true implies (#[trigger] string_listed(added@, n) <==> (
            has_name(next@.take(i as int + 1), n) && !has_name(prev@, n))) by {
                lemma_has_name_take_succ(next@, i as int, n);
                lemma_string_listed_push(pre_added, next@[i as int].name, n);
                if added@ != pre_added {
                    assert(added@ == pre_added.push(next@[i as int].name));
                }
            }
            assert forall|n: Seq<char>| true implies (#[trigger] string_listed(changed@, n) <==> (
            has_name(next@.take(i as int + 1), n) && has_name(prev@, n) && defn_at(prev@, n)
                != defn_at(next@, n))) by {
                lemma_has_name_take_succ(next@, i as int, n);
                lemma_string_listed_push(pre_changed, next@[i as int].name, n);
                if changed@ != pre_changed {
                    assert(changed@ == pre_changed.push(next@[i as int].name));
                }
            }
        }
        i = i + 1;
    }
    proof {
        assert(next@.take(next@.len() as int) =~= next@);
    }
    let mut j: usize = 0;
    while j < prev.len()
        invariant
            0 <= j <= prev.len(),
            unique_names(prev@),
            unique_names(next@),
            forall|n: Seq<char>|
                #[trigger] string_listed(removed@, n) <==> (has_name(prev@.take(j as int), n)
                    && !has_name(next@, n)),
            forall|n: Seq<char>|
                #[trigger] string_listed(added@, n) <==> added_set(prev@, next@).contains(n),
            forall|n: Seq<char>|
                #[trigger] string_listed(changed@, n) <==> changed_set(prev@, next@).contains(n),
            strings_distinct(added@),
            strings_distinct(changed@),
            strings_distinct(removed@),
        decreases prev.len() - j,
    {
        let ghost pre_removed = removed@;
        let ghost rm = prev@[j as int].name@;
        proof {
            assert(!has_name(prev@.take(j as int), rm)) by {
                if has_name(prev@.take(j as int), rm) {
                    let w = choose|w: int|
                        0 <= w < prev@.take(j as int).len() && (#[trigger] prev@.take(
                            j as int,
                        )[w].name@) == rm;
                    assert(prev@[w].name@ == rm && prev@[j as int].name@ == rm);
                }
            }
            assert(!string_listed(removed@, rm));
            lemma_distinct_push(removed@, prev@[j as int].name);
        }
        match find_definition(next, &prev[j].name) {
            None => {
                removed.push(prev[j].name.clone());
            },
            Some(_) => {},
        }
        proof {
            assert forall|n: Seq<char>| true implies (#[trigger] string_listed(removed@, n) <==> (
            has_name(prev@.take(j as int + 1), n) && !has_name(next@, n))) by {
                lemma_has_name_take_succ(prev@, j as int, n);
                lemma_string_listed_push(pre_removed, prev@[j as int].name, n);
                if removed@ != pre_removed {
                    assert(removed@ == pre_removed.push(prev@[j as int].name));
                }
            }
        }
        j = j + 1;
    }
    proof {
        assert(prev@.take(prev@.len() as int) =~= prev@);
    }
    RoleDiff { added, removed, changed }
}

/// The diff of a whole configuration: one `RoleDiff` per role.
pub struct ConfigDiff {
    pub sources: RoleDiff,
    pub transforms: RoleDiff,
    pub sinks: RoleDiff,
}

impl ConfigDiff {
    /// The role's part of the diff.
    pub open spec fn role_diff(self, role: Role) -> RoleDiff {
        match role {
            Role::Source => self.sources,
            Role::Transform => self.transforms,
            Role::Sink => self.sinks,
        }
    }

    /// The diff lists exactly the added, removed, and changed names between
    /// the two generations, role by role.
    pub open spec fn describes(self, prev: ConfigAggregate, next: ConfigAggregate) -> bool {
        &&& forall|role: Role, n: Seq<char>|
            #[trigger] string_listed(self.role_diff(role).added@, n) <==> added_set(
                prev.role_seq(role),
                next.role_seq(role),
            ).contains(n)
        &&& forall|role: Role, n: Seq<char>|
            #[trigger] string_listed(self.role_diff(role).removed@, n) <==> removed_set(
                prev.role_seq(role),
                next.role_seq(role),
            ).contains(n)
        &&& forall|role: Role, n: Seq<char>|
            #[trigger] string_listed(self.role_diff(role).changed@, n) <==> changed_set(
                prev.role_seq(role),
                next.role_seq(role),
            ).contains(n)
        &&& forall|role: Role| #[trigger] strings_distinct(self.role_diff(role).added@)
        &&& forall|role: Role| #[trigger] strings_distinct(self.role_diff(role).removed@)
        &&& forall|role: Role| #[trigger] strings_distinct(self.role_diff(role).changed@)
    }

    /// All nine name lists are empty.
    pub open spec fn is_empty_spec(self) -> bool {
        &&& self.sources.added@.len() == 0
        &&& self.sources.removed@.len() == 0
        &&& self.sources.changed@.len() == 0
        &&& self.transforms.added@.len() == 0
        &&& self.transforms.removed@.len() == 0
        &&& self.transforms.changed@.len() == 0
        &&& self.sinks.added@.len() == 0
        &&& self.sinks.removed@.len() == 0
        &&& self.sinks.changed@.len() == 0
    }

    /// Computes the diff between two configuration generations.
    pub fn diff(prev: &ConfigAggregate, next: &ConfigAggregate) -> (d: ConfigDiff)
        requires
            prev.wf(),
            next.wf(),
        ensures
            d.describes(*prev, *next),
    {
        let sources = diff_role(&prev.sources, &next.sources);
        let transforms = diff_role(&prev.transforms, &next.transforms);
        let sinks = diff_role(&prev.sinks, &next.sinks);
        let d = ConfigDiff { sources, transforms, sinks };
        proof {
            assert forall|role: Role, n: Seq<char>| true implies (#[trigger] string_listed(
                d.role_diff(role).added@,
                n,
            ) <==> added_set(prev.role_seq(role), next.role_seq(role)).contains(n)) by {}
            assert forall|role: Role, n: Seq<char>| true implies (#[trigger] string_listed(
                d.role_diff(role).removed@,
                n,
            ) <==> removed_set(prev.role_seq(role), next.role_seq(role)).contains(n)) by {}
            assert forall|role: Role, n: Seq<char>| true implies (#[trigger] string_listed(
                d.role_diff(role).changed@,
                n,
            ) <==> changed_set(prev.role_seq(role), next.role_seq(role)).contains(n)) by {}
            assert forall|role: Role| true implies (#[trigger] strings_distinct(
                d.role_diff(role).added@,
            ) && strings_distinct(d.role_diff(role).removed@) && strings_distinct(
                d.role_diff(role).changed@,
            )) by {}
        }
        d
    }

    /// The initial diff, computed as the diff against the empty generation:
    /// every component of `next` appears as added, none as removed or
    /// changed.
    pub fn initial(next: &ConfigAggregate) -> (d: ConfigDiff)
        requires
            next.wf(),
        ensures
            forall|role: Role, n: Seq<char>|
                #[trigger] string_listed(d.role_diff(role).added@, n) <==> has_name(
                    next.role_seq(role),
                    n,
                ),
            forall|role: Role, n: Seq<char>| !#[trigger] string_listed(d.role_diff(role).removed@, n),
            forall|role: Role, n: Seq<char>| !#[trigger] string_listed(d.role_diff(role).changed@, n),
            forall|role: Role|
                #[trigger] strings_distinct(d.role_diff(role).added@) && strings_distinct(
                    d.role_diff(role).removed@,
                ) && strings_distinct(d.role_diff(role).changed@),
    {
        let base = ConfigAggregate::empty();
        let d = Self::diff(&base, next);
        proof {
            assert forall|role: Role, n: Seq<char>| true implies ((#[trigger] string_listed(
                d.role_diff(role).added@,
                n,
            ) <==> has_name(next.role_seq(role), n)) && !(#[trigger] string_listed(
                d.role_diff(role).removed@,
                n,
            )) && !(#[trigger] string_listed(d.role_diff(role).changed@, n))) by {
                assert(base.role_seq(role) =~= Seq::<Component>::empty());
                assert(base.role_seq(role) == Seq::<Component>::empty());
                assert(!has_name(base.role_seq(role), n));
                assert(string_listed(d.role_diff(role).added@, n) <==> added_set(
                    base.role_seq(role),
                    next.role_seq(role),
                ).contains(n));
                assert(string_listed(d.role_diff(role).removed@, n) <==> removed_set(
                    base.role_seq(role),
                    next.role_seq(role),
                ).contains(n));
                assert(string_listed(d.role_diff(role).changed@, n) <==> changed_set(
                    base.role_seq(role),
                    next.role_seq(role),
                ).contains(n));
            }
        }
        d
    }

    /// Whether the diff is empty: no component added, removed, or changed.
    pub fn is_empty(&self) -> (r: bool)
        ensures
            r == self.is_empty_spec(),
    {
        self.sources.added.is_empty() && self.sources.removed.is_empty()
            && self.sources.changed.is_empty() && self.transforms.added.is_empty()
            && self.transforms.removed.is_empty() && self.transforms.changed.is_empty()
            && self.sinks.added.is_empty() && self.sinks.removed.is_empty()
            && self.sinks.changed.is_empty()
    }
}

/// An empty diff between two generations means they hold the same
/// components.
pub proof fn lemma_empty_diff_same_components(
    d: ConfigDiff,
    prev: ConfigAggregate,
    next: ConfigAggregate,
)
    requires
        d.describes(prev, next),
    ensures
        d.is_empty_spec() <==> prev.same_components(next),
{
    if d.is_empty_spec() {
        assert forall|role: Role, n: Seq<char>| #[trigger] has_name(prev.role_seq(role), n)
            implies has_name(next.role_seq(role), n) by {
            if !has_name(next.role_seq(role), n) {
                assert(removed_set(prev.role_seq(role), next.role_seq(role)).contains(n));
                assert(string_listed(d.role_diff(role).removed@, n));
            }
        }
        assert forall|role: Role, n: Seq<char>| #[trigger] has_name(next.role_seq(role), n)
            implies has_name(prev.role_seq(role), n) by {
            if !has_name(prev.role_seq(role), n) {
                assert(added_set(prev.role_seq(role), next.role_seq(role)).contains(n));
                assert(string_listed(d.role_diff(role).added@, n));
            }
        }
        assert forall|role: Role, n: Seq<char>| #[trigger] has_name(next.role_seq(role), n)
            implies defn_at(prev.role_seq(role), n) == defn_at(next.role_seq(role), n) by {
            if defn_at(prev.role_seq(role), n) != defn_at(next.role_seq(role), n) {
                assert(has_name(prev.role_seq(role), n));
                assert(changed_set(prev.role_seq(role), next.role_seq(role)).contains(n));
                assert(string_listed(d.role_diff(role).changed@, n));
            }
        }
    }
    if prev.same_components(next) {
        assert forall|role: Role| true implies (#[trigger] d.role_diff(role).added@.len() == 0
            && d.role_diff(role).removed@.len() == 0 && d.role_diff(role).changed@.len()
            == 0) by {
            assert forall|n: Seq<char>| !#[trigger] string_listed(d.role_diff(role).added@, n) by {
                if string_listed(d.role_diff(role).added@, n) {
                    assert(added_set(prev.role_seq(role), next.role_seq(role)).contains(n));
                    assert(has_name(next.role_seq(role), n));
                }
            }
            assert forall|n: Seq<char>| !#[trigger] string_listed(
                d.role_diff(role).removed@,
                n,
            ) by {
                if string_listed(d.role_diff(role).removed@, n) {
                    assert(removed_set(prev.role_seq(role), next.role_seq(role)).contains(n));
                    assert(has_name(prev.role_seq(role), n));
                }
            }
            assert forall|n: Seq<char>| !#[trigger] string_listed(
                d.role_diff(role).changed@,
                n,
            ) by {
                if string_listed(d.role_diff(role).changed@, n) {
                    assert(changed_set(prev.role_seq(role), next.role_seq(role)).contains(n));
                    assert(has_name(next.role_seq(role), n));
                }
            }
            lemma_unlisted_empty(d.role_diff(role).added@);
            lemma_unlisted_empty(d.role_diff(role).removed@);
            lemma_unlisted_empty(d.role_diff(role).changed@);
        }
        assert(d.role_diff(Role::Source).added@.len() == 0 && d.role_diff(
            Role::Source,
        ).removed@.len() == 0 && d.role_diff(Role::Source).changed@.len() == 0);
        assert(d.role_diff(Role::Transform).added@.len() == 0 && d.role_diff(
            Role::Transform,
        ).removed@.len() == 0 && d.role_diff(Role::Transform).changed@.len() == 0);
        assert(d.role_diff(Role::Sink).added@.len() == 0 && d.role_diff(
            Role::Sink,
        ).removed@.len() == 0 && d.role_diff(Role::Sink).changed@.len() == 0);
    }
}

/// Law: the name lists of a computed diff are pairwise disjoint: no name
/// is reported both as added and removed, added and changed, or removed
/// and changed, in any role.
pub proof fn lemma_diff_listed_disjoint(d: ConfigDiff, prev: ConfigAggregate, next: ConfigAggregate)
    requires
        d.describes(prev, next),
    ensures
        forall|role: Role, n: Seq<char>|
            !(#[trigger] string_listed(d.role_diff(role).added@, n) && string_listed(
                d.role_diff(role).removed@,
                n,
            )),
        forall|role: Role, n: Seq<char>|
            !(#[trigger] string_listed(d.role_diff(role).added@, n) && string_listed(
                d.role_diff(role).changed@,
                n,
            )),
        forall|role: Role, n: Seq<char>|
            !(#[trigger] string_listed(d.role_diff(role).removed@, n) && string_listed(
                d.role_diff(role).changed@,
                n,
            )),
{
}

/// Law: a diff of a generation against itself lists nothing, in any role.
pub proof fn lemma_diff_self_listed_empty(d: ConfigDiff, g: ConfigAggregate)
    requires
        d.describes(g, g),
    ensures
        d.is_empty_spec(),
{
    lemma_empty_diff_same_components(d, g, g);
}

/// Law: for any two configuration generations, a role's added, removed, and
/// changed name sets are pairwise disjoint.
pub proof fn lemma_diff_sets_disjoint(prev: Seq<Component>, next: Seq<Component>)
    ensures
        added_set(prev, next).disjoint(removed_set(prev, next)),
        added_set(prev, next).disjoint(changed_set(prev, next)),
        removed_set(prev, next).disjoint(changed_set(prev, next)),
{
}

/// Law: diffing a generation against itself yields all-empty sets.
pub proof fn lemma_diff_self_empty(s: Seq<Component>)
    ensures
        added_set(s, s) =~= Set::<Seq<char>>::empty(),
        removed_set(s, s) =~= Set::<Seq<char>>::empty(),
        changed_set(s, s) =~= Set::<Seq<char>>::empty(),
{
}

/// Law: against the empty generation, every component of `next` appears as
/// added, and nothing as removed or changed.
pub proof fn lemma_initial_all_added(next: Seq<Component>)
    ensures
        added_set(Seq::<Component>::empty(), next) =~= names(next),
        removed_set(Seq::<Component>::empty(), next) =~= Set::<Seq<char>>::empty(),
        changed_set(Seq::<Component>::empty(), next) =~= Set::<Seq<char>>::empty(),
{
}

} // verus!
