//! The configuration aggregate: named component definitions partitioned by
//! role, plus the global settings block.
//!
//! A generation of the pipeline is one complete, merged aggregate. Component
//! names are unique within a role; merging two aggregates with colliding
//! names is an error and leaves the target unchanged (no partial merge).

use vstd::prelude::*;

verus! {

/// The role a component plays in the processing graph.
#[derive(Clone, Copy, PartialEq, Eq, Structural, Debug)]
pub enum Role {
    Source,
    Transform,
    Sink,
}

/// One named component definition. The definition is kept in its serialized
/// form: two generations of a component are compared structurally by it.
#[derive(Debug)]
pub struct Component {
    pub name: String,
    pub definition: String,
}

impl Clone for Component {
    fn clone(&self) -> (r: Self)
        ensures
            r == *self,
    {
        Component { name: self.name.clone(), definition: self.definition.clone() }
    }
}

/// True when some component in `s` bears the name `n`.
pub open spec fn has_name(s: Seq<Component>, n: Seq<char>) -> bool {
    exists|i: int| 0 <= i < s.len() && s[i].name@ == n
}

/// The set of component names occurring in `s`.
pub open spec fn names(s: Seq<Component>) -> Set<Seq<char>> {
    Set::new(|n: Seq<char>| has_name(s, n))
}

/// No two components of `s` share a name.
pub open spec fn unique_names(s: Seq<Component>) -> bool {
    forall|i: int, j: int| 0 <= i < j < s.len() ==> s[i].name@ != s[j].name@
}

/// The serialized definition of the component of `s` named `n`
/// (well-defined whenever `unique_names(s)` holds and `n` occurs).
pub open spec fn defn_at(s: Seq<Component>, n: Seq<char>) -> Seq<char> {
    s[choose|i: int| 0 <= i < s.len() && s[i].name@ == n].definition@
}

/// Under uniqueness, any index bearing `n` determines `defn_at`.
pub proof fn lemma_defn_at(s: Seq<Component>, i: int)
    requires
        unique_names(s),
        0 <= i < s.len(),
    ensures
        defn_at(s, s[i].name@) == s[i].definition@,
{
    let n = s[i].name@;
    assert(has_name(s, n));
    let j = choose|j: int| 0 <= j < s.len() && s[j].name@ == n;
    if i < j {
        assert(s[i].name@ != s[j].name@);
    } else if j < i {
        assert(s[j].name@ != s[i].name@);
    }
}

/// Looks a name up in a role's component list.
pub fn find_definition<'a>(v: &'a Vec<Component>, name: &String) -> (r: Option<&'a String>)
    ensures
        r is Some <==> has_name(v@, name@),
        (unique_names(v@) && r is Some) ==> r->Some_0@ == defn_at(v@, name@),
{
    let mut i: usize = 0;
    while i < v.len()
        invariant
            0 <= i <= v.len(),
            forall|j: int| 0 <= j < i ==> v@[j].name@ != name@,
        decreases v.len() - i,
    {
        if v[i].name == *name {
            proof {
                if unique_names(v@) {
                    lemma_defn_at(v@, i as int);
                }
            }
            return Some(&v[i].definition);
        }
        i = i + 1;
    }
    None
}

/// Whether a role's component list contains the name.
pub fn contains_name(v: &Vec<Component>, name: &String) -> (r: bool)
    ensures
        r == has_name(v@, name@),
{
    find_definition(v, name).is_some()
}

/// Extending a prefix by one component extends `has_name` by one name.
pub proof fn lemma_has_name_take_succ(s: Seq<Component>, i: int, n: Seq<char>)
    requires
        0 <= i < s.len(),
    ensures
        has_name(s.take(i + 1), n) <==> (has_name(s.take(i), n) || s[i].name@ == n),
{
    if has_name(s.take(i + 1), n) {
        let j = choose|j: int| 0 <= j < s.take(i + 1).len() && (#[trigger] s.take(i + 1)[j].name@)
            == n;
        if j < i {
            assert(s.take(i)[j].name@ == n);
        } else {
            assert(s[i].name@ == n);
        }
    }
    if has_name(s.take(i), n) {
        let j = choose|j: int| 0 <= j < s.take(i).len() && s.take(i)[j].name@ == n;
        assert(s.take(i + 1)[j].name@ == n);
    }
    if s[i].name@ == n {
        assert(s.take(i + 1)[i].name@ == n);
    }
}

/// Concatenating lists with no shared name preserves name uniqueness.
pub proof fn lemma_unique_concat(a: Seq<Component>, b: Seq<Component>)
    requires
        unique_names(a),
        unique_names(b),
        forall|n: Seq<char>| !(has_name(a, n) && has_name(b, n)),
    ensures
        unique_names(a + b),
{
    assert forall|i: int, j: int| 0 <= i < j < (a + b).len() implies (a + b)[i].name@ != (a
        + b)[j].name@ by {
        if i < a.len() && j >= a.len() {
            if a[i].name@ == b[j - a.len()].name@ {
                let n = a[i].name@;
                assert(has_name(a, n));
                assert(has_name(b, n));
            }
        }
    }
}

/// A name occurs in a concatenation exactly when it occurs in a part.
pub proof fn lemma_concat_names(a: Seq<Component>, b: Seq<Component>, n: Seq<char>)
    ensures
        has_name(a + b, n) <==> (has_name(a, n) || has_name(b, n)),
{
    if has_name(a + b, n) {
        let i = choose|i: int| 0 <= i < (a + b).len() && (#[trigger] (a + b)[i].name@) == n;
        if i < a.len() {
            assert(a[i].name@ == n);
        } else {
            assert(b[i - a.len()].name@ == n);
        }
    }
    if has_name(a, n) {
        let i = choose|i: int| 0 <= i < a.len() && (#[trigger] a[i].name@) == n;
        assert((a + b)[i].name@ == n);
    }
    if has_name(b, n) {
        let i = choose|i: int| 0 <= i < b.len() && (#[trigger] b[i].name@) == n;
        assert((a + b)[a.len() + i].name@ == n);
    }
}

/// In a collision-free concatenation, each part keeps its definitions.
pub proof fn lemma_concat_defn(a: Seq<Component>, b: Seq<Component>, n: Seq<char>)
    requires
        unique_names(a),
        unique_names(b),
        forall|m: Seq<char>| !(has_name(a, m) && has_name(b, m)),
    ensures
        has_name(a, n) ==> defn_at(a + b, n) == defn_at(a, n),
        has_name(b, n) ==> defn_at(a + b, n) == defn_at(b, n),
{
    lemma_unique_concat(a, b);
    if has_name(a, n) {
        let i = choose|i: int| 0 <= i < a.len() && (#[trigger] a[i].name@) == n;
        lemma_defn_at(a, i);
        assert((a + b)[i].name@ == n && (a + b)[i].definition@ == a[i].definition@);
        lemma_defn_at(a + b, i);
    }
    if has_name(b, n) {
        let i = choose|i: int| 0 <= i < b.len() && (#[trigger] b[i].name@) == n;
        lemma_defn_at(b, i);
        assert((a + b)[a.len() + i].name@ == n && (a + b)[a.len() + i].definition@
            == b[i].definition@);
        lemma_defn_at(a + b, a.len() + i);
    }
}

/// A merge error: the colliding name and the role it collided in.
#[derive(Clone, Debug)]
pub struct MergeError {
    pub role: Role,
    pub name: String,
}

/// True when `errs` reports a collision of name `n` in role `role`.
pub open spec fn lists_name(errs: Seq<MergeError>, role: Role, n: Seq<char>) -> bool {
    exists|i: int| 0 <= i < errs.len() && errs[i].role == role && errs[i].name@ == n
}

/// Collects, for one role, every name defined by both lists.
fn collisions(a: &Vec<Component>, b: &Vec<Component>, role: Role, errs: &mut Vec<MergeError>)
    requires
        forall|n: Seq<char>| !lists_name(old(errs)@, role, n),
    ensures
        forall|n: Seq<char>|
            lists_name(final(errs)@, role, n) <==> (has_name(a@, n) && has_name(b@, n)),
        forall|rr: Role, n: Seq<char>|
            rr != role ==> (lists_name(final(errs)@, rr, n) <==> lists_name(old(errs)@, rr, n)),
{
    let mut i: usize = 0;
    while i < b.len()
        invariant
            0 <= i <= b.len(),
            forall|n: Seq<char>|
                #[trigger] lists_name(errs@, role, n) <==> (has_name(b@.take(i as int), n)
                    && has_name(a@, n)),
            forall|rr: Role, n: Seq<char>|
                rr != role ==> (#[trigger] lists_name(errs@, rr, n) <==> lists_name(
                    old(errs)@, rr, n)),
        decreases b.len() - i,
    {
        let ghost pre = errs@;
        let collide = contains_name(a, &b[i].name);
        if collide {
            let e = MergeError { role, name: b[i].name.clone() };
            errs.push(e);
        }
        proof {
            assert forall|rr: Role, n2: Seq<char>| #[trigger] lists_name(pre, rr, n2) implies
            lists_name(errs@, rr, n2) by {
                let j = choose|j: int|
                    0 <= j < pre.len() && pre[j].role == rr && (#[trigger] pre[j].name@) == n2;
                assert(0 <= j < errs@.len() && errs@[j].role == rr && errs@[j].name@ == n2);
            }
            assert forall|n2: Seq<char>| #[trigger] lists_name(errs@, role, n2) implies (has_name(
                b@.take(i as int + 1),
                n2,
            ) && has_name(a@, n2)) by {
                lemma_has_name_take_succ(b@, i as int, n2);
                let j = choose|j: int|
                    0 <= j < errs@.len() && errs@[j].role == role && (#[trigger] errs@[j].name@)
                        == n2;
                if j < pre.len() {
                    assert(lists_name(pre, role, n2));
                    assert(has_name(b@.take(i as int), n2) && has_name(a@, n2));
                } else {
                    assert(collide);
                    assert(n2 == b@[i as int].name@);
                    assert(has_name(a@, n2));
                }
            }
            assert forall|n2: Seq<char>| (has_name(b@.take(i as int + 1), n2) && has_name(
                a@,
                n2,
            )) implies #[trigger] lists_name(errs@, role, n2) by {
                lemma_has_name_take_succ(b@, i as int, n2);
                if has_name(b@.take(i as int), n2) {
                    assert(lists_name(pre, role, n2));
                } else {
                    assert(n2 == b@[i as int].name@);
                    assert(collide);
                    assert(errs@[pre.len() as int].role == role && errs@[pre.len() as int].name@
                        == n2);
                }
            }
            assert forall|rr: Role, n2: Seq<char>| rr != role implies (#[trigger] lists_name(
                errs@,
                rr,
                n2,
            ) <==> lists_name(old(errs)@, rr, n2)) by {
                if lists_name(errs@, rr, n2) {
                    let j = choose|j: int|
                        0 <= j < errs@.len() && errs@[j].role == rr && (#[trigger] errs@[j].name@)
                            == n2;
                    if j < pre.len() {
                        assert(lists_name(pre, rr, n2));
                    } else {
                        assert(errs@[j].role == role);
                    }
                }
                if lists_name(old(errs)@, rr, n2) {
                    assert(lists_name(pre, rr, n2));
                    assert(lists_name(errs@, rr, n2));
                }
            }
        }
        i = i + 1;
    }
    proof {
        assert(b@.take(b@.len() as int) =~= b@);
    }
}

/// Duplicates a component list element by element.
fn clone_components(v: &Vec<Component>) -> (r: Vec<Component>)
    ensures
        r@ == v@,
{
    let mut r: Vec<Component> = Vec::new();
    let mut i: usize = 0;
    while i < v.len()
        invariant
            0 <= i <= v.len(),
            r@ =~= v@.take(i as int),
        decreases v.len() - i,
    {
        r.push(v[i].clone());
        proof {
            assert(r@ =~= v@.take(i as int + 1));
        }
        i = i + 1;
    }
    proof {
        assert(v@.take(v@.len() as int) =~= v@);
    }
    r
}

/// A configuration generation: component definitions partitioned by role,
/// and the global settings block (here, the log-schema definition).
#[derive(Debug)]
pub struct ConfigAggregate {
    pub sources: Vec<Component>,
    pub transforms: Vec<Component>,
    pub sinks: Vec<Component>,
    pub log_schema: String,
}

impl Clone for ConfigAggregate {
    /// The duplicate holds the same components and settings, role by role.
    fn clone(&self) -> (r: Self)
        ensures
            r.sources@ == self.sources@,
            r.transforms@ == self.transforms@,
            r.sinks@ == self.sinks@,
            r.log_schema@ == self.log_schema@,
            forall|role: Role| #[trigger] r.role_seq(role) == self.role_seq(role),
    {
        ConfigAggregate {
            sources: clone_components(&self.sources),
            transforms: clone_components(&self.transforms),
            sinks: clone_components(&self.sinks),
            log_schema: self.log_schema.clone(),
        }
    }
}

impl ConfigAggregate {
    /// Well-formed: names are unique within each role.
    pub open spec fn wf(self) -> bool {
        unique_names(self.sources@) && unique_names(self.transforms@) && unique_names(self.sinks@)
    }

    /// The component list of one role.
    pub open spec fn role_seq(self, role: Role) -> Seq<Component> {
        match role {
            Role::Source => self.sources@,
            Role::Transform => self.transforms@,
            Role::Sink => self.sinks@,
        }
    }

    /// Two generations hold the same components: per role, the same names
    /// with the same serialized definitions.
    pub open spec fn same_components(self, other: ConfigAggregate) -> bool {
        &&& forall|role: Role, n: Seq<char>|
            #[trigger] has_name(self.role_seq(role), n) ==> has_name(other.role_seq(role), n)
        &&& forall|role: Role, n: Seq<char>|
            #[trigger] has_name(other.role_seq(role), n) ==> has_name(self.role_seq(role), n)
        &&& forall|role: Role, n: Seq<char>|
            #[trigger] has_name(other.role_seq(role), n) ==> defn_at(self.role_seq(role), n)
                == defn_at(other.role_seq(role), n)
    }

    /// The empty aggregate: no components, empty settings.
    pub fn empty() -> (r: ConfigAggregate)
        ensures
            r.wf(),
            forall|role: Role| r.role_seq(role) =~= Seq::<Component>::empty(),
            r.log_schema@ =~= Seq::<char>::empty(),
    {
        ConfigAggregate {
            sources: Vec::new(),
            transforms: Vec::new(),
            sinks: Vec::new(),
            log_schema: String::new(),
        }
    }

    /// Merges `other` into `self`. On any name collision the merge reports
    /// every colliding name with its role and leaves `self` unchanged: there
    /// is no partial merge. On success the components of `other` are
    /// appended role-wise, and a non-empty settings block of `other`
    /// supersedes the present one.
    pub fn append(&mut self, other: ConfigAggregate) -> (r: Result<(), Vec<MergeError>>)
        requires
            old(self).wf(),
            other.wf(),
        ensures
            final(self).wf(),
            match r {
                Ok(()) => {
                    &&& final(self).sources@ == old(self).sources@ + other.sources@
                    &&& final(self).transforms@ == old(self).transforms@ + other.transforms@
                    &&& final(self).sinks@ == old(self).sinks@ + other.sinks@
                    &&& final(self).log_schema@ == (if other.log_schema@.len() > 0 {
                        other.log_schema@
                    } else {
                        old(self).log_schema@
                    })
                    &&& forall|role: Role, n: Seq<char>|
                        !(has_name(old(self).role_seq(role), n) && has_name(
                            other.role_seq(role),
                            n,
                        ))
                },
                Err(errs) => {
                    &&& *final(self) == *old(self)
                    &&& errs.len() > 0
                    &&& forall|role: Role, n: Seq<char>|
                        #[trigger] lists_name(errs@, role, n) <==> (has_name(
                            old(self).role_seq(role),
                            n,
                        ) && has_name(other.role_seq(role), n))
                },
            },
    {
        let mut errs: Vec<MergeError> = Vec::new();
        collisions(&self.sources, &other.sources, Role::Source, &mut errs);
        collisions(&self.transforms, &other.transforms, Role::Transform, &mut errs);
        collisions(&self.sinks, &other.sinks, Role::Sink, &mut errs);
        if errs.len() > 0 {
            return Err(errs);
        }
        proof {
            assert forall|role: Role, n: Seq<char>|
                !(has_name(old(self).role_seq(role), n) && has_name(
                    other.role_seq(role),
                    n,
                )) by {
                if has_name(old(self).role_seq(role), n) && has_name(other.role_seq(role), n) {
                    assert(lists_name(errs@, role, n));
                    let j = choose|j: int| 0 <= j < errs@.len() && errs@[j].role == role
                        && errs@[j].name@ == n;
                }
            }
            lemma_unique_concat(self.sources@, other.sources@);
            lemma_unique_concat(self.transforms@, other.transforms@);
            lemma_unique_concat(self.sinks@, other.sinks@);
        }
        let ConfigAggregate { mut sources, mut transforms, mut sinks, log_schema } = other;
        self.sources.append(&mut sources);
        self.transforms.append(&mut transforms);
        self.sinks.append(&mut sinks);
        if !log_schema.as_str().is_empty() {
            self.log_schema = log_schema;
        }
        Ok(())
    }
}

} // verus!
