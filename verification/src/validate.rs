//! The validation pipeline: parse outcomes are merged in path order, the
//! merged generation is macro-expanded, components are built, the topology
//! is checked, every sink's healthcheck is run serially, and a trial start
//! confirms the pipeline can run — each stage collecting all its findings
//! before a verdict, and failures attributed to the file, component or
//! check they belong to.

use vstd::prelude::*;
use crate::config::{
    ConfigAggregate, MergeError, Role, has_name, defn_at, lists_name, unique_names,
    lemma_concat_names, lemma_concat_defn,
};
use crate::diff::string_listed;

verus! {

/// Why a configuration file could not be read.
#[derive(Clone, Copy, PartialEq, Eq, Structural, Debug)]
pub enum FileErrorKind {
    /// The file does not exist at the given path.
    NotFound,
    /// The file exists but could not be opened or read.
    Unreadable,
}

/// The outcome of opening and parsing one configuration path; opening and
/// parsing themselves are performed by external collaborators.
pub enum PathOutcome {
    FileError(FileErrorKind),
    /// The file was read but did not parse; one message per parse error.
    ParseFailed(Vec<String>),
    /// The file parsed into a configuration fragment.
    Parsed(ConfigAggregate),
}

/// One configuration path with its load outcome.
pub struct PathEntry {
    pub path: String,
    pub outcome: PathOutcome,
}

/// The outcome of expanding macro directives over the merged generation;
/// expansion is performed by an external collaborator and is defined only
/// on a complete aggregate.
pub enum ExpandOutcome {
    Expanded(ConfigAggregate),
    ExpandFailed(Vec<String>),
}

/// The outcome of one sink's healthcheck. A check that was cancelled or
/// that faulted is distinguished from one that reported failure.
#[derive(Clone, Copy, PartialEq, Eq, Structural, Debug)]
pub enum HealthOutcome {
    Passed,
    Failed,
    Cancelled,
    Panicked,
}

/// One named healthcheck with its outcome.
pub struct HealthEntry {
    pub name: String,
    pub outcome: HealthOutcome,
}

/// One finding of the validation pipeline, attributed to the file,
/// component or check it belongs to.
#[derive(Debug)]
pub enum Finding {
    FileError { path: String, kind: FileErrorKind },
    ParseError { path: String, message: String },
    MergeConflict { path: String, role: Role, name: String },
    ExpandError { message: String },
    ComponentWarning { message: String },
    ComponentError { message: String },
    TopologyWarning { message: String },
    TopologyError { message: String },
    HealthResult { name: String, outcome: HealthOutcome },
    StartFailed,
}

/// True when `fs` reports that the file at `path` failed with `kind`.
pub open spec fn lists_file_error(fs: Seq<Finding>, path: Seq<char>, kind: FileErrorKind) -> bool {
    exists|i: int|
        {
            &&& 0 <= i < fs.len()
            &&& (#[trigger] fs[i]) matches Finding::FileError { path: p, kind: kk }
            &&& p@ == path
            &&& kk == kind
        }
}

/// True when `fs` reports a parse error with `message` against `path`.
pub open spec fn lists_parse_error(fs: Seq<Finding>, path: Seq<char>, message: Seq<char>) -> bool {
    exists|i: int|
        {
            &&& 0 <= i < fs.len()
            &&& (#[trigger] fs[i]) matches Finding::ParseError { path: p, message: m }
            &&& p@ == path
            &&& m@ == message
        }
}

/// True when `fs` reports a merge conflict of `n` in `role` against `path`.
pub open spec fn lists_merge_conflict(
    fs: Seq<Finding>,
    path: Seq<char>,
    role: Role,
    n: Seq<char>,
) -> bool {
    exists|i: int|
        {
            &&& 0 <= i < fs.len()
            &&& (#[trigger] fs[i]) matches Finding::MergeConflict { path: p, role: r, name: nm }
            &&& p@ == path
            &&& r == role
            &&& nm@ == n
        }
}

/// The fragment of some entry before `upto` defines `n` in `role`.
pub open spec fn fragment_defines(
    entries: Seq<PathEntry>,
    upto: int,
    role: Role,
    n: Seq<char>,
) -> bool {
    exists|i: int|
        0 <= i < upto && (#[trigger] entries[i]).outcome is Parsed && has_name(
            entries[i].outcome->Parsed_0.role_seq(role),
            n,
        )
}

/// Two distinct entries before `upto` both define `n` in `role`.
pub open spec fn two_fragments_define(
    entries: Seq<PathEntry>,
    upto: int,
    role: Role,
    n: Seq<char>,
) -> bool {
    exists|i: int, j: int|
        0 <= i < j < upto && (#[trigger] entries[i]).outcome is Parsed
            && (#[trigger] entries[j]).outcome is Parsed && has_name(
            entries[i].outcome->Parsed_0.role_seq(role),
            n,
        ) && has_name(entries[j].outcome->Parsed_0.role_seq(role), n)
}

/// Every entry before `upto` parsed.
pub open spec fn all_parsed(entries: Seq<PathEntry>, upto: int) -> bool {
    forall|i: int| 0 <= i < upto ==> (#[trigger] entries[i]).outcome is Parsed
}

/// No name is defined by two fragments before `upto`.
pub open spec fn fragments_disjoint(entries: Seq<PathEntry>, upto: int) -> bool {
    forall|role: Role, n: Seq<char>| !#[trigger] two_fragments_define(entries, upto, role, n)
}

/// The merged generation holds a name exactly when some fragment defines
/// it, and holds each fragment's definitions unchanged.
pub open spec fn merged_content(entries: Seq<PathEntry>, upto: int, cfg: ConfigAggregate) -> bool {
    &&& forall|role: Role, n: Seq<char>|
        #[trigger] has_name(cfg.role_seq(role), n) <==> fragment_defines(entries, upto, role, n)
    &&& forall|role: Role, n: Seq<char>, i: int|
        (0 <= i < upto && (#[trigger] entries[i]).outcome is Parsed && #[trigger] has_name(
            entries[i].outcome->Parsed_0.role_seq(role),
            n,
        )) ==> defn_at(cfg.role_seq(role), n) == defn_at(
            entries[i].outcome->Parsed_0.role_seq(role),
            n,
        )
}

/// Stepping the bound of `fragment_defines` by one entry.
pub proof fn lemma_fragment_defines_step(
    entries: Seq<PathEntry>,
    k: int,
    role: Role,
    n: Seq<char>,
)
    requires
        0 <= k < entries.len(),
    ensures
        fragment_defines(entries, k + 1, role, n) <==> (fragment_defines(entries, k, role, n) || (
        entries[k].outcome is Parsed && has_name(entries[k].outcome->Parsed_0.role_seq(role), n))),
{
    if fragment_defines(entries, k + 1, role, n) {
        let i = choose|i: int|
            0 <= i < k + 1 && (#[trigger] entries[i]).outcome is Parsed && has_name(
                entries[i].outcome->Parsed_0.role_seq(role),
                n,
            );
        if i < k {
            assert(fragment_defines(entries, k, role, n));
        }
    }
    if fragment_defines(entries, k, role, n) {
        let i = choose|i: int|
            0 <= i < k && (#[trigger] entries[i]).outcome is Parsed && has_name(
                entries[i].outcome->Parsed_0.role_seq(role),
                n,
            );
        assert(0 <= i < k + 1 && entries[i].outcome is Parsed && has_name(
            entries[i].outcome->Parsed_0.role_seq(role),
            n,
        ));
    }
}

/// Stepping the bound of `two_fragments_define` by one entry.
pub proof fn lemma_two_fragments_step(entries: Seq<PathEntry>, k: int, role: Role, n: Seq<char>)
    requires
        0 <= k < entries.len(),
    ensures
        two_fragments_define(entries, k + 1, role, n) <==> (two_fragments_define(
            entries,
            k,
            role,
            n,
        ) || (entries[k].outcome is Parsed && has_name(
            entries[k].outcome->Parsed_0.role_seq(role),
            n,
        ) && fragment_defines(entries, k, role, n))),
{
    if two_fragments_define(entries, k + 1, role, n) {
        let (i, j) = choose|i: int, j: int|
            0 <= i < j < k + 1 && (#[trigger] entries[i]).outcome is Parsed
                && (#[trigger] entries[j]).outcome is Parsed && has_name(
                entries[i].outcome->Parsed_0.role_seq(role),
                n,
            ) && has_name(entries[j].outcome->Parsed_0.role_seq(role), n);
        if j < k {
            assert(two_fragments_define(entries, k, role, n));
        } else {
            assert(fragment_defines(entries, k, role, n));
        }
    }
    if two_fragments_define(entries, k, role, n) {
        let (i, j) = choose|i: int, j: int|
            0 <= i < j < k && (#[trigger] entries[i]).outcome is Parsed
                && (#[trigger] entries[j]).outcome is Parsed && has_name(
                entries[i].outcome->Parsed_0.role_seq(role),
                n,
            ) && has_name(entries[j].outcome->Parsed_0.role_seq(role), n);
        assert(0 <= i < j < k + 1 && entries[i].outcome is Parsed && entries[j].outcome is Parsed
            && has_name(entries[i].outcome->Parsed_0.role_seq(role), n) && has_name(
            entries[j].outcome->Parsed_0.role_seq(role),
            n,
        ));
    }
    if entries[k].outcome is Parsed && has_name(entries[k].outcome->Parsed_0.role_seq(role), n)
        && fragment_defines(entries, k, role, n) {
        let i = choose|i: int|
            0 <= i < k && (#[trigger] entries[i]).outcome is Parsed && has_name(
                entries[i].outcome->Parsed_0.role_seq(role),
                n,
            );
        assert(0 <= i < k < k + 1 && entries[i].outcome is Parsed && entries[k].outcome is Parsed
            && has_name(entries[i].outcome->Parsed_0.role_seq(role), n) && has_name(
            entries[k].outcome->Parsed_0.role_seq(role),
            n,
        ));
    }
}

/// Findings already listed stay listed when the report grows at the end.
pub proof fn lemma_lists_extend(pre: Seq<Finding>, post: Seq<Finding>)
    requires
        pre.len() <= post.len(),
        forall|j: int| 0 <= j < pre.len() ==> post[j] == pre[j],
    ensures
        forall|p: Seq<char>, k: FileErrorKind|
            #[trigger] lists_file_error(pre, p, k) ==> lists_file_error(post, p, k),
        forall|p: Seq<char>, m: Seq<char>|
            #[trigger] lists_parse_error(pre, p, m) ==> lists_parse_error(post, p, m),
        forall|p: Seq<char>, role: Role, n: Seq<char>|
            #[trigger] lists_merge_conflict(pre, p, role, n) ==> lists_merge_conflict(
                post,
                p,
                role,
                n,
            ),
{
    assert forall|p: Seq<char>, k: FileErrorKind| #[trigger] lists_file_error(pre, p, k) implies
    lists_file_error(post, p, k) by {
        let i = choose|i: int|
            {
                &&& 0 <= i < pre.len()
                &&& (#[trigger] pre[i]) matches Finding::FileError { path: pp, kind: kk }
                &&& pp@ == p
                &&& kk == k
            };
        assert(post[i] == pre[i]);
    }
    assert forall|p: Seq<char>, m: Seq<char>| #[trigger] lists_parse_error(pre, p, m) implies
    lists_parse_error(post, p, m) by {
        let i = choose|i: int|
            {
                &&& 0 <= i < pre.len()
                &&& (#[trigger] pre[i]) matches Finding::ParseError { path: pp, message: mm }
                &&& pp@ == p
                &&& mm@ == m
            };
        assert(post[i] == pre[i]);
    }
    assert forall|p: Seq<char>, role: Role, n: Seq<char>| #[trigger] lists_merge_conflict(
        pre,
        p,
        role,
        n,
    ) implies lists_merge_conflict(post, p, role, n) by {
        let i = choose|i: int|
            {
                &&& 0 <= i < pre.len()
                &&& (#[trigger] pre[i]) matches Finding::MergeConflict {
                    path: pp,
                    role: rr,
                    name: nn,
                }
                &&& pp@ == p
                &&& rr == role
                &&& nn@ == n
            };
        assert(post[i] == pre[i]);
    }
}

/// Appends one parse-error finding per message, against one path.
fn push_parse_errors(fs: &mut Vec<Finding>, path: &String, msgs: &Vec<String>)
    ensures
        final(fs)@.len() == old(fs)@.len() + msgs@.len(),
        forall|j: int| 0 <= j < old(fs)@.len() ==> #[trigger] final(fs)@[j] == old(fs)@[j],
        forall|m: int|
            0 <= m < msgs@.len() ==> lists_parse_error(final(fs)@, path@, #[trigger] msgs@[m]@),
        forall|j: int|
            old(fs)@.len() <= j < final(fs)@.len() ==> ({
                &&& (#[trigger] final(fs)@[j]) matches Finding::ParseError { path: p, message: m }
                &&& p@ == path@
                &&& m@ == msgs@[j - old(fs)@.len()]@
            }),
{
    let mut m: usize = 0;
    while m < msgs.len()
        invariant
            0 <= m <= msgs@.len(),
            fs@.len() == old(fs)@.len() + m,
            forall|j: int| 0 <= j < old(fs)@.len() ==> #[trigger] fs@[j] == old(fs)@[j],
            forall|mm: int|
                0 <= mm < m ==> lists_parse_error(fs@, path@, #[trigger] msgs@[mm]@),
            forall|j: int|
                old(fs)@.len() <= j < fs@.len() ==> ({
                    &&& (#[trigger] fs@[j]) matches Finding::ParseError { path: p, message: mmm }
                    &&& p@ == path@
                    &&& mmm@ == msgs@[j - old(fs)@.len()]@
                }),
        decreases msgs@.len() - m,
    {
        let ghost pre = fs@;
        fs.push(Finding::ParseError { path: path.clone(), message: msgs[m].clone() });
        proof {
            assert(fs@[pre.len() as int] matches Finding::ParseError { path: p, message: mm }
                && p@ == path@ && mm@ == msgs@[m as int]@);
            assert forall|mm: int| 0 <= mm < m + 1 implies lists_parse_error(
                fs@,
                path@,
                #[trigger] msgs@[mm]@,
            ) by {
                if mm < m {
                    lemma_lists_extend(pre, fs@);
                } else {
                    assert(lists_parse_error(fs@, path@, msgs@[mm]@));
                }
            }
        }
        m = m + 1;
    }
}

/// Appends one merge-conflict finding per collision, against one path.
fn push_merge_conflicts(fs: &mut Vec<Finding>, path: &String, merrs: &Vec<MergeError>)
    ensures
        final(fs)@.len() == old(fs)@.len() + merrs@.len(),
        forall|j: int| 0 <= j < old(fs)@.len() ==> #[trigger] final(fs)@[j] == old(fs)@[j],
        forall|role: Role, n: Seq<char>|
            #[trigger] lists_name(merrs@, role, n) ==> lists_merge_conflict(
                final(fs)@,
                path@,
                role,
                n,
            ),
        forall|p: Seq<char>, role: Role, n: Seq<char>|
            #[trigger] lists_merge_conflict(final(fs)@, p, role, n) ==> (lists_merge_conflict(
                old(fs)@,
                p,
                role,
                n,
            ) || (p == path@ && lists_name(merrs@, role, n))),
        forall|j: int|
            old(fs)@.len() <= j < final(fs)@.len() ==> ({
                &&& (#[trigger] final(fs)@[j]) matches Finding::MergeConflict {
                    path: p,
                    role: r,
                    name: nn,
                }
                &&& p@ == path@
                &&& r == merrs@[j - old(fs)@.len()].role
                &&& nn@ == merrs@[j - old(fs)@.len()].name@
            }),
{
    let mut m: usize = 0;
    while m < merrs.len()
        invariant
            0 <= m <= merrs@.len(),
            fs@.len() == old(fs)@.len() + m,
            forall|j: int| 0 <= j < old(fs)@.len() ==> #[trigger] fs@[j] == old(fs)@[j],
            forall|mm: int|
                0 <= mm < m ==> lists_merge_conflict(
                    fs@,
                    path@,
                    (#[trigger] merrs@[mm]).role,
                    merrs@[mm].name@,
                ),
            forall|j: int|
                old(fs)@.len() <= j < fs@.len() ==> ({
                    &&& (#[trigger] fs@[j]) matches Finding::MergeConflict {
                        path: p,
                        role: r,
                        name: nn,
                    }
                    &&& p@ == path@
                    &&& r == merrs@[j - old(fs)@.len()].role
                    &&& nn@ == merrs@[j - old(fs)@.len()].name@
                }),
        decreases merrs@.len() - m,
    {
        let ghost pre = fs@;
        fs.push(
            Finding::MergeConflict {
                path: path.clone(),
                role: merrs[m].role,
                name: merrs[m].name.clone(),
            },
        );
        proof {
            assert(fs@[pre.len() as int] matches Finding::MergeConflict {
                path: p,
                role: r,
                name: nn,
            } && p@ == path@ && r == merrs@[m as int].role && nn@ == merrs@[m as int].name@);
            assert forall|mm: int| 0 <= mm < m + 1 implies lists_merge_conflict(
                fs@,
                path@,
                (#[trigger] merrs@[mm]).role,
                merrs@[mm].name@,
            ) by {
                if mm < m {
                    lemma_lists_extend(pre, fs@);
                } else {
                    assert(lists_merge_conflict(fs@, path@, merrs@[mm].role, merrs@[mm].name@));
                }
            }
        }
        m = m + 1;
    }
    proof {
        assert forall|role: Role, n: Seq<char>| #[trigger] lists_name(merrs@, role, n) implies
        lists_merge_conflict(fs@, path@, role, n) by {
            let mm = choose|mm: int|
                0 <= mm < merrs@.len() && (#[trigger] merrs@[mm]).role == role && merrs@[mm].name@
                    == n;
            assert(lists_merge_conflict(fs@, path@, merrs@[mm].role, merrs@[mm].name@));
        }
        assert forall|p: Seq<char>, role: Role, n: Seq<char>| #[trigger] lists_merge_conflict(
            fs@,
            p,
            role,
            n,
        ) implies (lists_merge_conflict(old(fs)@, p, role, n) || (p == path@ && lists_name(
            merrs@,
            role,
            n,
        ))) by {
            let i = choose|i: int|
                {
                    &&& 0 <= i < fs@.len()
                    &&& (#[trigger] fs@[i]) matches Finding::MergeConflict {
                        path: pp,
                        role: rr,
                        name: nn,
                    }
                    &&& pp@ == p
                    &&& rr == role
                    &&& nn@ == n
                };
            if i < old(fs)@.len() {
                assert(lists_merge_conflict(old(fs)@, p, role, n));
            } else {
                let mm = i - old(fs)@.len();
                assert(lists_name(merrs@, role, n)) by {
                    assert(merrs@[mm].role == role && merrs@[mm].name@ == n);
                }
            }
        }
    }
}

/// A pair of defining entries below one bound still lies below a larger.
pub proof fn lemma_two_fragments_mono(
    entries: Seq<PathEntry>,
    a: int,
    b: int,
    role: Role,
    n: Seq<char>,
)
    requires
        0 <= a <= b <= entries.len(),
        two_fragments_define(entries, a, role, n),
    ensures
        two_fragments_define(entries, b, role, n),
{
    let (i, j) = choose|i: int, j: int|
        0 <= i < j < a && (#[trigger] entries[i]).outcome is Parsed
            && (#[trigger] entries[j]).outcome is Parsed && has_name(
            entries[i].outcome->Parsed_0.role_seq(role),
            n,
        ) && has_name(entries[j].outcome->Parsed_0.role_seq(role), n);
    assert(0 <= i < j < b && entries[i].outcome is Parsed && entries[j].outcome is Parsed
        && has_name(entries[i].outcome->Parsed_0.role_seq(role), n) && has_name(
        entries[j].outcome->Parsed_0.role_seq(role),
        n,
    ));
}

/// Conflict findings do not change when only other kinds are appended.
pub proof fn lemma_conflicts_unchanged(pre: Seq<Finding>, post: Seq<Finding>)
    requires
        pre.len() <= post.len(),
        forall|j: int| 0 <= j < pre.len() ==> post[j] == pre[j],
        forall|j: int| pre.len() <= j < post.len() ==> !((#[trigger] post[j]) is MergeConflict),
    ensures
        forall|p: Seq<char>, role: Role, n: Seq<char>|
            #[trigger] lists_merge_conflict(post, p, role, n) ==> lists_merge_conflict(
                pre,
                p,
                role,
                n,
            ),
{
    assert forall|p: Seq<char>, role: Role, n: Seq<char>| #[trigger] lists_merge_conflict(
        post,
        p,
        role,
        n,
    ) implies lists_merge_conflict(pre, p, role, n) by {
        let i = choose|i: int|
            {
                &&& 0 <= i < post.len()
                &&& (#[trigger] post[i]) matches Finding::MergeConflict {
                    path: pp,
                    role: rr,
                    name: nn,
                }
                &&& pp@ == p
                &&& rr == role
                &&& nn@ == n
            };
        assert(i < pre.len());
        assert(pre[i] == post[i]);
    }
}

/// The path a finding is attributed to (empty for findings of the later,
/// path-less stages).
pub open spec fn finding_path(f: Finding) -> Seq<char> {
    match f {
        Finding::FileError { path, kind } => path@,
        Finding::ParseError { path, message } => path@,
        Finding::MergeConflict { path, role, name } => path@,
        _ => Seq::<char>::empty(),
    }
}

/// The kind a file-error finding reports.
pub open spec fn file_error_kind(f: Finding) -> FileErrorKind {
    match f {
        Finding::FileError { path, kind } => kind,
        _ => FileErrorKind::NotFound,
    }
}

/// The message a parse-error finding carries.
pub open spec fn parse_error_message(f: Finding) -> Seq<char> {
    match f {
        Finding::ParseError { path, message } => message@,
        _ => Seq::<char>::empty(),
    }
}

/// An entry that contributed nothing leaves the merged content as it was.
proof fn lemma_content_skip(entries: Seq<PathEntry>, k: int, agg: ConfigAggregate)
    requires
        0 <= k < entries.len(),
        !(entries[k].outcome is Parsed),
        merged_content(entries, k, agg),
    ensures
        merged_content(entries, k + 1, agg),
{
    assert forall|role: Role, n: Seq<char>| true implies (#[trigger] has_name(
        agg.role_seq(role),
        n,
    ) <==> fragment_defines(entries, k + 1, role, n)) by {
        lemma_fragment_defines_step(entries, k, role, n);
    }
    assert forall|role: Role, n: Seq<char>, i: int|
        (0 <= i < k + 1 && (#[trigger] entries[i]).outcome is Parsed && #[trigger] has_name(
            entries[i].outcome->Parsed_0.role_seq(role),
            n,
        )) implies defn_at(agg.role_seq(role), n) == defn_at(
        entries[i].outcome->Parsed_0.role_seq(role),
        n,
    ) by {
        assert(i < k);
    }
}

/// A cleanly appended fragment extends the merged content by one entry.
proof fn lemma_content_extend(
    entries: Seq<PathEntry>,
    k: int,
    prev_agg: ConfigAggregate,
    agg: ConfigAggregate,
    frag: ConfigAggregate,
)
    requires
        0 <= k < entries.len(),
        entries[k].outcome is Parsed,
        forall|role: Role|
            #[trigger] frag.role_seq(role) == entries[k].outcome->Parsed_0.role_seq(role),
        forall|role: Role|
            #[trigger] agg.role_seq(role) == prev_agg.role_seq(role) + frag.role_seq(role),
        forall|role: Role, n: Seq<char>|
            !(has_name(prev_agg.role_seq(role), n) && #[trigger] has_name(
                frag.role_seq(role),
                n,
            )),
        forall|role: Role|
            unique_names(#[trigger] prev_agg.role_seq(role)) && unique_names(frag.role_seq(role)),
        merged_content(entries, k, prev_agg),
    ensures
        merged_content(entries, k + 1, agg),
{
    assert forall|role: Role, n: Seq<char>| true implies (#[trigger] has_name(
        agg.role_seq(role),
        n,
    ) <==> fragment_defines(entries, k + 1, role, n)) by {
        lemma_concat_names(prev_agg.role_seq(role), frag.role_seq(role), n);
        lemma_fragment_defines_step(entries, k, role, n);
    }
    assert forall|role: Role, n: Seq<char>, i: int|
        (0 <= i < k + 1 && (#[trigger] entries[i]).outcome is Parsed && #[trigger] has_name(
            entries[i].outcome->Parsed_0.role_seq(role),
            n,
        )) implies defn_at(agg.role_seq(role), n) == defn_at(
        entries[i].outcome->Parsed_0.role_seq(role),
        n,
    ) by {
        assert forall|m: Seq<char>| true implies !(has_name(prev_agg.role_seq(role), m)
            && has_name(frag.role_seq(role), m)) by {}
        lemma_concat_names(prev_agg.role_seq(role), frag.role_seq(role), n);
        lemma_concat_defn(prev_agg.role_seq(role), frag.role_seq(role), n);
        if i < k {
            assert(has_name(prev_agg.role_seq(role), n));
        } else {
            assert(has_name(frag.role_seq(role), n));
            assert(!has_name(prev_agg.role_seq(role), n));
        }
    }
}

/// Merges per-path load outcomes into one configuration generation, in
/// path order. A missing or unreadable file, a parse failure, and a merge
/// conflict are each reported against their own path; a conflicting file's
/// contribution is skipped, never the whole run, and the findings are empty
/// exactly when every file parsed and no two fragments share a name.
#[verifier::rlimit(100)]
pub fn read_configs(entries: &Vec<PathEntry>) -> (r: (ConfigAggregate, Vec<Finding>))
    requires
        forall|i: int|
            0 <= i < entries@.len() && (#[trigger] entries@[i]).outcome is Parsed
                ==> entries@[i].outcome->Parsed_0.wf(),
        forall|i: int|
            0 <= i < entries@.len() && (#[trigger] entries@[i]).outcome is ParseFailed
                ==> entries@[i].outcome->ParseFailed_0@.len() > 0,
        forall|i: int, j: int|
            0 <= i < j < entries@.len() ==> (#[trigger] entries@[i]).path@
                != (#[trigger] entries@[j]).path@,
    ensures
        r.0.wf(),
        forall|i: int|
            0 <= i < entries@.len() && (#[trigger] entries@[i]).outcome is FileError
                ==> lists_file_error(r.1@, entries@[i].path@, entries@[i].outcome->FileError_0),
        forall|i: int, m: int|
            (0 <= i < entries@.len() && (#[trigger] entries@[i]).outcome is ParseFailed && 0 <= m
                < entries@[i].outcome->ParseFailed_0@.len()) ==> lists_parse_error(
                r.1@,
                entries@[i].path@,
                (#[trigger] entries@[i].outcome->ParseFailed_0@[m])@,
            ),
        (r.1@.len() == 0) <==> (all_parsed(entries@, entries@.len() as int) && fragments_disjoint(
            entries@,
            entries@.len() as int,
        )),
        r.1@.len() == 0 ==> merged_content(entries@, entries@.len() as int, r.0),
        fragments_disjoint(entries@, entries@.len() as int) ==> merged_content(
            entries@,
            entries@.len() as int,
            r.0,
        ),
        forall|p: Seq<char>, role: Role, n: Seq<char>|
            #[trigger] lists_merge_conflict(r.1@, p, role, n) ==> two_fragments_define(
                entries@,
                entries@.len() as int,
                role,
                n,
            ),
        (all_parsed(entries@, entries@.len() as int) && !fragments_disjoint(
            entries@,
            entries@.len() as int,
        )) ==> exists|p: Seq<char>, role: Role, n: Seq<char>|
            #[trigger] lists_merge_conflict(r.1@, p, role, n),
        forall|j: int|
            0 <= j < r.1@.len() ==> ((#[trigger] r.1@[j]) is FileError || r.1@[j] is ParseError
                || r.1@[j] is MergeConflict),
        forall|j: int|
            (0 <= j < r.1@.len() && (#[trigger] r.1@[j]) is FileError) ==> exists|i: int|
                0 <= i < entries@.len() && (#[trigger] entries@[i]).path@ == finding_path(r.1@[j])
                    && entries@[i].outcome == PathOutcome::FileError(file_error_kind(r.1@[j])),
        forall|j: int|
            (0 <= j < r.1@.len() && (#[trigger] r.1@[j]) is ParseError) ==> exists|i: int|
                0 <= i < entries@.len() && (#[trigger] entries@[i]).path@ == finding_path(r.1@[j])
                    && entries@[i].outcome is ParseFailed && string_listed(
                    entries@[i].outcome->ParseFailed_0@,
                    parse_error_message(r.1@[j]),
                ),
        forall|j1: int, j2: int|
            (0 <= j1 < j2 < r.1@.len() && (#[trigger] r.1@[j1]) is FileError
                && (#[trigger] r.1@[j2]) is FileError) ==> finding_path(r.1@[j1]) != finding_path(
                r.1@[j2],
            ),
        forall|p: Seq<char>, role: Role, n: Seq<char>|
            #[trigger] lists_merge_conflict(r.1@, p, role, n) ==> exists|kk: int|
                0 <= kk < entries@.len() && (#[trigger] entries@[kk]).path@ == p
                    && entries@[kk].outcome is Parsed && has_name(
                    entries@[kk].outcome->Parsed_0.role_seq(role),
                    n,
                ) && fragment_defines(entries@, kk, role, n),
{
    let mut agg = ConfigAggregate::empty();
    let mut fs: Vec<Finding> = Vec::new();
    let mut k: usize = 0;
    while k < entries.len()
        invariant
            0 <= k <= entries@.len(),
            agg.wf(),
            forall|i: int|
                0 <= i < entries@.len() && (#[trigger] entries@[i]).outcome is Parsed
                    ==> entries@[i].outcome->Parsed_0.wf(),
            forall|i: int|
                0 <= i < entries@.len() && (#[trigger] entries@[i]).outcome is ParseFailed
                    ==> entries@[i].outcome->ParseFailed_0@.len() > 0,
            forall|i: int|
                0 <= i < k && (#[trigger] entries@[i]).outcome is FileError ==> lists_file_error(
                    fs@,
                    entries@[i].path@,
                    entries@[i].outcome->FileError_0,
                ),
            forall|i: int, m: int|
                (0 <= i < k && (#[trigger] entries@[i]).outcome is ParseFailed && 0 <= m
                    < entries@[i].outcome->ParseFailed_0@.len()) ==> lists_parse_error(
                    fs@,
                    entries@[i].path@,
                    (#[trigger] entries@[i].outcome->ParseFailed_0@[m])@,
                ),
            (fs@.len() == 0) <==> (all_parsed(entries@, k as int) && fragments_disjoint(
                entries@,
                k as int,
            )),
            fs@.len() == 0 ==> merged_content(entries@, k as int, agg),
            fragments_disjoint(entries@, entries@.len() as int) ==> merged_content(
                entries@,
                k as int,
                agg,
            ),
            forall|role: Role, n: Seq<char>|
                #[trigger] has_name(agg.role_seq(role), n) ==> fragment_defines(
                    entries@,
                    k as int,
                    role,
                    n,
                ),
            forall|p: Seq<char>, role: Role, n: Seq<char>|
                #[trigger] lists_merge_conflict(fs@, p, role, n) ==> two_fragments_define(
                    entries@,
                    entries@.len() as int,
                    role,
                    n,
                ),
            (all_parsed(entries@, k as int) && fs@.len() > 0) ==> exists|p: Seq<char>, role: Role, n: Seq<char>|
                #[trigger] lists_merge_conflict(fs@, p, role, n),
            forall|i: int, j: int|
                0 <= i < j < entries@.len() ==> (#[trigger] entries@[i]).path@
                    != (#[trigger] entries@[j]).path@,
            forall|j: int|
                0 <= j < fs@.len() ==> ((#[trigger] fs@[j]) is FileError || fs@[j] is ParseError
                    || fs@[j] is MergeConflict),
            forall|j: int|
                (0 <= j < fs@.len() && (#[trigger] fs@[j]) is FileError) ==> exists|i: int|
                    0 <= i < k as int && (#[trigger] entries@[i]).path@ == finding_path(fs@[j])
                        && entries@[i].outcome == PathOutcome::FileError(file_error_kind(fs@[j])),
            forall|j: int|
                (0 <= j < fs@.len() && (#[trigger] fs@[j]) is ParseError) ==> exists|i: int|
                    0 <= i < entries@.len() && (#[trigger] entries@[i]).path@ == finding_path(
                        fs@[j],
                    ) && entries@[i].outcome is ParseFailed && string_listed(
                        entries@[i].outcome->ParseFailed_0@,
                        parse_error_message(fs@[j]),
                    ),
            forall|j1: int, j2: int|
                (0 <= j1 < j2 < fs@.len() && (#[trigger] fs@[j1]) is FileError
                    && (#[trigger] fs@[j2]) is FileError) ==> finding_path(fs@[j1])
                    != finding_path(fs@[j2]),
            forall|p: Seq<char>, role: Role, n: Seq<char>|
                #[trigger] lists_merge_conflict(fs@, p, role, n) ==> exists|kk: int|
                    0 <= kk < entries@.len() && (#[trigger] entries@[kk]).path@ == p
                        && entries@[kk].outcome is Parsed && has_name(
                        entries@[kk].outcome->Parsed_0.role_seq(role),
                        n,
                    ) && fragment_defines(entries@, kk, role, n),
        decreases entries@.len() - k,
    {
        let ghost pre = fs@;
        let ghost prev_agg = agg;
        let ghost ek = entries@[k as int];
        match &entries[k].outcome {
            PathOutcome::FileError(kind) => {
                fs.push(Finding::FileError { path: entries[k].path.clone(), kind: *kind });
                proof {
                    lemma_lists_extend(pre, fs@);
                    lemma_conflicts_unchanged(pre, fs@);
                    assert(lists_file_error(fs@, ek.path@, ek.outcome->FileError_0)) by {
                        assert(fs@[pre.len() as int] matches Finding::FileError {
                            path: p,
                            kind: kk,
                        } && p@ == ek.path@ && kk == ek.outcome->FileError_0);
                    }
                    assert(!all_parsed(entries@, k as int + 1)) by {
                        assert(!(entries@[k as int].outcome is Parsed));
                    }
                    if fragments_disjoint(entries@, entries@.len() as int) {
                        lemma_content_skip(entries@, k as int, agg);
                    }
                    assert forall|role: Role, n: Seq<char>| #[trigger] has_name(
                        agg.role_seq(role),
                        n,
                    ) implies fragment_defines(entries@, k as int + 1, role, n) by {
                        lemma_fragment_defines_step(entries@, k as int, role, n);
                    }
                    assert(fs@[pre.len() as int] is FileError);
                    assert(finding_path(fs@[pre.len() as int]) == ek.path@);
                    assert(file_error_kind(fs@[pre.len() as int]) == ek.outcome->FileError_0);
                    assert(entries@[k as int].outcome == PathOutcome::FileError(
                        ek.outcome->FileError_0,
                    ));
                    assert forall|j: int| 0 <= j < fs@.len() implies ((#[trigger] fs@[j])
                        is FileError || fs@[j] is ParseError || fs@[j] is MergeConflict) by {
                        if j < pre.len() {
                            assert(fs@[j] == pre[j]);
                        }
                    }
                    assert forall|j: int|
                        (0 <= j < fs@.len() && (#[trigger] fs@[j]) is FileError) implies exists|
                            i: int,
                        |
                            0 <= i < k as int + 1 && (#[trigger] entries@[i]).path@
                                == finding_path(fs@[j]) && entries@[i].outcome
                                == PathOutcome::FileError(file_error_kind(fs@[j])) by {
                        if j < pre.len() {
                            assert(fs@[j] == pre[j]);
                            let i0 = choose|i: int|
                                0 <= i < k as int && (#[trigger] entries@[i]).path@
                                    == finding_path(pre[j]) && entries@[i].outcome
                                    == PathOutcome::FileError(file_error_kind(pre[j]));
                            assert(0 <= i0 < k as int + 1 && entries@[i0].path@ == finding_path(
                                fs@[j],
                            ) && entries@[i0].outcome == PathOutcome::FileError(
                                file_error_kind(fs@[j]),
                            ));
                        } else {
                            assert(0 <= (k as int) && (k as int) < (k as int) + 1
                                && entries@[k as int].path@ == finding_path(fs@[j])
                                && entries@[k as int].outcome == PathOutcome::FileError(
                                file_error_kind(fs@[j]),
                            ));
                        }
                    }
                    assert forall|j1: int, j2: int|
                        (0 <= j1 < j2 < fs@.len() && (#[trigger] fs@[j1]) is FileError
                            && (#[trigger] fs@[j2]) is FileError) implies finding_path(fs@[j1])
                        != finding_path(fs@[j2]) by {
                        assert(fs@[j1] == pre[j1]);
                        if j2 < pre.len() {
                            assert(fs@[j2] == pre[j2]);
                        } else {
                            assert(finding_path(fs@[j2]) == ek.path@);
                            let i0 = choose|i: int|
                                0 <= i < k as int && (#[trigger] entries@[i]).path@
                                    == finding_path(pre[j1]) && entries@[i].outcome
                                    == PathOutcome::FileError(file_error_kind(pre[j1]));
                            assert(entries@[i0].path@ != entries@[k as int].path@);
                        }
                    }
                    assert forall|j: int|
                        (0 <= j < fs@.len() && (#[trigger] fs@[j]) is ParseError) implies exists|
                            i: int,
                        |
                            0 <= i < entries@.len() && (#[trigger] entries@[i]).path@
                                == finding_path(fs@[j]) && entries@[i].outcome is ParseFailed
                                && string_listed(
                                entries@[i].outcome->ParseFailed_0@,
                                parse_error_message(fs@[j]),
                            ) by {
                        assert(fs@[j] == pre[j]);
                        let i0 = choose|i: int|
                            0 <= i < entries@.len() && (#[trigger] entries@[i]).path@
                                == finding_path(pre[j]) && entries@[i].outcome is ParseFailed
                                && string_listed(
                                entries@[i].outcome->ParseFailed_0@,
                                parse_error_message(pre[j]),
                            );
                        assert(0 <= i0 < entries@.len() && entries@[i0].path@ == finding_path(
                            fs@[j],
                        ) && entries@[i0].outcome is ParseFailed && string_listed(
                            entries@[i0].outcome->ParseFailed_0@,
                            parse_error_message(fs@[j]),
                        ));
                    }
                    assert forall|p: Seq<char>, role: Role, n: Seq<char>| #[trigger] lists_merge_conflict(
                        fs@,
                        p,
                        role,
                        n,
                    ) implies exists|kk: int|
                        0 <= kk < entries@.len() && (#[trigger] entries@[kk]).path@ == p
                            && entries@[kk].outcome is Parsed && has_name(
                            entries@[kk].outcome->Parsed_0.role_seq(role),
                            n,
                        ) && fragment_defines(entries@, kk, role, n) by {
                        assert(lists_merge_conflict(pre, p, role, n));
                    }
                }
            },
            PathOutcome::ParseFailed(msgs) => {
                push_parse_errors(&mut fs, &entries[k].path, msgs);
                proof {
                    lemma_lists_extend(pre, fs@);
                    assert forall|j: int| pre.len() <= j < fs@.len() implies !((
                    #[trigger] fs@[j]) is MergeConflict) by {
                        assert(fs@[j] matches Finding::ParseError { path: p, message: m });
                    }
                    lemma_conflicts_unchanged(pre, fs@);
                    assert(fs@.len() > 0);
                    assert(!all_parsed(entries@, k as int + 1)) by {
                        assert(!(entries@[k as int].outcome is Parsed));
                    }
                    if fragments_disjoint(entries@, entries@.len() as int) {
                        lemma_content_skip(entries@, k as int, agg);
                    }
                    assert forall|role: Role, n: Seq<char>| #[trigger] has_name(
                        agg.role_seq(role),
                        n,
                    ) implies fragment_defines(entries@, k as int + 1, role, n) by {
                        lemma_fragment_defines_step(entries@, k as int, role, n);
                    }
                    assert(entries@[k as int].outcome is ParseFailed);
                    assert forall|j: int| 0 <= j < fs@.len() implies ((#[trigger] fs@[j])
                        is FileError || fs@[j] is ParseError || fs@[j] is MergeConflict) by {
                        if j < pre.len() {
                            assert(fs@[j] == pre[j]);
                        } else {
                            assert(fs@[j] is ParseError);
                        }
                    }
                    assert forall|j: int|
                        (0 <= j < fs@.len() && (#[trigger] fs@[j]) is FileError) implies exists|
                            i: int,
                        |
                            0 <= i < k as int + 1 && (#[trigger] entries@[i]).path@
                                == finding_path(fs@[j]) && entries@[i].outcome
                                == PathOutcome::FileError(file_error_kind(fs@[j])) by {
                        assert(fs@[j] == pre[j]);
                        let i0 = choose|i: int|
                            0 <= i < k as int && (#[trigger] entries@[i]).path@ == finding_path(
                                pre[j],
                            ) && entries@[i].outcome == PathOutcome::FileError(
                                file_error_kind(pre[j]),
                            );
                        assert(0 <= i0 < k as int + 1 && entries@[i0].path@ == finding_path(
                            fs@[j],
                        ) && entries@[i0].outcome == PathOutcome::FileError(
                            file_error_kind(fs@[j]),
                        ));
                    }
                    assert forall|j1: int, j2: int|
                        (0 <= j1 < j2 < fs@.len() && (#[trigger] fs@[j1]) is FileError
                            && (#[trigger] fs@[j2]) is FileError) implies finding_path(fs@[j1])
                        != finding_path(fs@[j2]) by {
                        assert(fs@[j1] == pre[j1]);
                        assert(fs@[j2] == pre[j2]);
                    }
                    assert forall|j: int|
                        (0 <= j < fs@.len() && (#[trigger] fs@[j]) is ParseError) implies exists|
                            i: int,
                        |
                            0 <= i < entries@.len() && (#[trigger] entries@[i]).path@
                                == finding_path(fs@[j]) && entries@[i].outcome is ParseFailed
                                && string_listed(
                                entries@[i].outcome->ParseFailed_0@,
                                parse_error_message(fs@[j]),
                            ) by {
                        if j < pre.len() {
                            assert(fs@[j] == pre[j]);
                            let i0 = choose|i: int|
                                0 <= i < entries@.len() && (#[trigger] entries@[i]).path@
                                    == finding_path(pre[j]) && entries@[i].outcome is ParseFailed
                                    && string_listed(
                                    entries@[i].outcome->ParseFailed_0@,
                                    parse_error_message(pre[j]),
                                );
                            assert(0 <= i0 < entries@.len() && entries@[i0].path@ == finding_path(
                                fs@[j],
                            ) && entries@[i0].outcome is ParseFailed && string_listed(
                                entries@[i0].outcome->ParseFailed_0@,
                                parse_error_message(fs@[j]),
                            ));
                        } else {
                            assert(finding_path(fs@[j]) == entries@[k as int].path@);
                            assert(parse_error_message(fs@[j])
                                == entries@[k as int].outcome->ParseFailed_0@[j - pre.len()]@);
                            assert(string_listed(
                                entries@[k as int].outcome->ParseFailed_0@,
                                parse_error_message(fs@[j]),
                            )) by {
                                assert(entries@[k as int].outcome->ParseFailed_0@[j
                                    - pre.len()]@ == parse_error_message(fs@[j]));
                            }
                            assert(0 <= (k as int) && (k as int) < entries@.len()
                                && entries@[k as int].path@ == finding_path(fs@[j])
                                && entries@[k as int].outcome is ParseFailed && string_listed(
                                entries@[k as int].outcome->ParseFailed_0@,
                                parse_error_message(fs@[j]),
                            ));
                        }
                    }
                    assert forall|p: Seq<char>, role: Role, n: Seq<char>| #[trigger] lists_merge_conflict(
                        fs@,
                        p,
                        role,
                        n,
                    ) implies exists|kk: int|
                        0 <= kk < entries@.len() && (#[trigger] entries@[kk]).path@ == p
                            && entries@[kk].outcome is Parsed && has_name(
                            entries@[kk].outcome->Parsed_0.role_seq(role),
                            n,
                        ) && fragment_defines(entries@, kk, role, n) by {
                        assert(lists_merge_conflict(pre, p, role, n));
                    }
                }
            },
            PathOutcome::Parsed(c) => {
                let frag = c.clone();
                let ghost gfrag = frag;
                proof {
                    assert(frag.wf());
                }
                let res = agg.append(frag);
                match res {
                    Ok(()) => {
                        proof {
                            assert(entries@[k as int].outcome is Parsed);
                            assert forall|role: Role| true implies (#[trigger] gfrag.role_seq(role))
                                == ek.outcome->Parsed_0.role_seq(role) by {}
                            assert forall|role: Role| true implies #[trigger] agg.role_seq(role)
                                == prev_agg.role_seq(role) + gfrag.role_seq(role) by {}
                            assert forall|role: Role, n: Seq<char>| true implies !(has_name(
                                prev_agg.role_seq(role),
                                n,
                            ) && #[trigger] has_name(gfrag.role_seq(role), n)) by {}
                            assert forall|role: Role| true implies (unique_names(
                                #[trigger] prev_agg.role_seq(role),
                            ) && unique_names(gfrag.role_seq(role))) by {}
                            assert forall|role: Role, n: Seq<char>| #[trigger] has_name(
                                agg.role_seq(role),
                                n,
                            ) implies fragment_defines(entries@, k as int + 1, role, n) by {
                                lemma_concat_names(
                                    prev_agg.role_seq(role),
                                    gfrag.role_seq(role),
                                    n,
                                );
                                lemma_fragment_defines_step(entries@, k as int, role, n);
                            }
                            if pre.len() == 0 {
                                assert forall|role: Role, n: Seq<char>| true implies !#[trigger] two_fragments_define(
                                    entries@,
                                    k as int + 1,
                                    role,
                                    n,
                                ) by {
                                    lemma_two_fragments_step(entries@, k as int, role, n);
                                    if ek.outcome is Parsed && has_name(
                                        ek.outcome->Parsed_0.role_seq(role),
                                        n,
                                    ) && fragment_defines(entries@, k as int, role, n) {
                                        assert(has_name(prev_agg.role_seq(role), n));
                                        assert(has_name(gfrag.role_seq(role), n));
                                    }
                                }
                                lemma_content_extend(entries@, k as int, prev_agg, agg, gfrag);
                            } else {
                                if !all_parsed(entries@, k as int) {
                                    let w = choose|w: int|
                                        0 <= w < k as int && !((#[trigger] entries@[w]).outcome
                                            is Parsed);
                                    assert(!all_parsed(entries@, k as int + 1));
                                } else {
                                    let (role, n) = choose|role: Role, n: Seq<char>|
                                        #[trigger] two_fragments_define(
                                            entries@,
                                            k as int,
                                            role,
                                            n,
                                        );
                                    lemma_two_fragments_mono(
                                        entries@,
                                        k as int,
                                        k as int + 1,
                                        role,
                                        n,
                                    );
                                    assert(!fragments_disjoint(entries@, k as int + 1));
                                }
                            }
                            if fragments_disjoint(entries@, entries@.len() as int) {
                                lemma_content_extend(entries@, k as int, prev_agg, agg, gfrag);
                            }
                            assert forall|j: int|
                                (0 <= j < fs@.len() && (#[trigger] fs@[j]) is FileError) implies
                            exists|i: int|
                                0 <= i < k as int + 1 && (#[trigger] entries@[i]).path@
                                    == finding_path(fs@[j]) && entries@[i].outcome
                                    == PathOutcome::FileError(file_error_kind(fs@[j])) by {
                                let i0 = choose|i: int|
                                    0 <= i < k as int && (#[trigger] entries@[i]).path@
                                        == finding_path(fs@[j]) && entries@[i].outcome
                                        == PathOutcome::FileError(file_error_kind(fs@[j]));
                                assert(0 <= i0 < k as int + 1 && entries@[i0].path@
                                    == finding_path(fs@[j]) && entries@[i0].outcome
                                    == PathOutcome::FileError(file_error_kind(fs@[j])));
                            }
                        }
                    },
                    Err(merrs) => {
                        push_merge_conflicts(&mut fs, &entries[k].path, &merrs);
                        proof {
                            lemma_lists_extend(pre, fs@);
                            assert(entries@[k as int].outcome is Parsed);
                            assert forall|role: Role| true implies (#[trigger] gfrag.role_seq(role))
                                == ek.outcome->Parsed_0.role_seq(role) by {}
                            assert(merrs@.len() > 0);
                            assert(fs@.len() > 0);
                            // a collision exists: the first reported one
                            assert(lists_name(merrs@, merrs@[0].role, merrs@[0].name@));
                            let (role0, n0) = (merrs@[0].role, merrs@[0].name@);
                            assert(has_name(prev_agg.role_seq(role0), n0) && has_name(
                                gfrag.role_seq(role0),
                                n0,
                            ));
                            assert(has_name(ek.outcome->Parsed_0.role_seq(role0), n0));
                            assert(fragment_defines(entries@, k as int, role0, n0));
                            assert(lists_merge_conflict(fs@, ek.path@, role0, n0));
                            lemma_two_fragments_step(entries@, k as int, role0, n0);
                            lemma_two_fragments_mono(
                                entries@,
                                k as int + 1,
                                entries@.len() as int,
                                role0,
                                n0,
                            );
                            assert(!fragments_disjoint(entries@, entries@.len() as int)) by {
                                assert(two_fragments_define(
                                    entries@,
                                    entries@.len() as int,
                                    role0,
                                    n0,
                                ));
                            }
                            assert(!fragments_disjoint(entries@, k as int + 1)) by {
                                lemma_two_fragments_mono(
                                    entries@,
                                    k as int + 1,
                                    k as int + 1,
                                    role0,
                                    n0,
                                );
                                assert(two_fragments_define(entries@, k as int + 1, role0, n0));
                            }
                            assert forall|p: Seq<char>, role: Role, n: Seq<char>| #[trigger] lists_merge_conflict(
                                fs@,
                                p,
                                role,
                                n,
                            ) implies two_fragments_define(
                                entries@,
                                entries@.len() as int,
                                role,
                                n,
                            ) by {
                                if !lists_merge_conflict(pre, p, role, n) {
                                    assert(lists_name(merrs@, role, n));
                                    assert(has_name(prev_agg.role_seq(role), n) && has_name(
                                        gfrag.role_seq(role),
                                        n,
                                    ));
                                    assert(has_name(ek.outcome->Parsed_0.role_seq(role), n));
                                    assert(fragment_defines(entries@, k as int, role, n));
                                    lemma_two_fragments_step(entries@, k as int, role, n);
                                    lemma_two_fragments_mono(
                                        entries@,
                                        k as int + 1,
                                        entries@.len() as int,
                                        role,
                                        n,
                                    );
                                }
                            }
                            assert forall|role: Role, n: Seq<char>| #[trigger] has_name(
                                agg.role_seq(role),
                                n,
                            ) implies fragment_defines(entries@, k as int + 1, role, n) by {
                                lemma_fragment_defines_step(entries@, k as int, role, n);
                            }
                            assert forall|j: int| 0 <= j < fs@.len() implies ((#[trigger] fs@[j])
                                is FileError || fs@[j] is ParseError || fs@[j]
                                is MergeConflict) by {
                                if j < pre.len() {
                                    assert(fs@[j] == pre[j]);
                                } else {
                                    assert(fs@[j] is MergeConflict);
                                }
                            }
                            assert forall|j: int|
                                (0 <= j < fs@.len() && (#[trigger] fs@[j]) is FileError) implies
                            exists|i: int|
                                0 <= i < k as int + 1 && (#[trigger] entries@[i]).path@
                                    == finding_path(fs@[j]) && entries@[i].outcome
                                    == PathOutcome::FileError(file_error_kind(fs@[j])) by {
                                assert(fs@[j] == pre[j]);
                                let i0 = choose|i: int|
                                    0 <= i < k as int && (#[trigger] entries@[i]).path@
                                        == finding_path(pre[j]) && entries@[i].outcome
                                        == PathOutcome::FileError(file_error_kind(pre[j]));
                                assert(0 <= i0 < k as int + 1 && entries@[i0].path@
                                    == finding_path(fs@[j]) && entries@[i0].outcome
                                    == PathOutcome::FileError(file_error_kind(fs@[j])));
                            }
                            assert forall|j1: int, j2: int|
                                (0 <= j1 < j2 < fs@.len() && (#[trigger] fs@[j1]) is FileError
                                    && (#[trigger] fs@[j2]) is FileError) implies finding_path(
                                fs@[j1],
                            ) != finding_path(fs@[j2]) by {
                                assert(fs@[j1] == pre[j1]);
                                assert(fs@[j2] == pre[j2]);
                            }
                            assert forall|j: int|
                                (0 <= j < fs@.len() && (#[trigger] fs@[j]) is ParseError) implies
                            exists|i: int|
                                0 <= i < entries@.len() && (#[trigger] entries@[i]).path@
                                    == finding_path(fs@[j]) && entries@[i].outcome is ParseFailed
                                    && string_listed(
                                    entries@[i].outcome->ParseFailed_0@,
                                    parse_error_message(fs@[j]),
                                ) by {
                                assert(fs@[j] == pre[j]);
                                let i0 = choose|i: int|
                                    0 <= i < entries@.len() && (#[trigger] entries@[i]).path@
                                        == finding_path(pre[j]) && entries@[i].outcome
                                        is ParseFailed && string_listed(
                                        entries@[i].outcome->ParseFailed_0@,
                                        parse_error_message(pre[j]),
                                    );
                                assert(0 <= i0 < entries@.len() && entries@[i0].path@
                                    == finding_path(fs@[j]) && entries@[i0].outcome
                                    is ParseFailed && string_listed(
                                    entries@[i0].outcome->ParseFailed_0@,
                                    parse_error_message(fs@[j]),
                                ));
                            }
                            assert forall|p: Seq<char>, role: Role, n: Seq<char>| #[trigger] lists_merge_conflict(
                                fs@,
                                p,
                                role,
                                n,
                            ) implies exists|kk: int|
                                0 <= kk < entries@.len() && (#[trigger] entries@[kk]).path@ == p
                                    && entries@[kk].outcome is Parsed && has_name(
                                    entries@[kk].outcome->Parsed_0.role_seq(role),
                                    n,
                                ) && fragment_defines(entries@, kk, role, n) by {
                                if lists_merge_conflict(pre, p, role, n) {
                                } else {
                                    assert(p == ek.path@ && lists_name(merrs@, role, n));
                                    assert(has_name(prev_agg.role_seq(role), n) && has_name(
                                        gfrag.role_seq(role),
                                        n,
                                    ));
                                    assert(has_name(
                                        ek.outcome->Parsed_0.role_seq(role),
                                        n,
                                    ));
                                    assert(fragment_defines(entries@, k as int, role, n));
                                    assert(0 <= (k as int) && (k as int) < entries@.len()
                                        && entries@[k as int].path@ == p
                                        && entries@[k as int].outcome is Parsed && has_name(
                                        entries@[k as int].outcome->Parsed_0.role_seq(role),
                                        n,
                                    ) && fragment_defines(entries@, k as int, role, n));
                                }
                            }
                        }
                    },
                }
            },
        }
        k = k + 1;
    }
    proof {
        assert forall|j: int| (0 <= j < fs@.len() && (#[trigger] fs@[j]) is FileError) implies
        exists|i: int|
            0 <= i < entries@.len() && (#[trigger] entries@[i]).path@ == finding_path(fs@[j])
                && entries@[i].outcome == PathOutcome::FileError(file_error_kind(fs@[j])) by {
            let i0 = choose|i: int|
                0 <= i < k as int && (#[trigger] entries@[i]).path@ == finding_path(fs@[j])
                    && entries@[i].outcome == PathOutcome::FileError(file_error_kind(fs@[j]));
            assert(0 <= i0 < entries@.len() && entries@[i0].path@ == finding_path(fs@[j])
                && entries@[i0].outcome == PathOutcome::FileError(file_error_kind(fs@[j])));
        }
    }
    (agg, fs)
}

/// Applies the external macro-expansion outcome to a merged generation:
/// expansion errors are fatal for the whole run and are appended after the
/// merge findings.
pub fn finish_load(
    merged: ConfigAggregate,
    errs: Vec<Finding>,
    outcome: ExpandOutcome,
) -> (r: Result<ConfigAggregate, Vec<Finding>>)
    requires
        merged.wf(),
        outcome matches ExpandOutcome::Expanded(c) ==> c.wf(),
        outcome matches ExpandOutcome::ExpandFailed(msgs) ==> msgs@.len() > 0,
    ensures
        r is Ok <==> (errs@.len() == 0 && outcome is Expanded),
        r matches Ok(c) ==> ({
            &&& c.wf()
            &&& outcome matches ExpandOutcome::Expanded(e) && c == e
        }),
        r matches Err(es) ==> ({
            &&& es@.len() >= errs@.len()
            &&& forall|j: int| 0 <= j < errs@.len() ==> #[trigger] es@[j] == errs@[j]
            &&& (outcome matches ExpandOutcome::ExpandFailed(msgs) ==> ({
                &&& es@.len() == errs@.len() + msgs@.len()
                &&& forall|m: int|
                    0 <= m < msgs@.len() ==> ({
                        &&& (#[trigger] es@[errs@.len() + m]) matches Finding::ExpandError {
                            message,
                        }
                        &&& message@ == msgs@[m]@
                    })
            }))
            &&& (outcome is Expanded ==> es@ == errs@)
        }),
{
    match outcome {
        ExpandOutcome::Expanded(c) => {
            if errs.len() == 0 {
                Ok(c)
            } else {
                Err(errs)
            }
        },
        ExpandOutcome::ExpandFailed(msgs) => {
            let mut es = errs;
            let mut m: usize = 0;
            while m < msgs.len()
                invariant
                    0 <= m <= msgs@.len(),
                    es@.len() == errs@.len() + m,
                    forall|j: int| 0 <= j < errs@.len() ==> #[trigger] es@[j] == errs@[j],
                    forall|mm: int|
                        0 <= mm < m ==> ({
                            &&& (#[trigger] es@[errs@.len() + mm]) matches Finding::ExpandError {
                                message,
                            }
                            &&& message@ == msgs@[mm]@
                        }),
                decreases msgs@.len() - m,
            {
                es.push(Finding::ExpandError { message: msgs[m].clone() });
                m = m + 1;
            }
            Err(es)
        },
    }
}

/// Passes a loaded generation on and turns a failed load into `None`; the
/// caller reports the findings of a failed load before discarding it.
pub fn handle_config_errors(config: Result<ConfigAggregate, Vec<Finding>>) -> (r: Option<
    ConfigAggregate,
>)
    ensures
        config matches Ok(c) ==> r == Some(c),
        config is Err ==> r is None,
{
    match config {
        Ok(c) => Some(c),
        Err(_) => None,
    }
}

/// Options of a validation run.
#[derive(Clone, Copy, PartialEq, Eq, Structural, Debug)]
pub struct ValidateOpts {
    /// Skip the structural topology check.
    pub no_topology: bool,
    /// Skip the healthchecks.
    pub no_healthchecks: bool,
    /// Treat warnings as failures.
    pub deny_warnings: bool,
}

/// The stage the validation run is at.
#[derive(Clone, Copy, PartialEq, Eq, Structural, Debug)]
pub enum Phase {
    Files,
    Expand,
    Build,
    Check,
    Health,
    Trial,
    Done,
}

/// The external component builder's verdict on the merged generation.
pub enum BuildOutcome {
    /// Pieces were built; advisory warnings, and the names of the sinks
    /// whose healthchecks the pieces carry.
    Built { warnings: Vec<String>, healthchecks: Vec<String> },
    /// Construction failed; fatal for the generation.
    BuildFailed { errors: Vec<String> },
}

/// The external structural topology check's verdict.
pub enum CheckOutcome {
    CheckDone { warnings: Vec<String> },
    CheckFailed { errors: Vec<String> },
}

/// A validation run: stages advance in order, each may short-circuit the
/// run to a failing verdict, and the verdict succeeds exactly when every
/// stage that ran passed — with warnings escalated under `deny_warnings`.
pub struct Validator {
    pub opts: ValidateOpts,
    pub phase: Phase,
    pub config: ConfigAggregate,
    pub health_names: Vec<String>,
    pub failed: bool,
}

impl Validator {
    /// Between stages: the merged generation is well-formed, and a run that
    /// reached a stage past the fatal ones has not failed.
    pub open spec fn stage_inv(self) -> bool {
        &&& self.config.wf()
        &&& (self.phase == Phase::Build || self.phase == Phase::Check || self.phase
            == Phase::Health || self.phase == Phase::Trial) ==> !self.failed
    }

    /// Begins a validation run.
    pub fn new(opts: ValidateOpts) -> (v: Validator)
        ensures
            v.stage_inv(),
            v.phase == Phase::Files,
            !v.failed,
            v.opts == opts,
    {
        Validator {
            opts,
            phase: Phase::Files,
            config: ConfigAggregate::empty(),
            health_names: Vec::new(),
            failed: false,
        }
    }

    /// Stages 1–2: per-path load outcomes are merged in path order, with
    /// the attribution and merge guarantees of `read_configs`.
    pub fn file_stage(&mut self, entries: &Vec<PathEntry>) -> (fs: Vec<Finding>)
        requires
            old(self).phase == Phase::Files,
            old(self).stage_inv(),
            forall|i: int|
                0 <= i < entries@.len() && (#[trigger] entries@[i]).outcome is Parsed
                    ==> entries@[i].outcome->Parsed_0.wf(),
            forall|i: int|
                0 <= i < entries@.len() && (#[trigger] entries@[i]).outcome is ParseFailed
                    ==> entries@[i].outcome->ParseFailed_0@.len() > 0,
            forall|i: int, j: int|
                0 <= i < j < entries@.len() ==> (#[trigger] entries@[i]).path@
                    != (#[trigger] entries@[j]).path@,
        ensures
            final(self).stage_inv(),
            final(self).opts == old(self).opts,
            final(self).phase == Phase::Expand,
            final(self).failed == (fs@.len() > 0),
            forall|i: int|
                0 <= i < entries@.len() && (#[trigger] entries@[i]).outcome is FileError
                    ==> lists_file_error(fs@, entries@[i].path@, entries@[i].outcome->FileError_0),
            forall|i: int, m: int|
                (0 <= i < entries@.len() && (#[trigger] entries@[i]).outcome is ParseFailed && 0
                    <= m < entries@[i].outcome->ParseFailed_0@.len()) ==> lists_parse_error(
                    fs@,
                    entries@[i].path@,
                    (#[trigger] entries@[i].outcome->ParseFailed_0@[m])@,
                ),
            (fs@.len() == 0) <==> (all_parsed(entries@, entries@.len() as int)
                && fragments_disjoint(entries@, entries@.len() as int)),
            fs@.len() == 0 ==> merged_content(entries@, entries@.len() as int, final(self).config),
            fragments_disjoint(entries@, entries@.len() as int) ==> merged_content(
                entries@,
                entries@.len() as int,
                final(self).config,
            ),
            forall|p: Seq<char>, role: Role, n: Seq<char>|
                #[trigger] lists_merge_conflict(fs@, p, role, n) ==> two_fragments_define(
                    entries@,
                    entries@.len() as int,
                    role,
                    n,
                ),
            (all_parsed(entries@, entries@.len() as int) && !fragments_disjoint(
                entries@,
                entries@.len() as int,
            )) ==> exists|p: Seq<char>, role: Role, n: Seq<char>|
                #[trigger] lists_merge_conflict(fs@, p, role, n),
            forall|j: int|
                0 <= j < fs@.len() ==> ((#[trigger] fs@[j]) is FileError || fs@[j] is ParseError
                    || fs@[j] is MergeConflict),
            forall|j: int|
                (0 <= j < fs@.len() && (#[trigger] fs@[j]) is FileError) ==> exists|i: int|
                    0 <= i < entries@.len() && (#[trigger] entries@[i]).path@ == finding_path(
                        fs@[j],
                    ) && entries@[i].outcome == PathOutcome::FileError(file_error_kind(fs@[j])),
            forall|j: int|
                (0 <= j < fs@.len() && (#[trigger] fs@[j]) is ParseError) ==> exists|i: int|
                    0 <= i < entries@.len() && (#[trigger] entries@[i]).path@ == finding_path(
                        fs@[j],
                    ) && entries@[i].outcome is ParseFailed && string_listed(
                        entries@[i].outcome->ParseFailed_0@,
                        parse_error_message(fs@[j]),
                    ),
            forall|j1: int, j2: int|
                (0 <= j1 < j2 < fs@.len() && (#[trigger] fs@[j1]) is FileError
                    && (#[trigger] fs@[j2]) is FileError) ==> finding_path(fs@[j1])
                    != finding_path(fs@[j2]),
            forall|p: Seq<char>, role: Role, n: Seq<char>|
                #[trigger] lists_merge_conflict(fs@, p, role, n) ==> exists|kk: int|
                    0 <= kk < entries@.len() && (#[trigger] entries@[kk]).path@ == p
                        && entries@[kk].outcome is Parsed && has_name(
                        entries@[kk].outcome->Parsed_0.role_seq(role),
                        n,
                    ) && fragment_defines(entries@, kk, role, n),
    {
        let (cfg, fs) = read_configs(entries);
        self.config = cfg;
        self.failed = fs.len() > 0;
        self.phase = Phase::Expand;
        fs
    }

    /// Stage 3: macro expansion, run once over the merged generation;
    /// expansion errors are fatal for the whole run.
    pub fn expand_stage(&mut self, outcome: ExpandOutcome) -> (fs: Vec<Finding>)
        requires
            old(self).phase == Phase::Expand,
            old(self).stage_inv(),
            outcome matches ExpandOutcome::Expanded(c) ==> c.wf(),
            outcome matches ExpandOutcome::ExpandFailed(msgs) ==> msgs@.len() > 0,
        ensures
            final(self).stage_inv(),
            final(self).opts == old(self).opts,
            outcome matches ExpandOutcome::Expanded(c) ==> ({
                &&& fs@.len() == 0
                &&& final(self).failed == old(self).failed
                &&& final(self).config == c
            }),
            outcome matches ExpandOutcome::ExpandFailed(msgs) ==> ({
                &&& final(self).failed
                &&& fs@.len() == msgs@.len()
                &&& forall|m: int|
                    0 <= m < msgs@.len() ==> ({
                        &&& (#[trigger] fs@[m]) matches Finding::ExpandError { message }
                        &&& message@ == msgs@[m]@
                    })
            }),
            final(self).phase == (if final(self).failed {
                Phase::Done
            } else {
                Phase::Build
            }),
    {
        let fs = match outcome {
            ExpandOutcome::Expanded(c) => {
                self.config = c;
                Vec::new()
            },
            ExpandOutcome::ExpandFailed(msgs) => {
                self.failed = true;
                let mut fs: Vec<Finding> = Vec::new();
                let mut m: usize = 0;
                while m < msgs.len()
                    invariant
                        0 <= m <= msgs@.len(),
                        fs@.len() == m,
                        forall|mm: int|
                            0 <= mm < m ==> ({
                                &&& (#[trigger] fs@[mm]) matches Finding::ExpandError { message }
                                &&& message@ == msgs@[mm]@
                            }),
                    decreases msgs@.len() - m,
                {
                    fs.push(Finding::ExpandError { message: msgs[m].clone() });
                    m = m + 1;
                }
                fs
            },
        };
        self.phase = if self.failed {
            Phase::Done
        } else {
            Phase::Build
        };
        fs
    }

    /// Stage 4: the component build over `initial(config)`, performed by
    /// the external builder. Errors are fatal; warnings are advisory and
    /// escalate only under `deny_warnings`.
    pub fn build_stage(&mut self, outcome: BuildOutcome) -> (fs: Vec<Finding>)
        requires
            old(self).phase == Phase::Build,
            old(self).stage_inv(),
        ensures
            final(self).stage_inv(),
            final(self).opts == old(self).opts,
            final(self).config == old(self).config,
            outcome matches BuildOutcome::Built { warnings, healthchecks } ==> ({
                &&& final(self).failed == (old(self).opts.deny_warnings && warnings@.len() > 0)
                &&& final(self).health_names@ == healthchecks@
                &&& fs@.len() == warnings@.len()
                &&& forall|m: int|
                    0 <= m < warnings@.len() ==> ({
                        &&& (#[trigger] fs@[m]) matches Finding::ComponentWarning { message }
                        &&& message@ == warnings@[m]@
                    })
            }),
            outcome matches BuildOutcome::BuildFailed { errors } ==> ({
                &&& final(self).failed
                &&& fs@.len() == errors@.len()
                &&& forall|m: int|
                    0 <= m < errors@.len() ==> ({
                        &&& (#[trigger] fs@[m]) matches Finding::ComponentError { message }
                        &&& message@ == errors@[m]@
                    })
            }),
            final(self).phase == (if final(self).failed {
                Phase::Done
            } else {
                Phase::Check
            }),
    {
        let fs = match outcome {
            BuildOutcome::Built { warnings, healthchecks } => {
                self.health_names = healthchecks;
                if self.opts.deny_warnings && warnings.len() > 0 {
                    self.failed = true;
                }
                let mut fs: Vec<Finding> = Vec::new();
                let mut m: usize = 0;
                while m < warnings.len()
                    invariant
                        0 <= m <= warnings@.len(),
                        fs@.len() == m,
                        forall|mm: int|
                            0 <= mm < m ==> ({
                                &&& (#[trigger] fs@[mm]) matches Finding::ComponentWarning {
                                    message,
                                }
                                &&& message@ == warnings@[mm]@
                            }),
                    decreases warnings@.len() - m,
                {
                    fs.push(Finding::ComponentWarning { message: warnings[m].clone() });
                    m = m + 1;
                }
                fs
            },
            BuildOutcome::BuildFailed { errors } => {
                self.failed = true;
                let mut fs: Vec<Finding> = Vec::new();
                let mut m: usize = 0;
                while m < errors.len()
                    invariant
                        0 <= m <= errors@.len(),
                        fs@.len() == m,
                        forall|mm: int|
                            0 <= mm < m ==> ({
                                &&& (#[trigger] fs@[mm]) matches Finding::ComponentError {
                                    message,
                                }
                                &&& message@ == errors@[mm]@
                            }),
                    decreases errors@.len() - m,
                {
                    fs.push(Finding::ComponentError { message: errors[m].clone() });
                    m = m + 1;
                }
                fs
            },
        };
        self.phase = if self.failed {
            Phase::Done
        } else {
            Phase::Check
        };
        fs
    }

    /// Stage 5: the structural topology check, independent of construction;
    /// skipped exactly under `no_topology`.
    pub fn check_stage(&mut self, outcome: Option<CheckOutcome>) -> (fs: Vec<Finding>)
        requires
            old(self).phase == Phase::Check,
            old(self).stage_inv(),
            outcome is None <==> old(self).opts.no_topology,
        ensures
            final(self).stage_inv(),
            final(self).opts == old(self).opts,
            final(self).config == old(self).config,
            final(self).health_names == old(self).health_names,
            outcome is None ==> (fs@.len() == 0 && !final(self).failed),
            outcome matches Some(CheckOutcome::CheckDone { warnings }) ==> ({
                &&& final(self).failed == (old(self).opts.deny_warnings && warnings@.len() > 0)
                &&& fs@.len() == warnings@.len()
                &&& forall|m: int|
                    0 <= m < warnings@.len() ==> ({
                        &&& (#[trigger] fs@[m]) matches Finding::TopologyWarning { message }
                        &&& message@ == warnings@[m]@
                    })
            }),
            outcome matches Some(CheckOutcome::CheckFailed { errors }) ==> ({
                &&& final(self).failed
                &&& fs@.len() == errors@.len()
                &&& forall|m: int|
                    0 <= m < errors@.len() ==> ({
                        &&& (#[trigger] fs@[m]) matches Finding::TopologyError { message }
                        &&& message@ == errors@[m]@
                    })
            }),
            final(self).phase == (if final(self).failed {
                Phase::Done
            } else {
                Phase::Health
            }),
    {
        let fs = match outcome {
            None => Vec::new(),
            Some(CheckOutcome::CheckDone { warnings }) => {
                if self.opts.deny_warnings && warnings.len() > 0 {
                    self.failed = true;
                }
                let mut fs: Vec<Finding> = Vec::new();
                let mut m: usize = 0;
                while m < warnings.len()
                    invariant
                        0 <= m <= warnings@.len(),
                        fs@.len() == m,
                        forall|mm: int|
                            0 <= mm < m ==> ({
                                &&& (#[trigger] fs@[mm]) matches Finding::TopologyWarning {
                                    message,
                                }
                                &&& message@ == warnings@[mm]@
                            }),
                    decreases warnings@.len() - m,
                {
                    fs.push(Finding::TopologyWarning { message: warnings[m].clone() });
                    m = m + 1;
                }
                fs
            },
            Some(CheckOutcome::CheckFailed { errors }) => {
                self.failed = true;
                let mut fs: Vec<Finding> = Vec::new();
                let mut m: usize = 0;
                while m < errors.len()
                    invariant
                        0 <= m <= errors@.len(),
                        fs@.len() == m,
                        forall|mm: int|
                            0 <= mm < m ==> ({
                                &&& (#[trigger] fs@[mm]) matches Finding::TopologyError { message }
                                &&& message@ == errors@[mm]@
                            }),
                    decreases errors@.len() - m,
                {
                    fs.push(Finding::TopologyError { message: errors[m].clone() });
                    m = m + 1;
                }
                fs
            },
        };
        self.phase = if self.failed {
            Phase::Done
        } else {
            Phase::Health
        };
        fs
    }

    /// Stage 6: every sink's healthcheck, run serially by the caller in the
    /// order of `health_names`; skipped exactly under `no_healthchecks`.
    /// One outcome is reported per check, in order, whatever the outcomes
    /// of the checks before it — a faulted or cancelled check never
    /// suppresses the ones after it.
    pub fn health_stage(&mut self, results: Option<&Vec<HealthEntry>>) -> (fs: Vec<Finding>)
        requires
            old(self).phase == Phase::Health,
            old(self).stage_inv(),
            results is None <==> old(self).opts.no_healthchecks,
            results matches Some(rs) ==> ({
                &&& rs@.len() == old(self).health_names@.len()
                &&& forall|i: int|
                    0 <= i < rs@.len() ==> (#[trigger] rs@[i]).name@ == old(
                        self,
                    ).health_names@[i]@
            }),
        ensures
            final(self).stage_inv(),
            final(self).opts == old(self).opts,
            final(self).config == old(self).config,
            results is None ==> (fs@.len() == 0 && !final(self).failed),
            results matches Some(rs) ==> ({
                &&& fs@.len() == rs@.len()
                &&& forall|i: int|
                    0 <= i < rs@.len() ==> ({
                        &&& (#[trigger] fs@[i]) matches Finding::HealthResult { name, outcome }
                        &&& name@ == rs@[i].name@
                        &&& outcome == rs@[i].outcome
                    })
                &&& final(self).failed == (exists|i: int|
                    0 <= i < rs@.len() && (#[trigger] rs@[i]).outcome != HealthOutcome::Passed)
            }),
            final(self).phase == (if final(self).failed {
                Phase::Done
            } else {
                Phase::Trial
            }),
    {
        let fs = match results {
            None => Vec::new(),
            Some(rs) => {
                let mut fs: Vec<Finding> = Vec::new();
                let mut any_bad = false;
                let mut i: usize = 0;
                while i < rs.len()
                    invariant
                        0 <= i <= rs@.len(),
                        fs@.len() == i,
                        forall|j: int|
                            0 <= j < i ==> ({
                                &&& (#[trigger] fs@[j]) matches Finding::HealthResult {
                                    name,
                                    outcome,
                                }
                                &&& name@ == rs@[j].name@
                                &&& outcome == rs@[j].outcome
                            }),
                        any_bad == (exists|j: int|
                            0 <= j < i && (#[trigger] rs@[j]).outcome != HealthOutcome::Passed),
                    decreases rs@.len() - i,
                {
                    let ghost prev_bad = any_bad;
                    fs.push(
                        Finding::HealthResult { name: rs[i].name.clone(), outcome: rs[i].outcome },
                    );
                    if !(rs[i].outcome == HealthOutcome::Passed) {
                        any_bad = true;
                    }
                    proof {
                        if any_bad {
                            if rs@[i as int].outcome != HealthOutcome::Passed {
                                assert(0 <= (i as int) && (i as int) < (i as int) + 1 && rs@[i
                                    as int].outcome != HealthOutcome::Passed);
                            } else {
                                let j = choose|j: int|
                                    0 <= j < i as int && (#[trigger] rs@[j]).outcome
                                        != HealthOutcome::Passed;
                                assert(0 <= j && j < (i as int) + 1 && rs@[j].outcome
                                    != HealthOutcome::Passed);
                            }
                        } else {
                            if exists|j: int|
                                0 <= j < i as int + 1 && (#[trigger] rs@[j]).outcome
                                    != HealthOutcome::Passed {
                                let j = choose|j: int|
                                    0 <= j < i as int + 1 && (#[trigger] rs@[j]).outcome
                                        != HealthOutcome::Passed;
                                assert(false);
                            }
                        }
                    }
                    i = i + 1;
                }
                if any_bad {
                    self.failed = true;
                }
                fs
            },
        };
        self.phase = if self.failed {
            Phase::Done
        } else {
            Phase::Trial
        };
        fs
    }

    /// Stage 7: the trial start of the topology from the built pieces,
    /// performed by the external machinery; failure is fatal.
    pub fn trial_stage(&mut self, started: bool) -> (fs: Vec<Finding>)
        requires
            old(self).phase == Phase::Trial,
            old(self).stage_inv(),
        ensures
            final(self).stage_inv(),
            final(self).opts == old(self).opts,
            final(self).phase == Phase::Done,
            started ==> (fs@.len() == 0 && !final(self).failed),
            !started ==> (final(self).failed && fs@.len() == 1 && fs@[0] is StartFailed),
    {
        let mut fs: Vec<Finding> = Vec::new();
        if !started {
            self.failed = true;
            fs.push(Finding::StartFailed);
        }
        self.phase = Phase::Done;
        fs
    }

    /// Whether the run has failed so far.
    pub fn has_failed(&self) -> (r: bool)
        ensures
            r == self.failed,
    {
        self.failed
    }
}

} // verus!
