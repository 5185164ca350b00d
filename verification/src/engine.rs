//! The classification engine.
//!
//! The engine consumes a finite catalog of mod records plus a baseline set of
//! always-working names, and partitions all names into five buckets: working,
//! deprecated, broken (with the direct causes), typo (a required dependency
//! that exists nowhere), and a pending residual that is non-empty only when
//! the catalog contains a dependency cycle or a defect.
//!
//! The computation is an iterative fixpoint over a shrinking pending set:
//! each pass classifies every still-pending mod once, updates being visible
//! within the pass, and the run stops as soon as a whole pass moves nothing.

use vstd::prelude::*;
use vstd::string::*;

use crate::dependency::{Dep, DepPrefix, DepView};
use crate::text::{contains_str, distinct_seq, str_eq, str_views};

verus! {

/// One mod of the catalog, keyed by its unique name: the normalized fact
/// sheet the engine consumes for the mod's already-selected release.
#[derive(Debug, Clone)]
pub struct ModRecord {
    pub name: String,
    pub deprecated: bool,
    pub platform_version: String,
    pub dependencies: Vec<Dep>,
}

/// The mathematical content of a [`ModRecord`].
pub struct ModRecordView {
    pub name: Seq<char>,
    pub deprecated: bool,
    pub platform_version: Seq<char>,
    pub dependencies: Seq<DepView>,
}

impl View for ModRecord {
    type V = ModRecordView;

    open spec fn view(&self) -> ModRecordView {
        ModRecordView {
            name: self.name@,
            deprecated: self.deprecated,
            platform_version: self.platform_version@,
            dependencies: self.dependencies@.map_values(|d: Dep| d@),
        }
    }
}

/// The views of the records in `v`.
pub open spec fn record_views(v: Seq<ModRecord>) -> Seq<ModRecordView> {
    v.map_values(|r: ModRecord| r@)
}

/// A mod classified broken, with the names of the required dependencies that
/// are themselves deprecated or broken (direct causes only).
#[derive(Debug, Clone)]
pub struct BrokenEntry {
    pub name: String,
    pub causes: Vec<String>,
}

/// The mathematical content of a [`BrokenEntry`].
pub struct BrokenEntryView {
    pub name: Seq<char>,
    pub causes: Seq<Seq<char>>,
}

impl View for BrokenEntry {
    type V = BrokenEntryView;

    open spec fn view(&self) -> BrokenEntryView {
        BrokenEntryView { name: self.name@, causes: str_views(self.causes@) }
    }
}

/// A mod classified typo, with the first required dependency name (in
/// declaration order) that exists neither in the catalog nor the baseline.
#[derive(Debug, Clone)]
pub struct TypoEntry {
    pub name: String,
    pub offending: String,
}

/// The mathematical content of a [`TypoEntry`].
pub struct TypoEntryView {
    pub name: Seq<char>,
    pub offending: Seq<char>,
}

impl View for TypoEntry {
    type V = TypoEntryView;

    open spec fn view(&self) -> TypoEntryView {
        TypoEntryView { name: self.name@, offending: self.offending@ }
    }
}

/// The engine's output: a partition of the input names into five buckets.
/// A non-empty `pending` residual signals a dependency cycle (or a defect)
/// and is surfaced as such, never merged into another bucket.
#[derive(Debug, Clone)]
pub struct ClassificationResult {
    pub working: Vec<String>,
    pub deprecated: Vec<String>,
    pub broken: Vec<BrokenEntry>,
    pub typo: Vec<TypoEntry>,
    pub pending: Vec<String>,
}

/// The mathematical content of a [`ClassificationResult`]; also the state
/// the fixpoint computation steps through.
#[verifier::ext_equal]
pub struct ClassificationView {
    pub working: Seq<Seq<char>>,
    pub deprecated: Seq<Seq<char>>,
    pub broken: Seq<BrokenEntryView>,
    pub typo: Seq<TypoEntryView>,
    pub pending: Seq<Seq<char>>,
}

/// The views of the broken entries in `v`.
pub open spec fn broken_views(v: Seq<BrokenEntry>) -> Seq<BrokenEntryView> {
    v.map_values(|b: BrokenEntry| b@)
}

/// The views of the typo entries in `v`.
pub open spec fn typo_views(v: Seq<TypoEntry>) -> Seq<TypoEntryView> {
    v.map_values(|t: TypoEntry| t@)
}

impl View for ClassificationResult {
    type V = ClassificationView;

    open spec fn view(&self) -> ClassificationView {
        ClassificationView {
            working: str_views(self.working@),
            deprecated: str_views(self.deprecated@),
            broken: broken_views(self.broken@),
            typo: typo_views(self.typo@),
            pending: str_views(self.pending@),
        }
    }
}

/// The only fault the engine signals: a corrupt descriptor invalidates
/// reachability for everything downstream, so the call aborts with no
/// partial result. Every other failure is a regular output state.
#[derive(Debug, Clone, Copy, PartialEq, Eq, Structural)]
pub enum ClassifyError {
    InvalidInput,
}

/// A required dependency whose target name is empty: a malformed upstream
/// parse, rejected by the engine as [`ClassifyError::InvalidInput`].
pub open spec fn malformed_dep(d: DepView) -> bool {
    d.prefix == DepPrefix::Required && d.name.len() == 0
}

/// Whether some record of the catalog carries a malformed descriptor.
pub open spec fn has_malformed(records: Seq<ModRecordView>) -> bool {
    exists|i: int, j: int|
        0 <= i < records.len() && 0 <= j < records[i].dependencies.len() && malformed_dep(
            #[trigger] records[i].dependencies[j],
        )
}

/// No two records carry the same name.
pub open spec fn distinct_record_names(records: Seq<ModRecordView>) -> bool {
    forall|i: int, j: int| 0 <= i < j < records.len() ==> records[i].name != records[j].name
}

/// The first record named `n`, if any.
pub open spec fn lookup(records: Seq<ModRecordView>, n: Seq<char>) -> Option<ModRecordView>
    decreases records.len(),
{
    if records.len() == 0 {
        None
    } else if records[0].name == n {
        Some(records[0])
    } else {
        lookup(records.drop_first(), n)
    }
}

/// Whether `n` names a record of the catalog or a baseline mod: the set the
/// final buckets partition.
pub open spec fn known_name(records: Seq<ModRecordView>, baseline: Seq<Seq<char>>, n: Seq<char>) -> bool {
    lookup(records, n) is Some || baseline.contains(n)
}

/// Only required dependencies gate classification.
pub open spec fn is_required(d: DepView) -> bool {
    d.prefix == DepPrefix::Required
}

/// The names of the broken entries.
pub open spec fn broken_names(broken: Seq<BrokenEntryView>) -> Seq<Seq<char>> {
    broken.map_values(|b: BrokenEntryView| b.name)
}

/// The names of the typo entries.
pub open spec fn typo_names(typo: Seq<TypoEntryView>) -> Seq<Seq<char>> {
    typo.map_values(|t: TypoEntryView| t.name)
}

/// Whether every required dependency among the first `k` of `deps` names a
/// currently working mod.
pub open spec fn deps_satisfied(working: Seq<Seq<char>>, deps: Seq<DepView>, k: int) -> bool
    decreases k,
{
    if k <= 0 {
        true
    } else {
        deps_satisfied(working, deps, k - 1) && (is_required(deps[k - 1]) ==> working.contains(
            deps[k - 1].name,
        ))
    }
}

/// The name of the first required dependency at or after position `i` whose
/// target exists neither in the catalog nor the baseline, if any.
pub open spec fn unresolvable_from(
    records: Seq<ModRecordView>,
    baseline: Seq<Seq<char>>,
    deps: Seq<DepView>,
    i: int,
) -> Option<Seq<char>>
    decreases deps.len() - i,
{
    if i >= deps.len() {
        None
    } else if is_required(deps[i]) && !known_name(records, baseline, deps[i].name) {
        Some(deps[i].name)
    } else {
        unresolvable_from(records, baseline, deps, i + 1)
    }
}

/// The names, in declaration order, of the required dependencies among the
/// first `k` of `deps` that are currently deprecated or broken.
pub open spec fn cause_names(
    deprecated: Seq<Seq<char>>,
    broken: Seq<Seq<char>>,
    deps: Seq<DepView>,
    k: int,
) -> Seq<Seq<char>>
    decreases k,
{
    if k <= 0 {
        Seq::empty()
    } else {
        let pre = cause_names(deprecated, broken, deps, k - 1);
        let d = deps[k - 1];
        if is_required(d) && (deprecated.contains(d.name) || broken.contains(d.name)) {
            pre.push(d.name)
        } else {
            pre
        }
    }
}

/// Classifies the single pending name `n` against the current state: working
/// when every required dependency works, typo when one is unresolvable,
/// broken when one is deprecated or broken, pending otherwise.
pub open spec fn classify_one(
    records: Seq<ModRecordView>,
    baseline: Seq<Seq<char>>,
    s: ClassificationView,
    n: Seq<char>,
) -> ClassificationView {
    match lookup(records, n) {
        Option::None => ClassificationView { pending: s.pending.push(n), ..s },
        Option::Some(m) => {
            let deps = m.dependencies;
            if deps_satisfied(s.working, deps, deps.len() as int) {
                ClassificationView { working: s.working.push(n), ..s }
            } else {
                match unresolvable_from(records, baseline, deps, 0) {
                    Option::Some(t) => ClassificationView {
                        typo: s.typo.push(TypoEntryView { name: n, offending: t }),
                        ..s
                    },
                    Option::None => {
                        let cs = cause_names(
                            s.deprecated,
                            broken_names(s.broken),
                            deps,
                            deps.len() as int,
                        );
                        if cs.len() > 0 {
                            ClassificationView {
                                broken: s.broken.push(BrokenEntryView { name: n, causes: cs }),
                                ..s
                            }
                        } else {
                            ClassificationView { pending: s.pending.push(n), ..s }
                        }
                    },
                }
            }
        },
    }
}

/// Classifies the names of the pass snapshot `snap` from position `i` on,
/// each update visible to the names after it.
pub open spec fn run_snapshot(
    records: Seq<ModRecordView>,
    baseline: Seq<Seq<char>>,
    s: ClassificationView,
    snap: Seq<Seq<char>>,
    i: int,
) -> ClassificationView
    decreases snap.len() - i,
{
    if i >= snap.len() {
        s
    } else {
        run_snapshot(records, baseline, classify_one(records, baseline, s, snap[i]), snap, i + 1)
    }
}

/// One full pass: takes the pending set as its snapshot and classifies every
/// name of it once, rebuilding `pending` from the names that stay unresolved.
pub open spec fn one_pass(
    records: Seq<ModRecordView>,
    baseline: Seq<Seq<char>>,
    s: ClassificationView,
) -> ClassificationView {
    run_snapshot(
        records,
        baseline,
        ClassificationView { pending: Seq::empty(), ..s },
        s.pending,
        0,
    )
}

/// Runs passes until one moves nothing out of `pending`, or `fuel` runs out.
/// A pass that moves nothing leaves the state unchanged, so stopping there
/// is the fixpoint; cycles make such a pass happen with `pending` non-empty.
pub open spec fn run_passes(
    records: Seq<ModRecordView>,
    baseline: Seq<Seq<char>>,
    s: ClassificationView,
    fuel: nat,
) -> ClassificationView
    decreases fuel,
{
    if fuel == 0 {
        s
    } else {
        let s2 = one_pass(records, baseline, s);
        if s2.pending.len() == s.pending.len() {
            s2
        } else {
            run_passes(records, baseline, s2, (fuel - 1) as nat)
        }
    }
}

/// The names of the first `k` records that start out deprecated: flagged so
/// and not sheltered by the baseline.
pub open spec fn initial_deprecated(
    records: Seq<ModRecordView>,
    baseline: Seq<Seq<char>>,
    k: int,
) -> Seq<Seq<char>>
    decreases k,
{
    if k <= 0 {
        Seq::empty()
    } else {
        let pre = initial_deprecated(records, baseline, k - 1);
        let m = records[k - 1];
        if m.deprecated && !baseline.contains(m.name) {
            pre.push(m.name)
        } else {
            pre
        }
    }
}

/// The names of the first `k` records that start out pending: neither
/// deprecated nor in the baseline.
pub open spec fn initial_pending(
    records: Seq<ModRecordView>,
    baseline: Seq<Seq<char>>,
    k: int,
) -> Seq<Seq<char>>
    decreases k,
{
    if k <= 0 {
        Seq::empty()
    } else {
        let pre = initial_pending(records, baseline, k - 1);
        let m = records[k - 1];
        if !m.deprecated && !baseline.contains(m.name) {
            pre.push(m.name)
        } else {
            pre
        }
    }
}

/// The state the fixpoint starts from: the baseline works, flagged records
/// are deprecated, everything else is pending.
pub open spec fn initial_state(
    records: Seq<ModRecordView>,
    baseline: Seq<Seq<char>>,
) -> ClassificationView {
    ClassificationView {
        working: baseline,
        deprecated: initial_deprecated(records, baseline, records.len() as int),
        broken: Seq::empty(),
        typo: Seq::empty(),
        pending: initial_pending(records, baseline, records.len() as int),
    }
}

/// The classification of the whole catalog: the fixpoint of the pass
/// iteration. One more pass than there are records always suffices, because
/// every pass before the last moves at least one name out of `pending`.
pub open spec fn classification(
    records: Seq<ModRecordView>,
    baseline: Seq<Seq<char>>,
) -> ClassificationView {
    run_passes(records, baseline, initial_state(records, baseline), (records.len() + 1) as nat)
}

/// The pending names of a snapshot run grow by at most one per snapshot
/// element still to process.
proof fn lemma_run_snapshot_pending_len(
    records: Seq<ModRecordView>,
    baseline: Seq<Seq<char>>,
    s: ClassificationView,
    snap: Seq<Seq<char>>,
    i: int,
)
    ensures
        run_snapshot(records, baseline, s, snap, i).pending.len() <= s.pending.len() + if i
            < snap.len() {
            snap.len() - i
        } else {
            0
        },
    decreases snap.len() - i,
{
    if i < snap.len() {
        lemma_run_snapshot_pending_len(
            records,
            baseline,
            classify_one(records, baseline, s, snap[i]),
            snap,
            i + 1,
        );
    }
}

/// A pass never grows the pending set.
pub proof fn lemma_pass_shrinks(
    records: Seq<ModRecordView>,
    baseline: Seq<Seq<char>>,
    s: ClassificationView,
)
    ensures
        one_pass(records, baseline, s).pending.len() <= s.pending.len(),
{
    lemma_run_snapshot_pending_len(
        records,
        baseline,
        ClassificationView { pending: Seq::empty(), ..s },
        s.pending,
        0,
    );
}

/// Any fuel of at least one more than the pending count yields the same
/// fixpoint, since each recursive step strictly shrinks the pending set.
pub proof fn lemma_run_passes_fuel(
    records: Seq<ModRecordView>,
    baseline: Seq<Seq<char>>,
    s: ClassificationView,
    f1: nat,
    f2: nat,
)
    requires
        f1 >= s.pending.len() + 1,
        f2 >= s.pending.len() + 1,
    ensures
        run_passes(records, baseline, s, f1) == run_passes(records, baseline, s, f2),
    decreases f1 + f2,
{
    let s2 = one_pass(records, baseline, s);
    lemma_pass_shrinks(records, baseline, s);
    if s2.pending.len() != s.pending.len() {
        lemma_run_passes_fuel(records, baseline, s2, (f1 - 1) as nat, (f2 - 1) as nat);
    }
}

/// `lookup` returns the record at the first position whose name matches.
pub(crate) proof fn lemma_lookup_first_match(records: Seq<ModRecordView>, n: Seq<char>, i: int)
    requires
        0 <= i < records.len(),
        records[i].name == n,
        forall|j: int| 0 <= j < i ==> records[j].name != n,
    ensures
        lookup(records, n) == Some(records[i]),
    decreases i,
{
    if i > 0 {
        assert forall|j: int| 0 <= j < i - 1 implies records.drop_first()[j].name != n by {
            assert(records.drop_first()[j] == records[j + 1]);
        }
        lemma_lookup_first_match(records.drop_first(), n, i - 1);
    }
}

/// A name no record carries looks up to nothing.
pub(crate) proof fn lemma_lookup_none(records: Seq<ModRecordView>, n: Seq<char>)
    requires
        forall|j: int| 0 <= j < records.len() ==> records[j].name != n,
    ensures
        lookup(records, n) is None,
    decreases records.len(),
{
    if records.len() > 0 {
        lemma_lookup_none(records.drop_first(), n);
    }
}

/// With distinct names, looking up any record's name finds that record.
pub proof fn lemma_lookup_unique(records: Seq<ModRecordView>, i: int)
    requires
        distinct_record_names(records),
        0 <= i < records.len(),
    ensures
        lookup(records, records[i].name) == Some(records[i]),
{
    lemma_lookup_first_match(records, records[i].name, i);
}

/// Pushing a string pushes its view.
proof fn lemma_str_views_push(v: Seq<String>, x: String)
    ensures
        str_views(v.push(x)) == str_views(v).push(x@),
{
    assert(str_views(v.push(x)) =~= str_views(v).push(x@));
}

/// The names that a sequence of record indexes stands for.
spec fn idx_names(records: Seq<ModRecordView>, idx: Seq<usize>) -> Seq<Seq<char>> {
    idx.map_values(|i: usize| records[i as int].name)
}

proof fn lemma_idx_names_push(records: Seq<ModRecordView>, idx: Seq<usize>, i: usize)
    ensures
        idx_names(records, idx.push(i)) == idx_names(records, idx).push(records[i as int].name),
{
    assert(idx_names(records, idx.push(i)) =~= idx_names(records, idx).push(
        records[i as int].name,
    ));
}

proof fn lemma_broken_views_push(v: Seq<BrokenEntry>, x: BrokenEntry)
    ensures
        broken_views(v.push(x)) == broken_views(v).push(x@),
{
    assert(broken_views(v.push(x)) =~= broken_views(v).push(x@));
}

proof fn lemma_typo_views_push(v: Seq<TypoEntry>, x: TypoEntry)
    ensures
        typo_views(v.push(x)) == typo_views(v).push(x@),
{
    assert(typo_views(v.push(x)) =~= typo_views(v).push(x@));
}

/// The position of the record named `n`, if any.
pub(crate) fn find_record(records: &Vec<ModRecord>, n: &str) -> (r: Option<usize>)
    ensures
        r matches Some(i) ==> 0 <= i < records@.len() && lookup(record_views(records@), n@)
            == Some(record_views(records@)[i as int]),
        r is None ==> lookup(record_views(records@), n@) is None,
{
    let mut i: usize = 0;
    while i < records.len()
        invariant
            i <= records.len(),
            forall|j: int| 0 <= j < i ==> record_views(records@)[j].name != n@,
        decreases records.len() - i,
    {
        if str_eq(records[i].name.as_str(), n) {
            proof {
                lemma_lookup_first_match(record_views(records@), n@, i as int);
            }
            return Some(i);
        }
        i += 1;
    }
    proof {
        lemma_lookup_none(record_views(records@), n@);
    }
    None
}

/// Whether the catalog holds a record named `n`.
fn has_record(records: &Vec<ModRecord>, n: &str) -> (r: bool)
    ensures
        r == (lookup(record_views(records@), n@) is Some),
{
    let mut i: usize = 0;
    while i < records.len()
        invariant
            i <= records.len(),
            forall|j: int| 0 <= j < i ==> record_views(records@)[j].name != n@,
        decreases records.len() - i,
    {
        if str_eq(records[i].name.as_str(), n) {
            proof {
                lemma_lookup_first_match(record_views(records@), n@, i as int);
            }
            return true;
        }
        i += 1;
    }
    proof {
        lemma_lookup_none(record_views(records@), n@);
    }
    false
}

/// Whether some broken entry carries the name `n`.
fn contains_broken(v: &Vec<BrokenEntry>, n: &str) -> (r: bool)
    ensures
        r == broken_names(broken_views(v@)).contains(n@),
{
    let mut i: usize = 0;
    while i < v.len()
        invariant
            i <= v.len(),
            forall|j: int| 0 <= j < i ==> v@[j].name@ != n@,
        decreases v.len() - i,
    {
        if str_eq(v[i].name.as_str(), n) {
            proof {
                assert(broken_names(broken_views(v@))[i as int] == n@);
            }
            return true;
        }
        i += 1;
    }
    proof {
        assert forall|k: int| 0 <= k < broken_names(broken_views(v@)).len() implies broken_names(
            broken_views(v@),
        )[k] != n@ by {
            assert(v@[k].name@ != n@);
        }
    }
    false
}

/// The state the executable engine has built so far, as one view.
spec fn assembled(
    working: Seq<String>,
    deprecated: Seq<String>,
    broken: Seq<BrokenEntry>,
    typo: Seq<TypoEntry>,
    records: Seq<ModRecordView>,
    pending_idx: Seq<usize>,
) -> ClassificationView {
    ClassificationView {
        working: str_views(working),
        deprecated: str_views(deprecated),
        broken: broken_views(broken),
        typo: typo_views(typo),
        pending: idx_names(records, pending_idx),
    }
}

/// Classifies the whole catalog against the baseline.
///
/// Rejects a catalog holding a malformed descriptor (a required dependency
/// with an empty target name); otherwise returns exactly the fixpoint
/// [`classification`] of the input. The pass loop stops as soon as a pass
/// moves nothing, so a dependency cycle ends up in the pending residual
/// instead of hanging the engine.
///
/// Each pass takes its snapshot in the order the records are given, so the
/// result is a function of the input alone; loaders that want the canonical
/// enumeration, ascending by name, sort the records before calling.
#[verifier::loop_isolation(false)]
pub fn classify(records: &Vec<ModRecord>, baseline: &Vec<String>) -> (r: Result<
    ClassificationResult,
    ClassifyError,
>)
    requires
        distinct_record_names(record_views(records@)),
        distinct_seq(str_views(baseline@)),
    ensures
        r is Err <==> has_malformed(record_views(records@)),
        r is Err ==> r->Err_0 == ClassifyError::InvalidInput,
        r is Ok ==> r->Ok_0@ == classification(record_views(records@), str_views(baseline@)),
{
    let ghost recs = record_views(records@);
    let ghost bl = str_views(baseline@);

    // Reject malformed descriptors before touching the fixpoint.
    let mut i: usize = 0;
    while i < records.len()
        invariant
            i <= records.len(),
            forall|a: int, b: int|
                0 <= a < i && 0 <= b < recs[a].dependencies.len() ==> !malformed_dep(
                    #[trigger] recs[a].dependencies[b],
                ),
        decreases records.len() - i,
    {
        let deps = &records[i].dependencies;
        let mut j: usize = 0;
        while j < deps.len()
            invariant
                j <= deps.len(),
                forall|b: int|
                    0 <= b < j ==> !malformed_dep(#[trigger] recs[i as int].dependencies[b]),
            decreases deps.len() - j,
        {
            let d = &deps[j];
            proof {
                assert(recs[i as int].dependencies[j as int] == d@);
            }
            if d.prefix == DepPrefix::Required && d.name.as_str().is_empty() {
                return Err(ClassifyError::InvalidInput);
            }
            j += 1;
        }
        i += 1;
    }
    assert(!has_malformed(recs));

    // Initial partition: baseline works, flagged records are deprecated,
    // the rest is pending.
    let mut working: Vec<String> = Vec::new();
    let mut k: usize = 0;
    while k < baseline.len()
        invariant
            k <= baseline.len(),
            working@.len() == k,
            forall|j: int| 0 <= j < k ==> working@[j]@ == baseline@[j]@,
        decreases baseline.len() - k,
    {
        working.push(baseline[k].clone());
        k += 1;
    }
    proof {
        assert(str_views(working@) =~= bl);
    }

    let mut deprecated: Vec<String> = Vec::new();
    let mut pending_idx: Vec<usize> = Vec::new();
    let mut k2: usize = 0;
    while k2 < records.len()
        invariant
            k2 <= records.len(),
            str_views(deprecated@) == initial_deprecated(recs, bl, k2 as int),
            idx_names(recs, pending_idx@) == initial_pending(recs, bl, k2 as int),
            forall|t: int| 0 <= t < pending_idx@.len() ==> pending_idx@[t] < records@.len(),
            pending_idx@.len() <= k2,
        decreases records.len() - k2,
    {
        let rec = &records[k2];
        proof {
            assert(recs[k2 as int] == rec@);
        }
        if rec.deprecated {
            if !contains_str(baseline, rec.name.as_str()) {
                proof {
                    lemma_str_views_push(deprecated@, rec.name);
                }
                deprecated.push(rec.name.clone());
            }
        } else {
            if !contains_str(baseline, rec.name.as_str()) {
                proof {
                    lemma_idx_names_push(recs, pending_idx@, k2);
                }
                pending_idx.push(k2);
            }
        }
        k2 += 1;
    }

    let mut broken: Vec<BrokenEntry> = Vec::new();
    let mut typo: Vec<TypoEntry> = Vec::new();

    let ghost fin = classification(recs, bl);
    proof {
        assert(broken_views(broken@) =~= Seq::<BrokenEntryView>::empty());
        assert(typo_views(typo@) =~= Seq::<TypoEntryView>::empty());
        assert(assembled(working@, deprecated@, broken@, typo@, recs, pending_idx@)
            == initial_state(recs, bl));
        lemma_run_passes_fuel(
            recs,
            bl,
            initial_state(recs, bl),
            (pending_idx@.len() + 1) as nat,
            (recs.len() + 1) as nat,
        );
    }

    // The fixpoint: pass after pass until one moves nothing.
    let mut done = false;
    while !done
        invariant
            forall|t: int| 0 <= t < pending_idx@.len() ==> pending_idx@[t] < records@.len(),
            !done ==> run_passes(
                recs,
                bl,
                assembled(working@, deprecated@, broken@, typo@, recs, pending_idx@),
                (pending_idx@.len() + 1) as nat,
            ) == fin,
            done ==> assembled(working@, deprecated@, broken@, typo@, recs, pending_idx@) == fin,
        decreases pending_idx@.len() as int + if done {
            0int
        } else {
            1int
        },
    {
        let ghost cur = assembled(working@, deprecated@, broken@, typo@, recs, pending_idx@);
        let mut snap: Vec<usize> = Vec::new();
        core::mem::swap(&mut snap, &mut pending_idx);
        let ghost snap_names = idx_names(recs, snap@);
        proof {
            assert(idx_names(recs, pending_idx@) =~= Seq::<Seq<char>>::empty());
            assert(assembled(working@, deprecated@, broken@, typo@, recs, pending_idx@)
                =~= (ClassificationView { pending: Seq::empty(), ..cur }));
        }
        let ghost pass_result = one_pass(recs, bl, cur);

        let mut i: usize = 0;
        while i < snap.len()
            invariant
                i <= snap.len(),
                pending_idx@.len() <= i,
                forall|t: int| 0 <= t < snap@.len() ==> snap@[t] < records@.len(),
                forall|t: int| 0 <= t < pending_idx@.len() ==> pending_idx@[t] < records@.len(),
                run_snapshot(
                    recs,
                    bl,
                    assembled(working@, deprecated@, broken@, typo@, recs, pending_idx@),
                    snap_names,
                    i as int,
                ) == pass_result,
            decreases snap.len() - i,
        {
            let ghost before = assembled(working@, deprecated@, broken@, typo@, recs, pending_idx@);
            let idx = snap[i];
            let rec = &records[idx];
            let ghost m = recs[idx as int];
            let ghost n = m.name;
            proof {
                assert(m == rec@);
                lemma_lookup_unique(recs, idx as int);
                assert(snap_names[i as int] == n);
            }
            let deps = &rec.dependencies;
            let ghost dv = m.dependencies;

            // Does every required dependency already work?
            let mut all_ok = true;
            let mut j: usize = 0;
            while j < deps.len()
                invariant
                    j <= deps.len(),
                    all_ok == deps_satisfied(str_views(working@), dv, j as int),
                decreases deps.len() - j,
            {
                let d = &deps[j];
                proof {
                    assert(dv[j as int] == d@);
                }
                if d.prefix == DepPrefix::Required && !contains_str(&working, d.name.as_str()) {
                    all_ok = false;
                }
                j += 1;
            }

            if all_ok {
                proof {
                    lemma_str_views_push(working@, rec.name);
                }
                working.push(rec.name.clone());
                proof {
                    assert(assembled(working@, deprecated@, broken@, typo@, recs, pending_idx@)
                        =~= classify_one(recs, bl, before, n));
                }
            } else {
                // First required dependency that exists nowhere, if any.
                let mut miss: Option<usize> = None;
                let mut j2: usize = 0;
                while j2 < deps.len()
                    invariant
                        j2 <= deps.len(),
                        miss is None ==> unresolvable_from(recs, bl, dv, 0) == unresolvable_from(
                            recs,
                            bl,
                            dv,
                            j2 as int,
                        ),
                        miss matches Some(k) ==> 0 <= k < deps@.len() && unresolvable_from(
                            recs,
                            bl,
                            dv,
                            0,
                        ) == Some(dv[k as int].name),
                    decreases deps.len() - j2,
                {
                    if miss.is_none() {
                        let d = &deps[j2];
                        proof {
                            assert(dv[j2 as int] == d@);
                        }
                        if d.prefix == DepPrefix::Required && !has_record(records, d.name.as_str())
                            && !contains_str(baseline, d.name.as_str()) {
                            miss = Some(j2);
                        }
                    }
                    j2 += 1;
                }

                match miss {
                    Some(k3) => {
                        let entry = TypoEntry {
                            name: rec.name.clone(),
                            offending: deps[k3].name.clone(),
                        };
                        proof {
                            lemma_typo_views_push(typo@, entry);
                        }
                        typo.push(entry);
                        proof {
                            assert(assembled(
                                working@,
                                deprecated@,
                                broken@,
                                typo@,
                                recs,
                                pending_idx@,
                            ) =~= classify_one(recs, bl, before, n));
                        }
                    },
                    None => {
                        // Required dependencies that are deprecated or broken.
                        let mut causes: Vec<String> = Vec::new();
                        let mut j3: usize = 0;
                        while j3 < deps.len()
                            invariant
                                j3 <= deps.len(),
                                str_views(causes@) == cause_names(
                                    str_views(deprecated@),
                                    broken_names(broken_views(broken@)),
                                    dv,
                                    j3 as int,
                                ),
                            decreases deps.len() - j3,
                        {
                            let d = &deps[j3];
                            proof {
                                assert(dv[j3 as int] == d@);
                            }
                            if d.prefix == DepPrefix::Required {
                                let dep_hit = contains_str(&deprecated, d.name.as_str());
                                let brk_hit = contains_broken(&broken, d.name.as_str());
                                if dep_hit || brk_hit {
                                    proof {
                                        lemma_str_views_push(causes@, d.name);
                                    }
                                    causes.push(d.name.clone());
                                }
                            }
                            j3 += 1;
                        }

                        if causes.len() > 0 {
                            let entry = BrokenEntry { name: rec.name.clone(), causes };
                            proof {
                                lemma_broken_views_push(broken@, entry);
                            }
                            broken.push(entry);
                            proof {
                                assert(assembled(
                                    working@,
                                    deprecated@,
                                    broken@,
                                    typo@,
                                    recs,
                                    pending_idx@,
                                ) =~= classify_one(recs, bl, before, n));
                            }
                        } else {
                            proof {
                                lemma_idx_names_push(recs, pending_idx@, idx);
                            }
                            pending_idx.push(idx);
                            proof {
                                assert(assembled(
                                    working@,
                                    deprecated@,
                                    broken@,
                                    typo@,
                                    recs,
                                    pending_idx@,
                                ) =~= classify_one(recs, bl, before, n));
                            }
                        }
                    },
                }
            }
            i += 1;
        }

        if pending_idx.len() == snap.len() {
            proof {
                let s2 = assembled(working@, deprecated@, broken@, typo@, recs, pending_idx@);
                assert(s2 == pass_result);
                assert(run_passes(recs, bl, cur, (cur.pending.len() + 1) as nat) == s2);
            }
            done = true;
        } else {
            proof {
                let s2 = assembled(working@, deprecated@, broken@, typo@, recs, pending_idx@);
                assert(s2 == pass_result);
                assert(run_passes(recs, bl, cur, (cur.pending.len() + 1) as nat) == run_passes(
                    recs,
                    bl,
                    s2,
                    cur.pending.len() as nat,
                ));
                lemma_run_passes_fuel(
                    recs,
                    bl,
                    s2,
                    cur.pending.len() as nat,
                    (s2.pending.len() + 1) as nat,
                );
            }
        }
    }

    // Hand the residual out by name.
    let mut pending_names: Vec<String> = Vec::new();
    let mut p: usize = 0;
    while p < pending_idx.len()
        invariant
            p <= pending_idx.len(),
            pending_names@.len() == p,
            forall|t: int|
                0 <= t < p ==> pending_names@[t]@ == recs[pending_idx@[t] as int].name,
        decreases pending_idx.len() - p,
    {
        pending_names.push(records[pending_idx[p]].name.clone());
        p += 1;
    }
    proof {
        assert(str_views(pending_names@) =~= idx_names(recs, pending_idx@));
    }

    let result = ClassificationResult { working, deprecated, broken, typo, pending: pending_names };
    proof {
        assert(result@ =~= fin);
    }
    Ok(result)
}

} // verus!
