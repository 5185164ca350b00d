//! Properties the classification engine guarantees, stated over the spec
//! model of [`crate::engine`] and proved once for every input: the buckets
//! partition the known names, terminal buckets only ever grow, baseline
//! names always work, an unresolvable required dependency is terminally a
//! typo, and a two-mod dependency cycle ends up in the pending residual.

use vstd::prelude::*;

use crate::engine::{
    broken_names, classification, classify_one, initial_deprecated, initial_pending,
    initial_state, known_name, lookup, one_pass, run_passes, run_snapshot, typo_names,
    unresolvable_from, deps_satisfied, distinct_record_names, is_required, BrokenEntryView,
    ClassificationView, ModRecordView, TypoEntryView,
};
use crate::text::distinct_seq;

verus! {

/// No name is in both `a` and `b`.
pub open spec fn disjoint(a: Seq<Seq<char>>, b: Seq<Seq<char>>) -> bool {
    forall|n: Seq<char>| !(#[trigger] a.contains(n) && #[trigger] b.contains(n))
}

/// Whether `n` sits in some bucket of `s`.
pub open spec fn in_some_bucket(s: ClassificationView, n: Seq<char>) -> bool {
    s.working.contains(n) || s.deprecated.contains(n) || broken_names(s.broken).contains(n)
        || typo_names(s.typo).contains(n) || s.pending.contains(n)
}

/// Each bucket of `s` is duplicate-free and the five buckets are pairwise
/// disjoint.
pub open spec fn buckets_separated(s: ClassificationView) -> bool {
    &&& distinct_seq(s.working)
    &&& distinct_seq(s.deprecated)
    &&& distinct_seq(broken_names(s.broken))
    &&& distinct_seq(typo_names(s.typo))
    &&& distinct_seq(s.pending)
    &&& disjoint(s.working, s.deprecated)
    &&& disjoint(s.working, broken_names(s.broken))
    &&& disjoint(s.working, typo_names(s.typo))
    &&& disjoint(s.working, s.pending)
    &&& disjoint(s.deprecated, broken_names(s.broken))
    &&& disjoint(s.deprecated, typo_names(s.typo))
    &&& disjoint(s.deprecated, s.pending)
    &&& disjoint(broken_names(s.broken), typo_names(s.typo))
    &&& disjoint(broken_names(s.broken), s.pending)
    &&& disjoint(typo_names(s.typo), s.pending)
}

/// The invariant the engine's state keeps between passes: separated buckets
/// that together hold exactly the known names, with the baseline working.
spec fn engine_inv(
    records: Seq<ModRecordView>,
    baseline: Seq<Seq<char>>,
    s: ClassificationView,
) -> bool {
    &&& buckets_separated(s)
    &&& (forall|n: Seq<char>|
        #[trigger] in_some_bucket(s, n) <==> known_name(records, baseline, n))
    &&& (forall|n: Seq<char>| #[trigger] baseline.contains(n) ==> s.working.contains(n))
}

/// The invariant inside a pass: `s` is the state built so far, `rem` the
/// names of the snapshot still to process.
spec fn pass_inv(
    records: Seq<ModRecordView>,
    baseline: Seq<Seq<char>>,
    s: ClassificationView,
    rem: Seq<Seq<char>>,
) -> bool {
    &&& buckets_separated(s)
    &&& distinct_seq(rem)
    &&& (forall|n: Seq<char>| #[trigger] rem.contains(n) ==> !in_some_bucket(s, n))
    &&& (forall|n: Seq<char>|
        #[trigger] in_some_bucket(s, n) || rem.contains(n) <==> known_name(records, baseline, n))
    &&& (forall|n: Seq<char>| #[trigger] baseline.contains(n) ==> s.working.contains(n))
}

/// A pushed sequence holds exactly the old names and the pushed one.
pub broadcast proof fn lemma_push_contains(s: Seq<Seq<char>>, v: Seq<char>, x: Seq<char>)
    ensures
        #[trigger] s.push(v).contains(x) <==> (s.contains(x) || x == v),
{
    if s.contains(x) {
        let i = choose|i: int| 0 <= i < s.len() && s[i] == x;
        assert(s.push(v)[i] == x);
    }
    if x == v {
        assert(s.push(v)[s.len() as int] == x);
    }
    if s.push(v).contains(x) {
        let i = choose|i: int| 0 <= i < s.push(v).len() && s.push(v)[i] == x;
        if i < s.len() {
            assert(s[i] == x);
        }
    }
}

/// Pushing a fresh name keeps a sequence duplicate-free.
proof fn lemma_push_distinct(s: Seq<Seq<char>>, v: Seq<char>)
    requires
        distinct_seq(s),
        !s.contains(v),
    ensures
        distinct_seq(s.push(v)),
{
    assert forall|i: int, j: int| 0 <= i < j < s.push(v).len() implies s.push(v)[i] != s.push(v)[j]
        by {
        if j < s.len() {
            assert(s[i] != s[j]);
        } else {
            if s[i] == v {
                assert(s.contains(v));
            }
        }
    }
}

/// How membership relates a non-empty sequence to its tail.
proof fn lemma_drop_first_facts(rem: Seq<Seq<char>>)
    requires
        rem.len() > 0,
    ensures
        rem.contains(rem[0]),
        forall|x: Seq<char>| #[trigger] rem.drop_first().contains(x) ==> rem.contains(x),
        forall|x: Seq<char>|
            #[trigger] rem.contains(x) && x != rem[0] ==> rem.drop_first().contains(x),
        distinct_seq(rem) ==> distinct_seq(rem.drop_first()) && !rem.drop_first().contains(rem[0]),
{
    assert forall|x: Seq<char>| #[trigger] rem.drop_first().contains(x) implies rem.contains(x) by {
        let i = choose|i: int| 0 <= i < rem.drop_first().len() && rem.drop_first()[i] == x;
        assert(rem[i + 1] == x);
    }
    assert forall|x: Seq<char>| #[trigger] rem.contains(x) && x != rem[0] implies rem
        .drop_first()
        .contains(x) by {
        let i = choose|i: int| 0 <= i < rem.len() && rem[i] == x;
        assert(i > 0);
        assert(rem.drop_first()[i - 1] == x);
    }
    if distinct_seq(rem) {
        assert forall|i: int, j: int|
            0 <= i < j < rem.drop_first().len() implies rem.drop_first()[i] != rem.drop_first()[j]
            by {
            assert(rem[i + 1] != rem[j + 1]);
        }
        if rem.drop_first().contains(rem[0]) {
            let i = choose|i: int|
                0 <= i < rem.drop_first().len() && rem.drop_first()[i] == rem[0];
            assert(rem[i + 1] == rem[0]);
        }
    }
}

/// Pushing a broken entry pushes its name.
proof fn lemma_broken_names_push(b: Seq<BrokenEntryView>, e: BrokenEntryView)
    ensures
        broken_names(b.push(e)) == broken_names(b).push(e.name),
{
    assert(broken_names(b.push(e)) =~= broken_names(b).push(e.name));
}

/// Pushing a typo entry pushes its name.
proof fn lemma_typo_names_push(t: Seq<TypoEntryView>, e: TypoEntryView)
    ensures
        typo_names(t.push(e)) == typo_names(t).push(e.name),
{
    assert(typo_names(t.push(e)) =~= typo_names(t).push(e.name));
}

/// Classifying one pending name preserves the pass invariant: the name moves
/// from the snapshot remainder into exactly one bucket.
proof fn lemma_classify_one_inv(
    records: Seq<ModRecordView>,
    baseline: Seq<Seq<char>>,
    s: ClassificationView,
    rem: Seq<Seq<char>>,
)
    requires
        pass_inv(records, baseline, s, rem),
        rem.len() > 0,
    ensures
        pass_inv(records, baseline, classify_one(records, baseline, s, rem[0]), rem.drop_first()),
{
    broadcast use lemma_push_contains;

    let n = rem[0];
    let s1 = classify_one(records, baseline, s, n);
    lemma_drop_first_facts(rem);
    assert(rem.contains(n));
    assert(!in_some_bucket(s, n));
    assert(known_name(records, baseline, n));
    if lookup(records, n) is None {
        // Then n is a baseline name, which already sits in working:
        // impossible for a name still in the snapshot remainder.
        assert(baseline.contains(n));
        assert(s.working.contains(n));
        assert(in_some_bucket(s, n));
        assert(false);
    }
    let m = lookup(records, n)->Some_0;
    let deps = m.dependencies;
    if deps_satisfied(s.working, deps, deps.len() as int) {
        assert(s1.working == s.working.push(n));
        lemma_push_distinct(s.working, n);
    } else if unresolvable_from(records, baseline, deps, 0) is Some {
        let t = unresolvable_from(records, baseline, deps, 0)->Some_0;
        lemma_typo_names_push(s.typo, TypoEntryView { name: n, offending: t });
        assert(typo_names(s1.typo) == typo_names(s.typo).push(n));
        lemma_push_distinct(typo_names(s.typo), n);
    } else {
        let cs = crate::engine::cause_names(
            s.deprecated,
            broken_names(s.broken),
            deps,
            deps.len() as int,
        );
        if cs.len() > 0 {
            lemma_broken_names_push(s.broken, BrokenEntryView { name: n, causes: cs });
            assert(broken_names(s1.broken) == broken_names(s.broken).push(n));
            lemma_push_distinct(broken_names(s.broken), n);
        } else {
            assert(s1.pending == s.pending.push(n));
            lemma_push_distinct(s.pending, n);
        }
    }
    assert forall|x: Seq<char>| #[trigger] rem.drop_first().contains(x) implies !in_some_bucket(
        s1,
        x,
    ) by {
        assert(rem.contains(x));
        assert(x != n);
        assert(!in_some_bucket(s, x));
    }
    assert forall|x: Seq<char>|
        #[trigger] in_some_bucket(s1, x) || rem.drop_first().contains(x) implies known_name(
        records,
        baseline,
        x,
    ) by {
        if in_some_bucket(s1, x) {
            if !in_some_bucket(s, x) {
                assert(x == n);
            }
        } else {
            assert(rem.contains(x));
        }
    }
    assert forall|x: Seq<char>| known_name(records, baseline, x) implies in_some_bucket(s1, x)
        || rem.drop_first().contains(x) by {
        assert(in_some_bucket(s, x) || rem.contains(x));
        if in_some_bucket(s, x) {
            assert(in_some_bucket(s1, x));
        } else if rem.contains(x) {
            if x == n {
                assert(in_some_bucket(s1, x));
            } else {
                assert(rem.drop_first().contains(x));
            }
        }
    }
}

/// Processing the rest of a snapshot preserves the invariant and empties
/// the remainder.
proof fn lemma_run_snapshot_inv(
    records: Seq<ModRecordView>,
    baseline: Seq<Seq<char>>,
    s: ClassificationView,
    snap: Seq<Seq<char>>,
    i: int,
)
    requires
        0 <= i <= snap.len(),
        pass_inv(records, baseline, s, snap.skip(i)),
    ensures
        pass_inv(
            records,
            baseline,
            run_snapshot(records, baseline, s, snap, i),
            Seq::<Seq<char>>::empty(),
        ),
    decreases snap.len() - i,
{
    if i >= snap.len() {
        assert(snap.skip(i) =~= Seq::<Seq<char>>::empty());
    } else {
        let rem = snap.skip(i);
        assert(rem[0] == snap[i]);
        lemma_classify_one_inv(records, baseline, s, rem);
        assert(rem.drop_first() =~= snap.skip(i + 1));
        lemma_run_snapshot_inv(
            records,
            baseline,
            classify_one(records, baseline, s, snap[i]),
            snap,
            i + 1,
        );
    }
}

/// Starting a pass, with `pending` emptied into the snapshot, establishes
/// the pass invariant.
proof fn lemma_pass_inv_start(
    records: Seq<ModRecordView>,
    baseline: Seq<Seq<char>>,
    s: ClassificationView,
)
    requires
        engine_inv(records, baseline, s),
    ensures
        pass_inv(
            records,
            baseline,
            ClassificationView { pending: Seq::empty(), ..s },
            s.pending,
        ),
{
    let s0 = ClassificationView { pending: Seq::empty(), ..s };
    assert forall|n: Seq<char>| #[trigger] s.pending.contains(n) implies !in_some_bucket(s0, n) by {
        assert(in_some_bucket(s, n));
    }
    assert forall|n: Seq<char>|
        #[trigger] in_some_bucket(s0, n) || s.pending.contains(n) implies known_name(
        records,
        baseline,
        n,
    ) by {
        if in_some_bucket(s0, n) {
            assert(in_some_bucket(s, n));
        } else {
            assert(in_some_bucket(s, n));
        }
    }
    assert forall|n: Seq<char>| known_name(records, baseline, n) implies in_some_bucket(s0, n)
        || s.pending.contains(n) by {
        assert(in_some_bucket(s, n));
    }
}

/// One pass preserves the engine invariant.
proof fn lemma_one_pass_inv(
    records: Seq<ModRecordView>,
    baseline: Seq<Seq<char>>,
    s: ClassificationView,
)
    requires
        engine_inv(records, baseline, s),
    ensures
        engine_inv(records, baseline, one_pass(records, baseline, s)),
{
    let s0 = ClassificationView { pending: Seq::empty(), ..s };
    lemma_pass_inv_start(records, baseline, s);
    assert(s.pending.skip(0) =~= s.pending);
    lemma_run_snapshot_inv(records, baseline, s0, s.pending, 0);
    let r = one_pass(records, baseline, s);
    assert forall|n: Seq<char>| #[trigger] in_some_bucket(r, n) implies known_name(
        records,
        baseline,
        n,
    ) by {
        assert(in_some_bucket(r, n) || Seq::<Seq<char>>::empty().contains(n));
    }
}

/// Any number of passes preserves the engine invariant.
proof fn lemma_run_passes_inv(
    records: Seq<ModRecordView>,
    baseline: Seq<Seq<char>>,
    s: ClassificationView,
    fuel: nat,
)
    requires
        engine_inv(records, baseline, s),
    ensures
        engine_inv(records, baseline, run_passes(records, baseline, s, fuel)),
    decreases fuel,
{
    if fuel > 0 {
        lemma_one_pass_inv(records, baseline, s);
        let s2 = one_pass(records, baseline, s);
        if s2.pending.len() != s.pending.len() {
            lemma_run_passes_inv(records, baseline, s2, (fuel - 1) as nat);
        }
    }
}

/// A name looks up to something exactly when some record carries it.
proof fn lemma_lookup_iff_exists(records: Seq<ModRecordView>, n: Seq<char>)
    ensures
        (lookup(records, n) is Some) <==> exists|i: int|
            0 <= i < records.len() && (#[trigger] records[i]).name == n,
    decreases records.len(),
{
    if records.len() == 0 {
    } else if records[0].name == n {
        assert(records[0].name == n);
    } else {
        lemma_lookup_iff_exists(records.drop_first(), n);
        if lookup(records, n) is Some {
            let i = choose|i: int|
                0 <= i < records.drop_first().len() && (#[trigger] records.drop_first()[i]).name
                    == n;
            assert(records[i + 1].name == n);
        }
        if exists|i: int| 0 <= i < records.len() && (#[trigger] records[i]).name == n {
            let i = choose|i: int| 0 <= i < records.len() && (#[trigger] records[i]).name == n;
            assert(i != 0);
            assert(records.drop_first()[i - 1].name == n);
        }
    }
}

/// What the initially deprecated names are: the names of the records that
/// are flagged and not sheltered by the baseline.
proof fn lemma_initial_deprecated_props(
    records: Seq<ModRecordView>,
    baseline: Seq<Seq<char>>,
    k: int,
)
    requires
        distinct_record_names(records),
        0 <= k <= records.len(),
    ensures
        forall|x: Seq<char>|
            #[trigger] initial_deprecated(records, baseline, k).contains(x) <==> exists|i: int|
                0 <= i < k && (#[trigger] records[i]).name == x && records[i].deprecated
                    && !baseline.contains(x),
        distinct_seq(initial_deprecated(records, baseline, k)),
    decreases k,
{
    broadcast use lemma_push_contains;

    if k > 0 {
        lemma_initial_deprecated_props(records, baseline, k - 1);
        let pre = initial_deprecated(records, baseline, k - 1);
        let m = records[k - 1];
        if m.deprecated && !baseline.contains(m.name) {
            assert forall|x: Seq<char>|
                #[trigger] initial_deprecated(records, baseline, k).contains(x) implies exists|
                i: int,
            |
                0 <= i < k && (#[trigger] records[i]).name == x && records[i].deprecated
                    && !baseline.contains(x) by {
                if pre.contains(x) {
                } else {
                    assert(records[k - 1].name == x);
                }
            }
            assert forall|x: Seq<char>|
                exists|i: int|
                    0 <= i < k && (#[trigger] records[i]).name == x && records[i].deprecated
                        && !baseline.contains(x) implies initial_deprecated(
                records,
                baseline,
                k,
            ).contains(x) by {
                let i = choose|i: int|
                    0 <= i < k && (#[trigger] records[i]).name == x && records[i].deprecated
                        && !baseline.contains(x);
                if i < k - 1 {
                    assert(pre.contains(x));
                }
            }
            if pre.contains(m.name) {
                let i = choose|i: int|
                    0 <= i < k - 1 && (#[trigger] records[i]).name == m.name
                        && records[i].deprecated && !baseline.contains(m.name);
                assert(records[i].name == records[k - 1].name);
                assert(false);
            }
            lemma_push_distinct(pre, m.name);
        } else {
            assert forall|x: Seq<char>|
                exists|i: int|
                    0 <= i < k && (#[trigger] records[i]).name == x && records[i].deprecated
                        && !baseline.contains(x) implies initial_deprecated(
                records,
                baseline,
                k,
            ).contains(x) by {
                let i = choose|i: int|
                    0 <= i < k && (#[trigger] records[i]).name == x && records[i].deprecated
                        && !baseline.contains(x);
                assert(i < k - 1);
                assert(pre.contains(x));
            }
        }
    }
}

/// What the initially pending names are: the names of the records that are
/// neither flagged nor in the baseline.
proof fn lemma_initial_pending_props(
    records: Seq<ModRecordView>,
    baseline: Seq<Seq<char>>,
    k: int,
)
    requires
        distinct_record_names(records),
        0 <= k <= records.len(),
    ensures
        forall|x: Seq<char>|
            #[trigger] initial_pending(records, baseline, k).contains(x) <==> exists|i: int|
                0 <= i < k && (#[trigger] records[i]).name == x && !records[i].deprecated
                    && !baseline.contains(x),
        distinct_seq(initial_pending(records, baseline, k)),
    decreases k,
{
    broadcast use lemma_push_contains;

    if k > 0 {
        lemma_initial_pending_props(records, baseline, k - 1);
        let pre = initial_pending(records, baseline, k - 1);
        let m = records[k - 1];
        if !m.deprecated && !baseline.contains(m.name) {
            assert forall|x: Seq<char>|
                #[trigger] initial_pending(records, baseline, k).contains(x) implies exists|
                i: int,
            |
                0 <= i < k && (#[trigger] records[i]).name == x && !records[i].deprecated
                    && !baseline.contains(x) by {
                if pre.contains(x) {
                } else {
                    assert(records[k - 1].name == x);
                }
            }
            assert forall|x: Seq<char>|
                exists|i: int|
                    0 <= i < k && (#[trigger] records[i]).name == x && !records[i].deprecated
                        && !baseline.contains(x) implies initial_pending(
                records,
                baseline,
                k,
            ).contains(x) by {
                let i = choose|i: int|
                    0 <= i < k && (#[trigger] records[i]).name == x && !records[i].deprecated
                        && !baseline.contains(x);
                if i < k - 1 {
                    assert(pre.contains(x));
                }
            }
            if pre.contains(m.name) {
                let i = choose|i: int|
                    0 <= i < k - 1 && (#[trigger] records[i]).name == m.name
                        && !records[i].deprecated && !baseline.contains(m.name);
                assert(records[i].name == records[k - 1].name);
                assert(false);
            }
            lemma_push_distinct(pre, m.name);
        } else {
            assert forall|x: Seq<char>|
                exists|i: int|
                    0 <= i < k && (#[trigger] records[i]).name == x && !records[i].deprecated
                        && !baseline.contains(x) implies initial_pending(
                records,
                baseline,
                k,
            ).contains(x) by {
                let i = choose|i: int|
                    0 <= i < k && (#[trigger] records[i]).name == x && !records[i].deprecated
                        && !baseline.contains(x);
                assert(i < k - 1);
                assert(pre.contains(x));
            }
        }
    }
}

/// The initial state satisfies the engine invariant.
proof fn lemma_initial_inv(records: Seq<ModRecordView>, baseline: Seq<Seq<char>>)
    requires
        distinct_record_names(records),
        distinct_seq(baseline),
    ensures
        engine_inv(records, baseline, initial_state(records, baseline)),
{
    let k = records.len() as int;
    lemma_initial_deprecated_props(records, baseline, k);
    lemma_initial_pending_props(records, baseline, k);
    let s = initial_state(records, baseline);
    assert(broken_names(s.broken) =~= Seq::<Seq<char>>::empty());
    assert(typo_names(s.typo) =~= Seq::<Seq<char>>::empty());
    assert forall|n: Seq<char>| #[trigger] in_some_bucket(s, n) implies known_name(
        records,
        baseline,
        n,
    ) by {
        lemma_lookup_iff_exists(records, n);
        if s.deprecated.contains(n) {
            let i = choose|i: int|
                0 <= i < k && (#[trigger] records[i]).name == n && records[i].deprecated
                    && !baseline.contains(n);
        } else if s.pending.contains(n) {
            let i = choose|i: int|
                0 <= i < k && (#[trigger] records[i]).name == n && !records[i].deprecated
                    && !baseline.contains(n);
        }
    }
    assert forall|n: Seq<char>| known_name(records, baseline, n) implies in_some_bucket(s, n) by {
        lemma_lookup_iff_exists(records, n);
        if !baseline.contains(n) {
            let i = choose|i: int| 0 <= i < records.len() && (#[trigger] records[i]).name == n;
            if records[i].deprecated {
                assert(s.deprecated.contains(n));
            } else {
                assert(s.pending.contains(n));
            }
        }
    }
    assert forall|n: Seq<char>|
        !(#[trigger] s.deprecated.contains(n) && #[trigger] s.pending.contains(n)) by {
        if s.deprecated.contains(n) && s.pending.contains(n) {
            let i = choose|i: int|
                0 <= i < k && (#[trigger] records[i]).name == n && records[i].deprecated
                    && !baseline.contains(n);
            let j = choose|j: int|
                0 <= j < k && (#[trigger] records[j]).name == n && !records[j].deprecated
                    && !baseline.contains(n);
            assert(i != j);
            assert(records[i].name == records[j].name);
            assert(false);
        }
    }
}

/// The five buckets of the final classification are pairwise disjoint,
/// duplicate-free, and together hold exactly the names of the catalog and
/// the baseline.
pub proof fn lemma_partition(records: Seq<ModRecordView>, baseline: Seq<Seq<char>>)
    requires
        distinct_record_names(records),
        distinct_seq(baseline),
    ensures
        buckets_separated(classification(records, baseline)),
        forall|n: Seq<char>|
            #[trigger] in_some_bucket(classification(records, baseline), n) <==> known_name(
                records,
                baseline,
                n,
            ),
{
    lemma_initial_inv(records, baseline);
    lemma_run_passes_inv(
        records,
        baseline,
        initial_state(records, baseline),
        (records.len() + 1) as nat,
    );
}

/// Classifying one more name keeps every name already in a terminal bucket
/// there, and never touches the deprecated bucket.
proof fn lemma_classify_one_monotone(
    records: Seq<ModRecordView>,
    baseline: Seq<Seq<char>>,
    s: ClassificationView,
    n: Seq<char>,
)
    ensures
        forall|x: Seq<char>|
            #[trigger] s.working.contains(x) ==> classify_one(
                records,
                baseline,
                s,
                n,
            ).working.contains(x),
        forall|x: Seq<char>|
            #[trigger] broken_names(s.broken).contains(x) ==> broken_names(
                classify_one(records, baseline, s, n).broken,
            ).contains(x),
        forall|x: Seq<char>|
            #[trigger] typo_names(s.typo).contains(x) ==> typo_names(
                classify_one(records, baseline, s, n).typo,
            ).contains(x),
        classify_one(records, baseline, s, n).deprecated == s.deprecated,
{
    broadcast use lemma_push_contains;

    if lookup(records, n) is Some {
        let m = lookup(records, n)->Some_0;
        let deps = m.dependencies;
        if !deps_satisfied(s.working, deps, deps.len() as int) {
            match unresolvable_from(records, baseline, deps, 0) {
                Option::Some(t) => {
                    lemma_typo_names_push(s.typo, TypoEntryView { name: n, offending: t });
                },
                Option::None => {
                    let cs = crate::engine::cause_names(
                        s.deprecated,
                        broken_names(s.broken),
                        deps,
                        deps.len() as int,
                    );
                    if cs.len() > 0 {
                        lemma_broken_names_push(s.broken, BrokenEntryView { name: n, causes: cs });
                    }
                },
            }
        }
    }
}

/// Processing the rest of a snapshot keeps every name already in a terminal
/// bucket there.
proof fn lemma_run_snapshot_monotone(
    records: Seq<ModRecordView>,
    baseline: Seq<Seq<char>>,
    s: ClassificationView,
    snap: Seq<Seq<char>>,
    i: int,
)
    requires
        0 <= i <= snap.len(),
    ensures
        forall|x: Seq<char>|
            #[trigger] s.working.contains(x) ==> run_snapshot(
                records,
                baseline,
                s,
                snap,
                i,
            ).working.contains(x),
        forall|x: Seq<char>|
            #[trigger] broken_names(s.broken).contains(x) ==> broken_names(
                run_snapshot(records, baseline, s, snap, i).broken,
            ).contains(x),
        forall|x: Seq<char>|
            #[trigger] typo_names(s.typo).contains(x) ==> typo_names(
                run_snapshot(records, baseline, s, snap, i).typo,
            ).contains(x),
        run_snapshot(records, baseline, s, snap, i).deprecated == s.deprecated,
    decreases snap.len() - i,
{
    if i < snap.len() {
        lemma_classify_one_monotone(records, baseline, s, snap[i]);
        lemma_run_snapshot_monotone(
            records,
            baseline,
            classify_one(records, baseline, s, snap[i]),
            snap,
            i + 1,
        );
    }
}

/// One pass never moves a name out of the working, broken, or typo bucket,
/// and never changes the deprecated bucket.
pub proof fn lemma_pass_monotone(
    records: Seq<ModRecordView>,
    baseline: Seq<Seq<char>>,
    s: ClassificationView,
)
    ensures
        forall|x: Seq<char>|
            #[trigger] s.working.contains(x) ==> one_pass(records, baseline, s).working.contains(x),
        forall|x: Seq<char>|
            #[trigger] broken_names(s.broken).contains(x) ==> broken_names(
                one_pass(records, baseline, s).broken,
            ).contains(x),
        forall|x: Seq<char>|
            #[trigger] typo_names(s.typo).contains(x) ==> typo_names(
                one_pass(records, baseline, s).typo,
            ).contains(x),
        one_pass(records, baseline, s).deprecated == s.deprecated,
{
    lemma_run_snapshot_monotone(
        records,
        baseline,
        ClassificationView { pending: Seq::empty(), ..s },
        s.pending,
        0,
    );
}

/// Any number of passes never moves a name out of the working, broken, or
/// typo bucket, and never changes the deprecated bucket.
pub proof fn lemma_passes_monotone(
    records: Seq<ModRecordView>,
    baseline: Seq<Seq<char>>,
    s: ClassificationView,
    fuel: nat,
)
    ensures
        forall|x: Seq<char>|
            #[trigger] s.working.contains(x) ==> run_passes(
                records,
                baseline,
                s,
                fuel,
            ).working.contains(x),
        forall|x: Seq<char>|
            #[trigger] broken_names(s.broken).contains(x) ==> broken_names(
                run_passes(records, baseline, s, fuel).broken,
            ).contains(x),
        forall|x: Seq<char>|
            #[trigger] typo_names(s.typo).contains(x) ==> typo_names(
                run_passes(records, baseline, s, fuel).typo,
            ).contains(x),
        run_passes(records, baseline, s, fuel).deprecated == s.deprecated,
    decreases fuel,
{
    if fuel > 0 {
        lemma_pass_monotone(records, baseline, s);
        let s2 = one_pass(records, baseline, s);
        if s2.pending.len() != s.pending.len() {
            lemma_passes_monotone(records, baseline, s2, (fuel - 1) as nat);
        }
    }
}

/// A baseline name is always classified working and sits in no other
/// bucket, whatever its record says.
pub proof fn lemma_baseline_immunity(
    records: Seq<ModRecordView>,
    baseline: Seq<Seq<char>>,
    n: Seq<char>,
)
    requires
        distinct_record_names(records),
        distinct_seq(baseline),
        baseline.contains(n),
    ensures
        classification(records, baseline).working.contains(n),
        !classification(records, baseline).deprecated.contains(n),
        !broken_names(classification(records, baseline).broken).contains(n),
        !typo_names(classification(records, baseline).typo).contains(n),
        !classification(records, baseline).pending.contains(n),
{
    lemma_initial_inv(records, baseline);
    lemma_run_passes_inv(
        records,
        baseline,
        initial_state(records, baseline),
        (records.len() + 1) as nat,
    );
}

/// An unresolvable search that succeeds has a witness dependency.
proof fn lemma_unresolvable_witness(
    records: Seq<ModRecordView>,
    baseline: Seq<Seq<char>>,
    deps: Seq<crate::dependency::DepView>,
    i: int,
)
    requires
        0 <= i,
        unresolvable_from(records, baseline, deps, i) is Some,
    ensures
        exists|j: int|
            i <= j < deps.len() && is_required(#[trigger] deps[j]) && !known_name(
                records,
                baseline,
                deps[j].name,
            ),
    decreases deps.len() - i,
{
    if i < deps.len() {
        if is_required(deps[i]) && !known_name(records, baseline, deps[i].name) {
            assert(is_required(deps[i]) && !known_name(records, baseline, deps[i].name));
        } else {
            lemma_unresolvable_witness(records, baseline, deps, i + 1);
        }
    }
}

/// A satisfied dependency list has every required member working.
proof fn lemma_deps_satisfied_at(
    w: Seq<Seq<char>>,
    deps: Seq<crate::dependency::DepView>,
    k: int,
    j: int,
)
    requires
        deps_satisfied(w, deps, k),
        0 <= j < k,
    ensures
        is_required(deps[j]) ==> w.contains(deps[j].name),
    decreases k,
{
    if j < k - 1 {
        lemma_deps_satisfied_at(w, deps, k - 1, j);
    }
}

/// A still-pending mod with an unresolvable required dependency ends the
/// pass in the typo bucket: nothing its other dependencies do can save it.
proof fn lemma_run_snapshot_typo(
    records: Seq<ModRecordView>,
    baseline: Seq<Seq<char>>,
    s: ClassificationView,
    snap: Seq<Seq<char>>,
    i: int,
    n: Seq<char>,
)
    requires
        0 <= i <= snap.len(),
        pass_inv(records, baseline, s, snap.skip(i)),
        snap.skip(i).contains(n),
        lookup(records, n) is Some,
        unresolvable_from(
            records,
            baseline,
            (lookup(records, n)->Some_0).dependencies,
            0,
        ) is Some,
    ensures
        typo_names(run_snapshot(records, baseline, s, snap, i).typo).contains(n),
    decreases snap.len() - i,
{
    broadcast use lemma_push_contains;

    let rem = snap.skip(i);
    assert(rem.len() > 0);
    lemma_drop_first_facts(rem);
    let m = lookup(records, n)->Some_0;
    let deps = m.dependencies;
    if snap[i] == n {
        if deps_satisfied(s.working, deps, deps.len() as int) {
            lemma_unresolvable_witness(records, baseline, deps, 0);
            let j = choose|j: int|
                0 <= j < deps.len() && is_required(#[trigger] deps[j]) && !known_name(
                    records,
                    baseline,
                    deps[j].name,
                );
            lemma_deps_satisfied_at(s.working, deps, deps.len() as int, j);
            assert(in_some_bucket(s, deps[j].name));
            assert(false);
        }
        let s1 = classify_one(records, baseline, s, n);
        let t = unresolvable_from(records, baseline, deps, 0)->Some_0;
        lemma_typo_names_push(s.typo, TypoEntryView { name: n, offending: t });
        assert(typo_names(s1.typo).contains(n));
        lemma_run_snapshot_monotone(records, baseline, s1, snap, i + 1);
    } else {
        lemma_classify_one_inv(records, baseline, s, rem);
        assert(rem.drop_first() =~= snap.skip(i + 1));
        assert(snap.skip(i + 1).contains(n));
        lemma_run_snapshot_typo(
            records,
            baseline,
            classify_one(records, baseline, s, snap[i]),
            snap,
            i + 1,
            n,
        );
    }
}

/// A catalog mod that is not deprecated, not in the baseline, and requires
/// a name that exists neither in the catalog nor the baseline is classified
/// typo, regardless of what its other dependencies are doing.
pub proof fn lemma_typo_terminality(
    records: Seq<ModRecordView>,
    baseline: Seq<Seq<char>>,
    n: Seq<char>,
)
    requires
        distinct_record_names(records),
        distinct_seq(baseline),
        lookup(records, n) is Some,
        !(lookup(records, n)->Some_0).deprecated,
        !baseline.contains(n),
        unresolvable_from(
            records,
            baseline,
            (lookup(records, n)->Some_0).dependencies,
            0,
        ) is Some,
    ensures
        typo_names(classification(records, baseline).typo).contains(n),
{
    lemma_initial_inv(records, baseline);
    let init = initial_state(records, baseline);
    lemma_lookup_iff_exists(records, n);
    let i = choose|i: int| 0 <= i < records.len() && (#[trigger] records[i]).name == n;
    crate::engine::lemma_lookup_unique(records, i);
    lemma_initial_pending_props(records, baseline, records.len() as int);
    assert(init.pending.contains(n));
    lemma_pass_inv_start(records, baseline, init);
    let s0 = ClassificationView { pending: Seq::empty(), ..init };
    assert(init.pending.skip(0) =~= init.pending);
    lemma_run_snapshot_typo(records, baseline, s0, init.pending, 0, n);
    let s2 = one_pass(records, baseline, init);
    assert(typo_names(s2.typo).contains(n));
    let fuel = (records.len() + 1) as nat;
    if s2.pending.len() == init.pending.len() {
        assert(classification(records, baseline) == s2);
    } else {
        lemma_passes_monotone(records, baseline, s2, (fuel - 1) as nat);
        assert(classification(records, baseline) == run_passes(
            records,
            baseline,
            s2,
            (fuel - 1) as nat,
        ));
    }
}

/// Two mods that require each other, with neither deprecated, missing, or
/// broken on its own, do not hang the engine: the run terminates with both
/// names surfaced in the pending residual and every other bucket untouched.
pub proof fn lemma_cycle_residual(
    a: ModRecordView,
    b: ModRecordView,
    baseline: Seq<Seq<char>>,
    da: crate::dependency::DepView,
    db: crate::dependency::DepView,
)
    requires
        a.name != b.name,
        !a.deprecated,
        !b.deprecated,
        !baseline.contains(a.name),
        !baseline.contains(b.name),
        a.dependencies == seq![da],
        is_required(da),
        da.name == b.name,
        b.dependencies == seq![db],
        is_required(db),
        db.name == a.name,
    ensures
        classification(seq![a, b], baseline).pending == seq![a.name, b.name],
        classification(seq![a, b], baseline).working == baseline,
        classification(seq![a, b], baseline).deprecated == Seq::<Seq<char>>::empty(),
        classification(seq![a, b], baseline).broken == Seq::<BrokenEntryView>::empty(),
        classification(seq![a, b], baseline).typo == Seq::<TypoEntryView>::empty(),
{
    let recs = seq![a, b];
    let bl = baseline;
    assert(recs[0] == a && recs[1] == b);
    assert(recs.drop_first() =~= seq![b]);
    assert(lookup(recs, a.name) == Some(a));
    assert(lookup(seq![b], b.name) == Some(b));
    assert(lookup(recs, b.name) == Some(b));
    assert(known_name(recs, bl, a.name));
    assert(known_name(recs, bl, b.name));

    let none: Seq<Seq<char>> = Seq::empty();
    assert(initial_deprecated(recs, bl, 0) == none);
    assert(initial_deprecated(recs, bl, 1) == none);
    assert(initial_deprecated(recs, bl, 2) == none);
    assert(initial_pending(recs, bl, 0) == none);
    assert(initial_pending(recs, bl, 1) == none.push(a.name));
    assert(initial_pending(recs, bl, 2) == none.push(a.name).push(b.name));
    let pen0 = none.push(a.name).push(b.name);
    assert(pen0 =~= seq![a.name, b.name]);
    let init = initial_state(recs, bl);
    assert(init.pending == pen0);
    assert(init.working == bl);
    assert(init.deprecated == none);

    let s0 = ClassificationView { pending: Seq::empty(), ..init };
    let bn: Seq<Seq<char>> = broken_names(s0.broken);
    assert(bn =~= none);

    // Classifying the first mod: its one required dependency is known but
    // not yet working, so it stays pending.
    assert(a.dependencies[0] == da);
    assert(deps_satisfied(bl, a.dependencies, 0));
    assert(!bl.contains(da.name));
    assert(!deps_satisfied(bl, a.dependencies, 1));
    assert(unresolvable_from(recs, bl, a.dependencies, 1) is None);
    assert(unresolvable_from(recs, bl, a.dependencies, 0) is None);
    assert(!none.contains(da.name));
    assert(crate::engine::cause_names(none, bn, a.dependencies, 0) == none);
    assert(crate::engine::cause_names(none, bn, a.dependencies, 1) == none);
    let s1 = classify_one(recs, bl, s0, a.name);
    assert(s1.pending == Seq::<Seq<char>>::empty().push(a.name));
    assert(s1.working == bl);
    assert(s1.deprecated == none);
    assert(s1.broken == s0.broken);
    assert(s1.typo == s0.typo);

    // The second mod behaves the same way.
    assert(b.dependencies[0] == db);
    assert(deps_satisfied(bl, b.dependencies, 0));
    assert(!bl.contains(db.name));
    assert(!deps_satisfied(bl, b.dependencies, 1));
    assert(unresolvable_from(recs, bl, b.dependencies, 1) is None);
    assert(unresolvable_from(recs, bl, b.dependencies, 0) is None);
    assert(broken_names(s1.broken) =~= none);
    assert(crate::engine::cause_names(none, broken_names(s1.broken), b.dependencies, 0) == none);
    assert(crate::engine::cause_names(none, broken_names(s1.broken), b.dependencies, 1) == none);
    let s2 = classify_one(recs, bl, s1, b.name);
    assert(s2.pending == Seq::<Seq<char>>::empty().push(a.name).push(b.name));
    assert(s2.working == bl);

    // One pass reproduces the pending set unchanged, so the run stops.
    assert(pen0[0] == a.name && pen0[1] == b.name);
    assert(run_snapshot(recs, bl, s2, pen0, 2) == s2);
    assert(run_snapshot(recs, bl, s1, pen0, 1) == s2);
    assert(run_snapshot(recs, bl, s0, pen0, 0) == s2);
    assert(one_pass(recs, bl, init) == s2);
    assert(s2.pending.len() == 2);
    assert(init.pending.len() == 2);
    assert(classification(recs, bl) == s2);
    assert(s2.pending =~= seq![a.name, b.name]);
}

} // verus!

