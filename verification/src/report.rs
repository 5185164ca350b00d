//! Presentational narrowing of the broken bucket for report writers.
//!
//! These filters run after the fixpoint, never inside it: gating membership
//! in the broken bucket on version strings during classification would
//! leave version-gated mods permanently pending. The comparison is plain
//! lexicographic string order on the version field, not semantic version
//! order, so multi-digit components sort surprisingly ("10.0" precedes
//! "2.0"): callers relying on it must know that.

use vstd::prelude::*;
use vstd::string::*;

use crate::engine::{
    find_record, lookup, record_views, BrokenEntryView, ClassificationResult, ModRecord,
};
use crate::text::{lex_lt, str_eq, str_lex_lt, str_views};

verus! {

/// The names among the first `k` broken entries whose record's platform
/// version lexicographically precedes `threshold`.
pub open spec fn broken_before(
    records: Seq<crate::engine::ModRecordView>,
    broken: Seq<BrokenEntryView>,
    threshold: Seq<char>,
    k: int,
) -> Seq<Seq<char>>
    decreases k,
{
    if k <= 0 {
        Seq::empty()
    } else {
        let pre = broken_before(records, broken, threshold, k - 1);
        let e = broken[k - 1];
        match lookup(records, e.name) {
            Option::Some(m) => if lex_lt(m.platform_version, threshold) {
                pre.push(e.name)
            } else {
                pre
            },
            Option::None => pre,
        }
    }
}

/// The names among the first `k` broken entries whose record targets
/// exactly the platform version `version`.
pub open spec fn broken_on(
    records: Seq<crate::engine::ModRecordView>,
    broken: Seq<BrokenEntryView>,
    version: Seq<char>,
    k: int,
) -> Seq<Seq<char>>
    decreases k,
{
    if k <= 0 {
        Seq::empty()
    } else {
        let pre = broken_on(records, broken, version, k - 1);
        let e = broken[k - 1];
        match lookup(records, e.name) {
            Option::Some(m) => if m.platform_version == version {
                pre.push(e.name)
            } else {
                pre
            },
            Option::None => pre,
        }
    }
}

/// The broken mods whose release targets a platform version preceding
/// `threshold` in plain lexicographic string order.
pub fn broken_released_before(
    records: &Vec<ModRecord>,
    result: &ClassificationResult,
    threshold: &str,
) -> (r: Vec<String>)
    ensures
        str_views(r@) == broken_before(
            record_views(records@),
            result@.broken,
            threshold@,
            result@.broken.len() as int,
        ),
{
    let mut out: Vec<String> = Vec::new();
    let mut k: usize = 0;
    while k < result.broken.len()
        invariant
            k <= result.broken.len(),
            str_views(out@) == broken_before(
                record_views(records@),
                result@.broken,
                threshold@,
                k as int,
            ),
        decreases result.broken.len() - k,
    {
        let entry = &result.broken[k];
        proof {
            assert(result@.broken[k as int] == entry@);
        }
        match find_record(records, entry.name.as_str()) {
            Some(i) => {
                if str_lex_lt(records[i].platform_version.as_str(), threshold) {
                    proof {
                        assert(str_views(out@.push(entry.name)) =~= str_views(out@).push(
                            entry.name@,
                        ));
                    }
                    out.push(entry.name.clone());
                }
            },
            None => {},
        }
        k += 1;
    }
    out
}

/// The broken mods whose release targets exactly the platform version
/// `version`.
pub fn broken_released_on(
    records: &Vec<ModRecord>,
    result: &ClassificationResult,
    version: &str,
) -> (r: Vec<String>)
    ensures
        str_views(r@) == broken_on(
            record_views(records@),
            result@.broken,
            version@,
            result@.broken.len() as int,
        ),
{
    let mut out: Vec<String> = Vec::new();
    let mut k: usize = 0;
    while k < result.broken.len()
        invariant
            k <= result.broken.len(),
            str_views(out@) == broken_on(
                record_views(records@),
                result@.broken,
                version@,
                k as int,
            ),
        decreases result.broken.len() - k,
    {
        let entry = &result.broken[k];
        proof {
            assert(result@.broken[k as int] == entry@);
        }
        match find_record(records, entry.name.as_str()) {
            Some(i) => {
                if str_eq(records[i].platform_version.as_str(), version) {
                    proof {
                        assert(str_views(out@.push(entry.name)) =~= str_views(out@).push(
                            entry.name@,
                        ));
                    }
                    out.push(entry.name.clone());
                }
            },
            None => {},
        }
        k += 1;
    }
    out
}

} // verus!
