//! The target matcher: selects the subsequence of records whose executable
//! path contains a caller-supplied target text as a literal substring —
//! case-sensitive, with no path normalization. Zero matches is a reportable
//! condition of its own, distinct from a decode failure.

use vstd::prelude::*;

use crate::byteseq::contains_bytes;
use crate::byteseq::contains_seq;
use crate::byteseq::copy_range;
use crate::byteseq::lemma_filter_push;
use crate::records::RecordView;
use crate::records::ShortcutRecord;
use crate::PipelineError;

verus! {

/// A record is selected when its executable path contains the target.
pub open spec fn record_matches(r: RecordView, target: Seq<u8>) -> bool {
    contains_seq(r.exe, target)
}

/// The selection predicate for one target.
pub open spec fn match_pred(target: Seq<u8>) -> spec_fn(RecordView) -> bool {
    |r: RecordView| record_matches(r, target)
}

/// The models of a record list.
pub open spec fn views_of(s: Seq<ShortcutRecord>) -> Seq<RecordView> {
    s.map_values(|x: ShortcutRecord| x@)
}

/// What matching computes: the subsequence of records whose executable path
/// contains the target, in their stored order.
pub open spec fn spec_matching(records: Seq<RecordView>, target: Seq<u8>) -> Seq<RecordView> {
    records.filter(match_pred(target))
}

/// Select exactly the records whose executable path contains `target`,
/// keeping their order.
pub fn matching_records(records: &Vec<ShortcutRecord>, target: &Vec<u8>) -> (r: Vec<ShortcutRecord>)
    ensures
        views_of(r@) == spec_matching(views_of(records@), target@),
{
    let mut out: Vec<ShortcutRecord> = Vec::new();
    let mut i: usize = 0;
    while i < records.len()
        invariant
            i <= records@.len(),
            views_of(out@) == spec_matching(views_of(records@.take(i as int)), target@),
        decreases records@.len() - i,
    {
        let rec = &records[i];
        let ghost prev = out@;
        if contains_bytes(&rec.exe, target) {
            out.push(rec.duplicate());
            proof {
                assert(views_of(out@) =~= views_of(prev).push(records@[i as int]@));
            }
        }
        proof {
            assert(views_of(records@.take(i + 1)) =~= views_of(records@.take(i as int)).push(
                records@[i as int]@,
            ));
            lemma_filter_push(
                views_of(records@.take(i as int)),
                match_pred(target@),
                records@[i as int]@,
            );
        }
        i = i + 1;
    }
    proof {
        assert(records@.take(records@.len() as int) =~= records@);
    }
    out
}

/// Select the matching records, and report the empty selection as a
/// `NoMatch` failure carrying the target.
pub fn select_matches(records: &Vec<ShortcutRecord>, target: &Vec<u8>) -> (r: Result<
    Vec<ShortcutRecord>,
    PipelineError,
>)
    ensures
        match r {
            Ok(ms) => views_of(ms@) == spec_matching(views_of(records@), target@) && ms@.len() > 0,
            Err(e) => match e {
                PipelineError::NoMatch { target: t } => t@ == target@ && spec_matching(
                    views_of(records@),
                    target@,
                ).len() == 0,
                _ => false,
            },
        },
{
    let ms = matching_records(records, target);
    if ms.len() == 0 {
        let t = copy_range(target, 0, target.len());
        proof {
            assert(target@.subrange(0, target@.len() as int) =~= target@);
        }
        Err(PipelineError::NoMatch { target: t })
    } else {
        Ok(ms)
    }
}

} // verus!
