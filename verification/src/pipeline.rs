//! The pipeline orchestrator's computation: for one target, decode the
//! manifest, select the matching records, and lay out one export plan per
//! match — the link descriptor, the link file's path, the artwork paths and
//! the candidate artwork sources. For many targets, every target is planned
//! independently and every outcome is reported, so one target's failure
//! hides no other target's result.

use vstd::prelude::*;

use crate::decoder::decode_manifest;
use crate::decoder::spec_parse_manifest;
use crate::link::spec_descriptor;
use crate::link::spec_lnk_path;
use crate::link::LinkDescriptor;
use crate::matcher::select_matches;
use crate::matcher::spec_matching;
use crate::matcher::views_of;
use crate::records::RecordView;
use crate::records::ShortcutRecord;
use crate::PipelineError;

verus! {

/// Everything the caller needs to materialize one matched record: the
/// descriptor to serialize, the paths to write, and the candidate artwork
/// sources to probe in precedence order.
pub struct ExportPlan {
    /// The link descriptor to serialize into the link file.
    pub descriptor: LinkDescriptor,
    /// Where the link file goes.
    pub lnk_path: Vec<u8>,
    /// The artwork directory to create.
    pub asset_dir: Vec<u8>,
    /// Where the artwork file goes.
    pub asset_path: Vec<u8>,
    /// The candidate source PNG, first in precedence.
    pub png_source: Vec<u8>,
    /// The candidate source JPG, second in precedence.
    pub jpg_source: Vec<u8>,
}

/// The mathematical model of an export plan.
#[verifier::ext_equal]
pub struct PlanView {
    pub descriptor: crate::link::DescriptorView,
    pub lnk_path: Seq<u8>,
    pub asset_dir: Seq<u8>,
    pub asset_path: Seq<u8>,
    pub png_source: Seq<u8>,
    pub jpg_source: Seq<u8>,
}

impl View for ExportPlan {
    type V = PlanView;

    open spec fn view(&self) -> PlanView {
        PlanView {
            descriptor: self.descriptor@,
            lnk_path: self.lnk_path@,
            asset_dir: self.asset_dir@,
            asset_path: self.asset_path@,
            png_source: self.png_source@,
            jpg_source: self.jpg_source@,
        }
    }
}

/// The plan one matched record yields for a target.
pub open spec fn spec_plan_for(
    r: RecordView,
    target: Seq<u8>,
    config_dir: Seq<u8>,
    dest: Seq<u8>,
) -> PlanView {
    PlanView {
        descriptor: spec_descriptor(target, r),
        lnk_path: spec_lnk_path(dest, r.app_name),
        asset_dir: crate::assets::spec_asset_dir(dest, r.app_name),
        asset_path: crate::assets::spec_asset_path(dest, r.app_name),
        png_source: crate::assets::spec_grid_png_path(config_dir, r.app_id),
        jpg_source: crate::assets::spec_grid_jpg_path(config_dir, r.app_id),
    }
}

/// Lay out the export plan for one matched record.
pub fn plan_for(target: &Vec<u8>, record: &ShortcutRecord, config_dir: &Vec<u8>, dest: &Vec<u8>) -> (p:
    ExportPlan)
    ensures
        p@ == spec_plan_for(record@, target@, config_dir@, dest@),
{
    let p = ExportPlan {
        descriptor: crate::link::build_descriptor(target, record),
        lnk_path: crate::link::lnk_path(dest, &record.app_name),
        asset_dir: crate::assets::asset_dir(dest, &record.app_name),
        asset_path: crate::assets::asset_path(dest, &record.app_name),
        png_source: crate::assets::grid_png_path(config_dir, record.app_id),
        jpg_source: crate::assets::grid_jpg_path(config_dir, record.app_id),
    };
    proof {
        assert(p@ =~= spec_plan_for(record@, target@, config_dir@, dest@));
    }
    p
}

/// What planning one target must return. Success is owed exactly when the
/// manifest decodes and at least one record matches: then one plan per
/// matched record, in their stored order. A malformed manifest is the
/// decoder's failure with its offset; a decoded manifest without a match
/// is the `NoMatch` failure carrying the target.
pub open spec fn plan_result_matches(
    r: Result<Vec<ExportPlan>, PipelineError>,
    manifest: Seq<u8>,
    target: Seq<u8>,
    config_dir: Seq<u8>,
    dest: Seq<u8>,
) -> bool {
    match r {
        Ok(plans) => {
            &&& spec_parse_manifest(manifest) is Ok
            &&& {
                let ms = spec_matching(spec_parse_manifest(manifest)->Ok_0, target);
                &&& ms.len() > 0
                &&& plans@.len() == ms.len()
                &&& forall|i: int|
                    0 <= i < ms.len() ==> (#[trigger] plans@[i])@ == spec_plan_for(
                        ms[i],
                        target,
                        config_dir,
                        dest,
                    )
            }
        },
        Err(e) => match e {
            PipelineError::ManifestFormat { offset } => spec_parse_manifest(manifest)
                == Err::<Seq<RecordView>, int>(offset as int),
            PipelineError::NoMatch { target: t } => {
                &&& spec_parse_manifest(manifest) is Ok
                &&& t@ == target
                &&& spec_matching(spec_parse_manifest(manifest)->Ok_0, target).len() == 0
            },
            _ => false,
        },
    }
}

/// Plan one target: decode the manifest, select the records whose
/// executable path contains the target, and lay out one export plan per
/// match.
pub fn plan_target(
    manifest: &Vec<u8>,
    target: &Vec<u8>,
    config_dir: &Vec<u8>,
    dest: &Vec<u8>,
) -> (r: Result<Vec<ExportPlan>, PipelineError>)
    ensures
        plan_result_matches(r, manifest@, target@, config_dir@, dest@),
{
    let records = match decode_manifest(manifest) {
        Ok(rs) => rs,
        Err(e) => {
            return Err(e);
        },
    };
    let ms = match select_matches(&records, target) {
        Ok(ms) => ms,
        Err(e) => {
            return Err(e);
        },
    };
    let mut plans: Vec<ExportPlan> = Vec::new();
    let mut i: usize = 0;
    while i < ms.len()
        invariant
            i <= ms@.len(),
            plans@.len() == i,
            views_of(ms@) == spec_matching(spec_parse_manifest(manifest@)->Ok_0, target@),
            spec_parse_manifest(manifest@) is Ok,
            views_of(ms@).len() > 0,
            forall|j: int|
                0 <= j < i ==> (#[trigger] plans@[j])@ == spec_plan_for(
                    views_of(ms@)[j],
                    target@,
                    config_dir@,
                    dest@,
                ),
        decreases ms@.len() - i,
    {
        let p = plan_for(target, &ms[i], config_dir, dest);
        plans.push(p);
        i = i + 1;
    }
    Ok(plans)
}

/// One target's reported outcome.
pub struct TargetOutcome {
    /// The target this outcome belongs to.
    pub target: Vec<u8>,
    /// Its plans, or its failure.
    pub result: Result<Vec<ExportPlan>, PipelineError>,
}

/// Plan every target independently and report every outcome: one outcome
/// per target, in order, each carrying its target and exactly what planning
/// that target alone returns. No failure hides another target's result.
pub fn plan_targets(
    manifest: &Vec<u8>,
    targets: &Vec<Vec<u8>>,
    config_dir: &Vec<u8>,
    dest: &Vec<u8>,
) -> (r: Vec<TargetOutcome>)
    ensures
        r@.len() == targets@.len(),
        forall|i: int|
            0 <= i < targets@.len() ==> (#[trigger] r@[i]).target@ == targets@[i]@
                && plan_result_matches(
                r@[i].result,
                manifest@,
                targets@[i]@,
                config_dir@,
                dest@,
            ),
{
    let mut out: Vec<TargetOutcome> = Vec::new();
    let mut i: usize = 0;
    while i < targets.len()
        invariant
            i <= targets@.len(),
            out@.len() == i,
            forall|j: int|
                0 <= j < i ==> (#[trigger] out@[j]).target@ == targets@[j]@
                    && plan_result_matches(
                    out@[j].result,
                    manifest@,
                    targets@[j]@,
                    config_dir@,
                    dest@,
                ),
        decreases targets@.len() - i,
    {
        let t = &targets[i];
        let target_copy = crate::byteseq::copy_range(t, 0, t.len());
        proof {
            assert(t@.subrange(0, t@.len() as int) =~= t@);
        }
        let result = plan_target(manifest, t, config_dir, dest);
        out.push(TargetOutcome { target: target_copy, result });
        i = i + 1;
    }
    out
}

} // verus!
