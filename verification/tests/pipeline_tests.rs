use gamestream_presets::pipeline::plan_target;
use gamestream_presets::pipeline::plan_targets;
use gamestream_presets::PipelineError;

fn push_text(b: &mut Vec<u8>, key: &str, val: &str) {
    b.push(1);
    b.extend_from_slice(key.as_bytes());
    b.push(0);
    b.extend_from_slice(val.as_bytes());
    b.push(0);
}

fn push_num(b: &mut Vec<u8>, key: &str, val: u32) {
    b.push(2);
    b.extend_from_slice(key.as_bytes());
    b.push(0);
    b.extend_from_slice(&val.to_le_bytes());
}

fn one_record_manifest() -> Vec<u8> {
    let mut b: Vec<u8> = vec![0];
    b.extend_from_slice(b"shortcuts");
    b.push(0);
    b.push(0);
    b.extend_from_slice(b"0");
    b.push(0);
    push_num(&mut b, "appid", 42);
    push_text(&mut b, "AppName", "My:Game");
    push_text(&mut b, "Exe", "\"C:\\g.exe\" -x");
    push_text(&mut b, "StartDir", "C:\\");
    push_text(&mut b, "icon", "C:\\g.ico");
    b.push(8);
    b.push(8);
    b
}

#[test]
fn one_matched_record_yields_the_expected_artifacts() {
    let manifest = one_record_manifest();
    let target = b"C:\\g.exe".to_vec();
    let config_dir = b"C:\\cfg\\".to_vec();
    let dest = b"D:\\out\\".to_vec();
    let plans = plan_target(&manifest, &target, &config_dir, &dest).unwrap();
    assert_eq!(1, plans.len());
    let plan = &plans[0];
    assert_eq!(b"D:\\out\\MyGame.lnk".to_vec(), plan.lnk_path);
    assert_eq!(b"C:\\g.exe".to_vec(), plan.descriptor.target);
    assert_eq!(b" -x".to_vec(), plan.descriptor.arguments);
    assert_eq!(b"C:\\g.ico".to_vec(), plan.descriptor.icon);
    assert_eq!(b"My:Game".to_vec(), plan.descriptor.display_name);
    assert_eq!(b"C:\\".to_vec(), plan.descriptor.working_dir);
    assert_eq!(b"D:\\out\\StreamingAssets\\MyGame".to_vec(), plan.asset_dir);
    assert_eq!(
        b"D:\\out\\StreamingAssets\\MyGame\\box-art.png".to_vec(),
        plan.asset_path
    );
    assert_eq!(b"C:\\cfg\\grid\\42p.png".to_vec(), plan.png_source);
    assert_eq!(b"C:\\cfg\\grid\\42p.jpg".to_vec(), plan.jpg_source);
}

#[test]
fn a_target_without_matches_fails_with_no_match() {
    let manifest = one_record_manifest();
    let target = b"C:\\absent.exe".to_vec();
    let config_dir = b"C:\\cfg\\".to_vec();
    let dest = b"D:\\out\\".to_vec();
    match plan_target(&manifest, &target, &config_dir, &dest) {
        Err(PipelineError::NoMatch { target: t }) => assert_eq!(target, t),
        _ => panic!("expected the no-match failure"),
    }
}

#[test]
fn a_malformed_manifest_fails_with_its_offset() {
    let manifest = b"garbage".to_vec();
    let target = b"C:\\g.exe".to_vec();
    let config_dir = b"C:\\cfg\\".to_vec();
    let dest = b"D:\\out\\".to_vec();
    match plan_target(&manifest, &target, &config_dir, &dest) {
        Err(PipelineError::ManifestFormat { offset }) => assert_eq!(0, offset),
        _ => panic!("expected a manifest format failure"),
    }
}

#[test]
fn every_target_is_planned_and_every_outcome_reported() {
    let manifest = one_record_manifest();
    let targets = vec![b"C:\\g.exe".to_vec(), b"C:\\absent.exe".to_vec()];
    let config_dir = b"C:\\cfg\\".to_vec();
    let dest = b"D:\\out\\".to_vec();
    let outcomes = plan_targets(&manifest, &targets, &config_dir, &dest);
    assert_eq!(2, outcomes.len());
    assert_eq!(targets[0], outcomes[0].target);
    assert_eq!(1, outcomes[0].result.as_ref().unwrap().len());
    assert_eq!(targets[1], outcomes[1].target);
    assert!(matches!(
        outcomes[1].result,
        Err(PipelineError::NoMatch { .. })
    ));
}
