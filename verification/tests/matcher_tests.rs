use gamestream_presets::matcher::matching_records;
use gamestream_presets::matcher::select_matches;
use gamestream_presets::records::ShortcutRecord;
use gamestream_presets::PipelineError;

fn record(app_id: u32, name: &str, exe: &str) -> ShortcutRecord {
    ShortcutRecord {
        app_id,
        app_name: name.as_bytes().to_vec(),
        exe: exe.as_bytes().to_vec(),
        start_dir: b"C:\\".to_vec(),
        icon: b"C:\\i.ico".to_vec(),
    }
}

#[test]
fn returns_exactly_the_matching_subsequence_in_order() {
    let records = vec![
        record(1, "A", "\"C:\\Emus\\Yuzu\\yuzu.exe\""),
        record(2, "B", "\"C:\\Other\\thing.exe\""),
        record(3, "C", "\"C:\\Emus\\Yuzu\\yuzu.exe\" --fullscreen"),
    ];
    let target = b"C:\\Emus\\Yuzu\\yuzu.exe".to_vec();
    let ms = matching_records(&records, &target);
    assert_eq!(2, ms.len());
    assert_eq!(1, ms[0].app_id);
    assert_eq!(3, ms[1].app_id);
}

#[test]
fn matching_is_case_sensitive() {
    let records = vec![record(1, "A", "\"C:\\Emus\\yuzu.exe\"")];
    let upper = b"C:\\EMUS\\YUZU.EXE".to_vec();
    assert_eq!(0, matching_records(&records, &upper).len());
    let exact = b"C:\\Emus\\yuzu.exe".to_vec();
    assert_eq!(1, matching_records(&records, &exact).len());
}

#[test]
fn path_separators_are_not_normalized() {
    let records = vec![record(1, "A", "\"C:\\Emus\\yuzu.exe\"")];
    let slashed = b"C:/Emus/yuzu.exe".to_vec();
    assert_eq!(0, matching_records(&records, &slashed).len());
}

#[test]
fn zero_matches_raise_no_match_with_the_target_attached() {
    let records = vec![record(1, "A", "\"C:\\a.exe\"")];
    let target = b"C:\\missing.exe".to_vec();
    match select_matches(&records, &target) {
        Err(e) => {
            assert!(e.is_no_match());
            match e {
                PipelineError::NoMatch { target: t } => assert_eq!(target, t),
                _ => panic!("expected the no-match failure"),
            }
        }
        _ => panic!("expected the no-match failure"),
    }
}

#[test]
fn a_nonempty_selection_is_returned_as_success() {
    let records = vec![record(1, "A", "\"C:\\a.exe\" -x")];
    let target = b"C:\\a.exe".to_vec();
    let ms = select_matches(&records, &target).unwrap();
    assert_eq!(1, ms.len());
    assert_eq!(1, ms[0].app_id);
}
