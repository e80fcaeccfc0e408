use gamestream_presets::decoder::decode_manifest;
use gamestream_presets::PipelineError;

fn push_text(b: &mut Vec<u8>, key: &str, val: &str) {
    b.push(1);
    b.extend_from_slice(key.as_bytes());
    b.push(0);
    b.extend_from_slice(val.as_bytes());
    b.push(0);
}

fn push_num(b: &mut Vec<u8>, key: &str, val: u32) {
    b.push(2);
    b.extend_from_slice(key.as_bytes());
    b.push(0);
    b.extend_from_slice(&val.to_le_bytes());
}

fn push_record(b: &mut Vec<u8>, idx: usize, app_id: u32, name: &str, exe: &str, start: &str, icon: &str) {
    b.push(0);
    b.extend_from_slice(idx.to_string().as_bytes());
    b.push(0);
    push_num(b, "appid", app_id);
    push_text(b, "AppName", name);
    push_text(b, "Exe", exe);
    push_text(b, "StartDir", start);
    push_text(b, "icon", icon);
    b.push(0);
    b.extend_from_slice(b"tags");
    b.push(0);
    b.push(8);
    b.push(8);
}

fn manifest(records: &[(u32, &str, &str, &str, &str)]) -> Vec<u8> {
    let mut b: Vec<u8> = vec![0];
    b.extend_from_slice(b"shortcuts");
    b.push(0);
    for (i, r) in records.iter().enumerate() {
        push_record(&mut b, i, r.0, r.1, r.2, r.3, r.4);
    }
    b.push(8);
    b.push(8);
    b
}

#[test]
fn decodes_each_well_formed_record_in_order() {
    let bytes = manifest(&[
        (1400, "Celeste", "\"C:\\Games\\celeste.exe\"", "C:\\Games\\", "C:\\Games\\c.ico"),
        (7, "Hades", "\"C:\\Games\\hades.exe\" -w", "C:\\Games\\", "C:\\Games\\h.ico"),
        (90, "Spore", "\"E:\\Origin\\SporeApp.exe\"", "E:\\Origin\\", "E:\\Origin\\s.ico"),
    ]);
    let recs = decode_manifest(&bytes).unwrap();
    assert_eq!(3, recs.len());
    assert_eq!(1400, recs[0].app_id);
    assert_eq!(b"Celeste".to_vec(), recs[0].app_name);
    assert_eq!(b"\"C:\\Games\\celeste.exe\"".to_vec(), recs[0].exe);
    assert_eq!(b"C:\\Games\\".to_vec(), recs[0].start_dir);
    assert_eq!(b"C:\\Games\\c.ico".to_vec(), recs[0].icon);
    assert_eq!(7, recs[1].app_id);
    assert_eq!(b"Hades".to_vec(), recs[1].app_name);
    assert_eq!(90, recs[2].app_id);
    assert_eq!(b"Spore".to_vec(), recs[2].app_name);
}

#[test]
fn empty_manifest_has_no_records() {
    let bytes = manifest(&[]);
    let recs = decode_manifest(&bytes).unwrap();
    assert_eq!(0, recs.len());
}

#[test]
fn record_missing_a_required_field_is_reported_at_its_offset() {
    // A record without an Exe field, after one well-formed record.
    let mut bytes = manifest(&[(1, "Good", "\"C:\\g.exe\"", "C:\\", "C:\\g.ico")]);
    bytes.truncate(bytes.len() - 2);
    let broken_start = bytes.len();
    bytes.push(0);
    bytes.extend_from_slice(b"1");
    bytes.push(0);
    push_num(&mut bytes, "appid", 2);
    push_text(&mut bytes, "AppName", "Bad");
    push_text(&mut bytes, "StartDir", "C:\\");
    push_text(&mut bytes, "icon", "C:\\b.ico");
    bytes.push(8);
    bytes.push(8);
    bytes.push(8);
    match decode_manifest(&bytes) {
        Err(PipelineError::ManifestFormat { offset }) => assert_eq!(broken_start, offset),
        _ => panic!("expected a manifest format failure"),
    }
}

#[test]
fn stream_without_the_marker_is_reported_at_offset_zero() {
    let bytes = b"not a manifest".to_vec();
    match decode_manifest(&bytes) {
        Err(PipelineError::ManifestFormat { offset }) => assert_eq!(0, offset),
        _ => panic!("expected a manifest format failure"),
    }
}

#[test]
fn empty_stream_is_reported_at_offset_zero() {
    let bytes: Vec<u8> = Vec::new();
    match decode_manifest(&bytes) {
        Err(PipelineError::ManifestFormat { offset }) => assert_eq!(0, offset),
        _ => panic!("expected a manifest format failure"),
    }
}

#[test]
fn field_order_is_free_and_unknown_fields_are_ignored() {
    let mut b: Vec<u8> = vec![0];
    b.extend_from_slice(b"Shortcuts");
    b.push(0);
    b.push(0);
    b.extend_from_slice(b"0");
    b.push(0);
    push_text(&mut b, "icon", "C:\\i.ico");
    push_text(&mut b, "LaunchOptions", "-ignored");
    push_text(&mut b, "Exe", "\"C:\\x.exe\"");
    push_num(&mut b, "IsHidden", 1);
    push_text(&mut b, "StartDir", "C:\\");
    push_text(&mut b, "AppName", "Order Free");
    push_num(&mut b, "appid", 5);
    b.push(8);
    b.push(8);
    b.push(8);
    let recs = decode_manifest(&b).unwrap();
    assert_eq!(1, recs.len());
    assert_eq!(5, recs[0].app_id);
    assert_eq!(b"Order Free".to_vec(), recs[0].app_name);
    assert_eq!(b"\"C:\\x.exe\"".to_vec(), recs[0].exe);
}

#[test]
fn keys_are_matched_without_regard_to_case() {
    let mut b: Vec<u8> = vec![0];
    b.extend_from_slice(b"shortcuts");
    b.push(0);
    b.push(0);
    b.extend_from_slice(b"0");
    b.push(0);
    push_num(&mut b, "AppId", 9);
    push_text(&mut b, "APPNAME", "Loud");
    push_text(&mut b, "exe", "\"C:\\l.exe\"");
    push_text(&mut b, "startdir", "C:\\");
    push_text(&mut b, "ICON", "C:\\l.ico");
    b.push(8);
    b.push(8);
    let recs = decode_manifest(&b).unwrap();
    assert_eq!(1, recs.len());
    assert_eq!(9, recs[0].app_id);
    assert_eq!(b"Loud".to_vec(), recs[0].app_name);
}

#[test]
fn little_endian_identifier_bytes_are_decoded_exactly() {
    let bytes = manifest(&[(0x0102_0304, "N", "\"C:\\n.exe\"", "C:\\", "C:\\n.ico")]);
    let recs = decode_manifest(&bytes).unwrap();
    assert_eq!(0x0102_0304, recs[0].app_id);
}

#[test]
fn agrees_with_the_launcher_library_on_the_same_bytes() {
    let bytes = manifest(&[
        (1400, "Celeste", "\"C:\\Games\\celeste.exe\"", "C:\\Games\\", "C:\\Games\\c.ico"),
        (30066, "Death Stranding", "\"C:\\DS\\ds.exe\" --fast", "C:\\DS\\", "C:\\DS\\d.ico"),
    ]);
    let ours = decode_manifest(&bytes).unwrap();
    let theirs = steam_shortcuts_util::parse_shortcuts(&bytes).unwrap();
    assert_eq!(theirs.len(), ours.len());
    for (a, b) in ours.iter().zip(theirs.iter()) {
        assert_eq!(b.app_id, a.app_id);
        assert_eq!(b.app_name.as_bytes().to_vec(), a.app_name);
        assert_eq!(b.exe.as_bytes().to_vec(), a.exe);
        assert_eq!(b.start_dir.as_bytes().to_vec(), a.start_dir);
        assert_eq!(b.icon.as_bytes().to_vec(), a.icon);
    }
}
