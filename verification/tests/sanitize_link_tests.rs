use gamestream_presets::link::extract_arguments;
use gamestream_presets::link::lnk_path;
use gamestream_presets::link::validate_descriptor;
use gamestream_presets::link::wrap_with_marks;
use gamestream_presets::link::LinkDescriptor;
use gamestream_presets::records::ShortcutRecord;
use gamestream_presets::sanitize::sanitize_name;
use gamestream_presets::PipelineError;

#[test]
fn sanitize_deletes_every_illegal_character() {
    let name = b"Game: *Title*".to_vec();
    assert_eq!(b"Game Title".to_vec(), sanitize_name(&name));
}

#[test]
fn sanitize_of_the_empty_name_is_empty() {
    let name: Vec<u8> = Vec::new();
    assert_eq!(Vec::<u8>::new(), sanitize_name(&name));
}

#[test]
fn an_all_illegal_name_collapses_to_the_empty_label() {
    let name = b"\\/:*?\"<>|".to_vec();
    assert_eq!(Vec::<u8>::new(), sanitize_name(&name));
}

#[test]
fn sanitize_is_idempotent_on_a_sample() {
    let name = b"A\\B/C:D*E?F\"G<H>I|J".to_vec();
    let once = sanitize_name(&name);
    let twice = sanitize_name(&once);
    assert_eq!(once, twice);
    assert_eq!(b"ABCDEFGHIJ".to_vec(), once);
}

#[test]
fn wrap_with_marks_surrounds_text_with_quotation_marks() {
    assert_eq!("\"C:\\g.exe\"", wrap_with_marks("C:\\g.exe"));
    assert_eq!("\"\"", wrap_with_marks(""));
}

#[test]
fn extracted_arguments_keep_their_leading_whitespace() {
    let exe = b"\"C:\\G\\g.exe\" --fullscreen".to_vec();
    let target = b"C:\\G\\g.exe".to_vec();
    assert_eq!(b" --fullscreen".to_vec(), extract_arguments(&exe, &target));
}

#[test]
fn an_executable_path_without_the_quoted_target_passes_through() {
    let exe = b"C:\\G\\g.exe --bare".to_vec();
    let target = b"C:\\other.exe".to_vec();
    assert_eq!(exe.clone(), extract_arguments(&exe, &target));
}

#[test]
fn only_the_first_occurrence_of_the_quoted_target_is_removed() {
    let exe = b"\"C:\\g.exe\" --replay \"C:\\g.exe\"".to_vec();
    let target = b"C:\\g.exe".to_vec();
    assert_eq!(b" --replay \"C:\\g.exe\"".to_vec(), extract_arguments(&exe, &target));
}

#[test]
fn link_file_name_uses_the_sanitized_label() {
    let dest = b"D:\\out\\".to_vec();
    let name = b"My:Game".to_vec();
    assert_eq!(b"D:\\out\\MyGame.lnk".to_vec(), lnk_path(&dest, &name));
}

#[test]
fn an_all_illegal_name_yields_a_link_named_solely_by_extension() {
    let dest = b"D:\\out\\".to_vec();
    let name = b"***".to_vec();
    assert_eq!(b"D:\\out\\.lnk".to_vec(), lnk_path(&dest, &name));
}

#[test]
fn descriptor_fields_within_the_limit_are_accepted() {
    let d = descriptor_with_arguments(vec![b'x'; 65535]);
    assert!(validate_descriptor(&d).is_ok());
}

#[test]
fn a_descriptor_field_over_the_limit_is_an_encode_failure() {
    let d = descriptor_with_arguments(vec![b'x'; 65536]);
    match validate_descriptor(&d) {
        Err(PipelineError::Encode { field_len }) => assert_eq!(65536, field_len),
        _ => panic!("expected an encode failure"),
    }
}

#[test]
fn build_descriptor_populates_every_field_from_the_record() {
    let record = ShortcutRecord {
        app_id: 42,
        app_name: b"My:Game".to_vec(),
        exe: b"\"C:\\g.exe\" -x".to_vec(),
        start_dir: b"C:\\".to_vec(),
        icon: b"C:\\g.ico".to_vec(),
    };
    let target = b"C:\\g.exe".to_vec();
    let d = gamestream_presets::link::build_descriptor(&target, &record);
    assert_eq!(b"C:\\g.exe".to_vec(), d.target);
    assert_eq!(b" -x".to_vec(), d.arguments);
    assert_eq!(b"C:\\g.ico".to_vec(), d.icon);
    assert_eq!(b"My:Game".to_vec(), d.display_name);
    assert_eq!(b"C:\\".to_vec(), d.working_dir);
}

fn descriptor_with_arguments(arguments: Vec<u8>) -> LinkDescriptor {
    LinkDescriptor {
        target: b"C:\\g.exe".to_vec(),
        arguments,
        icon: b"C:\\g.ico".to_vec(),
        display_name: b"G".to_vec(),
        working_dir: b"C:\\".to_vec(),
    }
}
