use gamestream_presets::assets::asset_dir;
use gamestream_presets::assets::asset_path;
use gamestream_presets::assets::format_u32;
use gamestream_presets::assets::grid_jpg_path;
use gamestream_presets::assets::grid_png_path;
use gamestream_presets::assets::produce_asset_bytes;
use gamestream_presets::assets::resolve_asset_source;
use gamestream_presets::assets::AssetSource;
use gamestream_presets::PipelineError;

#[test]
fn the_source_png_wins_over_everything() {
    assert_eq!(AssetSource::PngCopy, resolve_asset_source(true, true, true).unwrap());
    assert_eq!(AssetSource::PngCopy, resolve_asset_source(true, false, false).unwrap());
}

#[test]
fn the_source_jpg_wins_over_the_default() {
    assert_eq!(AssetSource::JpgTranscode, resolve_asset_source(false, true, true).unwrap());
    assert_eq!(AssetSource::JpgTranscode, resolve_asset_source(false, true, false).unwrap());
}

#[test]
fn the_default_is_used_only_when_no_source_exists() {
    assert_eq!(AssetSource::DefaultCopy, resolve_asset_source(false, false, true).unwrap());
}

#[test]
fn no_source_of_any_kind_is_a_fatal_configuration_defect() {
    assert!(matches!(
        resolve_asset_source(false, false, false),
        Err(PipelineError::AssetMissing)
    ));
}

#[test]
fn copied_source_bytes_round_trip_unchanged() {
    let bytes = b"\x89PNG\r\n\x1a\nfake png payload".to_vec();
    let out = produce_asset_bytes(AssetSource::PngCopy, bytes.clone()).unwrap();
    assert_eq!(bytes, out);
    let out = produce_asset_bytes(AssetSource::DefaultCopy, bytes.clone()).unwrap();
    assert_eq!(bytes, out);
}

#[test]
fn a_jpg_source_is_transcoded_to_a_png_of_the_same_dimensions() {
    let rgb = image::RgbImage::from_fn(8, 6, |x, y| {
        image::Rgb([(x * 20) as u8, (y * 30) as u8, 100])
    });
    let source = image::DynamicImage::ImageRgb8(rgb);
    let mut jpg = std::io::Cursor::new(Vec::new());
    source.write_to(&mut jpg, image::ImageFormat::Jpeg).unwrap();
    let out = produce_asset_bytes(AssetSource::JpgTranscode, jpg.into_inner()).unwrap();
    let decoded = image::load_from_memory(&out).unwrap();
    assert_eq!(image::ImageFormat::Png, image::guess_format(&out).unwrap());
    assert_eq!(8, decoded.width());
    assert_eq!(6, decoded.height());
}

#[test]
fn bytes_that_hold_no_image_are_an_image_decode_failure() {
    let bytes = b"certainly not an image".to_vec();
    assert!(matches!(
        produce_asset_bytes(AssetSource::JpgTranscode, bytes),
        Err(PipelineError::ImageDecode)
    ));
}

#[test]
fn decimal_formatting_is_exact() {
    assert_eq!(b"0".to_vec(), format_u32(0));
    assert_eq!(b"7".to_vec(), format_u32(7));
    assert_eq!(b"42".to_vec(), format_u32(42));
    assert_eq!(b"4294967295".to_vec(), format_u32(u32::MAX));
}

#[test]
fn candidate_source_paths_are_named_inside_the_grid_folder() {
    let cfg = b"C:\\cfg\\".to_vec();
    assert_eq!(b"C:\\cfg\\grid\\42p.png".to_vec(), grid_png_path(&cfg, 42));
    assert_eq!(b"C:\\cfg\\grid\\42p.jpg".to_vec(), grid_jpg_path(&cfg, 42));
}

#[test]
fn artwork_paths_use_the_sanitized_label() {
    let dest = b"D:\\out\\".to_vec();
    let name = b"My:Game".to_vec();
    assert_eq!(b"D:\\out\\StreamingAssets\\MyGame".to_vec(), asset_dir(&dest, &name));
    assert_eq!(
        b"D:\\out\\StreamingAssets\\MyGame\\box-art.png".to_vec(),
        asset_path(&dest, &name)
    );
}
