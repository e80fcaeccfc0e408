//! The asset resolver: names the candidate artwork files for a record,
//! picks the source by a strict precedence (source PNG copied verbatim,
//! else source JPG transcoded to PNG, else the bundled default), and
//! produces the output bytes. Checking which candidate exists on disk, and
//! writing the result, is the caller's part: it hands in what it found and
//! receives the bytes to write.

use vstd::prelude::*;

use crate::byteseq::ascii_bytes;
use crate::byteseq::concat_bytes;
use crate::byteseq::str_bytes;
use crate::sanitize::sanitize_spec;
use crate::PipelineError;

verus! {

/// The decimal digits of `n`, most significant first.
pub open spec fn dec_rep(n: nat) -> Seq<u8>
    decreases n,
{
    if n < 10 {
        seq![(48 + n) as u8]
    } else {
        dec_rep(n / 10).push((48 + n % 10) as u8)
    }
}

/// Append the decimal digits of `n`.
fn push_dec(n: u32, out: &mut Vec<u8>)
    ensures
        final(out)@ == old(out)@ + dec_rep(n as nat),
    decreases n,
{
    if n < 10 {
        out.push(48 + (n as u8));
        proof {
            assert(out@ =~= old(out)@ + dec_rep(n as nat));
        }
    } else {
        proof {
            assert(n / 10 < n) by (nonlinear_arith)
                requires
                    n >= 10,
            ;
        }
        push_dec(n / 10, out);
        out.push(48 + ((n % 10) as u8));
        proof {
            assert(out@ =~= old(out)@ + dec_rep(n as nat));
        }
    }
}

/// The decimal text of `n`.
pub fn format_u32(n: u32) -> (r: Vec<u8>)
    ensures
        r@ == dec_rep(n as nat),
{
    let mut v: Vec<u8> = Vec::new();
    push_dec(n, &mut v);
    proof {
        assert(v@ =~= dec_rep(n as nat));
    }
    v
}

/// The candidate source PNG for an identifier, inside the configuration
/// directory's grid folder.
pub open spec fn spec_grid_png_path(config_dir: Seq<u8>, app_id: u32) -> Seq<u8> {
    config_dir + ascii_bytes("grid\\"@) + dec_rep(app_id as nat) + ascii_bytes("p.png"@)
}

/// The candidate source JPG for an identifier.
pub open spec fn spec_grid_jpg_path(config_dir: Seq<u8>, app_id: u32) -> Seq<u8> {
    config_dir + ascii_bytes("grid\\"@) + dec_rep(app_id as nat) + ascii_bytes("p.jpg"@)
}

/// Name the candidate source PNG for an identifier.
pub fn grid_png_path(config_dir: &Vec<u8>, app_id: u32) -> (r: Vec<u8>)
    ensures
        r@ == spec_grid_png_path(config_dir@, app_id),
{
    proof {
        reveal_strlit("grid\\");
        reveal_strlit("p.png");
    }
    let mut r = concat_bytes(config_dir, &str_bytes("grid\\"));
    let digits = format_u32(app_id);
    crate::byteseq::append_bytes(&mut r, &digits);
    crate::byteseq::append_bytes(&mut r, &str_bytes("p.png"));
    proof {
        assert(r@ =~= spec_grid_png_path(config_dir@, app_id));
    }
    r
}

/// Name the candidate source JPG for an identifier.
pub fn grid_jpg_path(config_dir: &Vec<u8>, app_id: u32) -> (r: Vec<u8>)
    ensures
        r@ == spec_grid_jpg_path(config_dir@, app_id),
{
    proof {
        reveal_strlit("grid\\");
        reveal_strlit("p.jpg");
    }
    let mut r = concat_bytes(config_dir, &str_bytes("grid\\"));
    let digits = format_u32(app_id);
    crate::byteseq::append_bytes(&mut r, &digits);
    crate::byteseq::append_bytes(&mut r, &str_bytes("p.jpg"));
    proof {
        assert(r@ =~= spec_grid_jpg_path(config_dir@, app_id));
    }
    r
}

/// The artwork directory for a record: the streaming-assets folder named
/// by the sanitized display name, inside the destination folder.
pub open spec fn spec_asset_dir(dest: Seq<u8>, name: Seq<u8>) -> Seq<u8> {
    dest + ascii_bytes("StreamingAssets\\"@) + sanitize_spec(name)
}

/// The artwork file inside the artwork directory.
pub open spec fn spec_asset_path(dest: Seq<u8>, name: Seq<u8>) -> Seq<u8> {
    spec_asset_dir(dest, name) + ascii_bytes("\\box-art.png"@)
}

/// Name the artwork directory for a record's display name.
pub fn asset_dir(dest: &Vec<u8>, name: &Vec<u8>) -> (r: Vec<u8>)
    ensures
        r@ == spec_asset_dir(dest@, name@),
{
    proof {
        reveal_strlit("StreamingAssets\\");
    }
    let mut r = concat_bytes(dest, &str_bytes("StreamingAssets\\"));
    let sanitized = crate::sanitize::sanitize_name(name);
    crate::byteseq::append_bytes(&mut r, &sanitized);
    proof {
        assert(r@ =~= spec_asset_dir(dest@, name@));
    }
    r
}

/// Name the artwork file for a record's display name.
pub fn asset_path(dest: &Vec<u8>, name: &Vec<u8>) -> (r: Vec<u8>)
    ensures
        r@ == spec_asset_path(dest@, name@),
{
    proof {
        reveal_strlit("\\box-art.png");
    }
    let mut r = asset_dir(dest, name);
    crate::byteseq::append_bytes(&mut r, &str_bytes("\\box-art.png"));
    proof {
        assert(r@ =~= spec_asset_path(dest@, name@));
    }
    r
}

/// Where the artwork bytes come from, by the resolution precedence.
#[derive(PartialEq, Eq, Structural, Clone, Copy, Debug)]
pub enum AssetSource {
    /// The source PNG exists: its bytes are copied verbatim.
    PngCopy,
    /// Only the source JPG exists: its bytes are transcoded to PNG.
    JpgTranscode,
    /// Neither source exists: the bundled default asset is copied.
    DefaultCopy,
}

/// Pick the artwork source by strict precedence: the source PNG wins over
/// the source JPG, which wins over the bundled default; with no source of
/// any kind the configuration is defective.
pub fn resolve_asset_source(png_exists: bool, jpg_exists: bool, default_exists: bool) -> (r: Result<
    AssetSource,
    PipelineError,
>)
    ensures
        png_exists ==> r == Ok::<_, PipelineError>(AssetSource::PngCopy),
        !png_exists && jpg_exists ==> r == Ok::<_, PipelineError>(AssetSource::JpgTranscode),
        !png_exists && !jpg_exists && default_exists ==> r == Ok::<_, PipelineError>(
            AssetSource::DefaultCopy,
        ),
        !png_exists && !jpg_exists && !default_exists ==> r == Err::<AssetSource, _>(
            PipelineError::AssetMissing,
        ),
{
    if png_exists {
        Ok(AssetSource::PngCopy)
    } else if jpg_exists {
        Ok(AssetSource::JpgTranscode)
    } else if default_exists {
        Ok(AssetSource::DefaultCopy)
    } else {
        Err(PipelineError::AssetMissing)
    }
}

/// The PNG encoding of the image the bytes hold, when they hold one. The
/// result depends on the bytes alone.
pub uninterp spec fn png_transcode(b: Seq<u8>) -> Option<Seq<u8>>;

/// Relies on image::load_from_memory and image::DynamicImage::write_to with
/// the PNG format: decoding bytes into pixels and re-encoding them as PNG
/// depend on the input bytes alone, and fail exactly on bytes that hold no
/// decodable image.
#[verifier::external_body]
fn transcode_to_png(bytes: &Vec<u8>) -> (r: Result<Vec<u8>, ()>)
    ensures
        (r is Ok) == (png_transcode(bytes@) is Some),
        r is Ok ==> r->Ok_0@ == png_transcode(bytes@)->Some_0,
{
    let img = match image::load_from_memory(bytes) {
        Ok(i) => i,
        Err(_) => {
            return Err(());
        },
    };
    let mut out = std::io::Cursor::new(Vec::new());
    match img.write_to(&mut out, image::ImageFormat::Png) {
        Ok(()) => Ok(out.into_inner()),
        Err(_) => Err(()),
    }
}

/// Produce the artwork bytes to write for a chosen source. Bytes of a
/// copied source — the source PNG or the bundled default — pass through
/// unchanged, so the written file equals its source byte for byte. Bytes
/// of the JPG branch are transcoded to PNG, and bytes that hold no
/// decodable image are the one failure.
pub fn produce_asset_bytes(source: AssetSource, bytes: Vec<u8>) -> (r: Result<
    Vec<u8>,
    PipelineError,
>)
    ensures
        match source {
            AssetSource::JpgTranscode => match r {
                Ok(v) => png_transcode(bytes@) == Some(v@),
                Err(e) => e == PipelineError::ImageDecode && png_transcode(bytes@) is None,
            },
            _ => r is Ok && r->Ok_0@ == bytes@,
        },
{
    match source {
        AssetSource::JpgTranscode => match transcode_to_png(&bytes) {
            Ok(v) => Ok(v),
            Err(_) => Err(PipelineError::ImageDecode),
        },
        _ => Ok(bytes),
    }
}

} // verus!
