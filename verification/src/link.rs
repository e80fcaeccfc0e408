//! The link encoder's computation: wrapping a target path in quotation
//! marks, extracting the argument text from a record's executable path,
//! populating the link descriptor, naming the link file, and checking the
//! descriptor against the binary link format's field limits. Writing the
//! binary link file itself is the caller's part.

use vstd::prelude::*;

use vstd::string::StringExecFns;

use crate::byteseq::ascii_bytes;
use crate::byteseq::concat_bytes;
use crate::byteseq::copy_range;
use crate::byteseq::find_first_match;
use crate::byteseq::first_match;
use crate::byteseq::str_bytes;
use crate::records::ShortcutRecord;
use crate::sanitize::sanitize_spec;
use crate::PipelineError;

verus! {

/// The largest field length the binary link format can carry: its string
/// fields store their length in sixteen bits.
pub const MAX_LINK_FIELD_LEN: usize = 65535;

/// Surround text with one quotation mark on each side.
pub fn wrap_with_marks(text: &str) -> (r: String)
    ensures
        r@ == seq!['"'] + text@ + seq!['"'],
{
    proof {
        reveal_strlit("\"");
    }
    let mut res = String::from_str("\"");
    res.append(text);
    res.append("\"");
    proof {
        assert(res@ =~= seq!['"'] + text@ + seq!['"']);
    }
    res
}

/// A target path surrounded by one quotation mark on each side, as bytes.
pub open spec fn wrapped_bytes(target: Seq<u8>) -> Seq<u8> {
    seq![34u8] + target + seq![34u8]
}

/// Surround a target path with quotation marks, as bytes.
pub fn wrap_bytes(target: &Vec<u8>) -> (r: Vec<u8>)
    ensures
        r@ == wrapped_bytes(target@),
{
    let mut r: Vec<u8> = Vec::new();
    r.push(34);
    crate::byteseq::append_bytes(&mut r, target);
    r.push(34);
    proof {
        assert(r@ =~= wrapped_bytes(target@));
    }
    r
}

/// What argument extraction computes: the executable path with the first
/// occurrence of the quoted target removed; a path without the quoted
/// target passes through unchanged. Only the first occurrence is removed,
/// so a target that recurs in the argument text cannot corrupt it.
pub open spec fn spec_extract_arguments(exe: Seq<u8>, target: Seq<u8>) -> Seq<u8> {
    let w = wrapped_bytes(target);
    match first_match(exe, w, 0) {
        Some(i) => exe.subrange(0, i) + exe.subrange(i + w.len(), exe.len() as int),
        None => exe,
    }
}

/// Remove the first occurrence of the quoted target from the executable
/// path; what remains is the argument text, whitespace untouched.
pub fn extract_arguments(exe: &Vec<u8>, target: &Vec<u8>) -> (r: Vec<u8>)
    ensures
        r@ == spec_extract_arguments(exe@, target@),
{
    let w = wrap_bytes(target);
    match find_first_match(exe, &w) {
        Some(i) => {
            let el = exe.len();
            proof {
                crate::byteseq::lemma_first_match(exe@, w@, 0);
            }
            let mut head = copy_range(exe, 0, i);
            let tail = copy_range(exe, i + w.len(), el);
            crate::byteseq::append_bytes(&mut head, &tail);
            head
        },
        None => {
            let r = copy_range(exe, 0, exe.len());
            proof {
                assert(exe@.subrange(0, exe@.len() as int) =~= exe@);
            }
            r
        },
    }
}

/// The fields of one link artifact, ready for serialization.
pub struct LinkDescriptor {
    /// The literal executable file path the link points at.
    pub target: Vec<u8>,
    /// The argument text extracted from the record's executable path.
    pub arguments: Vec<u8>,
    /// The icon resource path.
    pub icon: Vec<u8>,
    /// The display name, unsanitized: display metadata, not a file name.
    pub display_name: Vec<u8>,
    /// The working directory for launch.
    pub working_dir: Vec<u8>,
}

/// The mathematical model of a link descriptor.
#[verifier::ext_equal]
pub struct DescriptorView {
    pub target: Seq<u8>,
    pub arguments: Seq<u8>,
    pub icon: Seq<u8>,
    pub display_name: Seq<u8>,
    pub working_dir: Seq<u8>,
}

impl View for LinkDescriptor {
    type V = DescriptorView;

    open spec fn view(&self) -> DescriptorView {
        DescriptorView {
            target: self.target@,
            arguments: self.arguments@,
            icon: self.icon@,
            display_name: self.display_name@,
            working_dir: self.working_dir@,
        }
    }
}

/// The descriptor a matched record yields for a target path.
pub open spec fn spec_descriptor(target: Seq<u8>, r: crate::records::RecordView) -> DescriptorView {
    DescriptorView {
        target: target,
        arguments: spec_extract_arguments(r.exe, target),
        icon: r.icon,
        display_name: r.app_name,
        working_dir: r.start_dir,
    }
}

/// Populate the link descriptor for one matched record: target path as
/// handed in, arguments extracted from the executable path, icon, display
/// name and working directory taken from the record.
pub fn build_descriptor(target: &Vec<u8>, record: &ShortcutRecord) -> (d: LinkDescriptor)
    ensures
        d@ == spec_descriptor(target@, record@),
{
    let d = LinkDescriptor {
        target: copy_range(target, 0, target.len()),
        arguments: extract_arguments(&record.exe, target),
        icon: copy_range(&record.icon, 0, record.icon.len()),
        display_name: copy_range(&record.app_name, 0, record.app_name.len()),
        working_dir: copy_range(&record.start_dir, 0, record.start_dir.len()),
    };
    proof {
        assert(target@.subrange(0, target@.len() as int) =~= target@);
        assert(record.icon@.subrange(0, record.icon@.len() as int) =~= record.icon@);
        assert(record.app_name@.subrange(0, record.app_name@.len() as int) =~= record.app_name@);
        assert(record.start_dir@.subrange(0, record.start_dir@.len() as int)
            =~= record.start_dir@);
        assert(d@ =~= spec_descriptor(target@, record@));
    }
    d
}

/// The link file's path: the destination folder text, the sanitized name,
/// and the link extension, concatenated.
pub open spec fn spec_lnk_path(dest: Seq<u8>, name: Seq<u8>) -> Seq<u8> {
    dest + sanitize_spec(name) + ascii_bytes(".lnk"@)
}

/// Name the link file for a record's display name inside the destination
/// folder.
pub fn lnk_path(dest: &Vec<u8>, name: &Vec<u8>) -> (r: Vec<u8>)
    ensures
        r@ == spec_lnk_path(dest@, name@),
{
    proof {
        reveal_strlit(".lnk");
    }
    let sanitized = crate::sanitize::sanitize_name(name);
    let mut r = concat_bytes(dest, &sanitized);
    let ext = str_bytes(".lnk");
    crate::byteseq::append_bytes(&mut r, &ext);
    proof {
        assert(r@ =~= spec_lnk_path(dest@, name@));
    }
    r
}

/// Every string field of the descriptor fits the link format's field limit.
pub open spec fn descriptor_encodable(d: DescriptorView) -> bool {
    d.target.len() <= 65535 && d.arguments.len() <= 65535 && d.icon.len() <= 65535
        && d.display_name.len() <= 65535 && d.working_dir.len() <= 65535
}

/// Check the descriptor against the link format's field limits; the
/// failure carries the length of the first field over the limit.
pub fn validate_descriptor(d: &LinkDescriptor) -> (r: Result<(), PipelineError>)
    ensures
        r is Ok <==> descriptor_encodable(d@),
        r is Err ==> (r->Err_0 matches PipelineError::Encode { field_len } && field_len > 65535),
{
    if d.target.len() > MAX_LINK_FIELD_LEN {
        Err(PipelineError::Encode { field_len: d.target.len() })
    } else if d.arguments.len() > MAX_LINK_FIELD_LEN {
        Err(PipelineError::Encode { field_len: d.arguments.len() })
    } else if d.icon.len() > MAX_LINK_FIELD_LEN {
        Err(PipelineError::Encode { field_len: d.icon.len() })
    } else if d.display_name.len() > MAX_LINK_FIELD_LEN {
        Err(PipelineError::Encode { field_len: d.display_name.len() })
    } else if d.working_dir.len() > MAX_LINK_FIELD_LEN {
        Err(PipelineError::Encode { field_len: d.working_dir.len() })
    } else {
        Ok(())
    }
}

} // verus!
