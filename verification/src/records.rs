//! The decoded form of one manifest entry: the five required fields of a
//! shortcut record, with byte-string text fields as they stand in the
//! manifest.

use vstd::prelude::*;

verus! {

/// One decoded shortcut record. Text fields are byte strings exactly as the
/// manifest stores them (no normalization, no case folding).
pub struct ShortcutRecord {
    /// Unsigned identifier, unique within a manifest.
    pub app_id: u32,
    /// Display text; may contain bytes illegal in file paths.
    pub app_name: Vec<u8>,
    /// The quoted command to launch, arguments included.
    pub exe: Vec<u8>,
    /// Working directory for launch.
    pub start_dir: Vec<u8>,
    /// Path to an icon resource.
    pub icon: Vec<u8>,
}

/// The mathematical model of a record.
#[verifier::ext_equal]
pub struct RecordView {
    pub app_id: u32,
    pub app_name: Seq<u8>,
    pub exe: Seq<u8>,
    pub start_dir: Seq<u8>,
    pub icon: Seq<u8>,
}

impl View for ShortcutRecord {
    type V = RecordView;

    open spec fn view(&self) -> RecordView {
        RecordView {
            app_id: self.app_id,
            app_name: self.app_name@,
            exe: self.exe@,
            start_dir: self.start_dir@,
            icon: self.icon@,
        }
    }
}

impl ShortcutRecord {
    /// A fresh record with the same fields.
    pub fn duplicate(&self) -> (r: Self)
        ensures
            r@ == self@,
    {
        let r = ShortcutRecord {
            app_id: self.app_id,
            app_name: crate::byteseq::copy_range(&self.app_name, 0, self.app_name.len()),
            exe: crate::byteseq::copy_range(&self.exe, 0, self.exe.len()),
            start_dir: crate::byteseq::copy_range(&self.start_dir, 0, self.start_dir.len()),
            icon: crate::byteseq::copy_range(&self.icon, 0, self.icon.len()),
        };
        proof {
            assert(self.app_name@.subrange(0, self.app_name@.len() as int) =~= self.app_name@);
            assert(self.exe@.subrange(0, self.exe@.len() as int) =~= self.exe@);
            assert(self.start_dir@.subrange(0, self.start_dir@.len() as int) =~= self.start_dir@);
            assert(self.icon@.subrange(0, self.icon@.len() as int) =~= self.icon@);
        }
        r
    }
}

} // verus!
