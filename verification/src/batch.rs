//! The batch rules shared by every run: each tool's failure scope and
//! naming policy, and the output path derived for each source file.

use vstd::prelude::*;

use crate::error::FailureScope;
use crate::menu::ToolKind;
use crate::utils::{
    derive_output_path, derive_output_path_with_override, last_index_of, spec_file_name,
    spec_output_path, spec_output_path_with_override,
};

verus! {

/// How a precondition failure of each tool affects the batch: the
/// pixelate and mask transforms end the whole run, while the crop
/// transform only skips the offending file.
pub fn failure_scope(tool: ToolKind) -> (s: FailureScope)
    ensures
        s == (if tool == ToolKind::NaiveCrop {
            FailureScope::PerFileSkip
        } else {
            FailureScope::BatchFatal
        }),
{
    match tool {
        ToolKind::NaiveCrop => FailureScope::PerFileSkip,
        _ => FailureScope::BatchFatal,
    }
}

/// The naming rules one batch run applies to every file it writes:
/// whether sources are overwritten, the tool's fixed name prefix, and,
/// for the mask tool only, the forced output extension.
pub struct OutputPolicy {
    pub overwrite: bool,
    pub prefix: String,
    pub forced_extension: Option<String>,
}

/// The naming policy of one tool. The mask tool forces a lossless,
/// alpha-capable output encoding, so its extension replaces the
/// source's; the other tools keep the source's extension.
pub fn policy_for(tool: ToolKind, overwrite: bool) -> (p: OutputPolicy)
    requires
        tool != ToolKind::Exit,
    ensures
        p.overwrite == overwrite,
        tool == ToolKind::Pixelate ==> p.prefix@ == "pixelated"@ && p.forced_extension is None,
        tool == ToolKind::ApplyOpacityMask ==> p.prefix@ == "masked"@ && p.forced_extension is Some
            && p.forced_extension->0@ == "png"@,
        tool == ToolKind::NaiveCrop ==> p.prefix@ == "cropped"@ && p.forced_extension is None,
{
    match tool {
        ToolKind::Pixelate => OutputPolicy {
            overwrite,
            prefix: String::from_str("pixelated"),
            forced_extension: None,
        },
        ToolKind::ApplyOpacityMask => OutputPolicy {
            overwrite,
            prefix: String::from_str("masked"),
            forced_extension: Some(String::from_str("png")),
        },
        _ => OutputPolicy {
            overwrite,
            prefix: String::from_str("cropped"),
            forced_extension: None,
        },
    }
}

impl OutputPolicy {
    /// The output path this policy derives for one source path. When the
    /// policy forces an extension, the source file name must have an
    /// extension to strip; the caller checks that before calling.
    pub fn output_path(&self, source_path: &str) -> (r: String)
        requires
            self.forced_extension is Some ==> last_index_of(spec_file_name(source_path@), '.')
                >= 0,
        ensures
            self.forced_extension is None ==> r@ == spec_output_path(
                source_path@,
                self.overwrite,
                self.prefix@,
            ),
            self.forced_extension is Some ==> r@ == spec_output_path_with_override(
                source_path@,
                self.overwrite,
                self.prefix@,
                self.forced_extension->0@,
            ),
    {
        match &self.forced_extension {
            None => derive_output_path(source_path, self.overwrite, self.prefix.as_str()),
            Some(ext) => derive_output_path_with_override(
                source_path,
                self.overwrite,
                self.prefix.as_str(),
                ext.as_str(),
            ),
        }
    }
}

} // verus!
