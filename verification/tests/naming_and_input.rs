use txtool::batch::policy_for;
use txtool::error::ToolError;
use txtool::menu::ToolKind;
use txtool::utils::{
    derive_output_path, derive_output_path_with_override, parse_boolean_input, parse_u32,
    trim_line_breaks,
};

#[test]
fn output_path_with_prefix() {
    assert_eq!(derive_output_path("dir/photo.png", false, "pixelated"), "dir/pixelated_photo.png");
}

#[test]
fn output_path_overwriting() {
    assert_eq!(derive_output_path("dir/photo.png", true, "pixelated"), "dir/photo.png");
}

#[test]
fn output_path_nested_directories() {
    assert_eq!(derive_output_path("a/b/c.bmp", false, "cropped"), "a/b/cropped_c.bmp");
}

#[test]
fn output_path_without_directory_uses_current() {
    assert_eq!(derive_output_path("photo.png", false, "cropped"), "./cropped_photo.png");
}

#[test]
fn output_path_forced_extension_replaces_source_extension() {
    assert_eq!(
        derive_output_path_with_override("dir/photo.jpg", false, "masked", "png"),
        "dir/masked_photo.png"
    );
}

#[test]
fn output_path_forced_extension_applies_when_overwriting() {
    assert_eq!(
        derive_output_path_with_override("dir/photo.jpg", true, "masked", "png"),
        "dir/photo.png"
    );
}

#[test]
fn output_path_strips_only_the_last_extension() {
    assert_eq!(
        derive_output_path_with_override("dir/photo.tar.gz", false, "masked", "png"),
        "dir/masked_photo.tar.png"
    );
}

#[test]
fn policies_fix_prefix_and_extension_per_tool() {
    let p = policy_for(ToolKind::Pixelate, false);
    assert_eq!(p.output_path("dir/photo.png"), "dir/pixelated_photo.png");
    let m = policy_for(ToolKind::ApplyOpacityMask, false);
    assert_eq!(m.output_path("dir/photo.jpg"), "dir/masked_photo.png");
    let c = policy_for(ToolKind::NaiveCrop, true);
    assert_eq!(c.output_path("dir/photo.png"), "dir/photo.png");
}

#[test]
fn parse_u32_reads_decimal_numbers() {
    assert_eq!(parse_u32("0"), Ok(0));
    assert_eq!(parse_u32("12"), Ok(12));
    assert_eq!(parse_u32("0016"), Ok(16));
    assert_eq!(parse_u32("4294967295"), Ok(u32::MAX));
}

#[test]
fn parse_u32_rejects_bad_input() {
    assert_eq!(parse_u32(""), Err(ToolError::InvalidParameter));
    assert_eq!(parse_u32("a1"), Err(ToolError::InvalidParameter));
    assert_eq!(parse_u32("1a"), Err(ToolError::InvalidParameter));
    assert_eq!(parse_u32("-3"), Err(ToolError::InvalidParameter));
    assert_eq!(parse_u32("4294967296"), Err(ToolError::InvalidParameter));
    assert_eq!(parse_u32("99999999999999999999"), Err(ToolError::InvalidParameter));
}

#[test]
fn boolean_answers_are_exactly_the_four_accepted_letters() {
    assert_eq!(parse_boolean_input("y"), Ok(true));
    assert_eq!(parse_boolean_input("Y"), Ok(true));
    assert_eq!(parse_boolean_input("n"), Ok(false));
    assert_eq!(parse_boolean_input("N"), Ok(false));
    assert_eq!(parse_boolean_input("yes"), Err(ToolError::InvalidInput));
    assert_eq!(parse_boolean_input(""), Err(ToolError::InvalidInput));
    assert_eq!(parse_boolean_input("Ny"), Err(ToolError::InvalidInput));
}

#[test]
fn trim_drops_trailing_line_breaks_only() {
    assert_eq!(trim_line_breaks("abc\r\n"), "abc");
    assert_eq!(trim_line_breaks("abc\n"), "abc");
    assert_eq!(trim_line_breaks("abc"), "abc");
    assert_eq!(trim_line_breaks("a\nb\n"), "a\nb");
    assert_eq!(trim_line_breaks("\r\n"), "");
    assert_eq!(trim_line_breaks(""), "");
}
