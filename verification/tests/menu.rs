use txtool::error::ToolError;
use txtool::menu::{Choice, Menu, ToolKind};

fn sample_menu() -> Menu {
    let mut menu = Menu::new();
    menu.add_choice(Choice::new("1", "Pixelate", ToolKind::Pixelate));
    menu.add_choice(Choice::new("2", "Apply Opacity Mask", ToolKind::ApplyOpacityMask));
    menu.add_choice(Choice::new("3", "Naive Crop", ToolKind::NaiveCrop));
    menu.add_choice(Choice::new("0", "Exit", ToolKind::Exit));
    menu
}

#[test]
fn menu_resolves_known_keys() {
    let menu = sample_menu();
    assert_eq!(menu.execute_choice_input("1"), Ok(ToolKind::Pixelate));
    assert_eq!(menu.execute_choice_input("2"), Ok(ToolKind::ApplyOpacityMask));
    assert_eq!(menu.execute_choice_input("3"), Ok(ToolKind::NaiveCrop));
    assert_eq!(menu.execute_choice_input("0"), Ok(ToolKind::Exit));
}

#[test]
fn menu_rejects_unknown_keys() {
    let menu = sample_menu();
    assert_eq!(menu.execute_choice_input("4"), Err(ToolError::InvalidSelection));
    assert_eq!(menu.execute_choice_input(""), Err(ToolError::InvalidSelection));
    assert_eq!(menu.execute_choice_input("11"), Err(ToolError::InvalidSelection));
}

#[test]
fn menu_returns_the_first_matching_choice() {
    let mut menu = Menu::new();
    menu.add_choice(Choice::new("1", "First", ToolKind::Pixelate));
    menu.add_choice(Choice::new("1", "Second", ToolKind::NaiveCrop));
    assert_eq!(menu.execute_choice_input("1"), Ok(ToolKind::Pixelate));
}

#[test]
fn get_choice_input_hands_back_the_choice() {
    let menu = sample_menu();
    let choice = menu.get_choice_input("2").unwrap();
    assert_eq!(choice.id, "2");
    assert_eq!(choice.label, "Apply Opacity Mask");
    assert_eq!(choice.execute(), ToolKind::ApplyOpacityMask);
}

#[test]
fn menu_renders_one_line_per_choice() {
    let menu = sample_menu();
    assert_eq!(
        menu.print_choices(),
        "1: Pixelate\n2: Apply Opacity Mask\n3: Naive Crop\n0: Exit\n"
    );
}

#[test]
fn choice_keeps_its_fields() {
    let c = Choice::new("9", "Label", ToolKind::Exit);
    assert_eq!(c.id, "9");
    assert_eq!(c.label, "Label");
    assert_eq!(c.method, ToolKind::Exit);
}
