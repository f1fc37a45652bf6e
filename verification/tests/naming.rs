use rusteze::channels::add_category_emoji;
use rusteze::daemons::minecraft::{choose_team, Color};

#[test]
fn category_titles_carry_year_emoji() {
    assert_eq!(add_category_emoji("1", "ALGEBRA"), "\u{1F4DA} ALGEBRA");
    assert_eq!(add_category_emoji("2", "SO"), "\u{1F4D7} SO");
    assert_eq!(add_category_emoji("3", "BD"), "\u{1F4D8} BD");
    assert_eq!(add_category_emoji("4", "ASOR"), "\u{1F4D9} ASOR");
    assert_eq!(add_category_emoji("5", "PI"), "\u{1F4D3} PI");
}

#[test]
fn unknown_year_gets_no_emoji() {
    assert_eq!(add_category_emoji("6", "ALGEBRA"), "ALGEBRA");
    assert_eq!(add_category_emoji("", "ALGEBRA"), "ALGEBRA");
    assert_eq!(add_category_emoji("12", "ALGEBRA"), "ALGEBRA");
}

#[test]
fn category_titles_are_trimmed() {
    assert_eq!(add_category_emoji("9", "  ALGEBRA  "), "ALGEBRA");
    assert_eq!(add_category_emoji("1", "ALGEBRA \n"), "\u{1F4DA} ALGEBRA");
    assert_eq!(add_category_emoji("1", ""), "\u{1F4DA}");
    assert_eq!(add_category_emoji("1", "   "), "\u{1F4DA}");
    assert_eq!(add_category_emoji("7", ""), "");
}

#[test]
fn trimming_covers_unicode_whitespace() {
    // str::trim's whole White_Space set is removed, not just ASCII spacing
    assert_eq!(add_category_emoji("1", "ABC\u{00A0}"), "\u{1F4DA} ABC");
    assert_eq!(add_category_emoji("9", "\u{2009}ABC\u{3000}"), "ABC");
    assert_eq!(add_category_emoji("9", "\u{1680}\u{2028}\u{205F}"), "");
    assert_eq!(add_category_emoji("1", "\u{0085}\u{202F}"), "\u{1F4DA}");
    // inner whitespace stays
    assert_eq!(add_category_emoji("9", " A\u{00A0}B "), "A\u{00A0}B");
}

#[test]
fn recognised_role_colors() {
    assert_eq!(Color::from_rgb((0xff, 0x4c, 0x4c)), Some(Color::Red));
    assert_eq!(Color::from_rgb((0x00, 0xf4, 0xff)), Some(Color::Cyan));
    assert_eq!(Color::from_rgb((0xff, 0x7a, 0x00)), Some(Color::Orange));
    assert_eq!(Color::from_rgb((0xf1, 0xc4, 0x0f)), Some(Color::Yellow));
    assert_eq!(Color::from_rgb((0x34, 0x98, 0xdb)), Some(Color::Blue));
    assert_eq!(Color::from_rgb((0x2e, 0xcc, 0x71)), Some(Color::Green));
    assert_eq!(Color::from_rgb((0x84, 0x3d, 0xa4)), Some(Color::Purple));
    assert_eq!(Color::from_rgb((0x01, 0x01, 0x01)), Some(Color::Black));
    assert_eq!(Color::from_rgb((0x12, 0x34, 0x56)), None);
}

#[test]
fn team_names_follow_colors() {
    assert_eq!(Color::Red.team_name(), "sudoers");
    assert_eq!(Color::Cyan.team_name(), "cool_kids");
    assert_eq!(Color::Orange.team_name(), "cesium");
    assert_eq!(Color::Yellow.team_name(), "4ano");
    assert_eq!(Color::Blue.team_name(), "3ano");
    assert_eq!(Color::Green.team_name(), "2ano");
    assert_eq!(Color::Purple.team_name(), "1ano");
    assert_eq!(Color::Black.team_name(), "blacklist");
}

#[test]
fn team_choice_takes_highest_priority_color() {
    let colors = vec![
        (0x84, 0x3d, 0xa4), // purple
        (0x10, 0x20, 0x30), // unrecognised
        (0x00, 0xf4, 0xff), // cyan, highest priority present
        (0x2e, 0xcc, 0x71), // green
    ];
    assert_eq!(choose_team(&colors), Some(Color::Cyan));
    assert_eq!(choose_team(&vec![(1, 2, 3)]), None);
    assert_eq!(choose_team(&Vec::new()), None);
}
