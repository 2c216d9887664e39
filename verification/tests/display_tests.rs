use groupie::{Config, WindowData};

fn window(title: &str, app: &str, active: bool, group_index: usize) -> WindowData {
    WindowData {
        title: title.to_string(),
        app_name: app.to_string(),
        active,
        group_index,
    }
}

#[test]
fn test_angular_brackets_sanitize() {
    assert_eq!(WindowData::sanitize_text("Mozilla Firefox: <>"), "Mozilla Firefox: ");
}

#[test]
fn sanitize_keeps_plain_text() {
    assert_eq!(WindowData::sanitize_text("plain text"), "plain text");
    assert_eq!(WindowData::sanitize_text("<<<>>>"), "");
    assert_eq!(WindowData::sanitize_text("a<b>c"), "abc");
}

#[test]
fn body_exactly_at_budget_is_untouched() {
    // body is "ab: cd", visible length 6
    let w = window("cd", "ab", false, 0);
    assert_eq!(w.display_formatted_text(6), "ab: cd");
}

#[test]
fn body_one_over_budget_gets_ellipsis() {
    // body is "ab: cd", visible length 6, budget 5: keep 2 chars, add dots
    let w = window("cd", "ab", false, 0);
    assert_eq!(w.display_formatted_text(5), "ab...");
}

#[test]
fn short_body_is_centred_with_floored_padding() {
    // body "a: b" has length 4; width 8 leaves 4, so 2 spaces each side
    let w = window("b", "a", false, 0);
    assert_eq!(w.display_formatted_text(8), "  a: b  ");
    // width 9 leaves 5: floor(5 / 2) = 2 on each side, the odd char dropped
    assert_eq!(w.display_formatted_text(9), "  a: b  ");
}

#[test]
fn app_suffix_is_stripped_from_title() {
    let w = window("Some Page - Surf", "Surf", false, 0);
    assert_eq!(w.display_formatted_text(15), "Surf: Some Page");
}

#[test]
fn suffix_strip_is_exact_match_only() {
    let w = window("Some Page -Surf", "Surf", false, 0);
    assert_eq!(w.display_formatted_text(21), "Surf: Some Page -Surf");
}

#[test]
fn invisible_characters_do_not_count_or_appear() {
    // the tab and the emoji are discarded before measuring
    let w = window("a\tb\u{1F600}", "x", false, 0);
    assert_eq!(w.display_formatted_text(5), "x: ab");
}

#[test]
fn active_window_body_is_bold_wrapped() {
    let w = window("cd", "ab", true, 0);
    assert_eq!(w.display_formatted_text(6), "<b>ab: cd</b>");
}

#[test]
fn angle_brackets_in_title_are_removed() {
    // sanitization runs after fitting: "<>" counts for the budget but
    // never reaches the output
    let w = window("<>", "Mozilla Firefox", false, 0);
    assert_eq!(w.display_formatted_text(19), "Mozilla Firefox: ");
}

#[test]
fn span_wrap_carries_line_height_and_colors() {
    let cfg = Config::default();
    let w = window("cd", "ab", false, 0);
    assert_eq!(
        w.as_display_str(&cfg, 6),
        "<tt><span line_height=\"1\" background=\"#99999966\"> ab: cd </span></tt>"
    );
    let aw = window("cd", "ab", true, 0);
    assert_eq!(
        aw.as_display_str(&cfg, 6),
        "<tt><span line_height=\"1\" background=\"#FFFFFF66\"> <b>ab: cd</b> </span></tt>"
    );
}

#[test]
fn background_color_follows_activity() {
    let cfg = Config::default();
    assert_eq!(window("t", "a", true, 0).display_background_color(&cfg), "#FFFFFF66");
    assert_eq!(window("t", "a", false, 0).display_background_color(&cfg), "#99999966");
}

#[test]
fn empty_snapshot_formats_to_empty_text() {
    let mut cfg = Config::default();
    cfg.empty_text = "nothing here".to_string();
    let windows: Vec<WindowData> = Vec::new();
    assert_eq!(groupie::format_line(&windows, &cfg), "nothing here");
}

#[test]
fn single_window_line_has_no_separator() {
    let cfg = Config::default();
    let windows = vec![window("cd", "ab", false, 0)];
    let line = groupie::format_line(&windows, &cfg);
    assert!(!line.contains(" || "));
    assert!(line.starts_with("<tt><span"));
}

#[test]
fn two_window_line_joins_with_separator() {
    let mut cfg = Config::default();
    cfg.width = 20;
    let windows = vec![window("cd", "ab", false, 0), window("gh", "ef", true, 1)];
    let line = groupie::format_line(&windows, &cfg);
    // 20 wide minus one 4-char separator leaves 8 per window
    let expected = format!(
        "{}{}{}",
        "<tt><span line_height=\"1\" background=\"#99999966\">  ab: cd  </span></tt>",
        " || ",
        "<tt><span line_height=\"1\" background=\"#FFFFFF66\"> <b> ef: gh </b> </span></tt>",
    );
    assert_eq!(line, expected);
}

#[test]
fn line_length_stays_within_width_plus_markup() {
    let mut cfg = Config::default();
    cfg.width = 30;
    let windows = vec![
        window("a very long title indeed", "app", false, 0),
        window("b", "app2", true, 1),
    ];
    let line = groupie::format_line(&windows, &cfg);
    // per window the markup adds at most 60 fixed characters plus the
    // line-height value (1) and the wider colour value (9)
    assert!(line.chars().count() <= 30 + 2 * 70);
}

#[test]
fn checked_formatting_rejects_too_small_width() {
    let mut cfg = Config::default();
    cfg.width = 9;
    // two windows need one 4-char separator plus 3 characters each
    let windows = vec![window("a", "b", false, 0), window("c", "d", false, 1)];
    assert!(groupie::format_line_checked(&windows, &cfg).is_none());
    cfg.width = 10;
    assert!(groupie::format_line_checked(&windows, &cfg).is_some());
}
