use cross_section_ui::title_block::{truncate_or_split, TitleBlockInfo, TitleBlockJson};

#[test]
fn test_title_block_info_builder() {
    let info = TitleBlockInfo::new()
        .with_project_name("テスト工事")
        .with_drawing_type("横断図")
        .with_route_name("市道1号線")
        .with_date("2024年1月1日")
        .with_scale("1:100")
        .with_drawing_number("1/3")
        .with_author("テスト太郎");

    assert_eq!(info.project_name, "テスト工事");
    assert_eq!(info.drawing_type, "横断図");
    assert_eq!(info.route_name, "市道1号線");
    assert_eq!(info.date, "2024年1月1日");
    assert_eq!(info.scale, "1:100");
    assert_eq!(info.drawing_number, "1/3");
    assert_eq!(info.author, "テスト太郎");
}

#[test]
fn test_truncate_or_split() {
    assert_eq!(truncate_or_split("短い文字列", 25), "短い文字列");
    assert_eq!(truncate_or_split("これは非常に長い工事名です 副題部分", 10), "これは非常に長い工事名です");
    let result = truncate_or_split("スペースなし長い文字列テスト", 10);
    assert_eq!(result.chars().count(), 10);
}

#[test]
fn new_title_block_is_empty() {
    let info = TitleBlockInfo::new();
    assert_eq!(info.project_name, "");
    assert_eq!(info.drawing_type, "");
    assert_eq!(info.route_name, "");
    assert_eq!(info.date, "");
    assert_eq!(info.scale, "");
    assert_eq!(info.drawing_number, "");
    assert_eq!(info.author, "");
    assert_eq!(info.top_title, "");
    assert_eq!(info.credit, "");
    assert!(!info.show_debug_markers);
}

#[test]
fn builders_set_only_their_field() {
    let info = TitleBlockInfo::new()
        .with_top_title("出来形管理用紙")
        .with_credit("Survey Office")
        .with_debug_markers(true);
    assert_eq!(info.top_title, "出来形管理用紙");
    assert_eq!(info.credit, "Survey Office");
    assert!(info.show_debug_markers);
    assert_eq!(info.project_name, "");
    let info = info.with_drawing_number("2/5").with_drawing_number("3/5");
    assert_eq!(info.drawing_number, "3/5");
    assert_eq!(info.top_title, "出来形管理用紙");
    let info = info.with_debug_markers(false);
    assert!(!info.show_debug_markers);
    assert_eq!(info.credit, "Survey Office");
}

#[test]
fn truncate_exact_length_is_kept() {
    assert_eq!(truncate_or_split("abcde", 5), "abcde");
    assert_eq!(truncate_or_split("", 0), "");
}

#[test]
fn truncate_splits_at_first_space_even_when_longer() {
    assert_eq!(truncate_or_split("abcdefgh ij kl", 4), "abcdefgh");
    assert_eq!(truncate_or_split(" leading", 3), "");
}

#[test]
fn truncate_cuts_without_space() {
    assert_eq!(truncate_or_split("abcdefgh", 3), "abc");
    assert_eq!(truncate_or_split("abcdefgh", 0), "");
}

#[test]
fn title_block_json_default_is_empty() {
    let t = TitleBlockJson::default();
    assert_eq!(t.project_name, "");
    assert_eq!(t.drawing_type, "");
    assert_eq!(t.route_name, "");
    assert_eq!(t.author, "");
    assert_eq!(t.date, "");
    assert_eq!(t.drawing_number, "");
}
