use cross_section_ui::drawing_ir::{
    aci_to_rgb, color_to_css, DefaultFontMetrics, HAlign, VAlign, CAP_HEIGHT, TYPO_ASCENDER, TYPO_DESCENDER,
    UNITS_PER_EM,
};

#[test]
fn test_aci_to_color32() {
    assert_eq!(aci_to_rgb(1), (255, 0, 0));
    assert_eq!(aci_to_rgb(7), (0, 0, 0));
    assert_eq!(aci_to_rgb(999), (100, 100, 100));
}

#[test]
fn aci_colors_all_indices() {
    assert_eq!(aci_to_rgb(2), (255, 255, 0));
    assert_eq!(aci_to_rgb(3), (0, 255, 0));
    assert_eq!(aci_to_rgb(4), (0, 255, 255));
    assert_eq!(aci_to_rgb(5), (0, 0, 255));
    assert_eq!(aci_to_rgb(6), (255, 0, 255));
    assert_eq!(aci_to_rgb(8), (128, 128, 128));
    assert_eq!(aci_to_rgb(9), (192, 192, 192));
    assert_eq!(aci_to_rgb(0), (100, 100, 100));
    assert_eq!(aci_to_rgb(-1), (100, 100, 100));
}

#[test]
fn test_scale_factor() {
    let scale = UNITS_PER_EM as f64 / CAP_HEIGHT as f64;
    assert!((scale - 1.364).abs() < 0.001);
}

#[test]
fn font_metrics_values() {
    assert_eq!(DefaultFontMetrics.cap_height_scale(), (1000, 733));
    assert_eq!(TYPO_ASCENDER - TYPO_DESCENDER, 1000);
}

#[test]
fn alignments_compare() {
    assert_eq!(HAlign::Left, HAlign::Left);
    assert_ne!(HAlign::Left, HAlign::Right);
    assert_ne!(VAlign::Top, VAlign::Bottom);
    assert_eq!(VAlign::Middle, VAlign::Middle);
}

#[test]
fn css_colors() {
    assert_eq!(color_to_css(1), "#ff0000");
    assert_eq!(color_to_css(5), "#0000ff");
    assert_eq!(color_to_css(7), "#ffffff");
    assert_eq!(color_to_css(0), "#ffffff");
    assert_eq!(color_to_css(9), "#c0c0c0");
    assert_eq!(color_to_css(256), "#ffffff");
}
