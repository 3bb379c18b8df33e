use fjord::themes::{DarkPlus, Gruvbox, HighlightGroup, Rgb, Seoul, Style, Theme};

#[test]
fn gruvbox_keywords_are_bold_red() {
    assert_eq!(
        Gruvbox.style(HighlightGroup::CtrlFlowKeyword),
        Style {
            fg_color: Some(Rgb { r: 251, g: 73, b: 52 }),
            bg_color: None,
            is_bold: true,
            is_italic: false,
            is_underline: false,
        }
    );
    assert_eq!(Gruvbox.style(HighlightGroup::Error).is_underline, true);
}

#[test]
fn default_styles_set_both_colours() {
    let s = Seoul.default_style();
    assert_eq!(s.fg_color, Rgb { r: 217, g: 217, b: 217 });
    assert_eq!(s.bg_color, Rgb { r: 75, g: 75, b: 75 });
    assert_eq!(DarkPlus.default_style().bg_color, Rgb { r: 30, g: 30, b: 30 });
}

#[test]
fn seoul_tells_keywords_apart() {
    assert_ne!(Seoul.style(HighlightGroup::CtrlFlowKeyword), Seoul.style(HighlightGroup::OtherKeyword));
    assert_eq!(Seoul.style(HighlightGroup::FunctionDef), Seoul.style(HighlightGroup::FunctionCall));
}
