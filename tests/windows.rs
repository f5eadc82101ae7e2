use mudforge::windows::{SettingsCategory, WindowResizeTest};

#[test]
fn resize_test_starts_closed() {
    let w = WindowResizeTest::new();
    assert!(!w.auto_sized_open);
    assert!(!w.resizable_scroll_open);
    assert!(!w.resizable_embedded_scroll_open);
    assert!(!w.resizable_without_scroll_open);
    assert!(!w.resizable_with_text_edit_open);
    assert!(!w.freely_resized_open);
    assert_eq!(w.text, "Lorem ipsum dolor sit amet, consectetur adipiscing elit.");
}

#[test]
fn settings_default_to_style() {
    assert_eq!(SettingsCategory::default(), SettingsCategory::Style);
}
