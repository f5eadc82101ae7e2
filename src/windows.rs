use vstd::prelude::*;

verus! {

/// Which page the settings window shows.
#[derive(Clone, Copy, Debug, PartialEq, Eq, Structural)]
pub enum SettingsCategory {
    Style,
    Appearance,
}

impl Default for SettingsCategory {
    fn default() -> (c: Self)
        ensures
            c == SettingsCategory::Style,
    {
        SettingsCategory::Style
    }
}

/// Which of the resizing demo windows are open, and the text they show.
#[derive(Clone, Debug, Default)]
pub struct WindowResizeTest {
    pub auto_sized_open: bool,
    pub resizable_scroll_open: bool,
    pub resizable_embedded_scroll_open: bool,
    pub resizable_without_scroll_open: bool,
    pub resizable_with_text_edit_open: bool,
    pub freely_resized_open: bool,
    pub text: String,
}

impl WindowResizeTest {
    /// All windows closed, with the sample text.
    pub fn new() -> (w: Self)
        ensures
            !w.auto_sized_open,
            !w.resizable_scroll_open,
            !w.resizable_embedded_scroll_open,
            !w.resizable_without_scroll_open,
            !w.resizable_with_text_edit_open,
            !w.freely_resized_open,
            w.text@ == "Lorem ipsum dolor sit amet, consectetur adipiscing elit."@,
    {
        WindowResizeTest {
            auto_sized_open: false,
            resizable_scroll_open: false,
            resizable_embedded_scroll_open: false,
            resizable_without_scroll_open: false,
            resizable_with_text_edit_open: false,
            freely_resized_open: false,
            text: "Lorem ipsum dolor sit amet, consectetur adipiscing elit.".to_owned(),
        }
    }
}

} // verus!
