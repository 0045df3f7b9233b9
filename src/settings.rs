use vstd::prelude::*;

verus! {

/// The user's settings.
pub struct AppSettings {
    pub editor: EditorSettings,
    pub sidebar_panel: String,
    pub sidebar_collapsed: bool,
    pub suppress_close_confirm: bool,
}

/// The editor's settings.
pub struct EditorSettings {
    pub vim_mode: bool,
    pub ligatures: bool,
    pub font_size: u32,
    pub tab_size: u32,
    pub word_wrap: bool,
    pub line_numbers: String,
    pub bracket_colors: bool,
    pub auto_save: bool,
    pub auto_save_delay: u32,
}

/// The value of a switch that is on unless set.
pub fn default_true() -> (r: bool)
    ensures
        r,
{
    true
}

/// The editor's font size unless set.
pub fn default_font_size() -> (r: u32)
    ensures
        r == 14,
{
    14
}

/// The editor's tab size unless set.
pub fn default_tab_size() -> (r: u32)
    ensures
        r == 2,
{
    2
}

/// The line-number mode unless set.
pub fn default_line_numbers() -> (r: String)
    ensures
        r@ == "on"@,
{
    "on".to_owned()
}

/// The auto-save delay in milliseconds unless set.
pub fn default_auto_save_delay() -> (r: u32)
    ensures
        r == 1000,
{
    1000
}

/// The sidebar panel unless set.
pub fn default_sidebar_panel() -> (r: String)
    ensures
        r@ == "explorer"@,
{
    "explorer".to_owned()
}

impl Default for EditorSettings {
    fn default() -> (r: Self)
        ensures
            !r.vim_mode && r.ligatures && r.font_size == 14 && r.tab_size == 2 && r.word_wrap
                && r.line_numbers@ == "on"@ && r.bracket_colors && !r.auto_save
                && r.auto_save_delay == 1000,
    {
        EditorSettings {
            vim_mode: false,
            ligatures: default_true(),
            font_size: default_font_size(),
            tab_size: default_tab_size(),
            word_wrap: default_true(),
            line_numbers: default_line_numbers(),
            bracket_colors: default_true(),
            auto_save: false,
            auto_save_delay: default_auto_save_delay(),
        }
    }
}

impl Default for AppSettings {
    fn default() -> (r: Self)
        ensures
            !r.editor.vim_mode && r.editor.ligatures && r.editor.font_size == 14
                && r.editor.tab_size == 2 && r.editor.word_wrap && r.editor.line_numbers@ == "on"@
                && r.editor.bracket_colors && !r.editor.auto_save && r.editor.auto_save_delay == 1000
                && r.sidebar_panel@ == "explorer"@ && !r.sidebar_collapsed
                && !r.suppress_close_confirm,
    {
        AppSettings {
            editor: EditorSettings::default(),
            sidebar_panel: default_sidebar_panel(),
            sidebar_collapsed: false,
            suppress_close_confirm: false,
        }
    }
}

} // verus!
