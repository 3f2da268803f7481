//! User preferences of the application.
use vstd::prelude::*;

use crate::i18n::Language;
use crate::models::WireStyle;

verus! {

/// The colour theme of the interface.
#[derive(Debug, Clone, Copy, PartialEq, Eq, Structural)]
pub enum AppTheme {
    Dark,
    Light,
}

/// The preferences that are kept between sessions.
#[derive(Debug, Clone, Copy, PartialEq, Eq, Structural)]
pub struct AppSettings {
    pub language: Language,
    pub theme: AppTheme,
    pub minimap_show_links: bool,
    pub snap_to_grid: bool,
    pub default_wire_style: WireStyle,
}

/// The value a boolean preference takes when the stored settings lack it.
pub fn default_true() -> (r: bool)
    ensures
        r,
{
    true
}

impl Default for AppSettings {
    fn default() -> (r: Self)
        ensures
            r == (AppSettings {
                language: Language::Ru,
                theme: AppTheme::Dark,
                minimap_show_links: true,
                snap_to_grid: true,
                default_wire_style: WireStyle::Curved,
            }),
    {
        AppSettings {
            language: Language::Ru,
            theme: AppTheme::Dark,
            minimap_show_links: true,
            snap_to_grid: true,
            default_wire_style: WireStyle::Curved,
        }
    }
}

} // verus!
