//! The two themes.

use vstd::prelude::*;

verus! {

#[derive(Debug, Clone, Copy, PartialEq, Eq, Structural)]
pub enum AppTheme {
    Dark,
    Light,
}

pub open spec fn other_theme(t: AppTheme) -> AppTheme {
    match t {
        AppTheme::Dark => AppTheme::Light,
        AppTheme::Light => AppTheme::Dark,
    }
}

impl AppTheme {
    /// Switches to the other theme.
    pub fn toggle(&mut self)
        ensures
            *final(self) == other_theme(*old(self)),
    {
        *self = match self {
            AppTheme::Dark => AppTheme::Light,
            AppTheme::Light => AppTheme::Dark,
        };
    }

    pub fn name(&self) -> (r: &'static str)
        ensures
            r@ == (match self {
                AppTheme::Dark => "Dark"@,
                AppTheme::Light => "Light"@,
            }),
    {
        match self {
            AppTheme::Dark => "Dark",
            AppTheme::Light => "Light",
        }
    }

    /// The icon of the button that switches away from this theme.
    pub fn icon(&self) -> (r: &'static str)
        ensures
            r@ == (match self {
                AppTheme::Dark => "☀️"@,
                AppTheme::Light => "🌙"@,
            }),
    {
        match self {
            AppTheme::Dark => "☀️",
            AppTheme::Light => "🌙",
        }
    }
}

impl Default for AppTheme {
    fn default() -> (r: Self)
        ensures
            r == AppTheme::Dark,
    {
        AppTheme::Dark
    }
}

/// Switching twice gives the theme back.
pub proof fn lemma_toggle_twice(t: AppTheme)
    ensures
        other_theme(other_theme(t)) == t,
{
}

} // verus!
