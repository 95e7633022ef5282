//! Background styles and their class names.

use vstd::prelude::*;

verus! {

/// A background style.
#[derive(Debug, Clone, Copy, PartialEq, Eq, PartialOrd, Ord, Structural)]
pub enum Background {
    Unset,
    Success,
    Info,
    Warning,
    Danger,
    Primary,
    Light,
    Dark,
}

impl Background {
    /// The class name of a style; `Unset` has none.
    pub open spec fn class_name(self) -> Option<Seq<char>> {
        match self {
            Background::Unset => None,
            Background::Success => Some("bg-success"@),
            Background::Info => Some("bg-info"@),
            Background::Warning => Some("bg-warning"@),
            Background::Danger => Some("bg-danger"@),
            Background::Primary => Some("bg-primary"@),
            Background::Light => Some("bg-light"@),
            Background::Dark => Some("bg-dark"@),
        }
    }

    /// The class name of a style; `Unset` has none.
    pub fn as_str(self) -> (name: Option<&'static str>)
        ensures
            match name {
                Some(s) => self.class_name() == Some(s@),
                None => self == Background::Unset,
            },
    {
        match self {
            Background::Unset => None,
            Background::Success => Some("bg-success"),
            Background::Info => Some("bg-info"),
            Background::Warning => Some("bg-warning"),
            Background::Danger => Some("bg-danger"),
            Background::Primary => Some("bg-primary"),
            Background::Light => Some("bg-light"),
            Background::Dark => Some("bg-dark"),
        }
    }
}

impl Default for Background {
    /// No background.
    fn default() -> (style: Background)
        ensures
            style == Background::Unset,
    {
        Background::Unset
    }
}

} // verus!
