//! Container sizes and their class names.

use vstd::prelude::*;

verus! {

/// The size of a page container.
#[derive(Debug, Clone, Copy, PartialEq, Eq, PartialOrd, Ord, Structural)]
pub enum ContainerSize {
    Normal,
    Small,
    Medium,
    Large,
    ExtraLarge,
    Fluid,
}

impl ContainerSize {
    /// The class name of a size.
    pub open spec fn class_name(self) -> Seq<char> {
        match self {
            ContainerSize::Normal => "container"@,
            ContainerSize::Small => "container-sm"@,
            ContainerSize::Medium => "container-md"@,
            ContainerSize::Large => "container-lg"@,
            ContainerSize::ExtraLarge => "container-xl"@,
            ContainerSize::Fluid => "container-fluid"@,
        }
    }

    /// The class name of a size.
    pub fn to_class(self) -> (name: &'static str)
        ensures
            name@ == self.class_name(),
    {
        match self {
            ContainerSize::Normal => "container",
            ContainerSize::Small => "container-sm",
            ContainerSize::Medium => "container-md",
            ContainerSize::Large => "container-lg",
            ContainerSize::ExtraLarge => "container-xl",
            ContainerSize::Fluid => "container-fluid",
        }
    }
}

impl Default for ContainerSize {
    /// The normal size.
    fn default() -> (size: ContainerSize)
        ensures
            size == ContainerSize::Normal,
    {
        ContainerSize::Normal
    }
}

} // verus!
