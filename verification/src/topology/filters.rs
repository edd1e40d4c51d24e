//! Type filtering policies, controlling which object types are kept when a
//! topology is built.

use vstd::prelude::*;

verus! {

/// Type filtering flags.
///
/// By default, most objects are kept ([`Filter::KeepAll`]). Instruction
/// caches, I/O and Misc objects are ignored by default ([`Filter::KeepNone`]).
/// Die and Group levels are ignored unless they bring structure
/// ([`Filter::KeepStructure`]).
///
/// Note that group objects are also ignored individually (without the entire
/// level) when they do not bring structure.
#[derive(Debug, Clone, Copy, Hash, PartialEq, Eq, Structural)]
pub enum Filter {
    /// Keep all objects of this type.
    ///
    /// Cannot be set for [`ObjectType::Group`] (groups are designed only to
    /// add more structure to the topology).
    ///
    /// [`ObjectType::Group`]: crate::types::ObjectType::Group
    KeepAll,
    /// Ignore all objects of this type.
    ///
    /// The bottom-level type [`ObjectType::PU`], the [`ObjectType::NumaNode`]
    /// type, and the top-level type [`ObjectType::Machine`] may not be ignored.
    ///
    /// [`ObjectType::PU`]: crate::types::ObjectType::PU
    /// [`ObjectType::NumaNode`]: crate::types::ObjectType::NumaNode
    /// [`ObjectType::Machine`]: crate::types::ObjectType::Machine
    KeepNone,
    /// Only ignore objects if their entire level does not bring any structure.
    ///
    /// Keep the entire level of objects if at least one of these objects adds
    /// structure to the topology. An object brings structure when it has
    /// multiple children and it is not the only child of its parent.
    ///
    /// Cannot be set for I/O and Misc objects since the topology structure
    /// does not matter there.
    KeepStructure,
    /// Only keep likely-important objects of the given type.
    ///
    /// It is only useful for I/O object types: for PCI and OS devices it means
    /// that only objects of major kinds are kept, and for bridges that they
    /// are kept only if they have children. It is equivalent to
    /// [`Filter::KeepAll`] for Normal, Memory and Misc types since they are
    /// likely important.
    KeepImportant,
}

impl Filter {
    /// The integer code of this filter.
    pub open spec fn spec_code(self) -> u32 {
        match self {
            Filter::KeepAll => 0,
            Filter::KeepNone => 1,
            Filter::KeepStructure => 2,
            Filter::KeepImportant => 3,
        }
    }

    /// The integer code of this filter.
    pub fn to_u32(self) -> (r: u32)
        ensures
            r == self.spec_code(),
    {
        match self {
            Filter::KeepAll => 0,
            Filter::KeepNone => 1,
            Filter::KeepStructure => 2,
            Filter::KeepImportant => 3,
        }
    }

    /// The filter with integer code `v`, or `None` if no filter has that code.
    pub fn from_u32(v: u32) -> (r: Option<Filter>)
        ensures
            match r {
                Some(f) => f.spec_code() == v,
                None => forall|f: Filter| f.spec_code() != v,
            },
    {
        match v {
            0 => Some(Filter::KeepAll),
            1 => Some(Filter::KeepNone),
            2 => Some(Filter::KeepStructure),
            3 => Some(Filter::KeepImportant),
            _ => None,
        }
    }

    /// The name of this filter, as it is usually displayed.
    pub fn name(&self) -> (r: &'static str)
        ensures
            match self {
                Filter::KeepAll => r@ == "Filter::KeepAll"@,
                Filter::KeepNone => r@ == "Filter::KeepNone"@,
                Filter::KeepStructure => r@ == "Filter::KeepStructure"@,
                Filter::KeepImportant => r@ == "Filter::KeepImportant"@,
            },
    {
        match self {
            Filter::KeepAll => "Filter::KeepAll",
            Filter::KeepNone => "Filter::KeepNone",
            Filter::KeepStructure => "Filter::KeepStructure",
            Filter::KeepImportant => "Filter::KeepImportant",
        }
    }
}

} // verus!
