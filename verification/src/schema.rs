//! The fields of a stored edge, each as a type of its own.

use crate::column::FieldEnum;
use vstd::prelude::*;

verus! {

/// A field of a stored edge.
pub trait Field: Copy {
    /// The field among all fields.
    spec fn field_enum(&self) -> FieldEnum;

    /// The field among all fields.
    fn as_enum(&self) -> (r: FieldEnum)
        ensures
            r == self.field_enum(),
    ;
}

/// The identity of the page that a link starts from.
#[derive(Clone, Copy, Debug)]
pub struct FromId;

/// The identity of the page that a link points to.
#[derive(Clone, Copy, Debug)]
pub struct ToId;

/// The identity of the host that a link starts from.
#[derive(Clone, Copy, Debug)]
pub struct FromHostId;

/// The identity of the host that a link points to.
#[derive(Clone, Copy, Debug)]
pub struct ToHostId;

/// The flags of a link.
#[derive(Clone, Copy, Debug)]
pub struct RelFlags;

/// The score by which links are ranked.
#[derive(Clone, Copy, Debug)]
pub struct SortScore;

impl Field for FieldEnum {
    open spec fn field_enum(&self) -> FieldEnum {
        *self
    }

    fn as_enum(&self) -> (r: FieldEnum) {
        *self
    }
}

impl Field for FromId {
    open spec fn field_enum(&self) -> FieldEnum {
        FieldEnum::FromId
    }

    fn as_enum(&self) -> (r: FieldEnum) {
        FieldEnum::FromId
    }
}

impl Field for ToId {
    open spec fn field_enum(&self) -> FieldEnum {
        FieldEnum::ToId
    }

    fn as_enum(&self) -> (r: FieldEnum) {
        FieldEnum::ToId
    }
}

impl Field for FromHostId {
    open spec fn field_enum(&self) -> FieldEnum {
        FieldEnum::FromHostId
    }

    fn as_enum(&self) -> (r: FieldEnum) {
        FieldEnum::FromHostId
    }
}

impl Field for ToHostId {
    open spec fn field_enum(&self) -> FieldEnum {
        FieldEnum::ToHostId
    }

    fn as_enum(&self) -> (r: FieldEnum) {
        FieldEnum::ToHostId
    }
}

impl Field for RelFlags {
    open spec fn field_enum(&self) -> FieldEnum {
        FieldEnum::RelFlags
    }

    fn as_enum(&self) -> (r: FieldEnum) {
        FieldEnum::RelFlags
    }
}

impl Field for SortScore {
    open spec fn field_enum(&self) -> FieldEnum {
        FieldEnum::SortScore
    }

    fn as_enum(&self) -> (r: FieldEnum) {
        FieldEnum::SortScore
    }
}

} // verus!
