//! The error type returned by calls to the API exposed by this crate.

use vstd::prelude::*;
use crate::topology::filters::Filter;
use crate::topology::flags::Flags;
use crate::types::ObjectType;

verus! {

/// An error type returned by calls to the API exposed by this crate.
#[derive(Debug, Clone, Copy, PartialEq, Eq, Structural)]
pub enum Error {
    /// Failure to initialize a new topology context.
    TopologyInit,
    /// Failure to load the new topology.
    TopologyLoad,
    /// Failure to create a valid [`Support`] object.
    ///
    /// [`Support`]: crate::topology::support::Support
    TopologySupport,
    /// Failure to set the flags.
    TopologyFlags(Flags),
    /// The topology failed the compatibility check.
    TopologyAbiCheck,
    /// Failure to retrieve the filter for the object type.
    TopologyGetFilter(ObjectType),
    /// The `i32` value recorded for the object type does not correspond to a
    /// known [`Filter`].
    ///
    /// [`Filter`]: crate::topology::filters::Filter
    UnknownFilter(ObjectType, i32),
    /// Failure to set the filter for the object type.
    TopologySetFilter(ObjectType, Filter),
    /// Failure to set the filter for the I/O object types.
    TopologySetIOTypesFilter(Filter),
    /// Failure to set the filter for all object types.
    TopologySetAllTypesFilter(Filter),
    /// Failure to set the filter for the cache object types.
    TopologySetCacheTypesFilter(Filter),
    /// Failure to set the filter for the instruction cache object types.
    TopologySetICacheTypesFilter(Filter),
    /// The depth does not exist in the topology.
    TopologyDepthDoesNotExist(i32),
    /// Failure to allocate a new Bitmap.
    BitmapAlloc,
    /// Failed to set the index in the Bitmap.
    BitmapSetBit(u32),
    /// Failed to clear the index in the Bitmap.
    BitmapClearBit(u32),
    /// Failed to set the indexes in the Bitmap.
    BitmapSetBitRange(u32, i32),
    /// Failed to clear the indexes in the Bitmap.
    BitmapClearBitRange(u32, i32),
    /// Returned when a bitmap that has been provided by the caller appears to
    /// be missing.
    BitmapNullPointer,
    /// Returned when [`Bitmap::singlify`] fails.
    ///
    /// [`Bitmap::singlify`]: crate::bitmap::Bitmap::singlify
    BitmapSinglify,
    /// Failed to empty the bitmap and set the specified bit via
    /// [`Bitmap::only`].
    ///
    /// [`Bitmap::only`]: crate::bitmap::Bitmap::only
    BitmapOnly(u32),
    /// Failed to fill the bitmap and clear the specified bit via
    /// [`Bitmap::allbut`].
    ///
    /// [`Bitmap::allbut`]: crate::bitmap::Bitmap::allbut
    BitmapAllBut(u32),
    /// Failure to negate the bitmap.
    BitmapNegation,
    /// Failure to bind the current process or thread on a given CPU.
    CpuBindSet,
}

impl Error {
    /// A short description of this error. The indices, types and filters that
    /// some variants carry are not interpolated into the text; they are read
    /// from the variant's fields.
    pub fn message(&self) -> (r: &'static str)
        ensures
            match self {
                Error::TopologyInit => r@ == "Failed to allocate a topology context"@,
                Error::TopologyLoad => r@ == "Failed to load the actual topology object"@,
                Error::TopologySupport => r@
                    == "Failed to create a valid topology::Support object"@,
                Error::TopologyFlags(_) => r@ == "Failed to set flags"@,
                Error::TopologyAbiCheck => r@
                    == "Failed to verify topology's compatibility with the current library"@,
                Error::TopologyGetFilter(_) => r@ == "Failed to get filter for object type"@,
                Error::UnknownFilter(_, _) => r@
                    == "Unknown filter retrieved for object type"@,
                Error::TopologySetFilter(_, _) => r@
                    == "Failed to set filter for object type"@,
                Error::TopologySetIOTypesFilter(_) => r@
                    == "Failed to set filter for I/O object types"@,
                Error::TopologySetAllTypesFilter(_) => r@
                    == "Failed to set filter for all object types"@,
                Error::TopologySetCacheTypesFilter(_) => r@
                    == "Failed to set filter for cache object types"@,
                Error::TopologySetICacheTypesFilter(_) => r@
                    == "Failed to set filter for instruction cache object types"@,
                Error::TopologyDepthDoesNotExist(_) => r@
                    == "Depth does not exist in the topology"@,
                Error::BitmapAlloc => r@ == "Failed to allocate a new Bitmap"@,
                Error::BitmapSetBit(_) => r@ == "Failed to set index in the Bitmap"@,
                Error::BitmapClearBit(_) => r@ == "Failed to clear index in the Bitmap"@,
                Error::BitmapSetBitRange(_, _) => r@
                    == "Failed to set indexes in the Bitmap"@,
                Error::BitmapClearBitRange(_, _) => r@
                    == "Failed to clear indexes in the Bitmap"@,
                Error::BitmapNullPointer => r@ == "The provided bitmap is missing"@,
                Error::BitmapSinglify => r@ == "Failed to singlify bitmap"@,
                Error::BitmapOnly(_) => r@ == "Failed to empty bitmap and set bit"@,
                Error::BitmapAllBut(_) => r@ == "Failed to fill bitmap and clear bit"@,
                Error::BitmapNegation => r@ == "Failed to negate the bitmap"@,
                Error::CpuBindSet => r@
                    == "Failed to bind the current process or thread on given CPU"@,
            },
    {
        match self {
            Error::TopologyInit => "Failed to allocate a topology context",
            Error::TopologyLoad => "Failed to load the actual topology object",
            Error::TopologySupport => "Failed to create a valid topology::Support object",
            Error::TopologyFlags(_) => "Failed to set flags",
            Error::TopologyAbiCheck => {
                "Failed to verify topology's compatibility with the current library"
            },
            Error::TopologyGetFilter(_) => "Failed to get filter for object type",
            Error::UnknownFilter(_, _) => "Unknown filter retrieved for object type",
            Error::TopologySetFilter(_, _) => "Failed to set filter for object type",
            Error::TopologySetIOTypesFilter(_) => "Failed to set filter for I/O object types",
            Error::TopologySetAllTypesFilter(_) => "Failed to set filter for all object types",
            Error::TopologySetCacheTypesFilter(_) => {
                "Failed to set filter for cache object types"
            },
            Error::TopologySetICacheTypesFilter(_) => {
                "Failed to set filter for instruction cache object types"
            },
            Error::TopologyDepthDoesNotExist(_) => "Depth does not exist in the topology",
            Error::BitmapAlloc => "Failed to allocate a new Bitmap",
            Error::BitmapSetBit(_) => "Failed to set index in the Bitmap",
            Error::BitmapClearBit(_) => "Failed to clear index in the Bitmap",
            Error::BitmapSetBitRange(_, _) => "Failed to set indexes in the Bitmap",
            Error::BitmapClearBitRange(_, _) => "Failed to clear indexes in the Bitmap",
            Error::BitmapNullPointer => "The provided bitmap is missing",
            Error::BitmapSinglify => "Failed to singlify bitmap",
            Error::BitmapOnly(_) => "Failed to empty bitmap and set bit",
            Error::BitmapAllBut(_) => "Failed to fill bitmap and clear bit",
            Error::BitmapNegation => "Failed to negate the bitmap",
            Error::CpuBindSet => "Failed to bind the current process or thread on given CPU",
        }
    }
}

} // verus!
