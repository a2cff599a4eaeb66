use vstd::prelude::*;

verus! {

/// The ways in which reading the game's files can fail.
#[derive(Clone, Copy, Debug, PartialEq, Eq)]
pub enum ReconstructError {
    /// No `MHY\0` signature occurs in `GameAssembly.dll`.
    MhySignatureNotFound,
    /// The `MHY\0` signature stands too close to the end of the file for its 150 values.
    MhyHeaderTooSmall,
    /// The file does not start with a DOS header (`MZ`).
    NotPeImage,
    /// The `PE\0\0` signature is missing where the DOS header points.
    InvalidPeSignature,
    /// The optional header is not that of a PE32+ image.
    NotPe32Plus,
    /// A PE structure at the given offset runs past the end of the file.
    TruncatedPe(u64),
    /// The PE image has no executable section.
    NoExecutableSections,
    /// No `MHY\0` header of `GameAssembly.dll` matches the build profile, and none can be read.
    NoMatchingHeader,
    /// The methods that the type table declares run past the end of the metadata body.
    MethodTableOutOfBounds,
    /// The parameters that the method table declares run past the end of the metadata body.
    ParameterTableOutOfBounds,
    /// No section of `GameAssembly.dll` maps the `MHY\0` header.
    HeaderNotMapped,
    /// The native code stores the header's address into this many globals, not one.
    HeaderPointerCount(u64),
    /// The native code computes no decoded header value.
    NoHeaderExpressions,
    /// Two headers, at these file offsets, give metadata tables with the same best score.
    AmbiguousHeaders(usize, usize),
    /// No header gives a consistent set of metadata tables.
    NoValidHeader,
    /// The best header's tables score only this much.
    LowConfidence(usize),
    /// The string literal tables that the chosen layout names hold no valid run of literals.
    InvalidLiteralLayout,
    /// The images declare more types than a `usize` counts.
    TypeCountOverflow,
    /// The images declare no types, or implausibly many.
    ImplausibleTypeCount(usize),
    /// The method table does not hold the records that the type table calls for.
    ParameterCountUnknown,
    /// The type table does not hold the records that the images call for.
    FieldCountUnknown,
    /// The secondary metadata tables cannot be told apart among the candidates.
    SecondaryTablesUnclassified,
    /// The end of the type table does not fit a `usize`.
    TypeTableOverflow,
    /// The type table runs past the end of the metadata body.
    TypeTableOutOfBounds,
    /// No single pair of method-pointer tables matches the method-pointer map.
    MethodPointerTablesNotFound,
    /// The runtime's registrations and type tables cannot be followed.
    RuntimeTablesNotFound,
    /// The generic parameter, container and constraint tables cannot be told apart.
    GenericTablesUnclassified,
    /// The end of the interface table does not fit a `usize`.
    InterfaceTableOverflow,
    /// The interface table runs past the end of the metadata body.
    InterfaceTableOutOfBounds,
}

} // verus!
