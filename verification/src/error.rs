use vstd::prelude::*;

verus! {

/// Errors raised while scattering a file into the content store or while
/// collecting it back into a local file.
#[derive(Clone, Copy, Debug, PartialEq, Eq, Structural)]
pub enum ScatterSendError {
    /// The source path has no file-name component, or its name bytes are not
    /// well-formed UTF-8.
    InvalidPath,
    /// The descriptor's byte size does not fit the platform's addressable range.
    SizeOverflow,
    /// A resolved segment's length differs from the requested range, or the
    /// requested range lies outside the destination mapping.
    SizeMismatch,
}

} // verus!
