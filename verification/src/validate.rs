//! The validator: an accept-or-reject gate applied to every uploaded byte
//! buffer before it reaches the store. A buffer is accepted exactly when its
//! content (never a client-supplied name) sniffs as a known image container
//! and its pixel data fully decodes; the decoded pixels are discarded.

use vstd::prelude::*;

use crate::handlers::AppError;

verus! {

/// Whether the bytes sniff as a recognized raster image container and fully
/// decode. Deciding this is delegated to the image codecs; the name pins only
/// that the answer is a function of the bytes alone.
pub uninterp spec fn decodes_as_image(bytes: Seq<u8>) -> bool;

/// Relies on image::io::Reader: `with_guessed_format` sniffs the container
/// from the content (infallible over an in-memory cursor) and `decode` fully
/// decodes the pixel data; both depend on the bytes alone.
#[verifier::external_body]
fn try_decode(data: &[u8]) -> (r: bool)
    ensures
        r == decodes_as_image(data@),
{
    match image::io::Reader::new(std::io::Cursor::new(data)).with_guessed_format() {
        Ok(reader) => reader.decode().is_ok(),
        Err(_) => false,
    }
}

/// Accepts the buffer exactly when it decodes as a recognized image; any
/// failure in sniffing or decoding — truncated data, unrecognized format,
/// corrupt encoding — is `InvalidImageFormat`.
pub fn validate(data: &[u8]) -> (r: Result<(), AppError>)
    ensures
        decodes_as_image(data@) ==> r == Ok::<(), AppError>(()),
        !decodes_as_image(data@) ==> r == Err::<(), AppError>(AppError::InvalidImageFormat),
{
    if try_decode(data) {
        Ok(())
    } else {
        Err(AppError::InvalidImageFormat)
    }
}

} // verus!
