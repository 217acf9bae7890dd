//! Extraction of a resource.

use vstd::prelude::*;
use crate::common::simulation::ExtractError;

verus! {

/// Extracts a resource: the local world's copy becomes the source world's.
///
/// `source` is the resource as the source world has it and `local_present`
/// tells whether the local world has one to overwrite. Fails when either
/// world lacks the resource; the source world is looked at first.
pub fn extract_resource<R>(source: Option<R>, local_present: bool) -> (extracted: Result<
    R,
    ExtractError,
>)
    ensures
        source.is_none() ==> extracted == Err::<R, ExtractError>(
            ExtractError::MissingSourceResource,
        ),
        source.is_some() && !local_present ==> extracted == Err::<R, ExtractError>(
            ExtractError::MissingLocalResource,
        ),
        source.is_some() && local_present ==> extracted == Ok::<R, ExtractError>(source.unwrap()),
{
    match source {
        None => Err(ExtractError::MissingSourceResource),
        Some(resource) => {
            if local_present {
                Ok(resource)
            } else {
                Err(ExtractError::MissingLocalResource)
            }
        },
    }
}

} // verus!
