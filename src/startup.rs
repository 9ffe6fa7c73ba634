//! Values shared with request handlers.
use vstd::prelude::*;

verus! {

/// The public base URL of the application, used in confirmation links.
pub struct ApplicationBaseUrl(pub String);

} // verus!
