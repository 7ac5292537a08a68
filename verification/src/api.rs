//! Response shells of the HTTP surface.
//!
//! The endpoints themselves are transport; these are the plain values
//! they wrap results in.

use vstd::prelude::*;

verus! {

/// A uniform wrapper around endpoint results.
#[derive(Debug)]
pub struct ApiResponse<T> {
    pub success: bool,
    pub data: Option<T>,
    pub error: Option<String>,
}

impl<T> ApiResponse<T> {
    /// A successful response carrying its payload and no error.
    pub fn success(data: T) -> (r: ApiResponse<T>)
        ensures
            r.success == true,
            r.data == Some(data),
            r.error is None,
    {
        ApiResponse { success: true, data: Some(data), error: None }
    }

    /// A failed response carrying its message and no payload.
    pub fn error(msg: String) -> (r: ApiResponse<T>)
        ensures
            r.success == false,
            r.data is None,
            r.error == Some(msg),
    {
        ApiResponse { success: false, data: None, error: Some(msg) }
    }
}

/// Parameters of the autocomplete endpoint.
#[derive(Debug)]
pub struct AutocompleteParams {
    pub q: String,
    pub field: Option<String>,
}

/// Suggestions returned by the autocomplete endpoint.
#[derive(Debug)]
pub struct AutocompleteResponse {
    pub suggestions: Vec<String>,
}

/// A highlighted fragment of a matched text field.
#[derive(Debug, Clone)]
pub struct HighlightSnippet {
    pub field: String,
    pub snippet: String,
    pub start_offset: usize,
    pub end_offset: usize,
}

} // verus!
