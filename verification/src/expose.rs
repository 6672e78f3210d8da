//! The exposition formats a registry can render into.

use vstd::prelude::*;

verus! {

/// The wire formats `Registry::expose` understands. There is currently one.
pub enum Format {
    Text,
}

/// A rendered exposition: the content type to serve it under, and the body.
pub struct Formatted {
    pub content_type: &'static str,
    pub body: String,
}

} // verus!
