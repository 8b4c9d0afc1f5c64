//! Copying a file or a content to a host.

use vstd::prelude::*;

verus! {

/// The operation that copies a file or a content.
#[derive(Debug, Clone, Copy)]
pub struct CopyModule;

} // verus!
