pub mod context;
pub mod form;
pub mod lossy;
pub mod numfmt;
pub mod section;
pub mod table;
pub mod utils;

use vstd::prelude::*;

verus! {

/// Failure of HWPX serialization.
#[derive(Debug)]
pub enum SerializeError {
    /// The XML writer failed, or produced something that is not text; the message says why.
    XmlError(String),
}

} // verus!
