//! The failures of a pass over a document.

use vstd::prelude::*;

verus! {

/// Why a pass over a document failed. A pass that fails returns no document.
#[derive(Clone, Copy, Debug, PartialEq, Eq, Structural)]
pub enum SvgError {
    /// The document, or a start tag that the pass rebuilds, is not well-formed XML.
    XmlParseError,
    /// A layer group carries no label that can be read as text.
    MissingLayerName,
    /// A layer of the document has no entry in the caller's list of layers.
    UnknownLayer,
}

} // verus!
