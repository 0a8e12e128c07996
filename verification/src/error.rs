use vstd::prelude::*;

verus! {

/// The kind of a composition error.
#[derive(Clone, Copy, Debug, PartialEq, Eq, Structural)]
pub enum ErrorKind {
    /// Data handed to the engine has the wrong shape, such as a table row
    /// whose length differs from the table's column count.
    InvalidData,
    /// A single unsplittable unit did not fit an area even though the area
    /// reported remaining room; fatal for the current render pass.
    PageSizeExceeded,
    /// An element was used without a collaborator it needs, such as a math
    /// element rendered without a laid-out glyph block.
    MissingCapability,
}

/// An error reported by the composition engine.
#[derive(Clone, Debug)]
pub struct Error {
    /// The kind of the error.
    pub kind: ErrorKind,
    /// A human-readable description.
    pub msg: String,
}

impl Error {
    /// Builds an error from a message and a kind.
    pub fn new(msg: &str, kind: ErrorKind) -> (r: Error)
        ensures
            r.kind == kind,
            r.msg@ == msg@,
    {
        Error { kind, msg: msg.to_owned() }
    }

    /// The kind of the error.
    pub fn kind(&self) -> (r: ErrorKind)
        ensures
            r == self.kind,
    {
        self.kind
    }

    /// The message of the error.
    pub fn message(&self) -> (r: &str)
        ensures
            r@ == self.msg@,
    {
        self.msg.as_str()
    }
}

} // verus!
