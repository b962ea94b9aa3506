//! Why a record is refused.
use vstd::prelude::*;

verus! {

#[derive(Debug, Clone, Copy, PartialEq, Eq, Structural)]
pub enum ModelError {
    /// The bytes do not hold a record of the expected shape.
    Deserialization,
    /// An identifier is not base-32 text of the expected width.
    InvalidEncoding,
    /// A field that the record cannot do without could not be sanitized.
    MandatoryFieldInvalid,
    /// The identifier derived from the content differs from the claimed one.
    IdentifierMismatch,
    /// The content is longer than its kind allows.
    ContentTooLong,
    /// The label is longer than a label may be.
    LabelTooLong,
}

/// The sentence that describes an error.
pub open spec fn error_text(e: ModelError) -> Seq<char> {
    match e {
        ModelError::Deserialization => "Failed to deserialize the record"@,
        ModelError::InvalidEncoding => "Invalid ID encoding"@,
        ModelError::MandatoryFieldInvalid => "Invalid URI in tag"@,
        ModelError::IdentifierMismatch => "Invalid ID"@,
        ModelError::ContentTooLong => "Validation Error: Post content exceeds maximum length"@,
        ModelError::LabelTooLong => "Tag label exceeds maximum length"@,
    }
}

impl ModelError {
    /// A sentence for the error.
    pub fn message(&self) -> (r: &'static str)
        ensures
            r@ == error_text(*self),
    {
        match self {
            ModelError::Deserialization => "Failed to deserialize the record",
            ModelError::InvalidEncoding => "Invalid ID encoding",
            ModelError::MandatoryFieldInvalid => "Invalid URI in tag",
            ModelError::IdentifierMismatch => "Invalid ID",
            ModelError::ContentTooLong => "Validation Error: Post content exceeds maximum length",
            ModelError::LabelTooLong => "Tag label exceeds maximum length",
        }
    }
}

} // verus!
