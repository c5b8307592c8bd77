//! What the rules of a data source refuse.

use crate::index::PayloadField;
use crate::search::MAX_TOP_K_SEARCH;
use crate::settings::Setting;
use crate::text::{decimal_of, push_decimal};
use vstd::prelude::*;
use vstd::string::StringExecFns;

verus! {

/// The kinds of failure that callers tell apart.
#[derive(Clone, Copy, Debug, PartialEq, Eq, Structural)]
pub enum ErrorKind {
    /// The request itself is not acceptable.
    InvalidArgument,
    /// The environment lacks a setting.
    Config,
    /// The vector index returned something that cannot be read.
    VectorIndex,
    /// A blob could not be written, or holds what cannot be read.
    Blob,
    /// A document that had to be there is missing.
    NotFound,
}

/// A refusal.
#[derive(Debug)]
pub enum Error {
    /// More results were asked for than one search may return.
    TopKTooLarge,
    /// A system tag was supplied although the system tags of the document
    /// were to be kept. Holds the reserved prefix.
    SystemTagSupplied { prefix: String },
    /// A setting that is needed is not in the environment.
    NotConfigured { setting: Setting },
    /// A point lacks a field of its payload, or holds it in another type.
    MissingPayloadField { field: PayloadField },
    /// The archived content of a document is no text.
    ContentNotText,
    /// A hit names a document that the metadata store does not hold.
    DocumentNotFound,
}

impl Error {
    /// The kind of the refusal.
    pub open spec fn kind_of(self) -> ErrorKind {
        match self {
            Error::TopKTooLarge => ErrorKind::InvalidArgument,
            Error::SystemTagSupplied { .. } => ErrorKind::InvalidArgument,
            Error::NotConfigured { .. } => ErrorKind::Config,
            Error::MissingPayloadField { .. } => ErrorKind::VectorIndex,
            Error::ContentNotText => ErrorKind::Blob,
            Error::DocumentNotFound => ErrorKind::NotFound,
        }
    }

    /// The kind of the refusal.
    pub fn kind(&self) -> (kind: ErrorKind)
        ensures
            kind == self.kind_of(),
    {
        match self {
            Error::TopKTooLarge => ErrorKind::InvalidArgument,
            Error::SystemTagSupplied { .. } => ErrorKind::InvalidArgument,
            Error::NotConfigured { .. } => ErrorKind::Config,
            Error::MissingPayloadField { .. } => ErrorKind::VectorIndex,
            Error::ContentNotText => ErrorKind::Blob,
            Error::DocumentNotFound => ErrorKind::NotFound,
        }
    }

    /// The refusal in words.
    pub open spec fn message_of(self) -> Seq<char> {
        match self {
            Error::TopKTooLarge => "top_k must be <= "@ + decimal_of(MAX_TOP_K_SEARCH as nat),
            Error::SystemTagSupplied { prefix } => {
                "preserve_system_tags=true is not allowed if `tags` contains a string starting with \""@
                    + prefix@ + "\""@
            },
            Error::NotConfigured { setting } => setting.variable_of() + " is not set"@,
            Error::MissingPayloadField { field } => {
                "Missing `"@ + field.name_of() + "` in chunk payload"@
            },
            Error::ContentNotText => "Document content is not valid UTF-8"@,
            Error::DocumentNotFound => "Document not found"@,
        }
    }

    /// The refusal in words.
    pub fn message(&self) -> (message: String)
        ensures
            message@ == self.message_of(),
    {
        match self {
            Error::TopKTooLarge => {
                let mut message = String::from_str("top_k must be <= ");
                push_decimal(&mut message, MAX_TOP_K_SEARCH as u64);
                message
            },
            Error::SystemTagSupplied { prefix } => {
                let mut message = String::from_str(
                    "preserve_system_tags=true is not allowed if `tags` contains a string starting with \"",
                );
                message.append(prefix.as_str());
                message.append("\"");
                message
            },
            Error::NotConfigured { setting } => {
                let mut message = String::from_str(setting.variable());
                message.append(" is not set");
                message
            },
            Error::MissingPayloadField { field } => {
                let mut message = String::from_str("Missing `");
                message.append(field.name());
                message.append("` in chunk payload");
                message
            },
            Error::ContentNotText => String::from_str("Document content is not valid UTF-8"),
            Error::DocumentNotFound => String::from_str("Document not found"),
        }
    }
}

} // verus!
