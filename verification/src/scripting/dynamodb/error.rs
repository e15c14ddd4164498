//! The errors of database operations, by their kinds.

use crate::text::{both, contains_text, joined, occurs};
use vstd::prelude::*;
use vstd::string::*;

verus! {

/// What kind of error it is.
#[derive(Debug, Clone, Copy, PartialEq, Eq, Structural)]
pub enum DynamoErrorKind {
    ValidationError,
    AccessDenied,
    ResourceNotFound,
    ResourceInUse,
    ConditionalCheckFailed,
    TransactionConflict,
    TransactionCanceled,
    ItemCollectionSizeLimitExceeded,
    ProvisionedThroughputExceeded,
    RequestLimitExceeded,
    InternalServerError,
    ServiceUnavailable,
    ConnectionError,
    Timeout,
    PreparedOperationNotFound,
    InvalidParameter,
    ClientNotFound,
    AlternatorUnsupported,
    Other,
}

impl DynamoErrorKind {
    /// The kind's name.
    pub open spec fn label(self) -> Seq<char> {
        match self {
            DynamoErrorKind::ValidationError => "ValidationError"@,
            DynamoErrorKind::AccessDenied => "AccessDenied"@,
            DynamoErrorKind::ResourceNotFound => "ResourceNotFound"@,
            DynamoErrorKind::ResourceInUse => "ResourceInUse"@,
            DynamoErrorKind::ConditionalCheckFailed => "ConditionalCheckFailed"@,
            DynamoErrorKind::TransactionConflict => "TransactionConflict"@,
            DynamoErrorKind::TransactionCanceled => "TransactionCanceled"@,
            DynamoErrorKind::ItemCollectionSizeLimitExceeded => "ItemCollectionSizeLimitExceeded"@,
            DynamoErrorKind::ProvisionedThroughputExceeded => "ProvisionedThroughputExceeded"@,
            DynamoErrorKind::RequestLimitExceeded => "RequestLimitExceeded"@,
            DynamoErrorKind::InternalServerError => "InternalServerError"@,
            DynamoErrorKind::ServiceUnavailable => "ServiceUnavailable"@,
            DynamoErrorKind::ConnectionError => "ConnectionError"@,
            DynamoErrorKind::Timeout => "Timeout"@,
            DynamoErrorKind::PreparedOperationNotFound => "PreparedOperationNotFound"@,
            DynamoErrorKind::InvalidParameter => "InvalidParameter"@,
            DynamoErrorKind::ClientNotFound => "ClientNotFound"@,
            DynamoErrorKind::AlternatorUnsupported => "AlternatorUnsupported"@,
            DynamoErrorKind::Other => "Other"@,
        }
    }

    /// The kind's name.
    pub fn name(self) -> (r: &'static str)
        ensures
            r@ == self.label(),
    {
        match self {
            DynamoErrorKind::ValidationError => "ValidationError",
            DynamoErrorKind::AccessDenied => "AccessDenied",
            DynamoErrorKind::ResourceNotFound => "ResourceNotFound",
            DynamoErrorKind::ResourceInUse => "ResourceInUse",
            DynamoErrorKind::ConditionalCheckFailed => "ConditionalCheckFailed",
            DynamoErrorKind::TransactionConflict => "TransactionConflict",
            DynamoErrorKind::TransactionCanceled => "TransactionCanceled",
            DynamoErrorKind::ItemCollectionSizeLimitExceeded => "ItemCollectionSizeLimitExceeded",
            DynamoErrorKind::ProvisionedThroughputExceeded => "ProvisionedThroughputExceeded",
            DynamoErrorKind::RequestLimitExceeded => "RequestLimitExceeded",
            DynamoErrorKind::InternalServerError => "InternalServerError",
            DynamoErrorKind::ServiceUnavailable => "ServiceUnavailable",
            DynamoErrorKind::ConnectionError => "ConnectionError",
            DynamoErrorKind::Timeout => "Timeout",
            DynamoErrorKind::PreparedOperationNotFound => "PreparedOperationNotFound",
            DynamoErrorKind::InvalidParameter => "InvalidParameter",
            DynamoErrorKind::ClientNotFound => "ClientNotFound",
            DynamoErrorKind::AlternatorUnsupported => "AlternatorUnsupported",
            DynamoErrorKind::Other => "Other",
        }
    }

    /// The kind's name as a string of its own.
    pub fn to_string(&self) -> (r: String)
        ensures
            r@ == self.label(),
    {
        self.name().to_owned()
    }
}

/// An error of a database operation.
#[derive(Debug)]
pub struct DynamoError {
    pub kind: DynamoErrorKind,
    pub message: String,
}

/// What `str::to_lowercase` makes of a text.
pub uninterp spec fn lowercase(text: Seq<char>) -> Seq<char>;

/// `str::to_lowercase`: the text in lower case by the rules of Unicode, which
/// depends on the text alone and has a name.
#[verifier::external_body]
fn to_lowercase(text: &str) -> (r: String)
    ensures
        r@ == lowercase(text@),
{
    text.to_lowercase()
}

/// The kind of an error whose message, in lower case, is this.
pub open spec fn kind_of_lowercase(t: Seq<char>) -> DynamoErrorKind {
    if occurs(t, "conditionalcheckfailed"@) {
        DynamoErrorKind::ConditionalCheckFailed
    } else if occurs(t, "resourcenotfound"@) || (occurs(t, "table"@) && occurs(t, "not found"@)) {
        DynamoErrorKind::ResourceNotFound
    } else if occurs(t, "validation"@) {
        DynamoErrorKind::ValidationError
    } else if occurs(t, "throughput"@) || occurs(t, "throttl"@) {
        DynamoErrorKind::ProvisionedThroughputExceeded
    } else if occurs(t, "internal"@) {
        DynamoErrorKind::InternalServerError
    } else if occurs(t, "timeout"@) || occurs(t, "connection"@) {
        DynamoErrorKind::ConnectionError
    } else {
        DynamoErrorKind::Other
    }
}

/// Decides the kind of an error by its message in lower case.
pub fn classify_lowercase(t: &str) -> (kind: DynamoErrorKind)
    ensures
        kind == kind_of_lowercase(t@),
{
    if contains_text(t, "conditionalcheckfailed") {
        DynamoErrorKind::ConditionalCheckFailed
    } else if contains_text(t, "resourcenotfound") || (contains_text(t, "table") && contains_text(
        t,
        "not found",
    )) {
        DynamoErrorKind::ResourceNotFound
    } else if contains_text(t, "validation") {
        DynamoErrorKind::ValidationError
    } else if contains_text(t, "throughput") || contains_text(t, "throttl") {
        DynamoErrorKind::ProvisionedThroughputExceeded
    } else if contains_text(t, "internal") {
        DynamoErrorKind::InternalServerError
    } else if contains_text(t, "timeout") || contains_text(t, "connection") {
        DynamoErrorKind::ConnectionError
    } else {
        DynamoErrorKind::Other
    }
}

/// A pattern stands in the message of an error or in its debug output.
pub open spec fn shows(message: Seq<char>, debug: Seq<char>, pattern: Seq<char>) -> bool {
    occurs(message, pattern) || occurs(debug, pattern)
}

/// The kind of an error that the database client reports, by its message and its debug output.
pub open spec fn kind_of_sdk(message: Seq<char>, debug: Seq<char>) -> DynamoErrorKind {
    if shows(message, debug, "ResourceNotFoundException"@) {
        DynamoErrorKind::ResourceNotFound
    } else if shows(message, debug, "ResourceInUseException"@) {
        DynamoErrorKind::ResourceInUse
    } else if shows(message, debug, "ValidationException"@) {
        DynamoErrorKind::ValidationError
    } else if shows(message, debug, "ConditionalCheckFailedException"@) || shows(
        message,
        debug,
        "ConditionalCheckFailed"@,
    ) {
        DynamoErrorKind::ConditionalCheckFailed
    } else if shows(message, debug, "ProvisionedThroughputExceededException"@) {
        DynamoErrorKind::ProvisionedThroughputExceeded
    } else if shows(message, debug, "RequestLimitExceeded"@) {
        DynamoErrorKind::RequestLimitExceeded
    } else if shows(message, debug, "TransactionConflictException"@) {
        DynamoErrorKind::TransactionConflict
    } else if shows(message, debug, "TransactionCanceledException"@) {
        DynamoErrorKind::TransactionCanceled
    } else if shows(message, debug, "AccessDeniedException"@) {
        DynamoErrorKind::AccessDenied
    } else if shows(message, debug, "InternalServerError"@) {
        DynamoErrorKind::InternalServerError
    } else if shows(message, debug, "ServiceUnavailable"@) {
        DynamoErrorKind::ServiceUnavailable
    } else if occurs(message, "timeout"@) || occurs(message, "Timeout"@) {
        DynamoErrorKind::Timeout
    } else if occurs(message, "connection"@) || occurs(message, "Connection"@) {
        DynamoErrorKind::ConnectionError
    } else {
        DynamoErrorKind::Other
    }
}

/// Whether a pattern stands in the message of an error or in its debug output.
fn has_pattern(message: &str, debug: &str, pattern: &str) -> (r: bool)
    ensures
        r == shows(message@, debug@, pattern@),
{
    contains_text(message, pattern) || contains_text(debug, pattern)
}

/// Decides the kind of an error that the database client reports.
fn classify_sdk(message: &str, debug: &str) -> (kind: DynamoErrorKind)
    ensures
        kind == kind_of_sdk(message@, debug@),
{
    if has_pattern(message, debug, "ResourceNotFoundException") {
        DynamoErrorKind::ResourceNotFound
    } else if has_pattern(message, debug, "ResourceInUseException") {
        DynamoErrorKind::ResourceInUse
    } else if has_pattern(message, debug, "ValidationException") {
        DynamoErrorKind::ValidationError
    } else if has_pattern(message, debug, "ConditionalCheckFailedException")
        || has_pattern(message, debug, "ConditionalCheckFailed") {
        DynamoErrorKind::ConditionalCheckFailed
    } else if has_pattern(message, debug, "ProvisionedThroughputExceededException") {
        DynamoErrorKind::ProvisionedThroughputExceeded
    } else if has_pattern(message, debug, "RequestLimitExceeded") {
        DynamoErrorKind::RequestLimitExceeded
    } else if has_pattern(message, debug, "TransactionConflictException") {
        DynamoErrorKind::TransactionConflict
    } else if has_pattern(message, debug, "TransactionCanceledException") {
        DynamoErrorKind::TransactionCanceled
    } else if has_pattern(message, debug, "AccessDeniedException") {
        DynamoErrorKind::AccessDenied
    } else if has_pattern(message, debug, "InternalServerError") {
        DynamoErrorKind::InternalServerError
    } else if has_pattern(message, debug, "ServiceUnavailable") {
        DynamoErrorKind::ServiceUnavailable
    } else if contains_text(message, "timeout") || contains_text(message, "Timeout") {
        DynamoErrorKind::Timeout
    } else if contains_text(message, "connection") || contains_text(message, "Connection") {
        DynamoErrorKind::ConnectionError
    } else {
        DynamoErrorKind::Other
    }
}

impl DynamoError {
    /// The error has a kind and a message.
    pub open spec fn is(self, kind: DynamoErrorKind, message: Seq<char>) -> bool {
        self.kind == kind && self.message@ == message
    }

    /// The text that stands for the error.
    pub open spec fn text(self) -> Seq<char> {
        "DynamoError("@ + self.kind.label() + (": "@ + self.message@ + ")"@)
    }

    /// A temporary trouble, after which the operation can be repeated.
    pub open spec fn temporary(self) -> bool {
        self.kind == DynamoErrorKind::ProvisionedThroughputExceeded || self.kind
            == DynamoErrorKind::RequestLimitExceeded || self.kind
            == DynamoErrorKind::InternalServerError || self.kind
            == DynamoErrorKind::ServiceUnavailable || self.kind == DynamoErrorKind::Timeout
    }

    /// An error of a kind with a message.
    pub fn new(kind: DynamoErrorKind, message: String) -> (e: DynamoError)
        ensures
            e.is(kind, message@),
    {
        DynamoError { kind, message }
    }

    /// Something that was passed is not valid.
    pub fn validation_error(message: String) -> (e: DynamoError)
        ensures
            e.is(DynamoErrorKind::ValidationError, message@),
    {
        DynamoError::new(DynamoErrorKind::ValidationError, message)
    }

    /// A table or an index is not there.
    pub fn resource_not_found(message: String) -> (e: DynamoError)
        ensures
            e.is(DynamoErrorKind::ResourceNotFound, message@),
    {
        DynamoError::new(DynamoErrorKind::ResourceNotFound, message)
    }

    /// A condition does not hold.
    pub fn conditional_check_failed(message: String) -> (e: DynamoError)
        ensures
            e.is(DynamoErrorKind::ConditionalCheckFailed, message@),
    {
        DynamoError::new(DynamoErrorKind::ConditionalCheckFailed, message)
    }

    /// A parameter cannot be used.
    pub fn invalid_parameter(message: String) -> (e: DynamoError)
        ensures
            e.is(DynamoErrorKind::InvalidParameter, message@),
    {
        DynamoError::new(DynamoErrorKind::InvalidParameter, message)
    }

    /// The database cannot be reached.
    pub fn connection_error(message: String) -> (e: DynamoError)
        ensures
            e.is(DynamoErrorKind::ConnectionError, message@),
    {
        DynamoError::new(DynamoErrorKind::ConnectionError, message)
    }

    /// The adapter cannot be reached.
    pub fn connection(message: String) -> (e: DynamoError)
        ensures
            e.is(DynamoErrorKind::ConnectionError, message@),
    {
        DynamoError::new(DynamoErrorKind::ConnectionError, message)
    }

    /// An operation that was not prepared.
    pub fn prepared_operation_not_found(name: &str) -> (e: DynamoError)
        ensures
            e.is(
                DynamoErrorKind::PreparedOperationNotFound,
                "Prepared operation not found: "@ + name@,
            ),
    {
        DynamoError::new(
            DynamoErrorKind::PreparedOperationNotFound,
            both("Prepared operation not found: ", name),
        )
    }

    /// A client that is not there.
    pub fn client_not_found(name: &str) -> (e: DynamoError)
        ensures
            e.is(DynamoErrorKind::ClientNotFound, "Client not found: "@ + name@),
    {
        DynamoError::new(DynamoErrorKind::ClientNotFound, both("Client not found: ", name))
    }

    /// An operation that Alternator does not have.
    pub fn alternator_unsupported(operation: &str) -> (e: DynamoError)
        ensures
            e.is(
                DynamoErrorKind::AlternatorUnsupported,
                "Operation '"@ + operation@ + "' is not supported by ScyllaDB Alternator"@,
            ),
    {
        DynamoError::new(
            DynamoErrorKind::AlternatorUnsupported,
            joined("Operation '", operation, "' is not supported by ScyllaDB Alternator"),
        )
    }

    /// The error that a message from an adapter stands for.
    pub fn from_sdk_error_string(message: String) -> (e: DynamoError)
        ensures
            e.is(kind_of_lowercase(lowercase(message@)), message@),
    {
        let lower: String = to_lowercase(message.as_str());
        let kind: DynamoErrorKind = classify_lowercase(lower.as_str());
        DynamoError::new(kind, message)
    }

    /// Whether a condition did not hold.
    pub fn is_conditional_check_failed(&self) -> (r: bool)
        ensures
            r == (self.kind == DynamoErrorKind::ConditionalCheckFailed),
    {
        self.kind == DynamoErrorKind::ConditionalCheckFailed
    }

    /// Whether the operation can be repeated.
    pub fn is_retryable(&self) -> (r: bool)
        ensures
            r == self.temporary(),
    {
        matches!(
            self.kind,
            DynamoErrorKind::ProvisionedThroughputExceeded
                | DynamoErrorKind::RequestLimitExceeded
                | DynamoErrorKind::InternalServerError
                | DynamoErrorKind::ServiceUnavailable
                | DynamoErrorKind::Timeout
        )
    }

    /// The error that an error of the database client stands for, by its
    /// message and its debug output.
    pub fn from_sdk_error(message: String, debug: &str) -> (e: DynamoError)
        ensures
            e.is(kind_of_sdk(message@, debug@), message@),
    {
        let kind: DynamoErrorKind = classify_sdk(message.as_str(), debug);
        DynamoError::new(kind, message)
    }

    /// The text that stands for the error.
    pub fn to_string(&self) -> (r: String)
        ensures
            r@ == self.text(),
    {
        let tail: String = joined(": ", self.message.as_str(), ")");
        joined("DynamoError(", self.kind.name(), tail.as_str())
    }
}

} // verus!
