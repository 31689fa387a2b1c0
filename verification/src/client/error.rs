//! What can go wrong between the cluster's API and the mirrored state.
use vstd::prelude::*;

verus! {

/// The transport's error, carried through as it came.
#[verifier::external_type_specification]
#[verifier::external_body]
pub struct ExTransportError(reqwest::Error);

/// The JSON decoder's error, carried through as it came.
#[verifier::external_type_specification]
#[verifier::external_body]
pub struct ExJsonError(serde_json::Error);

/// The status object with which the API answers a refused request.
#[verifier::external_type_specification]
#[verifier::external_body]
pub struct ExStatus(k8s_openapi::apimachinery::pkg::apis::meta::v1::Status);

/// The exposition parser's error, carried through as it came.
#[verifier::external_type_specification]
#[verifier::external_body]
pub struct ExScrapeParseError(prom_text_format_parser::ScrapeParseError);

/// A field that a resource payload was expected to carry and did not.
#[derive(Debug, Clone, Copy, PartialEq, Eq, Structural)]
pub enum JsonQuery {
    NoUid,
    NoName,
    NoNamespace,
    NoMetaData,
    NoResourceVersion,
    NoStatus,
    NoCondition,
    NoReadyCondition,
}

/// The kind of resource that a watcher follows.
#[derive(Debug, Clone, Copy, PartialEq, Eq, Structural)]
pub enum Resource {
    DaemonSet,
}

/// What can go wrong between the API and the totals.
#[derive(Debug)]
pub enum APIError {
    /// The request could not be sent or the connection broke.
    Http(reqwest::Error),
    /// The API answered with a status other than success.
    Response(k8s_openapi::apimachinery::pkg::apis::meta::v1::Status),
    /// A frame or a listing was not the JSON that was expected.
    JsonParse(serde_json::Error),
    /// A required field was absent from a resource payload.
    JsonQuery(JsonQuery),
    /// A metrics payload was not a text exposition.
    Prometheus(prom_text_format_parser::ScrapeParseError),
    /// A metrics payload has no metric of CPU seconds.
    CPUMetricNotFound,
    /// The metric of CPU seconds has no sample of the root cgroup.
    NodeTopLevelContainerMetricNotFound,
    /// The sample of the root cgroup carries no timestamp.
    NodeTopLevelContainerMetricNoTimeStamp,
    /// The consumer of a queue is gone.
    ChannelReceiverDropped,
    /// The producer of a queue is gone.
    ChannelSenderDropped,
    /// A watcher was gone before it could be told to stop.
    WatcherTermination,
}

/// The step of a watch at which it failed.
#[derive(Debug, Clone, Copy, PartialEq, Eq, Structural)]
pub enum WatcherErrorKind {
    StreamRetrieveError,
    ReconilationError,
    StreamNextError,
    Termination,
}

/// A watch's terminal error: where it failed, and on what.
#[derive(Debug)]
pub struct WatcherError {
    pub cause: WatcherErrorKind,
    pub error: APIError,
}

impl WatcherError {
    /// The full listing could not be had.
    pub fn recon(error: APIError) -> (e: Self)
        ensures
            e == (WatcherError { cause: WatcherErrorKind::ReconilationError, error }),
    {
        Self { cause: WatcherErrorKind::ReconilationError, error }
    }

    /// The stream could not be opened.
    pub fn stream(error: APIError) -> (e: Self)
        ensures
            e == (WatcherError { cause: WatcherErrorKind::StreamRetrieveError, error }),
    {
        Self { cause: WatcherErrorKind::StreamRetrieveError, error }
    }

    /// The open stream broke or carried a frame that could not be used.
    pub fn next(error: APIError) -> (e: Self)
        ensures
            e == (WatcherError { cause: WatcherErrorKind::StreamNextError, error }),
    {
        Self { cause: WatcherErrorKind::StreamNextError, error }
    }

    /// The watcher was gone before it could be told to stop.
    pub fn terminate() -> (e: Self)
        ensures
            e == (WatcherError {
                cause: WatcherErrorKind::Termination,
                error: APIError::WatcherTermination,
            }),
    {
        Self { cause: WatcherErrorKind::Termination, error: APIError::WatcherTermination }
    }
}

/// What can go wrong while targets are checked and replica sets or nodes
/// are followed.
#[derive(Debug)]
pub enum ClientError {
    /// The request could not be sent, or was refused.
    Api(reqwest::Error),
    /// A response was not the JSON that was expected.
    Serde(serde_json::Error),
    /// A field was absent from a resource payload; the text says which.
    Json(&'static str),
    /// Some targets name what the cluster does not hold.
    TargetValidationError(Vec<crate::client::targets::TargetError>),
    /// The watch window elapsed.
    WatchTimedOut,
    /// The consumer of a watch is gone; the text says of which.
    SenderError(&'static str),
    /// The producer of a watch is gone; the text says of which.
    ReceiverError(&'static str),
}

} // verus!
