//! Plain data shapes exchanged between the webview bridge and the services.
use vstd::prelude::*;
use crate::json::JsonValue;

verus! {

/// Identifies one event subscription of a window.
#[derive(Debug, Clone, PartialEq, Eq, Hash)]
pub struct SubscriptionId(pub String);

/// Identifies a cancellable request.
#[derive(Debug, Clone, PartialEq, Eq, Hash)]
pub struct CancellationId(pub String);

/// A call of a command on a bridge channel.
#[derive(Debug, PartialEq)]
pub struct ChannelCallRequest {
    pub request_id: String,
    pub channel: String,
    pub command: String,
    pub args: Vec<JsonValue>,
    pub cancellation_id: Option<CancellationId>,
}

/// A request to listen to an event of a bridge channel.
#[derive(Debug, PartialEq)]
pub struct ChannelListenRequest {
    pub request_id: String,
    pub channel: String,
    pub event: String,
    pub args: Vec<JsonValue>,
    pub subscription_id: Option<SubscriptionId>,
}

/// The answer to a call or listen request: a result or an error.
#[derive(Debug, PartialEq)]
pub struct ChannelResponse {
    pub request_id: String,
    pub result: Option<JsonValue>,
    pub error: Option<ChannelError>,
}

/// An event delivered to a subscription.
#[derive(Debug, PartialEq)]
pub struct ChannelEventMessage {
    pub subscription_id: SubscriptionId,
    pub channel: String,
    pub event: String,
    pub payload: Option<JsonValue>,
}

/// An error as the webview sees it.
#[derive(Debug, PartialEq)]
pub struct ChannelError {
    pub code: String,
    pub message: String,
    pub details: Option<JsonValue>,
}

/// Asks the bridge to dispose one subscription.
#[derive(Debug, Clone, PartialEq, Eq)]
pub struct ChannelDisposeRequest {
    pub subscription_id: SubscriptionId,
}

/// Asks the bridge to cancel an in-flight request.
#[derive(Debug, Clone, PartialEq, Eq)]
pub struct CancelRequest {
    pub cancellation_id: CancellationId,
    pub request_id: Option<String>,
}

/// Direction of an extension host RPC message.
#[derive(Debug, Clone, Copy, PartialEq, Eq)]
pub enum ExtHostRpcDirection {
    MainToExtHost,
    ExtHostToMain,
}

/// A method call an actor makes through the extension host protocol.
#[derive(Debug, PartialEq)]
pub struct ExtHostRpcRequest {
    pub actor: String,
    pub method: String,
    pub args: Vec<JsonValue>,
    pub cancellation_id: Option<CancellationId>,
}

/// What an extension host RPC envelope carries.
#[derive(Debug, PartialEq)]
pub enum ExtHostRpcMessage {
    Request { request: ExtHostRpcRequest },
    Response { result: Option<JsonValue> },
    Error { error: ChannelError },
    Cancel { cancellation_id: Option<CancellationId> },
}

/// One message of the extension host protocol, with its routing fields.
#[derive(Debug, PartialEq)]
pub struct ExtHostRpcEnvelope {
    pub protocol: String,
    pub request_id: String,
    pub trace_id: String,
    pub direction: ExtHostRpcDirection,
    pub message: ExtHostRpcMessage,
}

/// The protocol name every envelope carries.
pub const EXT_HOST_RPC_PROTOCOL: &'static str = "extHost.protocol";

impl ExtHostRpcEnvelope {
    pub fn request(request_id: String, trace_id: String, direction: ExtHostRpcDirection, request: ExtHostRpcRequest) -> (e: ExtHostRpcEnvelope)
        ensures
            e.protocol@ == EXT_HOST_RPC_PROTOCOL@,
            e.request_id == request_id,
            e.trace_id == trace_id,
            e.direction == direction,
            e.message == (ExtHostRpcMessage::Request { request }),
    {
        ExtHostRpcEnvelope {
            protocol: String::from_str(EXT_HOST_RPC_PROTOCOL),
            request_id,
            trace_id,
            direction,
            message: ExtHostRpcMessage::Request { request },
        }
    }

    pub fn response(request_id: String, trace_id: String, direction: ExtHostRpcDirection, result: Option<JsonValue>) -> (e: ExtHostRpcEnvelope)
        ensures
            e.protocol@ == EXT_HOST_RPC_PROTOCOL@,
            e.request_id == request_id,
            e.trace_id == trace_id,
            e.direction == direction,
            e.message == (ExtHostRpcMessage::Response { result }),
    {
        ExtHostRpcEnvelope {
            protocol: String::from_str(EXT_HOST_RPC_PROTOCOL),
            request_id,
            trace_id,
            direction,
            message: ExtHostRpcMessage::Response { result },
        }
    }

    pub fn error(request_id: String, trace_id: String, direction: ExtHostRpcDirection, error: ChannelError) -> (e: ExtHostRpcEnvelope)
        ensures
            e.protocol@ == EXT_HOST_RPC_PROTOCOL@,
            e.request_id == request_id,
            e.trace_id == trace_id,
            e.direction == direction,
            e.message == (ExtHostRpcMessage::Error { error }),
    {
        ExtHostRpcEnvelope {
            protocol: String::from_str(EXT_HOST_RPC_PROTOCOL),
            request_id,
            trace_id,
            direction,
            message: ExtHostRpcMessage::Error { error },
        }
    }

    pub fn cancel(request_id: String, trace_id: String, direction: ExtHostRpcDirection, cancellation_id: Option<CancellationId>) -> (e: ExtHostRpcEnvelope)
        ensures
            e.protocol@ == EXT_HOST_RPC_PROTOCOL@,
            e.request_id == request_id,
            e.trace_id == trace_id,
            e.direction == direction,
            e.message == (ExtHostRpcMessage::Cancel { cancellation_id }),
    {
        ExtHostRpcEnvelope {
            protocol: String::from_str(EXT_HOST_RPC_PROTOCOL),
            request_id,
            trace_id,
            direction,
            message: ExtHostRpcMessage::Cancel { cancellation_id },
        }
    }
}

/// A URI split into its components, as the workbench sends it.
#[derive(Debug, Clone, PartialEq, Eq)]
pub struct UriDto {
    pub scheme: String,
    pub authority: Option<String>,
    pub path: String,
    pub query: Option<String>,
    pub fragment: Option<String>,
}

/// Kind of a file system entry.
#[derive(Debug, Clone, Copy, PartialEq, Eq)]
pub enum FileTypeDto {
    Unknown,
    File,
    Directory,
    SymbolicLink,
}

/// Metadata of a file system entry.
#[derive(Debug, Clone, PartialEq, Eq)]
pub struct FileStatDto {
    pub resource: UriDto,
    pub file_type: FileTypeDto,
    pub ctime: u64,
    pub mtime: u64,
    pub size: u64,
    pub readonly: Option<bool>,
}

/// Reads a file.
#[derive(Debug, Clone, PartialEq, Eq)]
pub struct FileReadRequest {
    pub resource: UriDto,
}

/// File contents, base64 encoded.
#[derive(Debug, Clone, PartialEq, Eq)]
pub struct FileReadResponse {
    pub data_base64: String,
}

/// Writes a file from base64 encoded contents.
#[derive(Debug, Clone, PartialEq, Eq)]
pub struct FileWriteRequest {
    pub resource: UriDto,
    pub data_base64: String,
    pub create: bool,
    pub overwrite: bool,
}

/// Deletes a file or directory.
#[derive(Debug, Clone, PartialEq, Eq)]
pub struct FileDeleteRequest {
    pub resource: UriDto,
    pub recursive: bool,
    pub use_trash: bool,
}

/// Stats a file system entry.
#[derive(Debug, Clone, PartialEq, Eq)]
pub struct FileStatRequest {
    pub resource: UriDto,
}

/// Creates a directory.
#[derive(Debug, Clone, PartialEq, Eq)]
pub struct FileMkdirRequest {
    pub resource: UriDto,
}

/// Lists a directory.
#[derive(Debug, Clone, PartialEq, Eq)]
pub struct FileReaddirRequest {
    pub resource: UriDto,
}

/// One entry of a directory listing.
#[derive(Debug, Clone, PartialEq, Eq)]
pub struct FileDirEntryDto {
    pub name: String,
    pub file_type: FileTypeDto,
}

} // verus!
