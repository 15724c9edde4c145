pub mod bridge;
pub mod cancellation;
pub mod contracts;
pub mod disposable;
pub mod events;
pub mod file_uri;
pub mod files;
pub mod framing;
pub mod json;
pub mod keyed;
pub mod numfmt;
pub mod logging;
pub mod observability;
pub mod parity;
pub mod pathorder;
pub mod paths;
pub mod protocols;
pub mod rpc;
pub mod service_registry;
pub mod sidecar;
pub mod storage;
pub mod subscriptions;
pub mod terminal;
pub mod text;
pub mod uri;
pub mod workbench;
