//! The decision logic of a capsule runtime, verified.

pub mod a2a;
pub mod codec;
pub mod diagnostics;
pub mod door;
pub mod errors;
pub mod identity;
pub mod ids;
pub mod inference_credential;
pub mod inference_import;
pub mod json;
pub mod lanes;
pub mod limits;
pub mod mac_token;
pub mod murmur_home;
pub mod network_namespace;
pub mod network_policy;
pub mod origin;
pub mod otel;
pub mod outgoing;
pub mod paths;
pub mod peer_handoff;
pub mod plan;
pub mod process_driver;
pub mod protected_paths;
pub mod reachability;
pub mod record;
pub mod shell_script;
pub mod text;
pub mod tool_annotations;
pub mod workdir;
