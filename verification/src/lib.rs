//! The kernel of an agent workbench: a scoped service graph, typed
//! contributions with fixed conflict rules, epoch composition, and the
//! decisions a session takes around its log, its tools and its memory.
pub mod activation;
pub mod approvals;
pub mod branch;
pub mod builtin_config;
pub mod claims;
pub mod cognition;
pub mod commit;
pub mod contribution;
pub mod digests;
pub mod discovery;
pub mod elements;
pub mod epoch;
pub mod errors;
pub mod event;
pub mod export;
pub mod gc;
pub mod graph;
pub mod hooks;
pub mod ids;
pub mod intents;
pub mod json;
pub mod json_laws;
pub mod layers;
pub mod layout;
pub mod log_laws;
pub mod memory;
pub mod memory_tools;
pub mod messages;
pub mod model;
pub mod opening;
pub mod order;
pub mod package;
pub mod projection;
pub mod record_laws;
pub mod recovery;
pub mod registry;
pub mod registry_laws;
pub mod replacement;
pub mod rules;
pub mod runs;
pub mod scope_tree;
pub mod service_laws;
pub mod services;
pub mod session_error;
pub mod settings_gate;
pub mod snapshot_laws;
pub mod switch;
pub mod telemetry;
pub mod text;
pub mod tool_call;
pub mod tools;
pub mod transition;
pub mod value;
pub mod wiring;
