//! Multi-source audio recording: capture pipelines, mixing, sinks, host decisions and the
//! recorder application's rules, each stated as a contract and proved.

pub mod analyzer;
pub mod buffer;
pub mod bus;
pub mod channel;
pub mod composite;
pub mod desk;
pub mod device;
pub mod error;
pub mod events;
pub mod flac;
pub mod format;
pub mod graph;
pub mod host_linux;
pub mod host_macos;
pub mod host_windows;
pub mod json;
pub mod labels;
pub mod local_analyzers;
pub mod metrics;
pub mod mixdown;
pub mod mixer;
pub mod outputs;
pub mod parakeet;
pub mod paths;
pub mod pipeline;
pub mod plugin_abi;
pub mod processing;
pub mod ring;
pub mod sdk;
pub mod selection;
pub mod session;
pub mod setup;
pub mod sinks;
pub mod sorting;
pub mod source;
pub mod strip;
pub mod synthetic;
pub mod text;
pub mod time;
pub mod traits;
pub mod transcript;
pub mod vst;
pub mod vst_chain;
pub mod vst_editor;
pub mod vst_scan;
pub mod wave;
pub mod window;
