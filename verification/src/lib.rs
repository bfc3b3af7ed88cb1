//! Verified control-plane logic of the BusChain PipeWire mixer engine.
pub mod text;
pub mod domain;
pub mod ordset;
pub mod clock;
pub mod probe;
pub mod link;
pub mod unlink;
pub mod table;
pub mod graph;
pub mod ports;
pub mod session;
pub mod rpc;
pub mod globals;
pub mod recovery;
pub mod route;
pub mod linker;
pub mod fx;
pub mod contract;
pub mod master;
pub mod playback;
pub mod null_sink;
pub mod ui;
pub mod cli;
pub mod backend;
pub mod vinput;
pub mod modules;
pub mod icons;
pub mod windows;
pub mod json;
