//! k6 scripts and KnockPort collections as inputs of a load runner.
//!
//! The library holds what the inputs decide: which bytes are a script and what the
//! script's `options` ask for, what its requests, groups, checks and WebSocket
//! sessions send and record, how a collection on disk is read into a scenario.
//! What only the surroundings can do (the script engine, the network, files, the
//! clock) is left to the host, which hands plain values in and takes plain values
//! back.
//!
//! - [`adapter`], [`scenario`], [`knockport`]: inputs and what they are read into;
//! - [`options`], [`thresholds`], [`system_tags`]: what a script declares;
//! - [`http`], [`headers`], [`http_samples`]: requests and what is recorded of them;
//! - [`script_state`], [`websocket`], [`globals`], [`iteration`], [`shared_arrays`]:
//!   a script as it runs;
//! - [`scripts`], [`paths`], [`shim_cache`]: the files and libraries of a script;
//! - [`samples`], [`json`], [`encoding`], [`binary64`], [`string_map`], [`text`]:
//!   the values all of them work on.

pub mod adapter;
pub mod binary64;
pub mod encoding;
pub mod globals;
pub mod headers;
pub mod http;
pub mod http_samples;
pub mod iteration;
pub mod json;
pub mod knockport;
pub mod options;
pub mod paths;
pub mod samples;
pub mod scenario;
pub mod script_state;
pub mod scripts;
pub mod shared_arrays;
pub mod shim_cache;
pub mod string_map;
pub mod system_tags;
pub mod text;
pub mod thresholds;
pub mod websocket;
