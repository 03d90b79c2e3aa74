//! The serving core of a development server for lazily built assets.
//!
//! A request path is mapped to a node of the asset graph, the node's content
//! (or a fallback) becomes a response, and the response is handed from the
//! task that computed it to the connection that waits for it.
//!
//! Nothing here opens a socket or talks to a task engine. Each component is a
//! function, or a state machine, over plain values; the program around the
//! library performs the reads, waits and sends that the machines ask for.
//!
//! - [`request_path`]: from the path of a request to the path of an asset.
//! - [`graph`]: an asset graph held in memory.
//! - [`traversal`]: the order in which a breadth-first walk discovers assets.
//! - [`resolution`]: which asset a path names.
//! - [`search`]: the search for that asset, one read of the graph at a time.
//! - [`resolver`]: the search run on a graph in memory.
//! - [`response`]: what is answered.
//! - [`task`]: the work for one request, one wait at a time.
//! - [`bridge`]: waiting for that work to settle on an engine that may start
//!   it over.
//! - [`server`]: the server as a value, and requests answered from memory.
//! - [`listening`]: the handle of a server that listens.

pub mod bridge;
pub mod graph;
pub mod listening;
pub mod request_path;
pub mod resolution;
pub mod resolver;
pub mod response;
pub mod search;
pub mod server;
pub mod task;
pub mod traversal;
