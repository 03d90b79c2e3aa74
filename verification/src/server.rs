//! The server as a value: what it serves, from where, and what it answers.

use crate::graph::{Asset, AssetGraph, AssetId, GraphView};
use crate::request_path::spec_asset_path;
use crate::resolution::{resolution, FindAssetResult};
use crate::resolver::find_asset_2;
use crate::response::{bytes_of, fallback_response, ok_response, text_of, Response};
use crate::task::{RequestTask, TaskAction, TaskEvent};
use vstd::prelude::*;

verus! {

/// An IPv4 address and a port.
#[derive(Clone, Copy, Debug, PartialEq, Eq, Structural)]
pub struct ListenAddress {
    pub a: u8,
    pub b: u8,
    pub c: u8,
    pub d: u8,
    pub port: u16,
}

/// The address a server listens on unless it is given another one: port 3000
/// of the loopback interface.
pub open spec fn default_address() -> ListenAddress {
    ListenAddress { a: 127, b: 0, c: 0, d: 1, port: 3000 }
}

/// What a server is made of.
pub struct DevServer<F> {
    /// The directory that the served paths are relative to.
    pub root_path: String,
    /// The asset from which every served asset can be reached.
    pub root_asset: AssetId,
    /// Says what to serve for a request path that no asset answers.
    pub fallback_handler: F,
    /// Where to listen.
    pub address: ListenAddress,
}

/// The content served for an answer of the resolver.
pub open spec fn served_content(g: GraphView, found: FindAssetResult) -> Option<Seq<u8>> {
    match found {
        FindAssetResult::Found(a) => if a < g.len() {
            g[a as int].content
        } else {
            None
        },
        FindAssetResult::NotFound => None,
    }
}

/// The content served for a request path: that of the asset which the path
/// names below `root`.
pub open spec fn content_at(g: GraphView, root: AssetId, request_path: Seq<char>) -> Option<
    Seq<u8>,
> {
    served_content(g, resolution(g, root, spec_asset_path(request_path)))
}

/// The content of an asset, for a task to take.
fn content_of(asset: &Asset) -> (content: Option<Vec<u8>>)
    ensures
        bytes_of(content) == asset@.content,
{
    match &asset.content {
        Some(c) => Some(c.clone()),
        None => None,
    }
}

impl<F: Fn(&str) -> Option<String>> DevServer<F> {
    /// A server for the assets below `root_asset`, on the default address.
    pub fn new(root_path: String, root_asset: AssetId, fallback_handler: F) -> (server: Self)
        ensures
            server.root_path == root_path,
            server.root_asset == root_asset,
            server.fallback_handler == fallback_handler,
            server.address == default_address(),
    {
        DevServer {
            root_path,
            root_asset,
            fallback_handler,
            address: ListenAddress { a: 127, b: 0, c: 0, d: 1, port: 3000 },
        }
    }

    /// The same server on another address.
    pub fn with_address(self, address: ListenAddress) -> (server: Self)
        ensures
            server.root_path == self.root_path,
            server.root_asset == self.root_asset,
            server.fallback_handler == self.fallback_handler,
            server.address == address,
    {
        DevServer {
            root_path: self.root_path,
            root_asset: self.root_asset,
            fallback_handler: self.fallback_handler,
            address,
        }
    }

    /// Answers a request for `request_path` from the graph: the content of
    /// the asset that the path names, else what the fallback handler gives
    /// for the request path, else not found.
    ///
    /// This runs a [`RequestTask`] and does itself what the task asks for.
    pub fn handle_request(&self, graph: &AssetGraph, request_path: &str) -> (response: Response)
        requires
            call_requires(self.fallback_handler, (request_path,)),
        ensures
            content_at(graph@, self.root_asset, request_path@) matches Some(body) ==> response@
                == ok_response(body),
            content_at(graph@, self.root_asset, request_path@) is None ==> exists|
                fallback: Option<String>,
            |
                call_ensures(self.fallback_handler, (request_path,), fallback) && response@
                    == fallback_response(text_of(fallback)),
    {
        let begun = RequestTask::start(request_path);
        let mut task = begun.0;
        let found = match begun.1 {
            TaskAction::Resolve { asset_path } => find_asset_2(
                graph,
                self.root_asset,
                asset_path.as_str(),
            ),
            _ => FindAssetResult::NotFound,
        };
        let mut action = task.step(TaskEvent::Resolved { found });
        if let TaskAction::ReadContent { asset } = action {
            let content = content_of(graph.asset(asset));
            action = task.step(TaskEvent::Content { content });
        }
        if let TaskAction::AskFallback { request_path: _ } = action {
            let text = (self.fallback_handler)(request_path);
            action = task.step(TaskEvent::Fallback { text });
        }
        match action {
            TaskAction::Send { response } => response,
            _ => Response::internal_error(),
        }
    }
}

} // verus!
