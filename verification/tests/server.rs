use turbopack_dev_server::graph::{Asset, AssetGraph};
use turbopack_dev_server::listening::DevServerListening;
use turbopack_dev_server::response::{
    Response, STATUS_INTERNAL_ERROR, STATUS_NOT_FOUND, STATUS_OK,
};
use turbopack_dev_server::server::{DevServer, ListenAddress};

fn file(path: &str, content: &str, references: Vec<usize>) -> Asset {
    Asset {
        path: Some(path.to_string()),
        content: Some(content.as_bytes().to_vec()),
        references,
    }
}

fn graph(assets: Vec<Asset>) -> AssetGraph {
    AssetGraph::from_assets(assets).expect("references in range")
}

fn no_fallback(_path: &str) -> Option<String> {
    None
}

#[test]
fn status_numbers() {
    assert_eq!(STATUS_OK, 200);
    assert_eq!(STATUS_NOT_FOUND, 404);
    assert_eq!(STATUS_INTERNAL_ERROR, 500);
}

#[test]
fn responses_by_kind() {
    assert_eq!(Response::ok(vec![1, 2, 3]), Response { status: 200, body: vec![1, 2, 3] });
    assert_eq!(Response::ok(vec![]), Response { status: 200, body: vec![] });
    assert_eq!(Response::not_found(), Response { status: 404, body: vec![] });
    assert_eq!(Response::internal_error(), Response { status: 500, body: vec![] });
}

#[test]
fn response_from_fallback_text() {
    assert_eq!(
        Response::from_fallback(Some("<app shell>".to_string())),
        Response { status: 200, body: b"<app shell>".to_vec() }
    );
    assert_eq!(
        Response::from_fallback(Some(String::new())),
        Response { status: 200, body: vec![] }
    );
    assert_eq!(Response::from_fallback(None), Response { status: 404, body: vec![] });
}

#[test]
fn response_from_fallback_text_is_utf8() {
    assert_eq!(
        Response::from_fallback(Some("é€".to_string())),
        Response { status: 200, body: vec![0xC3, 0xA9, 0xE2, 0x82, 0xAC] }
    );
}

#[test]
fn new_server_keeps_what_it_is_given() {
    let server = DevServer::new("/project/out".to_string(), 3, no_fallback);
    assert_eq!(server.root_path, "/project/out");
    assert_eq!(server.root_asset, 3);
    assert_eq!((server.fallback_handler)("/x"), None);
    assert_eq!(server.address, ListenAddress { a: 127, b: 0, c: 0, d: 1, port: 3000 });
}

#[test]
fn address_can_be_set() {
    let handler = |path: &str| Some(path.to_uppercase());
    let address = ListenAddress { a: 0, b: 0, c: 0, d: 0, port: 8080 };
    let server = DevServer::new(String::new(), 0, handler).with_address(address);
    assert_eq!(server.address, address);
    assert_eq!(server.root_path, "");
    assert_eq!(server.root_asset, 0);
    assert_eq!((server.fallback_handler)("/x"), Some("/X".to_string()));
}

#[test]
fn get_root_serves_the_index_document() {
    let g = graph(vec![file("index.html", "<h1>hi</h1>", vec![])]);
    let server = DevServer::new("root".to_string(), 0, no_fallback);
    assert_eq!(
        server.handle_request(&g, "/"),
        Response { status: 200, body: b"<h1>hi</h1>".to_vec() }
    );
    assert_eq!(server.handle_request(&g, "/"), server.handle_request(&g, "/index.html"));
}

#[test]
fn get_missing_without_fallback_is_not_found() {
    let g = graph(vec![file("index.html", "<h1>hi</h1>", vec![])]);
    let server = DevServer::new("root".to_string(), 0, no_fallback);
    assert_eq!(
        server.handle_request(&g, "/missing.txt"),
        Response { status: 404, body: vec![] }
    );
}

#[test]
fn get_unmatched_route_serves_the_fallback() {
    let g = graph(vec![file("index.html", "<h1>hi</h1>", vec![])]);
    let server =
        DevServer::new("root".to_string(), 0, |_path: &str| Some("<app shell>".to_string()));
    assert_eq!(
        server.handle_request(&g, "/app/route"),
        Response { status: 200, body: b"<app shell>".to_vec() }
    );
    assert_eq!(
        server.handle_request(&g, "/"),
        Response { status: 200, body: b"<h1>hi</h1>".to_vec() }
    );
}

#[test]
fn fallback_is_asked_with_the_request_path() {
    let g = graph(vec![file("index.html", "<h1>hi</h1>", vec![])]);
    let server = DevServer::new("root".to_string(), 0, |path: &str| Some(format!("[{}]", path)));
    assert_eq!(
        server.handle_request(&g, "/app/"),
        Response { status: 200, body: b"[/app/]".to_vec() }
    );
    assert_eq!(server.handle_request(&g, ""), Response { status: 200, body: b"<h1>hi</h1>".to_vec() });
}

#[test]
fn directory_request_serves_its_index_document() {
    let g = graph(vec![
        file("index.html", "home", vec![1, 2]),
        file("docs/index.html", "docs", vec![]),
        file("app.js", "js", vec![0]),
    ]);
    let server = DevServer::new("root".to_string(), 0, no_fallback);
    assert_eq!(server.handle_request(&g, "/docs/"), Response { status: 200, body: b"docs".to_vec() });
    assert_eq!(
        server.handle_request(&g, "/docs/"),
        server.handle_request(&g, "/docs/index.html")
    );
    assert_eq!(server.handle_request(&g, "/app.js"), Response { status: 200, body: b"js".to_vec() });
    assert_eq!(server.handle_request(&g, "/docs"), Response { status: 404, body: vec![] });
}

#[test]
fn asset_without_content_falls_back() {
    let g = graph(vec![
        file("index.html", "home", vec![1]),
        Asset { path: Some("dir".to_string()), content: None, references: vec![] },
    ]);
    let silent = DevServer::new("root".to_string(), 0, no_fallback);
    assert_eq!(silent.handle_request(&g, "/dir"), Response { status: 404, body: vec![] });
    let shell = DevServer::new("root".to_string(), 0, |_p: &str| Some("shell".to_string()));
    assert_eq!(shell.handle_request(&g, "/dir"), Response { status: 200, body: b"shell".to_vec() });
}

#[test]
fn empty_content_is_served_as_it_is() {
    let g = graph(vec![file("index.html", "", vec![])]);
    let server = DevServer::new("root".to_string(), 0, |_p: &str| Some("shell".to_string()));
    assert_eq!(server.handle_request(&g, "/"), Response { status: 200, body: vec![] });
}

#[test]
fn root_asset_outside_the_graph_serves_only_the_fallback() {
    let g = graph(vec![file("index.html", "home", vec![])]);
    let server = DevServer::new("root".to_string(), 5, no_fallback);
    assert_eq!(server.handle_request(&g, "/"), Response { status: 404, body: vec![] });
}

#[test]
fn handling_a_request_again_gives_the_same_response() {
    let g = graph(vec![file("index.html", "home", vec![0])]);
    let server = DevServer::new("root".to_string(), 0, no_fallback);
    let first = server.handle_request(&g, "/index.html");
    let second = server.handle_request(&g, "/index.html");
    assert_eq!(first, second);
    assert_eq!(first.status, 200);
}

#[test]
fn listening_handle_holds_its_future() {
    let listening = DevServerListening::new(std::future::ready(7u8));
    assert_eq!(listening.future.into_inner(), 7);
}
