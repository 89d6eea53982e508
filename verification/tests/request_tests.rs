use zhtta::request::{HTTP_Request, Route};
use zhtta::server::WebServer;

fn req(peer: &str, path: &str) -> HTTP_Request {
    HTTP_Request { peer_name: String::from(peer), path: String::from(path) }
}

fn peers(q: &Vec<HTTP_Request>) -> Vec<String> {
    q.iter().map(|r| r.peer_name.clone()).collect()
}

#[test]
fn request_path_is_second_word() {
    assert_eq!(WebServer::parse_request_path("GET /index.html HTTP/1.1\r\n"), Some(String::from("./index.html")));
    assert_eq!(WebServer::parse_request_path("GET / HTTP/1.1"), Some(String::from("./")));
    assert_eq!(WebServer::parse_request_path("GET  x"), Some(String::from(".")));
    assert_eq!(WebServer::parse_request_path("GET /index.html"), None);
    assert_eq!(WebServer::parse_request_path("nothing"), None);
    assert_eq!(WebServer::parse_request_path(""), None);
}

#[test]
fn routes_follow_the_request() {
    assert_eq!(WebServer::route_request("./", "/srv", true, true, 0), Route::CounterPage);
    assert_eq!(WebServer::route_request("./missing", "/srv/missing", false, false, 0), Route::ErrorPage);
    assert_eq!(WebServer::route_request("./dir", "/srv/dir", true, true, 4096), Route::ErrorPage);
    assert_eq!(WebServer::route_request("./a.shtml", "/srv/a.shtml", true, false, 9000), Route::DynamicPage);
    assert_eq!(WebServer::route_request("./a.html", "/srv/a.html", true, false, 511), Route::SmallFile);
    assert_eq!(WebServer::route_request("./a.html", "/srv/a.html", true, false, 512), Route::QueuedFile);
    assert_eq!(WebServer::route_request("./a.shtmlx", "/srv/a.shtmlx", true, false, 10), Route::SmallFile);
}

#[test]
fn peer_name_defaults_to_empty() {
    assert_eq!(WebServer::get_peer_name(Some(String::from("1.2.3.4:80"))), String::from("1.2.3.4:80"));
    assert_eq!(WebServer::get_peer_name(None), String::new());
}

#[test]
fn request_clone_copies_fields() {
    let r = req("128.143.1.1:9", "/srv/x");
    let c = r.clone();
    assert_eq!(c.peer_name, r.peer_name);
    assert_eq!(c.path, r.path);
}

#[test]
fn empty_queue_takes_any_request() {
    let mut q = Vec::new();
    WebServer::enqueue_static_file_request(&mut q, req("8.8.8.8:1", "/a"));
    assert_eq!(peers(&q), vec![String::from("8.8.8.8:1")]);
}

#[test]
fn local_request_goes_ahead_of_remote() {
    let mut q = vec![req("10.1.1.1:1", "/a"), req("10.2.2.2:2", "/b")];
    WebServer::enqueue_static_file_request(&mut q, req("128.143.7.7:3", "/c"));
    assert_eq!(peers(&q), vec![String::from("128.143.7.7:3"), String::from("10.1.1.1:1"), String::from("10.2.2.2:2")]);
}

#[test]
fn local_request_stays_behind_local_ones() {
    let mut q = vec![req("137.54.1.1:1", "/a"), req("10.2.2.2:2", "/b"), req("10.3.3.3:3", "/c")];
    WebServer::enqueue_static_file_request(&mut q, req("137.54.9.9:4", "/d"));
    assert_eq!(
        peers(&q),
        vec![String::from("137.54.1.1:1"), String::from("137.54.9.9:4"), String::from("10.2.2.2:2"), String::from("10.3.3.3:3")]
    );
}

#[test]
fn every_request_is_queued() {
    let mut q = vec![req("8.8.8.8:5000", "/big.bin")];
    WebServer::enqueue_static_file_request(&mut q, req("128.143.67.1:6000", "/small.bin"));
    assert_eq!(peers(&q), vec![String::from("128.143.67.1:6000"), String::from("8.8.8.8:5000")]);
    let mut q = vec![req("10.1.1.1:1", "/a"), req("10.2.2.2:2", "/b")];
    WebServer::enqueue_static_file_request(&mut q, req("10.9.9.9:3", "/c"));
    assert_eq!(peers(&q), vec![String::from("10.1.1.1:1"), String::from("10.2.2.2:2"), String::from("10.9.9.9:3")]);
    let mut q = vec![req("128.143.1.1:1", "/a"), req("10.2.2.2:2", "/b")];
    WebServer::enqueue_static_file_request(&mut q, req("128.143.9.9:3", "/c"));
    assert_eq!(peers(&q), vec![String::from("128.143.1.1:1"), String::from("128.143.9.9:3"), String::from("10.2.2.2:2")]);
    let mut q = vec![req("137.54.1.1:1", "/a")];
    WebServer::enqueue_static_file_request(&mut q, req("137.54.2.2:2", "/b"));
    assert_eq!(peers(&q), vec![String::from("137.54.1.1:1"), String::from("137.54.2.2:2")]);
    let mut q = vec![req("1.1", "/a")];
    WebServer::enqueue_static_file_request(&mut q, req("2.2", "/b"));
    assert_eq!(peers(&q), vec![String::from("1.1"), String::from("2.2")]);
}

#[test]
fn dequeue_takes_the_head() {
    let mut q = vec![req("10.1.1.1:1", "/a"), req("10.2.2.2:2", "/b")];
    let first = WebServer::dequeue_static_file_request(&mut q).unwrap();
    assert_eq!(first.path, String::from("/a"));
    assert_eq!(peers(&q), vec![String::from("10.2.2.2:2")]);
    let second = WebServer::dequeue_static_file_request(&mut q).unwrap();
    assert_eq!(second.path, String::from("/b"));
    assert!(WebServer::dequeue_static_file_request(&mut q).is_none());
    assert!(q.is_empty());
}
