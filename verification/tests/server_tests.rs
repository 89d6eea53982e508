use zhtta::cache::{Cache, MAX_SIZE};
use zhtta::request::HTTP_Request;
use zhtta::text::{parse_i64, trim};
use zhtta::server::{StaticFileAction, WebServer, COUNTER_STYLE, HTTP_BAD, HTTP_OK};

fn req(path: &str) -> HTTP_Request {
    HTTP_Request { peer_name: String::from("10.0.0.1:5000"), path: String::from(path) }
}

#[test]
fn tasks_follow_processor_count() {
    assert_eq!(WebServer::tasks_for_count(Some(8)), 8);
    assert_eq!(WebServer::tasks_for_count(Some(0)), 1);
    assert_eq!(WebServer::tasks_for_count(Some(-3)), 1);
    assert_eq!(WebServer::tasks_for_count(None), 1);
}

#[test]
fn new_server_reads_processor_count() {
    let s = WebServer::new("127.0.0.1", 4414, "./www", "4\n");
    assert_eq!(s.ip, String::from("127.0.0.1"));
    assert_eq!(s.port, 4414);
    assert_eq!(s.www_dir_path, String::from("./www"));
    assert_eq!(s.tasks, 4);
    assert_eq!(WebServer::new("0.0.0.0", 80, "/srv", "  12  ").tasks, 12);
    assert_eq!(WebServer::new("0.0.0.0", 80, "/srv", "twelve").tasks, 1);
    assert_eq!(WebServer::new("0.0.0.0", 80, "/srv", "-2").tasks, 1);
    assert_eq!(WebServer::new("0.0.0.0", 80, "/srv", "").tasks, 1);
}

#[test]
fn visitor_count_increments() {
    let mut n: u64 = 41;
    WebServer::update_count(&mut n);
    assert_eq!(n, 42);
    let mut m: u64 = u64::MAX;
    WebServer::update_count(&mut m);
    assert_eq!(m, 0);
}

#[test]
fn error_page_names_the_path() {
    let r = WebServer::respond_with_error_page("/srv/www/missing.html");
    assert_eq!(r, String::from("HTTP/1.1 404 Not Found\r\n\r\nCannot open: /srv/www/missing.html"));
    assert!(r.starts_with(HTTP_BAD));
}

#[test]
fn counter_page_shows_the_count() {
    let r = WebServer::respond_with_counter_page(42);
    let expected = format!(
        "{}{}<h1>Greetings, Krusty!</h1>\n                     <h2>Visitor count: 42</h2></body></html>\r\n",
        HTTP_OK, COUNTER_STYLE
    );
    assert_eq!(r, expected);
    assert!(WebServer::respond_with_counter_page(0).contains("Visitor count: 0</h2>"));
    assert!(WebServer::respond_with_counter_page(1000).contains("Visitor count: 1000</h2>"));
    assert!(WebServer::respond_with_counter_page(u64::MAX).contains("Visitor count: 18446744073709551615</h2>"));
}

#[test]
fn exec_directive_is_found() {
    let page = "<html><!--#exec cmd=\"date\" --> now</html>";
    let d = WebServer::parse_exec_directive(page).unwrap();
    assert_eq!(d.start, 6);
    assert_eq!(d.end, 30);
    assert_eq!(d.command, String::from("date"));
    let r = WebServer::respond_with_dynamic_page(page, &d, "Mon Jan 1");
    assert_eq!(r, String::from("<html>Mon Jan 1 now</html>"));
}

#[test]
fn exec_directive_needs_markers_and_quote() {
    assert!(WebServer::parse_exec_directive("<html>plain</html>").is_none());
    assert!(WebServer::parse_exec_directive("<!--#exec cmd=\"ls\"").is_none());
    assert!(WebServer::parse_exec_directive("<!--#exec cmd=ls -->").is_none());
    assert!(WebServer::parse_exec_directive("<!-- note --><!--#exec cmd=\"ls\" -->").is_none());
}

#[test]
fn exec_directive_with_one_quote_runs_to_the_end() {
    let page = "a<!--#exec cmd=\"ls -l-->b";
    let d = WebServer::parse_exec_directive(page).unwrap();
    assert_eq!(d.command, String::from("ls -l-->"));
    assert_eq!(WebServer::respond_with_dynamic_page(page, &d, "X"), String::from("aXb"));
}

#[test]
fn static_file_is_cached_after_first_read() {
    let mut c = Cache::new();
    let r = req("/srv/www/big.html");
    match WebServer::respond_with_static_file(&mut c, &r, 1000) {
        StaticFileAction::ReadAndCache => {}
        _ => panic!("expected a read"),
    }
    WebServer::cache_static_file(&mut c, &r, 1000, vec![9; 1000]);
    assert_eq!(c.current_size(), 1000);
    match WebServer::respond_with_static_file(&mut c, &r, 1000) {
        StaticFileAction::Cached(data) => assert_eq!(data, vec![9; 1000]),
        _ => panic!("expected the cached page"),
    }
    WebServer::cache_static_file(&mut c, &r, 1000, vec![1; 1000]);
    match WebServer::respond_with_static_file(&mut c, &r, 1000) {
        StaticFileAction::Cached(data) => assert_eq!(data, vec![9; 1000]),
        _ => panic!("expected the cached page"),
    }
}

#[test]
fn large_or_unnamed_file_is_streamed() {
    let mut c = Cache::new();
    match WebServer::respond_with_static_file(&mut c, &req("/srv/huge.iso"), MAX_SIZE) {
        StaticFileAction::Stream => {}
        _ => panic!("expected streaming"),
    }
    match WebServer::respond_with_static_file(&mut c, &req("/"), 10) {
        StaticFileAction::Stream => {}
        _ => panic!("expected streaming"),
    }
    WebServer::cache_static_file(&mut c, &req("/"), 10, vec![1; 10]);
    assert_eq!(c.len(), 0);
}

#[test]
fn static_file_at_stamps_and_stores_with_the_given_time() {
    let mut c = Cache::new();
    let r = req("/srv/www/page.html");
    match WebServer::respond_with_static_file_at(&mut c, &r, 700, 5) {
        StaticFileAction::ReadAndCache => {}
        _ => panic!("expected a read"),
    }
    WebServer::cache_static_file_at(&mut c, &r, 700, vec![3; 700], 6);
    assert_eq!(c.page(&String::from("page.html")).unwrap().last_access, 6);
    match WebServer::respond_with_static_file_at(&mut c, &r, 700, 9) {
        StaticFileAction::Cached(data) => assert_eq!(data, vec![3; 700]),
        _ => panic!("expected the cached page"),
    }
    let p = c.page(&String::from("page.html")).unwrap();
    assert_eq!(p.last_access, 9);
    assert_eq!(p.accesses, 1);
}

#[test]
fn integers_parse_like_std() {
    assert_eq!(parse_i64("42"), Some(42));
    assert_eq!(parse_i64("+7"), Some(7));
    assert_eq!(parse_i64("-15"), Some(-15));
    assert_eq!(parse_i64("007"), Some(7));
    assert_eq!(parse_i64("9223372036854775807"), Some(i64::MAX));
    assert_eq!(parse_i64("-9223372036854775808"), Some(i64::MIN));
    assert_eq!(parse_i64("9223372036854775808"), None);
    assert_eq!(parse_i64("-9223372036854775809"), None);
    assert_eq!(parse_i64("99999999999999999999999x"), None);
    assert_eq!(parse_i64(""), None);
    assert_eq!(parse_i64("-"), None);
    assert_eq!(parse_i64("+"), None);
    assert_eq!(parse_i64("4 "), None);
    assert_eq!(parse_i64("1e3"), None);
    for s in ["0", "-0", "+0", "123456789", "-2", "abc", "--1", "+-1"] {
        assert_eq!(parse_i64(s), s.parse::<i64>().ok());
    }
}

#[test]
fn trimming_drops_white_space_like_std() {
    for s in ["  4\n", "\t\r\n 12 \u{3000}", "", "   ", "a b", "\u{85}x\u{a0}", "\u{2003}y\u{2028}"] {
        assert_eq!(trim(s), s.trim());
    }
    assert_eq!(trim(" nproc \n"), "nproc");
}
