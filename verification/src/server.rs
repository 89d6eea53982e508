use vstd::prelude::*;

use crate::cache::{holds, loaded_at, next_count, not_before_any, served_at, Cache, CacheEntry, MAX_SIZE};
use crate::paths::{file_name, path_file_name};
use crate::request::HTTP_Request;
use crate::text::{
    append_decimal, chars_of, parse_i64, parsed_i64, trim, trimmed, decimal, find_char_from, find_chars, first_occurrence, index_of_char,
    lemma_index_of_char, slice_chars,
};

verus! {

/// The name the server announces itself with.
pub const SERVER_NAME: &'static str = "Zhtta Version 0.5";

/// The address served on unless another is given.
pub const IP: &'static str = "127.0.0.1";

/// The port served on unless another is given.
pub const PORT: u64 = 4414;

/// The directory served from unless another is given.
pub const WWW_DIR: &'static str = "./www";

/// The head of a successful HTML response.
pub const HTTP_OK: &'static str = "HTTP/1.1 200 OK\r\nContent-Type: text/html; charset=UTF-8\r\n\r\n";

/// The head of a response for a missing file.
pub const HTTP_BAD: &'static str = "HTTP/1.1 404 Not Found\r\n\r\n";

/// The opening of the counter page, up to its body.
pub const COUNTER_STYLE: &'static str = "<doctype !html><html><head><title>Hello, Rust!</title>\n             <style>body { background-color: #884414; color: #FFEEAA}\n                    h1 { font-size:2cm; text-align: center; color: black; text-shadow: 0 0 4mm red }\n                    h2 { font-size:2cm; text-align: center; color: black; text-shadow: 0 0 4mm green }\n             </style></head>\n             <body>";

/// The counter page's greeting, up to the count.
pub const COUNTER_GREETING: &'static str = "<h1>Greetings, Krusty!</h1>\n                     <h2>Visitor count: ";

/// The counter page after the count.
pub const COUNTER_CLOSING: &'static str = "</h2></body></html>\r\n";

/// The text of the error page before the path.
pub const ERROR_PREFIX: &'static str = "Cannot open: ";

/// What the server is configured with: where it listens, what it serves, and how many
/// worker tasks answer queued requests.
pub struct WebServer {
    pub ip: String,
    pub port: u64,
    pub www_dir_path: String,
    pub tasks: u64,
}

/// The number of worker tasks for a processor count read as `parsed`: the count when it
/// is positive, else one.
pub open spec fn tasks_for(parsed: Option<i64>) -> u64 {
    match parsed {
        Some(i) => if i > 0 { i as u64 } else { 1 },
        None => 1,
    }
}

/// What a file cache answer for a static file asks of the caller.
pub enum StaticFileAction {
    /// Send these cached bytes.
    Cached(Vec<u8>),
    /// Send the file while reading it, then offer what was read to the cache.
    ReadAndCache,
    /// Send the file while reading it; it is not cached.
    Stream,
}

/// `t` is the cache `s` after a request for the file at `path`, of `size` bytes, was
/// answered with `r` at the time `now`: a file smaller than `MAX_SIZE` whose name is cached
/// is served from its page; one whose name is not cached is to be read, the cache staying as
/// it was; a larger file, or a path without a file name, is streamed, the cache staying as it
/// was.
pub open spec fn answered_static(s: Seq<CacheEntry>, t: Seq<CacheEntry>, path: Seq<char>, size: u64, r: StaticFileAction, now: u64) -> bool {
    match r {
        StaticFileAction::Cached(data) => {
            &&& size < MAX_SIZE
            &&& path_file_name(path) is Some
            &&& holds(s, path_file_name(path)->0)
            &&& served_at(s, t, path_file_name(path)->0, data@, now)
        },
        StaticFileAction::ReadAndCache => {
            &&& size < MAX_SIZE
            &&& path_file_name(path) is Some
            &&& !holds(s, path_file_name(path)->0)
            &&& t == s
        },
        StaticFileAction::Stream => {
            &&& size >= MAX_SIZE || path_file_name(path) is None
            &&& t == s
        },
    }
}

/// `t` is the cache `s` (limited to `limit` bytes) after the `size` bytes `data` read from
/// the file at `path` were offered at the time `now`: a path without a file name, or a name
/// already cached, leaves the cache as it was; otherwise the file is loaded.
pub open spec fn offered_static(s: Seq<CacheEntry>, limit: u64, t: Seq<CacheEntry>, path: Seq<char>, size: u64, data: Seq<u8>, now: u64) -> bool {
    match path_file_name(path) {
        None => t == s,
        Some(name) => if holds(s, name) {
            t == s
        } else {
            loaded_at(s, limit, t, name, size, data, now)
        },
    }
}

/// The opening of an embedded command: `<!--#exec cmd=`.
pub open spec fn exec_open() -> Seq<char> {
    seq!['<', '!', '-', '-', '#', 'e', 'x', 'e', 'c', ' ', 'c', 'm', 'd', '=']
}

/// The end of an HTML comment: `-->`.
pub open spec fn exec_close() -> Seq<char> {
    seq!['-', '-', '>']
}

/// The embedded command of a page, as `(start, end, command)`: the directive runs from the
/// first `<!--#exec cmd=` to the end of the first `-->` of the page, and the command is
/// what stands between its first double quote and the next one (or the directive's end).
/// There is none when either marker is missing, when the first `-->` ends before the
/// directive starts, or when the directive holds no double quote.
pub open spec fn exec_directive(s: Seq<char>) -> Option<(int, int, Seq<char>)> {
    match (first_occurrence(s, exec_open()), first_occurrence(s, exec_close())) {
        (Some(start), Some(close)) => {
            let end = close + 3;
            let cmd = s.subrange(start, end);
            let q1 = index_of_char(cmd, '"', 0);
            let q2 = index_of_char(cmd, '"', q1 + 1);
            if start <= end && q1 < cmd.len() {
                Some((start, end, cmd.subrange(q1 + 1, q2)))
            } else {
                None
            }
        },
        _ => None,
    }
}

/// The embedded command of a page and where its directive stands.
pub struct ExecDirective {
    pub start: usize,
    pub end: usize,
    pub command: String,
}

impl WebServer {
    /// The number of worker tasks for a processor count read as `parsed`.
    pub fn tasks_for_count(parsed: Option<i64>) -> (tasks: u64)
        ensures
            tasks == tasks_for(parsed),
    {
        match parsed {
            Some(i) => if i > 0 { i as u64 } else { 1 },
            None => 1,
        }
    }

    /// A server for `ip` and `port`, serving `www_dir`, with as many worker tasks as the
    /// processor count that `nproc_output` reports (one when it reports none).
    pub fn new(ip: &str, port: u64, www_dir: &str, nproc_output: &str) -> (s: WebServer)
        ensures
            s.ip@ == ip@,
            s.port == port,
            s.www_dir_path@ == www_dir@,
            s.tasks == tasks_for(parsed_i64(trimmed(nproc_output@))),
    {
        let trimmed_output = trim(nproc_output);
        let tasks = WebServer::tasks_for_count(parse_i64(trimmed_output));
        WebServer {
            ip: String::from_str(ip),
            port,
            www_dir_path: String::from_str(www_dir),
            tasks,
        }
    }

    /// Counts one more visitor (wrapping around at the top of `u64`).
    pub fn update_count(count: &mut u64)
        ensures
            *final(count) == next_count(*old(count)),
    {
        *count = if *count == u64::MAX { 0 } else { *count + 1 };
    }

    /// The response for a path that cannot be served.
    pub fn respond_with_error_page(path: &str) -> (r: String)
        ensures
            r@ == HTTP_BAD@ + ERROR_PREFIX@ + path@,
    {
        let mut r = String::from_str(HTTP_BAD);
        r.append(ERROR_PREFIX);
        r.append(path);
        r
    }

    /// The counter page, showing `count` visitors.
    pub fn respond_with_counter_page(count: u64) -> (r: String)
        ensures
            r@ == HTTP_OK@ + COUNTER_STYLE@ + COUNTER_GREETING@ + decimal(count as nat) + COUNTER_CLOSING@,
    {
        let mut r = String::from_str(HTTP_OK);
        r.append(COUNTER_STYLE);
        r.append(COUNTER_GREETING);
        append_decimal(&mut r, count);
        r.append(COUNTER_CLOSING);
        r
    }

    /// Answers a request for a static file of `size` bytes from the cache at the time
    /// `now`: a file smaller than `MAX_SIZE` whose name is cached is served from its page
    /// (stamped with `now`); one whose name is not cached is to be read and offered to the
    /// cache; a larger file, or a path without a file name, is streamed.
    pub fn respond_with_static_file_at(cache: &mut Cache, http: &HTTP_Request, size: u64, now: u64) -> (r: StaticFileAction)
        requires
            old(cache).wf(),
        ensures
            final(cache).wf(),
            final(cache).limit() == old(cache).limit(),
            answered_static(old(cache)@, final(cache)@, http.path@, size, r, now),
    {
        if size >= MAX_SIZE {
            return StaticFileAction::Stream;
        }
        let name = match file_name(http.path.as_str()) {
            Some(n) => n,
            None => {
                return StaticFileAction::Stream;
            },
        };
        if cache.contains(http) {
            let data = cache.get_at(&name, now);
            StaticFileAction::Cached(data)
        } else {
            StaticFileAction::ReadAndCache
        }
    }

    /// Answers a request for a static file of `size` bytes from the cache, as
    /// `respond_with_static_file_at` does with the current time.
    pub fn respond_with_static_file(cache: &mut Cache, http: &HTTP_Request, size: u64) -> (r: StaticFileAction)
        requires
            old(cache).wf(),
        ensures
            final(cache).wf(),
            final(cache).limit() == old(cache).limit(),
            exists|now: u64| answered_static(old(cache)@, final(cache)@, http.path@, size, r, now)
                && not_before_any(old(cache)@, now),
    {
        let now = cache.current_time();
        WebServer::respond_with_static_file_at(cache, http, size, now)
    }

    /// Offers `data`, the `size` bytes read from the file of a request, to the cache at the
    /// time `now`, unless its name is cached by now; a path without a file name is not
    /// offered.
    pub fn cache_static_file_at(cache: &mut Cache, http: &HTTP_Request, size: u64, data: Vec<u8>, now: u64)
        requires
            old(cache).wf(),
        ensures
            final(cache).wf(),
            final(cache).limit() == old(cache).limit(),
            offered_static(old(cache)@, old(cache).limit(), final(cache)@, http.path@, size, data@, now),
            path_file_name(http.path@) is Some && size < old(cache).limit()
                ==> holds(final(cache)@, path_file_name(http.path@)->0),
    {
        match file_name(http.path.as_str()) {
            Some(_) => {},
            None => {
                return;
            },
        }
        if !cache.contains(http) {
            cache.load_at(&http.path, size, data, now);
        }
    }

    /// Offers `data`, the `size` bytes read from the file of a request, to the cache, as
    /// `cache_static_file_at` does, loading it with the current time.
    pub fn cache_static_file(cache: &mut Cache, http: &HTTP_Request, size: u64, data: Vec<u8>)
        requires
            old(cache).wf(),
        ensures
            final(cache).wf(),
            final(cache).limit() == old(cache).limit(),
            exists|now: u64| offered_static(old(cache)@, old(cache).limit(), final(cache)@, http.path@, size, data@, now)
                && not_before_any(old(cache)@, now),
            path_file_name(http.path@) is Some && size < old(cache).limit()
                ==> holds(final(cache)@, path_file_name(http.path@)->0),
    {
        match file_name(http.path.as_str()) {
            Some(_) => {},
            None => {
                assert(offered_static(old(cache)@, old(cache).limit(), cache@, http.path@, size, data@, u64::MAX)
                    && not_before_any(old(cache)@, u64::MAX));
                return;
            },
        }
        if !cache.contains(http) {
            let ghost s = cache@;
            let ghost limit = cache.limit();
            let ghost data_view = data@;
            cache.load(&http.path, size, data);
            proof {
                let now = choose|now: u64| loaded_at(s, limit, cache@, path_file_name(http.path@)->0, size, data_view, now)
                    && not_before_any(s, now);
                assert(offered_static(s, limit, cache@, http.path@, size, data_view, now) && not_before_any(s, now));
            }
        } else {
            assert(offered_static(old(cache)@, old(cache).limit(), cache@, http.path@, size, data@, u64::MAX)
                && not_before_any(old(cache)@, u64::MAX));
        }
    }

    /// Finds the embedded command of a page.
    pub fn parse_exec_directive(contents: &str) -> (r: Option<ExecDirective>)
        ensures
            match r {
                Some(d) => exec_directive(contents@) == Some((d.start as int, d.end as int, d.command@)),
                None => exec_directive(contents@) is None,
            },
    {
        proof {
            reveal_strlit("<!--#exec cmd=");
            reveal_strlit("-->");
            assert("<!--#exec cmd="@ =~= exec_open());
            assert("-->"@ =~= exec_close());
        }
        let v = chars_of(contents);
        let open = chars_of("<!--#exec cmd=");
        let close = chars_of("-->");
        let start = match find_chars(&v, &open) {
            Some(i) => i,
            None => {
                return None;
            },
        };
        let close_at = match find_chars(&v, &close) {
            Some(i) => i,
            None => {
                return None;
            },
        };
        proof {
            crate::text::lemma_find_from(v@, close@, 0);
            assert(close@.len() == 3);
            assert(close_at + close@.len() <= v@.len());
        }
        let v_len = v.len();
        assert(close_at + 3 <= v_len);
        let end = close_at + 3;
        if start > end {
            return None;
        }
        let cmd = slice_chars(&v, start, end);
        let q1 = find_char_from(&cmd, '"', 0);
        if q1 >= cmd.len() {
            return None;
        }
        let q2 = find_char_from(&cmd, '"', q1 + 1);
        proof {
            lemma_index_of_char(cmd@, '"', 0);
            lemma_index_of_char(cmd@, '"', q1 + 1);
            assert(cmd@.subrange(q1 + 1, q2 as int) =~= contents@.subrange(start + q1 + 1, start + q2));
        }
        let command = String::from_str(contents.substring_char(start + q1 + 1, start + q2));
        Some(ExecDirective { start, end, command })
    }

    /// The page with its directive replaced by the output of its command.
    pub fn respond_with_dynamic_page(contents: &str, directive: &ExecDirective, gash_output: &str) -> (r: String)
        requires
            directive.start <= directive.end <= contents@.len(),
        ensures
            r@ == contents@.subrange(0, directive.start as int) + gash_output@
                + contents@.subrange(directive.end as int, contents@.len() as int),
    {
        let len = contents.unicode_len();
        let mut r = String::from_str(contents.substring_char(0, directive.start));
        r.append(gash_output);
        r.append(contents.substring_char(directive.end, len));
        r
    }
}

} // verus!

verus! {

/// The visitor count `v` after `n` more visitors.
pub open spec fn count_after(v: u64, n: nat) -> u64
    decreases n,
{
    if n == 0 {
        v
    } else {
        next_count(count_after(v, (n - 1) as nat))
    }
}

/// Counting `n` visitors from `v` gives `v + n`, wrapping around at the top of `u64`.
pub proof fn law_visitor_count_after(v: u64, n: nat)
    ensures
        count_after(v, n) as int == (v + n) % 0x1_0000_0000_0000_0000,
    decreases n,
{
    let m: int = 0x1_0000_0000_0000_0000;
    if n == 0 {
        vstd::arithmetic::div_mod::lemma_small_mod(v as nat, m as nat);
    } else {
        law_visitor_count_after(v, (n - 1) as nat);
        let x: int = v + n - 1;
        let r = count_after(v, (n - 1) as nat);
        vstd::arithmetic::div_mod::lemma_add_mod_noop(x, 1, m);
        vstd::arithmetic::div_mod::lemma_small_mod(1, m as nat);
        if r == u64::MAX {
            vstd::arithmetic::div_mod::lemma_mod_self_0(m);
            assert((r + 1) % m == 0);
        } else {
            vstd::arithmetic::div_mod::lemma_small_mod((r + 1) as nat, m as nat);
        }
    }
}

} // verus!
