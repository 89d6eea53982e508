use vstd::prelude::*;

use crate::paths::{extension, path_extension};
use crate::server::WebServer;
use crate::text::{chars_of, find_char_from, index_of_char, lemma_index_of_char, same_text};

verus! {

/// A request for a static file waiting in the queue: who asked, and for which path.
#[allow(non_camel_case_types)]
pub struct HTTP_Request {
    pub peer_name: String,
    pub path: String,
}

impl HTTP_Request {
    /// A copy of the request.
    pub fn clone(&self) -> (r: HTTP_Request)
        ensures
            r.peer_name@ == self.peer_name@,
            r.path@ == self.path@,
    {
        HTTP_Request { peer_name: self.peer_name.clone(), path: self.path.clone() }
    }
}

/// The path a request asks for, relative to the served directory: `.` followed by the word
/// between the first and the second space, when the request holds two spaces.
pub open spec fn request_target(r: Seq<char>) -> Option<Seq<char>> {
    let first = index_of_char(r, ' ', 0);
    let second = index_of_char(r, ' ', first + 1);
    if first < r.len() && second < r.len() {
        Some(seq!['.'] + r.subrange(first + 1, second))
    } else {
        None
    }
}

/// How a request is answered.
#[derive(PartialEq, Eq, Structural, Debug, Clone, Copy)]
pub enum Route {
    /// The visitor counter page, for the served directory itself.
    CounterPage,
    /// The error page, for a path that is missing or is a directory.
    ErrorPage,
    /// A page with an embedded command, for an `.shtml` file.
    DynamicPage,
    /// A small file, sent at once.
    SmallFile,
    /// A large file, queued for the worker tasks.
    QueuedFile,
}

/// The path `./`, which asks for the counter page.
pub open spec fn counter_path() -> Seq<char> {
    seq!['.', '/']
}

/// The extension of pages with an embedded command.
pub open spec fn dynamic_extension() -> Seq<char> {
    seq!['s', 'h', 't', 'm', 'l']
}

/// Files smaller than this many bytes are sent at once rather than queued.
pub const SMALL_FILE_LIMIT: u64 = 512;

/// How a request for `path` (resolved to the file `file`) is answered, given whether the
/// file exists, whether it is a directory, and its size.
pub open spec fn route_for(path: Seq<char>, file: Seq<char>, found: bool, is_dir: bool, size: u64) -> Route {
    if path == counter_path() {
        Route::CounterPage
    } else if !found || is_dir {
        Route::ErrorPage
    } else if path_extension(file) == Some(dynamic_extension()) {
        Route::DynamicPage
    } else if size < SMALL_FILE_LIMIT {
        Route::SmallFile
    } else {
        Route::QueuedFile
    }
}

impl WebServer {
    /// The path a request asks for, relative to the served directory: `.` followed by the
    /// word between the first and the second space; `None` when the request has fewer than
    /// two spaces.
    pub fn parse_request_path(request: &str) -> (r: Option<String>)
        ensures
            match r {
                Some(p) => request_target(request@) == Some(p@),
                None => request_target(request@) is None,
            },
    {
        let v = chars_of(request);
        let first = find_char_from(&v, ' ', 0);
        if first >= v.len() {
            return None;
        }
        let second = find_char_from(&v, ' ', first + 1);
        if second >= v.len() {
            return None;
        }
        proof {
            lemma_index_of_char(v@, ' ', 0);
            lemma_index_of_char(v@, ' ', first + 1);
            reveal_strlit(".");
        }
        let mut p = String::from_str(".");
        p.append(request.substring_char(first + 1, second));
        proof {
            assert(p@ =~= seq!['.'] + request@.subrange(first + 1, second as int));
        }
        Some(p)
    }

    /// How a request for `path_str`, resolved to `file_path`, is answered, given whether
    /// the file was found, whether it is a directory, and its size in bytes.
    pub fn route_request(path_str: &str, file_path: &str, found: bool, is_dir: bool, size: u64) -> (r: Route)
        ensures
            r == route_for(path_str@, file_path@, found, is_dir, size),
    {
        proof {
            reveal_strlit("./");
            reveal_strlit("shtml");
            assert("./"@ =~= counter_path());
            assert("shtml"@ =~= dynamic_extension());
        }
        if same_text(path_str, "./") {
            Route::CounterPage
        } else if !found || is_dir {
            Route::ErrorPage
        } else {
            let dynamic = match extension(file_path) {
                Some(e) => same_text(e.as_str(), "shtml"),
                None => false,
            };
            if dynamic {
                Route::DynamicPage
            } else if size < SMALL_FILE_LIMIT {
                Route::SmallFile
            } else {
                Route::QueuedFile
            }
        }
    }

    /// The name of the peer a connection comes from, or the empty string when it is not
    /// known.
    pub fn get_peer_name(peer: Option<String>) -> (name: String)
        ensures
            name@ == match peer {
                Some(p) => p@,
                None => Seq::<char>::empty(),
            },
    {
        match peer {
            Some(p) => p,
            None => String::new(),
        }
    }
}

} // verus!

verus! {

/// How requests are answered: `./` gets the counter page; otherwise a missing path or a
/// directory gets the error page; an existing `.shtml` file gets the dynamic page whatever
/// its size; any other existing file is sent at once under 512 bytes and queued from 512
/// bytes on.
pub proof fn law_routes(path: Seq<char>, file: Seq<char>, found: bool, is_dir: bool, size: u64)
    ensures
        path == seq!['.', '/'] ==> route_for(path, file, found, is_dir, size) == Route::CounterPage,
        path != seq!['.', '/'] && (!found || is_dir) ==> route_for(path, file, found, is_dir, size) == Route::ErrorPage,
        path != seq!['.', '/'] && found && !is_dir && path_extension(file) == Some(seq!['s', 'h', 't', 'm', 'l'])
            ==> route_for(path, file, found, is_dir, size) == Route::DynamicPage,
        path != seq!['.', '/'] && found && !is_dir && path_extension(file) != Some(seq!['s', 'h', 't', 'm', 'l']) && size < 512
            ==> route_for(path, file, found, is_dir, size) == Route::SmallFile,
        path != seq!['.', '/'] && found && !is_dir && path_extension(file) != Some(seq!['s', 'h', 't', 'm', 'l']) && size >= 512
            ==> route_for(path, file, found, is_dir, size) == Route::QueuedFile,
{
}

/// The path read from a request is `.` followed by the word between its first and second
/// spaces: there is one exactly when the request holds two spaces, and then it is
/// `.` + `r[i + 1 .. j]` where `r[i]` and `r[j]` are spaces and no other character before
/// `r[j]` is one.
pub proof fn law_request_path_is_second_word(r: Seq<char>)
    ensures
        request_target(r) is Some <==> exists|i: int, j: int| 0 <= i < j < r.len() && r[i] == ' ' && r[j] == ' ',
        request_target(r) is Some ==> exists|i: int, j: int|
            0 <= i < j < r.len() && r[i] == ' ' && r[j] == ' '
                && (forall|k: int| 0 <= k < j && k != i ==> r[k] != ' ')
                && request_target(r)->0 == seq!['.'] + r.subrange(i + 1, j),
{
    lemma_index_of_char(r, ' ', 0);
    let first = index_of_char(r, ' ', 0);
    if first < r.len() {
        lemma_index_of_char(r, ' ', first + 1);
        let second = index_of_char(r, ' ', first + 1);
        if second < r.len() {
            assert(forall|k: int| 0 <= k < second && k != first ==> r[k] != ' ');
        } else {
            assert forall|i: int, j: int| 0 <= i < j < r.len() && r[i] == ' ' implies r[j] != ' ' by {
                assert(i >= first);
            }
        }
    } else {
        assert forall|i: int, j: int| 0 <= i < j < r.len() && r[i] == ' ' implies r[j] != ' ' by {
        }
    }
}

} // verus!
