//! The pure request/response decisions of the demo servers and client:
//! which route a raw request selects, the status line, file and delay for
//! each route, and the exact texts exchanged. Reading from and writing to a
//! connection stay outside the library; these functions take and return
//! plain strings.

use vstd::prelude::*;
use vstd::string::StrSliceExecFns;
use vstd::string::StringExecFns;

verus! {

/// The routes the demo server distinguishes.
#[derive(Clone, Copy, PartialEq, Eq, Debug)]
pub enum Route {
    /// The root page.
    Root,
    /// The root page, answered only after a fixed delay.
    Sleep,
    /// Anything else.
    NotFound,
}

/// `p` is a prefix of `s`.
pub open spec fn is_prefix(s: Seq<char>, p: Seq<char>) -> bool {
    p.len() <= s.len() && s.subrange(0, p.len() as int) == p
}

/// Whether `s` starts with `prefix`, compared by characters.
pub fn starts_with(s: &str, prefix: &str) -> (r: bool)
    ensures
        r == is_prefix(s@, prefix@),
{
    let n = prefix.unicode_len();
    let m = s.unicode_len();
    if n > m {
        return false;
    }
    let mut i: usize = 0;
    while i < n
        invariant
            i <= n,
            n == prefix@.len(),
            m == s@.len(),
            n <= m,
            forall|j: int| 0 <= j < i ==> s@[j] == prefix@[j],
        decreases n - i,
    {
        let cs = s.get_char(i);
        let cp = prefix.get_char(i);
        if cs != cp {
            proof {
                if is_prefix(s@, prefix@) {
                    assert(s@.subrange(0, prefix@.len() as int)[i as int] == prefix@[i as int]);
                }
            }
            return false;
        }
        i = i + 1;
    }
    proof {
        assert(s@.subrange(0, n as int) =~= prefix@);
    }
    true
}

/// The route a raw request selects: the root page for a plain request line,
/// the delayed root page for the sleep path, anything else is not found.
pub open spec fn route_of(request: Seq<char>) -> Route {
    if is_prefix(request, "GET / HTTP/1.1\r\n"@) {
        Route::Root
    } else if is_prefix(request, "GET /sleep HTTP/1.1\r\n"@) {
        Route::Sleep
    } else {
        Route::NotFound
    }
}

/// Decide which route a raw request selects.
pub fn classify_request(request: &str) -> (r: Route)
    ensures
        r == route_of(request@),
{
    if starts_with(request, "GET / HTTP/1.1\r\n") {
        Route::Root
    } else if starts_with(request, "GET /sleep HTTP/1.1\r\n") {
        Route::Sleep
    } else {
        Route::NotFound
    }
}

/// The status line sent for a route.
pub open spec fn spec_status_line(route: Route) -> Seq<char> {
    match route {
        Route::Root => "HTTP/1.1 200 OK\r\n\r\n"@,
        Route::Sleep => "HTTP/1.1 200 OK\r\n\r\n"@,
        Route::NotFound => "HTTP/1.1 404 NOT FOUND\r\n\r\n"@,
    }
}

/// The status line sent for a route.
pub fn status_line(route: Route) -> (r: &'static str)
    ensures
        r@ == spec_status_line(route),
{
    match route {
        Route::Root => "HTTP/1.1 200 OK\r\n\r\n",
        Route::Sleep => "HTTP/1.1 200 OK\r\n\r\n",
        Route::NotFound => "HTTP/1.1 404 NOT FOUND\r\n\r\n",
    }
}

/// The file whose contents answer a route.
pub open spec fn spec_filename(route: Route) -> Seq<char> {
    match route {
        Route::Root => "hello.html"@,
        Route::Sleep => "hello.html"@,
        Route::NotFound => "404.html"@,
    }
}

/// The file whose contents answer a route.
pub fn filename(route: Route) -> (r: &'static str)
    ensures
        r@ == spec_filename(route),
{
    match route {
        Route::Root => "hello.html",
        Route::Sleep => "hello.html",
        Route::NotFound => "404.html",
    }
}

/// Milliseconds the server waits before answering a route.
pub open spec fn spec_delay_millis(route: Route) -> u64 {
    match route {
        Route::Sleep => 5000,
        _ => 0,
    }
}

/// Milliseconds the server waits before answering a route.
pub fn delay_millis(route: Route) -> (r: u64)
    ensures
        r == spec_delay_millis(route),
{
    match route {
        Route::Sleep => 5000,
        _ => 0,
    }
}

/// The full response: the status line followed by the file contents.
pub fn build_response(status: &str, contents: &str) -> (r: String)
    ensures
        r@ == status@ + contents@,
{
    let mut r = String::from_str(status);
    r.append(contents);
    r
}

/// The request text of the little blocking client, for a path on a host.
pub fn request_text(host: &str, path: &str) -> (r: String)
    ensures
        r@ == "Get "@ + path@ + " HTTP/1.1\r\nHost: "@ + host@ + "\r\n\r\n"@,
{
    let mut r = String::from_str("Get ");
    r.append(path);
    r.append(" HTTP/1.1\r\nHost: ");
    r.append(host);
    r.append("\r\n\r\n");
    r
}

} // verus!
