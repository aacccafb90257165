//! What the request handlers compute from a request: the file a path names, and the
//! record of a saved upload.
use vstd::prelude::*;
use vstd::string::{StrSliceExecFns, StringSliceAdditionalSpecFns};
use vstd::utf8::{decode_utf8, valid_utf8};

verus! {

/// How an upload was stored: the name it came with and the name it was saved under.
pub struct SavedFile {
    pub source_name: String,
    pub saved_name: String,
}

/// The value of an ASCII hex digit.
pub open spec fn hex_value(c: u8) -> Option<nat> {
    if 48 <= c <= 57 {
        Some((c - 48) as nat)
    } else if 97 <= c <= 102 {
        Some((c - 87) as nat)
    } else if 65 <= c <= 70 {
        Some((c - 55) as nat)
    } else {
        None
    }
}

/// `b` with each `%` that is followed by two hex digits replaced by the byte they
/// spell; every other byte stays as it is.
pub open spec fn percent_decode_bytes(b: Seq<u8>) -> Seq<u8>
    decreases b.len(),
{
    if b.len() == 0 {
        Seq::empty()
    } else if b[0] == 37 && b.len() >= 3 && hex_value(b[1]) is Some && hex_value(b[2]) is Some {
        seq![(16 * hex_value(b[1]).unwrap() + hex_value(b[2]).unwrap()) as u8]
            + percent_decode_bytes(b.skip(3))
    } else {
        seq![b[0]] + percent_decode_bytes(b.skip(1))
    }
}

/// Relies on url's `percent_decode(..).decode_utf8()`: it decodes the escapes as
/// `percent_decode_bytes` says, and gives text exactly when the bytes are UTF-8.
#[verifier::external_body]
fn decode_percent(path: &str) -> (r: Option<String>)
    ensures
        match r {
            Some(s) => valid_utf8(percent_decode_bytes(path.spec_bytes())) && s@ == decode_utf8(
                percent_decode_bytes(path.spec_bytes()),
            ),
            None => !valid_utf8(percent_decode_bytes(path.spec_bytes())),
        },
{
    match url::percent_encoding::percent_decode(path.as_bytes()).decode_utf8() {
        Ok(s) => Some(s.into_owned()),
        Err(_) => None,
    }
}

/// The part of `s` after its last `/`, or all of `s` when it has none.
pub open spec fn last_segment(s: Seq<char>) -> Seq<char>
    decreases s.len(),
{
    if s.len() == 0 || s.last() == '/' {
        Seq::empty()
    } else {
        last_segment(s.drop_last()).push(s.last())
    }
}

/// The name of the file a request path asks for: the last `/`-separated segment of the
/// percent-decoded path. `None` when the decoded path is not UTF-8.
pub fn requested_name(path: &str) -> (r: Option<String>)
    ensures
        ({
            let bytes = percent_decode_bytes(path.spec_bytes());
            match r {
                Some(name) => valid_utf8(bytes) && name@ == last_segment(decode_utf8(bytes)),
                None => !valid_utf8(bytes),
            }
        }),
{
    let decoded = match decode_percent(path) {
        Some(d) => d,
        None => return None,
    };
    let text = decoded.as_str();
    let n = text.unicode_len();
    let mut start = n;
    proof {
        assert(text@.take(n as int) =~= text@);
        assert(text@.subrange(n as int, n as int) =~= Seq::<char>::empty());
        assert(last_segment(text@) + Seq::<char>::empty() =~= last_segment(text@));
    }
    while start > 0 && text.get_char(start - 1) != '/'
        invariant
            start <= n,
            n == text@.len(),
            last_segment(text@) == last_segment(text@.take(start as int)) + text@.subrange(
                start as int,
                n as int,
            ),
        decreases start,
    {
        proof {
            let t = text@.take(start as int);
            assert(t.drop_last() =~= text@.take(start - 1));
            assert(text@.subrange(start - 1, n as int) =~= seq![t.last()] + text@.subrange(
                start as int,
                n as int,
            ));
        }
        start = start - 1;
    }
    proof {
        let t = text@.take(start as int);
        assert(last_segment(t) =~= Seq::empty());
    }
    let name = text.substring_char(start, n);
    Some(name.to_string())
}

/// The request methods the server tells apart.
#[derive(Clone, Copy, Debug, PartialEq, Eq, Structural)]
pub enum Method {
    Get,
    Post,
    Delete,
    Other,
}

/// What serves a request.
#[derive(Clone, Copy, Debug, PartialEq, Eq, Structural)]
pub enum Endpoint {
    /// The index page.
    Index,
    /// An upload from the index page's form.
    Upload,
    /// A file of the served directory.
    Download,
    /// Removing a file of the served directory.
    Delete,
    /// A resource built into the server.
    Resource,
    /// The file list as JSON.
    Json,
    /// The file list as plain text.
    List,
    /// No route has the path.
    NotFound,
    /// Routes have the path, but not for this method.
    MethodNotAllowed,
}

/// `path` is `prefix` followed by one or more characters, none of them `/`.
pub open spec fn is_item_path(path: Seq<char>, prefix: Seq<char>) -> bool {
    &&& path.len() > prefix.len()
    &&& path.take(prefix.len() as int) == prefix
    &&& forall|i: int| prefix.len() <= i < path.len() ==> path[i] != '/'
}

/// The path of the index page.
pub open spec fn is_index_path(path: Seq<char>) -> bool {
    path == "/"@ || path == "/index.html"@
}

/// Which endpoint serves `method` on `path`: the first route whose path and method
/// both fit; when routes have the path but none the method, the method is not allowed.
pub open spec fn route_of(method: Method, path: Seq<char>) -> Endpoint {
    if is_index_path(path) {
        match method {
            Method::Get => Endpoint::Index,
            Method::Post => Endpoint::Upload,
            _ => Endpoint::MethodNotAllowed,
        }
    } else if is_item_path(path, "/files/"@) {
        match method {
            Method::Get => Endpoint::Download,
            Method::Delete => Endpoint::Delete,
            _ => Endpoint::MethodNotAllowed,
        }
    } else if is_item_path(path, "/resource/"@) || path == "/json"@ || path == "/list"@ {
        if method == Method::Get {
            if path == "/json"@ {
                Endpoint::Json
            } else if path == "/list"@ {
                Endpoint::List
            } else {
                Endpoint::Resource
            }
        } else {
            Endpoint::MethodNotAllowed
        }
    } else {
        Endpoint::NotFound
    }
}

/// Whether `path` is `prefix` followed by one or more characters other than `/`.
fn item_path(path: &str, prefix: &str) -> (r: bool)
    ensures
        r == is_item_path(path@, prefix@),
{
    let n = path.unicode_len();
    let k = prefix.unicode_len();
    if n <= k {
        return false;
    }
    if !same_text(path.substring_char(0, k), prefix) {
        return false;
    }
    let mut i = k;
    while i < n
        invariant
            k <= i <= n,
            n == path@.len(),
            k == prefix@.len(),
            path@.take(k as int) == prefix@,
            forall|j: int| k <= j < i ==> path@[j] != '/',
        decreases n - i,
    {
        if path.get_char(i) == '/' {
            return false;
        }
        i = i + 1;
    }
    true
}

/// Whether `a` and `b` hold the same text.
fn same_text(a: &str, b: &str) -> (r: bool)
    ensures
        r == (a@ == b@),
{
    let n = a.unicode_len();
    if n != b.unicode_len() {
        return false;
    }
    let mut i: usize = 0;
    while i < n
        invariant
            i <= n,
            n == a@.len(),
            n == b@.len(),
            forall|j: int| 0 <= j < i ==> a@[j] == b@[j],
        decreases n - i,
    {
        if a.get_char(i) != b.get_char(i) {
            return false;
        }
        i = i + 1;
    }
    assert(a@ =~= b@);
    true
}

/// The endpoint that serves `method` on the decoded request path `path`, as
/// `route_of` says.
pub fn route(method: Method, path: &str) -> (r: Endpoint)
    ensures
        r == route_of(method, path@),
{
    let index = same_text(path, "/") || same_text(path, "/index.html");
    if index {
        return match method {
            Method::Get => Endpoint::Index,
            Method::Post => Endpoint::Upload,
            _ => Endpoint::MethodNotAllowed,
        };
    }
    if item_path(path, "/files/") {
        return match method {
            Method::Get => Endpoint::Download,
            Method::Delete => Endpoint::Delete,
            _ => Endpoint::MethodNotAllowed,
        };
    }
    let json = same_text(path, "/json");
    let list = same_text(path, "/list");
    if item_path(path, "/resource/") || json || list {
        match method {
            Method::Get => if json {
                Endpoint::Json
            } else if list {
                Endpoint::List
            } else {
                Endpoint::Resource
            },
            _ => Endpoint::MethodNotAllowed,
        }
    } else {
        Endpoint::NotFound
    }
}

} // verus!
