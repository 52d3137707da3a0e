//! HTTP client support: the request text the transport writes.
//!
//! The transport itself (name lookup, sockets, reading the response) lives
//! outside this crate; the logic here only builds the exact request bytes
//! for a host and path.

use vstd::prelude::*;

verus! {

/// The request line and headers for a `GET` of `path` on `host`:
/// `GET /<path> HTTP/1.1`, a `Host` header, a fixed `Accept` and
/// `Connection: close`, and the blank line that ends the head.
pub open spec fn spec_request(host: Seq<char>, path: Seq<char>) -> Seq<char> {
    "GET /"@ + path + " HTTP/1.1\n"@ + "Host: "@ + host + "\n"@ + "Accept: text/html\n"@
        + "Connection: close\n"@ + "\n"@
}

pub struct HttpClient {
}

impl HttpClient {
    pub fn new() -> (r: Self)
        ensures
            r == (HttpClient {  }),
    {
        Self {  }
    }

    /// The exact request text for one `GET`.
    pub fn build_request(&self, host: &str, path: &str) -> (r: String)
        ensures
            r@ == spec_request(host@, path@),
    {
        let mut request = String::from_str("GET /");
        request.append(path);
        request.append(" HTTP/1.1\n");
        request.append("Host: ");
        request.append(host);
        request.append("\n");
        request.append("Accept: text/html\n");
        request.append("Connection: close\n");
        request.append("\n");
        proof {
            assert(request@ =~= spec_request(host@, path@));
        }
        request
    }
}

} // verus!
