//! URL splitting for `http://<host>:<port>/<path>?<searchpart>`.
//!
//! Only the HTTP scheme is accepted; everything else is reported as an
//! error value. The split is purely textual: repeated leading scheme
//! prefixes are stripped, the authority runs to the first `/`, the path to
//! the first `?` after that.

use vstd::prelude::*;

verus! {

/// `http://` spelled out at position `i` of `s`.
pub open spec fn scheme_at(s: Seq<char>, i: int) -> bool {
    &&& 0 <= i
    &&& i + 7 <= s.len()
    &&& s[i] == 'h'
    &&& s[i + 1] == 't'
    &&& s[i + 2] == 't'
    &&& s[i + 3] == 'p'
    &&& s[i + 4] == ':'
    &&& s[i + 5] == '/'
    &&& s[i + 6] == '/'
}

/// The scheme occurs somewhere in `s`. This mirrors a substring test, so a
/// URL that merely embeds `http://` in its middle is accepted too.
pub open spec fn has_scheme(s: Seq<char>) -> bool {
    exists|i: int| scheme_at(s, i)
}

/// First position after the leading run of `http://` prefixes.
pub open spec fn scheme_end(s: Seq<char>, i: int) -> int
    decreases s.len() - i,
{
    if scheme_at(s, i) {
        scheme_end(s, i + 7)
    } else {
        i
    }
}

/// First occurrence of `c` in `s` at or after `i`.
pub open spec fn find_from(s: Seq<char>, c: char, i: int) -> Option<int>
    decreases s.len() - i,
{
    if i < 0 || i >= s.len() {
        None
    } else if s[i] == c {
        Some(i)
    } else {
        find_from(s, c, i + 1)
    }
}

/// End of the authority part: the first `/` after the scheme, or the end.
pub open spec fn authority_end(s: Seq<char>) -> int {
    match find_from(s, '/', scheme_end(s, 0)) {
        Some(k) => k,
        None => s.len() as int,
    }
}

/// Position of the `:` separating host and port, if one occurs inside the
/// authority part.
pub open spec fn port_sep(s: Seq<char>) -> Option<int> {
    match find_from(s, ':', scheme_end(s, 0)) {
        Some(k) => if k < authority_end(s) {
            Some(k)
        } else {
            None
        },
        None => None,
    }
}

pub open spec fn spec_host(s: Seq<char>) -> Seq<char> {
    match port_sep(s) {
        Some(k) => s.subrange(scheme_end(s, 0), k),
        None => s.subrange(scheme_end(s, 0), authority_end(s)),
    }
}

pub open spec fn spec_port(s: Seq<char>) -> Seq<char> {
    match port_sep(s) {
        Some(k) => s.subrange(k + 1, authority_end(s)),
        None => "80"@,
    }
}

/// Start of the `?` search part, if the URL has a path part at all.
pub open spec fn search_sep(s: Seq<char>) -> Option<int> {
    find_from(s, '?', authority_end(s) + 1)
}

pub open spec fn spec_path(s: Seq<char>) -> Seq<char> {
    if authority_end(s) == s.len() {
        Seq::<char>::empty()
    } else {
        match search_sep(s) {
            Some(q) => s.subrange(authority_end(s) + 1, q),
            None => s.subrange(authority_end(s) + 1, s.len() as int),
        }
    }
}

pub open spec fn spec_searchpart(s: Seq<char>) -> Seq<char> {
    if authority_end(s) == s.len() {
        Seq::<char>::empty()
    } else {
        match search_sep(s) {
            Some(q) => s.subrange(q + 1, s.len() as int),
            None => Seq::<char>::empty(),
        }
    }
}

#[derive(Debug, PartialEq, Eq)]
pub struct Url {
    pub url: String,
    pub host: String,
    pub port: String,
    pub path: String,
    pub searchpart: String,
}

impl Clone for Url {
    fn clone(&self) -> (r: Self)
        ensures
            r == *self,
    {
        Url {
            url: self.url.clone(),
            host: self.host.clone(),
            port: self.port.clone(),
            path: self.path.clone(),
            searchpart: self.searchpart.clone(),
        }
    }
}

impl Url {
    pub fn new(url: String) -> (r: Self)
        ensures
            r.url@ == url@,
            r.host@ == Seq::<char>::empty(),
            r.port@ == Seq::<char>::empty(),
            r.path@ == Seq::<char>::empty(),
            r.searchpart@ == Seq::<char>::empty(),
    {
        Self {
            url,
            host: String::new(),
            port: String::new(),
            path: String::new(),
            searchpart: String::new(),
        }
    }

    /// Splits the stored URL into host, port, path and search part.
    ///
    /// Succeeds exactly when the text contains `http://`; any other input
    /// is rejected with a fixed message and the value is left unchanged.
    pub fn parse(&mut self) -> (r: Result<Url, String>)
        ensures
            final(self).url@ == old(self).url@,
            r is Ok <==> has_scheme(old(self).url@),
            r is Err ==> *final(self) == *old(self) && r->Err_0@ == "Only HTTP scheme is supported."@,
            r is Ok ==> {
                &&& final(self).host@ == spec_host(old(self).url@)
                &&& final(self).port@ == spec_port(old(self).url@)
                &&& final(self).path@ == spec_path(old(self).url@)
                &&& final(self).searchpart@ == spec_searchpart(old(self).url@)
                &&& r->Ok_0.url@ == final(self).url@
                &&& r->Ok_0.host@ == final(self).host@
                &&& r->Ok_0.port@ == final(self).port@
                &&& r->Ok_0.path@ == final(self).path@
                &&& r->Ok_0.searchpart@ == final(self).searchpart@
            },
    {
        if !self.is_http() {
            return Err(String::from_str("Only HTTP scheme is supported."));
        }

        self.host = self.extract_host();
        self.port = self.extract_port();
        self.path = self.extract_path();
        self.searchpart = self.extract_searchpart();

        Ok(self.clone())
    }

    fn is_http(&mut self) -> (r: bool)
        ensures
            *final(self) == *old(self),
            r == has_scheme(old(self).url@),
    {
        let s = self.url.as_str();
        let n = s.unicode_len();
        if n < 7 {
            proof {
                assert forall|i: int| !scheme_at(self.url@, i) by {}
            }
            return false;
        }
        let mut i: usize = 0;
        while i <= n - 7
            invariant
                n == self.url@.len(),
                7 <= n,
                i <= n - 6,
                s@ == self.url@,
                forall|j: int| 0 <= j < i ==> !scheme_at(self.url@, j),
            decreases n - i,
        {
            if s.get_char(i) == 'h' && s.get_char(i + 1) == 't' && s.get_char(i + 2) == 't'
                && s.get_char(i + 3) == 'p' && s.get_char(i + 4) == ':' && s.get_char(i + 5) == '/'
                && s.get_char(i + 6) == '/' {
                proof {
                    assert(scheme_at(self.url@, i as int));
                }
                return true;
            }
            i = i + 1;
        }
        proof {
            assert forall|j: int| !scheme_at(self.url@, j) by {
                if 0 <= j && j + 7 <= n {
                    assert(!scheme_at(self.url@, j));
                }
            }
        }
        false
    }

    /// Index just past the leading `http://` prefixes of the stored URL.
    fn scheme_end_index(&self) -> (r: usize)
        ensures
            r == scheme_end(self.url@, 0),
            r <= self.url@.len(),
    {
        let s = self.url.as_str();
        let n = s.unicode_len();
        let mut p: usize = 0;
        loop
            invariant
                n == self.url@.len(),
                s@ == self.url@,
                p <= n,
                scheme_end(self.url@, 0) == scheme_end(self.url@, p as int),
            decreases n - p,
        {
            if n - p >= 7 && s.get_char(p) == 'h' && s.get_char(p + 1) == 't' && s.get_char(
                p + 2,
            ) == 't' && s.get_char(p + 3) == 'p' && s.get_char(p + 4) == ':' && s.get_char(
                p + 5,
            ) == '/' && s.get_char(p + 6) == '/' {
                proof {
                    assert(scheme_at(self.url@, p as int));
                }
                p = p + 7;
            } else {
                proof {
                    assert(!scheme_at(self.url@, p as int));
                }
                return p;
            }
        }
    }

    /// First occurrence of `c` in the stored URL at or after `from`.
    fn find_in_url(&self, c: char, from: usize) -> (r: Option<usize>)
        ensures
            match r {
                Some(k) => Some(k as int) == find_from(self.url@, c, from as int),
                None => find_from(self.url@, c, from as int) is None,
            },
    {
        let s = self.url.as_str();
        let n = s.unicode_len();
        let mut i: usize = from;
        loop
            invariant
                n == self.url@.len(),
                s@ == self.url@,
                from <= i,
                find_from(self.url@, c, from as int) == find_from(self.url@, c, i as int),
            decreases n - i,
        {
            if i >= n {
                return None;
            }
            if s.get_char(i) == c {
                return Some(i);
            }
            i = i + 1;
        }
    }

    /// The substring of the stored URL between `from` and `to`.
    fn url_slice(&self, from: usize, to: usize) -> (r: String)
        requires
            from <= to <= self.url@.len(),
        ensures
            r@ == self.url@.subrange(from as int, to as int),
    {
        let s = self.url.as_str();
        let piece = s.substring_char(from, to);
        piece.to_owned()
    }

    fn extract_host(&self) -> (r: String)
        ensures
            r@ == spec_host(self.url@),
    {
        let n = self.url.as_str().unicode_len();
        let b = self.scheme_end_index();
        let slash = self.find_in_url('/', b);
        let colon = self.find_in_url(':', b);
        proof {
            lemma_find_from_bounds(self.url@, '/', b as int);
            lemma_find_from_bounds(self.url@, ':', b as int);
        }
        let e = match slash {
            Some(k) => k,
            None => n,
        };
        match colon {
            Some(k) if k < e => self.url_slice(b, k),
            _ => self.url_slice(b, e),
        }
    }

    fn extract_port(&self) -> (r: String)
        ensures
            r@ == spec_port(self.url@),
    {
        let n = self.url.as_str().unicode_len();
        let b = self.scheme_end_index();
        let slash = self.find_in_url('/', b);
        let colon = self.find_in_url(':', b);
        proof {
            lemma_find_from_bounds(self.url@, '/', b as int);
            lemma_find_from_bounds(self.url@, ':', b as int);
        }
        let e = match slash {
            Some(k) => k,
            None => n,
        };
        match colon {
            Some(k) if k < e => self.url_slice(k + 1, e),
            _ => String::from_str("80"),
        }
    }

    fn extract_path(&self) -> (r: String)
        ensures
            r@ == spec_path(self.url@),
    {
        let n = self.url.as_str().unicode_len();
        let b = self.scheme_end_index();
        let slash = match self.find_in_url('/', b) {
            Some(k) => k,
            None => {
                return String::new();
            },
        };
        proof {
            lemma_find_from_bounds(self.url@, '/', b as int);
        }
        let e = match self.find_in_url('?', slash + 1) {
            Some(q) => q,
            None => n,
        };
        proof {
            lemma_find_from_bounds(self.url@, '?', slash as int + 1);
        }
        self.url_slice(slash + 1, e)
    }

    fn extract_searchpart(&self) -> (r: String)
        ensures
            r@ == spec_searchpart(self.url@),
    {
        let n = self.url.as_str().unicode_len();
        let b = self.scheme_end_index();
        let slash = match self.find_in_url('/', b) {
            Some(k) => k,
            None => {
                return String::new();
            },
        };
        proof {
            lemma_find_from_bounds(self.url@, '/', b as int);
        }
        match self.find_in_url('?', slash + 1) {
            Some(q) => {
                proof {
                    lemma_find_from_bounds(self.url@, '?', slash as int + 1);
                }
                self.url_slice(q + 1, n)
            },
            None => String::new(),
        }
    }

    pub fn host(&self) -> (r: String)
        ensures
            r@ == self.host@,
    {
        self.host.clone()
    }

    pub fn port(&self) -> (r: String)
        ensures
            r@ == self.port@,
    {
        self.port.clone()
    }

    pub fn path(&self) -> (r: String)
        ensures
            r@ == self.path@,
    {
        self.path.clone()
    }

    pub fn searchpart(&self) -> (r: String)
        ensures
            r@ == self.searchpart@,
    {
        self.searchpart.clone()
    }
}

/// A found position lies between the start of the search and the end of the
/// text, and carries the character searched for.
proof fn lemma_find_from_bounds(s: Seq<char>, c: char, i: int)
    ensures
        match find_from(s, c, i) {
            Some(k) => i <= k < s.len() && s[k] == c,
            None => true,
        },
    decreases s.len() - i,
{
    if i < 0 || i >= s.len() {
    } else if s[i] == c {
    } else {
        lemma_find_from_bounds(s, c, i + 1);
    }
}

} // verus!
