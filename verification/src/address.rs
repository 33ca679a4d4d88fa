use vstd::prelude::*;

verus! {

/// The address of a web page, held as the parts of its URI that are read of it.
pub struct Address {
    /// The scheme (`http`), absent in a relative address.
    pub scheme: Option<String>,
    /// The host of the authority (without user information or port).
    pub host: Option<String>,
    /// The path, empty when the address has none.
    pub path: String,
    /// The whole address written out (`scheme://authority/path?query`): what is requested.
    pub text: String,
}

/// The characters of an optional string.
pub open spec fn opt_chars(o: Option<String>) -> Option<Seq<char>> {
    match o {
        Some(s) => Some(s@),
        None => None,
    }
}

/// The characters of an optional string slice.
pub open spec fn opt_str_chars(o: Option<&str>) -> Option<Seq<char>> {
    match o {
        Some(s) => Some(s@),
        None => None,
    }
}


impl View for Address {
    type V = (Option<Seq<char>>, Option<Seq<char>>, Seq<char>, Seq<char>);

    open spec fn view(&self) -> (Option<Seq<char>>, Option<Seq<char>>, Seq<char>, Seq<char>) {
        (opt_chars(self.scheme), opt_chars(self.host), self.path@, self.text@)
    }
}

impl Address {
    /// A copy of the address.
    pub fn duplicate(&self) -> (a: Address)
        ensures
            a@ == self@,
    {
        Address {
            scheme: match &self.scheme {
                Some(s) => Some(s.clone()),
                None => None,
            },
            host: match &self.host {
                Some(h) => Some(h.clone()),
                None => None,
            },
            path: self.path.clone(),
            text: self.text.clone(),
        }
    }
}

/// What `str::parse::<hyper::Uri>` makes of a text, taken apart: `None` when the text is
/// not a URI, else its scheme, host, path and written-out form. A function of the text
/// alone (the `http` crate's URI grammar).
pub uninterp spec fn uri_parsed(text: Seq<char>) -> Option<(Option<Seq<char>>, Option<Seq<char>>, Seq<char>, Seq<char>)>;

/// What `hyper::Uri::builder()` builds from an optional scheme, an optional authority and
/// a path-and-query, taken apart as in `uri_parsed`: `None` when a part does not parse or
/// the parts do not form a URI. A function of the parts alone.
pub uninterp spec fn uri_built(scheme: Option<Seq<char>>, authority: Option<Seq<char>>, path_and_query: Seq<char>) -> Option<(Option<Seq<char>>, Option<Seq<char>>, Seq<char>, Seq<char>)>;

/// `str::parse::<hyper::Uri>` (the `http` crate's `Uri::from_str`), then the URI's
/// `scheme_str`, `host`, `path` and `to_string`. The contract only names the result.
#[verifier::external_body]
pub fn parse_address(text: &str) -> (res: Option<Address>)
    ensures
        match res {
            Some(a) => uri_parsed(text@) == Some(a@),
            None => uri_parsed(text@) is None,
        },
{
    match text.parse::<hyper::Uri>() {
        Ok(uri) => Some(Address {
            scheme: uri.scheme_str().map(String::from),
            host: uri.host().map(String::from),
            path: String::from(uri.path()),
            text: uri.to_string(),
        }),
        Err(_) => None,
    }
}

/// `hyper::Uri::builder()` given the scheme and authority where present and the path and
/// query, then `build()`, and the built URI taken apart as in `parse_address`. The
/// contract only names the result.
#[verifier::external_body]
pub fn build_address(scheme: Option<&str>, authority: Option<&str>, path_and_query: &str) -> (res: Option<Address>)
    ensures
        match res {
            Some(a) => uri_built(opt_str_chars(scheme), opt_str_chars(authority), path_and_query@) == Some(a@),
            None => uri_built(opt_str_chars(scheme), opt_str_chars(authority), path_and_query@) is None,
        },
{
    let b = hyper::Uri::builder();
    let b = match scheme { Some(s) => b.scheme(s), None => b };
    let b = match authority { Some(a) => b.authority(a), None => b };
    match b.path_and_query(path_and_query).build() {
        Ok(uri) => Some(Address {
            scheme: uri.scheme_str().map(String::from),
            host: uri.host().map(String::from),
            path: String::from(uri.path()),
            text: uri.to_string(),
        }),
        Err(_) => None,
    }
}

/// A final path component whose meaning is the same on every platform: not empty,
/// not `.` or `..`, and without a separator (`/` or `\`).
pub open spec fn plain_component(name: Seq<char>) -> bool {
    &&& name.len() > 0
    &&& name != "."@
    &&& name != ".."@
    &&& forall|j: int| 0 <= j < name.len() ==> #[trigger] name[j] != '/' && name[j] != '\\'
}

/// What may stand before the last `/` of an absolute path whose parent is stated:
/// nothing (the path is `/name`), or `/` followed by more, not starting with `//`,
/// not ending in a separator or in a `.` component, without `\`.
pub open spec fn plain_prefix(pre: Seq<char>) -> bool {
    ||| pre.len() == 0
    ||| {
        &&& pre.len() >= 2
        &&& pre[0] == '/'
        &&& pre[1] != '/'
        &&& pre.last() != '/'
        &&& !(pre.last() == '.' && pre[pre.len() - 2] == '/')
        &&& forall|j: int| 0 <= j < pre.len() ==> #[trigger] pre[j] != '\\'
    }
}

/// `path` splits at position `i` into a plain prefix, `/` and a plain final component.
pub open spec fn plain_split(path: Seq<char>, i: int) -> bool {
    &&& 0 <= i < path.len()
    &&& path[i] == '/'
    &&& plain_component(path.skip(i + 1))
    &&& plain_prefix(path.take(i))
}

/// The parent of an absolute path of plain components, as `Path::parent`'s
/// documentation shows it (`/foo/bar` has parent `/foo`, `/foo` has parent `/`):
/// the path without its final component. `None` for any other path, whose parent
/// is not stated.
pub open spec fn plain_parent(path: Seq<char>) -> Option<Seq<char>> {
    if exists|i: int| plain_split(path, i) {
        let i = choose|i: int| plain_split(path, i);
        Some(if i == 0 { "/"@ } else { path.take(i) })
    } else {
        None
    }
}

/// The parent of a path as stated: that of an absolute path of plain components
/// (`plain_parent`), also when the path ends in one more `/` or `/.`, which
/// `Path::components` normalizes away (`/a/b/` and `/a/b/.` are `/a/b`).
pub open spec fn stated_parent(path: Seq<char>) -> Option<Seq<char>> {
    if plain_parent(path) is Some {
        plain_parent(path)
    } else if path.len() >= 2 && path.last() == '/' {
        plain_parent(path.drop_last())
    } else if path.len() >= 3 && path.last() == '.' && path[path.len() - 2] == '/' {
        plain_parent(path.take(path.len() - 2))
    } else {
        None
    }
}

/// `std::path::Path::new(path).parent()`, as a string. Its documentation: the path
/// without its final component, and `None` for the empty path or one that ends in a
/// root, such as `/`. The contract states that a result is a prefix of `path`, and the parent of an
/// absolute path of plain components, with or without a trailing `/` or `/.`
/// (`stated_parent`); for other paths which prefix is
/// returned depends on the platform's path syntax and is not stated. (A parent that is
/// not valid Unicode, impossible for a prefix of a `str`, would also give `None`.)
#[verifier::external_body]
pub fn path_parent(path: &str) -> (res: Option<String>)
    ensures
        path@.len() == 0 ==> res is None,
        res is Some ==> path@ != "/"@,
        res matches Some(p) ==> p@.len() <= path@.len() && p@ == path@.subrange(0, p@.len() as int),
        res is None ==> stated_parent(path@) is None,
        res matches Some(p) ==> (stated_parent(path@) matches Some(q) ==> p@ == q),
{
    match std::path::Path::new(path).parent() {
        Some(p) => p.to_str().map(String::from),
        None => None,
    }
}

/// The address that a link of a page at `base` leads to, given the parent of the page's
/// path: the page's scheme and host with the path `parent/link`.
pub fn link_address(base: &Address, parent: &str, link: &str) -> (res: Option<Address>)
    ensures
        match res {
            Some(a) => uri_built(opt_chars(base.scheme), opt_chars(base.host), parent@ + "/"@ + link@) == Some(a@),
            None => uri_built(opt_chars(base.scheme), opt_chars(base.host), parent@ + "/"@ + link@) is None,
        },
{
    let mut pq = parent.to_owned();
    pq.append("/");
    pq.append(link);
    let scheme = match &base.scheme {
        Some(s) => Some(s.as_str()),
        None => None,
    };
    let host = match &base.host {
        Some(h) => Some(h.as_str()),
        None => None,
    };
    build_address(scheme, host, pq.as_str())
}

} // verus!
