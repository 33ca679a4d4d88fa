use vstd::prelude::*;
use vstd::utf8::*;
use crate::address::{Address, link_address, opt_chars, parse_address, path_parent, stated_parent, uri_built, uri_parsed};
use crate::decoder::TTIDecoder;
use crate::page::{Navigation, RenderedPage, crlf, page_scan, try_render_page};
use crate::text::{lowercase, lowercase_of, push_all};

verus! {

/// Where page `nav` has an address whose path's parent is stated (`stated_parent`) and
/// defines link `key`, `res` is exactly the URI built from the page's scheme and host and
/// the path `parent/link` (`None` when that does not form a URI).
pub open spec fn plain_link_result(nav: Navigation, key: Seq<char>, res: Option<Address>) -> bool {
    match nav.uri {
        Some(u) => match stated_parent(u.path@) {
            Some(p) => nav.links@.contains_key(key) ==> {
                let built = uri_built(opt_chars(u.scheme), opt_chars(u.host), p + "/"@ + nav.links@[key]);
                match res {
                    Some(a) => built == Some(a@),
                    None => built is None,
                }
            },
            None => true,
        },
        None => true,
    }
}

/// The address that the link `line` of the current page leads to: the link's path,
/// relative to the directory of the page's own path, on the page's scheme and host.
/// `None` when there is no page, the page defines no such link or has no address, or
/// the page's path has no parent (such as `/`) or the new address does not form a URI. For a page
/// path of plain components, also one that ends in `/` or `/.` (a directory), the parent is
/// the path without its last component (`stated_parent`), and the result is then exactly
/// the URI built from it.
pub fn select_link(line: &str, navigation: &Option<Navigation>) -> (res: Option<Address>)
    ensures
        navigation is None ==> res is None,
        navigation matches Some(nav) ==> {
            &&& !nav.links@.contains_key(line@) ==> res is None
            &&& nav.uri is None ==> res is None
            &&& (nav.uri matches Some(u) && (u.path@.len() == 0 || u.path@ == "/"@)) ==> res is None
            &&& res matches Some(a) ==> nav.uri matches Some(u) && exists|parent: Seq<char>|
                parent.len() <= u.path@.len() && parent == u.path@.subrange(0, parent.len() as int)
                    && #[trigger] uri_built(opt_chars(u.scheme), opt_chars(u.host), parent + "/"@ + nav.links@[line@]) == Some(a@)
            &&& plain_link_result(*nav, line@, res)
        },
{
    match navigation {
        None => None,
        Some(nav) => {
            let key = line.to_owned();
            match nav.links.get(&key) {
                None => None,
                Some(link) => match &nav.uri {
                    None => None,
                    Some(uri) => match path_parent(uri.path.as_str()) {
                        None => None,
                        Some(parent) => link_address(uri, parent.as_str(), link.as_str()),
                    },
                },
            }
        },
    }
}

/// What a page request came back with.
pub enum Fetched {
    /// The server answered: whether the status is a success, the status code as text,
    /// and the body (`None` when it could not be read).
    Response { success: bool, status: String, body: Option<Vec<u8>> },
    /// The request failed; the error as text.
    Failed(String),
}

/// `Could not load page:`
pub open spec fn not_loaded() -> Seq<u8> {
    encode_utf8("Could not load page:"@)
}

/// `Couldn't load page. Unable to parse URI.`
pub open spec fn not_parsed() -> Seq<u8> {
    encode_utf8("Couldn't load page. Unable to parse URI."@)
}

/// Form feed: clears the screen.
pub open spec fn clear_screen() -> Seq<u8> {
    seq![0x0Cu8]
}

/// Form feed, then record separator (cursor home on a BBC Micro).
pub open spec fn clear_home() -> Seq<u8> {
    seq![0x0Cu8, 0x1Eu8]
}

/// The command prompt `>.`.
pub open spec fn prompt() -> Seq<u8> {
    seq![0x3Eu8, 0x2Eu8]
}

/// The navigation data of a page fetched from `address` is that of its rendering.
pub open spec fn fetched_page(nav: Navigation, st: crate::page::ScanState, address: Address) -> bool {
    &&& nav.links@ == st.links
    &&& nav.start_page == crate::page::page_found(st, -1i32)
    &&& nav.uri == Some(address)
}

fn append_text(out: &mut Vec<u8>, s: &str)
    ensures
        final(out)@ == old(out)@ + encode_utf8(s@),
{
    push_all(out, s.as_bytes());
}

/// Shows what a page request for `address` came back with: a successful response's
/// body is rendered (first page) on a cleared screen and its navigation data gets the
/// address; a failed request or a status that is not a success shows an error line; a
/// body that could not be read shows nothing. `None` when the body is page data the
/// scan cannot go through.
pub fn load_page_from_response<D: TTIDecoder>(decoder: &D, address: Address, outcome: Fetched) -> (res: Option<(Vec<u8>, Option<Navigation>)>)
    ensures
        match outcome {
            Fetched::Failed(e) => res matches Some((out, nav)) && out@ == not_loaded() + encode_utf8(e@) + crlf()
                && nav is None,
            Fetched::Response { success, status, body: None } => res matches Some((out, nav)) && out@ == Seq::<u8>::empty() && nav is None,
            Fetched::Response { success: false, status, body: Some(b) } => res matches Some((out, nav))
                && out@ == not_loaded() + encode_utf8(status@) + crlf() && nav is None,
            Fetched::Response { success: true, status, body: Some(b) } => {
                &&& res is None <==> page_scan(decoder, b@, -1i32).failed
                &&& res matches Some((out, nav)) ==> {
                    &&& out@ == clear_screen() + page_scan(decoder, b@, -1i32).out
                    &&& nav matches Some(n) && fetched_page(n, page_scan(decoder, b@, -1i32), address)
                }
            },
        },
{
    match outcome {
        Fetched::Failed(e) => {
            let mut out: Vec<u8> = Vec::new();
            append_text(&mut out, "Could not load page:");
            append_text(&mut out, e.as_str());
            out.push(13);
            out.push(10);
            Some((out, None))
        },
        Fetched::Response { success, status, body } => match body {
            None => Some((Vec::new(), None)),
            Some(b) => {
                if success {
                    match try_render_page(b.as_slice(), -1, decoder) {
                        None => None,
                        Some(page) => {
                            let RenderedPage { output, navigation } = page;
                            let mut out: Vec<u8> = vec![0x0C];
                            push_all(&mut out, output.as_slice());
                            let Navigation { uri: _, start_page, links } = navigation;
                            Some((out, Some(Navigation { uri: Some(address), start_page, links })))
                        },
                    }
                } else {
                    let mut out: Vec<u8> = Vec::new();
                    append_text(&mut out, "Could not load page:");
                    append_text(&mut out, status.as_str());
                    out.push(13);
                    out.push(10);
                    Some((out, None))
                }
            },
        },
    }
}

/// What a connection's session waits for.
pub enum Pending {
    /// The bytes of a page file; `crlf`: a CR LF follows the page.
    File { crlf: bool },
    /// A command line.
    Command,
    /// The line holding an address.
    Address,
    /// The outcome of the request for `address`; `push`: when the page is shown, its
    /// address goes on the history; `keep`: when no page is shown, the current page stays.
    Fetch { address: Address, push: bool, keep: bool },
}

/// What the connection has to do after sending a reply's output.
pub enum Request {
    /// Read the named page file and hand over its bytes (`file_loaded`).
    ReadFile(String),
    /// Read a command line (`command`).
    ReadCommand,
    /// Read an address line (`address`).
    ReadAddress,
    /// Request the page at the address and hand over the outcome (`fetched`).
    Fetch(Address),
    /// Close the session.
    Finish,
    /// The page data cannot be shown: the session ends in failure.
    Abort,
}

/// Bytes to send to the terminal, and what to do next.
pub struct Reply {
    pub output: Vec<u8>,
    pub request: Request,
}

/// The state of one connection: the decoder for its terminal, the addresses of the
/// pages that were left by following links or opening addresses (most recent last),
/// the page being shown, and what the session waits for.
pub struct Session<D> {
    pub decoder: D,
    pub page_stack: Vec<Address>,
    pub navigation: Option<Navigation>,
    pub pending: Pending,
}

/// The addresses of a history, as plain values.
pub open spec fn stack_view(stack: Seq<Address>) -> Seq<(Option<Seq<char>>, Option<Seq<char>>, Seq<char>, Seq<char>)> {
    stack.map_values(|a: Address| a@)
}

/// `s` and `t` hold the same decoder, history and page.
pub open spec fn same_pages<D>(s: Session<D>, t: Session<D>) -> bool {
    &&& t.decoder == s.decoder
    &&& t.page_stack@ == s.page_stack@
    &&& t.navigation == s.navigation
}

/// The page `nav` has no link `cmd` that leads anywhere from its address.
pub open spec fn no_link_target(nav: Navigation, cmd: Seq<char>) -> bool {
    ||| !nav.links@.contains_key(cmd)
    ||| nav.uri is None
    ||| (nav.uri matches Some(u) && (u.path@.len() == 0 || u.path@ == "/"@))
}

/// `a` is where link `cmd` of page `nav` may lead: the link's path under a parent
/// directory (a prefix) of the page's path, on the page's scheme and host.
pub open spec fn link_target(nav: Navigation, cmd: Seq<char>, a: Address) -> bool {
    &&& nav.links@.contains_key(cmd)
    &&& nav.uri matches Some(u) && exists|parent: Seq<char>|
        parent.len() <= u.path@.len() && parent == u.path@.subrange(0, parent.len() as int)
            && #[trigger] uri_built(opt_chars(u.scheme), opt_chars(u.host), parent + "/"@ + nav.links@[cmd]) == Some(a@)
}

/// The reply `r` and the new state `t` after command `cmd` (already lowercased) in state `s`.
pub open spec fn dispatched<D>(s: Session<D>, cmd: Seq<char>, t: Session<D>, r: Reply) -> bool {
    if cmd == "quit"@ {
        r.output@ == Seq::<u8>::empty() && r.request is Finish && same_pages(s, t)
    } else if cmd == "help"@ {
        &&& r.output@ == clear_home()
        &&& r.request matches Request::ReadFile(f) && f@ == "help.tti"@
        &&& t.pending == (Pending::File { crlf: false })
        &&& same_pages(s, t)
    } else if cmd == "menu"@ {
        &&& r.output@ == clear_home()
        &&& r.request matches Request::ReadFile(f) && f@ == "title.tti"@
        &&& t.pending == (Pending::File { crlf: true })
        &&& same_pages(s, t)
    } else if cmd == "http"@ {
        &&& r.output@ == encode_utf8("ADDR:"@)
        &&& r.request is ReadAddress
        &&& t.pending is Address
        &&& same_pages(s, t)
    } else if cmd == "cls"@ {
        &&& r.output@ == clear_screen() + prompt()
        &&& r.request is ReadCommand
        &&& t.pending is Command
        &&& same_pages(s, t)
    } else if cmd == "back"@ {
        if s.page_stack@.len() == 0 {
            r.output@ == prompt() && r.request is ReadCommand && t.pending is Command && same_pages(s, t)
        } else {
            &&& r.output@ == Seq::<u8>::empty()
            &&& r.request == Request::Fetch(s.page_stack@.last())
            &&& t.pending matches Pending::Fetch { address, push, keep } && address@ == s.page_stack@.last()@ && !push && !keep
            &&& t.page_stack@ == s.page_stack@.drop_last()
            &&& t.navigation == s.navigation
            &&& t.decoder == s.decoder
        }
    } else if cmd == "reload"@ {
        match s.navigation {
            Some(Navigation { uri: Some(u), .. }) => {
                &&& r.output@ == Seq::<u8>::empty()
                &&& r.request matches Request::Fetch(a) && a@ == u@
                &&& t.pending matches Pending::Fetch { address, push, keep } && address@ == u@ && !push && !keep
                &&& same_pages(s, t)
            },
            _ => r.output@ == prompt() && r.request is ReadCommand && t.pending is Command && same_pages(s, t),
        }
    } else {
        match s.navigation {
            None => r.output@ == prompt() && r.request is ReadCommand && t.pending is Command && same_pages(s, t),
            Some(nav) => {
                &&& stack_view(t.page_stack@) == (match nav.uri {
                    Some(u) => stack_view(s.page_stack@).push(u@),
                    None => stack_view(s.page_stack@),
                })
                &&& t.decoder == s.decoder
                &&& no_link_target(nav, cmd) ==> r.request is ReadCommand
                &&& plain_link_result(nav, cmd, fetch_target(r.request))
                &&& match r.request {
                    Request::Fetch(a) => {
                        &&& r.output@ == Seq::<u8>::empty()
                        &&& link_target(nav, cmd, a)
                        &&& t.pending matches Pending::Fetch { address, push, keep } && address@ == a@ && !push && keep
                        &&& t.navigation == s.navigation
                    },
                    Request::ReadCommand => r.output@ == prompt() && t.navigation == s.navigation && t.pending is Command,
                    _ => false,
                }
            },
        }
    }
}

/// The reply and new state after the address line was parsed into `parsed`.
pub open spec fn opened<D>(s: Session<D>, parsed: Option<(Option<Seq<char>>, Option<Seq<char>>, Seq<char>, Seq<char>)>, t: Session<D>, r: Reply) -> bool {
    match parsed {
        None => {
            &&& r.output@ == not_parsed() + crlf() + prompt()
            &&& r.request is ReadCommand
            &&& t.pending is Command
            &&& t.navigation is None
            &&& t.page_stack@ == s.page_stack@
            &&& t.decoder == s.decoder
        },
        Some(v) => {
            &&& r.output@ == Seq::<u8>::empty()
            &&& r.request matches Request::Fetch(a) && a@ == v
            &&& t.pending matches Pending::Fetch { address, push, keep } && address@ == v && push && !keep
            &&& same_pages(s, t)
        },
    }
}


/// The reply `r` and new state `t` when the request that `s` waits for came back with
/// `outcome`: see `load_page_from_response`; a page shown becomes the current one and,
/// when it was opened by address, its address goes on the history. When no page is
/// shown, there is no current page, except after following a link, where the page
/// the link was on stays (so that it can still be reloaded).
pub open spec fn after_fetch<D: TTIDecoder>(s: Session<D>, outcome: Fetched, t: Session<D>, r: Reply) -> bool {
    let address = s.pending->address;
    let push = s.pending->push;
    let after = crlf_if(push) + prompt();
    let kept = t.page_stack@ == s.page_stack@;
    let no_page = if s.pending->keep { t.navigation == s.navigation } else { t.navigation is None };
    let next = r.request is ReadCommand && t.pending is Command;
    &&& t.decoder == s.decoder
    &&& match outcome {
        Fetched::Failed(e) => kept && next && no_page
            && r.output@ == not_loaded() + encode_utf8(e@) + crlf() + after,
        Fetched::Response { success, status, body: None } => kept && next
            && no_page && r.output@ == after,
        Fetched::Response { success: false, status, body: Some(b) } => kept && next
            && no_page
            && r.output@ == not_loaded() + encode_utf8(status@) + crlf() + after,
        Fetched::Response { success: true, status, body: Some(b) } => {
            let st = page_scan(&s.decoder, b@, -1i32);
            &&& st.failed ==> r.request is Abort
            &&& !st.failed ==> {
                &&& next
                &&& r.output@ == clear_screen() + st.out + after
                &&& t.navigation matches Some(n) && fetched_page(n, st, address)
                &&& stack_view(t.page_stack@) == if push {
                    stack_view(s.page_stack@).push(address@)
                } else {
                    stack_view(s.page_stack@)
                }
            }
        },
    }
}

/// The address a request asks to fetch, if it is a page request.
pub open spec fn fetch_target(r: Request) -> Option<Address> {
    match r {
        Request::Fetch(a) => Some(a),
        _ => None,
    }
}

/// The commands; any other line is a link.
pub open spec fn is_command_word(cmd: Seq<char>) -> bool {
    ||| cmd == "quit"@
    ||| cmd == "help"@
    ||| cmd == "menu"@
    ||| cmd == "http"@
    ||| cmd == "cls"@
    ||| cmd == "back"@
    ||| cmd == "reload"@
}

/// The output ends with the prompt.
pub open spec fn ends_with_prompt(out: Seq<u8>) -> bool {
    out.len() >= 2 && out.subrange(out.len() - 2, out.len() as int) == prompt()
}

proof fn lemma_concat_prompt(a: Seq<u8>)
    ensures
        ends_with_prompt(a + prompt()),
{
    assert((a + prompt()).subrange((a + prompt()).len() - 2, (a + prompt()).len() as int) =~= prompt());
}

/// Every reply that asks for a command line, after a command, an address or a page
/// request, ends with the prompt `>.`.
pub proof fn law_prompt_before_command_line<D: TTIDecoder>(
    s: Session<D>,
    cmd: Seq<char>,
    parsed: Option<(Option<Seq<char>>, Option<Seq<char>>, Seq<char>, Seq<char>)>,
    outcome: Fetched,
    t: Session<D>,
    r: Reply,
)
    requires
        dispatched(s, cmd, t, r) || opened(s, parsed, t, r) || after_fetch(s, outcome, t, r),
        r.request is ReadCommand,
    ensures
        ends_with_prompt(r.output@),
{
    lemma_concat_prompt(Seq::<u8>::empty());
    lemma_concat_prompt(clear_screen());
    lemma_concat_prompt(not_parsed() + crlf());
    assert(Seq::<u8>::empty() + prompt() =~= prompt());
    if after_fetch(s, outcome, t, r) {
        let after = crlf_if(s.pending->push) + prompt();
        lemma_concat_prompt(crlf_if(s.pending->push));
        let o = r.output@;
        assert(o.len() >= after.len());
        assert(o.subrange(o.len() - 2, o.len() as int) =~= after.subrange(after.len() - 2, after.len() as int));
    }
}

/// The line `back` is none of the commands tested before it.
proof fn lemma_back_is_not_another_command()
    ensures
        "back"@ != "quit"@,
        "back"@ != "help"@,
        "back"@ != "menu"@,
        "back"@ != "http"@,
        "back"@ != "cls"@,
{
    reveal_strlit("quit");
    reveal_strlit("help");
    reveal_strlit("menu");
    reveal_strlit("http");
    reveal_strlit("cls");
    reveal_strlit("back");
    assert("back"@[0] != "quit"@[0]);
    assert("back"@[0] != "help"@[0]);
    assert("back"@[0] != "menu"@[0]);
    assert("back"@[0] != "http"@[0]);
    assert("back"@.len() != "cls"@.len());
}

/// The line `reload` is none of the commands tested before it.
proof fn lemma_reload_is_not_another_command()
    ensures
        "reload"@ != "quit"@,
        "reload"@ != "help"@,
        "reload"@ != "menu"@,
        "reload"@ != "http"@,
        "reload"@ != "cls"@,
        "reload"@ != "back"@,
{
    reveal_strlit("quit");
    reveal_strlit("help");
    reveal_strlit("menu");
    reveal_strlit("http");
    reveal_strlit("cls");
    reveal_strlit("back");
    reveal_strlit("reload");
    assert("reload"@.len() != "quit"@.len());
    assert("reload"@.len() != "help"@.len());
    assert("reload"@.len() != "menu"@.len());
    assert("reload"@.len() != "http"@.len());
    assert("reload"@.len() != "cls"@.len());
    assert("reload"@.len() != "back"@.len());
}

/// A line that is no command and follows no link leaves the current page, so that
/// `reload` then requests that page's address again.
pub proof fn law_unfollowed_line_keeps_page<D: TTIDecoder>(
    s0: Session<D>,
    line: Seq<char>,
    s1: Session<D>,
    r1: Reply,
    s2: Session<D>,
    r2: Reply,
)
    requires
        !is_command_word(line),
        s0.navigation matches Some(nav) && nav.uri is Some,
        dispatched(s0, line, s1, r1),
        r1.request is ReadCommand,
        dispatched(s1, "reload"@, s2, r2),
    ensures
        r2.request matches Request::Fetch(a) && a@ == s0.navigation->0.uri->0@,
{
    lemma_reload_is_not_another_command();
}

/// Following a link of a page that has an address, whatever the request for the new
/// page comes back with (unless it cannot be shown), then `back`, requests the address
/// of the page the link was followed from.
pub proof fn law_back_returns_to_link_page<D: TTIDecoder>(
    s0: Session<D>,
    link: Seq<char>,
    s1: Session<D>,
    r1: Reply,
    outcome: Fetched,
    s2: Session<D>,
    r2: Reply,
    s3: Session<D>,
    r3: Reply,
)
    requires
        !is_command_word(link),
        s0.navigation matches Some(nav) && nav.uri is Some,
        dispatched(s0, link, s1, r1),
        r1.request is Fetch,
        after_fetch(s1, outcome, s2, r2),
        r2.request is ReadCommand,
        dispatched(s2, "back"@, s3, r3),
    ensures
        r3.request matches Request::Fetch(a) && a@ == s0.navigation->0.uri->0@,
{
    lemma_back_is_not_another_command();

    let u = s0.navigation->0.uri->0;
    assert(stack_view(s1.page_stack@) == stack_view(s0.page_stack@).push(u@));
    assert(stack_view(s2.page_stack@) == stack_view(s1.page_stack@)) by {
        if s2.page_stack@ == s1.page_stack@ {
        }
    }
    assert(stack_view(s2.page_stack@).len() == s2.page_stack@.len());
    assert(s2.page_stack@.len() > 0);
    assert(stack_view(s2.page_stack@).last() == s2.page_stack@.last()@);
}

/// Opening an address whose page is shown, then `back`, requests that same address
/// again: the address of the page opened is what goes on the history.
pub proof fn law_back_after_address<D: TTIDecoder>(
    s0: Session<D>,
    parsed: Option<(Option<Seq<char>>, Option<Seq<char>>, Seq<char>, Seq<char>)>,
    s1: Session<D>,
    r1: Reply,
    outcome: Fetched,
    s2: Session<D>,
    r2: Reply,
    s3: Session<D>,
    r3: Reply,
)
    requires
        opened(s0, parsed, s1, r1),
        parsed is Some,
        after_fetch(s1, outcome, s2, r2),
        s2.navigation is Some,
        r2.request is ReadCommand,
        dispatched(s2, "back"@, s3, r3),
    ensures
        r3.request matches Request::Fetch(a) && a@ == parsed->0,
{
    lemma_back_is_not_another_command();

    assert(s2.page_stack@.len() > 0) by {
        assert(stack_view(s2.page_stack@).len() == s2.page_stack@.len());
    }
    assert(stack_view(s2.page_stack@).last() == s2.page_stack@.last()@);
}

/// Bytes `crlf` if `b`.
pub open spec fn crlf_if(b: bool) -> Seq<u8> {
    if b { crlf() } else { Seq::<u8>::empty() }
}

fn is_word(cmd: &str, word: &str) -> (r: bool)
    ensures
        r == (cmd@ == word@),
{
    cmd.to_owned() == word.to_owned()
}

fn prompt_reply() -> (r: Reply)
    ensures
        r.output@ == prompt(),
        r.request is ReadCommand,
{
    Reply { output: vec![0x3E, 0x2E], request: Request::ReadCommand }
}

impl<D: TTIDecoder> Session<D> {
    /// A new session for a terminal that `decoder` translates for: the screen is
    /// cleared and the title page is shown.
    pub fn start(decoder: D) -> (res: (Session<D>, Reply))
        ensures
            res.0.decoder == decoder,
            res.0.page_stack@ == Seq::<Address>::empty(),
            res.0.navigation is None,
            res.0.pending == (Pending::File { crlf: true }),
            res.1.output@ == clear_home(),
            res.1.request matches Request::ReadFile(f) && f@ == "title.tti"@,
    {
        let s = Session { decoder, page_stack: Vec::new(), navigation: None, pending: Pending::File { crlf: true } };
        (s, Reply { output: vec![0x0C, 0x1E], request: Request::ReadFile("title.tti".to_owned()) })
    }

    /// The bytes of the page file that was asked for: its first page is shown (its
    /// navigation data is not kept), then the prompt.
    pub fn file_loaded(&mut self, data: &[u8]) -> (r: Reply)
        requires
            old(self).pending is File,
        ensures
            page_scan(&old(self).decoder, data@, -1i32).failed ==> r.request is Abort,
            !page_scan(&old(self).decoder, data@, -1i32).failed ==> {
                &&& r.output@ == page_scan(&old(self).decoder, data@, -1i32).out + crlf_if(old(self).pending->crlf) + prompt()
                &&& r.request is ReadCommand
                &&& final(self).pending is Command
            },
            same_pages(*old(self), *final(self)),
    {
        let crlf = match self.pending {
            Pending::File { crlf } => crlf,
            _ => false,
        };
        match try_render_page(data, -1, &self.decoder) {
            None => Reply { output: Vec::new(), request: Request::Abort },
            Some(page) => {
                let mut out = page.output;
                if crlf {
                    out.push(13);
                    out.push(10);
                }
                out.push(0x3E);
                out.push(0x2E);
                self.pending = Pending::Command;
                Reply { output: out, request: Request::ReadCommand }
            },
        }
    }

    /// A command line, as typed: it is lowercased, then carried out (`dispatch`).
    pub fn command(&mut self, line: &str) -> (r: Reply)
        requires
            old(self).pending is Command,
        ensures
            dispatched(*old(self), lowercase_of(line@), *final(self), r),
    {
        let cmd = lowercase(line);
        self.dispatch(cmd.as_str())
    }

    /// Carries out a lowercased command line: `quit`, `help` (help page), `menu`
    /// (title page), `http` (ask for an address), `cls` (clear the screen), `back`
    /// (the page last left), `reload` (the current page again); anything else is the
    /// text of a link of the current page, which is followed.
    pub fn dispatch(&mut self, cmd: &str) -> (r: Reply)
        requires
            old(self).pending is Command,
        ensures
            dispatched(*old(self), cmd@, *final(self), r),
    {
        if is_word(cmd, "quit") {
            Reply { output: Vec::new(), request: Request::Finish }
        } else if is_word(cmd, "help") {
            self.pending = Pending::File { crlf: false };
            Reply { output: vec![0x0C, 0x1E], request: Request::ReadFile("help.tti".to_owned()) }
        } else if is_word(cmd, "menu") {
            self.pending = Pending::File { crlf: true };
            Reply { output: vec![0x0C, 0x1E], request: Request::ReadFile("title.tti".to_owned()) }
        } else if is_word(cmd, "http") {
            self.pending = Pending::Address;
            let mut out: Vec<u8> = Vec::new();
            append_text(&mut out, "ADDR:");
            Reply { output: out, request: Request::ReadAddress }
        } else if is_word(cmd, "cls") {
            let r = Reply { output: vec![0x0C, 0x3E, 0x2E], request: Request::ReadCommand };
            assert(r.output@ =~= clear_screen() + prompt());
            r
        } else if is_word(cmd, "back") {
            match self.page_stack.pop() {
                Some(a) => {
                    self.pending = Pending::Fetch { address: a.duplicate(), push: false, keep: false };
                    Reply { output: Vec::new(), request: Request::Fetch(a) }
                },
                None => {
                    assert(self.page_stack@ == old(self).page_stack@);
                    prompt_reply()
                },
            }
        } else if is_word(cmd, "reload") {
            let target = match &self.navigation {
                Some(nav) => match &nav.uri {
                    Some(u) => Some(u.duplicate()),
                    None => None,
                },
                None => None,
            };
            match target {
                Some(a) => {
                    self.pending = Pending::Fetch { address: a.duplicate(), push: false, keep: false };
                    Reply { output: Vec::new(), request: Request::Fetch(a) }
                },
                None => prompt_reply(),
            }
        } else {
            let target = select_link(cmd, &self.navigation);
            let here = match &self.navigation {
                Some(nav) => Some(match &nav.uri {
                    Some(u) => Some(u.duplicate()),
                    None => None,
                }),
                None => None,
            };
            match here {
                None => prompt_reply(),
                Some(uri) => {
                    let ghost before = self.page_stack@;
                    match uri {
                        Some(u) => {
                            self.page_stack.push(u);
                            assert(stack_view(self.page_stack@) =~= stack_view(before).push(u@));
                        },
                        None => {},
                    }
                    match target {
                        Some(a) => {
                            self.pending = Pending::Fetch { address: a.duplicate(), push: false, keep: true };
                            Reply { output: Vec::new(), request: Request::Fetch(a) }
                        },
                        None => prompt_reply(),
                    }
                },
            }
        }
    }

    /// The address line, as typed: it is lowercased and parsed as a URI
    /// (`open_address` takes the outcome).
    pub fn address(&mut self, text: &str) -> (r: Reply)
        requires
            old(self).pending is Address,
        ensures
            opened(*old(self), uri_parsed(lowercase_of(text@)), *final(self), r),
    {
        let lowered = lowercase(text);
        let parsed = parse_address(lowered.as_str());
        self.open_address(parsed)
    }

    /// Opens a parsed address: the page is requested, and pushed on the history once
    /// shown. An address that did not parse shows an error line and leaves no page.
    pub fn open_address(&mut self, parsed: Option<Address>) -> (r: Reply)
        requires
            old(self).pending is Address,
        ensures
            opened(*old(self), match parsed { Some(a) => Some(a@), None => None }, *final(self), r),
    {
        match parsed {
            None => {
                self.navigation = None;
                self.pending = Pending::Command;
                let mut out: Vec<u8> = Vec::new();
                append_text(&mut out, "Couldn't load page. Unable to parse URI.");
                out.push(13);
                out.push(10);
                out.push(0x3E);
                out.push(0x2E);
                assert(out@ =~= not_parsed() + crlf() + prompt());
                Reply { output: out, request: Request::ReadCommand }
            },
            Some(a) => {
                self.pending = Pending::Fetch { address: a.duplicate(), push: true, keep: false };
                Reply { output: Vec::new(), request: Request::Fetch(a) }
            },
        }
    }

    /// The outcome of the page request: what it shows (`load_page_from_response`)
    /// becomes the current page; a page opened by address is pushed on the history.
    pub fn fetched(&mut self, outcome: Fetched) -> (r: Reply)
        requires
            old(self).pending is Fetch,
        ensures
            after_fetch(*old(self), outcome, *final(self), r),
    {
        let mut pending = Pending::Command;
        std::mem::swap(&mut pending, &mut self.pending);
        let (address, push, keep) = match pending {
            Pending::Fetch { address, push, keep } => (address, push, keep),
            _ => vstd::pervasive::unreached(),
        };
        let copy = address.duplicate();
        match load_page_from_response(&self.decoder, address, outcome) {
            None => Reply { output: Vec::new(), request: Request::Abort },
            Some((out, nav)) => {
                let mut out = out;
                let ghost out0 = out@;
                let shown = nav.is_some();
                if shown || !keep {
                    self.navigation = nav;
                }
                let ghost before = self.page_stack@;
                if push && shown {
                    self.page_stack.push(copy);
                    assert(stack_view(self.page_stack@) =~= stack_view(before).push(copy@));
                }
                if push {
                    out.push(13);
                    out.push(10);
                }
                out.push(0x3E);
                out.push(0x2E);
                assert(out@ =~= out0 + (crlf_if(push) + prompt()));
                Reply { output: out, request: Request::ReadCommand }
            },
        }
    }

}

} // verus!
