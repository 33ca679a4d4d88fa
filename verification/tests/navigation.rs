use rusttex::address::{build_address, link_address, parse_address, path_parent, Address};
use rusttex::decoder::{Mode7BeebAscii, Mode7UTF8Ansi};
use rusttex::page::{render_page, Navigation};
use rusttex::session::{load_page_from_response, select_link, Fetched, Pending, Request, Session};
use rusttex::terminal::{edit_line, key_from_byte, terminal_for_key, Terminal};

fn addr(text: &str) -> Address {
    parse_address(text).unwrap()
}

fn page_with_links(uri: &str) -> Option<Navigation> {
    let mut nav = render_page(b"OL,1,A\r\nLN,next,page2.tti\r\n", -1, &Mode7BeebAscii::new()).navigation;
    nav.uri = Some(addr(uri));
    Some(nav)
}

fn fetch_address(r: &Request) -> String {
    match r {
        Request::Fetch(a) => a.text.clone(),
        _ => panic!("no request for a page"),
    }
}

#[test]
fn parse_address_parts() {
    let a = addr("http://example.com:8080/dir/index.tti?x=1");
    assert_eq!(a.scheme.as_deref(), Some("http"));
    assert_eq!(a.host.as_deref(), Some("example.com"));
    assert_eq!(a.path, "/dir/index.tti");
    assert_eq!(a.text, "http://example.com:8080/dir/index.tti?x=1");
    let r = addr("/only/path");
    assert_eq!(r.scheme, None);
    assert_eq!(r.host, None);
    assert_eq!(r.path, "/only/path");
    assert!(parse_address("http://exa mple.com/").is_none());
    assert!(parse_address("").is_none());
}

#[test]
fn build_address_from_parts() {
    let a = build_address(Some("http"), Some("example.com"), "/dir/p.tti").unwrap();
    assert_eq!(a.text, "http://example.com/dir/p.tti");
    assert_eq!(a.path, "/dir/p.tti");
    // A scheme without an authority does not form a URI.
    assert!(build_address(Some("http"), None, "/p").is_none());
    // Path and query alone do.
    assert_eq!(build_address(None, None, "/p").unwrap().text, "/p");
}

#[test]
fn parent_of_paths() {
    assert_eq!(path_parent("/dir/index.tti"), Some("/dir".to_string()));
    assert_eq!(path_parent("/index.tti"), Some("/".to_string()));
    assert_eq!(path_parent("/"), None);
    assert_eq!(path_parent(""), None);
    assert_eq!(path_parent("a"), Some("".to_string()));
    // Absolute paths of plain components: the path without its final component.
    assert_eq!(path_parent("/a./b"), Some("/a.".to_string()));
    assert_eq!(path_parent("/../b"), Some("/..".to_string()));
    assert_eq!(path_parent("/x/./y/z.tti"), Some("/x/./y".to_string()));
    assert_eq!(path_parent("/x:y/z"), Some("/x:y".to_string()));
    // A trailing `/` or `/.` does not make a component of its own.
    assert_eq!(path_parent("/pages/"), Some("/".to_string()));
    assert_eq!(path_parent("/a/b/"), Some("/a".to_string()));
    assert_eq!(path_parent("/a/b/."), Some("/a".to_string()));
}

#[test]
fn link_address_keeps_scheme_and_host() {
    let base = addr("http://example.com:8080/dir/index.tti");
    let a = link_address(&base, "/dir", "page2.tti").unwrap();
    // The port is not carried over: the host alone is the new authority.
    assert_eq!(a.text, "http://example.com/dir/page2.tti");
}

#[test]
fn select_link_follows_relative_path() {
    let nav = page_with_links("http://example.com/dir/index.tti");
    let a = select_link("next", &nav).unwrap();
    assert_eq!(a.text, "http://example.com/dir/page2.tti");
    // A page at the top directory: the parent is "/", giving a double slash.
    let top = page_with_links("http://example.com/index.tti");
    assert_eq!(select_link("next", &top).unwrap().path, "//page2.tti");
}

#[test]
fn select_link_from_directory_page() {
    // A page whose path names a directory: its parent is the directory above it.
    let dir = page_with_links("http://example.com/pages/");
    assert_eq!(select_link("next", &dir).unwrap().path, "//page2.tti");
    let nested = page_with_links("http://example.com/a/b/");
    assert_eq!(select_link("next", &nested).unwrap().text, "http://example.com/a/page2.tti");
}

#[test]
fn select_link_without_target() {
    let nav = page_with_links("http://example.com/dir/index.tti");
    assert!(select_link("prev", &nav).is_none());
    assert!(select_link("next", &None).is_none());
    let mut no_uri = page_with_links("http://example.com/x");
    no_uri.as_mut().unwrap().uri = None;
    assert!(select_link("next", &no_uri).is_none());
}

#[test]
fn response_rendered_on_success() {
    let (out, nav) = load_page_from_response(
        &Mode7BeebAscii::new(),
        addr("http://h/p.tti"),
        Fetched::Response { success: true, status: "200".to_string(), body: Some(b"OL,1,A\r\n".to_vec()) },
    )
    .unwrap();
    assert_eq!(out, vec![0x0C, 0xC1]);
    let nav = nav.unwrap();
    assert_eq!(nav.uri.unwrap().text, "http://h/p.tti");
    assert_eq!(nav.start_page, -1);
}

#[test]
fn response_errors_shown() {
    let (out, nav) = load_page_from_response(
        &Mode7BeebAscii::new(),
        addr("http://h/p.tti"),
        Fetched::Response { success: false, status: "404".to_string(), body: Some(Vec::new()) },
    )
    .unwrap();
    assert_eq!(out, b"Could not load page:404\r\n".to_vec());
    assert!(nav.is_none());
    let (out, nav) =
        load_page_from_response(&Mode7BeebAscii::new(), addr("http://h/"), Fetched::Failed("refused".to_string())).unwrap();
    assert_eq!(out, b"Could not load page:refused\r\n".to_vec());
    assert!(nav.is_none());
    let (out, nav) = load_page_from_response(
        &Mode7BeebAscii::new(),
        addr("http://h/"),
        Fetched::Response { success: true, status: "200".to_string(), body: None },
    )
    .unwrap();
    assert!(out.is_empty());
    assert!(nav.is_none());
    assert!(load_page_from_response(
        &Mode7BeebAscii::new(),
        addr("http://h/"),
        Fetched::Response { success: true, status: "200".to_string(), body: Some(b"OL,1,\n".to_vec()) },
    )
    .is_none());
}

#[test]
fn session_start_and_title() {
    let (mut s, r) = Session::start(Mode7UTF8Ansi::new());
    assert_eq!(r.output, vec![0x0C, 0x1E]);
    assert!(matches!(r.request, Request::ReadFile(ref f) if f == "title.tti"));
    let r = s.file_loaded(b"OL,1,Hi\r\n");
    assert_eq!(r.output, b"Hi\x1b[37;1m\x1b[40m\r\n\r\n>.".to_vec());
    assert!(matches!(r.request, Request::ReadCommand));
    assert!(s.navigation.is_none());
}

#[test]
fn session_simple_commands() {
    let (mut s, _) = Session::start(Mode7BeebAscii::new());
    s.file_loaded(b"");
    let r = s.command("HELP");
    assert_eq!(r.output, vec![0x0C, 0x1E]);
    assert!(matches!(r.request, Request::ReadFile(ref f) if f == "help.tti"));
    let r = s.file_loaded(b"OL,1,A\r\n");
    assert_eq!(r.output, vec![0xC1, b'>', b'.']);
    let r = s.command("cls");
    assert_eq!(r.output, vec![0x0C, b'>', b'.']);
    let r = s.command("menu");
    assert!(matches!(r.request, Request::ReadFile(ref f) if f == "title.tti"));
    let r = s.file_loaded(b"");
    assert_eq!(r.output, b"\r\n>.".to_vec());
    let r = s.command("back");
    assert_eq!(r.output, b">.".to_vec());
    let r = s.command("reload");
    assert_eq!(r.output, b">.".to_vec());
    let r = s.command("anything");
    assert_eq!(r.output, b">.".to_vec());
    let r = s.command("Quit");
    assert!(r.output.is_empty());
    assert!(matches!(r.request, Request::Finish));
}

#[test]
fn unreadable_file_aborts() {
    let (mut s, _) = Session::start(Mode7BeebAscii::new());
    let r = s.file_loaded(b"OL,1,\n");
    assert!(matches!(r.request, Request::Abort));
}

#[test]
fn session_open_follow_and_back() {
    let (mut s, _) = Session::start(Mode7BeebAscii::new());
    s.file_loaded(b"");
    let r = s.command("http");
    assert_eq!(r.output, b"ADDR:".to_vec());
    assert!(matches!(r.request, Request::ReadAddress));
    let r = s.address("HTTP://Example.com/dir/index.tti");
    assert!(r.output.is_empty());
    assert_eq!(fetch_address(&r.request), "http://example.com/dir/index.tti");
    let body = b"OL,1,A\r\nLN,next,page2.tti\r\n".to_vec();
    let r = s.fetched(Fetched::Response { success: true, status: "200".to_string(), body: Some(body) });
    assert_eq!(r.output, vec![0x0C, 0xC1, 0x0D, 0x0A, b'>', b'.']);
    assert_eq!(s.page_stack.len(), 1);
    // Following the link pushes the current page.
    let r = s.command("next");
    assert_eq!(fetch_address(&r.request), "http://example.com/dir/page2.tti");
    assert_eq!(s.page_stack.len(), 2);
    let r = s.fetched(Fetched::Failed("refused".to_string()));
    assert_eq!(r.output, b"Could not load page:refused\r\n>.".to_vec());
    // The page the link was on stays.
    assert_eq!(s.navigation.as_ref().unwrap().uri.as_ref().unwrap().text, "http://example.com/dir/index.tti");
    // Back requests the page the link was followed from.
    let r = s.command("back");
    assert_eq!(fetch_address(&r.request), "http://example.com/dir/index.tti");
    assert_eq!(s.page_stack.len(), 1);
    assert!(matches!(s.pending, Pending::Fetch { push: false, .. }));
    let r = s.fetched(Fetched::Response { success: true, status: "200".to_string(), body: Some(b"OL,1,B\r\n".to_vec()) });
    assert_eq!(r.output, vec![0x0C, 0xC2, b'>', b'.']);
    let r = s.command("reload");
    assert_eq!(fetch_address(&r.request), "http://example.com/dir/index.tti");
}

#[test]
fn session_bad_address() {
    let (mut s, _) = Session::start(Mode7BeebAscii::new());
    s.file_loaded(b"");
    s.command("http");
    let r = s.address("not a uri");
    assert_eq!(r.output, b"Couldn't load page. Unable to parse URI.\r\n>.".to_vec());
    assert!(matches!(r.request, Request::ReadCommand));
    assert!(s.navigation.is_none());
}

#[test]
fn back_after_address_requests_it_again() {
    let (mut s, _) = Session::start(Mode7BeebAscii::new());
    s.file_loaded(b"");
    s.command("http");
    s.address("http://h/a.tti");
    s.fetched(Fetched::Response { success: true, status: "200".to_string(), body: Some(Vec::new()) });
    let r = s.command("back");
    assert_eq!(fetch_address(&r.request), "http://h/a.tti");
}

#[test]
fn missing_link_keeps_page() {
    let (mut s, _) = Session::start(Mode7BeebAscii::new());
    s.file_loaded(b"");
    s.command("http");
    s.address("http://h/a.tti");
    s.fetched(Fetched::Response { success: true, status: "200".to_string(), body: Some(Vec::new()) });
    let r = s.command("nowhere");
    assert_eq!(r.output, b">.".to_vec());
    assert!(s.navigation.is_some());
    // The current page is pushed all the same.
    assert_eq!(s.page_stack.len(), 2);
    // Reload still has the page to request.
    let r = s.command("reload");
    assert_eq!(fetch_address(&r.request), "http://h/a.tti");
}

#[test]
fn no_link_from_root_page() {
    let nav = page_with_links("http://example.com/");
    assert!(select_link("next", &nav).is_none());
}

#[test]
fn terminal_choice_and_keys() {
    assert!(terminal_for_key('b') == Some(Terminal::BbcMicro));
    assert!(terminal_for_key('u') == Some(Terminal::Utf8Ansi));
    assert!(terminal_for_key('B').is_none());
    assert!(terminal_for_key(' ').is_none());
    assert_eq!(key_from_byte(b'b'), 'b');
    assert_eq!(key_from_byte(0xE9), 'é');
}

#[test]
fn line_editing() {
    let mut line = Vec::new();
    let e = edit_line(&mut line, b'a');
    assert!(!e.done);
    assert_eq!(e.echo, vec![b'a']);
    let e = edit_line(&mut line, 127);
    assert_eq!(e.echo, vec![127]);
    assert!(line.is_empty());
    let e = edit_line(&mut line, 127);
    assert!(e.echo.is_empty());
    edit_line(&mut line, b'o');
    edit_line(&mut line, b'k');
    let e = edit_line(&mut line, 13);
    assert!(e.done);
    assert_eq!(e.echo, vec![13, 10]);
    assert_eq!(line, b"ok".to_vec());
}
