use vstd::prelude::*;
use vstd::utf8::*;
use crate::address::Address;
use crate::decoder::TTIDecoder;
use crate::links::LinkTable;
use crate::number::{parse_i32, parse_i32_radix};
use crate::text::{push_all, utf8_string};

verus! {

/// What is known of a page after it was shown: where it came from, the page
/// number that was shown and the links it defines.
pub struct Navigation {
    pub uri: Option<Address>,
    pub start_page: i32,
    pub links: LinkTable,
}

/// A page rendered for the terminal: the bytes to send, and its navigation data.
pub struct RenderedPage {
    pub output: Vec<u8>,
    pub navigation: Navigation,
}

pub open spec fn crlf() -> Seq<u8> {
    seq![13u8, 10u8]
}

/// `OL`: an output line of the page.
pub open spec fn word_ol() -> Seq<u8> {
    seq![79u8, 76u8]
}

/// `PN`: the start of a page, with its number in hexadecimal.
pub open spec fn word_pn() -> Seq<u8> {
    seq![80u8, 78u8]
}

/// `LN`: a link, `LN,<text>,<path>`.
pub open spec fn word_ln() -> Seq<u8> {
    seq![76u8, 78u8]
}

/// The scanner's state after part of a TTI buffer: a TTI file is a sequence of lines
/// `COMMAND,arg1,rest`, each ending in CR LF. Fields are held as byte ranges.
#[verifier::ext_equal]
pub struct ScanState {
    pub links: Map<Seq<char>, Seq<char>>,
    pub page_no: i32,
    /// A page header with the requested number was read.
    pub found: bool,
    /// Start of the field being read.
    pub y: int,
    pub prev_ol: i32,
    pub cur_ol: i32,
    /// Number of fields ended by a comma on this line (at most 2).
    pub arg_no: int,
    pub command: Option<(int, int)>,
    pub line: Option<(int, int)>,
    pub out: Seq<u8>,
    /// A second page started while the first page was wanted: nothing more is read.
    pub stopped: bool,
    /// The buffer is one on which the scan cannot go on (a field is not UTF-8, a line
    /// has no room for its last field, a line number overflows, or a line cannot be decoded).
    pub failed: bool,
}

pub open spec fn scan_initial() -> ScanState {
    ScanState {
        links: Map::empty(),
        page_no: -1i32,
        found: false,
        y: 0,
        prev_ol: 0i32,
        cur_ol: 0i32,
        arg_no: 0,
        command: None,
        line: None,
        out: seq![],
        stopped: false,
        failed: false,
    }
}

/// The bytes of a field.
pub open spec fn field(buf: Seq<u8>, f: (int, int)) -> Seq<u8> {
    buf.subrange(f.0, f.1)
}

/// Whether an optional field holds `word`.
pub open spec fn field_is(buf: Seq<u8>, f: Option<(int, int)>, word: Seq<u8>) -> bool {
    match f {
        Some(r) => field(buf, r) == word,
        None => false,
    }
}

/// A comma at `x` ends the command field or the line-number field; both must be UTF-8.
/// Commas after the second are part of the line's text.
pub open spec fn on_comma(buf: Seq<u8>, st: ScanState, x: int) -> ScanState {
    if st.arg_no < 2 && !valid_utf8(buf.subrange(st.y, x)) {
        ScanState { failed: true, ..st }
    } else if st.arg_no < 2 {
        ScanState {
            command: if st.arg_no == 0 { Some((st.y, x)) } else { st.command },
            line: if st.arg_no == 1 { Some((st.y, x)) } else { st.line },
            arg_no: st.arg_no + 1,
            y: x + 1,
            ..st
        }
    } else {
        st
    }
}

/// The line number a line sets: its second field as a decimal number, kept when it
/// is `0` or not a number.
pub open spec fn next_line_number(buf: Seq<u8>, st: ScanState) -> i32 {
    match st.line {
        Some(r) => if field(buf, r) == seq![48u8] {
            st.cur_ol
        } else {
            match parse_i32(field(buf, r), 10) {
                Some(n) => n,
                None => st.cur_ol,
            }
        },
        None => st.cur_ol,
    }
}

/// Whether the line ending at the newline is an output line of the wanted page.
pub open spec fn prints(buf: Seq<u8>, req: i32, st: ScanState) -> bool {
    &&& field_is(buf, st.command, word_ol())
    &&& (st.page_no == req || req == -1)
    &&& st.line is Some
    &&& !field_is(buf, st.line, seq![48u8])
}

/// A newline at `x` ends a line: its last field runs up to the byte before `x` (the CR).
pub open spec fn on_newline<D: TTIDecoder>(d: &D, buf: Seq<u8>, req: i32, st: ScanState, x: int) -> ScanState {
    let last = buf.subrange(st.y, x - 1);
    let has_last = st.y < x;
    let is_pn = field_is(buf, st.command, word_pn());
    let is_ln = field_is(buf, st.command, word_ln());
    if is_pn && st.page_no >= 0 && req == -1 {
        ScanState { stopped: true, ..st }
    } else if (is_pn && (!has_last || !valid_utf8(last))) || (is_ln && !has_last) {
        ScanState { failed: true, ..st }
    } else {
        let page_no = if is_pn {
            match parse_i32(last, 16) {
                Some(n) => n,
                None => st.page_no,
            }
        } else {
            st.page_no
        };
        let found = st.found || (is_pn && parse_i32(last, 16) == Some(req));
        let links = if is_ln && valid_utf8(last) && st.line is Some {
            st.links.insert(decode_utf8(field(buf, st.line.unwrap())), decode_utf8(last))
        } else {
            st.links
        };
        let cur_ol = next_line_number(buf, st);
        let reset = ScanState { links, page_no, found, y: x + 1, arg_no: 0, command: None, line: None, ..st };
        if !prints(buf, req, st) {
            ScanState { prev_ol: cur_ol, cur_ol, ..reset }
        } else if !has_last || st.prev_ol == i32::MAX || !d.accepts(last) {
            ScanState { failed: true, ..st }
        } else {
            let gap = if st.prev_ol + 1 != cur_ol { crlf() } else { seq![] };
            let upper = d.decoded(last, false);
            if upper.1 == 1 {
                if cur_ol == i32::MAX {
                    ScanState { failed: true, ..st }
                } else {
                    ScanState {
                        out: st.out + gap + upper.0 + d.decoded(last, true).0,
                        prev_ol: (cur_ol + 1) as i32,
                        cur_ol: (cur_ol + 1) as i32,
                        ..reset
                    }
                }
            } else {
                ScanState { out: st.out + gap + upper.0, prev_ol: cur_ol, cur_ol, ..reset }
            }
        }
    }
}

/// One byte of the scan.
pub open spec fn scan_step<D: TTIDecoder>(d: &D, buf: Seq<u8>, req: i32, st: ScanState, x: int) -> ScanState {
    if st.stopped || st.failed {
        st
    } else {
        let st1 = if buf[x] == 44 { on_comma(buf, st, x) } else { st };
        if !st1.failed && buf[x] == 10 { on_newline(d, buf, req, st1, x) } else { st1 }
    }
}

/// The state after the first `n` bytes of `buf`, rendering page `req` (-1: the first page).
pub open spec fn scan<D: TTIDecoder>(d: &D, buf: Seq<u8>, req: i32, n: int) -> ScanState
    decreases n,
{
    if n <= 0 {
        scan_initial()
    } else {
        scan_step(d, buf, req, scan(d, buf, req, n - 1), n - 1)
    }
}

/// The scan of the whole buffer.
pub open spec fn page_scan<D: TTIDecoder>(d: &D, buf: Seq<u8>, req: i32) -> ScanState {
    scan(d, buf, req, buf.len() as int)
}

/// Once stopped or failed, the scan stays as it is.
pub proof fn lemma_scan_settled<D: TTIDecoder>(d: &D, buf: Seq<u8>, req: i32, m: int, n: int)
    requires
        0 <= m <= n,
        scan(d, buf, req, m).stopped || scan(d, buf, req, m).failed,
    ensures
        scan(d, buf, req, n) == scan(d, buf, req, m),
    decreases n - m,
{
    if n > m {
        lemma_scan_settled(d, buf, req, m, n - 1);
    }
}

/// The rendered page and its navigation data are those of the scan `st`.
/// The number of the page found: for the first page (-1), the number of the last page
/// header read (reading stops at the next page); for a requested page, its number if a
/// header with that number was read, else -1.
pub open spec fn page_found(st: ScanState, req: i32) -> i32 {
    if req == -1 {
        st.page_no
    } else if st.found {
        req
    } else {
        -1i32
    }
}

pub open spec fn renders(p: RenderedPage, st: ScanState, req: i32) -> bool {
    &&& p.output@ == st.out
    &&& p.navigation.links@ == st.links
    &&& p.navigation.start_page == page_found(st, req)
    &&& p.navigation.uri is None
}

/// A byte range as integers.
pub open spec fn range_view(r: Option<(usize, usize)>) -> Option<(int, int)> {
    match r {
        Some((a, b)) => Some((a as int, b as int)),
        None => None,
    }
}

struct Scanner {
    links: LinkTable,
    page_no: i32,
    found: bool,
    y: usize,
    prev_ol: i32,
    cur_ol: i32,
    arg_no: usize,
    command: Option<(usize, usize)>,
    line: Option<(usize, usize)>,
    /// The line-number field as text, kept as the key of a link.
    line_text: Option<String>,
    out: Vec<u8>,
}

impl Scanner {
    spec fn state(&self) -> ScanState {
        ScanState {
            links: self.links@,
            page_no: self.page_no,
            found: self.found,
            y: self.y as int,
            prev_ol: self.prev_ol,
            cur_ol: self.cur_ol,
            arg_no: self.arg_no as int,
            command: range_view(self.command),
            line: range_view(self.line),
            out: self.out@,
            stopped: false,
            failed: false,
        }
    }

    spec fn wf(&self, buf: Seq<u8>, x: int) -> bool {
        &&& self.y <= x <= buf.len()
        &&& self.arg_no <= 2
        &&& (self.command matches Some((a, b)) ==> a <= b <= x)
        &&& (self.line matches Some((a, b)) ==> a <= b <= x)
        &&& (self.line_text is Some <==> self.line is Some)
        &&& (self.line_text matches Some(t) ==> t@ == decode_utf8(field(buf, range_view(self.line).unwrap())))
    }

    fn found_page(&self, req: i32) -> (n: i32)
        ensures
            n == page_found(self.state(), req),
    {
        if req == -1 {
            self.page_no
        } else if self.found {
            req
        } else {
            -1
        }
    }

    fn comma(&mut self, buf: &[u8], x: usize) -> (ok: bool)
        requires
            x < buf.len(),
            buf@[x as int] == 44,
            old(self).wf(buf@, x as int),
        ensures
            ok == !on_comma(buf@, old(self).state(), x as int).failed,
            ok ==> final(self).state() == on_comma(buf@, old(self).state(), x as int),
            ok ==> final(self).wf(buf@, x + 1),
    {
        if self.arg_no < 2 {
            let v = vstd::slice::slice_subrange(buf, self.y, x);
            match utf8_string(v) {
                None => {
                    return false;
                },
                Some(text) => {
                    if self.arg_no == 0 {
                        self.command = Some((self.y, x));
                    }
                    if self.arg_no == 1 {
                        self.line = Some((self.y, x));
                        self.line_text = Some(text);
                    }
                    self.arg_no = self.arg_no + 1;
                    self.y = x + 1;
                },
            }
        }
        true
    }

    fn newline<D: TTIDecoder>(&mut self, d: &D, buf: &[u8], req: i32, x: usize) -> (r: u8)
        requires
            x < buf.len(),
            buf@[x as int] == 10,
            old(self).wf(buf@, x as int),
        ensures
            r <= 2,
            r == 1 <==> on_newline(d, buf@, req, old(self).state(), x as int).stopped,
            r == 2 <==> on_newline(d, buf@, req, old(self).state(), x as int).failed,
            r == 1 ==> final(self).state() == old(self).state(),
            r == 0 ==> final(self).state() == on_newline(d, buf@, req, old(self).state(), x as int),
            r == 0 ==> final(self).wf(buf@, x + 1),
    {
        let ghost st = self.state();
        let is_pn = field_is_word(buf, self.command, 80, 78);
        let is_ln = field_is_word(buf, self.command, 76, 78);
        if is_pn && self.page_no >= 0 && req == -1 {
            return 1;
        }
        let has_last = self.y < x;
        let last: &[u8] = if has_last {
            vstd::slice::slice_subrange(buf, self.y, x - 1)
        } else {
            vstd::slice::slice_subrange(buf, x, x)
        };
        assert(has_last ==> last@ == buf@.subrange(st.y, x - 1));
        let last_text = if has_last { utf8_string(last) } else { None };
        if is_pn && (!has_last || last_text.is_none()) {
            return 2;
        }
        if is_ln && !has_last {
            return 2;
        }
        let print = field_is_word(buf, self.command, 79, 76) && (self.page_no == req || req == -1)
            && self.line.is_some() && !field_is_zero(buf, self.line);
        assert(print == prints(buf@, req, st));
        if is_pn {
            match parse_i32_radix(last, 16) {
                Some(n) => {
                    self.page_no = n;
                    if n == req {
                        self.found = true;
                    }
                },
                None => {},
            }
        }
        if is_ln {
            match last_text {
                Some(target) => match &self.line_text {
                    Some(k) => {
                        self.links.insert(k.clone(), target);
                    },
                    None => {},
                },
                None => {},
            }
        }
        let mut cur: i32 = match self.line {
            Some((a, b)) => {
                if field_is_zero(buf, self.line) {
                    self.cur_ol
                } else {
                    match parse_i32_radix(vstd::slice::slice_subrange(buf, a, b), 10) {
                        Some(n) => n,
                        None => self.cur_ol,
                    }
                }
            },
            None => self.cur_ol,
        };
        assert(cur == next_line_number(buf@, st));
        if print {
            if !has_last || self.prev_ol == i32::MAX || !d.can_decode(last) {
                return 2;
            }
            if self.prev_ol + 1 != cur {
                self.out.push(13);
                self.out.push(10);
            }
            let (upper, repeat) = d.de_escape(last, false);
            push_all(&mut self.out, upper.as_slice());
            if repeat == 1 {
                if cur == i32::MAX {
                    return 2;
                }
                let (lower, _) = d.de_escape(last, true);
                push_all(&mut self.out, lower.as_slice());
                cur = cur + 1;
            }
        }
        self.prev_ol = cur;
        self.cur_ol = cur;
        self.y = x + 1;
        self.arg_no = 0;
        self.command = None;
        self.line = None;
        self.line_text = None;
        0
    }
}

fn field_is_word(buf: &[u8], f: Option<(usize, usize)>, w0: u8, w1: u8) -> (r: bool)
    requires
        f matches Some((a, b)) ==> a <= b <= buf@.len(),
    ensures
        r == field_is(buf@, range_view(f), seq![w0, w1]),
{
    match f {
        Some((a, b)) => {
            if b - a == 2 && buf[a] == w0 && buf[a + 1] == w1 {
                assert(field(buf@, (a as int, b as int)) =~= seq![w0, w1]);
                true
            } else {
                let ghost fv = field(buf@, (a as int, b as int));
                assert(fv.len() == b - a);
                if b - a == 2 {
                    assert(fv[0] == buf@[a as int]);
                    assert(fv[1] == buf@[a + 1]);
                    assert(fv[0] != w0 || fv[1] != w1);
                    assert(fv != seq![w0, w1]);
                } else {
                    assert(seq![w0, w1].len() == 2);
                }
                false
            }
        },
        None => false,
    }
}

fn field_is_zero(buf: &[u8], f: Option<(usize, usize)>) -> (r: bool)
    requires
        f matches Some((a, b)) ==> a <= b <= buf@.len(),
    ensures
        r == field_is(buf@, range_view(f), seq![48u8]),
{
    match f {
        Some((a, b)) => {
            if b - a == 1 && buf[a] == 48 {
                assert(field(buf@, (a as int, b as int)) =~= seq![48u8]);
                true
            } else {
                let ghost fv = field(buf@, (a as int, b as int));
                assert(fv.len() == b - a);
                if b - a == 1 {
                    assert(fv[0] == buf@[a as int]);
                    assert(fv != seq![48u8]);
                } else {
                    assert(seq![48u8].len() == 1);
                }
                false
            }
        },
        None => false,
    }
}

/// Renders the page `requested_page_no` (-1: the first page) of the TTI data in `buf`
/// for the terminal that `decoder` translates for: each output line (`OL`) of the page,
/// with CR LF first when its line number does not follow the previous line's, and a
/// second, lower half when the line selects double height. Collects the page's links
/// (`LN`) and its number (`PN`, hexadecimal). With -1, reading stops at the second page.
/// `None` exactly when the data is one the scan cannot go through (see `ScanState::failed`).
pub fn try_render_page<D: TTIDecoder>(buf: &[u8], requested_page_no: i32, decoder: &D) -> (res: Option<RenderedPage>)
    ensures
        res is None <==> page_scan(decoder, buf@, requested_page_no).failed,
        res matches Some(p) ==> renders(p, page_scan(decoder, buf@, requested_page_no), requested_page_no),
{
    let mut s = Scanner {
        links: LinkTable::new(),
        page_no: -1,
        found: false,
        y: 0,
        prev_ol: 0,
        cur_ol: 0,
        arg_no: 0,
        command: None,
        line: None,
        line_text: None,
        out: Vec::new(),
    };
    assert(s.state() == scan(decoder, buf@, requested_page_no, 0));
    let mut x: usize = 0;
    while x < buf.len()
        invariant
            x <= buf@.len(),
            s.wf(buf@, x as int),
            s.state() == scan(decoder, buf@, requested_page_no, x as int),
        decreases buf@.len() - x,
    {
        let b = buf[x];
        if b == 44 {
            if !s.comma(buf, x) {
                proof {
                    lemma_scan_settled(decoder, buf@, requested_page_no, x + 1, buf@.len() as int);
                }
                return None;
            }
        }
        if b == 10 {
            let r = s.newline(decoder, buf, requested_page_no, x);
            if r == 1 {
                proof {
                    lemma_scan_settled(decoder, buf@, requested_page_no, x + 1, buf@.len() as int);
                }
                let start_page = s.found_page(requested_page_no);
                return Some(RenderedPage {
                    output: s.out,
                    navigation: Navigation { uri: None, start_page, links: s.links },
                });
            } else if r == 2 {
                proof {
                    lemma_scan_settled(decoder, buf@, requested_page_no, x + 1, buf@.len() as int);
                }
                return None;
            }
        }
        x = x + 1;
    }
    let start_page = s.found_page(requested_page_no);
    Some(RenderedPage {
        output: s.out,
        navigation: Navigation { uri: None, start_page, links: s.links },
    })
}

/// Renders a page on data that the scan goes through; see `try_render_page`.
pub fn render_page<D: TTIDecoder>(buf: &[u8], requested_page_no: i32, decoder: &D) -> (res: RenderedPage)
    requires
        !page_scan(decoder, buf@, requested_page_no).failed,
    ensures
        renders(res, page_scan(decoder, buf@, requested_page_no), requested_page_no),
{
    match try_render_page(buf, requested_page_no, decoder) {
        Some(p) => p,
        None => vstd::pervasive::unreached(),
    }
}

/// The scan's positions stay within what was read.
pub open spec fn scan_bounded(st: ScanState, n: int) -> bool {
    &&& 0 <= st.y <= n
    &&& (st.command matches Some((a, b)) ==> 0 <= a <= b <= n)
    &&& (st.line matches Some((a, b)) ==> 0 <= a <= b <= n)
}

proof fn lemma_scan_bounded<D: TTIDecoder>(d: &D, buf: Seq<u8>, req: i32, n: int)
    requires
        0 <= n <= buf.len(),
    ensures
        scan_bounded(scan(d, buf, req, n), n),
    decreases n,
{
    if n > 0 {
        lemma_scan_bounded(d, buf, req, n - 1);
    }
}

proof fn lemma_step_prefix<D: TTIDecoder>(d: &D, b1: Seq<u8>, b2: Seq<u8>, req: i32, st: ScanState, x: int)
    requires
        0 <= x < b1.len(),
        scan_bounded(st, x),
    ensures
        scan_step(d, b1 + b2, req, st, x) == scan_step(d, b1, req, st, x),
{
    let buf = b1 + b2;
    assert(buf[x] == b1[x]);
    assert(buf.subrange(st.y, x) =~= b1.subrange(st.y, x));
    let st1 = if b1[x] == 44 { on_comma(b1, st, x) } else { st };
    assert(on_comma(buf, st, x) == on_comma(b1, st, x));
    if st.y < x {
        assert(buf.subrange(st.y, x - 1) =~= b1.subrange(st.y, x - 1));
    }
    if let Some((a, b)) = st1.command {
        assert(field(buf, (a, b)) =~= field(b1, (a, b)));
    }
    if let Some((a, b)) = st1.line {
        assert(field(buf, (a, b)) =~= field(b1, (a, b)));
    }
    assert(on_newline(d, buf, req, st1, x) == on_newline(d, b1, req, st1, x));
}

/// Scanning reads the buffer front to back: the state after the first `n` bytes does
/// not depend on what follows them.
pub proof fn lemma_scan_prefix<D: TTIDecoder>(d: &D, b1: Seq<u8>, b2: Seq<u8>, req: i32, n: int)
    requires
        0 <= n <= b1.len(),
    ensures
        scan(d, b1 + b2, req, n) == scan(d, b1, req, n),
    decreases n,
{
    if n > 0 {
        lemma_scan_prefix(d, b1, b2, req, n - 1);
        lemma_scan_bounded(d, b1, req, n - 1);
        lemma_step_prefix(d, b1, b2, req, scan(d, b1, req, n - 1), n - 1);
    }
}

/// When rendering the first page (-1) stops at the header of a second page, or the
/// scan fails, whatever data follows changes nothing: the first page is rendered from
/// the data up to the next page header alone.
pub proof fn law_rest_after_first_page_ignored<D: TTIDecoder>(d: &D, b1: Seq<u8>, b2: Seq<u8>, req: i32)
    requires
        page_scan(d, b1, req).stopped || page_scan(d, b1, req).failed,
    ensures
        page_scan(d, b1 + b2, req) == page_scan(d, b1, req),
{
    lemma_scan_prefix(d, b1, b2, req, b1.len() as int);
    lemma_scan_settled(d, b1 + b2, req, b1.len() as int, (b1 + b2).len() as int);
}

} // verus!
