//! What each whole line of a TTI file does to the rendering of a page: the laws of the
//! scan stated one line at a time, for link lines, output lines and page headers.
use vstd::prelude::*;
use vstd::utf8::*;
use crate::decoder::TTIDecoder;
use crate::number::parse_i32;
use crate::page::{ScanState, crlf, lemma_scan_prefix, on_comma, on_newline, page_scan, scan, scan_step, word_ln, word_ol, word_pn};

verus! {

/// A whole TTI line of three fields: `cmd,num,text` and CR LF.
pub open spec fn tti_line(cmd: Seq<u8>, num: Seq<u8>, text: Seq<u8>) -> Seq<u8> {
    cmd + seq![44u8] + num + seq![44u8] + text + crlf()
}

/// A whole TTI line of two fields: `cmd,text` and CR LF.
pub open spec fn short_line(cmd: Seq<u8>, text: Seq<u8>) -> Seq<u8> {
    cmd + seq![44u8] + text + crlf()
}

/// A field ended by a comma: UTF-8, without a comma or a line feed.
pub open spec fn line_field(f: Seq<u8>) -> bool {
    &&& valid_utf8(f)
    &&& forall|j: int| 0 <= j < f.len() ==> #[trigger] f[j] != 44u8 && f[j] != 10u8
}

/// The rest of a line: anything but a line feed.
pub open spec fn line_text(t: Seq<u8>) -> bool {
    forall|j: int| 0 <= j < t.len() ==> #[trigger] t[j] != 10u8
}

/// The scan stands at the start of a line at position `n`, and goes on.
pub open spec fn at_line_start(st: ScanState, n: int) -> bool {
    &&& st.y == n
    &&& st.arg_no == 0
    &&& st.command is None
    &&& st.line is None
    &&& !st.stopped
    &&& !st.failed
}

/// Bytes that are neither a line feed nor a field-ending comma change nothing.
proof fn lemma_scan_skip<D: TTIDecoder>(d: &D, b: Seq<u8>, req: i32, m: int, n: int)
    requires
        0 <= m <= n <= b.len(),
        forall|j: int| m <= j < n ==> #[trigger] b[j] != 10u8 && (b[j] != 44u8 || scan(d, b, req, m).arg_no >= 2),
    ensures
        scan(d, b, req, n) == scan(d, b, req, m),
    decreases n - m,
{
    if n > m {
        lemma_scan_skip(d, b, req, m, n - 1);
        assert(b[n - 1] != 10u8);
        assert(scan(d, b, req, n) == scan_step(d, b, req, scan(d, b, req, n - 1), n - 1));
    }
}

/// A field `f` at position `p` ended by a comma.
proof fn lemma_field<D: TTIDecoder>(d: &D, b: Seq<u8>, req: i32, p: int, f: Seq<u8>)
    requires
        0 <= p,
        p + f.len() < b.len(),
        b.subrange(p, p + f.len()) == f,
        b[p + f.len()] == 44u8,
        line_field(f),
        scan(d, b, req, p).y == p,
        scan(d, b, req, p).arg_no < 2,
        !scan(d, b, req, p).stopped,
        !scan(d, b, req, p).failed,
    ensures
        scan(d, b, req, p + f.len() + 1) == on_comma(b, scan(d, b, req, p), p + f.len()),
        !scan(d, b, req, p + f.len() + 1).failed,
{
    let n = p + f.len();
    assert forall|j: int| p <= j < n implies #[trigger] b[j] != 10u8 && (b[j] != 44u8 || scan(d, b, req, p).arg_no >= 2) by {
        assert(b[j] == b.subrange(p, n)[j - p]);
        assert(f[j - p] != 44u8 && f[j - p] != 10u8);
    }
    lemma_scan_skip(d, b, req, p, n);
    assert(b.subrange(scan(d, b, req, p).y, n) == f);
    assert(scan(d, b, req, n + 1) == scan_step(d, b, req, scan(d, b, req, n), n));
}

/// The last field `t` at position `p`, then CR LF: the line ends there.
proof fn lemma_last<D: TTIDecoder>(d: &D, b: Seq<u8>, req: i32, p: int, t: Seq<u8>)
    requires
        0 <= p,
        p + t.len() + 1 < b.len(),
        b.subrange(p, p + t.len()) == t,
        b[p + t.len()] == 13u8,
        b[p + t.len() + 1] == 10u8,
        line_text(t),
        scan(d, b, req, p).arg_no >= 2 || forall|j: int| 0 <= j < t.len() ==> #[trigger] t[j] != 44u8,
        !scan(d, b, req, p).stopped,
        !scan(d, b, req, p).failed,
    ensures
        scan(d, b, req, p + t.len() + 2) == on_newline(d, b, req, scan(d, b, req, p), p + t.len() + 1),
{
    let n = p + t.len() + 1;
    assert forall|j: int| p <= j < n implies #[trigger] b[j] != 10u8 && (b[j] != 44u8 || scan(d, b, req, p).arg_no >= 2) by {
        if j < n - 1 {
            assert(b[j] == b.subrange(p, n - 1)[j - p]);
            assert(t[j - p] != 10u8);
            if scan(d, b, req, p).arg_no < 2 {
                assert(t[j - p] != 44u8);
            }
        }
    }
    lemma_scan_skip(d, b, req, p, n);
    assert(scan(d, b, req, n + 1) == scan_step(d, b, req, scan(d, b, req, n), n));
}

/// After a buffer that is empty or ends in a line feed, a scan that goes on stands at
/// the start of a line.
pub proof fn lemma_line_start<D: TTIDecoder>(d: &D, a: Seq<u8>, req: i32)
    requires
        a.len() == 0 || a.last() == 10u8,
        !page_scan(d, a, req).stopped,
        !page_scan(d, a, req).failed,
    ensures
        at_line_start(page_scan(d, a, req), a.len() as int),
{
    if a.len() > 0 {
        let n = a.len() as int;
        assert(scan(d, a, req, n) == scan_step(d, a, req, scan(d, a, req, n - 1), n - 1));
    }
}

/// The scan with the fields of a three-field line at `p` read up to its last field.
pub open spec fn three_fields(st: ScanState, p: int, c: int, m: int) -> ScanState {
    ScanState { command: Some((p, p + c)), line: Some((p + c + 1, p + c + 1 + m)), arg_no: 2, y: p + c + m + 2, ..st }
}

/// The scan with the command of a two-field line at `p` read.
pub open spec fn two_fields(st: ScanState, p: int, c: int) -> ScanState {
    ScanState { command: Some((p, p + c)), arg_no: 1, y: p + c + 1, ..st }
}

proof fn lemma_append_line<D: TTIDecoder>(d: &D, a: Seq<u8>, req: i32, cmd: Seq<u8>, num: Seq<u8>, text: Seq<u8>)
    requires
        at_line_start(page_scan(d, a, req), a.len() as int),
        line_field(cmd),
        line_field(num),
        line_text(text),
    ensures
        ({
            let b = a + tti_line(cmd, num, text);
            let p = a.len() as int;
            let c = cmd.len() as int;
            let m = num.len() as int;
            &&& page_scan(d, b, req) == on_newline(d, b, req, three_fields(page_scan(d, a, req), p, c, m), b.len() - 1)
            &&& b.subrange(p, p + c) == cmd
            &&& b.subrange(p + c + 1, p + c + 1 + m) == num
            &&& b.subrange(p + c + m + 2, b.len() - 2) == text
            &&& b.len() == p + c + m + text.len() + 4
        }),
{
    let l = tti_line(cmd, num, text);
    let b = a + l;
    let p = a.len() as int;
    let c = cmd.len() as int;
    let m = num.len() as int;
    let t = text.len() as int;
    lemma_scan_prefix(d, a, l, req, p);
    assert(b.subrange(p, p + c) =~= cmd);
    assert(b[p + c] == 44u8);
    lemma_field(d, b, req, p, cmd);
    assert(b.subrange(p + c + 1, p + c + 1 + m) =~= num);
    assert(b[p + c + 1 + m] == 44u8);
    lemma_field(d, b, req, p + c + 1, num);
    assert(b.subrange(p + c + m + 2, p + c + m + 2 + t) =~= text);
    assert(b[p + c + m + 2 + t] == 13u8);
    assert(b[p + c + m + 3 + t] == 10u8);
    lemma_last(d, b, req, p + c + m + 2, text);
    assert(scan(d, b, req, p + c + m + 2) == three_fields(page_scan(d, a, req), p, c, m));
}

proof fn lemma_append_short_line<D: TTIDecoder>(d: &D, a: Seq<u8>, req: i32, cmd: Seq<u8>, text: Seq<u8>)
    requires
        at_line_start(page_scan(d, a, req), a.len() as int),
        line_field(cmd),
        line_field(text),
    ensures
        ({
            let b = a + short_line(cmd, text);
            let p = a.len() as int;
            let c = cmd.len() as int;
            &&& page_scan(d, b, req) == on_newline(d, b, req, two_fields(page_scan(d, a, req), p, c), b.len() - 1)
            &&& b.subrange(p, p + c) == cmd
            &&& b.subrange(p + c + 1, b.len() - 2) == text
            &&& b.len() == p + c + text.len() + 3
        }),
{
    let l = short_line(cmd, text);
    let b = a + l;
    let p = a.len() as int;
    let c = cmd.len() as int;
    let t = text.len() as int;
    lemma_scan_prefix(d, a, l, req, p);
    assert(b.subrange(p, p + c) =~= cmd);
    assert(b[p + c] == 44u8);
    lemma_field(d, b, req, p, cmd);
    assert(b.subrange(p + c + 1, p + c + 1 + t) =~= text);
    assert(b[p + c + 1 + t] == 13u8);
    assert(b[p + c + 2 + t] == 10u8);
    assert forall|j: int| 0 <= j < text.len() implies #[trigger] text[j] != 44u8 by {
        assert(text[j] != 44u8 && text[j] != 10u8);
    }
    lemma_last(d, b, req, p + c + 1, text);
    assert(scan(d, b, req, p + c + 1) == two_fields(page_scan(d, a, req), p, c));
}

/// ASCII bytes other than comma and line feed form a field.
proof fn lemma_ascii_field(w: Seq<u8>)
    requires
        forall|i: int| 0 <= i < w.len() ==> #[trigger] w[i] < 0x80u8 && w[i] != 44u8 && w[i] != 10u8,
    ensures
        line_field(w),
{
    assert(w.subrange(0, 0) =~= Seq::<u8>::empty());
    assert forall|i: int| 0 <= 0 <= i < w.len() <= w.len() implies #[trigger] is_leading_byte_width_1(w[i]) by {
        assert(w[i] < 0x80u8);
    }
    partial_valid_utf8_extend_ascii_block(w, 0, w.len() as int);
    assert(w.subrange(0, w.len() as int) =~= w);
}

/// The command words are fields.
proof fn lemma_commands()
    ensures
        line_field(word_ol()),
        line_field(word_ln()),
        line_field(word_pn()),
{
    lemma_ascii_field(word_ol());
    lemma_ascii_field(word_ln());
    lemma_ascii_field(word_pn());
}

/// The number an output line gives itself: its second field as a decimal number, or
/// the number in effect when that field is not a number.
pub open spec fn line_number(cur: i32, num: Seq<u8>) -> i32 {
    match parse_i32(num, 10) {
        Some(n) => n,
        None => cur,
    }
}

/// A link line `LN,<text>,<path>` defines the link (replacing one of the same text when
/// the path is UTF-8), shows nothing and leaves the page number as it was.
pub proof fn law_link_line<D: TTIDecoder>(d: &D, a: Seq<u8>, req: i32, key: Seq<u8>, target: Seq<u8>)
    requires
        at_line_start(page_scan(d, a, req), a.len() as int),
        line_field(key),
        line_text(target),
        target.len() > 0,
    ensures
        ({
            let before = page_scan(d, a, req);
            let b = a + tti_line(word_ln(), key, target);
            let after = page_scan(d, b, req);
            &&& after.links == if valid_utf8(target) {
                before.links.insert(decode_utf8(key), decode_utf8(target))
            } else {
                before.links
            }
            &&& after.out == before.out
            &&& after.page_no == before.page_no
            &&& after.found == before.found
            &&& at_line_start(after, b.len() as int)
        }),
{
    lemma_commands();
    lemma_append_line(d, a, req, word_ln(), key, target);
    assert(word_ln()[0] != word_pn()[0]);
    assert(word_ln()[0] != word_ol()[0]);
}

/// An output line `OL,<n>,<text>` of a page other than the one asked for, or with line
/// number `0`, shows nothing and changes neither the links nor the page number.
pub proof fn law_unshown_line<D: TTIDecoder>(d: &D, a: Seq<u8>, req: i32, num: Seq<u8>, text: Seq<u8>)
    requires
        at_line_start(page_scan(d, a, req), a.len() as int),
        line_field(num),
        line_text(text),
        (req != -1 && page_scan(d, a, req).page_no != req) || num == seq![48u8],
    ensures
        ({
            let before = page_scan(d, a, req);
            let b = a + tti_line(word_ol(), num, text);
            let after = page_scan(d, b, req);
            &&& after.out == before.out
            &&& after.links == before.links
            &&& after.page_no == before.page_no
            &&& after.found == before.found
            &&& at_line_start(after, b.len() as int)
        }),
{
    lemma_commands();
    lemma_append_line(d, a, req, word_ol(), num, text);
    assert(word_ol()[0] != word_pn()[0]);
    assert(word_ol()[0] != word_ln()[0]);
}

/// An output line `OL,<n>,<text>` of the page asked for (any page for the first page,
/// -1), with a line number other than `0`, shows the decoder's translation of its text:
/// after an empty line when its number does not follow the line shown before, and with
/// the lower half of double height after it when the line selects double height.
/// The links and the page number stay as they were.
pub proof fn law_shown_line<D: TTIDecoder>(d: &D, a: Seq<u8>, req: i32, num: Seq<u8>, text: Seq<u8>)
    requires
        at_line_start(page_scan(d, a, req), a.len() as int),
        line_field(num),
        num != seq![48u8],
        line_text(text),
        text.len() > 0,
        req == -1 || page_scan(d, a, req).page_no == req,
        page_scan(d, a, req).prev_ol < i32::MAX,
        d.accepts(text),
        d.decoded(text, false).1 == 1 ==> line_number(page_scan(d, a, req).cur_ol, num) < i32::MAX,
    ensures
        ({
            let before = page_scan(d, a, req);
            let b = a + tti_line(word_ol(), num, text);
            let after = page_scan(d, b, req);
            let n = line_number(before.cur_ol, num);
            let gap = if before.prev_ol + 1 != n { crlf() } else { Seq::<u8>::empty() };
            let upper = d.decoded(text, false);
            &&& after.out == if upper.1 == 1 {
                before.out + gap + upper.0 + d.decoded(text, true).0
            } else {
                before.out + gap + upper.0
            }
            &&& after.prev_ol == if upper.1 == 1 { n + 1 } else { n as int }
            &&& after.links == before.links
            &&& after.page_no == before.page_no
            &&& after.found == before.found
            &&& at_line_start(after, b.len() as int)
        }),
{
    lemma_commands();
    lemma_append_line(d, a, req, word_ol(), num, text);
    assert(word_ol()[0] != word_pn()[0]);
    assert(word_ol()[0] != word_ln()[0]);
}

/// A page header `PN,<hex>` sets the page number when its field is a hexadecimal
/// number, and marks the page asked for as found when it is that page's number. It
/// shows nothing and leaves the links as they were. (For the first page, -1, this
/// holds of the first header; the next one stops the page.)
pub proof fn law_page_line<D: TTIDecoder>(d: &D, a: Seq<u8>, req: i32, hex: Seq<u8>)
    requires
        at_line_start(page_scan(d, a, req), a.len() as int),
        line_field(hex),
        hex.len() > 0,
        req != -1 || page_scan(d, a, req).page_no < 0,
    ensures
        ({
            let before = page_scan(d, a, req);
            let b = a + short_line(word_pn(), hex);
            let after = page_scan(d, b, req);
            &&& after.page_no == match parse_i32(hex, 16) {
                Some(n) => n,
                None => before.page_no,
            }
            &&& after.found == (before.found || parse_i32(hex, 16) == Some(req))
            &&& after.out == before.out
            &&& after.links == before.links
            &&& at_line_start(after, b.len() as int)
        }),
{
    lemma_commands();
    lemma_append_short_line(d, a, req, word_pn(), hex);
    assert(word_pn()[0] != word_ol()[0]);
    assert(word_pn()[0] != word_ln()[0]);
}

/// When the first page (-1) is shown and a page header was read, the next header
/// stops the scan: what was shown and the links stay as they were, and by
/// `law_rest_after_first_page_ignored` nothing after it changes them.
pub proof fn law_second_page_stops<D: TTIDecoder>(d: &D, a: Seq<u8>, hex: Seq<u8>)
    requires
        at_line_start(page_scan(d, a, -1i32), a.len() as int),
        line_field(hex),
        page_scan(d, a, -1i32).page_no >= 0,
    ensures
        ({
            let before = page_scan(d, a, -1i32);
            let after = page_scan(d, a + short_line(word_pn(), hex), -1i32);
            &&& after.stopped
            &&& after.out == before.out
            &&& after.links == before.links
            &&& after.page_no == before.page_no
        }),
{
    lemma_commands();
    lemma_append_short_line(d, a, -1i32, word_pn(), hex);
}

/// Only output lines are shown: a whole line of three fields whose command is not `OL`
/// (a fastext `FL` line, `DE`, `CT`, a link `LN`, ...) leaves what is shown as it was,
/// whatever the page asked for.
pub proof fn law_only_output_lines_shown<D: TTIDecoder>(d: &D, a: Seq<u8>, req: i32, cmd: Seq<u8>, num: Seq<u8>, text: Seq<u8>)
    requires
        at_line_start(page_scan(d, a, req), a.len() as int),
        line_field(cmd),
        cmd != word_ol(),
        line_field(num),
        line_text(text),
    ensures
        page_scan(d, a + tti_line(cmd, num, text), req).out == page_scan(d, a, req).out,
{
    lemma_append_line(d, a, req, cmd, num, text);
}

/// A whole line of two fields (such as a page header `PN,<hex>`) never shows anything.
pub proof fn law_short_line_not_shown<D: TTIDecoder>(d: &D, a: Seq<u8>, req: i32, cmd: Seq<u8>, text: Seq<u8>)
    requires
        at_line_start(page_scan(d, a, req), a.len() as int),
        line_field(cmd),
        line_field(text),
    ensures
        page_scan(d, a + short_line(cmd, text), req).out == page_scan(d, a, req).out,
{
    lemma_append_short_line(d, a, req, cmd, text);
}

} // verus!
