use vstd::prelude::*;
use vstd::utf8::*;
use crate::text::{decimal, decimal_bytes, encode_three, push_all};

verus! {

/// The teletext escape byte: the byte after it is a control code written as `code - 0x40`.
pub const ESC: u8 = 0x1B;

/// Carriage return and line feed: they are no part of a line's data and are dropped
/// (the decoder ends each line itself).
pub open spec fn is_line_break(b: u8) -> bool {
    b == 13 || b == 10
}

/// The last byte before position `i` of a line that is not CR or LF, or 0 if none.
pub open spec fn prev_byte(line: Seq<u8>, i: int) -> u8
    decreases i,
{
    if i <= 0 {
        0u8
    } else if is_line_break(line[i - 1]) {
        prev_byte(line, i - 1)
    } else {
        line[i - 1]
    }
}

/// Every byte that follows an escape byte (CR and LF aside) is below 0xC0, so that
/// adding 0x40 to it stays within a byte.
pub open spec fn escapes_fit(line: Seq<u8>) -> bool {
    forall|i: int|
        0 <= i < line.len() && !is_line_break(line[i]) && #[trigger] prev_byte(line, i) == ESC
            ==> line[i] < 0xC0
}

/// The teletext code that position `i` of a line stands for: an escaped byte stands for
/// the byte plus 0x40, an escape byte, CR and LF for nothing, any other byte for itself.
pub open spec fn code_at(line: Seq<u8>, i: int) -> Option<u8> {
    if is_line_break(line[i]) {
        None
    } else if prev_byte(line, i) == ESC {
        Some((line[i] + 0x40) as u8)
    } else if line[i] != ESC {
        Some(line[i])
    } else {
        None
    }
}

/// The code selecting double height (0x8D).
pub open spec fn double_height_code() -> u8 {
    141u8
}

/// A translator of teletext line data for one kind of terminal.
pub trait TTIDecoder {
    /// The bytes written for `line`, and whether double height was selected (1) or not (0).
    spec fn decoded(&self, line: Seq<u8>, line_b: bool) -> (Seq<u8>, u8);

    /// The lines this decoder translates without arithmetic overflow.
    spec fn accepts(&self, line: Seq<u8>) -> bool;

    /// Whether `buf` is a line this decoder translates.
    fn can_decode(&self, buf: &[u8]) -> (ok: bool)
        ensures
            ok == self.accepts(buf@),
    ;

    /// Translates the escape codes of one line of page data for the terminal; CR and LF
    /// in the data are dropped (the decoder ends the line itself where it does).
    /// `line_b` selects the lower half of double-height characters.
    fn de_escape(&self, buf: &[u8], line_b: bool) -> (res: (Vec<u8>, u8))
        requires
            self.accepts(buf@),
        ensures
            res.0@ == self.decoded(buf@, line_b).0,
            res.1 == self.decoded(buf@, line_b).1,
    ;
}

/// Checks `escapes_fit`.
pub fn check_escapes(buf: &[u8]) -> (ok: bool)
    ensures
        ok == escapes_fit(buf@),
{
    let mut prev: u8 = 0;
    let mut i: usize = 0;
    while i < buf.len()
        invariant
            i <= buf@.len(),
            prev == prev_byte(buf@, i as int),
            forall|j: int|
                0 <= j < i && !is_line_break(buf@[j]) && #[trigger] prev_byte(buf@, j) == ESC ==> buf@[j] < 0xC0,
        decreases buf@.len() - i,
    {
        let b = buf[i];
        if b != 13 && b != 10 {
            if prev == ESC && b >= 0xC0 {
                return false;
            }
            prev = b;
        }
        i = i + 1;
    }
    true
}

/// Decoder for a BBC Micro in Mode 7: control codes are sent as raw bytes and
/// printable characters with the top bit set.
pub struct Mode7BeebAscii;

/// The bytes sent to a BBC Micro for byte `b` preceded by `prev`.
pub open spec fn beeb_byte(prev: u8, b: u8) -> Seq<u8> {
    if is_line_break(b) {
        seq![]
    } else if prev == ESC {
        seq![(b + 0x40) as u8]
    } else if b != ESC {
        if 0x20 < b && b < 0x80 {
            seq![(b + 128) as u8]
        } else {
            seq![b]
        }
    } else {
        seq![]
    }
}

/// The bytes sent to a BBC Micro for the first `n` bytes of `line`.
pub open spec fn beeb_output(line: Seq<u8>, n: int) -> Seq<u8>
    decreases n,
{
    if n <= 0 {
        seq![]
    } else {
        beeb_output(line, n - 1) + beeb_byte(prev_byte(line, n - 1), line[n - 1])
    }
}

/// Whether the line selects double height: its code 0x8D, escaped (ESC then 0x4D) or not.
pub open spec fn beeb_double_height(line: Seq<u8>) -> bool {
    exists|i: int| 0 <= i < line.len() && #[trigger] code_at(line, i) == Some(double_height_code())
}

impl Mode7BeebAscii {
    /// The BBC Micro decoder.
    pub fn new() -> (d: Mode7BeebAscii) {
        Mode7BeebAscii
    }
}

impl TTIDecoder for Mode7BeebAscii {
    open spec fn decoded(&self, line: Seq<u8>, line_b: bool) -> (Seq<u8>, u8) {
        (beeb_output(line, line.len() as int), if beeb_double_height(line) { 1u8 } else { 0u8 })
    }

    open spec fn accepts(&self, line: Seq<u8>) -> bool {
        escapes_fit(line)
    }

    fn can_decode(&self, buf: &[u8]) -> (ok: bool) {
        check_escapes(buf)
    }

    fn de_escape(&self, buf: &[u8], line_b: bool) -> (res: (Vec<u8>, u8)) {
        let mut out: Vec<u8> = Vec::new();
        let mut repeat: u8 = 0;
        let mut prev: u8 = 0;
        let mut i: usize = 0;
        while i < buf.len()
            invariant
                i <= buf@.len(),
                escapes_fit(buf@),
                prev == prev_byte(buf@, i as int),
                out@ == beeb_output(buf@, i as int),
                repeat == 1 <==> exists|j: int| 0 <= j < i && #[trigger] code_at(buf@, j) == Some(double_height_code()),
                repeat == 0 || repeat == 1,
            decreases buf@.len() - i,
        {
            let b = buf[i];
            if b != 13 && b != 10 {
                if prev == ESC {
                    if b == 0x4D {
                        repeat = 1;
                    }
                    out.push(b + 0x40);
                } else if b != ESC {
                    if b == 0x8D {
                        repeat = 1;
                    }
                    if b > 0x20 && b < 0x80 {
                        out.push(b + 128);
                    } else {
                        out.push(b);
                    }
                }
                prev = b;
            }
            proof {
                if code_at(buf@, i as int) == Some(double_height_code()) {
                    assert(exists|j: int| 0 <= j < i + 1 && #[trigger] code_at(buf@, j) == Some(double_height_code()));
                }
                if exists|j: int| 0 <= j < i + 1 && #[trigger] code_at(buf@, j) == Some(double_height_code()) {
                    let j = choose|j: int| 0 <= j < i + 1 && #[trigger] code_at(buf@, j) == Some(double_height_code());
                    if j < i {
                        assert(exists|k: int| 0 <= k < i && #[trigger] code_at(buf@, k) == Some(double_height_code()));
                    }
                }
            }
            i = i + 1;
        }
        (out, repeat)
    }
}

/// Decoder for a UTF-8 terminal that understands ANSI colour codes: teletext
/// colours become ANSI colours and mosaic graphics become characters of the
/// private-use area (as provided by teletext fonts).
pub struct Mode7UTF8Ansi;

/// What the UTF-8/ANSI decoder remembers while it goes along a line.
#[derive(Clone, Copy)]
pub struct AnsiState {
    /// 1 once the double-height code was seen.
    pub repeat: u8,
    /// The current foreground colour, 0 to 6.
    pub colour: u8,
    pub double_height: bool,
    /// Mosaic graphics mode.
    pub graphics: bool,
    /// Separated mosaic graphics.
    pub separated: bool,
}

/// The state at the start of every line.
pub open spec fn ansi_initial() -> AnsiState {
    AnsiState { repeat: 0, colour: 6, double_height: false, graphics: false, separated: false }
}

/// `ESC [ n ;1m ` : select ANSI colour `n` (bold), followed by a space.
pub open spec fn colour_code(n: nat) -> Seq<u8> {
    seq![0x1Bu8, 0x5Bu8] + decimal(n) + seq![0x3Bu8, 0x31u8, 0x6Du8, 0x20u8]
}

/// `ESC [40;1m` : black background.
pub open spec fn black_background() -> Seq<u8> {
    seq![0x1Bu8, 0x5Bu8, 0x34u8, 0x30u8, 0x3Bu8, 0x31u8, 0x6Du8]
}

/// Written after every line: white foreground, black background, then CR LF.
pub open spec fn line_end() -> Seq<u8> {
    seq![0x1Bu8, 0x5Bu8, 0x33u8, 0x37u8, 0x3Bu8, 0x31u8, 0x6Du8, 0x1Bu8, 0x5Bu8, 0x34u8, 0x30u8, 0x6Du8, 0x0Du8, 0x0Au8]
}

/// The first code point of the mosaic character block selected by the separated and
/// double-height attributes in force before the current character.
pub open spec fn mosaic_base(st: AnsiState, line_b: bool) -> int {
    (if st.separated { 0xE0C0int } else { 0xE000int }) + (if st.double_height {
        if line_b { 0x80int } else { 0x40int }
    } else {
        0int
    })
}

/// The translation of one teletext character code `ch` in state `st`.
pub open spec fn ansi_char(st: AnsiState, ch: u8, line_b: bool) -> (AnsiState, Seq<u8>) {
    if 145 <= ch <= 151 {
        (AnsiState { graphics: true, colour: (ch - 145) as u8, ..st }, colour_code((ch - 145 + 31) as nat))
    } else if 129 <= ch <= 135 {
        (AnsiState { graphics: false, colour: (ch - 129) as u8, ..st }, colour_code((ch - 129 + 31) as nat))
    } else if ch == 157 {
        (st, colour_code((st.colour + 101) as nat))
    } else if ch == 156 {
        (st, black_background())
    } else {
        let base = mosaic_base(st, line_b);
        let separated = if ch == 153 { false } else if ch == 154 { true } else { st.separated };
        let ch1: u8 = if ch == 153 || ch == 154 { 32u8 } else { ch };
        let repeat = if ch1 == 141 { 1u8 } else { st.repeat };
        let double_height = if ch1 == 141 { true } else if ch1 == 140 { false } else { st.double_height };
        let ch2: u8 = if ch1 == 141 || ch1 == 140 { 32u8 } else { ch1 };
        let ch3: u8 = if st.graphics && 95 <= ch2 <= 127 { (ch2 + 128) as u8 } else { ch2 };
        let first = if st.graphics && 160 < ch3 <= 191 {
            encode_scalar((ch3 - 160 + base + 0x200) as u32)
        } else {
            seq![]
        };
        let second = if st.graphics && ch3 >= 224 {
            encode_scalar((ch3 - 192 + base + 0x200) as u32)
        } else if st.graphics && 32 < ch3 <= 63 {
            encode_scalar((ch3 + base + 0x200 - 32) as u32)
        } else if double_height {
            encode_scalar((ch3 + if line_b { 0xE100int } else { 0xE000int }) as u32)
        } else {
            seq![ch3]
        };
        (AnsiState { separated, repeat, double_height, ..st }, first + second)
    }
}

/// The translation of byte `b` preceded by `prev`: an escaped byte stands for
/// the control code `b + 0x40`, and a bare escape byte is dropped.
pub open spec fn ansi_byte(st: AnsiState, prev: u8, b: u8, line_b: bool) -> (AnsiState, Seq<u8>) {
    if is_line_break(b) {
        (st, seq![])
    } else if prev == ESC {
        ansi_char(st, (b + 0x40) as u8, line_b)
    } else if b != ESC {
        ansi_char(st, b, line_b)
    } else {
        (st, seq![])
    }
}

/// The state and the bytes written after the first `n` bytes of `line`.
pub open spec fn ansi_run(line: Seq<u8>, n: int, line_b: bool) -> (AnsiState, Seq<u8>)
    decreases n,
{
    if n <= 0 {
        (ansi_initial(), seq![])
    } else {
        let (st, out) = ansi_run(line, n - 1, line_b);
        let (st2, more) = ansi_byte(st, prev_byte(line, n - 1), line[n - 1], line_b);
        (st2, out + more)
    }
}


impl Mode7UTF8Ansi {
    /// The UTF-8/ANSI decoder.
    pub fn new() -> (d: Mode7UTF8Ansi) {
        Mode7UTF8Ansi
    }

    fn colour(out: &mut Vec<u8>, n: u8)
        ensures
            final(out)@ == old(out)@ + colour_code(n as nat),
    {
        out.push(0x1B);
        out.push(0x5B);
        let digits = decimal_bytes(n);
        push_all(out, digits.as_slice());
        out.push(0x3B);
        out.push(0x31);
        out.push(0x6D);
        out.push(0x20);
    }

    #[verifier::spinoff_prover]
    #[verifier::rlimit(40)]
    fn translate(st: &mut AnsiState, ch: u8, line_b: bool, out: &mut Vec<u8>)
        requires
            old(st).colour <= 6,
        ensures
            *final(st) == ansi_char(*old(st), ch, line_b).0,
            final(out)@ == old(out)@ + ansi_char(*old(st), ch, line_b).1,
            final(st).colour <= 6,
    {
        if ch >= 145 && ch <= 151 {
            st.graphics = true;
            st.colour = ch - 145;
            Self::colour(out, ch - 145 + 31);
        } else if ch >= 129 && ch <= 135 {
            st.graphics = false;
            st.colour = ch - 129;
            Self::colour(out, ch - 129 + 31);
        } else if ch == 157 {
            Self::colour(out, st.colour + 101);
        } else if ch == 156 {
            let bg: Vec<u8> = vec![0x1B, 0x5B, 0x34, 0x30, 0x3B, 0x31, 0x6D];
            push_all(out, bg.as_slice());
        } else {
            let ghost out0 = out@;
            let mut base: u32 = 0xE000;
            if st.separated {
                base = 0xE0C0;
            }
            if st.double_height {
                if line_b {
                    base = base + 0x80;
                } else {
                    base = base + 0x40;
                }
            }
            assert(base == mosaic_base(*old(st), line_b));
            let mut c = ch;
            if c == 153 {
                st.separated = false;
                c = 32;
            }
            if c == 154 {
                st.separated = true;
                c = 32;
            }
            if c == 141 {
                st.repeat = 1;
                st.double_height = true;
                c = 32;
            } else if c == 140 {
                st.double_height = false;
                c = 32;
            }
            let graphics = st.graphics;
            if graphics && c >= 95 && c <= 127 {
                c = c + 128;
            }
            if graphics && c > 160 && c <= 191 {
                let bytes = encode_three((c - 160) as u32 + base + 0x200);
                push_all(out, bytes.as_slice());
            }
            let ghost out1 = out@;
            if graphics && c >= 224 {
                let bytes = encode_three((c - 192) as u32 + base + 0x200);
                push_all(out, bytes.as_slice());
            } else if graphics && c > 32 && c <= 63 {
                let bytes = encode_three((c as u32) + base + 0x200 - 32);
                push_all(out, bytes.as_slice());
            } else if st.double_height {
                let mut shift: u32 = 0xE000;
                if line_b {
                    shift = 0xE100;
                }
                let bytes = encode_three((c as u32) + shift);
                push_all(out, bytes.as_slice());
            } else {
                out.push(c);
            }
            assert(out@ == out0 + ansi_char(*old(st), ch, line_b).1);
        }
    }
}

impl TTIDecoder for Mode7UTF8Ansi {
    open spec fn decoded(&self, line: Seq<u8>, line_b: bool) -> (Seq<u8>, u8) {
        let (st, out) = ansi_run(line, line.len() as int, line_b);
        (out + line_end(), st.repeat)
    }

    open spec fn accepts(&self, line: Seq<u8>) -> bool {
        escapes_fit(line)
    }

    fn can_decode(&self, buf: &[u8]) -> (ok: bool) {
        check_escapes(buf)
    }

    fn de_escape(&self, buf: &[u8], line_b: bool) -> (res: (Vec<u8>, u8)) {
        let mut out: Vec<u8> = Vec::new();
        let mut st = AnsiState { repeat: 0, colour: 6, double_height: false, graphics: false, separated: false };
        let mut prev: u8 = 0;
        let mut i: usize = 0;
        while i < buf.len()
            invariant
                i <= buf@.len(),
                escapes_fit(buf@),
                prev == prev_byte(buf@, i as int),
                (st, out@) == ansi_run(buf@, i as int, line_b),
                st.colour <= 6,
            decreases buf@.len() - i,
        {
            let b = buf[i];
            if b != 13 && b != 10 {
                if prev == ESC {
                    Self::translate(&mut st, b + 0x40, line_b, &mut out);
                } else if b != ESC {
                    Self::translate(&mut st, b, line_b, &mut out);
                }
                prev = b;
            }
            i = i + 1;
        }
        let tail: Vec<u8> = vec![0x1B, 0x5B, 0x33, 0x37, 0x3B, 0x31, 0x6D, 0x1B, 0x5B, 0x34, 0x30, 0x6D, 0x0D, 0x0A];
        push_all(&mut out, tail.as_slice());
        (out, st.repeat)
    }
}

proof fn lemma_ansi_repeat(line: Seq<u8>, n: int, line_b: bool)
    requires
        0 <= n <= line.len(),
    ensures
        ansi_run(line, n, line_b).0.repeat == 0 || ansi_run(line, n, line_b).0.repeat == 1,
        ansi_run(line, n, line_b).0.repeat == 1 <==> exists|i: int|
            0 <= i < n && #[trigger] code_at(line, i) == Some(double_height_code()),
    decreases n,
{
    if n > 0 {
        lemma_ansi_repeat(line, n - 1, line_b);
        if code_at(line, n - 1) == Some(double_height_code()) {
            assert(exists|i: int| 0 <= i < n && #[trigger] code_at(line, i) == Some(double_height_code()));
        }
        if exists|i: int| 0 <= i < n && #[trigger] code_at(line, i) == Some(double_height_code()) {
            let i = choose|i: int| 0 <= i < n && #[trigger] code_at(line, i) == Some(double_height_code());
            if i < n - 1 {
                assert(exists|j: int| 0 <= j < n - 1 && #[trigger] code_at(line, j) == Some(double_height_code()));
            }
        }
    }
}

/// The UTF-8/ANSI decoder reports double height (1) exactly when the line holds the
/// double-height code, escaped or not; otherwise 0.
pub proof fn law_ansi_double_height(line: Seq<u8>, line_b: bool)
    ensures
        Mode7UTF8Ansi.decoded(line, line_b).1 == 0 || Mode7UTF8Ansi.decoded(line, line_b).1 == 1,
        Mode7UTF8Ansi.decoded(line, line_b).1 == 1 <==> exists|i: int|
            0 <= i < line.len() && #[trigger] code_at(line, i) == Some(double_height_code()),
{
    lemma_ansi_repeat(line, line.len() as int, line_b);
}

/// Printable ASCII (0x20 to 0x7E) without any teletext code.
pub open spec fn plain_text(line: Seq<u8>) -> bool {
    forall|i: int| 0 <= i < line.len() ==> 0x20 <= #[trigger] line[i] <= 0x7E
}

proof fn lemma_ansi_plain(line: Seq<u8>, n: int, line_b: bool)
    requires
        0 <= n <= line.len(),
        plain_text(line),
    ensures
        ansi_run(line, n, line_b) == (ansi_initial(), line.take(n)),
    decreases n,
{
    if n > 0 {
        lemma_ansi_plain(line, n - 1, line_b);
        assert(0x20 <= line[n - 1] <= 0x7E);
        if n >= 2 {
            assert(0x20 <= line[n - 2] <= 0x7E);
        }
        assert(line.take(n) =~= line.take(n - 1) + seq![line[n - 1]]);
    }
}

/// Plain ASCII text reaches a UTF-8 terminal unchanged, followed by the colour reset
/// and CR LF, and never selects double height.
pub proof fn law_ansi_plain_text(line: Seq<u8>, line_b: bool)
    requires
        plain_text(line),
    ensures
        Mode7UTF8Ansi.decoded(line, line_b) == (line + line_end(), 0u8),
{
    lemma_ansi_plain(line, line.len() as int, line_b);
    assert(line.take(line.len() as int) =~= line);
}

proof fn lemma_beeb_plain(line: Seq<u8>, n: int)
    requires
        0 <= n <= line.len(),
        plain_text(line),
    ensures
        beeb_output(line, n) =~= line.take(n).map_values(|b: u8| if b > 0x20 { (b + 128) as u8 } else { b }),
    decreases n,
{
    if n > 0 {
        lemma_beeb_plain(line, n - 1);
        assert(0x20 <= line[n - 1] <= 0x7E);
        if n >= 2 {
            assert(0x20 <= line[n - 2] <= 0x7E);
        }
        assert(line.take(n) =~= line.take(n - 1).push(line[n - 1]));
    }
}

/// A BBC Micro receives plain ASCII text with the top bit set on every character but
/// the space, and no double height.
pub proof fn law_beeb_plain_text(line: Seq<u8>, line_b: bool)
    requires
        plain_text(line),
    ensures
        Mode7BeebAscii.decoded(line, line_b).0 == line.map_values(|b: u8| if b > 0x20 { (b + 128) as u8 } else { b }),
        Mode7BeebAscii.decoded(line, line_b).1 == 0,
{
    lemma_beeb_plain(line, line.len() as int);
    assert(line.take(line.len() as int) =~= line);
}

proof fn lemma_prev_byte_prefix(a: Seq<u8>, s: Seq<u8>, i: int)
    requires
        0 <= i <= a.len(),
    ensures
        prev_byte(a + s, i) == prev_byte(a, i),
    decreases i,
{
    if i > 0 {
        assert((a + s)[i - 1] == a[i - 1]);
        lemma_prev_byte_prefix(a, s, i - 1);
    }
}

proof fn lemma_beeb_prefix(a: Seq<u8>, s: Seq<u8>, n: int)
    requires
        0 <= n <= a.len(),
    ensures
        beeb_output(a + s, n) == beeb_output(a, n),
    decreases n,
{
    if n > 0 {
        lemma_beeb_prefix(a, s, n - 1);
        lemma_prev_byte_prefix(a, s, n - 1);
        assert((a + s)[n - 1] == a[n - 1]);
    }
}

/// On a BBC Micro every escaped byte `b` (ESC, then `b`) is sent as the control code
/// `b + 0x40`, whatever came before it on the line (where no escape is pending), and
/// ESC M (0x8D) selects double height.
pub proof fn law_beeb_escaped_code(a: Seq<u8>, b: u8, line_b: bool)
    requires
        prev_byte(a, a.len() as int) != ESC,
        b < 0xC0,
        !is_line_break(b),
    ensures
        Mode7BeebAscii.decoded(a + seq![ESC, b], line_b).0 == Mode7BeebAscii.decoded(a, line_b).0 + seq![(b + 0x40) as u8],
        b == 0x4D ==> Mode7BeebAscii.decoded(a + seq![ESC, b], line_b).1 == 1,
{
    let l = a + seq![ESC, b];
    let n = a.len() as int;
    lemma_beeb_prefix(a, seq![ESC, b], n);
    lemma_prev_byte_prefix(a, seq![ESC, b], n);
    assert(l[n] == ESC);
    assert(l[n + 1] == b);
    assert(prev_byte(l, n + 1) == ESC);
    assert(beeb_output(l, n + 1) == beeb_output(l, n) + beeb_byte(prev_byte(l, n), l[n]));
    assert(beeb_byte(prev_byte(l, n), l[n]) =~= Seq::<u8>::empty());
    assert(beeb_output(l, n + 2) == beeb_output(l, n + 1) + beeb_byte(prev_byte(l, n + 1), l[n + 1]));
    assert(beeb_output(l, n + 2) =~= beeb_output(a, n) + seq![(b + 0x40) as u8]);
    assert(a.take(n) =~= a);
    assert(l.len() == n + 2);
    if b == 0x4D {
        assert(code_at(l, n + 1) == Some(double_height_code()));
    }
}

/// In mosaic graphics (after a graphics colour, ESC Q to ESC W), contiguous and single
/// height, the mosaic characters 0x21 to 0x3F become the code points U+E1E1 to U+E1FF,
/// and 0x60 to 0x7F the code points U+E220 to U+E23F, of the teletext fonts' block of
/// contiguous mosaics; the colour is selected first.
pub proof fn law_ansi_mosaic(g: u8, ch: u8, line_b: bool)
    requires
        0x51 <= g <= 0x57,
        (0x21 <= ch <= 0x3F || 0x60 <= ch <= 0x7F),
    ensures
        Mode7UTF8Ansi.decoded(seq![ESC, g, ch], line_b) == (
            colour_code((g - 0x51 + 31) as nat) + encode_scalar(
                if ch <= 0x3F { (0xE1E0 + ch) as u32 } else { (0xE1C0 + ch) as u32 },
            ) + line_end(),
            0u8,
        ),
{
    let l = seq![ESC, g, ch];
    reveal_with_fuel(ansi_run, 4);
    assert(prev_byte(l, 1) == ESC);
    assert(prev_byte(l, 2) == g);
    let r1 = ansi_run(l, 1, line_b);
    assert(r1 == (ansi_initial(), Seq::<u8>::empty()));
    let r2 = ansi_run(l, 2, line_b);
    assert(r2.0.graphics && !r2.0.separated && !r2.0.double_height && r2.0.repeat == 0);
    assert(r2.1 =~= colour_code((g - 0x51 + 31) as nat));
    let r3 = ansi_run(l, 3, line_b);
    assert(r3.1 =~= colour_code((g - 0x51 + 31) as nat) + encode_scalar(
        if ch <= 0x3F { (0xE1E0 + ch) as u32 } else { (0xE1C0 + ch) as u32 },
    ));
}

proof fn lemma_ansi_plain_from(line: Seq<u8>, k: int, n: int, line_b: bool)
    requires
        0 <= k <= n <= line.len(),
        !ansi_run(line, k, line_b).0.graphics,
        !ansi_run(line, k, line_b).0.double_height,
        prev_byte(line, k) != ESC,
        forall|i: int| k <= i < line.len() ==> 0x20 <= #[trigger] line[i] <= 0x7E,
    ensures
        ansi_run(line, n, line_b) == (ansi_run(line, k, line_b).0, ansi_run(line, k, line_b).1 + line.subrange(k, n)),
    decreases n,
{
    if n > k {
        lemma_ansi_plain_from(line, k, n - 1, line_b);
        assert(0x20 <= line[n - 1] <= 0x7E);
        if n - 1 > k {
            assert(0x20 <= line[n - 2] <= 0x7E);
        }
        assert(line.subrange(k, n) =~= line.subrange(k, n - 1).push(line[n - 1]));
    } else {
        assert(ansi_run(line, k, line_b).1 + line.subrange(k, n) =~= ansi_run(line, k, line_b).1);
    }
}

/// An alphanumeric colour (ESC A to ESC G) ends mosaic graphics: after a graphics
/// colour and then an alphanumeric colour, plain text reaches the terminal unchanged.
pub proof fn law_ansi_alpha_ends_graphics(g: u8, a: u8, t: Seq<u8>, line_b: bool)
    requires
        0x51 <= g <= 0x57,
        0x41 <= a <= 0x47,
        plain_text(t),
    ensures
        Mode7UTF8Ansi.decoded(seq![ESC, g, ESC, a] + t, line_b) == (
            colour_code((g - 0x51 + 31) as nat) + colour_code((a - 0x41 + 31) as nat) + t + line_end(),
            0u8,
        ),
{
    let l = seq![ESC, g, ESC, a] + t;
    reveal_with_fuel(ansi_run, 5);
    assert(l[0] == ESC && l[1] == g && l[2] == ESC && l[3] == a);
    assert(prev_byte(l, 1) == ESC);
    assert(prev_byte(l, 2) == g);
    assert(prev_byte(l, 3) == ESC);
    assert(prev_byte(l, 4) == a);
    let r2 = ansi_run(l, 2, line_b);
    assert(r2.0.graphics && !r2.0.double_height && r2.0.repeat == 0);
    assert(r2.1 =~= colour_code((g - 0x51 + 31) as nat));
    let r3 = ansi_run(l, 3, line_b);
    assert(r3 == r2);
    let r4 = ansi_run(l, 4, line_b);
    assert(!r4.0.graphics && !r4.0.double_height && r4.0.repeat == 0);
    assert(r4.1 =~= colour_code((g - 0x51 + 31) as nat) + colour_code((a - 0x41 + 31) as nat));
    assert forall|i: int| 4 <= i < l.len() implies 0x20 <= #[trigger] l[i] <= 0x7E by {
        assert(l[i] == t[i - 4]);
    }
    lemma_ansi_plain_from(l, 4, l.len() as int, line_b);
    assert(l.subrange(4, l.len() as int) =~= t);
}

/// On a BBC Micro each byte that is not escaped is sent on its own: printable
/// characters other than the space with the top bit set, control codes and the space
/// as they are; an ESC is held back for the byte after it, and CR and LF are dropped.
pub proof fn law_beeb_byte(a: Seq<u8>, b: u8, line_b: bool)
    requires
        prev_byte(a, a.len() as int) != ESC,
    ensures
        Mode7BeebAscii.decoded(a.push(b), line_b).0 == Mode7BeebAscii.decoded(a, line_b).0 + (
            if b == 13 || b == 10 || b == ESC {
                Seq::<u8>::empty()
            } else if 0x20 < b < 0x80 {
                seq![(b + 128) as u8]
            } else {
                seq![b]
            }
        ),
{
    let l = a.push(b);
    let n = a.len() as int;
    assert(l =~= a + seq![b]);
    lemma_beeb_prefix(a, seq![b], n);
    lemma_prev_byte_prefix(a, seq![b], n);
    assert(l[n] == b);
    assert(beeb_output(l, n + 1) == beeb_output(l, n) + beeb_byte(prev_byte(l, n), l[n]));
    assert(a.take(n) =~= a);
}

proof fn lemma_ansi_prefix(a: Seq<u8>, s: Seq<u8>, n: int, line_b: bool)
    requires
        0 <= n <= a.len(),
    ensures
        ansi_run(a + s, n, line_b) == ansi_run(a, n, line_b),
    decreases n,
{
    if n > 0 {
        lemma_ansi_prefix(a, s, n - 1, line_b);
        lemma_prev_byte_prefix(a, s, n - 1);
        assert((a + s)[n - 1] == a[n - 1]);
    }
}

/// A control code may be sent escaped (ESC, then the code less 0x40) or as the raw
/// byte: both decoders treat the codes 0x80 to 0xBF alike either way.
pub proof fn law_escaped_code_is_raw_code(a: Seq<u8>, b: u8, line_b: bool)
    requires
        prev_byte(a, a.len() as int) != ESC,
        0x40 <= b <= 0x7F,
    ensures
        Mode7BeebAscii.decoded(a + seq![ESC, b], line_b) == Mode7BeebAscii.decoded(a.push((b + 0x40) as u8), line_b),
        Mode7UTF8Ansi.decoded(a + seq![ESC, b], line_b) == Mode7UTF8Ansi.decoded(a.push((b + 0x40) as u8), line_b),
{
    let n = a.len() as int;
    let c = (b + 0x40) as u8;
    let l1 = a + seq![ESC, b];
    let l2 = a.push(c);
    assert(l2 =~= a + seq![c]);
    // The bytes written.
    law_beeb_escaped_code(a, b, line_b);
    law_beeb_byte(a, c, line_b);
    // Double height: both lines hold the code 0x8D exactly where `a` does, or at the end.
    lemma_prev_byte_prefix(a, seq![ESC, b], n);
    lemma_prev_byte_prefix(a, seq![c], n);
    assert(l1[n] == ESC && l1[n + 1] == b && l2[n] == c);
    assert(prev_byte(l1, n + 1) == ESC);
    assert forall|i: int| 0 <= i < n implies #[trigger] code_at(l1, i) == code_at(a, i) by {
        lemma_prev_byte_prefix(a, seq![ESC, b], i);
        assert(l1[i] == a[i]);
    }
    assert forall|i: int| 0 <= i < n implies #[trigger] code_at(l2, i) == code_at(a, i) by {
        lemma_prev_byte_prefix(a, seq![c], i);
        assert(l2[i] == a[i]);
    }
    assert(code_at(l1, n) is None);
    assert(code_at(l1, n + 1) == Some(c));
    assert(code_at(l2, n) == Some(c));
    if beeb_double_height(l1) {
        let i = choose|i: int| 0 <= i < l1.len() && #[trigger] code_at(l1, i) == Some(double_height_code());
        if i < n {
            assert(code_at(l2, i) == Some(double_height_code()));
        } else {
            assert(code_at(l2, n) == Some(double_height_code()));
        }
    }
    if beeb_double_height(l2) {
        let i = choose|i: int| 0 <= i < l2.len() && #[trigger] code_at(l2, i) == Some(double_height_code());
        if i < n {
            assert(code_at(l1, i) == Some(double_height_code()));
        } else {
            assert(code_at(l1, n + 1) == Some(double_height_code()));
        }
    }
    // The UTF-8/ANSI decoder goes through the same state.
    lemma_ansi_prefix(a, seq![ESC, b], n, line_b);
    lemma_ansi_prefix(a, seq![c], n, line_b);
    assert(ansi_run(l1, n + 1, line_b) == ansi_run(a, n, line_b));
    assert(ansi_run(l1, n + 2, line_b) == ansi_run(l2, n + 1, line_b));
}

/// Double height (ESC M) on a UTF-8 terminal: the code itself is a space and each
/// following character a code point of the fonts' double-height blocks, U+E000 + c for
/// the upper half and U+E100 + c for the lower half; double height is reported.
pub proof fn law_ansi_double_height_text(c: u8, line_b: bool)
    requires
        0x20 <= c <= 0x7E,
    ensures
        Mode7UTF8Ansi.decoded(seq![ESC, 0x4Du8, c], line_b) == ({
            let base: int = if line_b { 0xE100 } else { 0xE000 };
            (encode_scalar((base + 0x20) as u32) + encode_scalar((base + c) as u32) + line_end(), 1u8)
        }),
{
    let l = seq![ESC, 0x4Du8, c];
    reveal_with_fuel(ansi_run, 4);
    assert(prev_byte(l, 1) == ESC);
    assert(prev_byte(l, 2) == 0x4Du8);
    let r2 = ansi_run(l, 2, line_b);
    assert(!r2.0.graphics && r2.0.double_height && r2.0.repeat == 1);
    let base: int = if line_b { 0xE100 } else { 0xE000 };
    assert(r2.1 =~= encode_scalar((base + 0x20) as u32));
    let r3 = ansi_run(l, 3, line_b);
    assert(r3.1 =~= encode_scalar((base + 0x20) as u32) + encode_scalar((base + c) as u32));
}

/// Separated mosaics (ESC Z after a graphics colour): the code is a space, and the
/// mosaic characters after it come from the separated block, U+E2A0 + ch for 0x21 to
/// 0x3F and U+E280 + ch for 0x60 to 0x7F.
pub proof fn law_ansi_separated_mosaic(g: u8, ch: u8, line_b: bool)
    requires
        0x51 <= g <= 0x57,
        (0x21 <= ch <= 0x3F || 0x60 <= ch <= 0x7F),
    ensures
        Mode7UTF8Ansi.decoded(seq![ESC, g, ESC, 0x5Au8, ch], line_b) == (
            colour_code((g - 0x51 + 31) as nat) + seq![0x20u8] + encode_scalar(
                if ch <= 0x3F { (0xE2A0 + ch) as u32 } else { (0xE280 + ch) as u32 },
            ) + line_end(),
            0u8,
        ),
{
    let l = seq![ESC, g, ESC, 0x5Au8, ch];
    reveal_with_fuel(ansi_run, 6);
    assert(prev_byte(l, 1) == ESC);
    assert(prev_byte(l, 2) == g);
    assert(prev_byte(l, 3) == ESC);
    assert(prev_byte(l, 4) == 0x5Au8);
    let r2 = ansi_run(l, 2, line_b);
    assert(r2.0.graphics && !r2.0.separated && !r2.0.double_height && r2.0.repeat == 0);
    assert(r2.1 =~= colour_code((g - 0x51 + 31) as nat));
    let r4 = ansi_run(l, 4, line_b);
    assert(r4.0.graphics && r4.0.separated && !r4.0.double_height && r4.0.repeat == 0);
    assert(r4.1 =~= colour_code((g - 0x51 + 31) as nat) + seq![0x20u8]);
    let r5 = ansi_run(l, 5, line_b);
    assert(r5.1 =~= colour_code((g - 0x51 + 31) as nat) + seq![0x20u8] + encode_scalar(
        if ch <= 0x3F { (0xE2A0 + ch) as u32 } else { (0xE280 + ch) as u32 },
    ));
}

/// Backgrounds: new background (ESC ]) takes the colour in force, as the bright ANSI
/// background 101 to 107; black background (ESC \) resets it.
pub proof fn law_ansi_background(a: u8, line_b: bool)
    requires
        0x41 <= a <= 0x47,
    ensures
        Mode7UTF8Ansi.decoded(seq![ESC, a, ESC, 0x5Du8], line_b) == (
            colour_code((a - 0x41 + 31) as nat) + colour_code((a - 0x41 + 101) as nat) + line_end(),
            0u8,
        ),
        Mode7UTF8Ansi.decoded(seq![ESC, 0x5Cu8], line_b) == (black_background() + line_end(), 0u8),
{
    let l = seq![ESC, a, ESC, 0x5Du8];
    reveal_with_fuel(ansi_run, 5);
    assert(prev_byte(l, 1) == ESC);
    assert(prev_byte(l, 2) == a);
    assert(prev_byte(l, 3) == ESC);
    let r2 = ansi_run(l, 2, line_b);
    assert(r2.0.colour == a - 0x41 && r2.0.repeat == 0);
    assert(r2.1 =~= colour_code((a - 0x41 + 31) as nat));
    let r4 = ansi_run(l, 4, line_b);
    assert(r4.1 =~= colour_code((a - 0x41 + 31) as nat) + colour_code((a - 0x41 + 101) as nat));
    let k = seq![ESC, 0x5Cu8];
    assert(prev_byte(k, 1) == ESC);
    assert(ansi_run(k, 2, line_b).1 =~= black_background());
}

} // verus!
