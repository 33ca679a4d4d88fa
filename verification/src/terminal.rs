use vstd::prelude::*;

verus! {

/// The kinds of terminal a connection can declare itself to be.
#[derive(PartialEq, Eq, Structural, Clone, Copy)]
pub enum Terminal {
    /// A BBC Micro in Mode 7.
    BbcMicro,
    /// A UTF-8 terminal emulator with ANSI colours.
    Utf8Ansi,
}

/// The terminal chosen by the key typed after the greeting: `b` or `u`; any other key
/// chooses none (and the greeting is asked again).
pub fn terminal_for_key(key: char) -> (t: Option<Terminal>)
    ensures
        key == 'b' ==> t == Some(Terminal::BbcMicro),
        key == 'u' ==> t == Some(Terminal::Utf8Ansi),
        key != 'b' && key != 'u' ==> t is None,
{
    if key == 'b' {
        Some(Terminal::BbcMicro)
    } else if key == 'u' {
        Some(Terminal::Utf8Ansi)
    } else {
        None
    }
}

/// The character of a key read as one byte: the code point with the byte's value.
pub fn key_from_byte(b: u8) -> (c: char)
    ensures
        c as u32 == b as u32,
{
    b as char
}

/// What a byte typed at a line prompt did.
pub struct Edit {
    /// The line is complete (the byte was CR).
    pub done: bool,
    /// The bytes to echo to the terminal.
    pub echo: Vec<u8>,
}

/// The line after typing `byte`: DEL (127) removes the last byte if there is one, CR
/// (13) leaves the line as it is (and ends it), any other byte is added.
pub open spec fn edited(line: Seq<u8>, byte: u8) -> Seq<u8> {
    if byte == 13 {
        line
    } else if byte == 127 {
        if line.len() > 0 { line.drop_last() } else { line }
    } else {
        line.push(byte)
    }
}

/// What is echoed for `byte`: CR LF for CR, DEL only when a byte was removed, else the byte.
pub open spec fn echoed(line: Seq<u8>, byte: u8) -> Seq<u8> {
    if byte == 13 {
        seq![13u8, 10u8]
    } else if byte == 127 {
        if line.len() > 0 { seq![127u8] } else { Seq::<u8>::empty() }
    } else {
        seq![byte]
    }
}

/// Line editing at a prompt: applies `byte` to the line being typed.
pub fn edit_line(line: &mut Vec<u8>, byte: u8) -> (e: Edit)
    ensures
        e.done == (byte == 13),
        e.echo@ == echoed(old(line)@, byte),
        final(line)@ == edited(old(line)@, byte),
{
    if byte == 13 {
        Edit { done: true, echo: vec![13, 10] }
    } else if byte == 127 {
        match line.pop() {
            Some(_) => Edit { done: false, echo: vec![127] },
            None => Edit { done: false, echo: Vec::new() },
        }
    } else {
        line.push(byte);
        Edit { done: false, echo: vec![byte] }
    }
}

/// DEL takes back the byte typed just before it, and the terminal is sent that byte
/// and then DEL.
pub proof fn law_delete_undoes_typing(line: Seq<u8>, byte: u8)
    requires
        byte != 13,
        byte != 127,
    ensures
        edited(edited(line, byte), 127) == line,
        echoed(line, byte) + echoed(edited(line, byte), 127) == seq![byte, 127u8],
{
    assert(line.push(byte).drop_last() =~= line);
    assert(seq![byte] + seq![127u8] =~= seq![byte, 127u8]);
}

/// The line after typing `bytes` on an empty line.
pub open spec fn typed(bytes: Seq<u8>) -> Seq<u8>
    decreases bytes.len(),
{
    if bytes.len() == 0 {
        Seq::<u8>::empty()
    } else {
        edited(typed(bytes.drop_last()), bytes.last())
    }
}

/// What is echoed while typing `bytes` on an empty line.
pub open spec fn typed_echo(bytes: Seq<u8>) -> Seq<u8>
    decreases bytes.len(),
{
    if bytes.len() == 0 {
        Seq::<u8>::empty()
    } else {
        typed_echo(bytes.drop_last()) + echoed(typed(bytes.drop_last()), bytes.last())
    }
}

/// The echoes one after the other.
pub open spec fn concat_all(parts: Seq<Seq<u8>>) -> Seq<u8>
    decreases parts.len(),
{
    if parts.len() == 0 {
        Seq::<u8>::empty()
    } else {
        concat_all(parts.drop_last()) + parts.last()
    }
}

proof fn lemma_typing_prefix(bytes: Seq<u8>, lines: Seq<Seq<u8>>, echoes: Seq<Seq<u8>>, k: int)
    requires
        0 <= k <= bytes.len(),
        lines.len() == bytes.len() + 1,
        echoes.len() == bytes.len(),
        lines[0] == Seq::<u8>::empty(),
        forall|j: int| #![trigger bytes[j]] 0 <= j < bytes.len() ==> lines[j + 1] == edited(lines[j], bytes[j]),
        forall|j: int| #![trigger bytes[j]] 0 <= j < bytes.len() ==> echoes[j] == echoed(lines[j], bytes[j]),
    ensures
        lines[k] == typed(bytes.take(k)),
        concat_all(echoes.take(k)) == typed_echo(bytes.take(k)),
    decreases k,
{
    if k == 0 {
        assert(bytes.take(0) =~= Seq::<u8>::empty());
        assert(echoes.take(0) =~= Seq::<Seq<u8>>::empty());
    } else {
        lemma_typing_prefix(bytes, lines, echoes, k - 1);
        assert(bytes.take(k).drop_last() =~= bytes.take(k - 1));
        assert(echoes.take(k).drop_last() =~= echoes.take(k - 1));
        assert(lines[k] == edited(lines[k - 1], bytes[k - 1]));
        assert(echoes[k - 1] == echoed(lines[k - 1], bytes[k - 1]));
    }
}

/// Typing a line byte by byte from an empty line (each step an `edit_line`): the line is
/// the fold of the edits over the bytes typed, and the terminal is sent the echoes of
/// the bytes one after the other.
pub proof fn law_typing_fold(bytes: Seq<u8>, lines: Seq<Seq<u8>>, echoes: Seq<Seq<u8>>)
    requires
        lines.len() == bytes.len() + 1,
        echoes.len() == bytes.len(),
        lines[0] == Seq::<u8>::empty(),
        forall|j: int| #![trigger bytes[j]] 0 <= j < bytes.len() ==> lines[j + 1] == edited(lines[j], bytes[j]),
        forall|j: int| #![trigger bytes[j]] 0 <= j < bytes.len() ==> echoes[j] == echoed(lines[j], bytes[j]),
    ensures
        lines.last() == typed(bytes),
        concat_all(echoes) == typed_echo(bytes),
{
    lemma_typing_prefix(bytes, lines, echoes, bytes.len() as int);
    assert(bytes.take(bytes.len() as int) =~= bytes);
    assert(echoes.take(bytes.len() as int) =~= echoes);
}

} // verus!
