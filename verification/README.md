# rusttex

A teletext viewer for a telnet-style connection: a client chooses a BBC Micro (Mode 7)
or a UTF-8 terminal with ANSI colours, then browses teletext pages (TTI files) from disk
or from the web, following the links that pages define.

- `src/` is the library, verified with Verus:
  - `decoder.rs`: translation of one line of teletext data for each terminal kind;
  - `page.rs`: reading TTI data (`PN`, `OL`, `LN` lines) into the bytes to send and the
    page's navigation data;
  - `lines.rs`: what each whole line of a TTI file does to the page shown;
  - `links.rs`: a page's link table (a hash map keyed by link text);
  - `address.rs`: web addresses (parsed and built with `hyper`);
  - `session.rs`: what a connection does with each command, address and page;
  - `terminal.rs`: the terminal choice and line editing;
  - `number.rs`, `text.rs`: number parsing, decimal digits, UTF-8 and text helpers.
- `app/main.rs` is the server: it listens on port 23 and performs the reading, writing,
  file access and web requests that a session asks for.
- `tests/` exercises the library on concrete data.
