//! What is copied and what is exported.
//!
//! Over a remote connection only an escape sequence that the terminal itself
//! reads can reach the clipboard of the user; it carries the text in base64.

use vstd::prelude::*;
#[allow(unused_imports)]
use vstd::string::*;
#[allow(unused_imports)]
use vstd::utf8::encode_utf8;

#[allow(unused_imports)]
use crate::model::texts;
use crate::text;
#[allow(unused_imports)]
use crate::text::{decimal, find_from, utf8_lossy};

verus! {

/// Terminals drop longer texts without a word, so that they are refused.
pub const MAX_COPY: usize = 72 * 1024;

/// The length in bytes up to which a text is copied.
pub fn max_copy() -> (n: usize)
    ensures
        n == MAX_COPY,
{
    MAX_COPY
}

// ---------------------------------------------------------------------------
// Base64
// ---------------------------------------------------------------------------

/// The character for a value of six bits.
pub open spec fn symbol(v: int) -> char {
    if v < 26 {
        (0x41 + v) as char
    } else if v < 52 {
        (0x61 + v - 26) as char
    } else if v < 62 {
        (0x30 + v - 52) as char
    } else if v == 62 {
        '+'
    } else {
        '/'
    }
}

/// Bytes in base64, with padding.
pub open spec fn base64(data: Seq<u8>) -> Seq<char>
    decreases data.len(),
{
    if data.len() == 0 {
        Seq::empty()
    } else if data.len() == 1 {
        seq![symbol((data[0] / 4) as int), symbol(data[0] % 4 * 16), '=', '=']
    } else if data.len() == 2 {
        seq![
            symbol((data[0] / 4) as int),
            symbol(data[0] % 4 * 16 + data[1] / 16),
            symbol(data[1] % 16 * 4),
            '=',
        ]
    } else {
        seq![
            symbol((data[0] / 4) as int),
            symbol(data[0] % 4 * 16 + data[1] / 16),
            symbol(data[1] % 16 * 4 + data[2] / 64),
            symbol((data[2] % 64) as int),
        ] + base64(data.skip(3))
    }
}

/// The value of a character.
pub open spec fn symbol_value(c: char) -> int {
    let v = c as int;
    if 0x41 <= v <= 0x5a {
        v - 0x41
    } else if 0x61 <= v <= 0x7a {
        v - 0x61 + 26
    } else if 0x30 <= v <= 0x39 {
        v - 0x30 + 52
    } else if v == 0x2b {
        62
    } else {
        63
    }
}

/// The bytes that a text in base64 stands for.
pub open spec fn from_base64(s: Seq<char>) -> Seq<u8>
    decreases s.len(),
{
    if s.len() < 4 {
        Seq::empty()
    } else {
        let a = symbol_value(s[0]);
        let b = symbol_value(s[1]);
        let c = symbol_value(s[2]);
        let d = symbol_value(s[3]);
        let first = (a * 4 + b / 16) as u8;
        if s[2] == '=' {
            seq![first]
        } else {
            let second = (b % 16 * 16 + c / 4) as u8;
            if s[3] == '=' {
                seq![first, second]
            } else {
                seq![first, second, (c % 4 * 64 + d) as u8] + from_base64(s.skip(4))
            }
        }
    }
}

proof fn lemma_symbol(v: int)
    requires
        0 <= v < 64,
    ensures
        symbol_value(symbol(v)) == v,
        symbol(v) != '=',
{
}

/// What is written in base64 can be read back: no byte is lost.
pub proof fn law_base64_is_read_back(data: Seq<u8>)
    ensures
        from_base64(base64(data)) == data,
    decreases data.len(),
{
    let s = base64(data);
    if data.len() > 0 {
        let x = data[0] as int;
        let y = if data.len() > 1 {
            data[1] as int
        } else {
            0
        };
        let z = if data.len() > 2 {
            data[2] as int
        } else {
            0
        };
        lemma_symbol(x / 4);
        lemma_symbol(x % 4 * 16 + y / 16);
        lemma_symbol(y % 16 * 4 + z / 64);
        lemma_symbol(z % 64);
        assert(x == x / 4 * 4 + (x % 4 * 16 + y / 16) / 16);
        assert(y == (x % 4 * 16 + y / 16) % 16 * 16 + (y % 16 * 4 + z / 64) / 4);
        assert(z == (y % 16 * 4 + z / 64) % 4 * 64 + z % 64);
        if data.len() >= 3 {
            law_base64_is_read_back(data.skip(3));
            assert(s.skip(4) =~= base64(data.skip(3)));
            assert(data =~= seq![data[0], data[1], data[2]] + data.skip(3));
        } else if data.len() == 2 {
            assert(data =~= seq![data[0], data[1]]);
        } else {
            assert(data =~= seq![data[0]]);
        }
    } else {
        assert(from_base64(s) =~= data);
    }
}

/// Three bytes make four characters, padding counted in.
pub proof fn law_base64_length(data: Seq<u8>)
    ensures
        base64(data).len() == (data.len() + 2) / 3 * 4,
    decreases data.len(),
{
    if data.len() >= 3 {
        law_base64_length(data.skip(3));
    }
}

fn symbol_char(v: u8) -> (c: char)
    requires
        v < 64,
    ensures
        c == symbol(v as int),
{
    if v < 26 {
        (0x41 + v) as char
    } else if v < 52 {
        (0x61 + (v - 26)) as char
    } else if v < 62 {
        (0x30 + (v - 52)) as char
    } else if v == 62 {
        '+'
    } else {
        '/'
    }
}

/// Bytes in base64.
pub fn encode(data: &[u8]) -> (out: String)
    ensures
        out@ == base64(data@),
{
    let ghost all = data@;
    let n: usize = data.len();
    let mut out: String = String::new();
    let mut k: usize = 0;
    assert(all.skip(0) =~= all);
    assert(out@ + base64(all.skip(0)) =~= base64(all));
    while n - k >= 3
        invariant
            k <= n,
            n == all.len(),
            data@ == all,
            out@ + base64(all.skip(k as int)) == base64(all),
        decreases n - k,
    {
        let ghost before = out@;
        let ghost rest = all.skip(k as int);
        out.push(symbol_char(data[k] / 4));
        out.push(symbol_char(data[k] % 4 * 16 + data[k + 1] / 16));
        out.push(symbol_char(data[k + 1] % 16 * 4 + data[k + 2] / 64));
        out.push(symbol_char(data[k + 2] % 64));
        assert(rest.skip(3) =~= all.skip(k + 3));
        assert(out@ + base64(all.skip(k + 3)) =~= before + base64(rest));
        k += 3;
    }
    let ghost before = out@;
    let ghost rest = all.skip(k as int);
    if n - k == 1 {
        out.push(symbol_char(data[k] / 4));
        out.push(symbol_char(data[k] % 4 * 16));
        out.push('=');
        out.push('=');
    } else if n - k == 2 {
        out.push(symbol_char(data[k] / 4));
        out.push(symbol_char(data[k] % 4 * 16 + data[k + 1] / 16));
        out.push(symbol_char(data[k + 1] % 16 * 4));
        out.push('=');
    }
    assert(out@ =~= before + base64(rest));
    out
}

// ---------------------------------------------------------------------------
// Copies
// ---------------------------------------------------------------------------

/// Why a text is not copied.
pub open spec fn copy_refusal(s: Seq<char>) -> Option<Seq<char>> {
    let n = encode_utf8(s).len() as int;
    if n > MAX_COPY {
        Some(
            "selection is "@ + decimal(n / 1024) + " KB; the clipboard path tops out at "@
                + decimal((MAX_COPY / 1024) as int) + " KB — use export instead"@,
        )
    } else {
        None
    }
}

/// Why a text is not copied.
pub fn refuse_copy(s: &str) -> (why: Option<String>)
    ensures
        match why {
            Some(w) => copy_refusal(s@) == Some(w@),
            None => copy_refusal(s@) is None,
        },
{
    let bytes = s.as_bytes();
    assert(bytes@.len() == bytes.len());
    if bytes.len() > MAX_COPY {
        let mut out = text::owned("selection is ");
        text::push_decimal(&mut out, bytes.len() / 1024);
        out.append(" KB; the clipboard path tops out at ");
        text::push_decimal(&mut out, MAX_COPY / 1024);
        out.append(" KB — use export instead");
        Some(out)
    } else {
        None
    }
}

/// The escape sequence that copies a text.
pub open spec fn copy_sequence(s: Seq<char>) -> Seq<char> {
    "\x1b]52;c;"@ + base64(encode_utf8(s)) + "\x07"@
}

/// A text with every escape doubled.
pub open spec fn escapes_doubled(s: Seq<char>, n: int) -> Seq<char>
    decreases n,
{
    if n <= 0 {
        Seq::empty()
    } else if s[n - 1] == '\x1b' {
        escapes_doubled(s, n - 1).push('\x1b').push('\x1b')
    } else {
        escapes_doubled(s, n - 1).push(s[n - 1])
    }
}

/// A sequence that a multiplexer hands on to the terminal as it is.
pub open spec fn passed_through(s: Seq<char>) -> Seq<char> {
    "\x1bPtmux;"@ + escapes_doubled(s, s.len() as int) + "\x1b\\"@
}

/// The escape sequence that copies a text, wrapped where a multiplexer has to
/// hand it on.
pub fn osc52(s: &str, passthrough: bool) -> (out: String)
    ensures
        out@ == (if passthrough {
            passed_through(copy_sequence(s@))
        } else {
            copy_sequence(s@)
        }),
{
    let mut inner = text::owned("\x1b]52;c;");
    inner.append(encode(s.as_bytes()).as_str());
    inner.append("\x07");
    if !passthrough {
        return inner;
    }
    let mut out = text::owned("\x1bPtmux;");
    let ghost head = out@;
    let ghost all = inner@;
    assert(head + escapes_doubled(all, 0) =~= out@);
    for c in it: inner.as_str().chars()
        invariant
            it.seq() == all,
            out@ == head + escapes_doubled(all, it.index()),
    {
        let ghost k = it.index();
        if c == '\x1b' {
            out.push('\x1b');
        }
        out.push(c);
        assert(out@ =~= head + escapes_doubled(all, k + 1));
    }
    out.append("\x1b\\");
    out
}

/// The answer of the multiplexer says that sequences are handed on.
pub open spec fn passthrough_said(answer: Seq<u8>) -> bool {
    let s = encode_utf8(utf8_lossy(answer));
    find_from(s, 0, " on".spec_bytes()) is Some || find_from(s, 0, "all".spec_bytes()) is Some
}

/// Does the answer of the multiplexer say that sequences are handed on?
pub fn allows_passthrough(answer: &[u8]) -> (yes: bool)
    ensures
        yes == passthrough_said(answer@),
{
    let s = text::decode_lossy(answer);
    let bytes = s.as_str().as_bytes();
    text::find(bytes, 0, " on").is_some() || text::find(bytes, 0, "all").is_some()
}

// ---------------------------------------------------------------------------
// Exports
// ---------------------------------------------------------------------------

/// The first `n` lines, each with its end.
pub open spec fn joined_lines(lines: Seq<Seq<char>>, n: int) -> Seq<char>
    decreases n,
{
    if n <= 0 {
        Seq::empty()
    } else {
        joined_lines(lines, n - 1) + lines[n - 1] + seq!['\n']
    }
}

/// A view as Markdown: its title and a fenced block with its lines.
pub open spec fn exported(title: Seq<char>, lines: Seq<Seq<char>>) -> Seq<char> {
    "### "@ + title + "\n\n```\n"@ + joined_lines(lines, lines.len() as int) + "```\n"@
}

/// A view as Markdown.
pub fn export_text(title: &str, lines: &Vec<String>) -> (out: String)
    ensures
        out@ == exported(title@, texts(lines@)),
{
    let mut out = text::owned("### ");
    out.append(title);
    out.append("\n\n```\n");
    let ghost head = out@;
    let ghost all = texts(lines@);
    let mut n: usize = 0;
    assert(out@ =~= head + joined_lines(all, 0));
    while n < lines.len()
        invariant
            n <= lines@.len(),
            all == texts(lines@),
            out@ == head + joined_lines(all, n as int),
        decreases lines.len() - n,
    {
        assert(all[n as int] == lines@[n as int]@);
        out.append(lines[n].as_str());
        out.push('\n');
        assert(out@ =~= head + joined_lines(all, n + 1));
        n += 1;
    }
    out.append("```\n");
    out
}

} // verus!
