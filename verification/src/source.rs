//! Where trace bytes come from and how they are kept.

use std::ops::Range;
use vstd::prelude::*;
#[allow(unused_imports)]
use vstd::string::*;

#[allow(unused_imports)]
use crate::ansi;
#[allow(unused_imports)]
use crate::text;

verus! {

/// A place that trace bytes come from.
#[derive(Debug)]
pub enum LogSource {
    /// A file, by the bytes of its path.
    File(Vec<u8>),
    /// The bytes piped in.
    Stdin,
    /// A command whose output is streamed.
    Command(Vec<String>),
}

/// The words joined by single spaces.
pub open spec fn joined(words: Seq<String>) -> Seq<char>
    decreases words.len(),
{
    if words.len() == 0 {
        Seq::empty()
    } else if words.len() == 1 {
        words[0]@
    } else {
        joined(words.drop_last()) + " "@ + words.last()@
    }
}

/// How a source is called.
pub open spec fn source_label(source: LogSource) -> Seq<char> {
    match source {
        LogSource::File(path) => text::utf8_lossy(path@),
        LogSource::Stdin => "<stdin>"@,
        LogSource::Command(argv) => joined(argv@),
    }
}

fn join_words(words: &Vec<String>) -> (out: String)
    ensures
        out@ == joined(words@),
{
    let mut out: String = String::new();
    let mut k: usize = 0;
    while k < words.len()
        invariant
            k <= words.len(),
            out@ == joined(words@.take(k as int)),
        decreases words.len() - k,
    {
        let ghost head = words@.take(k + 1);
        assert(head.drop_last() =~= words@.take(k as int));
        assert(Seq::<char>::empty() + words@[k as int]@ =~= words@[k as int]@);
        if k > 0 {
            out.append(" ");
        }
        out.append(words[k].as_str());
        k += 1;
    }
    assert(words@.take(words@.len() as int) =~= words@);
    out
}

impl LogSource {
    /// How the source is called.
    pub fn label(&self) -> (name: String)
        ensures
            name@ == source_label(*self),
            self matches LogSource::File(path) ==> text::decoded(name@, path@),
    {
        match self {
            LogSource::File(path) => text::decode_lossy(path.as_slice()),
            LogSource::Stdin => text::owned("<stdin>"),
            LogSource::Command(argv) => join_words(argv),
        }
    }
}

/// Why a source could not be read. A path is bytes; the reason is the operating
/// system's text.
#[derive(Debug)]
pub enum SourceError {
    Open { path: Vec<u8>, source: String },
    MemoryMap { path: Vec<u8>, source: String },
    Stdin(String),
}

/// The message of a `SourceError`.
pub open spec fn error_text(error: SourceError) -> Seq<char> {
    match error {
        SourceError::Open { path, source } => text::utf8_lossy(path@) + ": "@ + source@,
        SourceError::MemoryMap { path, source } => text::utf8_lossy(path@)
            + ": cannot memory-map: "@ + source@,
        SourceError::Stdin(source) => "stdin: "@ + source@,
    }
}

impl SourceError {
    /// The message that the user sees.
    pub fn describe(&self) -> (message: String)
        ensures
            message@ == error_text(*self),
            self matches SourceError::Open { path, source } ==> (vstd::utf8::valid_utf8(path@)
                ==> message@ == vstd::utf8::decode_utf8(path@) + ": "@ + source@),
            self matches SourceError::MemoryMap { path, source } ==> (vstd::utf8::valid_utf8(path@)
                ==> message@ == vstd::utf8::decode_utf8(path@) + ": cannot memory-map: "@
                + source@),
    {
        match self {
            SourceError::Open { path, source } => {
                text::decode_lossy(path.as_slice()).concat(": ").concat(source.as_str())
            },
            SourceError::MemoryMap { path, source } => {
                text::decode_lossy(path.as_slice()).concat(": cannot memory-map: ").concat(
                    source.as_str(),
                )
            },
            SourceError::Stdin(source) => text::owned("stdin: ").concat(source.as_str()),
        }
    }
}

/// The view of a `LogBuffer`.
#[verifier::ext_equal]
pub struct LogModel {
    pub bytes: Seq<u8>,
    /// The offset of the first byte of each line.
    pub starts: Seq<int>,
    /// The bytes arrived all at once, and no more are accepted.
    pub mapped: bool,
}

/// The offsets that follow a line feed within `from..to`.
pub open spec fn starts_within(bytes: Seq<u8>, from: int, to: int) -> Seq<int>
    decreases to - from,
{
    if to <= from {
        Seq::empty()
    } else if bytes[to - 1] == 0x0a {
        starts_within(bytes, from, to - 1).push(to)
    } else {
        starts_within(bytes, from, to - 1)
    }
}

/// The line starts of bytes that are still arriving: a line opens at the first
/// byte and after every line feed.
pub open spec fn streaming_starts(bytes: Seq<u8>) -> Seq<int> {
    if bytes.len() == 0 {
        Seq::empty()
    } else {
        seq![0int] + starts_within(bytes, 0, bytes.len() as int)
    }
}

impl LogModel {
    /// Every start lies within the bytes, and starts ascend.
    pub open spec fn ordered(self) -> bool {
        &&& forall|i: int| 0 <= i < self.starts.len() ==> 0 <= #[trigger] self.starts[i]
            <= self.bytes.len()
        &&& forall|i: int, j: int|
            0 <= i < j < self.starts.len() ==> #[trigger] self.starts[i] < #[trigger] self.starts[j]
    }

    /// One past the last byte of line `i`, its terminator counted in.
    pub open spec fn line_end(self, i: int) -> int {
        if i + 1 < self.starts.len() {
            self.starts[i + 1]
        } else {
            self.bytes.len() as int
        }
    }

    /// Line `i` with its terminator.
    pub open spec fn whole_line(self, i: int) -> Seq<u8> {
        self.bytes.subrange(self.starts[i], self.line_end(i))
    }

    /// Line `i` without its terminator.
    pub open spec fn line(self, i: int) -> Seq<u8> {
        without_terminator(self.whole_line(i))
    }

    /// Line `i`, or nothing where there is no such line.
    pub open spec fn line_or_empty(self, i: int) -> Seq<u8> {
        if 0 <= i < self.starts.len() {
            self.line(i)
        } else {
            Seq::empty()
        }
    }

    /// The text of line `i`: its escapes stripped, decoded lossily. Spans count
    /// bytes of the encoding of this text.
    pub open spec fn line_chars(self, i: int) -> Seq<char> {
        text::utf8_lossy(ansi::stripped(self.line_or_empty(i)))
    }

    /// The encoding of the text of line `i`.
    pub open spec fn line_text(self, i: int) -> Seq<u8> {
        vstd::utf8::encode_utf8(self.line_chars(i))
    }

    /// The texts of the lines in `from..to`.
    pub open spec fn texts(self, from: int, to: int) -> Seq<Seq<u8>> {
        Seq::new((if from < to { to - from } else { 0 }) as nat, |k: int| self.line_text(from + k))
    }

    /// The buffer after `more` arrived.
    pub open spec fn appended(self, more: Seq<u8>) -> LogModel {
        if self.mapped {
            self
        } else {
            let bytes = self.bytes + more;
            LogModel {
                bytes,
                starts: (if self.starts.len() == 0 && bytes.len() > 0 {
                    seq![0int]
                } else {
                    self.starts
                }) + starts_within(bytes, self.bytes.len() as int, bytes.len() as int),
                mapped: false,
            }
        }
    }

    /// The buffer at the end of the input: a line that would start at the end
    /// is no line.
    pub open spec fn finished(self) -> LogModel {
        if self.starts.len() > 0 && self.starts.last() == self.bytes.len() {
            LogModel { starts: self.starts.drop_last(), ..self }
        } else {
            self
        }
    }
}

/// `line` without a trailing line feed and a carriage return before it.
pub open spec fn without_terminator(line: Seq<u8>) -> Seq<u8> {
    let a = if line.len() > 0 && line.last() == 0x0a {
        line.drop_last()
    } else {
        line
    };
    if a.len() > 0 && a.last() == 0x0d {
        a.drop_last()
    } else {
        a
    }
}

/// The bytes of a source, exactly as they arrived, with a line index.
pub struct LogBuffer {
    bytes: Vec<u8>,
    line_starts: Vec<usize>,
    mapped: bool,
}

impl View for LogBuffer {
    type V = LogModel;

    closed spec fn view(&self) -> LogModel {
        LogModel {
            bytes: self.bytes@,
            starts: self.line_starts@.map_values(|s: usize| s as int),
            mapped: self.mapped,
        }
    }
}

proof fn lemma_starts_within(bytes: Seq<u8>, from: int, to: int)
    requires
        0 <= from <= to <= bytes.len(),
    ensures
        forall|i: int|
            0 <= i < starts_within(bytes, from, to).len() ==> from < #[trigger] starts_within(
                bytes,
                from,
                to,
            )[i] <= to,
        forall|i: int, j: int|
            0 <= i < j < starts_within(bytes, from, to).len() ==> #[trigger] starts_within(
                bytes,
                from,
                to,
            )[i] < #[trigger] starts_within(bytes, from, to)[j],
    decreases to - from,
{
    if from < to {
        lemma_starts_within(bytes, from, to - 1);
        let less = starts_within(bytes, from, to - 1);
        let all = starts_within(bytes, from, to);
        assert forall|i: int| 0 <= i < all.len() implies from < #[trigger] all[i] <= to by {
            assert(i < less.len() ==> all[i] == less[i]);
        }
        assert forall|i: int, j: int| 0 <= i < j < all.len() implies #[trigger] all[i]
            < #[trigger] all[j] by {
            assert(i < less.len() && all[i] == less[i]);
            assert(j < less.len() ==> all[j] == less[j]);
        }
    }
}

proof fn lemma_starts_split(bytes: Seq<u8>, from: int, mid: int, to: int)
    requires
        0 <= from <= mid <= to <= bytes.len(),
    ensures
        starts_within(bytes, from, to) == starts_within(bytes, from, mid) + starts_within(
            bytes,
            mid,
            to,
        ),
    decreases to - mid,
{
    if mid < to {
        lemma_starts_split(bytes, from, mid, to - 1);
        assert(starts_within(bytes, from, to) =~= starts_within(bytes, from, mid) + starts_within(
            bytes,
            mid,
            to,
        ));
    } else {
        assert(starts_within(bytes, from, to) =~= starts_within(bytes, from, mid) + Seq::<int>::empty());
    }
}

proof fn lemma_starts_prefix(a: Seq<u8>, b: Seq<u8>, to: int)
    requires
        0 <= to <= a.len(),
    ensures
        starts_within(a + b, 0, to) == starts_within(a, 0, to),
    decreases to,
{
    if to > 0 {
        lemma_starts_prefix(a, b, to - 1);
        assert((a + b)[to - 1] == a[to - 1]);
    }
}

/// While bytes arrive, the line index depends on the bytes alone, not on how
/// they were cut into chunks.
pub proof fn law_chunks_do_not_matter(buffer: LogModel, first: Seq<u8>, second: Seq<u8>)
    requires
        !buffer.mapped,
        buffer.starts == streaming_starts(buffer.bytes),
    ensures
        buffer.appended(first).starts == streaming_starts(buffer.bytes + first),
        buffer.appended(first).appended(second) == buffer.appended(first + second),
{
    law_appending_keeps_the_index(buffer, first);
    law_appending_keeps_the_index(buffer.appended(first), second);
    law_appending_keeps_the_index(buffer, first + second);
    assert(buffer.bytes + first + second =~= buffer.bytes + (first + second));
    assert(buffer.appended(first).appended(second) =~= buffer.appended(first + second));
}

/// Appending to a streaming buffer gives the streaming index of all the bytes.
pub proof fn law_appending_keeps_the_index(buffer: LogModel, more: Seq<u8>)
    requires
        !buffer.mapped,
        buffer.starts == streaming_starts(buffer.bytes),
    ensures
        buffer.appended(more).bytes == buffer.bytes + more,
        buffer.appended(more).starts == streaming_starts(buffer.bytes + more),
{
    let all = buffer.bytes + more;
    lemma_starts_split(all, 0, buffer.bytes.len() as int, all.len() as int);
    lemma_starts_prefix(buffer.bytes, more, buffer.bytes.len() as int);
    assert(buffer.appended(more).starts =~= streaming_starts(all));
}

/// The concatenation of the lines `0..n`, terminators counted in.
pub open spec fn rejoined(buffer: LogModel, n: int) -> Seq<u8>
    decreases n,
{
    if n <= 0 {
        Seq::empty()
    } else {
        rejoined(buffer, n - 1) + buffer.whole_line(n - 1)
    }
}

/// The lines of an ordered buffer that starts at its first byte are its bytes:
/// nothing is dropped and nothing is shown twice.
pub proof fn law_lines_rejoin_to_the_bytes(buffer: LogModel, n: int)
    requires
        buffer.ordered(),
        0 < n <= buffer.starts.len(),
        buffer.starts[0] == 0,
    ensures
        rejoined(buffer, n) == buffer.bytes.subrange(0, buffer.line_end(n - 1)),
    decreases n,
{
    if n > 1 {
        law_lines_rejoin_to_the_bytes(buffer, n - 1);
        assert(buffer.starts[n - 2] < buffer.starts[n - 1]);
        assert(n < buffer.starts.len() ==> buffer.starts[n - 1] < buffer.starts[n]);
        assert(rejoined(buffer, n) =~= buffer.bytes.subrange(0, buffer.line_end(n - 1)));
    } else {
        assert(rejoined(buffer, 0) =~= Seq::empty());
        assert(1 < buffer.starts.len() ==> buffer.starts[0] < buffer.starts[1]);
        assert(rejoined(buffer, 1) =~= buffer.bytes.subrange(0, buffer.line_end(0)));
    }
}

impl LogBuffer {
    /// Line starts ascend and lie within the bytes.
    pub closed spec fn wf(self) -> bool {
        self@.ordered()
    }

    /// What `wf` says of the lines.
    pub proof fn lemma_wf(self)
        requires
            self.wf(),
        ensures
            self@.ordered(),
    {
    }

    /// A buffer that nothing has arrived in.
    pub fn new() -> (buffer: LogBuffer)
        ensures
            buffer.wf(),
            buffer@ == (LogModel { bytes: Seq::empty(), starts: Seq::empty(), mapped: false }),
            buffer@.starts == streaming_starts(buffer@.bytes),
    {
        let buffer = LogBuffer { bytes: Vec::new(), line_starts: Vec::new(), mapped: false };
        assert(buffer@ =~= (LogModel { bytes: Seq::empty(), starts: Seq::empty(), mapped: false }));
        buffer
    }

    /// The bytes that have arrived.
    pub fn bytes(&self) -> (bytes: &[u8])
        ensures
            bytes@ == self@.bytes,
    {
        self.bytes.as_slice()
    }

    /// How many bytes have arrived.
    pub fn len(&self) -> (n: usize)
        ensures
            n == self@.bytes.len(),
    {
        self.bytes.len()
    }

    /// Has nothing arrived?
    pub fn is_empty(&self) -> (yes: bool)
        ensures
            yes == (self@.bytes.len() == 0),
    {
        self.bytes.len() == 0
    }

    /// How many lines there are. While bytes arrive, a line whose bytes are
    /// still to come counts.
    pub fn line_count(&self) -> (n: usize)
        ensures
            n == self@.starts.len(),
    {
        self.line_starts.len()
    }

    /// Replaces the contents by bytes that arrived all at once.
    pub fn adopt_map(&mut self, map: Vec<u8>)
        ensures
            final(self).wf(),
            final(self)@ == (LogModel {
                bytes: map@,
                starts: streaming_starts(map@),
                mapped: true,
            }),
    {
        self.bytes = map;
        self.line_starts = Vec::new();
        self.mapped = true;
        assert(self@.starts =~= Seq::<int>::empty());
        self.index_new_bytes(0);
        assert(self@.starts =~= streaming_starts(map@));
    }

    /// Appends streamed bytes and extends the line index over them.
    pub fn append(&mut self, bytes: &[u8])
        requires
            old(self).wf(),
        ensures
            final(self).wf(),
            final(self)@ == old(self)@.appended(bytes@),
    {
        if self.mapped {
            return;
        }
        let scanned: usize = self.bytes.len();
        let mut k: usize = 0;
        while k < bytes.len()
            invariant
                k <= bytes.len(),
                self.bytes@ == old(self).bytes@ + bytes@.take(k as int),
                self.line_starts@ == old(self).line_starts@,
                !self.mapped,
            decreases bytes.len() - k,
        {
            self.bytes.push(bytes[k]);
            assert(self.bytes@ =~= old(self).bytes@ + bytes@.take(k + 1));
            k += 1;
        }
        assert(bytes@.take(bytes@.len() as int) =~= bytes@);
        assert(self@.starts =~= old(self)@.starts);
        assert forall|i: int| 0 <= i < self.line_starts@.len() implies #[trigger] self.line_starts@[i]
            <= scanned by {
            assert(old(self)@.starts[i] <= old(self)@.bytes.len());
        }
        self.index_new_bytes(scanned);
        assert(self@ =~= old(self)@.appended(bytes@));
    }

    /// Called at the end of the input.
    pub fn finish(&mut self)
        requires
            old(self).wf(),
        ensures
            final(self).wf(),
            final(self)@ == old(self)@.finished(),
    {
        let n: usize = self.line_starts.len();
        if n > 0 && self.line_starts[n - 1] == self.bytes.len() {
            self.line_starts.pop();
            assert(self@.starts =~= old(self)@.starts.drop_last());
        }
        assert(self@ =~= old(self)@.finished());
    }

    fn index_new_bytes(&mut self, scanned: usize)
        requires
            scanned <= old(self).bytes@.len(),
            old(self).line_starts@.len() == 0 ==> scanned == 0 || old(self).bytes@.len() > 0,
            old(self)@.ordered(),
            forall|i: int|
                0 <= i < old(self).line_starts@.len() ==> #[trigger] old(self).line_starts@[i]
                    <= scanned,
        ensures
            final(self).bytes@ == old(self).bytes@,
            final(self).mapped == old(self).mapped,
            final(self)@.ordered(),
            final(self)@.starts == (if old(self)@.starts.len() == 0 && old(self)@.bytes.len() > 0 {
                seq![0int]
            } else {
                old(self)@.starts
            }) + starts_within(old(self)@.bytes, scanned as int, old(self)@.bytes.len() as int),
    {
        if self.line_starts.len() == 0 && self.bytes.len() > 0 {
            self.line_starts.push(0);
        }
        let ghost base = self@.starts;
        assert(base =~= (if old(self)@.starts.len() == 0 && old(self)@.bytes.len() > 0 {
            seq![0int]
        } else {
            old(self)@.starts
        }));
        let mut k: usize = scanned;
        assert(self@.starts =~= base + starts_within(self.bytes@, scanned as int, k as int));
        while k < self.bytes.len()
            invariant
                scanned <= k <= self.bytes@.len(),
                self.bytes@ == old(self).bytes@,
                self.mapped == old(self).mapped,
                self@.starts == base + starts_within(self.bytes@, scanned as int, k as int),
            decreases self.bytes@.len() - k,
        {
            if self.bytes[k] == 0x0a {
                let ghost before = self@.starts;
                self.line_starts.push(k + 1);
                assert(self@.starts =~= before.push(k + 1));
                assert(self@.starts =~= base + starts_within(self.bytes@, scanned as int, k + 1));
            }
            k += 1;
        }
        proof {
            let n = self.bytes@.len() as int;
            lemma_starts_within(self.bytes@, scanned as int, n);
            let more = starts_within(self.bytes@, scanned as int, n);
            let s = self@.starts;
            assert(forall|i: int| 0 <= i < base.len() ==> 0 <= #[trigger] base[i] <= scanned) by {
                if old(self)@.starts.len() == 0 {
                } else {
                    assert forall|i: int| 0 <= i < base.len() implies 0 <= #[trigger] base[i]
                        <= scanned by {
                        assert(old(self).line_starts@[i] <= scanned);
                    }
                }
            }
            assert forall|i: int| 0 <= i < s.len() implies 0 <= #[trigger] s[i] <= n by {
                if i >= base.len() {
                    assert(s[i] == more[i - base.len()]);
                } else {
                    assert(s[i] == base[i]);
                }
            }
            assert forall|i: int, j: int| 0 <= i < j < s.len() implies #[trigger] s[i]
                < #[trigger] s[j] by {
                if i >= base.len() {
                    assert(s[i] == more[i - base.len()]);
                    assert(s[j] == more[j - base.len()]);
                } else if j >= base.len() {
                    assert(s[i] == base[i]);
                    assert(s[j] == more[j - base.len()]);
                } else {
                    assert(s[i] == base[i] && s[j] == base[j]);
                    assert(old(self)@.starts[i] < old(self)@.starts[j]);
                }
            }
        }
    }

    /// How many bytes a range of lines spans.
    pub fn span_bytes(&self, lines: Range<usize>) -> (n: usize)
        requires
            self.wf(),
        ensures
            n == span_size(self@, lines.start as int, lines.end as int),
    {
        if lines.start >= lines.end {
            return 0;
        }
        let start: usize = if lines.start < self.line_starts.len() {
            self.line_starts[lines.start]
        } else {
            self.bytes.len()
        };
        let end: usize = if lines.end < self.line_starts.len() {
            self.line_starts[lines.end]
        } else {
            self.bytes.len()
        };
        proof {
            assert(self@.starts.len() == self.line_starts@.len());
            assert(lines.start < self.line_starts.len() ==> self@.starts[lines.start as int] == start);
            assert(lines.end < self.line_starts.len() ==> self@.starts[lines.end as int] == end);
        }
        end - start
    }

    /// Line `i` without its terminator.
    pub fn line(&self, i: usize) -> (line: Option<&[u8]>)
        requires
            self.wf(),
        ensures
            line is Some <==> i < self@.starts.len(),
            line matches Some(bytes) ==> bytes@ == self@.line(i as int),
    {
        if i >= self.line_starts.len() {
            return None;
        }
        let start: usize = self.line_starts[i];
        let mut end: usize = if self.line_starts.len() - i > 1 {
            self.line_starts[i + 1]
        } else {
            self.bytes.len()
        };
        assert(self@.starts[i as int] == start);
        assert(i + 1 < self@.starts.len() ==> self@.starts[i + 1] == end);
        let ghost whole = self@.whole_line(i as int);
        assert(whole =~= self.bytes@.subrange(start as int, end as int));
        if end > start && self.bytes[end - 1] == 0x0a {
            end -= 1;
            assert(whole.drop_last() =~= self.bytes@.subrange(start as int, end as int));
        }
        let ghost mid = self.bytes@.subrange(start as int, end as int);
        if end > start && self.bytes[end - 1] == 0x0d {
            end -= 1;
            assert(mid.drop_last() =~= self.bytes@.subrange(start as int, end as int));
        }
        assert(self.bytes@.subrange(start as int, end as int) =~= self@.line(i as int));
        Some(vstd::slice::slice_subrange(self.bytes.as_slice(), start, end))
    }

    /// The text of line `i`, which spans refer to.
    pub fn line_text(&self, i: usize) -> (chars: String)
        requires
            self.wf(),
        ensures
            chars@ == self@.line_chars(i as int),
    {
        let plain: Vec<u8> = match self.line(i) {
            Some(bytes) => ansi::strip_owned(bytes),
            None => {
                let none: Vec<u8> = Vec::new();
                assert(ansi::stripped(Seq::empty()) =~= none@);
                none
            },
        };
        text::decode_lossy(plain.as_slice())
    }
}

/// How many bytes the lines in `from..to` span: zero for an empty range, up to
/// the end of the bytes where the range reaches past the last line.
pub open spec fn span_size(buffer: LogModel, from: int, to: int) -> int {
    if from >= to {
        0
    } else {
        line_start(buffer, to) - line_start(buffer, from)
    }
}

/// The start of line `i`, or the end of the bytes.
pub open spec fn line_start(buffer: LogModel, i: int) -> int {
    if i < buffer.starts.len() {
        buffer.starts[i]
    } else {
        buffer.bytes.len() as int
    }
}

impl Default for LogBuffer {
    fn default() -> (buffer: LogBuffer)
        ensures
            buffer.wf(),
            buffer@.bytes.len() == 0 && buffer@.starts.len() == 0 && !buffer@.mapped,
    {
        LogBuffer::new()
    }
}

} // verus!
