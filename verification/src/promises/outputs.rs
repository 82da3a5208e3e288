//! What leaves the program: copies and exports; and how it is called.

use vstd::prelude::*;
#[allow(unused_imports)]
use vstd::string::*;

#[allow(unused_imports)]
use crate::app::output::{gutter, joined};
#[allow(unused_imports)]
use crate::app::scripts::{ended_lines, line_from, text_lines};
#[allow(unused_imports)]
use crate::app::{AppModel, CopyKind, RequestModel};
#[allow(unused_imports)]
use crate::cli::{double_dash_from, origin, split_words, Origin};
#[allow(unused_imports)]
use crate::clipboard::{copy_refusal, escapes_doubled, joined_lines};
#[allow(unused_imports)]
use crate::diff::RowStatus;

verus! {

/// A line without a line feed, and without a carriage return at its end.
pub open spec fn one_line(line: Seq<char>) -> bool {
    &&& forall|k: int| 0 <= k < line.len() ==> #[trigger] line[k] != '\n'
    &&& line.len() > 0 ==> line.last() != '\r'
}

proof fn lemma_prefix(a: Seq<char>, b: Seq<char>, n: int)
    requires
        0 <= n <= a.len(),
        n <= b.len(),
        forall|k: int| 0 <= k < n ==> a[k] == b[k],
    ensures
        line_from(a, n) == line_from(b, n),
        0 <= line_from(a, n) <= n,
        ended_lines(a, n) == ended_lines(b, n),
    decreases n,
{
    if n > 0 {
        lemma_prefix(a, b, n - 1);
        let f = line_from(a, n - 1);
        assert(a.subrange(f, n - 1) =~= b.subrange(f, n - 1));
    }
}

proof fn lemma_line_at_end(head: Seq<char>, line: Seq<char>, k: int)
    requires
        0 <= k <= line.len(),
        head.len() > 0 ==> head.last() == '\n',
        forall|j: int| 0 <= j < line.len() ==> #[trigger] line[j] != '\n',
    ensures
        line_from(head + line, head.len() + k) == head.len(),
        ended_lines(head + line, head.len() + k) == ended_lines(head, head.len() as int),
    decreases k,
{
    let s = head + line;
    if k > 0 {
        assert(s[head.len() + k - 1] == line[k - 1]);
        lemma_line_at_end(head, line, k - 1);
    } else {
        lemma_prefix(s, head, head.len() as int);
        if head.len() > 0 {
            assert(s[head.len() - 1] == '\n');
        }
    }
}

proof fn lemma_ends(lines: Seq<Seq<char>>, n: int)
    requires
        0 <= n <= lines.len(),
    ensures
        joined_lines(lines, n).len() > 0 ==> joined_lines(lines, n).last() == '\n',
        n > 0 ==> joined_lines(lines, n).len() > 0,
{
}

/// The lines of an export are read back line by line.
pub proof fn law_exported_lines_are_read_back(lines: Seq<Seq<char>>, n: int)
    requires
        0 <= n <= lines.len(),
        forall|k: int| 0 <= k < lines.len() ==> one_line(#[trigger] lines[k]),
    ensures
        text_lines(joined_lines(lines, n)) == lines.take(n),
    decreases n,
{
    let s = joined_lines(lines, n);
    lemma_ends(lines, n);
    if n > 0 {
        law_exported_lines_are_read_back(lines, n - 1);
        lemma_ends(lines, n - 1);
        let head = joined_lines(lines, n - 1);
        let line = lines[n - 1];
        assert(one_line(line));
        let h = head.len() as int;
        let m = s.len() as int;
        assert(s =~= (head + line).push('\n'));
        lemma_line_at_end(head, line, line.len() as int);
        lemma_prefix(s, head + line, m - 1);
        assert(s[m - 1] == '\n');
        assert(s.subrange(h, m - 1) =~= line);
        assert(line_from(s, m) == m);
        lemma_prefix(head, head, h);
        if h > 0 {
            assert(line_from(head, h) == h);
        }
        assert(text_lines(head) == ended_lines(head, h));
        assert(lines.take(n) =~= lines.take(n - 1).push(line));
    } else {
        assert(s.len() == 0);
        assert(text_lines(s) =~= lines.take(0));
    }
}

/// A copied section is its lines with a line feed between them: with one more at
/// its end it is what an export of them holds.
pub proof fn law_a_copied_section_is_its_lines(lines: Seq<Seq<char>>, n: int)
    requires
        0 < n <= lines.len(),
    ensures
        joined(lines, n).push('\n') == joined_lines(lines, n),
    decreases n,
{
    if n > 1 {
        law_a_copied_section_is_its_lines(lines, n - 1);
        assert(joined(lines, n).push('\n') =~= joined_lines(lines, n));
    } else {
        assert(joined_lines(lines, 0) =~= Seq::empty());
        assert(joined(lines, n).push('\n') =~= joined_lines(lines, n));
    }
}

/// A text in which every escape stands twice, with one of each pair taken away.
pub open spec fn halved(s: Seq<char>, n: int) -> Seq<char>
    decreases n,
{
    if n <= 0 {
        Seq::empty()
    } else if n >= 2 && s[n - 1] == '\x1b' && s[n - 2] == '\x1b' {
        halved(s, n - 2).push('\x1b')
    } else {
        halved(s, n - 1).push(s[n - 1])
    }
}

proof fn lemma_halved_prefix(a: Seq<char>, b: Seq<char>, n: int)
    requires
        0 <= n <= a.len(),
        n <= b.len(),
        forall|k: int| 0 <= k < n ==> a[k] == b[k],
    ensures
        halved(a, n) == halved(b, n),
    decreases n,
{
    if n > 0 {
        lemma_halved_prefix(a, b, n - 1);
        if n >= 2 {
            lemma_halved_prefix(a, b, n - 2);
        }
    }
}

/// What a multiplexer is handed is read back when it takes one of each pair of
/// escapes away, so that the terminal gets the sequence as it was.
pub proof fn law_doubled_escapes_are_read_back(s: Seq<char>, n: int)
    requires
        0 <= n <= s.len(),
    ensures
        halved(escapes_doubled(s, n), escapes_doubled(s, n).len() as int) == s.take(n),
    decreases n,
{
    let t = escapes_doubled(s, n);
    let m = t.len() as int;
    if n > 0 {
        law_doubled_escapes_are_read_back(s, n - 1);
        let before = escapes_doubled(s, n - 1);
        lemma_halved_prefix(t, before, before.len() as int);
        assert(s.take(n) =~= s.take(n - 1).push(s[n - 1]));
        if s[n - 1] == '\x1b' {
            assert(m == before.len() + 2);
        } else {
            assert(m == before.len() + 1);
            assert(t[m - 1] == s[n - 1]);
        }
    } else {
        assert(halved(t, m) =~= s.take(0));
    }
}

/// Each mark of a comparison stands for one thing that can have happened.
pub proof fn law_the_marks_tell_changes_apart(a: RowStatus, b: RowStatus)
    requires
        gutter(a) == gutter(b),
    ensures
        a is Same <==> b is Same,
        a is Added <==> b is Added,
        a is Deleted <==> b is Deleted,
        a is Changed <==> b is Changed,
        a is Replaced <==> b is Replaced,
        a is Moved <==> b is Moved,
{
    reveal_strlit("  ");
    reveal_strlit("+ ");
    reveal_strlit("− ");
    reveal_strlit("~ ");
    reveal_strlit("→ ");
    reveal_strlit("≈ ");
    assert("  "@[0] == ' ');
    assert("+ "@[0] == '+');
    assert("− "@[0] == '−');
    assert("~ "@[0] == '~');
    assert("→ "@[0] == '→');
    assert("≈ "@[0] == '≈');
}

/// What is copied is the line that the row under the cursor shows.
pub proof fn law_the_line_under_the_cursor_is_copied(app: AppModel)
    requires
        !app.diff,
        app.cursor < app.shown().rows_len(),
    ensures
        ({
            let line = app.shown().row_at(app.cursor as int).line as int;
            let text = app.source().buffer.line_chars(line);
            copy_refusal(text) is None ==> app.line_yanked().request == Some(
                RequestModel::Copy { kind: CopyKind::Line, text },
            )
        }),
{
    reveal(AppModel::line_yanked);
    reveal(AppModel::with_request);
}

/// The words of a command line are those in front of the first bare `--`, and
/// those behind it are a command; there is none without one.
pub proof fn law_the_first_double_dash_parts_the_words(words: Seq<Seq<u8>>, i: int)
    requires
        0 <= i <= words.len(),
        forall|k: int| 0 <= k < i ==> #[trigger] words[k] != seq![45u8, 45u8],
        i < words.len() ==> words[i] == seq![45u8, 45u8],
    ensures
        i < words.len() ==> split_words(words) == (words.take(i), Some(words.skip(i + 1))),
        i == words.len() ==> split_words(words) == (words, None::<Seq<Seq<u8>>>),
{
    lemma_double_dash(words, 0, i);
}

proof fn lemma_double_dash(words: Seq<Seq<u8>>, k: int, i: int)
    requires
        0 <= k <= i <= words.len(),
        forall|k: int| 0 <= k < i ==> #[trigger] words[k] != seq![45u8, 45u8],
        i < words.len() ==> words[i] == seq![45u8, 45u8],
    ensures
        i < words.len() ==> double_dash_from(words, k) == Some(i),
        i == words.len() ==> double_dash_from(words, k) is None,
    decreases i - k,
{
    if k < i {
        assert(words[k] != seq![45u8, 45u8]);
        lemma_double_dash(words, k + 1, i);
    }
}

/// A command goes before files, and files before what is piped in.
pub proof fn law_a_command_goes_first(
    files: Seq<Seq<u8>>,
    command: Option<Seq<Seq<u8>>>,
    piped: bool,
)
    ensures
        command matches Some(words) ==> origin(files, command, piped) == Origin::Command(words),
        command is None && files.len() > 0 ==> origin(files, command, piped) == Origin::Files(files),
        command is None && files.len() == 0 ==> origin(files, command, piped) == (if piped {
            Origin::Stdin
        } else {
            Origin::Nowhere
        }),
{
}

} // verus!
