//! The output window: lines in colour, and the output of the program as it grows.

use vstd::prelude::*;

use crate::number::{push_signed, show};
use crate::text::{
    join, lemma_split_at, lemma_split_joins, lemma_split_more, lemma_split_some,
    lemma_split_whole, line_list, lines, opt_str,
    opt_text, owned, pieces, split, split_on, texts, to_chars, to_text,
};

verus! {

/// The colours of a line of output.
#[derive(Debug, Clone, Copy, PartialEq, Eq, Structural)]
pub enum OutputStyle {
    /// What the program writes.
    Text,
    /// What the environment does.
    Info,
    Success,
    Failure,
}

impl OutputStyle {
    /// The attribute byte: light gray, yellow, light green or light red on black.
    pub open spec fn colours(self) -> u8 {
        match self {
            OutputStyle::Text => 0x07,
            OutputStyle::Info => 0x0E,
            OutputStyle::Success => 0x0A,
            OutputStyle::Failure => 0x0C,
        }
    }

    /// The attribute byte.
    pub fn attr(self) -> (r: u8)
        ensures
            r == self.colours(),
    {
        match self {
            OutputStyle::Text => 0x07,
            OutputStyle::Info => 0x0E,
            OutputStyle::Success => 0x0A,
            OutputStyle::Failure => 0x0C,
        }
    }
}

/// A line of output.
pub struct ConsoleLine {
    pub text: String,
    pub style: OutputStyle,
}

impl View for ConsoleLine {
    type V = (Seq<char>, OutputStyle);

    open spec fn view(&self) -> (Seq<char>, OutputStyle) {
        (self.text@, self.style)
    }
}

/// The lines, over plain values.
pub open spec fn console_texts(v: Seq<ConsoleLine>) -> Seq<(Seq<char>, OutputStyle)> {
    v.map_values(|l: ConsoleLine| l@)
}

/// The colours of an exit code: zero is a success.
pub open spec fn code_style(code: i32) -> OutputStyle {
    if code == 0 {
        OutputStyle::Success
    } else {
        OutputStyle::Failure
    }
}

/// A line that ends in an exit code.
pub(crate) fn code_line(before: &str, code: i32) -> (r: ConsoleLine)
    ensures
        r@ == (before@ + show(code as int), code_style(code)),
{
    let mut text: String = owned(before);
    push_signed(&mut text, code as i64);
    let style = if code == 0 {
        OutputStyle::Success
    } else {
        OutputStyle::Failure
    };
    ConsoleLine { text, style }
}

/// How a run of the program ended.
pub enum RunStatus {
    /// It ended, with an exit code where it has one.
    Exited(Option<i32>),
    /// It could not be started; why.
    Failed(String),
}

/// How a run of the program ended, over plain values.
pub enum RunStatusView {
    Exited(Option<i32>),
    Failed(Seq<char>),
}

impl View for RunStatus {
    type V = RunStatusView;

    open spec fn view(&self) -> RunStatusView {
        match self {
            RunStatus::Exited(code) => RunStatusView::Exited(*code),
            RunStatus::Failed(e) => RunStatusView::Failed(e@),
        }
    }
}

/// The last line of the report on a run.
pub open spec fn run_ending(status: RunStatusView) -> (Seq<char>, OutputStyle) {
    match status {
        RunStatusView::Exited(code) => {
            let n = match code {
                Some(n) => n,
                None => (-1) as i32,
            };
            ("Exit code: "@ + show(n as int), code_style(n))
        },
        RunStatusView::Failed(e) => ("Failed to run: "@ + e, OutputStyle::Failure),
    }
}

/// The report on a run: the lines that the program wrote, and how it ended.
pub open spec fn run_lines(capture: Option<Seq<char>>, status: RunStatusView) -> Seq<
    (Seq<char>, OutputStyle),
> {
    let written = match capture {
        Some(text) => lines(text).map_values(|l: Seq<char>| (l, OutputStyle::Text)),
        None => Seq::empty(),
    };
    written.push(run_ending(status))
}

/// The line that announces a run.
pub fn run_start(exe_path: &str) -> (r: ConsoleLine)
    ensures
        r@ == ("Running "@ + exe_path@ + "..."@, OutputStyle::Info),
{
    let mut text: String = owned("Running ");
    text.append(exe_path);
    text.append("...");
    ConsoleLine { text, style: OutputStyle::Info }
}

/// The report on a run. `capture` is what the program wrote, where that could be read.
pub fn run_report(capture: Option<&str>, status: &RunStatus) -> (out: Vec<ConsoleLine>)
    ensures
        console_texts(out@) == run_lines(opt_str(capture), status@),
{
    let mut out: Vec<ConsoleLine> = Vec::new();
    match capture {
        Some(text) => {
            let chars = to_chars(text);
            let rows = line_list(chars.as_slice());
            let ghost all = lines(text@);
            for i in 0..rows.len()
                invariant
                    pieces(rows@) == all,
                    console_texts(out@) == all.take(i as int).map_values(
                        |l: Seq<char>| (l, OutputStyle::Text),
                    ),
            {
                let ghost before = out@;
                out.push(ConsoleLine { text: to_text(rows[i]), style: OutputStyle::Text });
                proof {
                    assert(all[i as int] == rows@[i as int]@);
                    assert(all.take(i + 1) =~= all.take(i as int).push(all[i as int]));
                    assert(console_texts(out@) =~= console_texts(before).push(
                        (all[i as int], OutputStyle::Text),
                    ));
                }
            }
            assert(all.take(all.len() as int) =~= all);
        },
        None => {},
    }
    let ghost before = out@;
    let last = match status {
        RunStatus::Exited(code) => {
            let n: i32 = match code {
                Some(n) => *n,
                None => -1,
            };
            code_line("Exit code: ", n)
        },
        RunStatus::Failed(e) => {
            let mut text: String = owned("Failed to run: ");
            text.append(e.as_str());
            ConsoleLine { text, style: OutputStyle::Failure }
        },
    };
    out.push(last);
    assert(console_texts(out@) =~= console_texts(before).push(last@));
    out
}

/// A line of the debugger's error output, among the lines of its output.
pub fn stderr_line(line: &str) -> (r: String)
    ensures
        r@ == "[stderr] "@ + line@,
{
    let mut out: String = owned("[stderr] ");
    out.append(line);
    out
}

/// The text that `String::from_utf8_lossy` reads from bytes.
pub uninterp spec fn lossy_text(bytes: Seq<u8>) -> Seq<char>;

/// `String::from_utf8_lossy`: the bytes as text. Bytes that are the UTF-8 encoding of a text give
/// that text; what other bytes give is not said.
#[verifier::external_body]
fn read_lossy(bytes: &[u8]) -> (r: String)
    ensures
        r@ == lossy_text(bytes@),
        forall|text: Seq<char>| #[trigger]
            vstd::utf8::encode_utf8(text) == bytes@ ==> r@ == text,
{
    String::from_utf8_lossy(bytes).into_owned()
}

/// Follows a file that a program writes: cuts what was appended into lines.
pub struct OutputTail {
    position: u64,
    leftover: String,
}

/// The tail, over plain values: how far the file was read, and the text behind the last line feed.
#[verifier::ext_equal]
pub struct TailView {
    pub position: u64,
    pub leftover: Seq<char>,
}

impl View for OutputTail {
    type V = TailView;

    closed spec fn view(&self) -> TailView {
        TailView { position: self.position, leftover: self.leftover@ }
    }
}

/// The lines that are complete once `chunk` follows `leftover`.
pub open spec fn complete_lines(leftover: Seq<char>, chunk: Seq<char>) -> Seq<Seq<char>> {
    split(leftover + chunk, '\n').drop_last()
}

/// What stays behind the last line feed once `chunk` follows `leftover`.
pub open spec fn still_open(leftover: Seq<char>, chunk: Seq<char>) -> Seq<char> {
    split(leftover + chunk, '\n').last()
}

impl OutputTail {
    /// At the start of the file.
    pub fn new() -> (r: OutputTail)
        ensures
            r@ == (TailView { position: 0, leftover: Seq::empty() }),
    {
        let r = OutputTail { position: 0, leftover: String::new() };
        assert(r@.leftover =~= Seq::empty());
        r
    }

    /// Where to read on in a file of `file_len` bytes, and how many bytes, where there are any.
    pub fn unread(&self, file_len: u64) -> (r: Option<(u64, u64)>)
        ensures
            r == if file_len > self@.position {
                Some((self@.position, (file_len - self@.position) as u64))
            } else {
                None
            },
    {
        if file_len > self.position {
            Some((self.position, file_len - self.position))
        } else {
            None
        }
    }

    /// Takes the bytes that were read. Gives the lines that are complete with them.
    pub fn feed(&mut self, bytes: &[u8]) -> (out: Vec<String>)
        requires
            old(self)@.position + bytes@.len() <= u64::MAX,
        ensures
            final(self)@ == (TailView {
                position: (old(self)@.position + bytes@.len()) as u64,
                leftover: still_open(old(self)@.leftover, lossy_text(bytes@)),
            }),
            texts(out@) == complete_lines(old(self)@.leftover, lossy_text(bytes@)),
    {
        let chunk = read_lossy(bytes);
        let n: usize = bytes.len();
        self.position = self.position + n as u64;
        self.take_text(chunk.as_str())
    }

    /// Takes text that follows what was read. Gives the lines that are complete with it.
    pub fn take_text(&mut self, chunk: &str) -> (out: Vec<String>)
        ensures
            final(self)@ == (TailView {
                leftover: still_open(old(self)@.leftover, chunk@),
                ..old(self)@
            }),
            texts(out@) == complete_lines(old(self)@.leftover, chunk@),
    {
        let mut all: String = self.leftover.clone();
        all.append(chunk);
        let chars = to_chars(all.as_str());
        let rows = split_on(chars.as_slice(), '\n');
        let ghost parts = split(all@, '\n');
        let mut out: Vec<String> = Vec::new();
        for i in 0..rows.len() - 1
            invariant
                rows@.len() > 0,
                pieces(rows@) == parts,
                texts(out@) == parts.take(i as int),
        {
            let ghost before = out@;
            out.push(to_text(rows[i]));
            proof {
                assert(parts[i as int] == rows@[i as int]@);
                assert(texts(out@) =~= texts(before).push(parts[i as int]));
                assert(parts.take(i + 1) =~= parts.take(i as int).push(parts[i as int]));
            }
        }
        self.leftover = to_text(rows[rows.len() - 1]);
        proof {
            assert(parts.last() == rows@[rows@.len() - 1]@);
            assert(parts.take(parts.len() - 1) =~= parts.drop_last());
        }
        out
    }

    /// The last line of the file, where it does not end in a line feed.
    pub fn finish(self) -> (r: Option<String>)
        ensures
            opt_text(r) == if self@.leftover.len() > 0 {
                Some(self@.leftover)
            } else {
                None
            },
    {
        if self.leftover.as_str().is_empty() {
            None
        } else {
            Some(self.leftover)
        }
    }
}

/// In how many pieces the output comes does not matter: the lines are the same, and so is what
/// stays open.
pub proof fn lemma_tail_in_pieces(leftover: Seq<char>, first: Seq<char>, second: Seq<char>)
    ensures
        complete_lines(leftover, first + second) == complete_lines(leftover, first)
            + complete_lines(still_open(leftover, first), second),
        still_open(leftover, first + second) == still_open(still_open(leftover, first), second),
{
    let s = leftover + first;
    let open = still_open(leftover, first);
    assert(leftover + (first + second) =~= s + second);
    lemma_split_more(s, second, '\n');
    lemma_split_some(open + second, '\n');
    let parts = split(open + second, '\n');
    let all = split(s + second, '\n');
    assert(all == split(s, '\n').drop_last() + parts);
    assert(all.drop_last() =~= split(s, '\n').drop_last() + parts.drop_last());
    assert(all.last() == parts.last());
}

/// No output is lost: the lines and what stays open, with line feeds between them, are the text.
pub proof fn lemma_tail_loses_nothing(leftover: Seq<char>, chunk: Seq<char>)
    ensures
        join(
            complete_lines(leftover, chunk).push(still_open(leftover, chunk)),
            seq!['\n'],
        ) == leftover + chunk,
{
    let s = leftover + chunk;
    lemma_split_joins(s, '\n');
    lemma_split_some(s, '\n');
    assert(split(s, '\n').drop_last().push(split(s, '\n').last()) =~= split(s, '\n'));
}

/// The report on a run: each line that the program wrote, as text and in order, and then how it
/// ended, in the colours of a success exactly where the exit code is zero. A program that was ended
/// without a code counts as minus one.
pub proof fn lemma_run_reported(capture: Seq<char>, code: i32, error: Seq<char>, i: int)
    ensures
        run_lines(Some(capture), RunStatusView::Exited(Some(code))).len() == lines(capture).len() + 1,
        0 <= i < lines(capture).len() ==> run_lines(
            Some(capture),
            RunStatusView::Exited(Some(code)),
        )[i] == (lines(capture)[i], OutputStyle::Text),
        run_lines(Some(capture), RunStatusView::Exited(Some(code))).last() == (
            "Exit code: "@ + show(code as int),
            if code == 0 {
                OutputStyle::Success
            } else {
                OutputStyle::Failure
            },
        ),
        run_lines(None, RunStatusView::Exited(Some(code))) == seq![
            run_lines(Some(capture), RunStatusView::Exited(Some(code))).last(),
        ],
        run_lines(Some(capture), RunStatusView::Exited(None)) == run_lines(
            Some(capture),
            RunStatusView::Exited(Some((-1) as i32)),
        ),
        run_lines(Some(capture), RunStatusView::Failed(error)).last() == (
            "Failed to run: "@ + error,
            OutputStyle::Failure,
        ),
{
    assert(run_lines(None, RunStatusView::Exited(Some(code))) =~= seq![
        run_lines(Some(capture), RunStatusView::Exited(Some(code))).last(),
    ]);
}

/// Every line of output is on black; what the program writes is light gray, what the environment
/// does yellow, a success light green and a failure light red.
pub proof fn lemma_output_colours(style: OutputStyle)
    ensures
        style.colours() / 16 == 0,
        style == OutputStyle::Text ==> style.colours() == 7,
        style == OutputStyle::Info ==> style.colours() == 14,
        style == OutputStyle::Success ==> style.colours() == 10,
        style == OutputStyle::Failure ==> style.colours() == 12,
{
}

/// A line is complete exactly where a line feed ends it: text without one stays open, and each line
/// feed completes what stood open before it.
pub proof fn lemma_line_feed_completes(leftover: Seq<char>, a: Seq<char>, b: Seq<char>)
    requires
        !leftover.contains('\n'),
        !a.contains('\n'),
    ensures
        complete_lines(leftover, a) == Seq::<Seq<char>>::empty(),
        still_open(leftover, a) == leftover + a,
        complete_lines(leftover, a + seq!['\n'] + b) == seq![leftover + a] + complete_lines(
            Seq::<char>::empty(),
            b,
        ),
        still_open(leftover, a + seq!['\n'] + b) == still_open(Seq::<char>::empty(), b),
{
    let open = leftover + a;
    assert forall|i: int| 0 <= i < open.len() implies open[i] != '\n' by {
        if i < leftover.len() {
            assert(leftover.contains(leftover[i]));
        } else {
            assert(a.contains(a[i - leftover.len()]));
        }
    }
    lemma_split_whole(open, '\n');
    assert(split(open, '\n').drop_last() =~= seq![]);
    assert(leftover + (a + seq!['\n'] + b) =~= open + seq!['\n'] + b);
    lemma_split_at(open, b, '\n');
    lemma_split_some(b, '\n');
    assert(Seq::<char>::empty() + b =~= b);
    let all = split(open + seq!['\n'] + b, '\n');
    assert(all =~= seq![open] + split(b, '\n'));
    assert(all.drop_last() =~= seq![open] + split(b, '\n').drop_last());
    assert(all.last() == split(b, '\n').last());
}

} // verus!
