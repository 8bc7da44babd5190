use vstd::prelude::*;
use vstd::string::StringExecFns;
use crate::lexer::find_char;
use crate::text::{chars_of, decimal, push_successor};

verus! {

/// A place in the source text: a zero-based line, a zero-based column counted
/// in characters from the start of that line, and a length in characters.
#[derive(Clone, Copy, Debug, PartialEq, Eq, Structural)]
pub struct Span {
    pub line: usize,
    pub column: usize,
    pub length: usize,
}

/// The exit status of a failure that is no child's own exit status.
pub const FAILURE: i32 = 255;

/// A failure: the message shown to the user, the place in the source that it
/// is about (if it is about one), and the exit status that the run ends with.
#[derive(Clone, Debug, PartialEq, Eq)]
pub struct Diagnostic {
    pub message: String,
    pub span: Option<Span>,
    pub code: i32,
}

/// The mathematical value of a [`Diagnostic`].
pub struct DiagnosticView {
    pub message: Seq<char>,
    pub span: Option<Span>,
    pub code: i32,
}

impl View for Diagnostic {
    type V = DiagnosticView;

    open spec fn view(&self) -> DiagnosticView {
        DiagnosticView { message: self.message@, span: self.span, code: self.code }
    }
}

/// The failure with message `message` at `span`, ending the run with status 255.
pub open spec fn failure_at(message: Seq<char>, span: Span) -> DiagnosticView {
    DiagnosticView { message, span: Some(span), code: FAILURE }
}

/// The failure with message `message` and no place, ending the run with status 255.
pub open spec fn failure(message: Seq<char>) -> DiagnosticView {
    DiagnosticView { message, span: None, code: FAILURE }
}

impl Diagnostic {
    /// A failure at a place in the source.
    pub fn at(message: String, span: Span) -> (d: Diagnostic)
        ensures
            d@ == failure_at(message@, span),
    {
        Diagnostic { message, span: Some(span), code: FAILURE }
    }

    /// A failure that is about no place in the source.
    pub fn plain(message: String) -> (d: Diagnostic)
        ensures
            d@ == failure(message@),
    {
        Diagnostic { message, span: None, code: FAILURE }
    }

    /// A failure at a place in the source whose message is a fixed text.
    pub fn fixed(message: &str, span: Span) -> (d: Diagnostic)
        ensures
            d@ == failure_at(message@, span),
    {
        Diagnostic { message: String::from_str(message), span: Some(span), code: FAILURE }
    }
}

/// Whether the output is coloured.
#[derive(Clone, Copy, Debug, PartialEq, Eq, Structural)]
pub enum ColorMode {
    Always,
    Never,
    /// As `Never`: whether the output is a terminal is for the caller to find
    /// out, who then asks for `Always`.
    Auto,
}

/// Whether `c` is a wide character of an East Asian script, which takes two
/// columns on a terminal.
pub open spec fn is_wide(c: char) -> bool {
    ||| ('\u{1100}' <= c && c <= '\u{115f}')
    ||| ('\u{2329}' <= c && c <= '\u{232a}')
    ||| ('\u{2e80}' <= c && c <= '\u{a4cf}' && c != '\u{303f}')
    ||| ('\u{ac00}' <= c && c <= '\u{d7a3}')
    ||| ('\u{f900}' <= c && c <= '\u{faff}')
    ||| ('\u{fe10}' <= c && c <= '\u{fe19}')
    ||| ('\u{fe30}' <= c && c <= '\u{fe6f}')
    ||| ('\u{ff00}' <= c && c <= '\u{ff60}')
    ||| ('\u{ffe0}' <= c && c <= '\u{ffe6}')
    ||| ('\u{20000}' <= c && c <= '\u{2fffd}')
    ||| ('\u{30000}' <= c && c <= '\u{3fffd}')
}

/// The number of columns that `c` takes where a line of the source is shown:
/// four for a tab, two for a wide character, one for any other.
pub open spec fn columns(c: char) -> nat {
    if c == '\t' {
        4
    } else if is_wide(c) {
        2
    } else {
        1
    }
}

/// `n` times the character `c`.
pub open spec fn repeated(c: char, n: nat) -> Seq<char> {
    Seq::new(n, |i: int| c)
}

/// The characters of `text` from index `i` on as they are shown, after
/// `done`: a tab as four spaces, any other character as it is.
pub open spec fn shown(text: Seq<char>, i: int, done: Seq<char>) -> Seq<char>
    decreases text.len() - i,
{
    if !(0 <= i < text.len()) {
        done
    } else if text[i] == '\t' {
        shown(text, i + 1, done + repeated(' ', 4))
    } else {
        shown(text, i + 1, done.push(text[i]))
    }
}

/// The character `mark` once for each column that the characters of `text`
/// from index `from` up to index `to` take, after `done`.
pub open spec fn marks(text: Seq<char>, from: int, to: int, mark: char, done: Seq<char>) -> Seq<char>
    decreases to - from,
{
    if !(0 <= from < to && from < text.len()) {
        done
    } else {
        marks(text, from + 1, to, mark, done + repeated(mark, columns(text[from])))
    }
}

/// The index at which line number `line` of `src` starts, counting the lines
/// from 0 at index `from`; the length of `src` if it has no such line.
pub open spec fn line_start(src: Seq<char>, line: nat, from: int) -> int
    decreases line,
{
    if line == 0 {
        from
    } else if find_char(src, from, '\n') >= src.len() {
        src.len() as int
    } else {
        line_start(src, (line - 1) as nat, find_char(src, from, '\n') + 1)
    }
}

/// Line number `line` of `src`, without its newline.
pub open spec fn line_text(src: Seq<char>, line: nat) -> Seq<char> {
    let start = line_start(src, line, 0);
    if 0 <= start <= src.len() {
        src.subrange(start, find_char(src, start, '\n'))
    } else {
        Seq::empty()
    }
}

/// The escape that starts bold red text.
pub open spec fn red() -> Seq<char> {
    "\u{1b}[1;31m"@
}

/// The escape that starts bold text.
pub open spec fn bold() -> Seq<char> {
    "\u{1b}[1m"@
}

/// The escape that ends what an escape started.
pub open spec fn plain() -> Seq<char> {
    "\u{1b}[0m"@
}

/// `paint` if the output is coloured, nothing if it is not.
pub open spec fn tint(colored: bool, paint: Seq<char>) -> Seq<char> {
    if colored {
        paint
    } else {
        Seq::empty()
    }
}

/// The smaller of two numbers.
pub open spec fn least(a: int, b: int) -> int {
    if a < b {
        a
    } else {
        b
    }
}

/// The excerpt of the source for `span`: an empty gutter, the line with its
/// number, and carets under the columns of the span; a span that takes no
/// column gets one caret. The gutter is as wide as the line's number.
pub open spec fn excerpt(src: Seq<char>, span: Span, colored: bool) -> Seq<char> {
    let number = decimal((span.line + 1) as nat);
    let gutter = repeated(' ', number.len());
    let text = line_text(src, span.line as nat);
    let start = least(span.column as int, text.len() as int);
    let stop = least(span.column + span.length, text.len() as int);
    let under = marks(text, start, stop, '^', Seq::empty());
    gutter + " |\n"@ + number + " | "@ + shown(text, 0, Seq::empty()) + "\n"@ + gutter + " | "@ + marks(
        text,
        0,
        start,
        ' ',
        Seq::empty(),
    ) + tint(colored, red()) + (if under.len() == 0 {
        seq!['^']
    } else {
        under
    }) + tint(colored, plain()) + "\n"@
}

/// What is written for the failure `d` on the source `src`: `error:` and the
/// message, and below them the excerpt for the failure's place if it has one.
/// Where the output is coloured, `error:` and the carets are red and the
/// message is bold.
pub open spec fn rendered(d: DiagnosticView, src: Seq<char>, mode: ColorMode) -> Seq<char> {
    let colored = mode == ColorMode::Always;
    let head = tint(colored, red()) + "error:"@ + tint(colored, plain()) + " "@ + tint(colored, bold())
        + d.message;
    match d.span {
        None => head + tint(colored, plain()) + "\n"@,
        Some(span) => head + "\n"@ + tint(colored, plain()) + excerpt(src, span, colored),
    }
}

fn wide(c: char) -> (b: bool)
    ensures
        b == is_wide(c),
{
    ('\u{1100}' <= c && c <= '\u{115f}') || ('\u{2329}' <= c && c <= '\u{232a}') || ('\u{2e80}' <= c && c
        <= '\u{a4cf}' && c != '\u{303f}') || ('\u{ac00}' <= c && c <= '\u{d7a3}') || ('\u{f900}' <= c && c
        <= '\u{faff}') || ('\u{fe10}' <= c && c <= '\u{fe19}') || ('\u{fe30}' <= c && c <= '\u{fe6f}') || (
    '\u{ff00}' <= c && c <= '\u{ff60}') || ('\u{ffe0}' <= c && c <= '\u{ffe6}') || ('\u{20000}' <= c && c
        <= '\u{2fffd}') || ('\u{30000}' <= c && c <= '\u{3fffd}')
}

/// Appends `n` times the character `c` to `out`.
pub fn push_repeated(out: &mut String, c: char, n: usize)
    ensures
        final(out)@ == old(out)@ + repeated(c, n as nat),
{
    let mut i: usize = 0;
    assert(out@ =~= old(out)@ + repeated(c, 0));
    while i < n
        invariant
            i <= n,
            out@ == old(out)@ + repeated(c, i as nat),
        decreases n - i,
    {
        out.push(c);
        i += 1;
        assert(out@ =~= old(out)@ + repeated(c, i as nat));
    }
}

fn repeat(c: char, n: usize) -> (out: String)
    ensures
        out@ == repeated(c, n as nat),
{
    let mut out = String::new();
    push_repeated(&mut out, c, n);
    assert(out@ =~= repeated(c, n as nat));
    out
}

fn mark_columns(text: &Vec<char>, from: usize, to: usize, mark: char) -> (run: String)
    requires
        from <= to <= text.len(),
    ensures
        run@ == marks(text@, from as int, to as int, mark, Seq::empty()),
{
    let mut run = String::new();
    let mut i: usize = from;
    while i < to
        invariant
            from <= i <= to <= text.len(),
            marks(text@, i as int, to as int, mark, run@) == marks(
                text@,
                from as int,
                to as int,
                mark,
                Seq::empty(),
            ),
        decreases to - i,
    {
        let c = text[i];
        let n: usize = if c == '\t' {
            4
        } else if wide(c) {
            2
        } else {
            1
        };
        push_repeated(&mut run, mark, n);
        i += 1;
    }
    run
}

fn show(text: &Vec<char>) -> (line: String)
    ensures
        line@ == shown(text@, 0, Seq::empty()),
{
    let mut line = String::new();
    let mut i: usize = 0;
    while i < text.len()
        invariant
            i <= text.len(),
            shown(text@, i as int, line@) == shown(text@, 0, Seq::empty()),
        decreases text.len() - i,
    {
        if text[i] == '\t' {
            push_repeated(&mut line, ' ', 4);
        } else {
            line.push(text[i]);
        }
        i += 1;
    }
    line
}

fn tinted(colored: bool, paint: &str) -> (out: String)
    ensures
        out@ == tint(colored, paint@),
{
    if colored {
        String::from_str(paint)
    } else {
        String::new()
    }
}

fn find_line(src: &Vec<char>, line: usize) -> (start: usize)
    ensures
        start == line_start(src@, line as nat, 0),
        start <= src.len(),
{
    let mut from: usize = 0;
    let mut left: usize = line;
    while left > 0
        invariant
            from <= src.len(),
            line_start(src@, left as nat, from as int) == line_start(src@, line as nat, 0),
        decreases left,
    {
        let mut end: usize = from;
        while end < src.len() && src[end] != '\n'
            invariant
                from <= end <= src.len(),
                find_char(src@, end as int, '\n') == find_char(src@, from as int, '\n'),
            decreases src.len() - end,
        {
            end += 1;
        }
        if end >= src.len() {
            return src.len();
        }
        from = end + 1;
        left -= 1;
    }
    from
}

fn line_of(src: &Vec<char>, line: usize) -> (text: Vec<char>)
    ensures
        text@ == line_text(src@, line as nat),
{
    let start = find_line(src, line);
    let mut text: Vec<char> = Vec::new();
    let mut end: usize = start;
    while end < src.len() && src[end] != '\n'
        invariant
            start <= end <= src.len(),
            find_char(src@, end as int, '\n') == find_char(src@, start as int, '\n'),
            text@ == src@.subrange(start as int, end as int),
        decreases src.len() - end,
    {
        text.push(src[end]);
        end += 1;
        assert(src@.subrange(start as int, end as int) == src@.subrange(start as int, end - 1).push(
            src@[end - 1],
        ));
    }
    text
}

fn excerpt_of(src: &Vec<char>, span: Span, colored: bool) -> (out: String)
    ensures
        out@ == excerpt(src@, span, colored),
{
    let mut number = String::new();
    push_successor(&mut number, span.line);
    assert(number@ =~= decimal((span.line + 1) as nat));
    let width = number.as_str().unicode_len();
    let text = line_of(src, span.line);
    let start = if span.column < text.len() {
        span.column
    } else {
        text.len()
    };
    let stop = if span.column >= text.len() || span.length >= text.len() - span.column {
        text.len()
    } else {
        span.column + span.length
    };
    let under = mark_columns(&text, start, stop, '^');
    let mut out = repeat(' ', width);
    out.append(" |\n");
    out.append(number.as_str());
    out.append(" | ");
    out.append(show(&text).as_str());
    out.append("\n");
    out.append(repeat(' ', width).as_str());
    out.append(" | ");
    out.append(mark_columns(&text, 0, start, ' ').as_str());
    out.append(tinted(colored, "\u{1b}[1;31m").as_str());
    if under.as_str().unicode_len() == 0 {
        let mut one = String::new();
        one.push('^');
        assert(one@ =~= seq!['^']);
        out.append(one.as_str());
    } else {
        out.append(under.as_str());
    }
    out.append(tinted(colored, "\u{1b}[0m").as_str());
    out.append("\n");
    out
}

/// Renders a failure as it is written to standard error.
///
/// The message follows `error:`. A failure with a place gets, below that, the
/// line of the source that it is about, with the line's number before it and
/// carets under the place. Tabs of the line are shown as four spaces, and the
/// carets are set by the columns that the characters take.
pub fn render(diagnostic: &Diagnostic, source: &str, mode: ColorMode) -> (out: String)
    ensures
        out@ == rendered(diagnostic@, source@, mode),
{
    let colored = match mode {
        ColorMode::Always => true,
        _ => false,
    };
    let mut out = tinted(colored, "\u{1b}[1;31m");
    out.append("error:");
    out.append(tinted(colored, "\u{1b}[0m").as_str());
    out.append(" ");
    out.append(tinted(colored, "\u{1b}[1m").as_str());
    out.append(diagnostic.message.as_str());
    match diagnostic.span {
        None => {
            out.append(tinted(colored, "\u{1b}[0m").as_str());
            out.append("\n");
        },
        Some(span) => {
            let src = chars_of(source);
            out.append("\n");
            out.append(tinted(colored, "\u{1b}[0m").as_str());
            out.append(excerpt_of(&src, span, colored).as_str());
        },
    }
    out
}

} // verus!
