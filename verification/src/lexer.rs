use vstd::prelude::*;
use vstd::string::StringExecFns;
use crate::diagnostic::{failure_at, Diagnostic, DiagnosticView, Span};
use crate::text::{chars_of, string_of_range};
use crate::token::{token_views, Token, TokenKind, TokenView};

verus! {

/// Whether `c` is a space or a tab.
pub open spec fn is_blank(c: char) -> bool {
    c == ' ' || c == '\t'
}

/// Whether a name can start with `c`.
pub open spec fn is_name_start(c: char) -> bool {
    ('a' <= c && c <= 'z') || ('A' <= c && c <= 'Z') || c == '_'
}

/// Whether `c` can stand inside a name.
pub open spec fn is_name_char(c: char) -> bool {
    is_name_start(c) || ('0' <= c && c <= '9') || c == '-'
}

/// The first index at or after `from` that holds no space or tab; the length
/// of `src` if there is none.
pub open spec fn blank_end(src: Seq<char>, from: int) -> int
    decreases src.len() - from,
{
    if 0 <= from < src.len() && is_blank(src[from]) {
        blank_end(src, from + 1)
    } else {
        from
    }
}

/// The first index at or after `from` that holds no character of a name.
pub open spec fn name_end(src: Seq<char>, from: int) -> int
    decreases src.len() - from,
{
    if 0 <= from < src.len() && is_name_char(src[from]) {
        name_end(src, from + 1)
    } else {
        from
    }
}

/// The first index at or after `from` that holds `c`; the length of `src` if
/// there is none.
pub open spec fn find_char(src: Seq<char>, from: int, c: char) -> int
    decreases src.len() - from,
{
    if 0 <= from < src.len() && src[from] != c {
        find_char(src, from + 1, c)
    } else {
        from
    }
}

/// Whether `{{` stands at index `at`.
pub open spec fn opens_interpolation(src: Seq<char>, at: int) -> bool {
    0 <= at && at + 1 < src.len() && src[at] == '{' && src[at + 1] == '{'
}

/// Whether `}}` stands at index `at`.
pub open spec fn closes_interpolation(src: Seq<char>, at: int) -> bool {
    0 <= at && at + 1 < src.len() && src[at] == '}' && src[at + 1] == '}'
}

/// The end of the literal text that starts at `from`: the first index at or
/// after it that holds a newline or starts `{{`; the length of `src` if there
/// is none.
pub open spec fn text_end(src: Seq<char>, from: int) -> int
    decreases src.len() - from,
{
    if 0 <= from < src.len() && src[from] != '\n' && !opens_interpolation(src, from) {
        text_end(src, from + 1)
    } else {
        from
    }
}

/// A run of spaces and tabs ends at or after its start and within the text.
pub proof fn lemma_blank_end_bounds(src: Seq<char>, from: int)
    requires
        0 <= from <= src.len(),
    ensures
        from <= blank_end(src, from) <= src.len(),
    decreases src.len() - from,
{
    if from < src.len() && is_blank(src[from]) {
        lemma_blank_end_bounds(src, from + 1);
    }
}

/// A name ends at or after its start and within the text.
pub proof fn lemma_name_end_bounds(src: Seq<char>, from: int)
    requires
        0 <= from <= src.len(),
    ensures
        from <= name_end(src, from) <= src.len(),
    decreases src.len() - from,
{
    if from < src.len() && is_name_char(src[from]) {
        lemma_name_end_bounds(src, from + 1);
    }
}

/// What is found stands at or after the start of the search and within the
/// text.
pub proof fn lemma_find_char_bounds(src: Seq<char>, from: int, c: char)
    requires
        0 <= from <= src.len(),
    ensures
        from <= find_char(src, from, c) <= src.len(),
    decreases src.len() - from,
{
    if from < src.len() && src[from] != c {
        lemma_find_char_bounds(src, from + 1, c);
    }
}

/// A literal text ends at or after its start and within the text.
pub proof fn lemma_text_end_bounds(src: Seq<char>, from: int)
    requires
        0 <= from <= src.len(),
    ensures
        from <= text_end(src, from) <= src.len(),
    decreases src.len() - from,
{
    if from < src.len() && src[from] != '\n' && !opens_interpolation(src, from) {
        lemma_text_end_bounds(src, from + 1);
    }
}

/// Whether `c` is a space or a tab.
pub fn blank(c: char) -> (b: bool)
    ensures
        b == is_blank(c),
{
    c == ' ' || c == '\t'
}

fn name_start(c: char) -> (b: bool)
    ensures
        b == is_name_start(c),
{
    ('a' <= c && c <= 'z') || ('A' <= c && c <= 'Z') || c == '_'
}

fn name_char(c: char) -> (b: bool)
    ensures
        b == is_name_char(c),
{
    name_start(c) || ('0' <= c && c <= '9') || c == '-'
}

/// The first index at or after `from` that holds no space or tab.
pub(crate) fn scan_blank(src: &Vec<char>, from: usize) -> (end: usize)
    requires
        from <= src.len(),
    ensures
        end == blank_end(src@, from as int),
        from <= end <= src.len(),
{
    let mut i: usize = from;
    while i < src.len() && blank(src[i])
        invariant
            from <= i <= src.len(),
            blank_end(src@, i as int) == blank_end(src@, from as int),
        decreases src.len() - i,
    {
        i += 1;
    }
    i
}

fn scan_name(src: &Vec<char>, from: usize) -> (end: usize)
    requires
        from <= src.len(),
    ensures
        end == name_end(src@, from as int),
        from <= end <= src.len(),
{
    let mut i: usize = from;
    while i < src.len() && name_char(src[i])
        invariant
            from <= i <= src.len(),
            name_end(src@, i as int) == name_end(src@, from as int),
        decreases src.len() - i,
    {
        i += 1;
    }
    i
}

fn scan_char(src: &Vec<char>, from: usize, c: char) -> (end: usize)
    requires
        from <= src.len(),
    ensures
        end == find_char(src@, from as int, c),
        from <= end <= src.len(),
{
    let mut i: usize = from;
    while i < src.len() && src[i] != c
        invariant
            from <= i <= src.len(),
            find_char(src@, i as int, c) == find_char(src@, from as int, c),
        decreases src.len() - i,
    {
        i += 1;
    }
    i
}

fn at_open(src: &Vec<char>, at: usize) -> (b: bool)
    requires
        at <= src.len(),
    ensures
        b == opens_interpolation(src@, at as int),
{
    at < src.len() && src.len() - at > 1 && src[at] == '{' && src[at + 1] == '{'
}

fn at_close(src: &Vec<char>, at: usize) -> (b: bool)
    requires
        at <= src.len(),
    ensures
        b == closes_interpolation(src@, at as int),
{
    at < src.len() && src.len() - at > 1 && src[at] == '}' && src[at + 1] == '}'
}

fn scan_text(src: &Vec<char>, from: usize) -> (end: usize)
    requires
        from <= src.len(),
    ensures
        end == text_end(src@, from as int),
        from <= end <= src.len(),
{
    let mut i: usize = from;
    while i < src.len() && src[i] != '\n' && !at_open(src, i)
        invariant
            from <= i <= src.len(),
            text_end(src@, i as int) == text_end(src@, from as int),
        decreases src.len() - i,
    {
        i += 1;
    }
    i
}

/// What the scanner is reading.
#[derive(Clone, Copy, Debug, PartialEq, Eq, Structural)]
pub enum Mode {
    /// Tokens of an assignment or of a recipe header.
    Normal,
    /// The literal text of a body line.
    Text,
    /// Tokens between `{{` and `}}` in a body line.
    Interpolation,
}

/// Where the scanner stands.
pub struct Cursor {
    /// The index of the next character.
    pub pos: int,
    /// The line of the next character, counted from 0.
    pub line: int,
    /// The column of the next character, counted from 0.
    pub column: int,
    /// Whether the indentation of the line has still to be looked at.
    pub fresh: bool,
    pub mode: Mode,
    /// Whether the last line that was not indented is the header of a recipe.
    pub header: bool,
    /// Whether a recipe body is open.
    pub indented: bool,
    /// Where the indentation of the open recipe body starts, and its length.
    pub indent_start: int,
    pub indent_len: int,
}

/// What one step of the scanner gives.
pub enum Step {
    /// A token, and the scanner goes on.
    Emit { token: TokenView, next: Cursor },
    /// No token, and the scanner goes on.
    Skip { next: Cursor },
    /// The last token.
    Finish { token: TokenView },
    /// The source is refused.
    Fail { error: DiagnosticView },
}

/// The result of reading a string in double quotes.
pub enum Cooked {
    /// The closing quote stands at `end`, and the string's value is `text`.
    Closed { end: int, text: Seq<char> },
    /// The line or the source ends before the string does.
    Unterminated,
    /// A backslash is followed by `escape`, which names no character.
    BadEscape { escape: char },
}

/// The message for a string or a backtick that is not closed.
pub open spec fn unterminated_string_message() -> Seq<char> {
    "unterminated string"@
}

/// The message for a character that no token starts with.
pub open spec fn unknown_start_message() -> Seq<char> {
    "unknown start of token:"@
}

/// The message for an indentation that holds spaces and tabs.
pub open spec fn mixed_whitespace_message() -> Seq<char> {
    "found a mix of tabs and spaces in leading whitespace"@
}

/// The message for a body line that does not start with the indentation of
/// its body.
pub open spec fn inconsistent_whitespace_message() -> Seq<char> {
    "inconsistently used leading whitespace"@
}

/// The message for a backslash before `escape`, which names no character.
pub open spec fn bad_escape_message(escape: char) -> Seq<char> {
    "`\\"@.push(escape) + "` is not a valid escape sequence"@
}

/// The cursor at the start of a source.
pub open spec fn start_cursor() -> Cursor {
    Cursor {
        pos: 0,
        line: 0,
        column: 0,
        fresh: true,
        mode: Mode::Normal,
        header: false,
        indented: false,
        indent_start: 0,
        indent_len: 0,
    }
}

/// The line and the column reached from `place` by passing over the
/// characters from index `from` up to index `to`: a newline starts a new line
/// at column 0, any other character is one column.
pub open spec fn place_after(src: Seq<char>, from: int, to: int, place: (int, int)) -> (int, int)
    decreases to - from,
{
    if 0 <= from < to && from < src.len() {
        place_after(
            src,
            from + 1,
            to,
            if src[from] == '\n' {
                (place.0 + 1, 0)
            } else {
                (place.0, place.1 + 1)
            },
        )
    } else {
        place
    }
}

/// The value of the string in double quotes whose characters start at `at`,
/// after the value `text` of what was read of it before.
pub open spec fn cook(src: Seq<char>, at: int, text: Seq<char>) -> Cooked
    decreases src.len() - at,
{
    if !(0 <= at < src.len()) {
        Cooked::Unterminated
    } else if src[at] == '"' {
        Cooked::Closed { end: at, text }
    } else if src[at] == '\n' {
        Cooked::Unterminated
    } else if src[at] == '\\' {
        if at + 1 >= src.len() {
            Cooked::Unterminated
        } else if src[at + 1] == 'n' || src[at + 1] == '\n' {
            cook(src, at + 2, text.push('\n'))
        } else if src[at + 1] == 't' {
            cook(src, at + 2, text.push('\t'))
        } else if src[at + 1] == '"' {
            cook(src, at + 2, text.push('"'))
        } else if src[at + 1] == '\\' {
            cook(src, at + 2, text.push('\\'))
        } else {
            Cooked::BadEscape { escape: src[at + 1] }
        }
    } else {
        cook(src, at + 1, text.push(src[at]))
    }
}

/// The place with the line `line`, the column `column` and the length
/// `length`.
pub open spec fn span_of(line: int, column: int, length: int) -> Span {
    Span { line: line as usize, column: column as usize, length: length as usize }
}

/// The token of kind `kind` read from the characters from `from` up to `to`,
/// on one line, with those characters as its text.
pub open spec fn plain_token(kind: TokenKind, src: Seq<char>, from: int, to: int, c: Cursor) -> TokenView {
    TokenView {
        kind,
        text: src.subrange(from, to),
        span: span_of(c.line, c.column + (from - c.pos), to - from),
    }
}

/// The cursor after a token on one line that ends before index `to`.
pub open spec fn moved(c: Cursor, to: int) -> Cursor {
    Cursor { pos: to, column: c.column + (to - c.pos), ..c }
}

/// The cursor after the newline at index `at`.
pub open spec fn next_line(c: Cursor, at: int) -> Cursor {
    Cursor { pos: at + 1, line: c.line + 1, column: 0, fresh: true, mode: Mode::Normal, ..c }
}

/// Whether one of the characters from `from` up to `to` is `c`.
pub open spec fn holds_char(src: Seq<char>, from: int, to: int, c: char) -> bool {
    exists|i: int| from <= i < to && 0 <= i < src.len() && src[i] == c
}

/// Whether the characters from `from` up to `to` hold a space and a tab.
pub open spec fn is_mixed(src: Seq<char>, from: int, to: int) -> bool {
    holds_char(src, from, to, ' ') && holds_char(src, from, to, '\t')
}

/// Whether the line that starts at the cursor starts with the indentation of
/// the open recipe body.
pub open spec fn keeps_indent(src: Seq<char>, c: Cursor, width: int) -> bool {
    c.indent_len <= width && src.subrange(c.pos, c.pos + c.indent_len) == src.subrange(
        c.indent_start,
        c.indent_start + c.indent_len,
    )
}

/// The step at the end of the source: a recipe body that is open is closed,
/// and then the source ends.
pub open spec fn end_step(c: Cursor) -> Step {
    if c.indented {
        Step::Emit {
            token: TokenView { kind: TokenKind::Dedent, text: Seq::empty(), span: span_of(c.line, c.column, 0) },
            next: Cursor { indented: false, ..c },
        }
    } else {
        Step::Finish {
            token: TokenView { kind: TokenKind::Eof, text: Seq::empty(), span: span_of(c.line, c.column, 0) },
        }
    }
}

/// The step at the start of a line: it looks at the indentation. A line that
/// holds nothing but spaces and tabs changes nothing. The first indented line
/// after the header of a recipe opens the recipe's body, and its indentation
/// is the body's; a later line that starts with that indentation belongs to
/// the body, one that is not indented closes it, and any other is refused.
/// Elsewhere the indentation of a line says nothing, and the line is read as
/// it is.
pub open spec fn line_step(src: Seq<char>, c: Cursor) -> Step {
    let stop = blank_end(src, c.pos);
    let width = stop - c.pos;
    let normal = Cursor { fresh: false, mode: Mode::Normal, ..c };
    if stop >= src.len() || src[stop] == '\n' {
        Step::Skip { next: normal }
    } else if !c.indented {
        if width == 0 {
            Step::Skip { next: Cursor { header: false, ..normal } }
        } else if !c.header {
            Step::Skip { next: normal }
        } else if is_mixed(src, c.pos, stop) {
            Step::Fail { error: failure_at(mixed_whitespace_message(), span_of(c.line, 0, width)) }
        } else {
            Step::Emit {
                token: plain_token(TokenKind::Indent, src, c.pos, stop, c),
                next: Cursor {
                    pos: stop,
                    column: c.column + width,
                    fresh: false,
                    mode: Mode::Text,
                    indented: true,
                    indent_start: c.pos,
                    indent_len: width,
                    ..c
                },
            }
        }
    } else if width == 0 {
        Step::Emit {
            token: TokenView { kind: TokenKind::Dedent, text: Seq::empty(), span: span_of(c.line, c.column, 0) },
            next: Cursor { header: false, indented: false, ..normal },
        }
    } else if keeps_indent(src, c, width) {
        Step::Skip {
            next: Cursor {
                pos: c.pos + c.indent_len,
                column: c.column + c.indent_len,
                fresh: false,
                mode: Mode::Text,
                ..c
            },
        }
    } else {
        Step::Fail { error: failure_at(inconsistent_whitespace_message(), span_of(c.line, 0, width)) }
    }
}

/// The step inside the literal text of a body line: the text up to the next
/// `{{` or the end of the line is one token.
pub open spec fn text_step(src: Seq<char>, c: Cursor) -> Step {
    if !(0 <= c.pos < src.len()) {
        end_step(c)
    } else if src[c.pos] == '\n' {
        Step::Emit { token: plain_token(TokenKind::Eol, src, c.pos, c.pos + 1, c), next: next_line(c, c.pos) }
    } else if opens_interpolation(src, c.pos) {
        Step::Emit {
            token: plain_token(TokenKind::InterpolationStart, src, c.pos, c.pos + 2, c),
            next: Cursor { mode: Mode::Interpolation, ..moved(c, c.pos + 2) },
        }
    } else {
        let stop = text_end(src, c.pos + 1);
        Step::Emit { token: plain_token(TokenKind::Text, src, c.pos, stop, c), next: moved(c, stop) }
    }
}

/// The token for a raw string or a backtick that opens at `at` with the
/// delimiter `quote`: its text is what stands between the delimiters, which
/// may run over several lines.
pub open spec fn quoted_step(src: Seq<char>, c: Cursor, at: int, quote: char, kind: TokenKind) -> Step {
    let close = find_char(src, at + 1, quote);
    let column = c.column + (at - c.pos);
    if close >= src.len() {
        Step::Fail { error: failure_at(unterminated_string_message(), span_of(c.line, column, 1)) }
    } else {
        let place = place_after(src, at, close + 1, (c.line, column));
        Step::Emit {
            token: TokenView {
                kind,
                text: src.subrange(at + 1, close),
                span: span_of(c.line, column, close + 1 - at),
            },
            next: Cursor { pos: close + 1, line: place.0, column: place.1, ..c },
        }
    }
}

/// The token for the string in double quotes that opens at `at`.
pub open spec fn cooked_step(src: Seq<char>, c: Cursor, at: int) -> Step {
    let column = c.column + (at - c.pos);
    match cook(src, at + 1, Seq::empty()) {
        Cooked::Unterminated => Step::Fail {
            error: failure_at(unterminated_string_message(), span_of(c.line, column, 1)),
        },
        Cooked::BadEscape { escape } => Step::Fail {
            error: failure_at(bad_escape_message(escape), span_of(c.line, column, 1)),
        },
        Cooked::Closed { end, text } => {
            let place = place_after(src, at, end + 1, (c.line, column));
            Step::Emit {
                token: TokenView {
                    kind: TokenKind::StringLiteral { raw: false },
                    text,
                    span: span_of(c.line, column, end + 1 - at),
                },
                next: Cursor { pos: end + 1, line: place.0, column: place.1, ..c },
            }
        },
    }
}

/// The step where tokens are read: in an assignment, in a recipe header and
/// between `{{` and `}}`. Spaces and tabs before the token are passed over. A
/// backslash before a newline continues the line: it is passed over together
/// with the newline and the spaces and tabs that start the next line. A colon
/// outside a body makes the line the header of a recipe.
pub open spec fn token_step(src: Seq<char>, c: Cursor) -> Step {
    let at = blank_end(src, c.pos);
    let here = moved(c, at);
    if !(0 <= at < src.len()) {
        end_step(here)
    } else if src[at] == '\n' {
        Step::Emit { token: plain_token(TokenKind::Eol, src, at, at + 1, c), next: next_line(c, at) }
    } else if src[at] == '\\' && at + 1 < src.len() && src[at + 1] == '\n' {
        let stop = blank_end(src, at + 2);
        Step::Skip { next: Cursor { pos: stop, line: c.line + 1, column: stop - (at + 2), ..c } }
    } else if is_name_start(src[at]) {
        let stop = name_end(src, at + 1);
        Step::Emit { token: plain_token(TokenKind::Identifier, src, at, stop, c), next: moved(c, stop) }
    } else if src[at] == '=' {
        Step::Emit { token: plain_token(TokenKind::Equals, src, at, at + 1, c), next: moved(c, at + 1) }
    } else if src[at] == ':' {
        Step::Emit {
            token: plain_token(TokenKind::Colon, src, at, at + 1, c),
            next: Cursor { header: c.header || c.mode == Mode::Normal, ..moved(c, at + 1) },
        }
    } else if src[at] == '+' {
        Step::Emit { token: plain_token(TokenKind::Plus, src, at, at + 1, c), next: moved(c, at + 1) }
    } else if src[at] == '@' {
        Step::Emit { token: plain_token(TokenKind::At, src, at, at + 1, c), next: moved(c, at + 1) }
    } else if src[at] == '#' {
        let stop = find_char(src, at + 1, '\n');
        Step::Emit { token: plain_token(TokenKind::Comment, src, at, stop, c), next: moved(c, stop) }
    } else if src[at] == '\'' {
        quoted_step(src, c, at, '\'', TokenKind::StringLiteral { raw: true })
    } else if src[at] == '`' {
        quoted_step(src, c, at, '`', TokenKind::Backtick)
    } else if src[at] == '"' {
        cooked_step(src, c, at)
    } else if c.mode == Mode::Interpolation && closes_interpolation(src, at) {
        Step::Emit {
            token: plain_token(TokenKind::InterpolationEnd, src, at, at + 2, c),
            next: Cursor { mode: Mode::Text, ..moved(c, at + 2) },
        }
    } else {
        Step::Fail {
            error: failure_at(unknown_start_message(), span_of(c.line, c.column + (at - c.pos), 1)),
        }
    }
}

/// One step of the scanner.
pub open spec fn step(src: Seq<char>, c: Cursor) -> Step {
    if c.fresh {
        line_step(src, c)
    } else if c.mode == Mode::Text {
        text_step(src, c)
    } else {
        token_step(src, c)
    }
}

/// How much there is left to do at a position: first the indentation is
/// looked at, then an open body is closed.
pub open spec fn rank(c: Cursor) -> int {
    (if c.fresh { 2int } else { 0int }) + (if c.indented { 1int } else { 0int })
}

/// Whether the scanner has gone forward from `c` to `next`.
pub open spec fn progresses(src: Seq<char>, c: Cursor, next: Cursor) -> bool {
    &&& 0 <= next.pos <= src.len()
    &&& c.pos < next.pos || (c.pos == next.pos && rank(next) < rank(c))
}

/// The closing quote of a string stands after its opening quote and within
/// the text.
pub proof fn lemma_cook_bounds(src: Seq<char>, at: int, text: Seq<char>)
    requires
        0 <= at,
    ensures
        cook(src, at, text) matches Cooked::Closed { end, .. } ==> at <= end < src.len(),
    decreases src.len() - at,
{
    if 0 <= at < src.len() && src[at] != '"' && src[at] != '\n' {
        if src[at] == '\\' {
            if at + 1 < src.len() {
                lemma_cook_bounds(src, at + 2, text.push('\n'));
                lemma_cook_bounds(src, at + 2, text.push('\t'));
                lemma_cook_bounds(src, at + 2, text.push('"'));
                lemma_cook_bounds(src, at + 2, text.push('\\'));
            }
        } else {
            lemma_cook_bounds(src, at + 1, text.push(src[at]));
        }
    }
}

/// Every step that goes on moves the scanner forward.
pub proof fn lemma_step_progresses(src: Seq<char>, c: Cursor)
    requires
        0 <= c.pos <= src.len(),
        c.indented ==> c.indent_len > 0,
    ensures
        step(src, c) matches Step::Emit { next, .. } ==> progresses(src, c, next) && (next.indented
            ==> next.indent_len > 0),
        step(src, c) matches Step::Skip { next } ==> progresses(src, c, next) && (next.indented
            ==> next.indent_len > 0),
{
    lemma_blank_end_bounds(src, c.pos);
    let at = blank_end(src, c.pos);
    if at < src.len() {
        if at + 2 <= src.len() {
            lemma_blank_end_bounds(src, at + 2);
        }
        lemma_name_end_bounds(src, at + 1);
        lemma_find_char_bounds(src, at + 1, '\n');
        lemma_find_char_bounds(src, at + 1, '\'');
        lemma_find_char_bounds(src, at + 1, '`');
        lemma_cook_bounds(src, at + 1, Seq::empty());
    }
    if c.pos < src.len() {
        lemma_text_end_bounds(src, c.pos + 1);
    }
}

/// Whether a cursor is one that the scanner can stand at.
pub open spec fn cursor_ok(src: Seq<char>, c: Cursor) -> bool {
    &&& 0 <= c.pos <= src.len()
    &&& c.indented ==> c.indent_len > 0
}

/// The tokens of `src` from the cursor `c` on, after the tokens `done`.
pub open spec fn lex_from(src: Seq<char>, c: Cursor, done: Seq<TokenView>) -> Result<
    Seq<TokenView>,
    DiagnosticView,
>
    decreases src.len() - c.pos, rank(c),
    when cursor_ok(src, c)
{
    proof {
        lemma_step_progresses(src, c);
    }
    match step(src, c) {
        Step::Emit { token, next } => lex_from(src, next, done.push(token)),
        Step::Skip { next } => lex_from(src, next, done),
        Step::Finish { token } => Ok(done.push(token)),
        Step::Fail { error } => Err(error),
    }
}

/// The tokens of a source that is read end with the end of the source, and
/// the tokens read before stay as they are.
pub proof fn lemma_lex_from_ends(src: Seq<char>, c: Cursor, done: Seq<TokenView>)
    requires
        cursor_ok(src, c),
    ensures
        lex_from(src, c, done) matches Ok(tokens) ==> tokens.len() > done.len() && tokens.last().kind
            == TokenKind::Eof && done.is_prefix_of(tokens),
    decreases src.len() - c.pos, rank(c),
{
    lemma_step_progresses(src, c);
    match step(src, c) {
        Step::Emit { token, next } => {
            lemma_lex_from_ends(src, next, done.push(token));
            if let Ok(tokens) = lex_from(src, next, done.push(token)) {
                assert(done.is_prefix_of(done.push(token)));
            }
        },
        Step::Skip { next } => {
            lemma_lex_from_ends(src, next, done);
        },
        Step::Finish { token } => {
            assert(done.is_prefix_of(done.push(token)));
        },
        Step::Fail { error } => {},
    }
}

/// The tokens of the source text `src`, or the reason why it is refused.
pub open spec fn lex(src: Seq<char>) -> Result<Seq<TokenView>, DiagnosticView> {
    lex_from(src, start_cursor(), Seq::empty())
}

/// The line and the column of index `at` of `src`, lines and columns
/// counted from 0.
pub open spec fn place_of(src: Seq<char>, at: int) -> (int, int) {
    place_after(src, 0, at, (0, 0))
}

/// Whether the line and the column of the cursor are those of the index at
/// which it stands.
pub open spec fn placed(src: Seq<char>, c: Cursor) -> bool {
    (c.line, c.column) == place_of(src, c.pos)
}

/// The index at which the token that a step gives starts: a token of an
/// assignment, of a header or of an interpolation starts after the spaces
/// and tabs before it, any other where the cursor stands.
pub open spec fn token_start(src: Seq<char>, c: Cursor) -> int {
    if c.fresh || c.mode == Mode::Text {
        c.pos
    } else {
        blank_end(src, c.pos)
    }
}

/// Going over characters in two parts is going over them at once.
pub proof fn lemma_place_after_split(src: Seq<char>, from: int, mid: int, to: int, place: (int, int))
    requires
        0 <= from <= mid <= to <= src.len(),
    ensures
        place_after(src, from, to, place) == place_after(src, mid, to, place_after(src, from, mid, place)),
    decreases mid - from,
{
    if from < mid {
        let next = if src[from] == '\n' {
            (place.0 + 1, 0int)
        } else {
            (place.0, place.1 + 1)
        };
        lemma_place_after_split(src, from + 1, mid, to, next);
    }
}

/// Going over one character: a newline starts a line, any other is a column.
pub proof fn lemma_place_after_one(src: Seq<char>, at: int, place: (int, int))
    requires
        0 <= at < src.len(),
    ensures
        place_after(src, at, at + 1, place) == (if src[at] == '\n' {
            (place.0 + 1, 0int)
        } else {
            (place.0, place.1 + 1)
        }),
{
    let next = if src[at] == '\n' {
        (place.0 + 1, 0int)
    } else {
        (place.0, place.1 + 1)
    };
    assert(place_after(src, at + 1, at + 1, next) == next);
}

/// Characters that are no newlines are columns of one line.
pub proof fn lemma_place_after_line(src: Seq<char>, from: int, to: int, place: (int, int))
    requires
        0 <= from <= to <= src.len(),
        forall|i: int| from <= i < to ==> src[i] != '\n',
    ensures
        place_after(src, from, to, place) == (place.0, place.1 + (to - from)),
    decreases to - from,
{
    if from < to {
        lemma_place_after_line(src, from + 1, to, (place.0, place.1 + 1));
    }
}

/// Going over characters, the line and the column grow by no more than the
/// number of the characters, and neither goes below 0.
pub proof fn lemma_place_after_bounds(src: Seq<char>, from: int, to: int, place: (int, int))
    requires
        0 <= place.0,
        0 <= place.1,
        from <= to,
    ensures
        place.0 <= place_after(src, from, to, place).0 <= place.0 + (to - from),
        0 <= place_after(src, from, to, place).1 <= place.1 + (to - from),
    decreases to - from,
{
    if 0 <= from < to && from < src.len() {
        if src[from] == '\n' {
            lemma_place_after_bounds(src, from + 1, to, (place.0 + 1, 0));
        } else {
            lemma_place_after_bounds(src, from + 1, to, (place.0, place.1 + 1));
        }
    }
}

/// Up to where a run of spaces and tabs ends there are only spaces and tabs.
pub proof fn lemma_blank_run(src: Seq<char>, from: int)
    requires
        0 <= from <= src.len(),
    ensures
        forall|i: int| from <= i < blank_end(src, from) ==> is_blank(#[trigger] src[i]),
    decreases src.len() - from,
{
    if from < src.len() && is_blank(src[from]) {
        lemma_blank_run(src, from + 1);
    }
}

/// Up to where a name ends there are only characters of a name.
pub proof fn lemma_name_run(src: Seq<char>, from: int)
    requires
        0 <= from <= src.len(),
    ensures
        forall|i: int| from <= i < name_end(src, from) ==> is_name_char(#[trigger] src[i]),
    decreases src.len() - from,
{
    if from < src.len() && is_name_char(src[from]) {
        lemma_name_run(src, from + 1);
    }
}

/// Before the place where a character is found it does not occur.
pub proof fn lemma_find_char_run(src: Seq<char>, from: int, c: char)
    requires
        0 <= from <= src.len(),
    ensures
        forall|i: int| from <= i < find_char(src, from, c) ==> #[trigger] src[i] != c,
    decreases src.len() - from,
{
    if from < src.len() && src[from] != c {
        lemma_find_char_run(src, from + 1, c);
    }
}

/// A literal text holds no newline.
pub proof fn lemma_text_run(src: Seq<char>, from: int)
    requires
        0 <= from <= src.len(),
    ensures
        forall|i: int| from <= i < text_end(src, from) ==> #[trigger] src[i] != '\n',
    decreases src.len() - from,
{
    if from < src.len() && src[from] != '\n' && !opens_interpolation(src, from) {
        lemma_text_run(src, from + 1);
    }
}

/// The place of an index that is reached from `from` over characters that
/// are no newlines.
pub proof fn lemma_place_on_line(src: Seq<char>, from: int, to: int)
    requires
        0 <= from <= to <= src.len(),
        forall|i: int| from <= i < to ==> src[i] != '\n',
    ensures
        place_of(src, to) == (place_of(src, from).0, place_of(src, from).1 + (to - from)),
{
    lemma_place_after_split(src, 0, from, to, (0, 0));
    lemma_place_after_line(src, from, to, place_of(src, from));
}

/// The scanner keeps track of the place: after a step the line and the
/// column of the cursor are again those of the index at which it stands, and
/// the line and the column of a token are those of the index at which the
/// token starts.
pub proof fn lemma_step_keeps_place(src: Seq<char>, c: Cursor)
    requires
        cursor_ok(src, c),
        placed(src, c),
        src.len() <= usize::MAX,
    ensures
        step(src, c) matches Step::Emit { next, .. } ==> placed(src, next),
        step(src, c) matches Step::Skip { next } ==> placed(src, next),
        step(src, c) matches Step::Emit { token, .. } ==> (token.span.line as int, token.span.column as int)
            == place_of(src, token_start(src, c)),
        step(src, c) matches Step::Finish { token } ==> (token.span.line as int, token.span.column as int)
            == place_of(src, token_start(src, c)),
{
    lemma_place_after_bounds(src, 0, c.pos, (0, 0));
    lemma_blank_end_bounds(src, c.pos);
    lemma_blank_run(src, c.pos);
    let at = blank_end(src, c.pos);
    lemma_place_on_line(src, c.pos, at);
    lemma_place_after_bounds(src, 0, at, (0, 0));
    if c.fresh {
        if c.indented && c.pos + c.indent_len <= at {
            lemma_place_on_line(src, c.pos, c.pos + c.indent_len);
        }
    } else if c.mode == Mode::Text {
        if c.pos < src.len() {
            if src[c.pos] == '\n' {
                lemma_place_after_split(src, 0, c.pos, c.pos + 1, (0, 0));
                lemma_place_after_one(src, c.pos, place_of(src, c.pos));
            } else if opens_interpolation(src, c.pos) {
                lemma_place_on_line(src, c.pos, c.pos + 2);
            } else {
                lemma_text_end_bounds(src, c.pos + 1);
                lemma_text_run(src, c.pos + 1);
                lemma_place_on_line(src, c.pos, text_end(src, c.pos + 1));
            }
        }
    } else if at < src.len() {
        if src[at] == '\n' {
            lemma_place_after_split(src, 0, at, at + 1, (0, 0));
            lemma_place_after_one(src, at, place_of(src, at));
        } else if src[at] == '\\' && at + 1 < src.len() && src[at + 1] == '\n' {
            lemma_place_after_split(src, 0, at, at + 1, (0, 0));
            lemma_place_after_one(src, at, place_of(src, at));
            lemma_place_after_split(src, 0, at + 1, at + 2, (0, 0));
            lemma_place_after_one(src, at + 1, place_of(src, at + 1));
            lemma_blank_end_bounds(src, at + 2);
            lemma_blank_run(src, at + 2);
            lemma_place_on_line(src, at + 2, blank_end(src, at + 2));
        } else if is_name_start(src[at]) {
            lemma_name_end_bounds(src, at + 1);
            lemma_name_run(src, at + 1);
            lemma_place_on_line(src, at, name_end(src, at + 1));
        } else if src[at] == '#' {
            lemma_find_char_bounds(src, at + 1, '\n');
            lemma_find_char_run(src, at + 1, '\n');
            lemma_place_on_line(src, at, find_char(src, at + 1, '\n'));
        } else if src[at] == '\'' || src[at] == '`' {
            lemma_find_char_bounds(src, at + 1, src[at]);
            let close = find_char(src, at + 1, src[at]);
            if close < src.len() {
                lemma_place_after_split(src, 0, at, close + 1, (0, 0));
            }
        } else if src[at] == '"' {
            lemma_cook_bounds(src, at + 1, Seq::empty());
            if let Cooked::Closed { end, .. } = cook(src, at + 1, Seq::empty()) {
                lemma_place_after_split(src, 0, at, end + 1, (0, 0));
            }
        } else if at + 1 < src.len() {
            lemma_place_on_line(src, at, at + 1);
            if src[at + 1] != '\n' {
                lemma_place_on_line(src, at, at + 2);
            }
        } else {
            lemma_place_on_line(src, at, at + 1);
        }
    }
}

/// Where the scanner stands, as the scanner holds it.
#[derive(Clone, Copy)]
pub struct Scanner {
    pub pos: usize,
    pub line: usize,
    pub column: usize,
    pub fresh: bool,
    pub mode: Mode,
    pub header: bool,
    pub indented: bool,
    pub indent_start: usize,
    pub indent_len: usize,
}

impl View for Scanner {
    type V = Cursor;

    open spec fn view(&self) -> Cursor {
        Cursor {
            pos: self.pos as int,
            line: self.line as int,
            column: self.column as int,
            fresh: self.fresh,
            mode: self.mode,
            header: self.header,
            indented: self.indented,
            indent_start: self.indent_start as int,
            indent_len: self.indent_len as int,
        }
    }
}

/// Whether `s` is a state that the scanner can be in on `src`.
pub open spec fn scanner_ok(src: Seq<char>, s: Scanner) -> bool {
    &&& s.pos <= src.len()
    &&& s.line <= s.pos
    &&& s.column <= s.pos
    &&& s.indented ==> s.indent_len > 0 && s.indent_start + s.indent_len <= s.pos
}

/// The result of one step, as the scanner holds it.
pub enum Scanned {
    Emit { token: Token, next: Scanner },
    Skip { next: Scanner },
    Finish { token: Token },
    Fail { error: Diagnostic },
}

impl View for Scanned {
    type V = Step;

    open spec fn view(&self) -> Step {
        match *self {
            Scanned::Emit { token, next } => Step::Emit { token: token@, next: next@ },
            Scanned::Skip { next } => Step::Skip { next: next@ },
            Scanned::Finish { token } => Step::Finish { token: token@ },
            Scanned::Fail { error } => Step::Fail { error: error@ },
        }
    }
}

fn walk(src: &Vec<char>, from: usize, to: usize, line: usize, column: usize) -> (place: (usize, usize))
    requires
        from <= to <= src.len(),
        line <= from,
        column <= from,
    ensures
        (place.0 as int, place.1 as int) == place_after(
            src@,
            from as int,
            to as int,
            (line as int, column as int),
        ),
        place.0 <= to,
        place.1 <= to,
{
    let mut i: usize = from;
    let mut l: usize = line;
    let mut c: usize = column;
    while i < to
        invariant
            from <= i <= to <= src.len(),
            l <= i,
            c <= i,
            place_after(src@, i as int, to as int, (l as int, c as int)) == place_after(
                src@,
                from as int,
                to as int,
                (line as int, column as int),
            ),
        decreases to - i,
    {
        if src[i] == '\n' {
            l += 1;
            c = 0;
        } else {
            c += 1;
        }
        i += 1;
    }
    (l, c)
}

/// The result of reading a string in double quotes, as the scanner holds it.
pub enum CookedText {
    Closed { end: usize, text: String },
    Unterminated,
    BadEscape { escape: char },
}

impl View for CookedText {
    type V = Cooked;

    open spec fn view(&self) -> Cooked {
        match *self {
            CookedText::Closed { end, text } => Cooked::Closed { end: end as int, text: text@ },
            CookedText::Unterminated => Cooked::Unterminated,
            CookedText::BadEscape { escape } => Cooked::BadEscape { escape },
        }
    }
}

fn cook_string(src: &Vec<char>, from: usize) -> (r: CookedText)
    requires
        from <= src.len(),
    ensures
        r@ == cook(src@, from as int, Seq::empty()),
        r matches CookedText::Closed { end, .. } ==> from <= end < src.len(),
{
    let mut text = String::new();
    let mut i: usize = from;
    loop
        invariant
            from <= i <= src.len(),
            cook(src@, i as int, text@) == cook(src@, from as int, Seq::empty()),
        decreases src.len() - i,
    {
        if i >= src.len() {
            return CookedText::Unterminated;
        }
        let c = src[i];
        if c == '"' {
            return CookedText::Closed { end: i, text };
        } else if c == '\n' {
            return CookedText::Unterminated;
        } else if c == '\\' {
            if src.len() - i < 2 {
                return CookedText::Unterminated;
            }
            let e = src[i + 1];
            if e == 'n' || e == '\n' {
                text.push('\n');
            } else if e == 't' {
                text.push('\t');
            } else if e == '"' {
                text.push('"');
            } else if e == '\\' {
                text.push('\\');
            } else {
                return CookedText::BadEscape { escape: e };
            }
            i += 2;
        } else {
            text.push(c);
            i += 1;
        }
    }
}

fn holds(src: &Vec<char>, from: usize, to: usize, c: char) -> (b: bool)
    requires
        from <= to <= src.len(),
    ensures
        b == holds_char(src@, from as int, to as int, c),
{
    let mut i: usize = from;
    while i < to
        invariant
            from <= i <= to <= src.len(),
            !holds_char(src@, from as int, i as int, c),
        decreases to - i,
    {
        if src[i] == c {
            return true;
        }
        i += 1;
    }
    false
}

fn same_indent(src: &Vec<char>, s: Scanner, width: usize) -> (b: bool)
    requires
        scanner_ok(src@, s),
        s.indented,
        s.pos + width <= src.len(),
    ensures
        b == keeps_indent(src@, s@, width as int),
{
    if s.indent_len > width {
        return false;
    }
    let ghost here = src@.subrange(s.pos as int, s.pos + s.indent_len);
    let ghost there = src@.subrange(s.indent_start as int, s.indent_start + s.indent_len);
    let mut k: usize = 0;
    while k < s.indent_len
        invariant
            k <= s.indent_len <= width,
            scanner_ok(src@, s),
            s.indented,
            s.pos + width <= src.len(),
            here == src@.subrange(s.pos as int, s.pos + s.indent_len),
            there == src@.subrange(s.indent_start as int, s.indent_start + s.indent_len),
            forall|j: int| 0 <= j < k ==> here[j] == there[j],
        decreases s.indent_len - k,
    {
        if src[s.pos + k] != src[s.indent_start + k] {
            assert(here[k as int] != there[k as int]);
            return false;
        }
        k += 1;
    }
    assert(here =~= there);
    true
}

fn make_token(kind: TokenKind, src: &Vec<char>, from: usize, to: usize, s: Scanner) -> (t: Token)
    requires
        scanner_ok(src@, s),
        s.pos <= from <= to <= src.len(),
    ensures
        t@ == plain_token(kind, src@, from as int, to as int, s@),
{
    Token {
        kind,
        text: string_of_range(src, from, to),
        span: Span { line: s.line, column: s.column + (from - s.pos), length: to - from },
    }
}

fn empty_token(kind: TokenKind, s: Scanner) -> (t: Token)
    ensures
        t@ == (TokenView { kind, text: Seq::empty(), span: span_of(s@.line, s@.column, 0) }),
{
    Token { kind, text: String::new(), span: Span { line: s.line, column: s.column, length: 0 } }
}

fn go(s: Scanner, to: usize) -> (next: Scanner)
    requires
        s.column <= s.pos <= to,
    ensures
        next@ == moved(s@, to as int),
        next.pos == to,
        next.line == s.line,
        next.column <= to,
        next.indented == s.indented,
        next.indent_start == s.indent_start,
        next.indent_len == s.indent_len,
{
    Scanner { pos: to, column: s.column + (to - s.pos), ..s }
}

fn newline(s: Scanner, at: usize) -> (next: Scanner)
    requires
        s.line <= s.pos <= at,
        at < usize::MAX,
    ensures
        next@ == next_line(s@, at as int),
        next.pos == at + 1,
        next.line <= at + 1,
        next.column == 0,
        next.indented == s.indented,
        next.indent_start == s.indent_start,
        next.indent_len == s.indent_len,
{
    Scanner { pos: at + 1, line: s.line + 1, column: 0, fresh: true, mode: Mode::Normal, ..s }
}

fn scan_end(s: Scanner) -> (r: Scanned)
    ensures
        r@ == end_step(s@),
        r matches Scanned::Emit { next, .. } ==> next.pos == s.pos && next.line == s.line
            && next.column == s.column && !next.indented,
        r matches Scanned::Skip { next } ==> false,
{
    if s.indented {
        Scanned::Emit { token: empty_token(TokenKind::Dedent, s), next: Scanner { indented: false, ..s } }
    } else {
        Scanned::Finish { token: empty_token(TokenKind::Eof, s) }
    }
}

fn scan_line(src: &Vec<char>, s: Scanner) -> (r: Scanned)
    requires
        scanner_ok(src@, s),
    ensures
        r@ == line_step(src@, s@),
        r matches Scanned::Emit { next, .. } ==> scanner_ok(src@, next),
        r matches Scanned::Skip { next } ==> scanner_ok(src@, next),
{
    let stop = scan_blank(src, s.pos);
    let width = stop - s.pos;
    let normal = Scanner { fresh: false, mode: Mode::Normal, ..s };
    if stop >= src.len() || src[stop] == '\n' {
        Scanned::Skip { next: normal }
    } else if !s.indented {
        if width == 0 {
            Scanned::Skip { next: Scanner { header: false, ..normal } }
        } else if !s.header {
            Scanned::Skip { next: normal }
        } else if holds(src, s.pos, stop, ' ') && holds(src, s.pos, stop, '\t') {
            Scanned::Fail {
                error: Diagnostic::fixed(
                    "found a mix of tabs and spaces in leading whitespace",
                    Span { line: s.line, column: 0, length: width },
                ),
            }
        } else {
            Scanned::Emit {
                token: make_token(TokenKind::Indent, src, s.pos, stop, s),
                next: Scanner {
                    pos: stop,
                    column: s.column + width,
                    fresh: false,
                    mode: Mode::Text,
                    indented: true,
                    indent_start: s.pos,
                    indent_len: width,
                    ..s
                },
            }
        }
    } else if width == 0 {
        Scanned::Emit {
            token: empty_token(TokenKind::Dedent, s),
            next: Scanner { header: false, indented: false, ..normal },
        }
    } else if same_indent(src, s, width) {
        Scanned::Skip {
            next: Scanner {
                pos: s.pos + s.indent_len,
                column: s.column + s.indent_len,
                fresh: false,
                mode: Mode::Text,
                ..s
            },
        }
    } else {
        Scanned::Fail {
            error: Diagnostic::fixed(
                "inconsistently used leading whitespace",
                Span { line: s.line, column: 0, length: width },
            ),
        }
    }
}

fn scan_body(src: &Vec<char>, s: Scanner) -> (r: Scanned)
    requires
        scanner_ok(src@, s),
    ensures
        r@ == text_step(src@, s@),
        r matches Scanned::Emit { next, .. } ==> scanner_ok(src@, next),
        r matches Scanned::Skip { next } ==> scanner_ok(src@, next),
{
    if s.pos >= src.len() {
        scan_end(s)
    } else if src[s.pos] == '\n' {
        Scanned::Emit { token: make_token(TokenKind::Eol, src, s.pos, s.pos + 1, s), next: newline(s, s.pos) }
    } else if at_open(src, s.pos) {
        Scanned::Emit {
            token: make_token(TokenKind::InterpolationStart, src, s.pos, s.pos + 2, s),
            next: Scanner { mode: Mode::Interpolation, ..go(s, s.pos + 2) },
        }
    } else {
        let stop = scan_text(src, s.pos + 1);
        Scanned::Emit { token: make_token(TokenKind::Text, src, s.pos, stop, s), next: go(s, stop) }
    }
}

fn scan_quoted(src: &Vec<char>, s: Scanner, at: usize, quote: char, kind: TokenKind) -> (r: Scanned)
    requires
        scanner_ok(src@, s),
        s.pos <= at < src.len(),
    ensures
        r@ == quoted_step(src@, s@, at as int, quote, kind),
        r matches Scanned::Emit { next, .. } ==> scanner_ok(src@, next),
        r matches Scanned::Skip { next } ==> false,
{
    let close = scan_char(src, at + 1, quote);
    let column = s.column + (at - s.pos);
    if close >= src.len() {
        Scanned::Fail {
            error: Diagnostic::fixed("unterminated string", Span { line: s.line, column, length: 1 }),
        }
    } else {
        let place = walk(src, at, close + 1, s.line, column);
        Scanned::Emit {
            token: Token {
                kind,
                text: string_of_range(src, at + 1, close),
                span: Span { line: s.line, column, length: close + 1 - at },
            },
            next: Scanner { pos: close + 1, line: place.0, column: place.1, ..s },
        }
    }
}

fn bad_escape(escape: char) -> (message: String)
    ensures
        message@ == bad_escape_message(escape),
{
    let mut message = String::from_str("`\\");
    message.push(escape);
    message.append("` is not a valid escape sequence");
    message
}

fn scan_cooked(src: &Vec<char>, s: Scanner, at: usize) -> (r: Scanned)
    requires
        scanner_ok(src@, s),
        s.pos <= at < src.len(),
    ensures
        r@ == cooked_step(src@, s@, at as int),
        r matches Scanned::Emit { next, .. } ==> scanner_ok(src@, next),
        r matches Scanned::Skip { next } ==> false,
{
    let column = s.column + (at - s.pos);
    match cook_string(src, at + 1) {
        CookedText::Unterminated => Scanned::Fail {
            error: Diagnostic::fixed("unterminated string", Span { line: s.line, column, length: 1 }),
        },
        CookedText::BadEscape { escape } => Scanned::Fail {
            error: Diagnostic::at(bad_escape(escape), Span { line: s.line, column, length: 1 }),
        },
        CookedText::Closed { end, text } => {
            let place = walk(src, at, end + 1, s.line, column);
            Scanned::Emit {
                token: Token {
                    kind: TokenKind::StringLiteral { raw: false },
                    text,
                    span: Span { line: s.line, column, length: end + 1 - at },
                },
                next: Scanner { pos: end + 1, line: place.0, column: place.1, ..s },
            }
        },
    }
}

fn scan_token(src: &Vec<char>, s: Scanner) -> (r: Scanned)
    requires
        scanner_ok(src@, s),
    ensures
        r@ == token_step(src@, s@),
        r matches Scanned::Emit { next, .. } ==> scanner_ok(src@, next),
        r matches Scanned::Skip { next } ==> scanner_ok(src@, next),
{
    let at = scan_blank(src, s.pos);
    if at >= src.len() {
        return scan_end(go(s, at));
    }
    let c = src[at];
    if c == '\n' {
        Scanned::Emit { token: make_token(TokenKind::Eol, src, at, at + 1, s), next: newline(s, at) }
    } else if c == '\\' && src.len() - at > 1 && src[at + 1] == '\n' {
        let stop = scan_blank(src, at + 2);
        Scanned::Skip { next: Scanner { pos: stop, line: s.line + 1, column: stop - (at + 2), ..s } }
    } else if name_start(c) {
        let stop = scan_name(src, at + 1);
        Scanned::Emit { token: make_token(TokenKind::Identifier, src, at, stop, s), next: go(s, stop) }
    } else if c == '=' {
        Scanned::Emit { token: make_token(TokenKind::Equals, src, at, at + 1, s), next: go(s, at + 1) }
    } else if c == ':' {
        Scanned::Emit {
            token: make_token(TokenKind::Colon, src, at, at + 1, s),
            next: Scanner { header: s.header || s.mode == Mode::Normal, ..go(s, at + 1) },
        }
    } else if c == '+' {
        Scanned::Emit { token: make_token(TokenKind::Plus, src, at, at + 1, s), next: go(s, at + 1) }
    } else if c == '@' {
        Scanned::Emit { token: make_token(TokenKind::At, src, at, at + 1, s), next: go(s, at + 1) }
    } else if c == '#' {
        let stop = scan_char(src, at + 1, '\n');
        Scanned::Emit { token: make_token(TokenKind::Comment, src, at, stop, s), next: go(s, stop) }
    } else if c == '\'' {
        scan_quoted(src, s, at, '\'', TokenKind::StringLiteral { raw: true })
    } else if c == '`' {
        scan_quoted(src, s, at, '`', TokenKind::Backtick)
    } else if c == '"' {
        scan_cooked(src, s, at)
    } else if s.mode == Mode::Interpolation && at_close(src, at) {
        Scanned::Emit {
            token: make_token(TokenKind::InterpolationEnd, src, at, at + 2, s),
            next: Scanner { mode: Mode::Text, ..go(s, at + 2) },
        }
    } else {
        Scanned::Fail {
            error: Diagnostic::fixed(
                "unknown start of token:",
                Span { line: s.line, column: s.column + (at - s.pos), length: 1 },
            ),
        }
    }
}

fn scan(src: &Vec<char>, s: Scanner) -> (r: Scanned)
    requires
        scanner_ok(src@, s),
    ensures
        r@ == step(src@, s@),
        r matches Scanned::Emit { next, .. } ==> scanner_ok(src@, next),
        r matches Scanned::Skip { next } ==> scanner_ok(src@, next),
{
    if s.fresh {
        scan_line(src, s)
    } else if s.mode == Mode::Text {
        scan_body(src, s)
    } else {
        scan_token(src, s)
    }
}

/// Reads the source text into tokens.
///
/// The result is `lex` of the text: the tokens in the order in which they
/// stand, each with its place, the last of them `Eof`; or the first failure.
pub fn tokenize(source: &str) -> (r: Result<Vec<Token>, Diagnostic>)
    ensures
        match r {
            Ok(tokens) => lex(source@) == Ok::<Seq<TokenView>, DiagnosticView>(token_views(tokens@))
                && tokens.len() > 0 && tokens@.last().kind == TokenKind::Eof,
            Err(error) => lex(source@) == Err::<Seq<TokenView>, DiagnosticView>(error@),
        },
{
    proof {
        lemma_lex_from_ends(source@, start_cursor(), Seq::empty());
    }
    let src = chars_of(source);
    let mut tokens: Vec<Token> = Vec::new();
    let mut s = Scanner {
        pos: 0,
        line: 0,
        column: 0,
        fresh: true,
        mode: Mode::Normal,
        header: false,
        indented: false,
        indent_start: 0,
        indent_len: 0,
    };
    assert(token_views(tokens@) =~= Seq::empty());
    loop
        invariant
            src@ == source@,
            scanner_ok(src@, s),
            lex(source@) matches Ok(all) ==> all.len() > 0 && all.last().kind == TokenKind::Eof,
            lex_from(src@, s@, token_views(tokens@)) == lex(source@),
        decreases src.len() - s.pos, rank(s@),
    {
        proof {
            lemma_step_progresses(src@, s@);
        }
        let ghost before = token_views(tokens@);
        match scan(&src, s) {
            Scanned::Emit { token, next } => {
                tokens.push(token);
                assert(token_views(tokens@) =~= before.push(token@));
                s = next;
            },
            Scanned::Skip { next } => {
                s = next;
            },
            Scanned::Finish { token } => {
                tokens.push(token);
                assert(token_views(tokens@) =~= before.push(token@));
                return Ok(tokens);
            },
            Scanned::Fail { error } => {
                return Err(error);
            },
        }
    }
}

} // verus!
