//! Diagnostic reports: a header naming the place of a problem, followed by the
//! source line with its neighbours and a pointer under the column.
use vstd::prelude::*;
use crate::compiler::lexer::Span;
use crate::text::{
    decimal, nth_line, nth_line_spec, push_char, push_decimal, push_spaces, push_str, spaces,
    text_lines, to_chars, usize_to_string,
};

verus! {

/// The terminal code that ends any styling: `ESC [0m`.
pub open spec fn reset_code() -> Seq<char> {
    seq!['\x1b', '[', '0', 'm']
}

/// The terminal code for dim text: `ESC [2m`.
pub open spec fn dim_code() -> Seq<char> {
    seq!['\x1b', '[', '2', 'm']
}

/// The terminal code for bold text: `ESC [1m`.
pub open spec fn bold_code() -> Seq<char> {
    seq!['\x1b', '[', '1', 'm']
}

/// The terminal code for cyan text: `ESC [36m`.
pub open spec fn cyan_code() -> Seq<char> {
    seq!['\x1b', '[', '3', '6', 'm']
}

/// The terminal code for red text: `ESC [31m`.
pub open spec fn red_code() -> Seq<char> {
    seq!['\x1b', '[', '3', '1', 'm']
}

/// The terminal code for yellow text: `ESC [33m`.
pub open spec fn yellow_code() -> Seq<char> {
    seq!['\x1b', '[', '3', '3', 'm']
}

/// `text` right-aligned in a field of `width` characters.
pub open spec fn pad_left(text: Seq<char>, width: nat) -> Seq<char> {
    if text.len() < width {
        spaces((width - text.len()) as nat) + text
    } else {
        text
    }
}

/// The index among the source's lines of line number `line` (lines count
/// from 1; 0 is taken as 1).
pub open spec fn line_index(line: nat) -> int {
    if line == 0 {
        0
    } else {
        line - 1
    }
}

/// The opening of a diagnostic: `\n{bold}{color}[{level}]{reset} `.
pub open spec fn level_tag(level: Seq<char>, color: Seq<char>) -> Seq<char> {
    seq!['\n'] + bold_code() + color + seq!['['] + level + seq![']'] + reset_code() + seq![' ']
}

/// The place of a diagnostic: `{bold}→ {cyan}{file}:{line}:{col}{reset}`.
pub open spec fn location_text(file: Seq<char>, span: Span) -> Seq<char> {
    bold_code() + seq!['→', ' '] + cyan_code() + file + seq![':'] + decimal(span.line as nat)
        + seq![':'] + decimal(span.col as nat) + reset_code()
}

/// The first line of a diagnostic:
/// `\n{bold}{color}[{level}]{reset} {bold}→ {cyan}{file}:{line}:{col}{reset} {dim}|{reset} {message}\n`.
pub open spec fn header_text(
    file: Seq<char>,
    level: Seq<char>,
    color: Seq<char>,
    span: Span,
    message: Seq<char>,
) -> Seq<char> {
    level_tag(level, color) + location_text(file, span) + seq![' '] + dim_code() + seq!['|']
        + reset_code() + seq![' '] + message + seq!['\n']
}

/// A neighbouring source line: `  {dim}{n:>width} │{reset} {text}\n`.
pub open spec fn context_line(n: nat, width: nat, text: Seq<char>) -> Seq<char> {
    seq![' ', ' '] + dim_code() + pad_left(decimal(n), width) + seq![' ', '│'] + reset_code()
        + seq![' '] + text + seq!['\n']
}

/// The line of the problem: `  {bold}{n}{reset} {dim}│{reset} {text}\n`.
pub open spec fn focus_line(n: nat, text: Seq<char>) -> Seq<char> {
    seq![' ', ' '] + bold_code() + decimal(n) + reset_code() + seq![' '] + dim_code() + seq!['│']
        + reset_code() + seq![' '] + text + seq!['\n']
}

/// The pointer line: `  {padding} {dim}│{reset} {spaces}{color}^{reset}\n`, with
/// the caret under column `col` (columns count from 1; 0 is taken as 1).
pub open spec fn pointer_line(width: nat, col: nat, color: Seq<char>) -> Seq<char> {
    seq![' ', ' '] + spaces(width) + seq![' '] + dim_code() + seq!['│'] + reset_code() + seq![' ']
        + spaces(if col > 0 { (col - 1) as nat } else { 0 }) + color + seq!['^'] + reset_code()
        + seq!['\n']
}

/// The source excerpt under the header: nothing if the line does not exist;
/// otherwise the line before it (if there is one and the line number is above
/// 1), the line itself, the pointer, and the line after it (if any).
pub open spec fn snippet_text(src: Seq<char>, span: Span, color: Seq<char>) -> Seq<char> {
    let line = span.line as nat;
    match nth_line_spec(src, line_index(line)) {
        None => seq![],
        Some(text) => {
            let width = decimal(line).len();
            let before = if line > 1 {
                match nth_line_spec(src, line_index((line - 1) as nat)) {
                    Some(prev) => context_line((line - 1) as nat, width, prev),
                    None => seq![],
                }
            } else {
                seq![]
            };
            let after = match nth_line_spec(src, line_index(line + 1)) {
                Some(next) => context_line(line + 1, width, next),
                None => seq![],
            };
            before + focus_line(line, text) + pointer_line(width, span.col as nat, color) + after
        },
    }
}

/// A whole diagnostic: the header, then the source excerpt.
pub open spec fn diagnostic_text(
    src: Seq<char>,
    file: Seq<char>,
    level: Seq<char>,
    color: Seq<char>,
    span: Span,
    message: Seq<char>,
) -> Seq<char> {
    header_text(file, level, color, span, message) + snippet_text(src, span, color)
}

/// The level name of errors.
pub open spec fn error_level() -> Seq<char> {
    seq!['E', 'r', 'r', 'o', 'r']
}

/// The level name of warnings.
pub open spec fn warning_level() -> Seq<char> {
    seq!['W', 'a', 'r', 'n', 'i', 'n', 'g']
}

/// The diagnostics of the first `errors.len()` errors, one after another.
pub open spec fn error_reports(src: Seq<char>, file: Seq<char>, errors: Seq<(Span, Seq<char>)>) -> Seq<char>
    decreases errors.len(),
{
    if errors.len() == 0 {
        seq![]
    } else {
        error_reports(src, file, errors.drop_last()) + diagnostic_text(
            src,
            file,
            error_level(),
            red_code(),
            errors.last().0,
            errors.last().1,
        )
    }
}

/// The closing summary: `\n{bold}{red}✗ {n} error(s) found{reset}\n`.
pub open spec fn summary_text(n: nat) -> Seq<char> {
    seq!['\n'] + bold_code() + red_code() + seq!['✗', ' '] + decimal(n) + seq![
        ' ',
        'e',
        'r',
        'r',
        'o',
        'r',
        '(',
        's',
        ')',
        ' ',
        'f',
        'o',
        'u',
        'n',
        'd',
    ] + reset_code() + seq!['\n']
}

/// The rest of a diagnostic's first line after the level tag.
pub open spec fn header_rest(file: Seq<char>, span: Span, message: Seq<char>) -> Seq<char> {
    location_text(file, span) + seq![' '] + dim_code() + seq!['|'] + reset_code() + seq![' '] + message + seq!['\n']
}

/// The source excerpt up to the colour code of the caret.
pub open spec fn before_caret(src: Seq<char>, span: Span) -> Seq<char> {
    let line = span.line as nat;
    let text = nth_line_spec(src, line_index(line)).unwrap();
    let width = decimal(line).len();
    let before = if line > 1 {
        match nth_line_spec(src, line_index((line - 1) as nat)) {
            Some(prev) => context_line((line - 1) as nat, width, prev),
            None => seq![],
        }
    } else {
        seq![]
    };
    before + focus_line(line, text) + seq![' ', ' '] + spaces(width) + seq![' '] + dim_code() + seq!['│']
        + reset_code() + seq![' '] + spaces(if span.col > 0 { (span.col - 1) as nat } else { 0 })
}

/// The source excerpt after the colour code of the caret.
pub open spec fn after_caret(src: Seq<char>, span: Span) -> Seq<char> {
    let line = span.line as nat;
    let width = decimal(line).len();
    let after = match nth_line_spec(src, line_index(line + 1)) {
        Some(next) => context_line(line + 1, width, next),
        None => seq![],
    };
    seq!['^'] + reset_code() + seq!['\n'] + after
}

proof fn lemma_pointer_parts(width: nat, col: nat, color: Seq<char>)
    ensures
        pointer_line(width, col, color) == (seq![' ', ' '] + spaces(width) + seq![' '] + dim_code() + seq!['│']
            + reset_code() + seq![' '] + spaces(if col > 0 { (col - 1) as nat } else { 0 })) + color
            + (seq!['^'] + reset_code() + seq!['\n']),
{
    let a = seq![' ', ' '] + spaces(width) + seq![' '] + dim_code() + seq!['│'] + reset_code() + seq![' ']
        + spaces(if col > 0 { (col - 1) as nat } else { 0 });
    let b = seq!['^'] + reset_code() + seq!['\n'];
    assert(pointer_line(width, col, color) =~= a + color + b);
}

#[verifier::spinoff_prover]
#[verifier::rlimit(50)]
proof fn lemma_snippet_parts(src: Seq<char>, span: Span, color: Seq<char>)
    requires
        nth_line_spec(src, line_index(span.line as nat)) is Some,
    ensures
        snippet_text(src, span, color) == before_caret(src, span) + color + after_caret(src, span),
{
    let line = span.line as nat;
    let width = decimal(line).len();
    let col = span.col as nat;
    lemma_pointer_parts(width, col, color);
    let text = nth_line_spec(src, line_index(line)).unwrap();
    let before = if line > 1 {
        match nth_line_spec(src, line_index((line - 1) as nat)) {
            Some(prev) => context_line((line - 1) as nat, width, prev),
            None => seq![],
        }
    } else {
        seq![]
    };
    let after = match nth_line_spec(src, line_index(line + 1)) {
        Some(next) => context_line(line + 1, width, next),
        None => seq![],
    };
    let a = seq![' ', ' '] + spaces(width) + seq![' '] + dim_code() + seq!['│'] + reset_code() + seq![' ']
        + spaces(if col > 0 { (col - 1) as nat } else { 0 });
    let b = seq!['^'] + reset_code() + seq!['\n'];
    let f = before + focus_line(line, text);
    assert(snippet_text(src, span, color) == f + pointer_line(width, col, color) + after);
    assert(before_caret(src, span) =~= f + a);
    assert(after_caret(src, span) =~= b + after);
    assert(f + (a + color + b) + after =~= (f + a) + color + (b + after));
}

proof fn lemma_diagnostic_parts(src: Seq<char>, file: Seq<char>, level: Seq<char>, color: Seq<char>, span: Span, message: Seq<char>)
    ensures
        diagnostic_text(src, file, level, color, span, message) == level_tag(level, color) + header_rest(file, span, message)
            + (if nth_line_spec(src, line_index(span.line as nat)) is Some {
                before_caret(src, span) + color + after_caret(src, span)
            } else {
                seq![]
            }),
{
    assert(header_text(file, level, color, span, message) =~= level_tag(level, color) + header_rest(file, span, message));
    if nth_line_spec(src, line_index(span.line as nat)) is Some {
        lemma_snippet_parts(src, span, color);
    }
    assert(diagnostic_text(src, file, level, color, span, message) =~= level_tag(level, color) + header_rest(file, span, message)
        + snippet_text(src, span, color));
}

/// The error and the warning split into the same pieces around their tags
/// and the caret's colour code.
proof fn lemma_warning_shape(src: Seq<char>, file: Seq<char>, span: Span, message: Seq<char>)
    ensures
        ({
            let e = diagnostic_text(src, file, error_level(), red_code(), span, message);
            let w = diagnostic_text(src, file, warning_level(), yellow_code(), span, message);
            let te = level_tag(error_level(), red_code());
            let tw = level_tag(warning_level(), yellow_code());
            if nth_line_spec(src, line_index(span.line as nat)) is Some {
                exists|b: Seq<char>, a: Seq<char>|
                    #![trigger te + b + red_code() + a, tw + b + yellow_code() + a]
                    e == te + b + red_code() + a && w == tw + b + yellow_code() + a
            } else {
                exists|b: Seq<char>| #![trigger te + b, tw + b] e == te + b && w == tw + b
            }
        }),
{
    lemma_diagnostic_parts(src, file, error_level(), red_code(), span, message);
    lemma_diagnostic_parts(src, file, warning_level(), yellow_code(), span, message);
    let e = diagnostic_text(src, file, error_level(), red_code(), span, message);
    let w = diagnostic_text(src, file, warning_level(), yellow_code(), span, message);
    let te = level_tag(error_level(), red_code());
    let tw = level_tag(warning_level(), yellow_code());
    let h = header_rest(file, span, message);
    if nth_line_spec(src, line_index(span.line as nat)) is Some {
        let b = h + before_caret(src, span);
        let a = after_caret(src, span);
        assert(e =~= te + b + red_code() + a);
        assert(w =~= tw + b + yellow_code() + a);
    } else {
        assert(e =~= te + h);
        assert(w =~= tw + h);
    }
}

/// A warning and an error at the same position with the same message (the
/// texts of `report_warning` and `report_error`) have the same layout: the
/// warning is the error with its level tag `[Error]` in red renamed to
/// `[Warning]` in yellow and, where the source line exists, the red code of
/// the caret made yellow; nothing else differs. Character by character, after
/// the tags they agree except at the caret's colour code (yellow `33` where
/// the error has red `31`).
pub proof fn law_warning_recolours_error(src: Seq<char>, file: Seq<char>, span: Span, message: Seq<char>)
    ensures
        ({
            let e = diagnostic_text(src, file, error_level(), red_code(), span, message);
            let w = diagnostic_text(src, file, warning_level(), yellow_code(), span, message);
            let te = level_tag(error_level(), red_code());
            let tw = level_tag(warning_level(), yellow_code());
            if nth_line_spec(src, line_index(span.line as nat)) is Some {
                exists|b: Seq<char>, a: Seq<char>|
                    #![trigger te + b + red_code() + a, tw + b + yellow_code() + a]
                    e == te + b + red_code() + a && w == tw + b + yellow_code() + a
            } else {
                exists|b: Seq<char>| #![trigger te + b, tw + b] e == te + b && w == tw + b
            }
        }),
        ({
            let e = diagnostic_text(src, file, error_level(), red_code(), span, message);
            let w = diagnostic_text(src, file, warning_level(), yellow_code(), span, message);
            let te = level_tag(error_level(), red_code());
            let tw = level_tag(warning_level(), yellow_code());
            &&& e.subrange(0, te.len() as int) == te
            &&& w.subrange(0, tw.len() as int) == tw
            &&& e.len() - te.len() == w.len() - tw.len()
            &&& forall|i: int| 0 <= i < e.len() - te.len() ==>
                #[trigger] e[te.len() + i] == w[tw.len() + i] || (e[te.len() + i] == '1' && w[tw.len() + i] == '3')
        }),
{
    lemma_diagnostic_parts(src, file, error_level(), red_code(), span, message);
    lemma_diagnostic_parts(src, file, warning_level(), yellow_code(), span, message);
    let te = level_tag(error_level(), red_code());
    let tw = level_tag(warning_level(), yellow_code());
    let h = header_rest(file, span, message);
    let has = nth_line_spec(src, line_index(span.line as nat)) is Some;
    let re = h + (if has { before_caret(src, span) + red_code() + after_caret(src, span) } else { seq![] });
    let rw = h + (if has { before_caret(src, span) + yellow_code() + after_caret(src, span) } else { seq![] });
    let e = te + re;
    let w = tw + rw;
    lemma_warning_shape(src, file, span, message);
    assert(e.subrange(0, te.len() as int) =~= te);
    assert(w.subrange(0, tw.len() as int) =~= tw);
    assert forall|i: int| 0 <= i < re.len() implies #[trigger] e[te.len() + i] == w[tw.len() + i]
        || (e[te.len() + i] == '1' && w[tw.len() + i] == '3') by {
        assert(e[te.len() + i] == re[i]);
        assert(w[tw.len() + i] == rw[i]);
        if i >= h.len() && has {
            let j = i - h.len();
            let p = before_caret(src, span);
            let se = p + red_code() + after_caret(src, span);
            let sw = p + yellow_code() + after_caret(src, span);
            assert(re[i] == se[j]);
            assert(rw[i] == sw[j]);
            if j >= p.len() && j < p.len() + 5 {
                assert(se[j] == red_code()[j - p.len()]);
                assert(sw[j] == yellow_code()[j - p.len()]);
            }
        }
    }
}

/// A text has no more lines than characters.
pub proof fn lemma_line_count(s: Seq<char>)
    ensures
        text_lines(s).len() <= s.len(),
    decreases s.len(),
{
    if s.len() > 0 {
        crate::text::lemma_line_end_range(s, 0);
        let k = crate::text::line_end(s, 0);
        if k < s.len() {
            lemma_line_count(s.subrange(k + 1, s.len() as int));
        }
    }
}

fn push_reset(out: &mut String)
    ensures
        final(out)@ == old(out)@ + reset_code(),
{
    proof {
        reveal_strlit("\x1b[0m");
    }
    push_str(out, "\x1b[0m");
}

fn push_dim(out: &mut String)
    ensures
        final(out)@ == old(out)@ + dim_code(),
{
    proof {
        reveal_strlit("\x1b[2m");
    }
    push_str(out, "\x1b[2m");
}

fn push_bold(out: &mut String)
    ensures
        final(out)@ == old(out)@ + bold_code(),
{
    proof {
        reveal_strlit("\x1b[1m");
    }
    push_str(out, "\x1b[1m");
}

fn push_cyan(out: &mut String)
    ensures
        final(out)@ == old(out)@ + cyan_code(),
{
    proof {
        reveal_strlit("\x1b[36m");
    }
    push_str(out, "\x1b[36m");
}

fn push_level_tag(out: &mut String, level: &str, color: &str)
    ensures
        final(out)@ == old(out)@ + level_tag(level@, color@),
{
    let ghost start = out@;
    push_char(out, '\n');
    push_bold(out);
    push_str(out, color);
    push_char(out, '[');
    push_str(out, level);
    push_char(out, ']');
    push_reset(out);
    push_char(out, ' ');
    assert(out@ =~= start + level_tag(level@, color@));
}

fn push_location(out: &mut String, file: &str, span: Span)
    ensures
        final(out)@ == old(out)@ + location_text(file@, span),
{
    let ghost start = out@;
    push_bold(out);
    push_char(out, '→');
    push_char(out, ' ');
    push_cyan(out);
    push_str(out, file);
    push_char(out, ':');
    push_decimal(out, span.line);
    push_char(out, ':');
    push_decimal(out, span.col);
    push_reset(out);
    assert(out@ =~= start + location_text(file@, span));
}

fn push_focus(out: &mut String, line: usize, line_num: &str, text: &str)
    requires
        line_num@ == decimal(line as nat),
    ensures
        final(out)@ == old(out)@ + focus_line(line as nat, text@),
{
    let ghost start = out@;
    push_char(out, ' ');
    push_char(out, ' ');
    push_bold(out);
    push_str(out, line_num);
    push_reset(out);
    push_char(out, ' ');
    push_dim(out);
    push_char(out, '│');
    push_reset(out);
    push_char(out, ' ');
    push_str(out, text);
    push_char(out, '\n');
    assert(out@ =~= start + focus_line(line as nat, text@));
}

fn push_pointer(out: &mut String, width: usize, col: usize, color: &str)
    ensures
        final(out)@ == old(out)@ + pointer_line(width as nat, col as nat, color@),
{
    let ghost start = out@;
    push_char(out, ' ');
    push_char(out, ' ');
    push_spaces(out, width);
    push_char(out, ' ');
    push_dim(out);
    push_char(out, '│');
    push_reset(out);
    push_char(out, ' ');
    let pointer_offset = if col > 0 {
        col - 1
    } else {
        0
    };
    push_spaces(out, pointer_offset);
    push_str(out, color);
    push_char(out, '^');
    push_reset(out);
    push_char(out, '\n');
    assert(out@ =~= start + pointer_line(width as nat, col as nat, color@));
}

/// Formats source positions as coloured reports with source excerpts.
pub struct DiagnosticReporter {
    source: String,
    filename: String,
}

impl DiagnosticReporter {
    /// The source text that reports quote.
    pub closed spec fn source_text(&self) -> Seq<char> {
        self.source@
    }

    /// The file name that headers show.
    pub closed spec fn file_name(&self) -> Seq<char> {
        self.filename@
    }

    /// A reporter quoting `source` and naming `filename`.
    pub fn new(source: &str, filename: &str) -> (r: Self)
        ensures
            r.source_text() == source@,
            r.file_name() == filename@,
    {
        let mut s = String::new();
        push_str(&mut s, source);
        let mut f = String::new();
        push_str(&mut f, filename);
        proof {
            assert(s@ =~= source@);
            assert(f@ =~= filename@);
        }
        DiagnosticReporter { source: s, filename: f }
    }

    /// The source line with number `line` (counting from 1; 0 is taken as 1).
    pub fn get_line(&self, line: usize) -> (r: Option<String>)
        ensures
            match r {
                Some(l) => nth_line_spec(self.source_text(), line_index(line as nat)) == Some(l@),
                None => nth_line_spec(self.source_text(), line_index(line as nat)) is None,
            },
    {
        let chars = to_chars(self.source.as_str());
        nth_line(&chars, line.saturating_sub(1))
    }

    /// An error report for `span` with `message`, in red.
    pub fn report_error(&self, span: Span, message: &str) -> (r: String)
        ensures
            r@ == diagnostic_text(self.source_text(), self.file_name(), error_level(), red_code(), span, message@),
    {
        proof {
            reveal_strlit("Error");
            reveal_strlit("\x1b[31m");
        }
        self.format_diagnostic("Error", span, message, "\x1b[31m")
    }

    /// A warning report for `span` with `message`, in yellow.
    pub fn report_warning(&self, span: Span, message: &str) -> (r: String)
        ensures
            r@ == diagnostic_text(self.source_text(), self.file_name(), warning_level(), yellow_code(), span, message@),
    {
        proof {
            reveal_strlit("Warning");
            reveal_strlit("\x1b[33m");
        }
        self.format_diagnostic("Warning", span, message, "\x1b[33m")
    }

    /// A report at `level` for `span` with `message`, highlighted in `color`.
    pub fn format_diagnostic(&self, level: &str, span: Span, message: &str, color: &str) -> (r: String)
        ensures
            r@ == diagnostic_text(self.source_text(), self.file_name(), level@, color@, span, message@),
    {
        let mut output = String::new();
        push_level_tag(&mut output, level, color);
        push_location(&mut output, self.filename.as_str(), span);
        let ghost mid = output@;
        push_char(&mut output, ' ');
        push_dim(&mut output);
        push_char(&mut output, '|');
        push_reset(&mut output);
        push_char(&mut output, ' ');
        push_str(&mut output, message);
        push_char(&mut output, '\n');
        assert(output@ =~= mid + seq![' '] + dim_code() + seq!['|'] + reset_code() + seq![' '] + message@ + seq!['\n']);
        assert(output@ =~= header_text(self.file_name(), level@, color@, span, message@));
        let snippet = self.snippet(span, color);
        let ghost before = output@;
        push_str(&mut output, snippet.as_str());
        assert(output@ =~= before + snippet@);
        output
    }

    fn snippet(&self, span: Span, color: &str) -> (r: String)
        ensures
            r@ == snippet_text(self.source_text(), span, color@),
    {
        let mut output = String::new();
        let line = span.line;
        match self.get_line(line) {
            None => {
                assert(output@ =~= seq![]);
                output
            },
            Some(line_text) => {
                let line_num = usize_to_string(line);
                let width = to_chars(line_num.as_str()).len();
                let ghost w = decimal(line as nat).len();
                assert(width == w);
                if line > 1 {
                    match self.get_line(line - 1) {
                        Some(prev_line) => {
                            self.push_context(&mut output, line - 1, width, prev_line.as_str());
                        },
                        None => {},
                    }
                }
                push_focus(&mut output, line, line_num.as_str(), line_text.as_str());
                push_pointer(&mut output, width, span.col, color);
                let next = if line < usize::MAX {
                    self.get_line(line + 1)
                } else {
                    let chars = to_chars(self.source.as_str());
                    let _count = chars.len();
                    proof {
                        lemma_line_count(self.source_text());
                        assert(chars@.len() <= usize::MAX);
                    }
                    None
                };
                match next {
                    Some(next_line) => {
                        self.push_context(&mut output, line + 1, width, next_line.as_str());
                    },
                    None => {},
                }
                output
            },
        }
    }

    fn push_context(&self, out: &mut String, n: usize, width: usize, text: &str)
        ensures
            final(out)@ == old(out)@ + context_line(n as nat, width as nat, text@),
    {
        let ghost start = out@;
        push_char(out, ' ');
        push_char(out, ' ');
        push_dim(out);
        let digits = to_chars(usize_to_string(n).as_str()).len();
        if digits < width {
            push_spaces(out, width - digits);
        }
        push_decimal(out, n);
        push_char(out, ' ');
        push_char(out, '│');
        push_reset(out);
        push_char(out, ' ');
        push_str(out, text);
        push_char(out, '\n');
        assert(out@ =~= start + context_line(n as nat, width as nat, text@));
    }

    /// The reports of all `errors`, then a summary line with their number.
    pub fn report_errors(&self, errors: &[(Span, String)]) -> (r: String)
        ensures
            r@ == error_reports(
                self.source_text(),
                self.file_name(),
                errors@.map_values(|e: (Span, String)| (e.0, e.1@)),
            ) + summary_text(errors@.len()),
    {
        let mut output = String::new();
        let ghost view = errors@.map_values(|e: (Span, String)| (e.0, e.1@));
        let mut i: usize = 0;
        while i < errors.len()
            invariant
                i <= errors@.len(),
                view == errors@.map_values(|e: (Span, String)| (e.0, e.1@)),
                output@ == error_reports(self.source_text(), self.file_name(), view.take(i as int)),
            decreases errors.len() - i,
        {
            let report = self.report_error(errors[i].0, errors[i].1.as_str());
            let ghost before = output@;
            push_str(&mut output, report.as_str());
            proof {
                assert(view.take(i + 1).drop_last() =~= view.take(i as int));
                assert(view.take(i + 1).last() == view[i as int]);
            }
            i = i + 1;
        }
        assert(view.take(errors@.len() as int) =~= view);
        let ghost before = output@;
        push_char(&mut output, '\n');
        push_bold(&mut output);
        proof {
            reveal_strlit("\x1b[31m");
            reveal_strlit(" error(s) found");
        }
        push_str(&mut output, "\x1b[31m");
        push_char(&mut output, '✗');
        push_char(&mut output, ' ');
        push_decimal(&mut output, errors.len());
        push_str(&mut output, " error(s) found");
        push_reset(&mut output);
        push_char(&mut output, '\n');
        assert(output@ =~= before + summary_text(errors@.len()));
        output
    }
}

} // verus!
