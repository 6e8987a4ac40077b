//! Parser, printer and linter for Kerbal Space Program config files, including
//! Module Manager syntax.
use vstd::prelude::*;
use vstd::string::*;

pub mod parser;
pub mod printer;
pub mod text;
pub mod linter;
pub mod transformer;
pub mod server;

use parser::{ASTPrint, Document, Error, doc_nesting, parse, sp_source_file};
use parser::document::doc_print;
use parser::error::errors_view;
use text::{push_char, repeat_str, repeat_text};

verus! {

/// Defines which End of Line sequence to be used
///
/// Can have the values `LF`, `CRLF` or `Identify`.
///
/// When using `Identify`, the formatter tries to figure out what sequence to use, based on the provided text.
#[derive(Debug, PartialEq, Eq, Clone, Copy, Structural)]
#[allow(clippy::upper_case_acronyms)]
pub enum LineReturn {
    /// Line Feed. Used on Linux
    LF,
    /// Carriage Return Line Feed. used on Windows
    CRLF,
    /// The formatter identifies which sequence to use, based on the text
    Identify,
}

/// Indent using `Tabs` or `Spaces(usize)`.
///
/// When using spaces, the number provided is used as each level of indentation
#[derive(Debug, Clone, Copy, PartialEq, Eq, Structural)]
pub enum Indentation {
    /// Number of spaces to indent with
    Spaces(usize),
    /// Used to indicate to indent with tabs
    Tabs,
}

/// The text of one level of indentation
pub open spec fn indentation_text(i: Indentation) -> Seq<char> {
    match i {
        Indentation::Spaces(n) => repeat_text(seq![' '], n as nat),
        Indentation::Tabs => seq!['\t'],
    }
}

impl Indentation {
    /// The text of one level of indentation
    pub fn to_string(&self) -> (r: String)
        ensures
            r@ == indentation_text(*self),
    {
        match self {
            Indentation::Spaces(n) => {
                proof {
                    reveal_strlit(" ");
                    assert(" "@ =~= seq![' ']);
                }
                repeat_str(" ", *n)
            },
            Indentation::Tabs => {
                let mut r = String::new();
                push_char(&mut r, '\t');
                assert(r@ =~= seq!['\t']);
                r
            },
        }
    }
}

/// Indentation from a setting: a number of spaces, or tabs when there is none
pub open spec fn indentation_from(setting: Option<usize>) -> Indentation {
    match setting {
        Some(n) => Indentation::Spaces(n),
        None => Indentation::Tabs,
    }
}

impl From<Option<usize>> for Indentation {
    fn from(setting: Option<usize>) -> (r: Self) {
        match setting {
            Some(n) => Indentation::Spaces(n),
            None => Indentation::Tabs,
        }
    }
}

impl vstd::std_specs::convert::FromSpecImpl<Option<usize>> for Indentation {
    open spec fn obeys_from_spec() -> bool {
        true
    }

    open spec fn from_spec(v: Option<usize>) -> Indentation {
        indentation_from(v)
    }
}

/// The settings of a [`Formatter`]
pub struct FormatterSettings {
    /// One level of indentation
    pub indentation: Indentation,
    /// Whether nodes with one short item are written on one line (`None`: as they were)
    pub inline: Option<bool>,
    /// The line ending to write
    pub line_return: LineReturn,
    /// Whether a text that does not parse is given back unchanged
    pub fail_silent: bool,
}

/// Struct for holding the settings to use for formatting. use `self.format_text()` to format text
///
/// See [`Formatter::format_text()`]
pub struct Formatter {
    indentation: Indentation,
    inline: Option<bool>,
    line_return: LineReturn,
    fail_silent: bool,
}

impl View for Formatter {
    type V = FormatterSettings;

    closed spec fn view(&self) -> FormatterSettings {
        FormatterSettings {
            indentation: self.indentation,
            inline: self.inline,
            line_return: self.line_return,
            fail_silent: self.fail_silent,
        }
    }
}

/// A carriage return followed by a line feed at offset `i`
pub open spec fn crlf_at(s: Seq<char>, i: int) -> bool {
    0 <= i && i + 1 < s.len() && s[i] == '\r' && s[i + 1] == '\n'
}

/// The text holds a carriage return followed by a line feed
pub open spec fn contains_crlf(s: Seq<char>) -> bool {
    exists|i: int| #[trigger] crlf_at(s, i)
}

/// Whether the formatted text uses `\r\n`: as the setting says, or, when it says to identify
/// the line ending, when the text holds one
pub open spec fn uses_crlf(line_return: LineReturn, text: Seq<char>) -> bool {
    match line_return {
        LineReturn::Identify => contains_crlf(text),
        LineReturn::CRLF => true,
        LineReturn::LF => false,
    }
}

/// The line ending written
pub open spec fn line_ending_text(crlf: bool) -> Seq<char> {
    if crlf {
        seq!['\r', '\n']
    } else {
        seq!['\n']
    }
}

/// What formatting a text gives: the errors of its parse when there are any, and otherwise the
/// document printed with the settings
pub open spec fn formatted(settings: FormatterSettings, text: Seq<char>) -> Result<Seq<char>, Seq<parser::SpecError>> {
    match sp_source_file(text) {
        Some((doc, errs)) => if errs.len() > 0 {
            Err(errs)
        } else {
            Ok(
                doc_print(
                    doc,
                    0,
                    indentation_text(settings.indentation),
                    line_ending_text(uses_crlf(settings.line_return, text)),
                    settings.inline,
                ),
            )
        },
        None => Err(seq![]),
    }
}

/// Whether the text holds `\r\n`
fn has_crlf(text: &str) -> (r: bool)
    ensures
        r == contains_crlf(text@),
{
    let n = text.unicode_len();
    let mut k: usize = 0;
    while k < n && k + 1 < n
        invariant
            n == text@.len(),
            k <= n,
            forall|j: int| 0 <= j < k ==> !#[trigger] crlf_at(text@, j),
        decreases n - k,
    {
        if text.get_char(k) == '\r' && text.get_char(k + 1) == '\n' {
            assert(crlf_at(text@, k as int));
            return true;
        }
        k = k + 1;
    }
    proof {
        assert forall|j: int| !#[trigger] crlf_at(text@, j) by {
            if 0 <= j < k {
            } else if j >= k {
                assert(j + 1 >= n);
            }
        }
    }
    false
}

impl Formatter {
    /// Constructs a new `Formatter` with the settings provided.
    pub fn new(indentation: Indentation, inline: Option<bool>, line_return: LineReturn) -> (r: Self)
        ensures
            r@ == (FormatterSettings { indentation, inline, line_return, fail_silent: false }),
    {
        Self { indentation, inline, line_return, fail_silent: false }
    }

    /// Makes the parser fail silently, returning the original text instead of the errors
    pub fn fail_silent(self) -> (r: Self)
        ensures
            r@ == (FormatterSettings { fail_silent: true, ..self@ }),
    {
        Self {
            indentation: self.indentation,
            inline: self.inline,
            line_return: self.line_return,
            fail_silent: true,
        }
    }

    /// Takes the provided text and formats it according to the settings of the `Formatter`
    ///
    /// If the formatter is set to fail silently, and formatting fails, the orginal text is
    /// returned unchanged. Otherwise the errors are returned.
    pub fn format_text(&self, text: &str) -> (r: Result<String, Vec<Error>>)
        requires
            text@.len() < 0xffff_fff0,
            sp_source_file(text@) is Some,
        ensures
            match formatted(self@, text@) {
                Ok(out) => r matches Ok(s) && s@ == out,
                Err(errs) => if self@.fail_silent {
                    r matches Ok(s) && s@ == text@
                } else {
                    r matches Err(e) && errors_view(e@) == errs
                },
            },
    {
        match ast_format(text, self) {
            Ok(res) => Ok(res),
            Err(err) => {
                if self.fail_silent {
                    Ok(String::from_str(text))
                } else {
                    Err(err)
                }
            },
        }
    }
}

/// Formats the text with the settings: the errors of its parse, or the printed document
fn ast_format(text: &str, settings: &Formatter) -> (r: Result<String, Vec<Error>>)
    requires
        text@.len() < 0xffff_fff0,
        sp_source_file(text@) is Some,
    ensures
        match formatted(settings@, text@) {
            Ok(out) => r matches Ok(s) && s@ == out,
            Err(errs) => r matches Err(e) && errors_view(e@) == errs,
        },
{
    let use_crlf = match settings.line_return {
        LineReturn::Identify => has_crlf(text),
        LineReturn::CRLF => true,
        LineReturn::LF => false,
    };
    let (parsed_document, errors) = parse(text);
    if errors.len() > 0 {
        return Err(errors);
    }
    let mut line_ending = String::new();
    if use_crlf {
        push_char(&mut line_ending, '\r');
    }
    push_char(&mut line_ending, '\n');
    assert(line_ending@ =~= line_ending_text(use_crlf));
    let indentation = settings.indentation.to_string();
    Ok(parsed_document.ast_print(0, indentation.as_str(), line_ending.as_str(), settings.inline))
}

/// Parses the text to a `Document`. When the parse reports errors or the linter finds
/// something, those are returned instead.
pub fn parse_to_ast(text: &str) -> (r: Result<Document, (Vec<Error>, Vec<linter::Diagnostic>)>)
    requires
        text@.len() < 0xffff_fff0,
        sp_source_file(text@) is Some,
    ensures
        match sp_source_file(text@) {
            Some((doc, errs)) => {
                let diags = linter::lint_doc(doc, linter::LinterState { this_url: None, top_level_no_op: None });
                &&& diags is Some
                &&& if errs.len() > 0 || diags.unwrap().len() > 0 {
                    r matches Err((e, d)) && errors_view(e@) == errs && linter::diags_view(d@) == diags.unwrap()
                } else {
                    r matches Ok(d) && d@ == doc
                }
            },
            None => false,
        },
{
    let (parsed_document, errors) = parse(text);
    proof {
        linter::lemma_lint_doc_some(parsed_document@, None);
    }
    let diagnostics = linter::lint_ast(&parsed_document, None);
    if errors.len() > 0 || diagnostics.len() > 0 {
        return Err((errors, diagnostics));
    }
    Ok(parsed_document)
}

} // verus!
