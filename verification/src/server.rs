//! The decisions of the language server: request ids, settings, the open documents, the edit
//! that replaces a document, and the diagnostics of a document.
use vstd::prelude::*;
use vstd::string::*;
use crate::linter::{Diagnostic, Location, RelatedInformation, SpecDiagnostic, SpecRelated, diags_view, lint_doc, LinterState};
use crate::parser::{Error, Range, Ranged, Severity, SpecError, doc_ok, sp_source_file, try_parse};
use crate::parser::error::errors_view;
use crate::text::{push_char, str_chars};
use crate::parser::input::{count_nl, line_start, lemma_line_start_le};

verus! {

/// Hands out the ids of the requests the server sends, counting up from zero
pub struct Outgoing {
    next_id: i32,
}

impl View for Outgoing {
    type V = i32;

    closed spec fn view(&self) -> i32 {
        self.next_id
    }
}

impl Outgoing {
    /// A counter that starts at zero
    pub fn new() -> (r: Self)
        ensures
            r@ == 0,
    {
        Self { next_id: 0 }
    }

    /// Whether another id can be handed out
    pub fn has_next(&self) -> (r: bool)
        ensures
            r == (self@ < i32::MAX),
    {
        self.next_id < i32::MAX
    }

    /// The next id; the counter moves on by one
    pub fn get_next_id(&mut self) -> (r: i32)
        requires
            old(self)@ < i32::MAX,
        ensures
            r == old(self)@,
            final(self)@ == old(self)@ + 1,
    {
        let val = self.next_id;
        self.next_id = self.next_id + 1;
        val
    }
}

/// Whether two texts are the same
pub fn str_eq(a: &str, b: &str) -> (r: bool)
    ensures
        r == (a@ == b@),
{
    let n = a.unicode_len();
    if n != b.unicode_len() {
        return false;
    }
    let mut k: usize = 0;
    while k < n
        invariant
            n == a@.len(),
            n == b@.len(),
            k <= n,
            forall|j: int| 0 <= j < k ==> a@[j] == b@[j],
        decreases n - k,
    {
        if a.get_char(k) != b.get_char(k) {
            return false;
        }
        k = k + 1;
    }
    assert(a@ =~= b@);
    true
}

/// What the `shouldCollapse` setting says: `keep` the layout (`None`), `collapse` short nodes
/// (`Some(true)`) or `expand` them (`Some(false)`); `None` for any other value
pub open spec fn should_collapse_setting(value: Seq<char>) -> Option<Option<bool>> {
    if value == "keep"@ {
        Some(None)
    } else if value == "collapse"@ {
        Some(Some(true))
    } else if value == "expand"@ {
        Some(Some(false))
    } else {
        None
    }
}

/// Reads the `shouldCollapse` setting; `None` for a value it does not know
pub fn parse_should_collapse(value: &str) -> (r: Option<Option<bool>>)
    ensures
        r == should_collapse_setting(value@),
{
    if str_eq(value, "keep") {
        Some(None)
    } else if str_eq(value, "collapse") {
        Some(Some(true))
    } else if str_eq(value, "expand") {
        Some(Some(false))
    } else {
        None
    }
}

/// Reads the `shouldCollapse` setting, collapsing short nodes when the value is not known
pub fn should_collapse_or_default(value: &str) -> (r: Option<bool>)
    ensures
        r == (match should_collapse_setting(value@) {
            Some(x) => x,
            None => Some(true),
        }),
{
    match parse_should_collapse(value) {
        Some(x) => x,
        None => Some(true),
    }
}

/// How much the server logs
#[derive(Debug, Clone, Copy, PartialEq, Eq, Structural)]
pub enum LogLevel {
    /// Nothing
    Off,
    /// Errors
    Error,
    /// Warnings and errors
    Warn,
    /// Information, warnings and errors
    Info,
    /// Debugging output too
    Debug,
    /// Everything
    Trace,
}

/// What the `logLevel` setting says; `None` for a value it does not know
pub open spec fn log_level_setting(value: Seq<char>) -> Option<LogLevel> {
    if value == "off"@ {
        Some(LogLevel::Off)
    } else if value == "error"@ {
        Some(LogLevel::Error)
    } else if value == "warning"@ {
        Some(LogLevel::Warn)
    } else if value == "info"@ {
        Some(LogLevel::Info)
    } else if value == "debug"@ {
        Some(LogLevel::Debug)
    } else if value == "trace"@ {
        Some(LogLevel::Trace)
    } else {
        None
    }
}

/// Reads the `logLevel` setting; `None` for a value it does not know
pub fn parse_log_level(value: &str) -> (r: Option<LogLevel>)
    ensures
        r == log_level_setting(value@),
{
    if str_eq(value, "off") {
        Some(LogLevel::Off)
    } else if str_eq(value, "error") {
        Some(LogLevel::Error)
    } else if str_eq(value, "warning") {
        Some(LogLevel::Warn)
    } else if str_eq(value, "info") {
        Some(LogLevel::Info)
    } else if str_eq(value, "debug") {
        Some(LogLevel::Debug)
    } else if str_eq(value, "trace") {
        Some(LogLevel::Trace)
    } else {
        None
    }
}

/// Reads the `logLevel` setting, logging information when the value is not known
pub fn log_level_or_default(value: &str) -> (r: LogLevel)
    ensures
        r == (match log_level_setting(value@) {
            Some(x) => x,
            None => LogLevel::Info,
        }),
{
    match parse_log_level(value) {
        Some(x) => x,
        None => LogLevel::Info,
    }
}

/// The formatting settings of the server
pub struct Settings {
    /// Indent with tabs
    pub use_tabs: bool,
    /// Spaces per level of indentation
    pub indent_size: u64,
    /// Whether short nodes are written on one line (`None`: as they were)
    pub should_collapse: Option<bool>,
}

impl Default for Settings {
    fn default() -> (r: Self)
        ensures
            !r.use_tabs,
            r.indent_size == 0,
            r.should_collapse == Some(true),
    {
        Self { use_tabs: false, indent_size: 0, should_collapse: Some(true) }
    }
}

/// The number of lines in the text, as `str::lines` gives them: a line ending closes a line, and
/// text after the last line ending is a line of its own
pub open spec fn lines_count(s: Seq<char>) -> int {
    count_nl(s, s.len() as int) + if s.len() > 0 && s.last() != '\n' {
        1int
    } else {
        0int
    }
}

/// The number of characters on the last of those lines, without its line ending (`\n`, or
/// `\r\n`); zero when there is no line
pub open spec fn last_line_len(s: Seq<char>) -> int {
    if s.len() == 0 {
        0
    } else if s.last() == '\n' {
        let t = s.drop_last();
        let seg = t.subrange(line_start(t, t.len() as int), t.len() as int);
        if seg.len() > 0 && seg.last() == '\r' {
            seg.len() - 1
        } else {
            seg.len() as int
        }
    } else {
        s.len() - line_start(s, s.len() as int)
    }
}

/// Where an edit that replaces the whole text ends: the number of lines, and the number of
/// characters on the last line; `None` when either does not fit a `u32`
pub open spec fn document_end_spec(s: Seq<char>) -> Option<(u32, u32)> {
    if lines_count(s) <= u32::MAX && last_line_len(s) <= u32::MAX {
        Some((lines_count(s) as u32, last_line_len(s) as u32))
    } else {
        None
    }
}

/// Where an edit that replaces the whole text ends: the number of lines, and the number of
/// characters on the last line; `None` when either does not fit a `u32`
pub fn document_end(original: &str) -> (r: Option<(u32, u32)>)
    ensures
        r == document_end_spec(original@),
{
    let chars = str_chars(original);
    let ghost s = original@;
    let n = chars.len();
    let mut i: usize = 0;
    let mut nl: usize = 0;
    let mut ls: usize = 0;
    proof {
        lemma_line_start_le(s, 0);
    }
    while i < n
        invariant
            s == chars@,
            n == s.len(),
            i <= n,
            nl == count_nl(s, i as int),
            ls == line_start(s, i as int),
            0 <= count_nl(s, i as int) <= i,
            0 <= line_start(s, i as int) <= i,
        decreases n - i,
    {
        proof {
            lemma_line_start_le(s, i + 1);
        }
        if chars[i] == '\n' {
            nl = nl + 1;
            ls = i + 1;
        }
        i = i + 1;
    }
    proof {
        if n > 0 {
            lemma_line_start_le(s, n - 1);
        }
    }
    let lines: usize = if n > 0 && chars[n - 1] != '\n' { nl + 1 } else { nl };
    let last: usize = if n == 0 {
        0
    } else if chars[n - 1] == '\n' {
        let st = line_start_in(&chars, n - 1);
        proof {
            let t = s.drop_last();
            assert(s.take(n - 1) =~= t);
        }
        let seg_len = n - 1 - st;
        if seg_len > 0 && chars[n - 2] == '\r' {
            seg_len - 1
        } else {
            seg_len
        }
    } else {
        n - ls
    };
    proof {
        if n > 0 && s.last() == '\n' {
            let t = s.drop_last();
            let seg = t.subrange(line_start(t, t.len() as int), t.len() as int);
            lemma_line_start_le(t, t.len() as int);
            if seg.len() > 0 {
                assert(seg.last() == s[n - 2]);
            }
        }
    }
    if lines > 0xffff_ffff || last > 0xffff_ffff {
        return None;
    }
    Some((lines as u32, last as u32))
}

/// The offset after the last line ending among the first `m` characters
fn line_start_in(chars: &Vec<char>, m: usize) -> (r: usize)
    requires
        m <= chars@.len(),
    ensures
        r == line_start(chars@.take(m as int), m as int),
        r <= m,
{
    let ghost s = chars@.take(m as int);
    let mut i: usize = 0;
    let mut ls: usize = 0;
    proof {
        lemma_line_start_le(s, 0);
    }
    while i < m
        invariant
            m <= chars@.len(),
            s == chars@.take(m as int),
            i <= m,
            ls == line_start(s, i as int),
            0 <= line_start(s, i as int) <= i,
        decreases m - i,
    {
        proof {
            lemma_line_start_le(s, i + 1);
        }
        if chars[i] == '\n' {
            ls = i + 1;
        }
        i = i + 1;
    }
    ls
}

/// The text stored for a key: that of the last entry with the key
pub open spec fn lookup(v: Seq<(String, String)>, key: Seq<char>) -> Option<Seq<char>>
    decreases v.len(),
{
    if v.len() == 0 {
        None
    } else if v.last().0@ == key {
        Some(v.last().1@)
    } else {
        lookup(v.drop_last(), key)
    }
}

/// The texts of the open documents, by the path of their file
pub struct DocumentDataBase {
    data_base: Vec<(String, String)>,
}

/// No two entries are stored for the same path
pub open spec fn paths_unique(v: Seq<(String, String)>) -> bool {
    forall|x: int, y: int| 0 <= x < y < v.len() ==> #[trigger] v[x].0@ != #[trigger] v[y].0@
}

impl DocumentDataBase {
    /// Each path is stored at most once
    #[verifier::type_invariant]
    spec fn stores_each_path_once(self) -> bool {
        paths_unique(self.data_base@)
    }

    /// The text stored for a path, if any
    pub closed spec fn text_of(&self, path: Seq<char>) -> Option<Seq<char>> {
        lookup(self.data_base@, path)
    }

    /// No document is stored
    pub fn new() -> (r: Self)
        ensures
            forall|p: Seq<char>| r.text_of(p) is None,
    {
        DocumentDataBase { data_base: Vec::new() }
    }

    /// The index of the last entry for the path, if any
    fn find(&self, path: &str) -> (r: Option<usize>)
        ensures
            match r {
                Some(i) => i < self.data_base@.len() && self.data_base@[i as int].0@ == path@ && forall|j: int|
                    i < j < self.data_base@.len() ==> self.data_base@[j].0@ != path@,
                None => forall|j: int| 0 <= j < self.data_base@.len() ==> self.data_base@[j].0@ != path@,
            },
    {
        let mut i = self.data_base.len();
        while i > 0
            invariant
                i <= self.data_base@.len(),
                forall|j: int| i <= j < self.data_base@.len() ==> self.data_base@[j].0@ != path@,
            decreases i,
        {
            i = i - 1;
            if str_eq(self.data_base[i].0.as_str(), path) {
                return Some(i);
            }
        }
        None
    }

    /// The stored text of the document at the path, if any
    pub fn get(&self, path: &str) -> (r: Option<&String>)
        ensures
            match r {
                Some(t) => self.text_of(path@) == Some(t@),
                None => self.text_of(path@) is None,
            },
    {
        match self.find(path) {
            Some(i) => {
                proof {
                    lemma_lookup_last(self.data_base@, i as int, path@);
                }
                Some(&self.data_base[i].1)
            },
            None => {
                proof {
                    lemma_lookup_none(self.data_base@, path@);
                }
                None
            },
        }
    }

    /// Stores the text of the document at the path, in place of any text stored for it
    pub fn add_document_to_db(&mut self, path: &str, text: &str)
        ensures
            forall|p: Seq<char>| #[trigger] final(self).text_of(p) == if p == path@ {
                Some(text@)
            } else {
                old(self).text_of(p)
            },
    {
        proof {
            use_type_invariant(&*self);
        }
        let entry = (String::from_str(path), String::from_str(text));
        let found = self.find(path);
        let ghost old_v = self.data_base@;
        let mut v: Vec<(String, String)> = Vec::new();
        std::mem::swap(&mut v, &mut self.data_base);
        match found {
            Some(i) => {
                v.set(i, entry);
                proof {
                    assert(paths_unique(v@)) by {
                        assert forall|x: int, y: int| 0 <= x < y < v@.len() implies #[trigger] v@[x].0@
                            != #[trigger] v@[y].0@ by {
                            if x != i && y != i {
                                assert(v@[x] == old_v[x] && v@[y] == old_v[y]);
                            } else if x == i {
                                assert(v@[y] == old_v[y]);
                                assert(old_v[x].0@ != old_v[y].0@);
                            } else {
                                assert(v@[x] == old_v[x]);
                                assert(old_v[x].0@ != old_v[y].0@);
                            }
                        }
                    }
                    assert forall|p: Seq<char>| #[trigger] lookup(v@, p) == if p == path@ {
                        Some(text@)
                    } else {
                        lookup(old_v, p)
                    } by {
                        lemma_lookup_update(old_v, i as int, entry, p);
                    }
                }
            },
            None => {
                v.push(entry);
                proof {
                    assert(paths_unique(v@)) by {
                        assert forall|x: int, y: int| 0 <= x < y < v@.len() implies #[trigger] v@[x].0@
                            != #[trigger] v@[y].0@ by {
                            assert(v@[x] == old_v[x]);
                            if y < old_v.len() {
                                assert(v@[y] == old_v[y]);
                            }
                        }
                    }
                    assert forall|p: Seq<char>| #[trigger] lookup(v@, p) == if p == path@ {
                        Some(text@)
                    } else {
                        lookup(old_v, p)
                    } by {
                        assert(v@.drop_last() =~= old_v);
                    }
                }
            },
        }
        self.data_base = v;
    }

    /// Stores the text made of the changes, one after the other, for the document at the path
    pub fn update_document_in_db(&mut self, path: &str, changes: &Vec<String>)
        ensures
            forall|p: Seq<char>| #[trigger] final(self).text_of(p) == if p == path@ {
                Some(concat(changes@))
            } else {
                old(self).text_of(p)
            },
    {
        let mut text = String::new();
        let mut k: usize = 0;
        while k < changes.len()
            invariant
                k <= changes@.len(),
                text@ == concat(changes@.take(k as int)),
            decreases changes.len() - k,
        {
            text.append(changes[k].as_str());
            assert(changes@.take(k + 1).drop_last() =~= changes@.take(k as int));
            k = k + 1;
        }
        assert(changes@.take(k as int) =~= changes@);
        self.add_document_to_db(path, text.as_str());
    }

    /// Forgets the document at the path
    pub fn remove_document_from_db(&mut self, path: &str)
        ensures
            forall|p: Seq<char>| #[trigger] final(self).text_of(p) == if p == path@ {
                None
            } else {
                old(self).text_of(p)
            },
    {
        proof {
            use_type_invariant(&*self);
        }
        let ghost old_v = self.data_base@;
        let mut old_entries: Vec<(String, String)> = Vec::new();
        std::mem::swap(&mut old_entries, &mut self.data_base);
        let mut kept: Vec<(String, String)> = Vec::new();
        let n = old_entries.len();
        let mut i: usize = 0;
        while old_entries.len() > 0
            invariant
                i + old_entries@.len() == n,
                n == old_v.len(),
                forall|j: int| 0 <= j < old_entries@.len() ==> #[trigger] old_entries@[j] == old_v[i + j],
                paths_unique(old_v),
                paths_unique(kept@),
                forall|x: int| 0 <= x < kept@.len() ==> exists|j: int| 0 <= j < i && #[trigger] kept@[x] == old_v[j],
                forall|p: Seq<char>| #[trigger] lookup(kept@, p) == if p == path@ {
                    None
                } else {
                    lookup(old_v.take(i as int), p)
                },
            decreases old_entries.len(),
        {
            let ghost before = old_entries@;
            let entry = old_entries.remove(0);
            proof {
                assert(entry == before[0]);
                assert forall|j: int| 0 <= j < old_entries@.len() implies #[trigger] old_entries@[j] == old_v[i + 1 + j] by {
                    assert(old_entries@[j] == before[j + 1]);
                }
                assert(old_v.take(i + 1).drop_last() =~= old_v.take(i as int));
                assert(old_v.take(i + 1).last() == entry);
            }
            let ghost ev = entry;
            if !str_eq(entry.0.as_str(), path) {
                let ghost old_kept = kept@;
                kept.push(entry);
                proof {
                    assert(ev == old_v[i as int]);
                    assert forall|x: int| 0 <= x < kept@.len() implies exists|j: int| 0 <= j < i + 1 && #[trigger] kept@[x]
                        == old_v[j] by {
                        if x < old_kept.len() {
                            assert(kept@[x] == old_kept[x]);
                            let j = choose|j: int| 0 <= j < i && #[trigger] old_kept[x] == old_v[j];
                            assert(kept@[x] == old_v[j]);
                        } else {
                            assert(kept@[x] == old_v[i as int]);
                        }
                    }
                    assert(paths_unique(kept@)) by {
                        assert forall|x: int, y: int| 0 <= x < y < kept@.len() implies #[trigger] kept@[x].0@
                            != #[trigger] kept@[y].0@ by {
                            assert(kept@[x] == old_kept[x]);
                            if y < old_kept.len() {
                                assert(kept@[y] == old_kept[y]);
                            } else {
                                let j = choose|j: int| 0 <= j < i && #[trigger] old_kept[x] == old_v[j];
                                assert(old_v[j].0@ != old_v[i as int].0@);
                            }
                        }
                    }
                    assert(ev.0@ != path@);
                    assert(kept@.drop_last() =~= old_kept);
                    assert(kept@.last() == ev);
                    assert forall|p: Seq<char>| #[trigger] lookup(kept@, p) == if p == path@ {
                        None
                    } else {
                        lookup(old_v.take(i + 1), p)
                    } by {
                        assert(lookup(kept@, p) == if ev.0@ == p {
                            Some(ev.1@)
                        } else {
                            lookup(old_kept, p)
                        });
                        assert(lookup(old_v.take(i + 1), p) == if ev.0@ == p {
                            Some(ev.1@)
                        } else {
                            lookup(old_v.take(i as int), p)
                        });
                    }
                }
            }
            i = i + 1;
        }
        assert(old_v.take(i as int) =~= old_v);
        self.data_base = kept;
    }
}

/// The texts one after the other
pub open spec fn concat(v: Seq<String>) -> Seq<char>
    decreases v.len(),
{
    if v.len() == 0 {
        seq![]
    } else {
        concat(v.drop_last()) + v.last()@
    }
}

proof fn lemma_lookup_last(v: Seq<(String, String)>, i: int, key: Seq<char>)
    requires
        0 <= i < v.len(),
        v[i].0@ == key,
        forall|j: int| i < j < v.len() ==> v[j].0@ != key,
    ensures
        lookup(v, key) == Some(v[i].1@),
    decreases v.len(),
{
    if i < v.len() - 1 {
        lemma_lookup_last(v.drop_last(), i, key);
    }
}

proof fn lemma_lookup_none(v: Seq<(String, String)>, key: Seq<char>)
    requires
        forall|j: int| 0 <= j < v.len() ==> v[j].0@ != key,
    ensures
        lookup(v, key) is None,
    decreases v.len(),
{
    if v.len() > 0 {
        lemma_lookup_none(v.drop_last(), key);
    }
}

proof fn lemma_lookup_update(v: Seq<(String, String)>, i: int, entry: (String, String), p: Seq<char>)
    requires
        0 <= i < v.len(),
        v[i].0@ == entry.0@,
        forall|j: int| i < j < v.len() ==> v[j].0@ != entry.0@,
    ensures
        lookup(v.update(i, entry), p) == if p == entry.0@ {
            Some(entry.1@)
        } else {
            lookup(v, p)
        },
    decreases v.len(),
{
    if i < v.len() - 1 {
        assert(v.update(i, entry).drop_last() =~= v.drop_last().update(i, entry));
        lemma_lookup_update(v.drop_last(), i, entry, p);
    } else {
        assert(v.update(i, entry).drop_last() =~= v.drop_last());
        if p != entry.0@ {
        }
    }
}

/// The diagnostics for one error of a parse: the error, with its context as related
/// information, then, when it has a context, a hint at the context that points back to the error
pub open spec fn error_diags(e: SpecError, uri: url::Url) -> Seq<SpecDiagnostic> {
    seq![
        SpecDiagnostic {
            range: e.range,
            severity: Some(e.severity),
            message: e.message,
            source: None,
            related_information: match e.context {
                Some(c) => Some(seq![SpecRelated { message: c.inner, location: Location { url: Some(uri), range: c.range } }]),
                None => None,
            },
        },
    ] + match e.context {
        Some(c) => seq![
            SpecDiagnostic {
                range: c.range,
                severity: Some(Severity::Hint),
                message: c.inner,
                source: None,
                related_information: Some(seq![SpecRelated { message: "original diagnostic"@, location: Location { url: Some(uri), range: e.range } }]),
            },
        ],
        None => seq![],
    }
}

/// The diagnostics for the errors of a parse, one after the other
pub open spec fn errors_diags(errs: Seq<SpecError>, uri: url::Url) -> Seq<SpecDiagnostic>
    decreases errs.len(),
{
    if errs.len() == 0 {
        seq![]
    } else {
        errors_diags(errs.drop_last(), uri) + error_diags(errs.last(), uri)
    }
}

fn error_diagnostics(e: &Error, uri: &url::Url) -> (r: Vec<Diagnostic>)
    ensures
        diags_view(r@) == error_diags(e@, *uri),
{
    let mut r: Vec<Diagnostic> = Vec::new();
    let related = match &e.context {
        Some(c) => {
            let mut v: Vec<RelatedInformation> = Vec::new();
            v.push(RelatedInformation { message: c.inner.clone(), location: Location { url: Some(crate::linter::clone_url(uri)), range: c.range } });
            Some(v)
        },
        None => None,
    };
    let d = Diagnostic { range: e.range, severity: Some(e.severity), message: e.message.clone(), source: None, related_information: related };
    r.push(d);
    match &e.context {
        Some(c) => {
            let mut v: Vec<RelatedInformation> = Vec::new();
            v.push(RelatedInformation { message: String::from_str("original diagnostic"), location: Location { url: Some(crate::linter::clone_url(uri)), range: e.range } });
            r.push(Diagnostic { range: c.range, severity: Some(Severity::Hint), message: c.inner.clone(), source: None, related_information: Some(v) });
        },
        None => {},
    }
    proof {
        let want = error_diags(e@, *uri);
        let got = diags_view(r@);
        assert(got.len() == want.len());
        assert forall|i: int| 0 <= i < got.len() implies got[i] == want[i] by {
            if i == 0 {
                match e.context {
                    Some(c) => {
                        assert(got[0].related_information.unwrap() =~= want[0].related_information.unwrap());
                    },
                    None => {},
                }
            } else {
                assert(got[1].related_information.unwrap() =~= want[1].related_information.unwrap());
            }
        }
        assert(got =~= want);
    }
    r
}

/// The diagnostics of a document: those for the errors of its parse, then those the linter
/// finds, with `uri` as the location of the file. `None` when a number in the text does not fit
/// its type (the parse would panic).
pub fn diagnostics_for_document(text: &str, uri: &url::Url) -> (r: Option<Vec<Diagnostic>>)
    requires
        text@.len() < 0xffff_fff0,
    ensures
        match sp_source_file(text@) {
            Some((doc, errs)) => r matches Some(d) && diags_view(d@) == errors_diags(errs, *uri) + lint_doc(
                doc,
                LinterState { this_url: Some(*uri), top_level_no_op: None },
            ).unwrap() && lint_doc(doc, LinterState { this_url: Some(*uri), top_level_no_op: None }) is Some,
            None => r is None,
        },
{
    let (doc, errors) = match try_parse(text) {
        Some(x) => x,
        None => {
            return None;
        },
    };
    let ghost ev = errors_view(errors@);
    let mut out: Vec<Diagnostic> = Vec::new();
    let mut k: usize = 0;
    assert(diags_view(out@) =~= Seq::<SpecDiagnostic>::empty());
    while k < errors.len()
        invariant
            k <= errors@.len(),
            ev == errors_view(errors@),
            diags_view(out@) == errors_diags(ev.take(k as int), *uri),
        decreases errors.len() - k,
    {
        let d = error_diagnostics(&errors[k], uri);
        let ghost old_out = out@;
        let ghost dv = d@;
        let mut d = d;
        out.append(&mut d);
        assert(ev.take(k + 1).drop_last() =~= ev.take(k as int));
        assert(ev.take(k + 1).last() == errors@[k as int]@);
        assert(diags_view(out@) =~= diags_view(old_out) + diags_view(dv));
        k = k + 1;
    }
    assert(ev.take(k as int) =~= ev);
    proof {
        crate::linter::lemma_lint_doc_some(doc@, Some(*uri));
    }
    let lints = crate::linter::lint_ast(&doc, Some(crate::linter::clone_url(uri)));
    let ghost ov = out@;
    let ghost lv = lints@;
    let mut lints = lints;
    out.append(&mut lints);
    assert(diags_view(out@) =~= diags_view(ov) + diags_view(lv));
    Some(out)
}

} // verus!
