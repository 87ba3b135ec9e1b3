//! Diagnostics produced by the analysis passes.
use crate::resource_table::{ResourceTable, StrId};
use crate::token::Token;
use vstd::prelude::*;
use vstd::std_specs::iter::IteratorSpec;

verus! {

/// The `n`-th line of `s`, counting from 1 (0 counts as 1), without its
/// line break; empty when `s` has fewer lines.
pub open spec fn line_text(s: Seq<char>, n: nat) -> Seq<char>
    decreases s.len(),
{
    if s.len() == 0 {
        Seq::empty()
    } else if s[0] == '\n' {
        if n <= 1 {
            Seq::empty()
        } else {
            line_text(s.drop_first(), (n - 1) as nat)
        }
    } else if n <= 1 {
        seq![s[0]] + line_text(s.drop_first(), n)
    } else {
        line_text(s.drop_first(), n)
    }
}

/// The line `line` of `text` (counting from 1), without its line break.
pub fn source_line(text: &str, line: usize) -> (r: String)
    ensures
        r@ == line_text(text@, line as nat),
{
    let total = text.unicode_len();
    let mut it = text.chars();
    let mut i: usize = 0;
    let mut cur: usize = line;
    let mut start: usize = 0;
    loop
        invariant_except_break
            it.remaining() == text@.skip(i as int),
            line_text(text@, line as nat) == (if cur <= 1 {
                text@.subrange(start as int, i as int)
            } else {
                Seq::empty()
            }) + line_text(text@.skip(i as int), cur as nat),
        invariant
            total == text@.len(),
            i <= text@.len(),
            start <= i,
        ensures
            line_text(text@, line as nat) == (if cur <= 1 {
                text@.subrange(start as int, i as int)
            } else {
                Seq::empty()
            }),
        decreases text@.len() - i,
    {
        let ghost rem = text@.skip(i as int);
        match it.next() {
            None => {
                assert(rem.len() == 0);
                assert(line_text(rem, cur as nat) == Seq::<char>::empty());
                break;
            },
            Some(c) => {
                assert(rem.len() > 0 && c == rem[0]);
                assert(rem.drop_first() =~= text@.skip(i + 1));
                if c == '\n' {
                    if cur <= 1 {
                        assert(line_text(rem, cur as nat) == Seq::<char>::empty());
                        break;
                    }
                    cur = cur - 1;
                    if cur <= 1 {
                        start = i + 1;
                        assert(text@.subrange(start as int, i + 1) =~= Seq::<char>::empty());
                    }
                } else if cur <= 1 {
                    assert(text@.subrange(start as int, i + 1) =~= text@.subrange(start as int, i as int)
                        + seq![c]);
                }
                i = i + 1;
            },
        }
    }
    if cur <= 1 {
        text.substring_char(start, i).to_owned()
    } else {
        String::new()
    }
}

/// What went wrong, with the names involved.
pub enum AnalyzeErrorKind {
    /// `name` was used as a `expected` but denotes a `actual`.
    MismatchType { name: StrId, expected: String, actual: String },
    /// The instance `name` leaves the declared port `port` unconnected.
    MissingPort { name: StrId, port: StrId },
    /// The instance `name` connects `port`, which its module does not declare.
    UnknownPort { name: StrId, port: StrId },
}

/// The model of an error kind, with texts as character sequences.
pub enum AnalyzeErrorKindView {
    MismatchType { name: StrId, expected: Seq<char>, actual: Seq<char> },
    MissingPort { name: StrId, port: StrId },
    UnknownPort { name: StrId, port: StrId },
}

impl View for AnalyzeErrorKind {
    type V = AnalyzeErrorKindView;

    open spec fn view(&self) -> AnalyzeErrorKindView {
        match self {
            AnalyzeErrorKind::MismatchType { name, expected, actual } => AnalyzeErrorKindView::MismatchType {
                name: *name,
                expected: expected@,
                actual: actual@,
            },
            AnalyzeErrorKind::MissingPort { name, port } => AnalyzeErrorKindView::MissingPort {
                name: *name,
                port: *port,
            },
            AnalyzeErrorKind::UnknownPort { name, port } => AnalyzeErrorKindView::UnknownPort {
                name: *name,
                port: *port,
            },
        }
    }
}

/// A semantic diagnostic: what went wrong, the token it points at, and the
/// source line on which that token stands.
pub struct AnalyzeError {
    pub kind: AnalyzeErrorKind,
    pub token: Token,
    pub source: String,
}

/// The model of a diagnostic.
pub struct AnalyzeErrorView {
    pub kind: AnalyzeErrorKindView,
    pub token: Token,
    pub source: Seq<char>,
}

impl View for AnalyzeError {
    type V = AnalyzeErrorView;

    open spec fn view(&self) -> AnalyzeErrorView {
        AnalyzeErrorView { kind: self.kind@, token: self.token, source: self.source@ }
    }
}

/// The diagnostic of kind `kind` at `token`, in the source text `text`.
pub open spec fn error_at(kind: AnalyzeErrorKindView, text: Seq<char>, token: Token) -> AnalyzeErrorView {
    AnalyzeErrorView { kind, token, source: line_text(text, token.line as nat) }
}

/// The stable code of each kind of diagnostic.
pub open spec fn error_code(kind: AnalyzeErrorKindView) -> Seq<char> {
    match kind {
        AnalyzeErrorKindView::MismatchType { .. } => "type-mismatch"@,
        AnalyzeErrorKindView::MissingPort { .. } => "missing-port"@,
        AnalyzeErrorKindView::UnknownPort { .. } => "unknown-port"@,
    }
}

/// The message of a diagnostic, with names spelled by `texts`.
pub open spec fn error_message(kind: AnalyzeErrorKindView, texts: Seq<Seq<char>>) -> Seq<char> {
    match kind {
        AnalyzeErrorKindView::MismatchType { name, expected, actual } => texts[name.0 as int]
            + " is expected to be "@ + expected + ", but it is "@ + actual,
        AnalyzeErrorKindView::MissingPort { name, port } => "port "@ + texts[port.0 as int]
            + " is not connected in instance "@ + texts[name.0 as int],
        AnalyzeErrorKindView::UnknownPort { name, port } => "instance "@ + texts[name.0 as int]
            + " connects port "@ + texts[port.0 as int] + ", which its module does not declare"@,
    }
}

/// Whether every name that `kind` holds is interned in `texts`.
pub open spec fn names_interned(kind: AnalyzeErrorKindView, texts: Seq<Seq<char>>) -> bool {
    match kind {
        AnalyzeErrorKindView::MismatchType { name, .. } => name.0 < texts.len(),
        AnalyzeErrorKindView::MissingPort { name, port } => name.0 < texts.len() && port.0 < texts.len(),
        AnalyzeErrorKindView::UnknownPort { name, port } => name.0 < texts.len() && port.0 < texts.len(),
    }
}

impl AnalyzeError {
    /// `name` is used as a `expected` but denotes a `actual`.
    pub fn mismatch_type(name: StrId, expected: &str, actual: &str, text: &str, token: &Token) -> (r: Self)
        ensures
            r@ == error_at(
                AnalyzeErrorKindView::MismatchType { name, expected: expected@, actual: actual@ },
                text@,
                *token,
            ),
    {
        AnalyzeError {
            kind: AnalyzeErrorKind::MismatchType {
                name,
                expected: expected.to_owned(),
                actual: actual.to_owned(),
            },
            token: *token,
            source: source_line(text, token.line),
        }
    }

    /// The instance `name` leaves the port `port` unconnected.
    pub fn missing_port(name: StrId, port: StrId, text: &str, token: &Token) -> (r: Self)
        ensures
            r@ == error_at(AnalyzeErrorKindView::MissingPort { name, port }, text@, *token),
    {
        AnalyzeError {
            kind: AnalyzeErrorKind::MissingPort { name, port },
            token: *token,
            source: source_line(text, token.line),
        }
    }

    /// The instance `name` connects `port`, which its module does not declare.
    pub fn unknown_port(name: StrId, port: StrId, text: &str, token: &Token) -> (r: Self)
        ensures
            r@ == error_at(AnalyzeErrorKindView::UnknownPort { name, port }, text@, *token),
    {
        AnalyzeError {
            kind: AnalyzeErrorKind::UnknownPort { name, port },
            token: *token,
            source: source_line(text, token.line),
        }
    }

    /// The stable machine-readable code of this diagnostic.
    pub fn code(&self) -> (r: String)
        ensures
            r@ == error_code(self.kind@),
    {
        match &self.kind {
            AnalyzeErrorKind::MismatchType { .. } => String::from_str("type-mismatch"),
            AnalyzeErrorKind::MissingPort { .. } => String::from_str("missing-port"),
            AnalyzeErrorKind::UnknownPort { .. } => String::from_str("unknown-port"),
        }
    }

    /// The human-readable message, with names spelled by `resources`.
    pub fn message(&self, resources: &ResourceTable) -> (r: String)
        requires
            names_interned(self.kind@, resources.texts()),
        ensures
            r@ == error_message(self.kind@, resources.texts()),
    {
        match &self.kind {
            AnalyzeErrorKind::MismatchType { name, expected, actual } => {
                let mut r = resources.get_str_value(*name).unwrap();
                r.append(" is expected to be ");
                r.append(expected.as_str());
                r.append(", but it is ");
                r.append(actual.as_str());
                r
            },
            AnalyzeErrorKind::MissingPort { name, port } => {
                let mut r = String::from_str("port ");
                r.append(resources.get_str_value(*port).unwrap().as_str());
                r.append(" is not connected in instance ");
                r.append(resources.get_str_value(*name).unwrap().as_str());
                r
            },
            AnalyzeErrorKind::UnknownPort { name, port } => {
                let mut r = String::from_str("instance ");
                r.append(resources.get_str_value(*name).unwrap().as_str());
                r.append(" connects port ");
                r.append(resources.get_str_value(*port).unwrap().as_str());
                r.append(", which its module does not declare");
                r
            },
        }
    }
}

} // verus!
