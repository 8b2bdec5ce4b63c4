//! What a rule reports: a message at a range of the source, with an optional fix.

use vstd::prelude::*;

use crate::text::{TextRange, TextSize};

verus! {

/// The plain values of an edit: its text (if any), start and end.
pub type EditView = (Option<Seq<char>>, int, int);

/// The plain values of a fix: its edits and how safe it is to apply.
pub type FixView = (Seq<EditView>, Applicability);

/// The plain values of a diagnostic: violation name, message, start, end, and
/// its fix (if any).
pub type DiagView = (Seq<char>, Seq<char>, int, int, Option<FixView>);

/// A safe fix of the edits `edits`, if there are any.
pub open spec fn safe_fix(edits: Option<Seq<EditView>>) -> Option<FixView> {
    match edits {
        Some(e) => Some((e, Applicability::Safe)),
        None => None,
    }
}

/// The plain values of an optional string.
pub open spec fn opt_str(s: Option<String>) -> Option<Seq<char>> {
    match s {
        Some(v) => Some(v@),
        None => None,
    }
}

/// The plain values of a list of edits.
pub open spec fn edit_views(es: Seq<Edit>) -> Seq<EditView> {
    es.map_values(|e: Edit| e.ev())
}

/// The plain values of a list of diagnostics.
pub open spec fn diag_views(ds: Seq<Diagnostic>) -> Seq<DiagView> {
    ds.map_values(|d: Diagnostic| d.dv())
}

/// A change of the source: the bytes of `range` are replaced by `content`
/// (nothing, for a deletion).
#[derive(Clone, Debug, PartialEq, Eq)]
pub struct Edit {
    pub content: Option<String>,
    pub range: TextRange,
}

impl Edit {
    pub open spec fn ev(&self) -> EditView {
        (opt_str(self.content), self.range.start.raw as int, self.range.end.raw as int)
    }

    /// Insert `content` at `at`.
    pub fn insertion(content: String, at: TextSize) -> (r: Self)
        ensures
            r.content == Some(content),
            r.range.start == at,
            r.range.end == at,
    {
        Edit { content: Some(content), range: TextRange::new(at, at) }
    }

    /// Delete the bytes from `start` to `end`.
    pub fn deletion(start: TextSize, end: TextSize) -> (r: Self)
        requires
            start.raw <= end.raw,
        ensures
            r.content.is_none(),
            r.range.start == start,
            r.range.end == end,
    {
        Edit { content: None, range: TextRange::new(start, end) }
    }

    /// Delete the bytes of `range`.
    pub fn range_deletion(range: TextRange) -> (r: Self)
        ensures
            r.content.is_none(),
            r.range == range,
    {
        Edit { content: None, range }
    }

    /// Replace the bytes of `range` by `content`.
    pub fn range_replacement(content: String, range: TextRange) -> (r: Self)
        ensures
            r.content == Some(content),
            r.range == range,
    {
        Edit { content: Some(content), range }
    }

    /// Replace the bytes from `start` to `end` by `content`.
    pub fn replacement(content: String, start: TextSize, end: TextSize) -> (r: Self)
        requires
            start.raw <= end.raw,
        ensures
            r.content == Some(content),
            r.range.start == start,
            r.range.end == end,
    {
        Edit { content: Some(content), range: TextRange::new(start, end) }
    }

    /// The inserted or replacing text, if any.
    pub fn content(&self) -> (r: Option<&str>)
        ensures
            r.is_some() == self.content.is_some(),
            r.is_some() ==> r.unwrap()@ == self.content.unwrap()@,
    {
        match &self.content {
            Some(c) => Some(c.as_str()),
            None => None,
        }
    }

    /// The range the edit replaces.
    pub fn range(&self) -> (r: TextRange)
        ensures
            r == self.range,
    {
        self.range
    }

    /// The edit inserts non-empty text without removing any.
    pub fn is_insertion(&self) -> (r: bool)
        ensures
            r == (self.range.start.raw == self.range.end.raw && self.content.is_some()
                && self.content.unwrap()@.len() > 0),
    {
        match &self.content {
            Some(c) => self.range.start.raw == self.range.end.raw && c.as_str().unicode_len() > 0,
            None => false,
        }
    }

    /// The edit removes text and inserts none.
    pub fn is_deletion(&self) -> (r: bool)
        ensures
            r == (self.content.is_none() && self.range.start.raw != self.range.end.raw),
    {
        self.content.is_none() && self.range.start.raw != self.range.end.raw
    }
}

/// How safe it is to apply a fix without review.
#[derive(Clone, Copy, Debug, PartialEq, Eq, Structural)]
pub enum Applicability {
    Safe,
    Unsafe,
}

/// A set of edits that together repair a diagnostic.
#[derive(Clone, Debug, PartialEq, Eq)]
pub struct Fix {
    pub edits: Vec<Edit>,
    pub applicability: Applicability,
}

impl Fix {
    /// A safe fix made of the one edit `edit`.
    pub fn safe_edit(edit: Edit) -> (r: Self)
        ensures
            r.edits@ == seq![edit],
            r.applicability == Applicability::Safe,
    {
        let mut edits = Vec::new();
        edits.push(edit);
        Fix { edits, applicability: Applicability::Safe }
    }

    /// The edits of the fix.
    pub fn edits(&self) -> (r: &[Edit])
        ensures
            r@ == self.edits@,
    {
        self.edits.as_slice()
    }
}

/// The name of the violation and its message.
#[derive(Clone, Debug, PartialEq, Eq)]
pub struct DiagnosticKind {
    pub name: String,
    pub body: String,
}

/// One violation found in the source.
#[derive(Clone, Debug, PartialEq, Eq)]
pub struct Diagnostic {
    pub kind: DiagnosticKind,
    pub range: TextRange,
    pub fix: Option<Fix>,
}

impl Diagnostic {
    pub open spec fn dv(&self) -> DiagView {
        (
            self.kind.name@,
            self.kind.body@,
            self.range.start.raw as int,
            self.range.end.raw as int,
            match self.fix {
                Some(f) => Some((edit_views(f.edits@), f.applicability)),
                None => None,
            },
        )
    }

    /// A diagnostic without a fix.
    pub fn new(kind: DiagnosticKind, range: TextRange) -> (r: Self)
        ensures
            r.kind == kind,
            r.range == range,
            r.fix.is_none(),
    {
        Diagnostic { kind, range, fix: None }
    }

    /// The same diagnostic, with `fix`.
    pub fn with_fix(self, fix: Fix) -> (r: Self)
        ensures
            r.kind == self.kind,
            r.range == self.range,
            r.fix == Some(fix),
    {
        Diagnostic { kind: self.kind, range: self.range, fix: Some(fix) }
    }
}

/// Adds `d` at the end of `v`.
pub fn push_diag(v: &mut Vec<Diagnostic>, d: Diagnostic)
    ensures
        diag_views(final(v)@) == diag_views(old(v)@).push(d.dv()),
{
    let ghost dv = d.dv();
    v.push(d);
    assert(diag_views(v@) =~= diag_views(old(v)@).push(dv));
}

/// Adds the diagnostics of `w` at the end of `v`.
pub fn append_diags(v: &mut Vec<Diagnostic>, w: Vec<Diagnostic>)
    ensures
        diag_views(final(v)@) == diag_views(old(v)@) + diag_views(w@),
{
    let mut w = w;
    let ghost ws = w@;
    v.append(&mut w);
    assert(diag_views(v@) =~= diag_views(old(v)@) + diag_views(ws));
}

/// The list holding `d` alone.
pub fn one_diag(d: Diagnostic) -> (r: Vec<Diagnostic>)
    ensures
        diag_views(r@) == seq![d.dv()],
{
    let mut v = Vec::new();
    push_diag(&mut v, d);
    assert(diag_views(Seq::<Diagnostic>::empty()) =~= Seq::<DiagView>::empty());
    v
}

/// The empty list.
pub fn no_diags() -> (r: Vec<Diagnostic>)
    ensures
        diag_views(r@) == Seq::<DiagView>::empty(),
{
    let v = Vec::new();
    assert(diag_views(v@) =~= Seq::<DiagView>::empty());
    v
}

/// `a` followed by `b`.
pub fn concat2(a: &str, b: &str) -> (r: String)
    ensures
        r@ == a@ + b@,
{
    let mut s = String::from_str(a);
    s.append(b);
    s
}

/// `a`, `b` and `c` one after the other.
pub fn concat3(a: &str, b: &str, c: &str) -> (r: String)
    ensures
        r@ == a@ + b@ + c@,
{
    let mut s = String::from_str(a);
    s.append(b);
    s.append(c);
    s
}

/// A kind named `name` with message `body`.
pub fn make_kind(name: &str, body: String) -> (r: DiagnosticKind)
    ensures
        r.name@ == name@,
        r.body == body,
{
    DiagnosticKind { name: String::from_str(name), body }
}

} // verus!
