//! Helpers shared by the whitespace rules: white space around an offset, and
//! the four diagnostics about white space before or after a token.

use vstd::prelude::*;
use vstd::string::*;

use crate::cst::CstTree;
use crate::diagnostics::{safe_fix, concat3, make_kind, Diagnostic, DiagnosticKind, DiagView, EditView, Edit, Fix};
use crate::text::{
    char_at_pos, char_before_pos, chars_after, chars_before, is_boundary, is_whitespace_char,
    fits_text_size, spec_ws_after, spec_ws_before, spec_ws_range_after, spec_ws_range_before,
    ws_bytes_after, ws_bytes_before, TextRange, TextSize,
};

verus! {

/// The character before `pos` is white space (the start of the text counts as white space).
pub fn has_whitespace_before(source: &str, pos: TextSize) -> (r: bool)
    requires
        is_boundary(source, pos.raw as int),
    ensures
        r == spec_ws_before(source.spec_bytes(), pos.raw as int),
{
    if pos.raw == 0 {
        return true;
    }
    match char_before_pos(source, pos.raw as usize) {
        Some(c) => is_whitespace_char(c),
        None => false,
    }
}

/// The character at `pos` is white space.
pub fn has_whitespace_after(source: &str, pos: TextSize) -> (r: bool)
    requires
        is_boundary(source, pos.raw as int),
    ensures
        r == spec_ws_after(source.spec_bytes(), pos.raw as int),
{
    match char_at_pos(source, pos.raw as usize) {
        Some(c) => is_whitespace_char(c),
        None => false,
    }
}

/// The character before `pos`, if any.
pub fn char_before(source: &str, pos: TextSize) -> (r: Option<char>)
    requires
        is_boundary(source, pos.raw as int),
    ensures
        r == if pos.raw == 0 || chars_before(source.spec_bytes(), pos.raw as int).len() == 0 {
            None
        } else {
            Some(chars_before(source.spec_bytes(), pos.raw as int).last())
        },
{
    if pos.raw == 0 {
        return None;
    }
    char_before_pos(source, pos.raw as usize)
}

/// The character at `pos`, if any.
pub fn char_after(source: &str, pos: TextSize) -> (r: Option<char>)
    requires
        is_boundary(source, pos.raw as int),
    ensures
        r == if chars_after(source.spec_bytes(), pos.raw as int).len() == 0 {
            None
        } else {
            Some(chars_after(source.spec_bytes(), pos.raw as int)[0])
        },
{
    char_at_pos(source, pos.raw as usize)
}

/// The character before `pos` is a line feed.
pub fn has_newline_before(source: &str, pos: TextSize) -> (r: bool)
    requires
        is_boundary(source, pos.raw as int),
    ensures
        r == (pos.raw != 0 && chars_before(source.spec_bytes(), pos.raw as int).len() > 0
            && chars_before(source.spec_bytes(), pos.raw as int).last() == '\n'),
{
    match char_before(source, pos) {
        Some(c) => c == '\n',
        None => false,
    }
}

/// The character at `pos` is a line feed.
pub fn has_newline_after(source: &str, pos: TextSize) -> (r: bool)
    requires
        is_boundary(source, pos.raw as int),
    ensures
        r == (chars_after(source.spec_bytes(), pos.raw as int).len() > 0 && chars_after(source.spec_bytes(), pos.raw as int)[0]
            == '\n'),
{
    match char_after(source, pos) {
        Some(c) => c == '\n',
        None => false,
    }
}

/// The view of an optional range.
pub open spec fn opt_range(r: Option<TextRange>) -> Option<(int, int)> {
    match r {
        Some(x) => Some((x.start.raw as int, x.end.raw as int)),
        None => None,
    }
}

/// The run of white space that ends at `pos`, if there is one.
pub fn whitespace_range_before(source: &str, pos: TextSize) -> (r: Option<TextRange>)
    requires
        is_boundary(source, pos.raw as int),
    ensures
        opt_range(r) == spec_ws_range_before(source.spec_bytes(), pos.raw as int),
{
    let idx = pos.raw as usize;
    let n = ws_bytes_before(source, idx);
    if n == 0 {
        return None;
    }
    Some(TextRange::new(TextSize::new((idx - n) as u32), pos))
}

/// The run of white space that starts at `pos`, if there is one.
pub fn whitespace_range_after(source: &str, pos: TextSize) -> (r: Option<TextRange>)
    requires
        is_boundary(source, pos.raw as int),
        fits_text_size(source),
    ensures
        opt_range(r) == spec_ws_range_after(source.spec_bytes(), pos.raw as int),
{
    let idx = pos.raw as usize;
    let n = ws_bytes_after(source, idx);
    if n == 0 {
        return None;
    }
    Some(TextRange::new(pos, TextSize::new((idx + n) as u32)))
}

/// Message: the token is not followed by white space.
pub open spec fn not_followed_msg(token: Seq<char>) -> Seq<char> {
    "'"@ + token + "' is not followed by whitespace"@
}

/// Message: the token is not preceded by white space.
pub open spec fn not_preceded_msg(token: Seq<char>) -> Seq<char> {
    "'"@ + token + "' is not preceded by whitespace"@
}

/// Message: the token is followed by white space.
pub open spec fn followed_msg(token: Seq<char>) -> Seq<char> {
    "'"@ + token + "' is followed by whitespace"@
}

/// Message: the token is preceded by white space.
pub open spec fn preceded_msg(token: Seq<char>) -> Seq<char> {
    "'"@ + token + "' is preceded by whitespace"@
}

/// Violation: a token is not followed by white space.
#[derive(Clone, Debug)]
pub struct NotFollowed {
    pub token: String,
}

impl NotFollowed {
    pub fn message(&self) -> (r: String)
        ensures
            r@ == not_followed_msg(self.token@),
    {
        concat3("'", self.token.as_str(), "' is not followed by whitespace")
    }

    pub fn kind(&self) -> (r: DiagnosticKind)
        ensures
            r.name@ == "NotFollowed"@,
            r.body@ == not_followed_msg(self.token@),
    {
        make_kind("NotFollowed", self.message())
    }
}

/// Violation: a token is not preceded by white space.
#[derive(Clone, Debug)]
pub struct NotPreceded {
    pub token: String,
}

impl NotPreceded {
    pub fn message(&self) -> (r: String)
        ensures
            r@ == not_preceded_msg(self.token@),
    {
        concat3("'", self.token.as_str(), "' is not preceded by whitespace")
    }

    pub fn kind(&self) -> (r: DiagnosticKind)
        ensures
            r.name@ == "NotPreceded"@,
            r.body@ == not_preceded_msg(self.token@),
    {
        make_kind("NotPreceded", self.message())
    }
}

/// Violation: a token is followed by white space where none is wanted.
#[derive(Clone, Debug)]
pub struct Followed {
    pub token: String,
}

impl Followed {
    pub fn message(&self) -> (r: String)
        ensures
            r@ == followed_msg(self.token@),
    {
        concat3("'", self.token.as_str(), "' is followed by whitespace")
    }

    pub fn kind(&self) -> (r: DiagnosticKind)
        ensures
            r.name@ == "Followed"@,
            r.body@ == followed_msg(self.token@),
    {
        make_kind("Followed", self.message())
    }
}

/// Violation: a token is preceded by white space where none is wanted.
#[derive(Clone, Debug)]
pub struct Preceded {
    pub token: String,
}

impl Preceded {
    pub fn message(&self) -> (r: String)
        ensures
            r@ == preceded_msg(self.token@),
    {
        concat3("'", self.token.as_str(), "' is preceded by whitespace")
    }

    pub fn kind(&self) -> (r: DiagnosticKind)
        ensures
            r.name@ == "Preceded"@,
            r.body@ == preceded_msg(self.token@),
    {
        make_kind("Preceded", self.message())
    }
}

/// The diagnostic that says token `t` is not followed by white space, with the
/// fix that inserts a space after it.
pub open spec fn spec_diag_not_followed(tree: CstTree, t: int) -> DiagView {
    (
        "NotFollowed"@,
        not_followed_msg(tree.text_of(t)),
        tree.start_of(t),
        tree.end_of(t),
        safe_fix(Some(seq![(Some(" "@), tree.end_of(t), tree.end_of(t))])),
    )
}

/// The diagnostic that says token `t` is not preceded by white space, with the
/// fix that inserts a space before it.
pub open spec fn spec_diag_not_preceded(tree: CstTree, t: int) -> DiagView {
    (
        "NotPreceded"@,
        not_preceded_msg(tree.text_of(t)),
        tree.start_of(t),
        tree.end_of(t),
        safe_fix(Some(seq![(Some(" "@), tree.start_of(t), tree.start_of(t))])),
    )
}

/// The diagnostic that says token `t` is followed by the white space `ws`,
/// with the fix that deletes it.
pub open spec fn spec_diag_followed(tree: CstTree, t: int, ws: (int, int)) -> DiagView {
    ("Followed"@, followed_msg(tree.text_of(t)), tree.start_of(t), tree.end_of(t), safe_fix(Some(seq![(None, ws.0, ws.1)])))
}

/// The diagnostic that says token `t` is preceded by the white space `ws`,
/// with the fix that deletes it.
pub open spec fn spec_diag_preceded(tree: CstTree, t: int, ws: (int, int)) -> DiagView {
    ("Preceded"@, preceded_msg(tree.text_of(t)), tree.start_of(t), tree.end_of(t), safe_fix(Some(seq![(None, ws.0, ws.1)])))
}

/// Missing white space after token `t`.
pub fn diag_not_followed(tree: &CstTree, t: usize) -> (r: Diagnostic)
    requires
        tree.wf(),
        t < tree.node_count(),
    ensures
        r.dv() == spec_diag_not_followed(*tree, t as int),
{
    let range = tree.range(t);
    let v = NotFollowed { token: String::from_str(tree.text(t)) };
    let r = Diagnostic::new(v.kind(), range).with_fix(Fix::safe_edit(Edit::insertion(String::from_str(" "), range.end)));
    proof {
        assert(crate::diagnostics::edit_views(r.fix.unwrap().edits@) =~= seq![(Some(" "@), tree.end_of(t as int), tree.end_of(t as int))]);
    }
    r
}

/// Missing white space before token `t`.
pub fn diag_not_preceded(tree: &CstTree, t: usize) -> (r: Diagnostic)
    requires
        tree.wf(),
        t < tree.node_count(),
    ensures
        r.dv() == spec_diag_not_preceded(*tree, t as int),
{
    let range = tree.range(t);
    let v = NotPreceded { token: String::from_str(tree.text(t)) };
    let r = Diagnostic::new(v.kind(), range).with_fix(Fix::safe_edit(Edit::insertion(String::from_str(" "), range.start)));
    proof {
        assert(crate::diagnostics::edit_views(r.fix.unwrap().edits@) =~= seq![(Some(" "@), tree.start_of(t as int), tree.start_of(t as int))]);
    }
    r
}

/// Unwanted white space `ws` after token `t`.
pub fn diag_followed(tree: &CstTree, t: usize, ws: TextRange) -> (r: Diagnostic)
    requires
        tree.wf(),
        t < tree.node_count(),
    ensures
        r.dv() == spec_diag_followed(*tree, t as int, (ws.start.raw as int, ws.end.raw as int)),
{
    let range = tree.range(t);
    let v = Followed { token: String::from_str(tree.text(t)) };
    let r = Diagnostic::new(v.kind(), range).with_fix(Fix::safe_edit(Edit::range_deletion(ws)));
    proof {
        assert(crate::diagnostics::edit_views(r.fix.unwrap().edits@) =~= seq![(None, ws.start.raw as int, ws.end.raw as int)]);
    }
    r
}

/// Unwanted white space `ws` before token `t`.
pub fn diag_preceded(tree: &CstTree, t: usize, ws: TextRange) -> (r: Diagnostic)
    requires
        tree.wf(),
        t < tree.node_count(),
    ensures
        r.dv() == spec_diag_preceded(*tree, t as int, (ws.start.raw as int, ws.end.raw as int)),
{
    let range = tree.range(t);
    let v = Preceded { token: String::from_str(tree.text(t)) };
    let r = Diagnostic::new(v.kind(), range).with_fix(Fix::safe_edit(Edit::range_deletion(ws)));
    proof {
        assert(crate::diagnostics::edit_views(r.fix.unwrap().edits@) =~= seq![(None, ws.start.raw as int, ws.end.raw as int)]);
    }
    r
}

} // verus!
