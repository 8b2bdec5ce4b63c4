//! SingleSpaceSeparator: tokens are separated by one space, not more.

use vstd::prelude::*;

use crate::config::Properties;
use crate::cst::CstTree;
use crate::diagnostics::{safe_fix, diag_views, edit_views, make_kind, no_diags, one_diag, DiagView, Diagnostic, DiagnosticKind, Edit, Fix};
use crate::strings::{contains_str, has_substring, str_eq, string_from_chars};
use crate::text::{
    after_last_lf, before_first_lf, chars_after, chars_before, is_white_space, is_whitespace_char, lemma_encode_concat,
    lemma_line_tail_suffix, lemma_split_chars, lemma_utf8_len_ge, lf_line_before, line_prefix, line_tail, rest_of_line,
    trailing_ws, utf8_len, TextRange, TextSize,
};

verus! {

/// Violation: more than one space separates two tokens.
#[derive(Clone, Debug)]
pub struct SingleSpaceSeparatorViolation;

/// The message of the violation.
pub open spec fn single_space_msg() -> Seq<char> {
    "'Use a single space to separate non-whitespace characters"@
}

impl SingleSpaceSeparatorViolation {
    /// The message of the violation.
    pub fn message(&self) -> (r: String)
        ensures
            r@ == single_space_msg(),
    {
        String::from_str("'Use a single space to separate non-whitespace characters")
    }

    /// The kind of diagnostic the violation gives.
    pub fn kind(&self) -> (r: DiagnosticKind)
        ensures
            r.name@ == "SingleSpaceSeparatorViolation"@,
            r.body@ == single_space_msg(),
    {
        make_kind("SingleSpaceSeparatorViolation", self.message())
    }
}

/// The SingleSpaceSeparator rule.
#[derive(Clone, Debug)]
pub struct SingleSpaceSeparator {
    /// Check around comments too.
    pub validate_comments: bool,
}

/// All of `cs[..col]` is white space.
pub open spec fn first_in_line(cs: Seq<char>, col: int) -> bool {
    forall|i: int| 0 <= i < col ==> is_white_space(#[trigger] cs[i])
}

/// Without its trailing white space, `cs[..col]` ends with `*/`.
pub open spec fn block_comment_end(cs: Seq<char>, col: int) -> bool {
    let before = cs.subrange(0, col);
    let e = col - trailing_ws(before);
    e >= 2 && before[e - 2] == '*' && before[e - 1] == '/'
}

/// The number of spaces at the end of `cs`.
pub open spec fn trailing_spaces(cs: Seq<char>) -> nat
    decreases cs.len(),
{
    if cs.len() > 0 && cs.last() == ' ' {
        1 + trailing_spaces(cs.drop_last())
    } else {
        0
    }
}

/// The line of node `t` (split at line feeds) mentions a comment: `//`, or both `/*` and `*/`.
pub open spec fn comment_on_line(tree: CstTree, t: int) -> bool {
    let b = tree.src_bytes();
    let pos = tree.start_of(t);
    let line = after_last_lf(chars_before(b, pos)) + before_first_lf(chars_after(b, pos));
    has_substring(line, "//"@) || (has_substring(line, "/*"@) && has_substring(line, "*/"@))
}

/// Node `t` lies inside a string, character or text-block literal.
pub open spec fn inside_literal(tree: CstTree, t: int) -> bool {
    tree.enclosing(t, "string_literal"@) is Some || tree.enclosing(t, "character_literal"@) is Some || tree.enclosing(
        t,
        "text_block"@,
    ) is Some
}

/// The diagnostic for several spaces before node `t`: reported at the second
/// space, with the fix that replaces the spaces by one.
pub open spec fn spec_token(validate: bool, tree: CstTree, t: int) -> Seq<DiagView> {
    let b = tree.src_bytes();
    let pos = tree.start_of(t);
    let next = chars_after(b, pos);
    let tail = line_tail(chars_before(b, pos), next.len() > 0 && next[0] == '\n');
    let col = tail.len() as int;
    let sc = trailing_spaces(tail) as int;
    let cp = col - sc;
    if inside_literal(tree, t) || col < 2 || next.len() == 0 || sc <= 1 || first_in_line(tail, col) || (!validate
        && block_comment_end(tail, cp)) {
        seq![]
    } else {
        let ls = pos - utf8_len(tail);
        seq![(
            "SingleSpaceSeparatorViolation"@,
            single_space_msg(),
            ls + cp + 1,
            ls + cp + 2,
            safe_fix(Some(seq![(Some(" "@), ls + cp, ls + col)])),
        )]
    }
}

/// The diagnostics of SingleSpaceSeparator at node `node`.
pub open spec fn spec_check(validate: bool, tree: CstTree, node: int) -> Seq<DiagView> {
    let k = tree.kind_of(node);
    if !validate && (k == "line_comment"@ || k == "block_comment"@ || k == "comment"@) {
        seq![]
    } else if !validate && comment_on_line(tree, node) {
        seq![]
    } else {
        spec_token(validate, tree, node)
    }
}

/// All of `chars[..column_no]` is white space.
pub fn is_first_in_line(chars: &[char], column_no: usize) -> (r: bool)
    requires
        column_no <= chars@.len(),
    ensures
        r == first_in_line(chars@, column_no as int),
{
    let mut i: usize = 0;
    while i < column_no
        invariant
            column_no <= chars@.len(),
            0 <= i <= column_no,
            forall|k: int| 0 <= k < i ==> is_white_space(#[trigger] chars@[k]),
        decreases column_no - i,
    {
        if !is_whitespace_char(chars[i]) {
            return false;
        }
        i = i + 1;
    }
    true
}

/// Without its trailing white space, `chars[..column_no]` ends with `*/`.
pub fn is_block_comment_end(chars: &[char], column_no: usize) -> (r: bool)
    requires
        column_no <= chars@.len(),
    ensures
        r == block_comment_end(chars@, column_no as int),
{
    let ghost before = chars@.subrange(0, column_no as int);
    let mut end_idx = column_no;
    proof {
        crate::text::lemma_trailing_ws_bound(before);
    }
    while end_idx > 0 && is_whitespace_char(chars[end_idx - 1])
        invariant
            column_no <= chars@.len(),
            before == chars@.subrange(0, column_no as int),
            0 <= end_idx <= column_no,
            forall|k: int| end_idx <= k < column_no ==> is_white_space(#[trigger] chars@[k]),
        decreases end_idx,
    {
        end_idx = end_idx - 1;
    }
    proof {
        assert forall|k: int| before.len() - (column_no - end_idx) <= k < before.len() implies is_white_space(#[trigger] before[k]) by {
            assert(before[k] == chars@[k]);
        }
        if end_idx > 0 {
            assert(before[end_idx - 1] == chars@[end_idx - 1]);
        }
        crate::text::lemma_trailing_ws_suffix(before, column_no - end_idx);
    }
    if end_idx < 2 {
        return false;
    }
    chars[end_idx - 2] == '*' && chars[end_idx - 1] == '/'
}

impl Default for SingleSpaceSeparator {
    /// The rule without checks around comments.
    fn default() -> (r: Self)
        ensures
            !r.validate_comments,
    {
        SingleSpaceSeparator { validate_comments: false }
    }
}

impl SingleSpaceSeparator {
    /// The rule as the properties configure it: `validateComments` is true when exactly `true`.
    pub fn from_config(properties: &Properties) -> (r: Self)
        ensures
            r.validate_comments == (properties.lookup("validateComments"@) == Some("true"@)),
    {
        let validate_comments = match properties.get("validateComments") {
            Some(v) => str_eq(v, "true"),
            None => false,
        };
        SingleSpaceSeparator { validate_comments }
    }

    /// The rule's name.
    pub fn name(&self) -> (r: &'static str)
        ensures
            r@ == "SingleSpaceSeparator"@,
    {
        "SingleSpaceSeparator"
    }

    /// The violations at node `node`.
    pub fn check(&self, tree: &CstTree, node: usize) -> (r: Vec<Diagnostic>)
        requires
            tree.wf(),
            node < tree.node_count(),
        ensures
            diag_views(r@) == spec_check(self.validate_comments, *tree, node as int),
    {
        let k = tree.kind(node);
        if !self.validate_comments && (str_eq(k, "line_comment") || str_eq(k, "block_comment") || str_eq(k, "comment")) {
            return no_diags();
        }
        if !self.validate_comments && has_comment_on_line(tree, node) {
            return no_diags();
        }
        check_token_whitespace(tree, node, self.validate_comments)
    }
}

/// The line of node `t` mentions a comment.
fn has_comment_on_line(tree: &CstTree, t: usize) -> (r: bool)
    requires
        tree.wf(),
        t < tree.node_count(),
    ensures
        r == comment_on_line(*tree, t as int),
{
    let source = tree.source();
    let pos = tree.range(t).start.raw as usize;
    let a = lf_line_before(source, pos);
    let b = rest_of_line(source, pos);
    let mut line = string_from_chars(&a, 0, a.len());
    let rest = string_from_chars(&b, 0, b.len());
    line.append(rest.as_str());
    proof {
        assert(a@.subrange(0, a@.len() as int) =~= a@);
        assert(b@.subrange(0, b@.len() as int) =~= b@);
    }
    let l = line.as_str();
    contains_str(l, "//") || (contains_str(l, "/*") && contains_str(l, "*/"))
}

/// Node `t` lies inside a literal.
fn is_inside_literal(tree: &CstTree, t: usize) -> (r: bool)
    requires
        tree.wf(),
        t < tree.node_count(),
    ensures
        r == inside_literal(*tree, t as int),
{
    tree.ancestor_of_kind(t, "string_literal").is_some() || tree.ancestor_of_kind(t, "character_literal").is_some()
        || tree.ancestor_of_kind(t, "text_block").is_some()
}

/// The diagnostic for several spaces before node `t`.
pub fn check_token_whitespace(tree: &CstTree, t: usize, validate_comments: bool) -> (r: Vec<Diagnostic>)
    requires
        tree.wf(),
        t < tree.node_count(),
    ensures
        diag_views(r@) == spec_token(validate_comments, *tree, t as int),
{
    if is_inside_literal(tree, t) {
        return no_diags();
    }
    let source = tree.source();
    let start = tree.range(t).start;
    let pos = start.raw as usize;
    let tail = line_prefix(source, pos);
    let col = tail.len();
    if col < 2 {
        return no_diags();
    }
    if crate::text::char_at_pos(source, pos).is_none() {
        return no_diags();
    }
    let mut check_pos = col;
    proof {
        assert(tail@.subrange(0, col as int) =~= tail@);
    }
    while check_pos > 0 && tail[check_pos - 1] == ' '
        invariant
            col == tail@.len(),
            0 <= check_pos <= col,
            trailing_spaces(tail@) == (col - check_pos) + trailing_spaces(tail@.subrange(0, check_pos as int)),
        decreases check_pos,
    {
        proof {
            let pre = tail@.subrange(0, check_pos as int);
            assert(pre.drop_last() =~= tail@.subrange(0, check_pos - 1));
        }
        check_pos = check_pos - 1;
    }
    proof {
        let pre = tail@.subrange(0, check_pos as int);
        if check_pos > 0 {
            assert(pre.last() == tail@[check_pos - 1]);
        }
    }
    let space_count = col - check_pos;
    if space_count <= 1 {
        return no_diags();
    }
    if is_first_in_line(tail.as_slice(), col) {
        return no_diags();
    }
    if !validate_comments && is_block_comment_end(tail.as_slice(), check_pos) {
        return no_diags();
    }
    let tail_text = string_from_chars(&tail, 0, col);
    let tail_bytes = tail_text.as_str().len();
    proof {
        let b = tree.src_bytes();
        let next = chars_after(b, pos as int);
        let prefix = chars_before(b, pos as int);
        lemma_line_tail_suffix(prefix, next.len() > 0 && next[0] == '\n');
        lemma_split_chars(source, pos as int);
        let k = prefix.len() - tail@.len();
        assert(prefix.subrange(0, k) + tail@ =~= prefix);
        lemma_encode_concat(prefix.subrange(0, k), tail@);
        lemma_utf8_len_ge(tail@);
        assert(tail@.subrange(0, col as int) =~= tail@);
        assert(tail_bytes == utf8_len(tail@));
        assert(pos < b.len());
    }
    let ls = pos - tail_bytes;
    let v = (ls + check_pos + 1) as u32;
    let range = TextRange::new(TextSize::new(v), TextSize::new(v + 1));
    let fix_range = TextRange::new(TextSize::new((ls + check_pos) as u32), TextSize::new((ls + col) as u32));
    let d = Diagnostic::new(SingleSpaceSeparatorViolation.kind(), range).with_fix(
        Fix::safe_edit(Edit::range_replacement(String::from_str(" "), fix_range)),
    );
    proof {
        assert(edit_views(d.fix.unwrap().edits@) =~= seq![(Some(" "@), (ls + check_pos) as int, (ls + col) as int)]);
    }
    one_diag(d)
}

} // verus!
