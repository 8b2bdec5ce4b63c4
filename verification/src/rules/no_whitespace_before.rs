//! NoWhitespaceBefore: no white space before certain tokens.

use vstd::prelude::*;

use crate::config::Properties;
use crate::cst::CstTree;
use crate::diagnostics::{diag_views, no_diags, one_diag, DiagView, Diagnostic};
use crate::rules::common::{diag_preceded, spec_diag_preceded, whitespace_range_before};
use crate::strings::{filter_map, split_commas, split_commas_exec, str_eq, str_views, trim, trim_chars};
use crate::text::spec_ws_range_before;

verus! {

/// The tokens before which NoWhitespaceBefore forbids white space.
#[derive(Clone, Copy, Debug, PartialEq, Eq, Hash, Structural)]
pub enum NoWhitespaceBeforeToken {
    Comma,
    Semi,
    PostInc,
    PostDec,
    Ellipsis,
    LabeledStat,
    Dot,
    MethodRef,
    GenericStart,
    GenericEnd,
}

/// The token that the name `s` stands for, if any.
pub open spec fn no_whitespace_before_token_named(s: Seq<char>) -> Option<NoWhitespaceBeforeToken> {
    if s == "COMMA"@ {
        Some(NoWhitespaceBeforeToken::Comma)
    } else if s == "SEMI"@ {
        Some(NoWhitespaceBeforeToken::Semi)
    } else if s == "POST_INC"@ {
        Some(NoWhitespaceBeforeToken::PostInc)
    } else if s == "POST_DEC"@ {
        Some(NoWhitespaceBeforeToken::PostDec)
    } else if s == "ELLIPSIS"@ {
        Some(NoWhitespaceBeforeToken::Ellipsis)
    } else if s == "LABELED_STAT"@ {
        Some(NoWhitespaceBeforeToken::LabeledStat)
    } else if s == "DOT"@ {
        Some(NoWhitespaceBeforeToken::Dot)
    } else if s == "METHOD_REF"@ {
        Some(NoWhitespaceBeforeToken::MethodRef)
    } else if s == "GENERIC_START"@ {
        Some(NoWhitespaceBeforeToken::GenericStart)
    } else if s == "GENERIC_END"@ {
        Some(NoWhitespaceBeforeToken::GenericEnd)
    } else {
        None
    }
}

impl NoWhitespaceBeforeToken {
    /// The token named `s` (around white space), if any.
    pub fn from_str(s: &str) -> (r: Option<Self>)
        ensures
            r == no_whitespace_before_token_named(trim_chars(s@)),
    {
        let t = trim(s);
        if str_eq(t, "COMMA") {
            Some(NoWhitespaceBeforeToken::Comma)
        } else if str_eq(t, "SEMI") {
            Some(NoWhitespaceBeforeToken::Semi)
        } else if str_eq(t, "POST_INC") {
            Some(NoWhitespaceBeforeToken::PostInc)
        } else if str_eq(t, "POST_DEC") {
            Some(NoWhitespaceBeforeToken::PostDec)
        } else if str_eq(t, "ELLIPSIS") {
            Some(NoWhitespaceBeforeToken::Ellipsis)
        } else if str_eq(t, "LABELED_STAT") {
            Some(NoWhitespaceBeforeToken::LabeledStat)
        } else if str_eq(t, "DOT") {
            Some(NoWhitespaceBeforeToken::Dot)
        } else if str_eq(t, "METHOD_REF") {
            Some(NoWhitespaceBeforeToken::MethodRef)
        } else if str_eq(t, "GENERIC_START") {
            Some(NoWhitespaceBeforeToken::GenericStart)
        } else if str_eq(t, "GENERIC_END") {
            Some(NoWhitespaceBeforeToken::GenericEnd)
        } else {
            None
        }
    }
}

/// `t` is one of `tokens`.
fn has_no_whitespace_before_token(tokens: &Vec<NoWhitespaceBeforeToken>, t: NoWhitespaceBeforeToken) -> (r: bool)
    ensures
        r == tokens@.contains(t),
{
    let mut i: usize = 0;
    while i < tokens.len()
        invariant
            0 <= i <= tokens@.len(),
            forall|k: int| 0 <= k < i ==> tokens@[k] != t,
        decreases tokens@.len() - i,
    {
        if tokens[i] == t {
            return true;
        }
        i = i + 1;
    }
    false
}

/// The tokens named by the comma-separated list `pieces`, in order; names that stand for no token are skipped.
fn parse_no_whitespace_before_tokens(pieces: &Vec<String>) -> (r: Vec<NoWhitespaceBeforeToken>)
    ensures
        r@ == filter_map(str_views(pieces@), |p: Seq<char>| no_whitespace_before_token_named(trim_chars(p))),
{
    let mut out: Vec<NoWhitespaceBeforeToken> = Vec::new();
    let mut i: usize = 0;
    proof {
        assert(str_views(pieces@).subrange(0, 0) =~= Seq::<Seq<char>>::empty());
    }
    while i < pieces.len()
        invariant
            0 <= i <= pieces@.len(),
            out@ == filter_map(str_views(pieces@).subrange(0, i as int), |p: Seq<char>| no_whitespace_before_token_named(trim_chars(p))),
        decreases pieces@.len() - i,
    {
        let ghost pre = str_views(pieces@).subrange(0, i as int);
        let ghost cur = str_views(pieces@).subrange(0, i + 1);
        proof {
            assert(cur.drop_last() =~= pre);
            assert(cur.last() == pieces@[i as int]@);
        }
        match NoWhitespaceBeforeToken::from_str(pieces[i].as_str()) {
            Some(t) => {
                out.push(t);
            },
            None => {},
        }
        i = i + 1;
    }
    proof {
        assert(str_views(pieces@).subrange(0, pieces@.len() as int) =~= str_views(pieces@));
    }
    out
}

/// The default tokens: comma, semicolon, post-increment and -decrement,
/// ellipsis and the colon of a label.
pub open spec fn default_no_whitespace_before_tokens() -> Seq<NoWhitespaceBeforeToken> {
    seq![NoWhitespaceBeforeToken::Comma, NoWhitespaceBeforeToken::Semi, NoWhitespaceBeforeToken::PostInc, NoWhitespaceBeforeToken::PostDec, NoWhitespaceBeforeToken::Ellipsis, NoWhitespaceBeforeToken::LabeledStat]
}

/// The NoWhitespaceBefore rule.
#[derive(Clone, Debug)]
pub struct NoWhitespaceBefore {
    pub tokens: Vec<NoWhitespaceBeforeToken>,
    /// White space that starts the file may precede a token.
    pub allow_line_breaks: bool,
}

/// The run of white space `ws` before a token is reported. A run that does not
/// start the file follows a character that is not white space
/// (`lemma_ws_run_before`), so the token never starts its line: only a run at
/// the start of the file can be a permitted line break.
pub open spec fn reported(allow_line_breaks: bool, ws: (int, int)) -> bool {
    if ws.0 == 0 { !allow_line_breaks } else { true }
}

/// The diagnostic for white space before token `t`, if it is reported.
pub open spec fn spec_ws_check(allow_line_breaks: bool, tree: CstTree, t: int) -> Seq<DiagView> {
    let ws = spec_ws_range_before(tree.src_bytes(), tree.start_of(t));
    if ws is Some && reported(allow_line_breaks, ws.unwrap()) {
        seq![spec_diag_preceded(tree, t, ws.unwrap())]
    } else {
        seq![]
    }
}

/// The operand that decides whether the update operator `op` is postfix: the
/// first of `cs` that is not `op` and is an identifier, field access, array
/// access or parenthesized expression; the operator is postfix when it starts
/// before `op`.
pub open spec fn postfix_in(tree: CstTree, cs: Seq<usize>, op: int) -> bool
    decreases cs.len(),
{
    if cs.len() == 0 {
        false
    } else {
        let c = cs[0] as int;
        let k = tree.kind_of(c);
        if !tree.same_range(c, op) && (k == "identifier"@ || k == "field_access"@ || k == "array_access"@
            || k == "parenthesized_expression"@) {
            tree.start_of(c) < tree.start_of(op)
        } else {
            postfix_in(tree, cs.drop_first(), op)
        }
    }
}

/// Token `t` is the operator of a postfix update expression.
pub open spec fn is_postfix(tree: CstTree, t: int) -> bool {
    let p = tree.parent_of(t);
    p is Some && tree.kind_of(p.unwrap() as int) == "update_expression"@ && postfix_in(tree, tree.children_of(p.unwrap() as int), t)
}

/// The parent of `t` has kind `k`.
pub open spec fn parent_is(tree: CstTree, t: int, k: Seq<char>) -> bool {
    let p = tree.parent_of(t);
    p is Some && tree.kind_of(p.unwrap() as int) == k
}

/// Token `t` is a `<` or `>` of type arguments, type parameters or a diamond.
pub open spec fn is_generic_bracket(tree: CstTree, t: int) -> bool {
    parent_is(tree, t, "type_arguments"@) || parent_is(tree, t, "type_parameters"@) || parent_is(tree, t, "diamond_operator"@)
}

/// Child `c` lies strictly inside the initializer that ends at `semi`, after the `(` at `l`.
pub open spec fn inside_init(tree: CstTree, c: int, l: int, semi: int) -> bool {
    &&& tree.start_of(c) > tree.end_of(l)
    &&& tree.end_of(c) < tree.start_of(semi)
    &&& tree.kind_of(c).len() > 0
    &&& tree.kind_of(c) != "("@
    &&& tree.kind_of(c) != ";"@
}

/// Child `c` lies strictly inside the condition between the `;` at `s0` and the one at `semi`.
pub open spec fn inside_cond(tree: CstTree, c: int, s0: int, semi: int) -> bool {
    &&& tree.start_of(c) > tree.end_of(s0)
    &&& tree.end_of(c) < tree.start_of(semi)
    &&& tree.kind_of(c).len() > 0
    &&& tree.kind_of(c) != ";"@
}

/// The `;` at `t` closes the empty initializer or the empty condition of the nearest enclosing `for`.
pub open spec fn in_empty_for_slot(tree: CstTree, t: int) -> bool {
    let f = tree.enclosing(t, "for_statement"@);
    if f is None {
        false
    } else {
        let fi = f.unwrap() as int;
        let cs = tree.children_of(fi);
        let semis = tree.of_kind(cs, ";"@);
        if semis.len() < 2 {
            false
        } else if tree.same_range(semis[0] as int, t) {
            let l = tree.kind_child(fi, "("@);
            l is Some && forall|k: int| 0 <= k < cs.len() ==> !inside_init(tree, #[trigger] cs[k] as int, l.unwrap() as int, t)
        } else if tree.same_range(semis[1] as int, t) {
            forall|k: int| 0 <= k < cs.len() ==> !inside_cond(tree, #[trigger] cs[k] as int, semis[0] as int, t)
        } else {
            false
        }
    }
}

/// The diagnostics of NoWhitespaceBefore at node `node`.
pub open spec fn spec_check(rule: NoWhitespaceBefore, tree: CstTree, node: int) -> Seq<DiagView> {
    let k = tree.kind_of(node);
    let tokens = rule.tokens@;
    let a = rule.allow_line_breaks;
    if k == ","@ && tokens.contains(NoWhitespaceBeforeToken::Comma) {
        spec_ws_check(a, tree, node)
    } else if k == ";"@ && tokens.contains(NoWhitespaceBeforeToken::Semi) {
        if !in_empty_for_slot(tree, node) { spec_ws_check(a, tree, node) } else { seq![] }
    } else if k == "++"@ && tokens.contains(NoWhitespaceBeforeToken::PostInc) {
        if is_postfix(tree, node) { spec_ws_check(a, tree, node) } else { seq![] }
    } else if k == "--"@ && tokens.contains(NoWhitespaceBeforeToken::PostDec) {
        if is_postfix(tree, node) { spec_ws_check(a, tree, node) } else { seq![] }
    } else if k == "..."@ && tokens.contains(NoWhitespaceBeforeToken::Ellipsis) {
        spec_ws_check(a, tree, node)
    } else if k == ":"@ && tokens.contains(NoWhitespaceBeforeToken::LabeledStat) {
        if parent_is(tree, node, "labeled_statement"@) { spec_ws_check(a, tree, node) } else { seq![] }
    } else if k == "."@ && tokens.contains(NoWhitespaceBeforeToken::Dot) {
        spec_ws_check(a, tree, node)
    } else if k == "::"@ && tokens.contains(NoWhitespaceBeforeToken::MethodRef) {
        spec_ws_check(a, tree, node)
    } else if k == "<"@ && tokens.contains(NoWhitespaceBeforeToken::GenericStart) {
        if is_generic_bracket(tree, node) { spec_ws_check(a, tree, node) } else { seq![] }
    } else if k == ">"@ && tokens.contains(NoWhitespaceBeforeToken::GenericEnd) {
        if is_generic_bracket(tree, node) { spec_ws_check(a, tree, node) } else { seq![] }
    } else {
        seq![]
    }
}

impl Default for NoWhitespaceBefore {
    /// The rule with the default tokens and no line breaks allowed.
    fn default() -> (r: Self)
        ensures
            r.tokens@ == default_no_whitespace_before_tokens(),
            !r.allow_line_breaks,
    {
        NoWhitespaceBefore { tokens: default_no_whitespace_before_tokens_vec(), allow_line_breaks: false }
    }
}

impl NoWhitespaceBefore {
    /// The rule as the properties configure it: `tokens` (absent, empty, or
    /// naming no token: the defaults) and `allowLineBreaks` (exactly `true`;
    /// otherwise false).
    pub fn from_config(properties: &Properties) -> (r: Self)
        ensures
            r.tokens@ == match properties.lookup("tokens"@) {
                Some(v) => {
                    let parsed = filter_map(split_commas(v), |p: Seq<char>| no_whitespace_before_token_named(trim_chars(p)));
                    if v.len() == 0 || parsed.len() == 0 { default_no_whitespace_before_tokens() } else { parsed }
                },
                None => default_no_whitespace_before_tokens(),
            },
            r.allow_line_breaks == match properties.lookup("allowLineBreaks"@) {
                Some(v) => v == "true"@,
                None => false,
            },
    {
        let tokens = match properties.get("tokens") {
            Some(v) => {
                if v.unicode_len() == 0 {
                    default_no_whitespace_before_tokens_vec()
                } else {
                    let pieces = split_commas_exec(v);
                    let parsed = parse_no_whitespace_before_tokens(&pieces);
                    if parsed.len() == 0 {
                        default_no_whitespace_before_tokens_vec()
                    } else {
                        parsed
                    }
                }
            },
            None => default_no_whitespace_before_tokens_vec(),
        };
        let allow_line_breaks = match properties.get("allowLineBreaks") {
            Some(v) => str_eq(v, "true"),
            None => false,
        };
        NoWhitespaceBefore { tokens, allow_line_breaks }
    }

    /// The rule's name.
    pub fn name(&self) -> (r: &'static str)
        ensures
            r@ == "NoWhitespaceBefore"@,
    {
        "NoWhitespaceBefore"
    }

    /// The violations at node `node`.
    #[verifier::spinoff_prover]
    pub fn check(&self, tree: &CstTree, node: usize) -> (r: Vec<Diagnostic>)
        requires
            tree.wf(),
            node < tree.node_count(),
        ensures
            diag_views(r@) == spec_check(*self, *tree, node as int),
    {
        let k = tree.kind(node);
        let t = &self.tokens;
        if str_eq(k, ",") && has_no_whitespace_before_token(t, NoWhitespaceBeforeToken::Comma) {
            self.ws_check(tree, node)
        } else if str_eq(k, ";") && has_no_whitespace_before_token(t, NoWhitespaceBeforeToken::Semi) {
            if !is_in_empty_for_slot(tree, node) { self.ws_check(tree, node) } else { no_diags() }
        } else if str_eq(k, "++") && has_no_whitespace_before_token(t, NoWhitespaceBeforeToken::PostInc) {
            if is_postfix_op(tree, node) { self.ws_check(tree, node) } else { no_diags() }
        } else if str_eq(k, "--") && has_no_whitespace_before_token(t, NoWhitespaceBeforeToken::PostDec) {
            if is_postfix_op(tree, node) { self.ws_check(tree, node) } else { no_diags() }
        } else if str_eq(k, "...") && has_no_whitespace_before_token(t, NoWhitespaceBeforeToken::Ellipsis) {
            self.ws_check(tree, node)
        } else {
            self.check_rest(tree, node)
        }
    }

    #[verifier::spinoff_prover]
    fn check_rest(&self, tree: &CstTree, node: usize) -> (r: Vec<Diagnostic>)
        requires
            tree.wf(),
            node < tree.node_count(),
            !(tree.kind_of(node as int) == ","@ && self.tokens@.contains(NoWhitespaceBeforeToken::Comma)),
            !(tree.kind_of(node as int) == ";"@ && self.tokens@.contains(NoWhitespaceBeforeToken::Semi)),
            !(tree.kind_of(node as int) == "++"@ && self.tokens@.contains(NoWhitespaceBeforeToken::PostInc)),
            !(tree.kind_of(node as int) == "--"@ && self.tokens@.contains(NoWhitespaceBeforeToken::PostDec)),
            !(tree.kind_of(node as int) == "..."@ && self.tokens@.contains(NoWhitespaceBeforeToken::Ellipsis)),
        ensures
            diag_views(r@) == spec_check(*self, *tree, node as int),
    {
        let k = tree.kind(node);
        let t = &self.tokens;
        if str_eq(k, ":") && has_no_whitespace_before_token(t, NoWhitespaceBeforeToken::LabeledStat) {
            if parent_kind_is(tree, node, "labeled_statement") { self.ws_check(tree, node) } else { no_diags() }
        } else if str_eq(k, ".") && has_no_whitespace_before_token(t, NoWhitespaceBeforeToken::Dot) {
            self.ws_check(tree, node)
        } else if str_eq(k, "::") && has_no_whitespace_before_token(t, NoWhitespaceBeforeToken::MethodRef) {
            self.ws_check(tree, node)
        } else if str_eq(k, "<") && has_no_whitespace_before_token(t, NoWhitespaceBeforeToken::GenericStart) {
            if is_generic_bracket_exec(tree, node) { self.ws_check(tree, node) } else { no_diags() }
        } else if str_eq(k, ">") && has_no_whitespace_before_token(t, NoWhitespaceBeforeToken::GenericEnd) {
            if is_generic_bracket_exec(tree, node) { self.ws_check(tree, node) } else { no_diags() }
        } else {
            no_diags()
        }
    }

    /// The diagnostic for white space before token `t`, if it is reported.
    fn ws_check(&self, tree: &CstTree, t: usize) -> (r: Vec<Diagnostic>)
        requires
            tree.wf(),
            t < tree.node_count(),
        ensures
            diag_views(r@) == spec_ws_check(self.allow_line_breaks, *tree, t as int),
    {
        let source = tree.source();
        let pos = tree.range(t).start;
        match whitespace_range_before(source, pos) {
            Some(ws) => {
                let report = if ws.start.raw == 0 { !self.allow_line_breaks } else { true };
                if report {
                    one_diag(diag_preceded(tree, t, ws))
                } else {
                    no_diags()
                }
            },
            None => no_diags(),
        }
    }
}

/// The parent of `t` has kind `k`.
fn parent_kind_is(tree: &CstTree, t: usize, k: &str) -> (r: bool)
    requires
        tree.wf(),
        t < tree.node_count(),
    ensures
        r == parent_is(*tree, t as int, k@),
{
    match tree.parent(t) {
        Some(p) => tree.kind_is(p, k),
        None => false,
    }
}

fn is_generic_bracket_exec(tree: &CstTree, t: usize) -> (r: bool)
    requires
        tree.wf(),
        t < tree.node_count(),
    ensures
        r == is_generic_bracket(*tree, t as int),
{
    parent_kind_is(tree, t, "type_arguments") || parent_kind_is(tree, t, "type_parameters") || parent_kind_is(tree, t, "diamond_operator")
}

/// Token `t` is the operator of a postfix update expression.
fn is_postfix_op(tree: &CstTree, t: usize) -> (r: bool)
    requires
        tree.wf(),
        t < tree.node_count(),
    ensures
        r == is_postfix(*tree, t as int),
{
    let p = match tree.parent(t) {
        Some(p) => p,
        None => return false,
    };
    if !tree.kind_is(p, "update_expression") {
        return false;
    }
    let cs = tree.children(p);
    let tr = tree.range(t);
    let mut i: usize = 0;
    proof {
        assert(cs@.subrange(0, cs@.len() as int) =~= cs@);
    }
    while i < cs.len()
        invariant
            tree.wf(),
            t < tree.node_count(),
            p < tree.node_count(),
            tree.parent_of(t as int) == Some(p),
            tree.kind_of(p as int) == "update_expression"@,
            cs@ == tree.children_of(p as int),
            forall|x: int| 0 <= x < cs@.len() ==> p < #[trigger] cs@[x] < tree.node_count(),
            tr.start.raw == tree.start_of(t as int),
            tr.end.raw == tree.end_of(t as int),
            0 <= i <= cs@.len(),
            postfix_in(*tree, cs@, t as int) == postfix_in(*tree, cs@.subrange(i as int, cs@.len() as int), t as int),
        decreases cs@.len() - i,
    {
        let c = cs[i];
        let cr = tree.range(c);
        let same = cr.start.raw == tr.start.raw && cr.end.raw == tr.end.raw;
        let k = tree.kind(c);
        assert(cs@.subrange(i as int, cs@.len() as int)[0] == c);
        if !same && (str_eq(k, "identifier") || str_eq(k, "field_access") || str_eq(k, "array_access") || str_eq(k, "parenthesized_expression")) {
            return cr.start.raw < tr.start.raw;
        }
        assert(cs@.subrange(i as int, cs@.len() as int).drop_first() =~= cs@.subrange(i + 1, cs@.len() as int));
        i = i + 1;
    }
    false
}

/// No child of `cs` lies inside the initializer (when `init`, after the `(` at
/// `a`) or the condition (after the `;` at `a`) that ends at `semi`.
fn nothing_inside(tree: &CstTree, cs: &[usize], a: usize, semi: usize, init: bool) -> (r: bool)
    requires
        tree.wf(),
        a < tree.node_count(),
        semi < tree.node_count(),
        forall|x: int| 0 <= x < cs@.len() ==> #[trigger] cs@[x] < tree.node_count(),
    ensures
        r == if init {
            forall|k: int| 0 <= k < cs@.len() ==> !inside_init(*tree, #[trigger] cs@[k] as int, a as int, semi as int)
        } else {
            forall|k: int| 0 <= k < cs@.len() ==> !inside_cond(*tree, #[trigger] cs@[k] as int, a as int, semi as int)
        },
{
    let ar = tree.range(a);
    let sr = tree.range(semi);
    let mut i: usize = 0;
    while i < cs.len()
        invariant
            tree.wf(),
            a < tree.node_count(),
            semi < tree.node_count(),
            forall|x: int| 0 <= x < cs@.len() ==> #[trigger] cs@[x] < tree.node_count(),
            ar.end.raw == tree.end_of(a as int),
            sr.start.raw == tree.start_of(semi as int),
            0 <= i <= cs@.len(),
            init ==> forall|k: int| 0 <= k < i ==> !inside_init(*tree, #[trigger] cs@[k] as int, a as int, semi as int),
            !init ==> forall|k: int| 0 <= k < i ==> !inside_cond(*tree, #[trigger] cs@[k] as int, a as int, semi as int),
        decreases cs@.len() - i,
    {
        let c = cs[i];
        let cr = tree.range(c);
        let k = tree.kind(c);
        if cr.start.raw > ar.end.raw && cr.end.raw < sr.start.raw && k.unicode_len() > 0 && !str_eq(k, ";") {
            if !init || !str_eq(k, "(") {
                return false;
            }
        }
        i = i + 1;
    }
    true
}

/// The `;` at `t` closes the empty initializer or condition of the nearest enclosing `for`.
fn is_in_empty_for_slot(tree: &CstTree, t: usize) -> (r: bool)
    requires
        tree.wf(),
        t < tree.node_count(),
    ensures
        r == in_empty_for_slot(*tree, t as int),
{
    let f = match tree.ancestor_of_kind(t, "for_statement") {
        Some(f) => f,
        None => return false,
    };
    let cs = tree.children(f);
    let semis = tree.children_of_kind(f, ";");
    if semis.len() < 2 {
        return false;
    }
    let tr = tree.range(t);
    let r0 = tree.range(semis[0]);
    let r1 = tree.range(semis[1]);
    if r0.start.raw == tr.start.raw && r0.end.raw == tr.end.raw {
        match tree.find_child(f, "(") {
            Some(l) => nothing_inside(tree, cs, l, t, true),
            None => false,
        }
    } else if r1.start.raw == tr.start.raw && r1.end.raw == tr.end.raw {
        nothing_inside(tree, cs, semis[0], t, false)
    } else {
        false
    }
}

/// The default tokens.
fn default_no_whitespace_before_tokens_vec() -> (r: Vec<NoWhitespaceBeforeToken>)
    ensures
        r@ == default_no_whitespace_before_tokens(),
{
    let mut tokens: Vec<NoWhitespaceBeforeToken> = Vec::new();
    tokens.push(NoWhitespaceBeforeToken::Comma);
    tokens.push(NoWhitespaceBeforeToken::Semi);
    tokens.push(NoWhitespaceBeforeToken::PostInc);
    tokens.push(NoWhitespaceBeforeToken::PostDec);
    tokens.push(NoWhitespaceBeforeToken::Ellipsis);
    tokens.push(NoWhitespaceBeforeToken::LabeledStat);
    proof {
        assert(tokens@ =~= default_no_whitespace_before_tokens());
    }
    tokens
}

} // verus!
