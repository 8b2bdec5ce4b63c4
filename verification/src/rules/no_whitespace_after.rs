//! NoWhitespaceAfter: no white space after certain tokens.

use vstd::prelude::*;

use crate::config::Properties;
use crate::cst::CstTree;
use crate::diagnostics::{Applicability, append_diags, diag_views, no_diags, one_diag, DiagView, Diagnostic};
use crate::rules::common::{diag_followed, spec_diag_followed, whitespace_range_after, whitespace_range_before};
use crate::rules::no_whitespace_before::parent_is;
use crate::strings::{filter_map, split_commas, split_commas_exec, str_eq, str_views, trim, trim_chars};
use crate::text::{
    all_line_breaks, chars_after, chars_before, head_ws, is_white_space, leading_ws, lemma_leading_ws_bound, spec_ws_range_after, spec_ws_range_before, tail_ws,
    ws_after_all_breaks, ws_before_all_breaks,
};

verus! {

/// The tokens after which NoWhitespaceAfter forbids white space.
#[derive(Clone, Copy, Debug, PartialEq, Eq, Hash, Structural)]
pub enum NoWhitespaceAfterToken {
    ArrayInit,
    At,
    Inc,
    Dec,
    UnaryMinus,
    UnaryPlus,
    Bnot,
    Lnot,
    Dot,
    ArrayDeclarator,
    IndexOp,
    Typecast,
    LiteralSynchronized,
    MethodRef,
}

/// The token that the name `s` stands for, if any.
pub open spec fn no_whitespace_after_token_named(s: Seq<char>) -> Option<NoWhitespaceAfterToken> {
    if s == "ARRAY_INIT"@ {
        Some(NoWhitespaceAfterToken::ArrayInit)
    } else if s == "AT"@ {
        Some(NoWhitespaceAfterToken::At)
    } else if s == "INC"@ {
        Some(NoWhitespaceAfterToken::Inc)
    } else if s == "DEC"@ {
        Some(NoWhitespaceAfterToken::Dec)
    } else if s == "UNARY_MINUS"@ {
        Some(NoWhitespaceAfterToken::UnaryMinus)
    } else if s == "UNARY_PLUS"@ {
        Some(NoWhitespaceAfterToken::UnaryPlus)
    } else if s == "BNOT"@ {
        Some(NoWhitespaceAfterToken::Bnot)
    } else if s == "LNOT"@ {
        Some(NoWhitespaceAfterToken::Lnot)
    } else if s == "DOT"@ {
        Some(NoWhitespaceAfterToken::Dot)
    } else if s == "ARRAY_DECLARATOR"@ {
        Some(NoWhitespaceAfterToken::ArrayDeclarator)
    } else if s == "INDEX_OP"@ {
        Some(NoWhitespaceAfterToken::IndexOp)
    } else if s == "TYPECAST"@ {
        Some(NoWhitespaceAfterToken::Typecast)
    } else if s == "LITERAL_SYNCHRONIZED"@ {
        Some(NoWhitespaceAfterToken::LiteralSynchronized)
    } else if s == "METHOD_REF"@ {
        Some(NoWhitespaceAfterToken::MethodRef)
    } else {
        None
    }
}

impl NoWhitespaceAfterToken {
    /// The token named `s` (around white space), if any.
    pub fn from_str(s: &str) -> (r: Option<Self>)
        ensures
            r == no_whitespace_after_token_named(trim_chars(s@)),
    {
        let t = trim(s);
        if str_eq(t, "ARRAY_INIT") {
            Some(NoWhitespaceAfterToken::ArrayInit)
        } else if str_eq(t, "AT") {
            Some(NoWhitespaceAfterToken::At)
        } else if str_eq(t, "INC") {
            Some(NoWhitespaceAfterToken::Inc)
        } else if str_eq(t, "DEC") {
            Some(NoWhitespaceAfterToken::Dec)
        } else if str_eq(t, "UNARY_MINUS") {
            Some(NoWhitespaceAfterToken::UnaryMinus)
        } else if str_eq(t, "UNARY_PLUS") {
            Some(NoWhitespaceAfterToken::UnaryPlus)
        } else if str_eq(t, "BNOT") {
            Some(NoWhitespaceAfterToken::Bnot)
        } else if str_eq(t, "LNOT") {
            Some(NoWhitespaceAfterToken::Lnot)
        } else if str_eq(t, "DOT") {
            Some(NoWhitespaceAfterToken::Dot)
        } else if str_eq(t, "ARRAY_DECLARATOR") {
            Some(NoWhitespaceAfterToken::ArrayDeclarator)
        } else if str_eq(t, "INDEX_OP") {
            Some(NoWhitespaceAfterToken::IndexOp)
        } else if str_eq(t, "TYPECAST") {
            Some(NoWhitespaceAfterToken::Typecast)
        } else if str_eq(t, "LITERAL_SYNCHRONIZED") {
            Some(NoWhitespaceAfterToken::LiteralSynchronized)
        } else if str_eq(t, "METHOD_REF") {
            Some(NoWhitespaceAfterToken::MethodRef)
        } else {
            None
        }
    }
}

/// `t` is one of `tokens`.
fn has_no_whitespace_after_token(tokens: &Vec<NoWhitespaceAfterToken>, t: NoWhitespaceAfterToken) -> (r: bool)
    ensures
        r == tokens@.contains(t),
{
    let mut i: usize = 0;
    while i < tokens.len()
        invariant
            0 <= i <= tokens@.len(),
            forall|k: int| 0 <= k < i ==> tokens@[k] != t,
        decreases tokens@.len() - i,
    {
        if tokens[i] == t {
            return true;
        }
        i = i + 1;
    }
    false
}

/// The tokens named by the comma-separated list `pieces`, in order; names that stand for no token are skipped.
fn parse_no_whitespace_after_tokens(pieces: &Vec<String>) -> (r: Vec<NoWhitespaceAfterToken>)
    ensures
        r@ == filter_map(str_views(pieces@), |p: Seq<char>| no_whitespace_after_token_named(trim_chars(p))),
{
    let mut out: Vec<NoWhitespaceAfterToken> = Vec::new();
    let mut i: usize = 0;
    proof {
        assert(str_views(pieces@).subrange(0, 0) =~= Seq::<Seq<char>>::empty());
    }
    while i < pieces.len()
        invariant
            0 <= i <= pieces@.len(),
            out@ == filter_map(str_views(pieces@).subrange(0, i as int), |p: Seq<char>| no_whitespace_after_token_named(trim_chars(p))),
        decreases pieces@.len() - i,
    {
        let ghost pre = str_views(pieces@).subrange(0, i as int);
        let ghost cur = str_views(pieces@).subrange(0, i + 1);
        proof {
            assert(cur.drop_last() =~= pre);
            assert(cur.last() == pieces@[i as int]@);
        }
        match NoWhitespaceAfterToken::from_str(pieces[i].as_str()) {
            Some(t) => {
                out.push(t);
            },
            None => {},
        }
        i = i + 1;
    }
    proof {
        assert(str_views(pieces@).subrange(0, pieces@.len() as int) =~= str_views(pieces@));
    }
    out
}

/// The default tokens: every token but the cast, `synchronized` and `::`.
pub open spec fn default_no_whitespace_after_tokens() -> Seq<NoWhitespaceAfterToken> {
    seq![NoWhitespaceAfterToken::ArrayInit, NoWhitespaceAfterToken::At, NoWhitespaceAfterToken::Inc, NoWhitespaceAfterToken::Dec, NoWhitespaceAfterToken::UnaryMinus, NoWhitespaceAfterToken::UnaryPlus, NoWhitespaceAfterToken::Bnot, NoWhitespaceAfterToken::Lnot, NoWhitespaceAfterToken::Dot, NoWhitespaceAfterToken::ArrayDeclarator, NoWhitespaceAfterToken::IndexOp]
}

/// The NoWhitespaceAfter rule.
#[derive(Clone, Debug)]
pub struct NoWhitespaceAfter {
    pub tokens: Vec<NoWhitespaceAfterToken>,
    /// White space made only of line breaks is allowed.
    pub allow_line_breaks: bool,
}

/// The white space after token `t` that is reported, if any.
pub open spec fn spec_ws_after_token(allow: bool, tree: CstTree, t: int) -> Option<(int, int)> {
    let b = tree.src_bytes();
    let pos = tree.end_of(t);
    let ws = spec_ws_range_after(b, pos);
    if ws is Some && allow && all_line_breaks(head_ws(chars_after(b, pos))) {
        None
    } else {
        ws
    }
}

/// The diagnostic for reported white space after token `t`.
pub open spec fn spec_followed(allow: bool, tree: CstTree, t: int) -> Seq<DiagView> {
    let ws = spec_ws_after_token(allow, tree, t);
    if ws is Some { seq![spec_diag_followed(tree, t, ws.unwrap())] } else { seq![] }
}

/// Node `j` is `root` or lies below it.
pub open spec fn is_desc(tree: CstTree, j: int, root: int) -> bool
    decreases j,
{
    if j == root {
        true
    } else {
        let p = tree.parent_of(j);
        if j <= 0 || p is None || p.unwrap() >= j {
            false
        } else {
            is_desc(tree, p.unwrap() as int, root)
        }
    }
}

/// Node `j` may be the token before offset `pos`: it lies under `root`, ends at
/// or before `pos`, and has a kind and some text that is not white space.
pub open spec fn token_candidate(tree: CstTree, root: int, pos: int, j: int) -> bool {
    &&& is_desc(tree, j, root)
    &&& tree.end_of(j) <= pos
    &&& tree.kind_of(j).len() > 0
    &&& trim_chars(tree.text_of(j)).len() > 0
}

/// Among the candidates `0..j`, the one that ends last (the first such in preorder).
pub open spec fn best_before(tree: CstTree, root: int, pos: int, j: int) -> Option<usize>
    decreases j,
{
    if j <= 0 {
        None
    } else {
        let prev = best_before(tree, root, pos, j - 1);
        if token_candidate(tree, root, pos, j - 1) && (prev is None || tree.end_of(j - 1) > tree.end_of(prev.unwrap() as int)) {
            Some((j - 1) as usize)
        } else {
            prev
        }
    }
}

/// For a `)` of the formal parameters of a method or constructor declarator,
/// the declarator's name.
pub open spec fn method_name_of(tree: CstTree, rp: int) -> Option<usize> {
    let params = tree.parent_of(rp);
    if params is None || tree.kind_of(params.unwrap() as int) != "formal_parameters"@ {
        None
    } else {
        let decl = tree.parent_of(params.unwrap() as int);
        if decl is None || (tree.kind_of(decl.unwrap() as int) != "method_declarator"@ && tree.kind_of(decl.unwrap() as int)
            != "constructor_declarator"@) {
            None
        } else {
            tree.kind_child(decl.unwrap() as int, "identifier"@)
        }
    }
}

/// The token that ends last at or before `pos` under the parent of `node`
/// (under `node` itself at the root); for a `)` of a declarator, its name.
pub open spec fn token_before(tree: CstTree, node: int, pos: int) -> Option<usize> {
    let root = if tree.parent_of(node) is Some { tree.parent_of(node).unwrap() as int } else { node };
    let best = best_before(tree, root, pos, tree.node_count() as int);
    if best is Some && tree.kind_of(best.unwrap() as int) == ")"@ && method_name_of(tree, best.unwrap() as int) is Some {
        method_name_of(tree, best.unwrap() as int)
    } else {
        best
    }
}

/// An annotation among the siblings of `dims` ends at or before the bracket `br`.
pub open spec fn annotation_before(tree: CstTree, dims: int, br: int) -> bool {
    let p = tree.parent_of(dims);
    p is Some && exists|k: int| 0 <= k < tree.children_of(p.unwrap() as int).len() && {
        let c = #[trigger] tree.children_of(p.unwrap() as int)[k] as int;
        tree.end_of(c) <= tree.start_of(br) && (tree.kind_of(c) == "annotation"@ || tree.kind_of(c) == "marker_annotation"@)
    }
}

/// The diagnostic for white space before the bracket `br` of the array declarator `node`.
pub open spec fn spec_bracket(allow: bool, tree: CstTree, node: int, br: int) -> Seq<DiagView> {
    let b = tree.src_bytes();
    let pos = tree.start_of(br);
    let ws = spec_ws_range_before(b, pos);
    if annotation_before(tree, node, br) || ws is None || (allow && all_line_breaks(tail_ws(chars_before(b, pos)))) {
        seq![]
    } else {
        let prev = token_before(tree, node, ws.unwrap().0);
        if prev is Some { seq![spec_diag_followed(tree, prev.unwrap() as int, ws.unwrap())] } else { seq![] }
    }
}

/// The diagnostics for the brackets `brs` of the array declarator `node`, in order.
pub open spec fn spec_brackets(allow: bool, tree: CstTree, node: int, brs: Seq<usize>) -> Seq<DiagView>
    decreases brs.len(),
{
    if brs.len() == 0 {
        seq![]
    } else {
        spec_brackets(allow, tree, node, brs.drop_last()) + spec_bracket(allow, tree, node, brs.last() as int)
    }
}

/// The diagnostics of an array declarator: one for each `[` child.
pub open spec fn spec_array_declarator(allow: bool, tree: CstTree, node: int) -> Seq<DiagView> {
    spec_brackets(allow, tree, node, tree.of_kind(tree.children_of(node), "["@))
}

/// The diagnostics of an index operation: white space before its `[`.
pub open spec fn spec_index_op(allow: bool, tree: CstTree, node: int) -> Seq<DiagView> {
    let br = tree.kind_child(node, "["@);
    if br is None {
        seq![]
    } else {
        let b = tree.src_bytes();
        let pos = tree.start_of(br.unwrap() as int);
        let ws = spec_ws_range_before(b, pos);
        if ws is None {
            seq![]
        } else {
            let prev = token_before(tree, node, ws.unwrap().0);
            if prev is None || (allow && all_line_breaks(tail_ws(chars_before(b, pos)))) {
                seq![]
            } else {
                seq![spec_diag_followed(tree, prev.unwrap() as int, ws.unwrap())]
            }
        }
    }
}

/// The `++` or `--` at `t` is the first child of an update expression.
pub open spec fn is_prefix(tree: CstTree, t: int) -> bool {
    let p = tree.parent_of(t);
    &&& p is Some
    &&& tree.kind_of(p.unwrap() as int) == "update_expression"@
    &&& tree.children_of(p.unwrap() as int).len() > 0
    &&& tree.start_of(tree.children_of(p.unwrap() as int)[0] as int) == tree.start_of(t)
}

/// The diagnostics of NoWhitespaceAfter at node `node`.
pub open spec fn spec_check(rule: NoWhitespaceAfter, tree: CstTree, node: int) -> Seq<DiagView> {
    let k = tree.kind_of(node);
    let tokens = rule.tokens@;
    let a = rule.allow_line_breaks;
    if k == "{"@ && tokens.contains(NoWhitespaceAfterToken::ArrayInit) {
        if parent_is(tree, node, "array_initializer"@) { spec_followed(a, tree, node) } else { seq![] }
    } else if k == "@"@ && tokens.contains(NoWhitespaceAfterToken::At) {
        spec_followed(a, tree, node)
    } else if k == "++"@ && tokens.contains(NoWhitespaceAfterToken::Inc) {
        if is_prefix(tree, node) { spec_followed(a, tree, node) } else { seq![] }
    } else if k == "--"@ && tokens.contains(NoWhitespaceAfterToken::Dec) {
        if is_prefix(tree, node) { spec_followed(a, tree, node) } else { seq![] }
    } else if k == "-"@ && tokens.contains(NoWhitespaceAfterToken::UnaryMinus) {
        if parent_is(tree, node, "unary_expression"@) { spec_followed(a, tree, node) } else { seq![] }
    } else {
        spec_check_mid(rule, tree, node)
    }
}

/// The diagnostics of NoWhitespaceAfter at node `node`, from `+` to `dimensions_expr`.
pub open spec fn spec_check_mid(rule: NoWhitespaceAfter, tree: CstTree, node: int) -> Seq<DiagView> {
    let k = tree.kind_of(node);
    let tokens = rule.tokens@;
    let a = rule.allow_line_breaks;
    if k == "+"@ && tokens.contains(NoWhitespaceAfterToken::UnaryPlus) {
        if parent_is(tree, node, "unary_expression"@) { spec_followed(a, tree, node) } else { seq![] }
    } else if k == "~"@ && tokens.contains(NoWhitespaceAfterToken::Bnot) {
        spec_followed(a, tree, node)
    } else if k == "!"@ && tokens.contains(NoWhitespaceAfterToken::Lnot) {
        spec_followed(a, tree, node)
    } else if k == "."@ && tokens.contains(NoWhitespaceAfterToken::Dot) {
        spec_followed(a, tree, node)
    } else if (k == "dimensions"@ || k == "dimensions_expr"@) && tokens.contains(NoWhitespaceAfterToken::ArrayDeclarator) {
        spec_array_declarator(a, tree, node)
    } else {
        spec_check_last(rule, tree, node)
    }
}

/// The diagnostics of NoWhitespaceAfter at node `node`, from `array_access` on.
pub open spec fn spec_check_last(rule: NoWhitespaceAfter, tree: CstTree, node: int) -> Seq<DiagView> {
    let k = tree.kind_of(node);
    let tokens = rule.tokens@;
    let a = rule.allow_line_breaks;
    if k == "array_access"@ && tokens.contains(NoWhitespaceAfterToken::IndexOp) {
        spec_index_op(a, tree, node)
    } else if k == "cast_expression"@ && tokens.contains(NoWhitespaceAfterToken::Typecast) {
        let rp = tree.kind_child(node, ")"@);
        if rp is Some { spec_followed(a, tree, rp.unwrap() as int) } else { seq![] }
    } else if k == "synchronized_statement"@ && tokens.contains(NoWhitespaceAfterToken::LiteralSynchronized) {
        let kw = tree.kind_child(node, "synchronized"@);
        if kw is Some { spec_followed(a, tree, kw.unwrap() as int) } else { seq![] }
    } else if k == "::"@ && tokens.contains(NoWhitespaceAfterToken::MethodRef) {
        spec_followed(a, tree, node)
    } else {
        seq![]
    }
}

impl Default for NoWhitespaceAfter {
    /// The rule with the default tokens, line breaks allowed.
    fn default() -> (r: Self)
        ensures
            r.tokens@ == default_no_whitespace_after_tokens(),
            r.allow_line_breaks,
    {
        NoWhitespaceAfter { tokens: default_no_whitespace_after_tokens_vec(), allow_line_breaks: true }
    }
}

impl NoWhitespaceAfter {
    /// The rule as the properties configure it: `tokens` (absent, empty, or
    /// naming no token: the defaults) and `allowLineBreaks` (false only when
    /// exactly `false`).
    pub fn from_config(properties: &Properties) -> (r: Self)
        ensures
            r.tokens@ == match properties.lookup("tokens"@) {
                Some(v) => {
                    let parsed = filter_map(split_commas(v), |p: Seq<char>| no_whitespace_after_token_named(trim_chars(p)));
                    if v.len() == 0 || parsed.len() == 0 { default_no_whitespace_after_tokens() } else { parsed }
                },
                None => default_no_whitespace_after_tokens(),
            },
            r.allow_line_breaks == match properties.lookup("allowLineBreaks"@) {
                Some(v) => v != "false"@,
                None => true,
            },
    {
        let tokens = match properties.get("tokens") {
            Some(v) => {
                if v.unicode_len() == 0 {
                    default_no_whitespace_after_tokens_vec()
                } else {
                    let pieces = split_commas_exec(v);
                    let parsed = parse_no_whitespace_after_tokens(&pieces);
                    if parsed.len() == 0 {
                        default_no_whitespace_after_tokens_vec()
                    } else {
                        parsed
                    }
                }
            },
            None => default_no_whitespace_after_tokens_vec(),
        };
        let allow_line_breaks = match properties.get("allowLineBreaks") {
            Some(v) => !str_eq(v, "false"),
            None => true,
        };
        NoWhitespaceAfter { tokens, allow_line_breaks }
    }

    /// The rule's name.
    pub fn name(&self) -> (r: &'static str)
        ensures
            r@ == "NoWhitespaceAfter"@,
    {
        "NoWhitespaceAfter"
    }

    /// The node kinds the rule looks at.
    pub fn relevant_kinds(&self) -> (r: Vec<&'static str>)
        ensures
            r@.map_values(|s: &str| s@) == seq!["{"@, "@"@, "++"@, "--"@, "-"@, "+"@, "~"@, "!"@, "."@, "dimensions"@, "dimensions_expr"@, "array_access"@, "cast_expression"@, "synchronized_statement"@, "::"@],
    {
        let r = vec![
            "{",
            "@",
            "++",
            "--",
            "-",
            "+",
            "~",
            "!",
            ".",
            "dimensions",
            "dimensions_expr",
            "array_access",
            "cast_expression",
            "synchronized_statement",
            "::"
        ];
        proof {
            assert(r@.map_values(|s: &str| s@) =~= seq!["{"@, "@"@, "++"@, "--"@, "-"@, "+"@, "~"@, "!"@, "."@, "dimensions"@, "dimensions_expr"@, "array_access"@, "cast_expression"@, "synchronized_statement"@, "::"@]);
        }
        r
    }

    /// The violations at node `node`.
    #[verifier::spinoff_prover]
    pub fn check(&self, tree: &CstTree, node: usize) -> (r: Vec<Diagnostic>)
        requires
            tree.wf(),
            node < tree.node_count(),
        ensures
            diag_views(r@) == spec_check(*self, *tree, node as int),
    {
        let k = tree.kind(node);
        let t = &self.tokens;
        if str_eq(k, "{") && has_no_whitespace_after_token(t, NoWhitespaceAfterToken::ArrayInit) {
            if parent_kind(tree, node, "array_initializer") { self.followed(tree, node) } else { no_diags() }
        } else if str_eq(k, "@") && has_no_whitespace_after_token(t, NoWhitespaceAfterToken::At) {
            self.followed(tree, node)
        } else if str_eq(k, "++") && has_no_whitespace_after_token(t, NoWhitespaceAfterToken::Inc) {
            if is_prefix_op(tree, node) { self.followed(tree, node) } else { no_diags() }
        } else if str_eq(k, "--") && has_no_whitespace_after_token(t, NoWhitespaceAfterToken::Dec) {
            if is_prefix_op(tree, node) { self.followed(tree, node) } else { no_diags() }
        } else if str_eq(k, "-") && has_no_whitespace_after_token(t, NoWhitespaceAfterToken::UnaryMinus) {
            if parent_kind(tree, node, "unary_expression") { self.followed(tree, node) } else { no_diags() }
        } else {
            self.check_mid(tree, node)
        }
    }

    #[verifier::spinoff_prover]
    fn check_mid(&self, tree: &CstTree, node: usize) -> (r: Vec<Diagnostic>)
        requires
            tree.wf(),
            node < tree.node_count(),
        ensures
            diag_views(r@) == spec_check_mid(*self, *tree, node as int),
    {
        let k = tree.kind(node);
        let t = &self.tokens;
        if str_eq(k, "+") && has_no_whitespace_after_token(t, NoWhitespaceAfterToken::UnaryPlus) {
            if parent_kind(tree, node, "unary_expression") { self.followed(tree, node) } else { no_diags() }
        } else if str_eq(k, "~") && has_no_whitespace_after_token(t, NoWhitespaceAfterToken::Bnot) {
            self.followed(tree, node)
        } else if str_eq(k, "!") && has_no_whitespace_after_token(t, NoWhitespaceAfterToken::Lnot) {
            self.followed(tree, node)
        } else if str_eq(k, ".") && has_no_whitespace_after_token(t, NoWhitespaceAfterToken::Dot) {
            self.followed(tree, node)
        } else if (str_eq(k, "dimensions") || str_eq(k, "dimensions_expr")) && has_no_whitespace_after_token(t, NoWhitespaceAfterToken::ArrayDeclarator) {
            self.check_array_declarator(tree, node)
        } else {
            self.check_last(tree, node)
        }
    }

    #[verifier::spinoff_prover]
    fn check_last(&self, tree: &CstTree, node: usize) -> (r: Vec<Diagnostic>)
        requires
            tree.wf(),
            node < tree.node_count(),
        ensures
            diag_views(r@) == spec_check_last(*self, *tree, node as int),
    {
        let k = tree.kind(node);
        let t = &self.tokens;
        if str_eq(k, "array_access") && has_no_whitespace_after_token(t, NoWhitespaceAfterToken::IndexOp) {
            self.check_index_op(tree, node)
        } else if str_eq(k, "cast_expression") && has_no_whitespace_after_token(t, NoWhitespaceAfterToken::Typecast) {
            match tree.find_child(node, ")") {
                Some(rp) => self.followed(tree, rp),
                None => no_diags(),
            }
        } else if str_eq(k, "synchronized_statement") && has_no_whitespace_after_token(t, NoWhitespaceAfterToken::LiteralSynchronized) {
            match tree.find_child(node, "synchronized") {
                Some(kw) => self.followed(tree, kw),
                None => no_diags(),
            }
        } else if str_eq(k, "::") && has_no_whitespace_after_token(t, NoWhitespaceAfterToken::MethodRef) {
            self.followed(tree, node)
        } else {
            no_diags()
        }
    }

    /// The diagnostic for reported white space after token `t`.
    fn followed(&self, tree: &CstTree, t: usize) -> (r: Vec<Diagnostic>)
        requires
            tree.wf(),
            t < tree.node_count(),
        ensures
            diag_views(r@) == spec_followed(self.allow_line_breaks, *tree, t as int),
    {
        let source = tree.source();
        let pos = tree.range(t).end;
        match whitespace_range_after(source, pos) {
            Some(ws) => {
                if self.allow_line_breaks && ws_after_all_breaks(source, pos.raw as usize) {
                    no_diags()
                } else {
                    one_diag(diag_followed(tree, t, ws))
                }
            },
            None => no_diags(),
        }
    }

    fn check_array_declarator(&self, tree: &CstTree, node: usize) -> (r: Vec<Diagnostic>)
        requires
            tree.wf(),
            node < tree.node_count(),
        ensures
            diag_views(r@) == spec_array_declarator(self.allow_line_breaks, *tree, node as int),
    {
        let brs = tree.children_of_kind(node, "[");
        let mut out = no_diags();
        let mut i: usize = 0;
        proof {
            assert(brs@.subrange(0, 0) =~= Seq::<usize>::empty());
        }
        while i < brs.len()
            invariant
                tree.wf(),
                node < tree.node_count(),
                brs@ == tree.of_kind(tree.children_of(node as int), "["@),
                forall|x: int| 0 <= x < brs@.len() ==> node < #[trigger] brs@[x] < tree.node_count(),
                0 <= i <= brs@.len(),
                diag_views(out@) == spec_brackets(self.allow_line_breaks, *tree, node as int, brs@.subrange(0, i as int)),
            decreases brs@.len() - i,
        {
            let d = self.check_bracket(tree, node, brs[i]);
            append_diags(&mut out, d);
            proof {
                assert(brs@.subrange(0, i + 1).drop_last() =~= brs@.subrange(0, i as int));
            }
            i = i + 1;
        }
        proof {
            assert(brs@.subrange(0, brs@.len() as int) =~= brs@);
        }
        out
    }

    fn check_bracket(&self, tree: &CstTree, node: usize, br: usize) -> (r: Vec<Diagnostic>)
        requires
            tree.wf(),
            node < tree.node_count(),
            br < tree.node_count(),
        ensures
            diag_views(r@) == spec_bracket(self.allow_line_breaks, *tree, node as int, br as int),
    {
        if has_annotation_before(tree, node, br) {
            return no_diags();
        }
        let source = tree.source();
        let pos = tree.range(br).start;
        let ws = match whitespace_range_before(source, pos) {
            Some(ws) => ws,
            None => return no_diags(),
        };
        if self.allow_line_breaks && ws_before_all_breaks(source, pos.raw as usize) {
            return no_diags();
        }
        match find_token_before(tree, node, ws.start.raw) {
            Some(prev) => one_diag(diag_followed(tree, prev, ws)),
            None => no_diags(),
        }
    }

    fn check_index_op(&self, tree: &CstTree, node: usize) -> (r: Vec<Diagnostic>)
        requires
            tree.wf(),
            node < tree.node_count(),
        ensures
            diag_views(r@) == spec_index_op(self.allow_line_breaks, *tree, node as int),
    {
        let br = match tree.find_child(node, "[") {
            Some(b) => b,
            None => return no_diags(),
        };
        let source = tree.source();
        let pos = tree.range(br).start;
        let ws = match whitespace_range_before(source, pos) {
            Some(ws) => ws,
            None => return no_diags(),
        };
        match find_token_before(tree, node, ws.start.raw) {
            Some(prev) => {
                if self.allow_line_breaks && ws_before_all_breaks(source, pos.raw as usize) {
                    no_diags()
                } else {
                    one_diag(diag_followed(tree, prev, ws))
                }
            },
            None => no_diags(),
        }
    }
}

/// The parent of `t` has kind `k`.
fn parent_kind(tree: &CstTree, t: usize, k: &str) -> (r: bool)
    requires
        tree.wf(),
        t < tree.node_count(),
    ensures
        r == parent_is(*tree, t as int, k@),
{
    match tree.parent(t) {
        Some(p) => tree.kind_is(p, k),
        None => false,
    }
}

/// The `++` or `--` at `t` is the first child of an update expression.
fn is_prefix_op(tree: &CstTree, t: usize) -> (r: bool)
    requires
        tree.wf(),
        t < tree.node_count(),
    ensures
        r == is_prefix(*tree, t as int),
{
    let p = match tree.parent(t) {
        Some(p) => p,
        None => return false,
    };
    if !tree.kind_is(p, "update_expression") {
        return false;
    }
    let cs = tree.children(p);
    if cs.len() == 0 {
        return false;
    }
    tree.range(cs[0]).start.raw == tree.range(t).start.raw
}

/// An annotation among the siblings of `dims` ends at or before the bracket `br`.
fn has_annotation_before(tree: &CstTree, dims: usize, br: usize) -> (r: bool)
    requires
        tree.wf(),
        dims < tree.node_count(),
        br < tree.node_count(),
    ensures
        r == annotation_before(*tree, dims as int, br as int),
{
    let p = match tree.parent(dims) {
        Some(p) => p,
        None => return false,
    };
    let cs = tree.children(p);
    let bs = tree.range(br).start.raw;
    let mut i: usize = 0;
    while i < cs.len()
        invariant
            tree.wf(),
            p < tree.node_count(),
            tree.parent_of(dims as int) == Some(p),
            cs@ == tree.children_of(p as int),
            forall|x: int| 0 <= x < cs@.len() ==> p < #[trigger] cs@[x] < tree.node_count(),
            bs == tree.start_of(br as int),
            0 <= i <= cs@.len(),
            forall|k: int| 0 <= k < i ==> {
                let c = #[trigger] cs@[k] as int;
                !(tree.end_of(c) <= tree.start_of(br as int) && (tree.kind_of(c) == "annotation"@ || tree.kind_of(c)
                    == "marker_annotation"@))
            },
        decreases cs@.len() - i,
    {
        let c = cs[i];
        if tree.range(c).end.raw <= bs && (tree.kind_is(c, "annotation") || tree.kind_is(c, "marker_annotation")) {
            proof {
                assert(tree.children_of(tree.parent_of(dims as int).unwrap() as int)[i as int] == c);
            }
            return true;
        }
        i = i + 1;
    }
    false
}

/// Node `j` is `root` or lies below it.
pub(crate) fn is_descendant(tree: &CstTree, j: usize, root: usize) -> (r: bool)
    requires
        tree.wf(),
        j < tree.node_count(),
    ensures
        r == is_desc(*tree, j as int, root as int),
{
    let mut cur = j;
    while cur != root
        invariant
            tree.wf(),
            cur < tree.node_count(),
            is_desc(*tree, j as int, root as int) == is_desc(*tree, cur as int, root as int),
        decreases cur,
    {
        let p = match tree.parent(cur) {
            Some(p) => p,
            None => return false,
        };
        cur = p;
    }
    true
}

/// For a `)` of the formal parameters of a declarator, the declarator's name.
fn method_name_for_paren(tree: &CstTree, rp: usize) -> (r: Option<usize>)
    requires
        tree.wf(),
        rp < tree.node_count(),
    ensures
        r == method_name_of(*tree, rp as int),
        r.is_some() ==> r.unwrap() < tree.node_count(),
{
    let params = match tree.parent(rp) {
        Some(p) => p,
        None => return None,
    };
    if !tree.kind_is(params, "formal_parameters") {
        return None;
    }
    let decl = match tree.parent(params) {
        Some(d) => d,
        None => return None,
    };
    if !tree.kind_is(decl, "method_declarator") && !tree.kind_is(decl, "constructor_declarator") {
        return None;
    }
    tree.find_child(decl, "identifier")
}

/// The token that ends last at or before `pos` around `node` (see `token_before`).
fn find_token_before(tree: &CstTree, node: usize, pos: u32) -> (r: Option<usize>)
    requires
        tree.wf(),
        node < tree.node_count(),
    ensures
        r == token_before(*tree, node as int, pos as int),
        r.is_some() ==> r.unwrap() < tree.node_count(),
{
    let root = match tree.parent(node) {
        Some(p) => p,
        None => node,
    };
    let n = tree.len();
    let mut best: Option<usize> = None;
    let mut j: usize = 0;
    while j < n
        invariant
            tree.wf(),
            n == tree.node_count(),
            root < n,
            0 <= j <= n,
            best == best_before(*tree, root as int, pos as int, j as int),
            best.is_some() ==> best.unwrap() < j,
        decreases n - j,
    {
        let r = tree.range(j);
        if r.end.raw <= pos && tree.kind(j).unicode_len() > 0 && trim(tree.text(j)).unicode_len() > 0 && is_descendant(tree, j, root) {
            let better = match best {
                Some(b) => r.end.raw > tree.range(b).end.raw,
                None => true,
            };
            if better {
                best = Some(j);
            }
        }
        j = j + 1;
    }
    match best {
        Some(b) => {
            if tree.kind_is(b, ")") {
                match method_name_for_paren(tree, b) {
                    Some(m) => Some(m),
                    None => best,
                }
            } else {
                best
            }
        },
        None => None,
    }
}

/// The default tokens.
fn default_no_whitespace_after_tokens_vec() -> (r: Vec<NoWhitespaceAfterToken>)
    ensures
        r@ == default_no_whitespace_after_tokens(),
{
    let mut tokens: Vec<NoWhitespaceAfterToken> = Vec::new();
    tokens.push(NoWhitespaceAfterToken::ArrayInit);
    tokens.push(NoWhitespaceAfterToken::At);
    tokens.push(NoWhitespaceAfterToken::Inc);
    tokens.push(NoWhitespaceAfterToken::Dec);
    tokens.push(NoWhitespaceAfterToken::UnaryMinus);
    tokens.push(NoWhitespaceAfterToken::UnaryPlus);
    tokens.push(NoWhitespaceAfterToken::Bnot);
    tokens.push(NoWhitespaceAfterToken::Lnot);
    tokens.push(NoWhitespaceAfterToken::Dot);
    tokens.push(NoWhitespaceAfterToken::ArrayDeclarator);
    tokens.push(NoWhitespaceAfterToken::IndexOp);
    proof {
        assert(tokens@ =~= default_no_whitespace_after_tokens());
    }
    tokens
}

/// The rule reports only at the node kinds that `relevant_kinds` names.
pub proof fn law_reports_only_at_relevant_kinds(rule: NoWhitespaceAfter, tree: CstTree, node: int)
    requires
        !seq!["{"@, "@"@, "++"@, "--"@, "-"@, "+"@, "~"@, "!"@, "."@, "dimensions"@, "dimensions_expr"@, "array_access"@, "cast_expression"@, "synchronized_statement"@, "::"@].contains(tree.kind_of(node)),
    ensures
        spec_check(rule, tree, node) == Seq::<DiagView>::empty(),
{
    let ks = seq!["{"@, "@"@, "++"@, "--"@, "-"@, "+"@, "~"@, "!"@, "."@, "dimensions"@, "dimensions_expr"@, "array_access"@, "cast_expression"@, "synchronized_statement"@, "::"@];
    assert(ks[0] == "{"@ && ks[1] == "@"@ && ks[2] == "++"@ && ks[3] == "--"@ && ks[4] == "-"@ && ks[5] == "+"@ && ks[6] == "~"@ && ks[7] == "!"@ && ks[8] == "."@ && ks[9] == "dimensions"@ && ks[10] == "dimensions_expr"@ && ks[11] == "array_access"@ && ks[12] == "cast_expression"@ && ks[13] == "synchronized_statement"@ && ks[14] == "::"@);
}

/// A checked `@`, `~`, `!`, `.` or `::` with a space right after it is
/// reported: the result is one `Followed` diagnostic at that token, whose safe
/// fix deletes the white space that starts right after it.
pub proof fn law_token_followed_by_space(rule: NoWhitespaceAfter, tree: CstTree, node: int, t: NoWhitespaceAfterToken)
    requires
        (tree.kind_of(node) == "@"@ && t == NoWhitespaceAfterToken::At)
            || (tree.kind_of(node) == "~"@ && t == NoWhitespaceAfterToken::Bnot)
            || (tree.kind_of(node) == "!"@ && t == NoWhitespaceAfterToken::Lnot)
            || (tree.kind_of(node) == "."@ && t == NoWhitespaceAfterToken::Dot)
            || (tree.kind_of(node) == "::"@ && t == NoWhitespaceAfterToken::MethodRef),
        rule.tokens@.contains(t),
        chars_after(tree.src_bytes(), tree.end_of(node)).len() > 0,
        chars_after(tree.src_bytes(), tree.end_of(node))[0] == ' ',
    ensures
        spec_check(rule, tree, node).len() == 1,
        spec_check(rule, tree, node)[0].0 == "Followed"@,
        spec_check(rule, tree, node)[0].1 == "'"@ + tree.text_of(node) + "' is followed by whitespace"@,
        spec_check(rule, tree, node)[0].2 == tree.start_of(node),
        spec_check(rule, tree, node)[0].3 == tree.end_of(node),
        spec_check(rule, tree, node)[0].4 is Some,
        spec_check(rule, tree, node)[0].4.unwrap().1 == Applicability::Safe,
        spec_check(rule, tree, node)[0].4.unwrap().0.len() == 1,
        spec_check(rule, tree, node)[0].4.unwrap().0[0].0 is None,
        spec_check(rule, tree, node)[0].4.unwrap().0[0].1 == tree.end_of(node),
{
    let b = tree.src_bytes();
    let pos = tree.end_of(node);
    let cs = chars_after(b, pos);
    assert(is_white_space(cs[0]));
    assert(leading_ws(cs) >= 1);
    lemma_leading_ws_bound(cs);
    let h = head_ws(cs);
    assert(h[0] == ' ');
    assert(!(h[0] == '\n' || h[0] == '\r'));
    assert(!all_line_breaks(h));
    assert(spec_ws_range_after(b, pos) is Some);
    reveal_strlit("{");
    reveal_strlit("@");
    reveal_strlit("++");
    reveal_strlit("--");
    reveal_strlit("-");
    reveal_strlit("+");
    reveal_strlit("~");
    reveal_strlit("!");
    reveal_strlit(".");
    reveal_strlit("dimensions");
    reveal_strlit("dimensions_expr");
    reveal_strlit("array_access");
    reveal_strlit("cast_expression");
    reveal_strlit("synchronized_statement");
    reveal_strlit("::");
    assert("@"@[0] != "{"@[0]);
    assert("~"@[0] != "{"@[0]);
    assert("~"@[0] != "@"@[0]);
    assert("~"@.len() != "++"@.len());
    assert("~"@.len() != "--"@.len());
    assert("~"@[0] != "-"@[0]);
    assert("~"@[0] != "+"@[0]);
    assert("!"@[0] != "{"@[0]);
    assert("!"@[0] != "@"@[0]);
    assert("!"@.len() != "++"@.len());
    assert("!"@.len() != "--"@.len());
    assert("!"@[0] != "-"@[0]);
    assert("!"@[0] != "+"@[0]);
    assert("!"@[0] != "~"@[0]);
    assert("."@[0] != "{"@[0]);
    assert("."@[0] != "@"@[0]);
    assert("."@.len() != "++"@.len());
    assert("."@.len() != "--"@.len());
    assert("."@[0] != "-"@[0]);
    assert("."@[0] != "+"@[0]);
    assert("."@[0] != "~"@[0]);
    assert("."@[0] != "!"@[0]);
    assert("::"@.len() != "{"@.len());
    assert("::"@.len() != "@"@.len());
    assert("::"@[0] != "++"@[0]);
    assert("::"@[0] != "--"@[0]);
    assert("::"@.len() != "-"@.len());
    assert("::"@.len() != "+"@.len());
    assert("::"@.len() != "~"@.len());
    assert("::"@.len() != "!"@.len());
    assert("::"@.len() != "."@.len());
    assert("::"@.len() != "dimensions"@.len());
    assert("::"@.len() != "dimensions_expr"@.len());
    assert("::"@.len() != "array_access"@.len());
    assert("::"@.len() != "cast_expression"@.len());
    assert("::"@.len() != "synchronized_statement"@.len());
}


} // verus!
