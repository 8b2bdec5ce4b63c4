//! ParenPad: white space just inside parentheses.

use vstd::prelude::*;

use crate::config::Properties;
use crate::cst::CstTree;
use crate::diagnostics::{append_diags, diag_views, no_diags, one_diag, DiagView, Diagnostic};
use crate::rules::common::{
    char_after, char_before, diag_followed, diag_not_followed, diag_not_preceded, diag_preceded,
    has_whitespace_after, has_whitespace_before, spec_diag_followed, spec_diag_not_followed,
    spec_diag_not_preceded, spec_diag_preceded, whitespace_range_after, whitespace_range_before,
};
use crate::strings::{filter_map, split_commas, split_commas_exec, str_eq, str_views, trim, trim_chars};
use crate::text::{
    chars_after, chars_before, spec_ws_after, spec_ws_before, spec_ws_range_after,
    spec_ws_range_before, tail_ws_has_newline, ws_before_has_newline,
};

verus! {

/// The constructs whose parentheses ParenPad checks.
#[derive(Clone, Copy, Debug, PartialEq, Eq, Hash, Structural)]
pub enum ParenPadToken {
    Annotation,
    AnnotationFieldDef,
    CtorCall,
    CtorDef,
    EnumConstantDef,
    Expr,
    LiteralCatch,
    LiteralDo,
    LiteralFor,
    LiteralIf,
    LiteralNew,
    LiteralSwitch,
    LiteralSynchronized,
    LiteralWhile,
    MethodCall,
    MethodDef,
    Question,
    ResourceSpecification,
    SuperCtorCall,
    Lambda,
    RecordDef,
}

/// The token that the name `s` stands for, if any.
pub open spec fn paren_pad_token_named(s: Seq<char>) -> Option<ParenPadToken> {
    if s == "ANNOTATION"@ {
        Some(ParenPadToken::Annotation)
    } else if s == "ANNOTATION_FIELD_DEF"@ {
        Some(ParenPadToken::AnnotationFieldDef)
    } else if s == "CTOR_CALL"@ {
        Some(ParenPadToken::CtorCall)
    } else if s == "CTOR_DEF"@ {
        Some(ParenPadToken::CtorDef)
    } else if s == "ENUM_CONSTANT_DEF"@ {
        Some(ParenPadToken::EnumConstantDef)
    } else if s == "EXPR"@ {
        Some(ParenPadToken::Expr)
    } else if s == "LITERAL_CATCH"@ {
        Some(ParenPadToken::LiteralCatch)
    } else if s == "LITERAL_DO"@ {
        Some(ParenPadToken::LiteralDo)
    } else if s == "LITERAL_FOR"@ {
        Some(ParenPadToken::LiteralFor)
    } else if s == "LITERAL_IF"@ {
        Some(ParenPadToken::LiteralIf)
    } else if s == "LITERAL_NEW"@ {
        Some(ParenPadToken::LiteralNew)
    } else if s == "LITERAL_SWITCH"@ {
        Some(ParenPadToken::LiteralSwitch)
    } else if s == "LITERAL_SYNCHRONIZED"@ {
        Some(ParenPadToken::LiteralSynchronized)
    } else if s == "LITERAL_WHILE"@ {
        Some(ParenPadToken::LiteralWhile)
    } else if s == "METHOD_CALL"@ {
        Some(ParenPadToken::MethodCall)
    } else if s == "METHOD_DEF"@ {
        Some(ParenPadToken::MethodDef)
    } else if s == "QUESTION"@ {
        Some(ParenPadToken::Question)
    } else if s == "RESOURCE_SPECIFICATION"@ {
        Some(ParenPadToken::ResourceSpecification)
    } else if s == "SUPER_CTOR_CALL"@ {
        Some(ParenPadToken::SuperCtorCall)
    } else if s == "LAMBDA"@ {
        Some(ParenPadToken::Lambda)
    } else if s == "RECORD_DEF"@ {
        Some(ParenPadToken::RecordDef)
    } else {
        None
    }
}

impl ParenPadToken {
    /// The token named `s` (around white space), if any.
    pub fn from_str(s: &str) -> (r: Option<Self>)
        ensures
            r == paren_pad_token_named(trim_chars(s@)),
    {
        let t = trim(s);
        if str_eq(t, "ANNOTATION") {
            Some(ParenPadToken::Annotation)
        } else if str_eq(t, "ANNOTATION_FIELD_DEF") {
            Some(ParenPadToken::AnnotationFieldDef)
        } else if str_eq(t, "CTOR_CALL") {
            Some(ParenPadToken::CtorCall)
        } else if str_eq(t, "CTOR_DEF") {
            Some(ParenPadToken::CtorDef)
        } else if str_eq(t, "ENUM_CONSTANT_DEF") {
            Some(ParenPadToken::EnumConstantDef)
        } else if str_eq(t, "EXPR") {
            Some(ParenPadToken::Expr)
        } else if str_eq(t, "LITERAL_CATCH") {
            Some(ParenPadToken::LiteralCatch)
        } else if str_eq(t, "LITERAL_DO") {
            Some(ParenPadToken::LiteralDo)
        } else if str_eq(t, "LITERAL_FOR") {
            Some(ParenPadToken::LiteralFor)
        } else if str_eq(t, "LITERAL_IF") {
            Some(ParenPadToken::LiteralIf)
        } else if str_eq(t, "LITERAL_NEW") {
            Some(ParenPadToken::LiteralNew)
        } else if str_eq(t, "LITERAL_SWITCH") {
            Some(ParenPadToken::LiteralSwitch)
        } else if str_eq(t, "LITERAL_SYNCHRONIZED") {
            Some(ParenPadToken::LiteralSynchronized)
        } else if str_eq(t, "LITERAL_WHILE") {
            Some(ParenPadToken::LiteralWhile)
        } else if str_eq(t, "METHOD_CALL") {
            Some(ParenPadToken::MethodCall)
        } else if str_eq(t, "METHOD_DEF") {
            Some(ParenPadToken::MethodDef)
        } else if str_eq(t, "QUESTION") {
            Some(ParenPadToken::Question)
        } else if str_eq(t, "RESOURCE_SPECIFICATION") {
            Some(ParenPadToken::ResourceSpecification)
        } else if str_eq(t, "SUPER_CTOR_CALL") {
            Some(ParenPadToken::SuperCtorCall)
        } else if str_eq(t, "LAMBDA") {
            Some(ParenPadToken::Lambda)
        } else if str_eq(t, "RECORD_DEF") {
            Some(ParenPadToken::RecordDef)
        } else {
            None
        }
    }
}

/// `t` is one of `tokens`.
fn has_paren_pad_token(tokens: &Vec<ParenPadToken>, t: ParenPadToken) -> (r: bool)
    ensures
        r == tokens@.contains(t),
{
    let mut i: usize = 0;
    while i < tokens.len()
        invariant
            0 <= i <= tokens@.len(),
            forall|k: int| 0 <= k < i ==> tokens@[k] != t,
        decreases tokens@.len() - i,
    {
        if tokens[i] == t {
            return true;
        }
        i = i + 1;
    }
    false
}

/// The tokens named by the comma-separated list `pieces`, in order; names that stand for no token are skipped.
fn parse_paren_pad_tokens(pieces: &Vec<String>) -> (r: Vec<ParenPadToken>)
    ensures
        r@ == filter_map(str_views(pieces@), |p: Seq<char>| paren_pad_token_named(trim_chars(p))),
{
    let mut out: Vec<ParenPadToken> = Vec::new();
    let mut i: usize = 0;
    proof {
        assert(str_views(pieces@).subrange(0, 0) =~= Seq::<Seq<char>>::empty());
    }
    while i < pieces.len()
        invariant
            0 <= i <= pieces@.len(),
            out@ == filter_map(str_views(pieces@).subrange(0, i as int), |p: Seq<char>| paren_pad_token_named(trim_chars(p))),
        decreases pieces@.len() - i,
    {
        let ghost pre = str_views(pieces@).subrange(0, i as int);
        let ghost cur = str_views(pieces@).subrange(0, i + 1);
        proof {
            assert(cur.drop_last() =~= pre);
            assert(cur.last() == pieces@[i as int]@);
        }
        match ParenPadToken::from_str(pieces[i].as_str()) {
            Some(t) => {
                out.push(t);
            },
            None => {},
        }
        i = i + 1;
    }
    proof {
        assert(str_views(pieces@).subrange(0, pieces@.len() as int) =~= str_views(pieces@));
    }
    out
}

/// Whether white space is wanted inside the parentheses.
#[derive(Clone, Copy, Debug, PartialEq, Eq, Structural)]
pub enum ParenPadOption {
    Space,
    NoSpace,
}

impl ParenPadOption {
    /// `space` (around white space) selects `Space`; anything else `NoSpace`.
    pub fn from_str(s: &str) -> (r: Self)
        ensures
            r == if trim_chars(s@) == "space"@ { ParenPadOption::Space } else { ParenPadOption::NoSpace },
    {
        if str_eq(trim(s), "space") {
            ParenPadOption::Space
        } else {
            ParenPadOption::NoSpace
        }
    }
}

/// Every ParenPad token, in declaration order.
pub open spec fn all_paren_pad_tokens() -> Seq<ParenPadToken> {
    seq![ParenPadToken::Annotation, ParenPadToken::AnnotationFieldDef, ParenPadToken::CtorCall, ParenPadToken::CtorDef, ParenPadToken::EnumConstantDef, ParenPadToken::Expr, ParenPadToken::LiteralCatch, ParenPadToken::LiteralDo, ParenPadToken::LiteralFor, ParenPadToken::LiteralIf, ParenPadToken::LiteralNew, ParenPadToken::LiteralSwitch, ParenPadToken::LiteralSynchronized, ParenPadToken::LiteralWhile, ParenPadToken::MethodCall, ParenPadToken::MethodDef, ParenPadToken::Question, ParenPadToken::ResourceSpecification, ParenPadToken::SuperCtorCall, ParenPadToken::Lambda, ParenPadToken::RecordDef]
}

/// The ParenPad rule: the option and the constructs it applies to.
#[derive(Clone, Debug)]
pub struct ParenPad {
    pub option: ParenPadOption,
    pub tokens: Vec<ParenPadToken>,
}

/// The diagnostics for an opening parenthesis at node `lp`.
#[verifier::opaque]
pub open spec fn spec_lparen(opt: ParenPadOption, tree: CstTree, lp: int) -> Seq<DiagView> {
    let b = tree.src_bytes();
    let after = tree.end_of(lp);
    let next = chars_after(b, after);
    if next.len() > 0 && (next[0] == ')' || next[0] == '\n') {
        seq![]
    } else if opt == ParenPadOption::NoSpace {
        if spec_ws_after(b, after) && spec_ws_range_after(b, after) is Some {
            seq![spec_diag_followed(tree, lp, spec_ws_range_after(b, after).unwrap())]
        } else {
            seq![]
        }
    } else if !spec_ws_after(b, after) {
        seq![spec_diag_not_followed(tree, lp)]
    } else {
        seq![]
    }
}

/// The diagnostics for a closing parenthesis at node `rp`.
#[verifier::opaque]
pub open spec fn spec_rparen(opt: ParenPadOption, tree: CstTree, rp: int) -> Seq<DiagView> {
    let b = tree.src_bytes();
    let before = tree.start_of(rp);
    let prev = chars_before(b, before);
    if before != 0 && prev.len() > 0 && prev.last() == '(' {
        seq![]
    } else if tail_ws_has_newline(prev) {
        seq![]
    } else if opt == ParenPadOption::NoSpace {
        if spec_ws_before(b, before) && spec_ws_range_before(b, before) is Some {
            seq![spec_diag_preceded(tree, rp, spec_ws_range_before(b, before).unwrap())]
        } else {
            seq![]
        }
    } else if !spec_ws_before(b, before) {
        seq![spec_diag_not_preceded(tree, rp)]
    } else {
        seq![]
    }
}

/// The diagnostics for the first `(` and (when `with_r`) the first `)` among the children of `n`.
#[verifier::opaque]
pub open spec fn spec_parens(opt: ParenPadOption, tree: CstTree, n: int, with_r: bool) -> Seq<DiagView> {
    let l = tree.kind_child(n, "("@);
    let r = tree.kind_child(n, ")"@);
    (if l is Some { spec_lparen(opt, tree, l.unwrap() as int) } else { seq![] })
        + (if with_r && r is Some { spec_rparen(opt, tree, r.unwrap() as int) } else { seq![] })
}

/// The diagnostics for the parentheses of the child of `n` in field `field`.
#[verifier::opaque]
pub open spec fn spec_field_parens(opt: ParenPadOption, tree: CstTree, n: int, field: Seq<char>) -> Seq<DiagView> {
    let f = tree.field_child(n, field);
    if f is Some { spec_parens(opt, tree, f.unwrap() as int, true) } else { seq![] }
}

/// The diagnostics of ParenPad at node `node`.
pub open spec fn spec_check(opt: ParenPadOption, tokens: Seq<ParenPadToken>, tree: CstTree, node: int) -> Seq<DiagView> {
    let k = tree.kind_of(node);
    if k == "parenthesized_expression"@ && tokens.contains(ParenPadToken::Expr) {
        spec_parens(opt, tree, node, true)
    } else if k == "method_invocation"@ && tokens.contains(ParenPadToken::MethodCall) {
        spec_field_parens(opt, tree, node, "arguments"@)
    } else if (k == "method_declaration"@ || k == "constructor_declaration"@) && (tokens.contains(ParenPadToken::MethodDef)
        || tokens.contains(ParenPadToken::CtorDef)) {
        let should = if k == "constructor_declaration"@ { tokens.contains(ParenPadToken::CtorDef) } else { tokens.contains(ParenPadToken::MethodDef) };
        if should { spec_field_parens(opt, tree, node, "parameters"@) } else { seq![] }
    } else if k == "if_statement"@ && tokens.contains(ParenPadToken::LiteralIf) {
        spec_field_parens(opt, tree, node, "condition"@)
    } else if k == "while_statement"@ && tokens.contains(ParenPadToken::LiteralWhile) {
        spec_field_parens(opt, tree, node, "condition"@)
    } else if k == "for_statement"@ && tokens.contains(ParenPadToken::LiteralFor) {
        spec_parens(opt, tree, node, tree.field_child(node, "update"@) is Some)
    } else if k == "enhanced_for_statement"@ && tokens.contains(ParenPadToken::LiteralFor) {
        spec_parens(opt, tree, node, true)
    } else if k == "do_statement"@ && tokens.contains(ParenPadToken::LiteralDo) {
        spec_field_parens(opt, tree, node, "condition"@)
    } else if (k == "switch_expression"@ || k == "switch_statement"@) && tokens.contains(ParenPadToken::LiteralSwitch) {
        spec_field_parens(opt, tree, node, "condition"@)
    } else {
        spec_check_rest(opt, tokens, tree, node)
    }
}

/// The diagnostics of ParenPad at node `node`, for the kinds from `synchronized_statement` on.
pub open spec fn spec_check_rest(opt: ParenPadOption, tokens: Seq<ParenPadToken>, tree: CstTree, node: int) -> Seq<DiagView> {
    let k = tree.kind_of(node);
    if k == "synchronized_statement"@ && tokens.contains(ParenPadToken::LiteralSynchronized) {
        spec_parens(opt, tree, node, true)
    } else if k == "catch_clause"@ && tokens.contains(ParenPadToken::LiteralCatch) {
        spec_field_parens(opt, tree, node, "parameters"@)
    } else if k == "object_creation_expression"@ && (tokens.contains(ParenPadToken::LiteralNew) || tokens.contains(ParenPadToken::CtorCall)) {
        spec_field_parens(opt, tree, node, "arguments"@)
    } else if k == "explicit_constructor_invocation"@ && (tokens.contains(ParenPadToken::CtorCall) || tokens.contains(ParenPadToken::SuperCtorCall)) {
        spec_field_parens(opt, tree, node, "arguments"@)
    } else if k == "ternary_expression"@ && tokens.contains(ParenPadToken::Question) {
        let c = tree.field_child(node, "condition"@);
        if c is Some && tree.kind_of(c.unwrap() as int) == "parenthesized_expression"@ {
            spec_parens(opt, tree, c.unwrap() as int, true)
        } else {
            seq![]
        }
    } else if k == "try_with_resources_statement"@ && tokens.contains(ParenPadToken::ResourceSpecification) {
        spec_field_parens(opt, tree, node, "resources"@)
    } else if k == "lambda_expression"@ && tokens.contains(ParenPadToken::Lambda) {
        let p = tree.field_child(node, "parameters"@);
        if p is Some && (tree.kind_of(p.unwrap() as int) == "formal_parameters"@ || tree.kind_of(p.unwrap() as int)
            == "inferred_parameters"@) {
            spec_parens(opt, tree, p.unwrap() as int, true)
        } else {
            seq![]
        }
    } else if k == "record_declaration"@ && tokens.contains(ParenPadToken::RecordDef) {
        spec_field_parens(opt, tree, node, "parameters"@)
    } else if (k == "annotation"@ || k == "marker_annotation"@ || k == "annotation_type_declaration"@) && (tokens.contains(
        ParenPadToken::Annotation) || tokens.contains(ParenPadToken::AnnotationFieldDef)) {
        spec_field_parens(opt, tree, node, "arguments"@)
    } else if k == "enum_constant"@ && tokens.contains(ParenPadToken::EnumConstantDef) {
        spec_field_parens(opt, tree, node, "arguments"@)
    } else {
        seq![]
    }
}

impl Default for ParenPad {
    /// The rule with option `nospace` and every token.
    fn default() -> (r: Self)
        ensures
            r.option == ParenPadOption::NoSpace,
            r.tokens@ == all_paren_pad_tokens(),
    {
        ParenPad { option: ParenPadOption::NoSpace, tokens: default_paren_pad_tokens() }
    }
}

impl ParenPad {
    /// The rule as the properties configure it: `option` (default `nospace`) and
    /// `tokens`, a comma-separated list of token names (default: every token);
    /// a list that names no token also selects every token.
    pub fn from_config(properties: &Properties) -> (r: Self)
        ensures
            r.option == match properties.lookup("option"@) {
                Some(v) => if trim_chars(v) == "space"@ { ParenPadOption::Space } else { ParenPadOption::NoSpace },
                None => ParenPadOption::NoSpace,
            },
            r.tokens@ == match properties.lookup("tokens"@) {
                Some(v) => {
                    let parsed = filter_map(split_commas(v), |p: Seq<char>| paren_pad_token_named(trim_chars(p)));
                    if parsed.len() == 0 { all_paren_pad_tokens() } else { parsed }
                },
                None => all_paren_pad_tokens(),
            },
    {
        let option = match properties.get("option") {
            Some(v) => ParenPadOption::from_str(v),
            None => ParenPadOption::NoSpace,
        };
        let tokens = match properties.get("tokens") {
            Some(v) => {
                let pieces = split_commas_exec(v);
                let parsed = parse_paren_pad_tokens(&pieces);
                if parsed.len() == 0 {
                    default_paren_pad_tokens()
                } else {
                    parsed
                }
            },
            None => default_paren_pad_tokens(),
        };
        ParenPad { option, tokens }
    }

    /// The rule's name.
    pub fn name(&self) -> (r: &'static str)
        ensures
            r@ == "ParenPad"@,
    {
        "ParenPad"
    }

    /// The violations at node `node`.
    #[verifier::spinoff_prover]
    pub fn check(&self, tree: &CstTree, node: usize) -> (r: Vec<Diagnostic>)
        requires
            tree.wf(),
            node < tree.node_count(),
        ensures
            diag_views(r@) == spec_check(self.option, self.tokens@, *tree, node as int),
    {
        let k = tree.kind(node);
        let t = &self.tokens;
        if str_eq(k, "parenthesized_expression") && has_paren_pad_token(t, ParenPadToken::Expr) {
            self.check_parens(tree, node, true)
        } else if str_eq(k, "method_invocation") && has_paren_pad_token(t, ParenPadToken::MethodCall) {
            self.check_field_parens(tree, node, "arguments")
        } else if (str_eq(k, "method_declaration") || str_eq(k, "constructor_declaration")) && (has_paren_pad_token(t, ParenPadToken::MethodDef)
            || has_paren_pad_token(t, ParenPadToken::CtorDef)) {
            let should = if str_eq(k, "constructor_declaration") {
                has_paren_pad_token(t, ParenPadToken::CtorDef)
            } else {
                has_paren_pad_token(t, ParenPadToken::MethodDef)
            };
            if should {
                self.check_field_parens(tree, node, "parameters")
            } else {
                no_diags()
            }
        } else if str_eq(k, "if_statement") && has_paren_pad_token(t, ParenPadToken::LiteralIf) {
            self.check_field_parens(tree, node, "condition")
        } else if str_eq(k, "while_statement") && has_paren_pad_token(t, ParenPadToken::LiteralWhile) {
            self.check_field_parens(tree, node, "condition")
        } else if str_eq(k, "for_statement") && has_paren_pad_token(t, ParenPadToken::LiteralFor) {
            let has_update = tree.child_by_field_name(node, "update").is_some();
            self.check_parens(tree, node, has_update)
        } else if str_eq(k, "enhanced_for_statement") && has_paren_pad_token(t, ParenPadToken::LiteralFor) {
            self.check_parens(tree, node, true)
        } else if str_eq(k, "do_statement") && has_paren_pad_token(t, ParenPadToken::LiteralDo) {
            self.check_field_parens(tree, node, "condition")
        } else if (str_eq(k, "switch_expression") || str_eq(k, "switch_statement")) && has_paren_pad_token(t, ParenPadToken::LiteralSwitch) {
            self.check_field_parens(tree, node, "condition")
        } else {
            self.check_rest(tree, node)
        }
    }

    #[verifier::spinoff_prover]
    fn check_rest(&self, tree: &CstTree, node: usize) -> (r: Vec<Diagnostic>)
        requires
            tree.wf(),
            node < tree.node_count(),
        ensures
            diag_views(r@) == spec_check_rest(self.option, self.tokens@, *tree, node as int),
    {
        let k = tree.kind(node);
        let t = &self.tokens;
        if str_eq(k, "synchronized_statement") && has_paren_pad_token(t, ParenPadToken::LiteralSynchronized) {
            self.check_parens(tree, node, true)
        } else if str_eq(k, "catch_clause") && has_paren_pad_token(t, ParenPadToken::LiteralCatch) {
            self.check_field_parens(tree, node, "parameters")
        } else if str_eq(k, "object_creation_expression") && (has_paren_pad_token(t, ParenPadToken::LiteralNew) || has_paren_pad_token(t, ParenPadToken::CtorCall)) {
            self.check_field_parens(tree, node, "arguments")
        } else if str_eq(k, "explicit_constructor_invocation") && (has_paren_pad_token(t, ParenPadToken::CtorCall) || has_paren_pad_token(t, ParenPadToken::SuperCtorCall)) {
            self.check_field_parens(tree, node, "arguments")
        } else if str_eq(k, "ternary_expression") && has_paren_pad_token(t, ParenPadToken::Question) {
            match tree.child_by_field_name(node, "condition") {
                Some(c) => {
                    if tree.kind_is(c, "parenthesized_expression") {
                        self.check_parens(tree, c, true)
                    } else {
                        no_diags()
                    }
                },
                None => no_diags(),
            }
        } else if str_eq(k, "try_with_resources_statement") && has_paren_pad_token(t, ParenPadToken::ResourceSpecification) {
            self.check_field_parens(tree, node, "resources")
        } else if str_eq(k, "lambda_expression") && has_paren_pad_token(t, ParenPadToken::Lambda) {
            match tree.child_by_field_name(node, "parameters") {
                Some(p) => {
                    if tree.kind_is(p, "formal_parameters") || tree.kind_is(p, "inferred_parameters") {
                        self.check_parens(tree, p, true)
                    } else {
                        no_diags()
                    }
                },
                None => no_diags(),
            }
        } else if str_eq(k, "record_declaration") && has_paren_pad_token(t, ParenPadToken::RecordDef) {
            self.check_field_parens(tree, node, "parameters")
        } else if (str_eq(k, "annotation") || str_eq(k, "marker_annotation") || str_eq(k, "annotation_type_declaration"))
            && (has_paren_pad_token(t, ParenPadToken::Annotation) || has_paren_pad_token(t, ParenPadToken::AnnotationFieldDef)) {
            self.check_field_parens(tree, node, "arguments")
        } else if str_eq(k, "enum_constant") && has_paren_pad_token(t, ParenPadToken::EnumConstantDef) {
            self.check_field_parens(tree, node, "arguments")
        } else {
            no_diags()
        }
    }

    fn check_field_parens(&self, tree: &CstTree, n: usize, field: &str) -> (r: Vec<Diagnostic>)
        requires
            tree.wf(),
            n < tree.node_count(),
        ensures
            diag_views(r@) == spec_field_parens(self.option, *tree, n as int, field@),
    {
        proof {
            reveal(spec_field_parens);
        }
        match tree.child_by_field_name(n, field) {
            Some(f) => self.check_parens(tree, f, true),
            None => no_diags(),
        }
    }

    fn check_parens(&self, tree: &CstTree, n: usize, with_r: bool) -> (r: Vec<Diagnostic>)
        requires
            tree.wf(),
            n < tree.node_count(),
        ensures
            diag_views(r@) == spec_parens(self.option, *tree, n as int, with_r),
    {
        proof {
            reveal(spec_parens);
        }
        let mut diagnostics = no_diags();
        let l = tree.find_child(n, "(");
        let r = tree.find_child(n, ")");
        if let Some(lp) = l {
            let d = self.check_lparen(tree, lp);
            append_diags(&mut diagnostics, d);
        }
        if with_r {
            if let Some(rp) = r {
                let d = self.check_rparen(tree, rp);
                append_diags(&mut diagnostics, d);
            }
        }
        proof {
            assert(diag_views(diagnostics@) =~= spec_parens(self.option, *tree, n as int, with_r));
        }
        diagnostics
    }

    fn check_lparen(&self, tree: &CstTree, lp: usize) -> (r: Vec<Diagnostic>)
        requires
            tree.wf(),
            lp < tree.node_count(),
        ensures
            diag_views(r@) == spec_lparen(self.option, *tree, lp as int),
    {
        proof {
            reveal(spec_lparen);
        }
        let source = tree.source();
        let after = tree.range(lp).end;
        if let Some(c) = char_after(source, after) {
            if c == ')' || c == '\n' {
                return no_diags();
            }
        }
        let has_space = has_whitespace_after(source, after);
        match self.option {
            ParenPadOption::NoSpace => {
                if has_space {
                    if let Some(ws) = whitespace_range_after(source, after) {
                        return one_diag(diag_followed(tree, lp, ws));
                    }
                }
                no_diags()
            },
            ParenPadOption::Space => {
                if !has_space {
                    return one_diag(diag_not_followed(tree, lp));
                }
                no_diags()
            },
        }
    }

    fn check_rparen(&self, tree: &CstTree, rp: usize) -> (r: Vec<Diagnostic>)
        requires
            tree.wf(),
            rp < tree.node_count(),
        ensures
            diag_views(r@) == spec_rparen(self.option, *tree, rp as int),
    {
        proof {
            reveal(spec_rparen);
        }
        let source = tree.source();
        let before = tree.range(rp).start;
        if let Some(c) = char_before(source, before) {
            if c == '(' {
                return no_diags();
            }
        }
        if ws_before_has_newline(source, before.raw as usize) {
            return no_diags();
        }
        let has_space = has_whitespace_before(source, before);
        match self.option {
            ParenPadOption::NoSpace => {
                if has_space {
                    if let Some(ws) = whitespace_range_before(source, before) {
                        return one_diag(diag_preceded(tree, rp, ws));
                    }
                }
                no_diags()
            },
            ParenPadOption::Space => {
                if !has_space {
                    return one_diag(diag_not_preceded(tree, rp));
                }
                no_diags()
            },
        }
    }
}

/// Every ParenPad token.
fn default_paren_pad_tokens() -> (r: Vec<ParenPadToken>)
    ensures
        r@ == all_paren_pad_tokens(),
{
    let mut tokens: Vec<ParenPadToken> = Vec::new();
        tokens.push(ParenPadToken::Annotation);
        tokens.push(ParenPadToken::AnnotationFieldDef);
        tokens.push(ParenPadToken::CtorCall);
        tokens.push(ParenPadToken::CtorDef);
        tokens.push(ParenPadToken::EnumConstantDef);
        tokens.push(ParenPadToken::Expr);
        tokens.push(ParenPadToken::LiteralCatch);
        tokens.push(ParenPadToken::LiteralDo);
        tokens.push(ParenPadToken::LiteralFor);
        tokens.push(ParenPadToken::LiteralIf);
        tokens.push(ParenPadToken::LiteralNew);
        tokens.push(ParenPadToken::LiteralSwitch);
        tokens.push(ParenPadToken::LiteralSynchronized);
        tokens.push(ParenPadToken::LiteralWhile);
        tokens.push(ParenPadToken::MethodCall);
        tokens.push(ParenPadToken::MethodDef);
        tokens.push(ParenPadToken::Question);
        tokens.push(ParenPadToken::ResourceSpecification);
        tokens.push(ParenPadToken::SuperCtorCall);
        tokens.push(ParenPadToken::Lambda);
        tokens.push(ParenPadToken::RecordDef);
    proof {
        assert(tokens@ =~= all_paren_pad_tokens());
    }
    tokens
}

} // verus!
