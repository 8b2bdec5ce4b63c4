//! MethodParamPad: white space before the opening parenthesis of a parameter
//! or argument list.

use vstd::prelude::*;

use crate::config::Properties;
use crate::cst::CstTree;
use crate::diagnostics::{safe_fix, 
    concat3, diag_views, edit_views, make_kind, no_diags, one_diag, DiagView, Diagnostic, DiagnosticKind, Edit, Fix,
};
use crate::rules::common::{has_whitespace_before, whitespace_range_before};
use crate::strings::{filter_map, split_commas, split_commas_exec, str_eq, str_views, trim, trim_chars};
use crate::text::{
    blank_before_on_line, blank_since_line_start, chars_before, spec_ws_before, spec_ws_range_before, TextRange,
};

verus! {

/// The constructs whose opening parenthesis MethodParamPad checks.
#[derive(Clone, Copy, Debug, PartialEq, Eq, Hash, Structural)]
pub enum MethodParamPadToken {
    CtorDef,
    LiteralNew,
    MethodCall,
    MethodDef,
    SuperCtorCall,
    EnumConstantDef,
    RecordDef,
}

/// The token that the name `s` stands for, if any.
pub open spec fn method_param_pad_token_named(s: Seq<char>) -> Option<MethodParamPadToken> {
    if s == "CTOR_DEF"@ {
        Some(MethodParamPadToken::CtorDef)
    } else if s == "LITERAL_NEW"@ {
        Some(MethodParamPadToken::LiteralNew)
    } else if s == "METHOD_CALL"@ {
        Some(MethodParamPadToken::MethodCall)
    } else if s == "METHOD_DEF"@ {
        Some(MethodParamPadToken::MethodDef)
    } else if s == "SUPER_CTOR_CALL"@ {
        Some(MethodParamPadToken::SuperCtorCall)
    } else if s == "ENUM_CONSTANT_DEF"@ {
        Some(MethodParamPadToken::EnumConstantDef)
    } else if s == "RECORD_DEF"@ {
        Some(MethodParamPadToken::RecordDef)
    } else {
        None
    }
}

impl MethodParamPadToken {
    /// The token named `s` (around white space), if any.
    pub fn from_str(s: &str) -> (r: Option<Self>)
        ensures
            r == method_param_pad_token_named(trim_chars(s@)),
    {
        let t = trim(s);
        if str_eq(t, "CTOR_DEF") {
            Some(MethodParamPadToken::CtorDef)
        } else if str_eq(t, "LITERAL_NEW") {
            Some(MethodParamPadToken::LiteralNew)
        } else if str_eq(t, "METHOD_CALL") {
            Some(MethodParamPadToken::MethodCall)
        } else if str_eq(t, "METHOD_DEF") {
            Some(MethodParamPadToken::MethodDef)
        } else if str_eq(t, "SUPER_CTOR_CALL") {
            Some(MethodParamPadToken::SuperCtorCall)
        } else if str_eq(t, "ENUM_CONSTANT_DEF") {
            Some(MethodParamPadToken::EnumConstantDef)
        } else if str_eq(t, "RECORD_DEF") {
            Some(MethodParamPadToken::RecordDef)
        } else {
            None
        }
    }
}

/// `t` is one of `tokens`.
fn has_method_param_pad_token(tokens: &Vec<MethodParamPadToken>, t: MethodParamPadToken) -> (r: bool)
    ensures
        r == tokens@.contains(t),
{
    let mut i: usize = 0;
    while i < tokens.len()
        invariant
            0 <= i <= tokens@.len(),
            forall|k: int| 0 <= k < i ==> tokens@[k] != t,
        decreases tokens@.len() - i,
    {
        if tokens[i] == t {
            return true;
        }
        i = i + 1;
    }
    false
}

/// The tokens named by the comma-separated list `pieces`, in order; names that stand for no token are skipped.
fn parse_method_param_pad_tokens(pieces: &Vec<String>) -> (r: Vec<MethodParamPadToken>)
    ensures
        r@ == filter_map(str_views(pieces@), |p: Seq<char>| method_param_pad_token_named(trim_chars(p))),
{
    let mut out: Vec<MethodParamPadToken> = Vec::new();
    let mut i: usize = 0;
    proof {
        assert(str_views(pieces@).subrange(0, 0) =~= Seq::<Seq<char>>::empty());
    }
    while i < pieces.len()
        invariant
            0 <= i <= pieces@.len(),
            out@ == filter_map(str_views(pieces@).subrange(0, i as int), |p: Seq<char>| method_param_pad_token_named(trim_chars(p))),
        decreases pieces@.len() - i,
    {
        let ghost pre = str_views(pieces@).subrange(0, i as int);
        let ghost cur = str_views(pieces@).subrange(0, i + 1);
        proof {
            assert(cur.drop_last() =~= pre);
            assert(cur.last() == pieces@[i as int]@);
        }
        match MethodParamPadToken::from_str(pieces[i].as_str()) {
            Some(t) => {
                out.push(t);
            },
            None => {},
        }
        i = i + 1;
    }
    proof {
        assert(str_views(pieces@).subrange(0, pieces@.len() as int) =~= str_views(pieces@));
    }
    out
}

/// Whether white space is wanted before the `(`.
#[derive(Clone, Copy, Debug, PartialEq, Eq, Structural)]
pub enum MethodParamPadOption {
    Space,
    NoSpace,
}

impl MethodParamPadOption {
    /// `space` (around white space) selects `Space`; anything else `NoSpace`.
    pub fn from_str(s: &str) -> (r: Self)
        ensures
            r == if trim_chars(s@) == "space"@ { MethodParamPadOption::Space } else { MethodParamPadOption::NoSpace },
    {
        if str_eq(trim(s), "space") {
            MethodParamPadOption::Space
        } else {
            MethodParamPadOption::NoSpace
        }
    }
}

/// Violation: the `(` is preceded by white space.
#[derive(Clone, Debug)]
pub struct WsPreceded {
    pub token: String,
}

impl WsPreceded {
    /// The message of the violation.
    pub open spec fn spec_message(&self) -> Seq<char> {
        "'"@ + self.token@ + "' is preceded by whitespace"@
    }

    /// The message of the violation.
    pub fn message(&self) -> (r: String)
        ensures
            r@ == self.spec_message(),
    {
        concat3("'", self.token.as_str(), "' is preceded by whitespace")
    }

    /// The kind of diagnostic the violation gives.
    pub fn kind(&self) -> (r: DiagnosticKind)
        ensures
            r.name@ == "WsPreceded"@,
            r.body@ == self.spec_message(),
    {
        make_kind("WsPreceded", self.message())
    }
}

/// Violation: the `(` is not preceded by white space.
#[derive(Clone, Debug)]
pub struct WsNotPreceded {
    pub token: String,
}

impl WsNotPreceded {
    /// The message of the violation.
    pub open spec fn spec_message(&self) -> Seq<char> {
        "'"@ + self.token@ + "' is not preceded by whitespace"@
    }

    /// The message of the violation.
    pub fn message(&self) -> (r: String)
        ensures
            r@ == self.spec_message(),
    {
        concat3("'", self.token.as_str(), "' is not preceded by whitespace")
    }

    /// The kind of diagnostic the violation gives.
    pub fn kind(&self) -> (r: DiagnosticKind)
        ensures
            r.name@ == "WsNotPreceded"@,
            r.body@ == self.spec_message(),
    {
        make_kind("WsNotPreceded", self.message())
    }
}

/// Violation: the `(` should be on the previous line.
#[derive(Clone, Debug)]
pub struct LinePrevious {
    pub token: String,
}

impl LinePrevious {
    /// The message of the violation.
    pub open spec fn spec_message(&self) -> Seq<char> {
        "'"@ + self.token@ + "' should be on the previous line"@
    }

    /// The message of the violation.
    pub fn message(&self) -> (r: String)
        ensures
            r@ == self.spec_message(),
    {
        concat3("'", self.token.as_str(), "' should be on the previous line")
    }

    /// The kind of diagnostic the violation gives.
    pub fn kind(&self) -> (r: DiagnosticKind)
        ensures
            r.name@ == "LinePrevious"@,
            r.body@ == self.spec_message(),
    {
        make_kind("LinePrevious", self.message())
    }
}

/// Every MethodParamPad token, in declaration order.
pub open spec fn all_method_param_pad_tokens() -> Seq<MethodParamPadToken> {
    seq![MethodParamPadToken::CtorDef, MethodParamPadToken::LiteralNew, MethodParamPadToken::MethodCall, MethodParamPadToken::MethodDef, MethodParamPadToken::SuperCtorCall, MethodParamPadToken::EnumConstantDef, MethodParamPadToken::RecordDef]
}

/// The MethodParamPad rule.
#[derive(Clone, Debug)]
pub struct MethodParamPad {
    pub option: MethodParamPadOption,
    /// A `(` may start a line.
    pub allow_line_breaks: bool,
    pub tokens: Vec<MethodParamPadToken>,
}

/// The diagnostic for a `(` at node `lp` that starts its line; its fix
/// deletes the run of white space, line break included, that ends at the `(`.
pub open spec fn spec_line_previous(tree: CstTree, lp: int) -> DiagView {
    (
        "LinePrevious"@,
        "'"@ + tree.text_of(lp) + "' should be on the previous line"@,
        tree.start_of(lp),
        tree.end_of(lp),
        match spec_ws_range_before(tree.src_bytes(), tree.start_of(lp)) {
            Some(ws) => safe_fix(Some(seq![(None, ws.0, ws.1)])),
            None => None,
        },
    )
}

/// The diagnostic for a `(` at node `lp` preceded by the white space `ws`.
pub open spec fn spec_ws_preceded(tree: CstTree, lp: int, ws: (int, int)) -> DiagView {
    (
        "WsPreceded"@,
        "'"@ + tree.text_of(lp) + "' is preceded by whitespace"@,
        tree.start_of(lp),
        tree.end_of(lp),
        safe_fix(Some(seq![(None, ws.0, ws.1)])),
    )
}

/// The diagnostic for a `(` at node `lp` not preceded by white space.
pub open spec fn spec_ws_not_preceded(tree: CstTree, lp: int) -> DiagView {
    (
        "WsNotPreceded"@,
        "'"@ + tree.text_of(lp) + "' is not preceded by whitespace"@,
        tree.start_of(lp),
        tree.end_of(lp),
        safe_fix(Some(seq![(Some(" "@), tree.start_of(lp), tree.start_of(lp))])),
    )
}

/// The diagnostics for the first `(` among the children of `n`.
pub open spec fn spec_lparen(opt: MethodParamPadOption, allow_line_breaks: bool, tree: CstTree, n: int) -> Seq<DiagView> {
    let l = tree.kind_child(n, "("@);
    if l is None {
        seq![]
    } else {
        let lp = l.unwrap() as int;
        let b = tree.src_bytes();
        let pos = tree.start_of(lp);
        if pos == 0 {
            seq![]
        } else if blank_since_line_start(chars_before(b, pos), true) {
            if !allow_line_breaks { seq![spec_line_previous(tree, lp)] } else { seq![] }
        } else if opt == MethodParamPadOption::NoSpace {
            if spec_ws_before(b, pos) && spec_ws_range_before(b, pos) is Some {
                seq![spec_ws_preceded(tree, lp, spec_ws_range_before(b, pos).unwrap())]
            } else {
                seq![]
            }
        } else if !spec_ws_before(b, pos) {
            seq![spec_ws_not_preceded(tree, lp)]
        } else {
            seq![]
        }
    }
}

/// The diagnostics for the `(` of the child of `n` in field `field`.
pub open spec fn spec_field_lparen(opt: MethodParamPadOption, allow_line_breaks: bool, tree: CstTree, n: int, field: Seq<char>) -> Seq<DiagView> {
    let f = tree.field_child(n, field);
    if f is Some { spec_lparen(opt, allow_line_breaks, tree, f.unwrap() as int) } else { seq![] }
}

/// The diagnostics of MethodParamPad at node `node`.
pub open spec fn spec_check(rule: MethodParamPad, tree: CstTree, node: int) -> Seq<DiagView> {
    let k = tree.kind_of(node);
    let tokens = rule.tokens@;
    let (o, a) = (rule.option, rule.allow_line_breaks);
    if k == "method_declaration"@ && tokens.contains(MethodParamPadToken::MethodDef) {
        spec_field_lparen(o, a, tree, node, "parameters"@)
    } else if k == "constructor_declaration"@ && tokens.contains(MethodParamPadToken::CtorDef) {
        spec_field_lparen(o, a, tree, node, "parameters"@)
    } else if k == "method_invocation"@ && tokens.contains(MethodParamPadToken::MethodCall) {
        spec_field_lparen(o, a, tree, node, "arguments"@)
    } else if k == "object_creation_expression"@ && tokens.contains(MethodParamPadToken::LiteralNew) {
        spec_field_lparen(o, a, tree, node, "arguments"@)
    } else if k == "explicit_constructor_invocation"@ && tokens.contains(MethodParamPadToken::SuperCtorCall) {
        spec_field_lparen(o, a, tree, node, "arguments"@)
    } else if k == "enum_constant"@ && tokens.contains(MethodParamPadToken::EnumConstantDef) {
        spec_field_lparen(o, a, tree, node, "arguments"@)
    } else if k == "record_declaration"@ && tokens.contains(MethodParamPadToken::RecordDef) {
        spec_field_lparen(o, a, tree, node, "parameters"@)
    } else {
        seq![]
    }
}

impl Default for MethodParamPad {
    /// The rule with option `nospace`, no line breaks allowed, and every token.
    fn default() -> (r: Self)
        ensures
            r.option == MethodParamPadOption::NoSpace,
            !r.allow_line_breaks,
            r.tokens@ == all_method_param_pad_tokens(),
    {
        MethodParamPad { option: MethodParamPadOption::NoSpace, allow_line_breaks: false, tokens: default_method_param_pad_tokens() }
    }
}

impl MethodParamPad {
    /// The rule as the properties configure it: `option` (default `nospace`),
    /// `allowLineBreaks` (`true` around white space; default false) and `tokens`
    /// (default, or when the list names no token: every token).
    pub fn from_config(properties: &Properties) -> (r: Self)
        ensures
            r.option == match properties.lookup("option"@) {
                Some(v) => if trim_chars(v) == "space"@ { MethodParamPadOption::Space } else { MethodParamPadOption::NoSpace },
                None => MethodParamPadOption::NoSpace,
            },
            r.allow_line_breaks == match properties.lookup("allowLineBreaks"@) {
                Some(v) => trim_chars(v) == "true"@,
                None => false,
            },
            r.tokens@ == match properties.lookup("tokens"@) {
                Some(v) => {
                    let parsed = filter_map(split_commas(v), |p: Seq<char>| method_param_pad_token_named(trim_chars(p)));
                    if parsed.len() == 0 { all_method_param_pad_tokens() } else { parsed }
                },
                None => all_method_param_pad_tokens(),
            },
    {
        let option = match properties.get("option") {
            Some(v) => MethodParamPadOption::from_str(v),
            None => MethodParamPadOption::NoSpace,
        };
        let allow_line_breaks = match properties.get("allowLineBreaks") {
            Some(v) => str_eq(trim(v), "true"),
            None => false,
        };
        let tokens = match properties.get("tokens") {
            Some(v) => {
                let pieces = split_commas_exec(v);
                let parsed = parse_method_param_pad_tokens(&pieces);
                if parsed.len() == 0 {
                    default_method_param_pad_tokens()
                } else {
                    parsed
                }
            },
            None => default_method_param_pad_tokens(),
        };
        MethodParamPad { option, allow_line_breaks, tokens }
    }

    /// The rule's name.
    pub fn name(&self) -> (r: &'static str)
        ensures
            r@ == "MethodParamPad"@,
    {
        "MethodParamPad"
    }

    /// The node kinds the rule looks at.
    pub fn relevant_kinds(&self) -> (r: Vec<&'static str>)
        ensures
            r@.map_values(|s: &str| s@) == seq!["method_declaration"@, "constructor_declaration"@, "method_invocation"@,
                "object_creation_expression"@, "explicit_constructor_invocation"@, "enum_constant"@, "record_declaration"@],
    {
        let r = vec![
            "method_declaration",
            "constructor_declaration",
            "method_invocation",
            "object_creation_expression",
            "explicit_constructor_invocation",
            "enum_constant",
            "record_declaration",
        ];
        proof {
            assert(r@.map_values(|s: &str| s@) =~= seq!["method_declaration"@, "constructor_declaration"@, "method_invocation"@,
                "object_creation_expression"@, "explicit_constructor_invocation"@, "enum_constant"@, "record_declaration"@]);
        }
        r
    }

    /// The violations at node `node`.
    #[verifier::spinoff_prover]
    pub fn check(&self, tree: &CstTree, node: usize) -> (r: Vec<Diagnostic>)
        requires
            tree.wf(),
            node < tree.node_count(),
        ensures
            diag_views(r@) == spec_check(*self, *tree, node as int),
    {
        let k = tree.kind(node);
        let t = &self.tokens;
        if str_eq(k, "method_declaration") && has_method_param_pad_token(t, MethodParamPadToken::MethodDef) {
            self.check_field(tree, node, "parameters")
        } else if str_eq(k, "constructor_declaration") && has_method_param_pad_token(t, MethodParamPadToken::CtorDef) {
            self.check_field(tree, node, "parameters")
        } else if str_eq(k, "method_invocation") && has_method_param_pad_token(t, MethodParamPadToken::MethodCall) {
            self.check_field(tree, node, "arguments")
        } else if str_eq(k, "object_creation_expression") && has_method_param_pad_token(t, MethodParamPadToken::LiteralNew) {
            self.check_field(tree, node, "arguments")
        } else if str_eq(k, "explicit_constructor_invocation") && has_method_param_pad_token(t, MethodParamPadToken::SuperCtorCall) {
            self.check_field(tree, node, "arguments")
        } else if str_eq(k, "enum_constant") && has_method_param_pad_token(t, MethodParamPadToken::EnumConstantDef) {
            self.check_field(tree, node, "arguments")
        } else if str_eq(k, "record_declaration") && has_method_param_pad_token(t, MethodParamPadToken::RecordDef) {
            self.check_field(tree, node, "parameters")
        } else {
            no_diags()
        }
    }

    fn check_field(&self, tree: &CstTree, n: usize, field: &str) -> (r: Vec<Diagnostic>)
        requires
            tree.wf(),
            n < tree.node_count(),
        ensures
            diag_views(r@) == spec_field_lparen(self.option, self.allow_line_breaks, *tree, n as int, field@),
    {
        match tree.child_by_field_name(n, field) {
            Some(f) => self.check_lparen(tree, f),
            None => no_diags(),
        }
    }

    fn check_lparen(&self, tree: &CstTree, n: usize) -> (r: Vec<Diagnostic>)
        requires
            tree.wf(),
            n < tree.node_count(),
        ensures
            diag_views(r@) == spec_lparen(self.option, self.allow_line_breaks, *tree, n as int),
    {
        let lp = match tree.find_child(n, "(") {
            Some(lp) => lp,
            None => return no_diags(),
        };
        let range = tree.range(lp);
        let pos = range.start;
        if pos.raw == 0 {
            return no_diags();
        }
        let source = tree.source();
        if blank_before_on_line(source, pos.raw as usize, true) {
            if !self.allow_line_breaks {
                return one_diag(diag_line_previous(tree, lp));
            }
            return no_diags();
        }
        let has_space = has_whitespace_before(source, pos);
        match self.option {
            MethodParamPadOption::NoSpace => {
                if has_space {
                    if let Some(ws) = whitespace_range_before(source, pos) {
                        return one_diag(diag_ws_preceded(tree, lp, ws));
                    }
                }
                no_diags()
            },
            MethodParamPadOption::Space => {
                if !has_space {
                    return one_diag(diag_ws_not_preceded(tree, lp));
                }
                no_diags()
            },
        }
    }
}

fn diag_ws_preceded(tree: &CstTree, lp: usize, ws: TextRange) -> (r: Diagnostic)
    requires
        tree.wf(),
        lp < tree.node_count(),
    ensures
        r.dv() == spec_ws_preceded(*tree, lp as int, (ws.start.raw as int, ws.end.raw as int)),
{
    let range = tree.range(lp);
    let v = WsPreceded { token: String::from_str(tree.text(lp)) };
    let r = Diagnostic::new(v.kind(), range).with_fix(Fix::safe_edit(Edit::range_deletion(ws)));
    proof {
        assert(edit_views(r.fix.unwrap().edits@) =~= seq![(None, ws.start.raw as int, ws.end.raw as int)]);
    }
    r
}

fn diag_ws_not_preceded(tree: &CstTree, lp: usize) -> (r: Diagnostic)
    requires
        tree.wf(),
        lp < tree.node_count(),
    ensures
        r.dv() == spec_ws_not_preceded(*tree, lp as int),
{
    let range = tree.range(lp);
    let v = WsNotPreceded { token: String::from_str(tree.text(lp)) };
    let r = Diagnostic::new(v.kind(), range).with_fix(Fix::safe_edit(Edit::insertion(String::from_str(" "), range.start)));
    proof {
        assert(edit_views(r.fix.unwrap().edits@) =~= seq![(Some(" "@), range.start.raw as int, range.start.raw as int)]);
    }
    r
}

fn diag_line_previous(tree: &CstTree, lp: usize) -> (r: Diagnostic)
    requires
        tree.wf(),
        lp < tree.node_count(),
    ensures
        r.dv() == spec_line_previous(*tree, lp as int),
{
    let range = tree.range(lp);
    let v = LinePrevious { token: String::from_str(tree.text(lp)) };
    let d = Diagnostic::new(v.kind(), range);
    match whitespace_range_before(tree.source(), range.start) {
        Some(ws) => {
            let r = d.with_fix(Fix::safe_edit(Edit::range_deletion(ws)));
            proof {
                assert(edit_views(r.fix.unwrap().edits@) =~= seq![(None, ws.start.raw as int, ws.end.raw as int)]);
            }
            r
        },
        None => d,
    }
}

/// Every MethodParamPad token.
fn default_method_param_pad_tokens() -> (r: Vec<MethodParamPadToken>)
    ensures
        r@ == all_method_param_pad_tokens(),
{
    let mut tokens: Vec<MethodParamPadToken> = Vec::new();
    tokens.push(MethodParamPadToken::CtorDef);
    tokens.push(MethodParamPadToken::LiteralNew);
    tokens.push(MethodParamPadToken::MethodCall);
    tokens.push(MethodParamPadToken::MethodDef);
    tokens.push(MethodParamPadToken::SuperCtorCall);
    tokens.push(MethodParamPadToken::EnumConstantDef);
    tokens.push(MethodParamPadToken::RecordDef);
    proof {
        assert(tokens@ =~= all_method_param_pad_tokens());
    }
    tokens
}

/// The rule reports only at the node kinds that `relevant_kinds` names.
pub proof fn law_reports_only_at_relevant_kinds(rule: MethodParamPad, tree: CstTree, node: int)
    requires
        !seq!["method_declaration"@, "constructor_declaration"@, "method_invocation"@, "object_creation_expression"@, "explicit_constructor_invocation"@, "enum_constant"@, "record_declaration"@].contains(tree.kind_of(node)),
    ensures
        spec_check(rule, tree, node) == Seq::<DiagView>::empty(),
{
    let ks = seq!["method_declaration"@, "constructor_declaration"@, "method_invocation"@, "object_creation_expression"@, "explicit_constructor_invocation"@, "enum_constant"@, "record_declaration"@];
    assert(ks[0] == "method_declaration"@ && ks[1] == "constructor_declaration"@ && ks[2] == "method_invocation"@ && ks[3] == "object_creation_expression"@ && ks[4] == "explicit_constructor_invocation"@ && ks[5] == "enum_constant"@ && ks[6] == "record_declaration"@);
}

} // verus!
