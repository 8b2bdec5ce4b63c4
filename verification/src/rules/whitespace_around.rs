//! WhitespaceAround: operators, keywords and braces must be surrounded by
//! white space. White space here is an ASCII white-space byte next to the token.

use vstd::prelude::*;

use crate::config::Properties;
use crate::cst::CstTree;
use crate::diagnostics::{Applicability, safe_fix, 
    append_diags, concat3, diag_views, edit_views, make_kind, no_diags, one_diag, DiagView, Diagnostic, DiagnosticKind,
    Edit, Fix,
};
use crate::strings::{contains_str, has_substring, str_eq};
use crate::text::{TextRange, TextSize};

verus! {

/// Violation: no white space before the token.
#[derive(Clone, Debug)]
pub struct MissingWhitespaceBefore {
    pub token: String,
}

impl MissingWhitespaceBefore {
    /// The message of the violation.
    pub open spec fn spec_message(&self) -> Seq<char> {
        "Missing whitespace before `"@ + self.token@ + "`"@
    }

    /// The message of the violation.
    pub fn message(&self) -> (r: String)
        ensures
            r@ == self.spec_message(),
    {
        concat3("Missing whitespace before `", self.token.as_str(), "`")
    }

    /// The kind of diagnostic the violation gives.
    pub fn kind(&self) -> (r: DiagnosticKind)
        ensures
            r.name@ == "MissingWhitespaceBefore"@,
            r.body@ == self.spec_message(),
    {
        make_kind("MissingWhitespaceBefore", self.message())
    }
}

/// Violation: no white space after the token.
#[derive(Clone, Debug)]
pub struct MissingWhitespaceAfter {
    pub token: String,
}

impl MissingWhitespaceAfter {
    /// The message of the violation.
    pub open spec fn spec_message(&self) -> Seq<char> {
        "Missing whitespace after `"@ + self.token@ + "`"@
    }

    /// The message of the violation.
    pub fn message(&self) -> (r: String)
        ensures
            r@ == self.spec_message(),
    {
        concat3("Missing whitespace after `", self.token.as_str(), "`")
    }

    /// The kind of diagnostic the violation gives.
    pub fn kind(&self) -> (r: DiagnosticKind)
        ensures
            r.name@ == "MissingWhitespaceAfter"@,
            r.body@ == self.spec_message(),
    {
        make_kind("MissingWhitespaceAfter", self.message())
    }
}

/// The WhitespaceAround rule.
#[derive(Clone, Debug)]
pub struct WhitespaceAround {
    pub allow_empty_constructors: bool,
    pub allow_empty_methods: bool,
    pub allow_empty_types: bool,
    pub allow_empty_loops: bool,
    pub allow_empty_lambdas: bool,
    pub allow_empty_catches: bool,
    /// The colon of an enhanced `for` is not checked.
    pub ignore_enhanced_for_colon: bool,
    /// `<` of type arguments is checked.
    pub check_generic_start: bool,
    /// `>` of type arguments is checked.
    pub check_generic_end: bool,
    /// `?` of a wildcard is checked.
    pub check_wildcard_type: bool,
}

/// `b` is an ASCII white-space byte (tab, line feed, vertical tab, form feed,
/// carriage return or space).
pub open spec fn ascii_ws(b: u8) -> bool {
    (9 <= b && b <= 13) || b == 32
}

/// The diagnostic for a token at `start..end` that lacks white space, with the
/// fix that inserts a space at `at`.
pub open spec fn missing_dv(before: bool, token: Seq<char>, start: int, end: int, at: int) -> DiagView {
    if before {
        ("MissingWhitespaceBefore"@, "Missing whitespace before `"@ + token + "`"@, start, end, safe_fix(Some(seq![(Some(" "@), at, at)])))
    } else {
        ("MissingWhitespaceAfter"@, "Missing whitespace after `"@ + token + "`"@, start, end, safe_fix(Some(seq![(Some(" "@), at, at)])))
    }
}

/// Missing white space before token `t`: it does not start the text and the
/// byte before it is not ASCII white space.
pub open spec fn spec_before(tree: CstTree, t: int) -> Seq<DiagView> {
    let pos = tree.start_of(t);
    if pos > 0 && !ascii_ws(tree.src_bytes()[pos - 1]) {
        seq![missing_dv(true, tree.text_of(t), tree.start_of(t), tree.end_of(t), pos)]
    } else {
        seq![]
    }
}

/// Missing white space after token `t`: the byte after it is not ASCII white
/// space, or there is none.
pub open spec fn spec_after(tree: CstTree, t: int) -> Seq<DiagView> {
    let pos = tree.end_of(t);
    let b = tree.src_bytes();
    if !(pos < b.len() && ascii_ws(b[pos])) {
        seq![missing_dv(false, tree.text_of(t), tree.start_of(t), tree.end_of(t), pos)]
    } else {
        seq![]
    }
}

/// Missing white space before and after token `t`.
pub open spec fn spec_around(tree: CstTree, t: int) -> Seq<DiagView> {
    spec_before(tree, t) + spec_after(tree, t)
}

/// `spec_around` of the token, if there is one.
pub open spec fn around_opt(tree: CstTree, t: Option<usize>) -> Seq<DiagView> {
    if t is Some { spec_around(tree, t.unwrap() as int) } else { seq![] }
}

/// `spec_after` of the token, if there is one.
pub open spec fn after_opt(tree: CstTree, t: Option<usize>) -> Seq<DiagView> {
    if t is Some { spec_after(tree, t.unwrap() as int) } else { seq![] }
}

/// The diagnostics for the opening brace at `t` of a block that is empty or not.
pub open spec fn spec_open_brace(tree: CstTree, t: int, empty: bool) -> Seq<DiagView> {
    let pos = tree.end_of(t);
    let b = tree.src_bytes();
    spec_before(tree, t) + if !empty {
        spec_after(tree, t)
    } else if pos < b.len() && b[pos] < 0x80 && !ascii_ws(b[pos]) {
        seq![missing_dv(false, "{"@, tree.start_of(t), tree.end_of(t), pos)]
    } else {
        seq![]
    }
}

/// The byte after a closing brace needs no white space: `)`, `;`, `,` or `.`.
pub open spec fn closes_fine(b: u8) -> bool {
    b == 0x29 || b == 0x3B || b == 0x2C || b == 0x2E
}

/// The diagnostics for the closing brace at `t` of a block that is empty or not.
pub open spec fn spec_close_brace(tree: CstTree, t: int, empty: bool) -> Seq<DiagView> {
    let s = tree.start_of(t);
    let e = tree.end_of(t);
    let b = tree.src_bytes();
    (if !empty {
        spec_before(tree, t)
    } else if s > 0 && b[s - 1] < 0x80 && !ascii_ws(b[s - 1]) {
        seq![missing_dv(true, "}"@, s, e, s)]
    } else {
        seq![]
    }) + if e < b.len() && b[e] < 0x80 && !ascii_ws(b[e]) && !closes_fine(b[e]) {
        seq![missing_dv(false, "}"@, s, e, e)]
    } else {
        seq![]
    }
}

/// Node `n` has exactly two children, `{` and `}`.
pub open spec fn empty_braces(tree: CstTree, n: int) -> bool {
    let cs = tree.children_of(n);
    cs.len() == 2 && tree.kind_of(cs[0] as int) == "{"@ && tree.kind_of(cs[1] as int) == "}"@
}

/// The diagnostics for the braces of the body `n`.
pub open spec fn spec_braces(tree: CstTree, n: int) -> Seq<DiagView> {
    let empty = empty_braces(tree, n);
    let o = tree.kind_child(n, "{"@);
    let c = tree.kind_child(n, "}"@);
    (if o is Some { spec_open_brace(tree, o.unwrap() as int, empty) } else { seq![] })
        + (if c is Some { spec_close_brace(tree, c.unwrap() as int, empty) } else { seq![] })
}

/// An empty block whose parent has kind `pk` is allowed.
pub open spec fn empty_allowed(rule: WhitespaceAround, pk: Seq<char>) -> bool {
    if pk == "method_declaration"@ {
        rule.allow_empty_methods
    } else if pk == "constructor_declaration"@ {
        rule.allow_empty_constructors
    } else if pk == "while_statement"@ || pk == "for_statement"@ || pk == "enhanced_for_statement"@ || pk == "do_statement"@ {
        rule.allow_empty_loops
    } else if pk == "lambda_expression"@ {
        rule.allow_empty_lambdas
    } else if pk == "catch_clause"@ {
        rule.allow_empty_catches
    } else {
        false
    }
}

/// The diagnostics of a block.
pub open spec fn spec_block(rule: WhitespaceAround, tree: CstTree, n: int) -> Seq<DiagView> {
    let p = tree.parent_of(n);
    let pk = if p is Some { tree.kind_of(p.unwrap() as int) } else { ""@ };
    if empty_braces(tree, n) && empty_allowed(rule, pk) { seq![] } else { spec_braces(tree, n) }
}

/// The diagnostics of the operators among the children `cs` of a ternary
/// expression (`?`, `:`), type bound (`&`) or type arguments (`<`, `>` as configured).
pub open spec fn spec_child_ops(rule: WhitespaceAround, tree: CstTree, cs: Seq<usize>, which: int) -> Seq<DiagView>
    decreases cs.len(),
{
    if cs.len() == 0 {
        seq![]
    } else {
        let c = cs.last() as int;
        let k = tree.kind_of(c);
        let hit = if which == 0 {
            k == "?"@ || k == ":"@
        } else if which == 1 {
            k == "&"@
        } else {
            (k == "<"@ && rule.check_generic_start) || (k == ">"@ && rule.check_generic_end)
        };
        spec_child_ops(rule, tree, cs.drop_last(), which) + if hit { spec_around(tree, c) } else { seq![] }
    }
}

/// The diagnostics of a lambda: its arrow and the braces of a block body.
pub open spec fn spec_lambda(rule: WhitespaceAround, tree: CstTree, n: int) -> Seq<DiagView> {
    let body = tree.field_child(n, "body"@);
    around_opt(tree, tree.kind_child(n, "->"@)) + if body is Some && tree.kind_of(body.unwrap() as int) == "block"@ && !(
    empty_braces(tree, body.unwrap() as int) && rule.allow_empty_lambdas) {
        spec_braces(tree, body.unwrap() as int)
    } else {
        seq![]
    }
}

/// A return statement has a child other than `return` and `;`.
pub open spec fn returns_value(tree: CstTree, n: int) -> bool {
    exists|k: int| 0 <= k < tree.children_of(n).len() && {
        let kk = tree.kind_of(#[trigger] tree.children_of(n)[k] as int);
        kk != "return"@ && kk != ";"@
    }
}

/// The binary operators.
pub open spec fn binary_ops() -> Seq<Seq<char>> {
    seq!["+"@, "-"@, "*"@, "/"@, "%"@, "=="@, "!="@, "<"@, ">"@, "<="@, ">="@, "&&"@, "||"@, "&"@, "|"@, "^"@, "<<"@, ">>"@, ">>>"@, "instanceof"@]
}

/// The assignment operators.
pub open spec fn assignment_ops() -> Seq<Seq<char>> {
    seq!["="@, "+="@, "-="@, "*="@, "/="@, "%="@, "&="@, "|="@, "^="@, "<<="@, ">>="@, ">>>="@]
}

/// The diagnostics of WhitespaceAround at node `node`.
pub open spec fn spec_check(rule: WhitespaceAround, tree: CstTree, node: int) -> Seq<DiagView> {
    let k = tree.kind_of(node);
    let cs = tree.children_of(node);
    if k == "binary_expression"@ {
        around_opt(tree, tree.first_of_kinds(cs, binary_ops()))
    } else if k == "assignment_expression"@ {
        around_opt(tree, tree.first_of_kinds(cs, assignment_ops()))
    } else if k == "variable_declarator"@ {
        around_opt(tree, tree.kind_child(node, "="@))
    } else if k == "ternary_expression"@ {
        spec_child_ops(rule, tree, cs, 0)
    } else if k == "if_statement"@ {
        after_opt(tree, tree.kind_child(node, "if"@))
    } else if k == "while_statement"@ {
        after_opt(tree, tree.kind_child(node, "while"@))
    } else if k == "do_statement"@ {
        after_opt(tree, tree.kind_child(node, "do"@)) + after_opt(tree, tree.kind_child(node, "while"@))
    } else if k == "for_statement"@ {
        after_opt(tree, tree.kind_child(node, "for"@))
    } else if k == "enhanced_for_statement"@ {
        after_opt(tree, tree.kind_child(node, "for"@)) + if !rule.ignore_enhanced_for_colon {
            around_opt(tree, tree.kind_child(node, ":"@))
        } else {
            seq![]
        }
    } else {
        spec_check_keywords(rule, tree, node)
    }
}

/// The diagnostics of WhitespaceAround at node `node`, from `switch` to `assert`.
pub open spec fn spec_check_keywords(rule: WhitespaceAround, tree: CstTree, node: int) -> Seq<DiagView> {
    let k = tree.kind_of(node);
    if k == "switch_expression"@ || k == "switch_statement"@ {
        after_opt(tree, tree.kind_child(node, "switch"@))
    } else if k == "synchronized_statement"@ {
        after_opt(tree, tree.kind_child(node, "synchronized"@))
    } else if k == "try_statement"@ || k == "try_with_resources_statement"@ {
        after_opt(tree, tree.kind_child(node, "try"@))
    } else if k == "catch_clause"@ {
        after_opt(tree, tree.kind_child(node, "catch"@))
    } else if k == "finally_clause"@ {
        after_opt(tree, tree.kind_child(node, "finally"@))
    } else if k == "return_statement"@ {
        if returns_value(tree, node) { after_opt(tree, tree.kind_child(node, "return"@)) } else { seq![] }
    } else if k == "assert_statement"@ {
        after_opt(tree, tree.kind_child(node, "assert"@)) + around_opt(tree, tree.kind_child(node, ":"@))
    } else {
        spec_check_rest(rule, tree, node)
    }
}

/// The diagnostics of WhitespaceAround at node `node`, from blocks on.
pub open spec fn spec_check_rest(rule: WhitespaceAround, tree: CstTree, node: int) -> Seq<DiagView> {
    let k = tree.kind_of(node);
    let cs = tree.children_of(node);
    if k == "block"@ {
        spec_block(rule, tree, node)
    } else if k == "constructor_body"@ {
        if empty_braces(tree, node) && rule.allow_empty_constructors { seq![] } else { spec_braces(tree, node) }
    } else if k == "class_body"@ || k == "interface_body"@ || k == "enum_body"@ || k == "annotation_type_body"@ {
        if empty_braces(tree, node) && rule.allow_empty_types { seq![] } else { spec_braces(tree, node) }
    } else if k == "lambda_expression"@ {
        spec_lambda(rule, tree, node)
    } else if k == "type_bound"@ {
        spec_child_ops(rule, tree, cs, 1)
    } else if k == "guard"@ {
        around_opt(tree, tree.kind_child(node, "when"@))
    } else if k == "type_arguments"@ {
        spec_child_ops(rule, tree, cs, 2)
    } else if k == "wildcard"@ && rule.check_wildcard_type {
        around_opt(tree, tree.kind_child(node, "?"@))
    } else {
        seq![]
    }
}

impl Default for WhitespaceAround {
    /// No empty body allowed, the enhanced-for colon ignored, generics not checked.
    fn default() -> (r: Self)
        ensures
            !r.allow_empty_constructors && !r.allow_empty_methods && !r.allow_empty_types,
            !r.allow_empty_loops && !r.allow_empty_lambdas && !r.allow_empty_catches,
            r.ignore_enhanced_for_colon,
            !r.check_generic_start && !r.check_generic_end && !r.check_wildcard_type,
    {
        WhitespaceAround {
            allow_empty_constructors: false,
            allow_empty_methods: false,
            allow_empty_types: false,
            allow_empty_loops: false,
            allow_empty_lambdas: false,
            allow_empty_catches: false,
            ignore_enhanced_for_colon: true,
            check_generic_start: false,
            check_generic_end: false,
            check_wildcard_type: false,
        }
    }
}

impl WhitespaceAround {
    /// The rule as the properties configure it: each `allowEmpty...` is true
    /// when exactly `true`; `ignoreEnhancedForColon` likewise, true when absent;
    /// the generic tokens are checked when `tokens` mentions them.
    pub fn from_config(properties: &Properties) -> (r: Self)
        ensures
            r.allow_empty_constructors == (properties.lookup("allowEmptyConstructors"@) == Some("true"@)),
            r.allow_empty_methods == (properties.lookup("allowEmptyMethods"@) == Some("true"@)),
            r.allow_empty_types == (properties.lookup("allowEmptyTypes"@) == Some("true"@)),
            r.allow_empty_loops == (properties.lookup("allowEmptyLoops"@) == Some("true"@)),
            r.allow_empty_lambdas == (properties.lookup("allowEmptyLambdas"@) == Some("true"@)),
            r.allow_empty_catches == (properties.lookup("allowEmptyCatches"@) == Some("true"@)),
            r.ignore_enhanced_for_colon == match properties.lookup("ignoreEnhancedForColon"@) {
                Some(v) => v == "true"@,
                None => true,
            },
            r.check_generic_start == match properties.lookup("tokens"@) {
                Some(v) => has_substring(v, "GENERIC_START"@),
                None => false,
            },
            r.check_generic_end == match properties.lookup("tokens"@) {
                Some(v) => has_substring(v, "GENERIC_END"@),
                None => false,
            },
            r.check_wildcard_type == match properties.lookup("tokens"@) {
                Some(v) => has_substring(v, "WILDCARD_TYPE"@),
                None => false,
            },
    {
        let (gs, ge, wt) = match properties.get("tokens") {
            Some(v) => (contains_str(v, "GENERIC_START"), contains_str(v, "GENERIC_END"), contains_str(v, "WILDCARD_TYPE")),
            None => (false, false, false),
        };
        WhitespaceAround {
            allow_empty_constructors: flag(properties, "allowEmptyConstructors", false),
            allow_empty_methods: flag(properties, "allowEmptyMethods", false),
            allow_empty_types: flag(properties, "allowEmptyTypes", false),
            allow_empty_loops: flag(properties, "allowEmptyLoops", false),
            allow_empty_lambdas: flag(properties, "allowEmptyLambdas", false),
            allow_empty_catches: flag(properties, "allowEmptyCatches", false),
            ignore_enhanced_for_colon: flag(properties, "ignoreEnhancedForColon", true),
            check_generic_start: gs,
            check_generic_end: ge,
            check_wildcard_type: wt,
        }
    }

    /// The rule's name.
    pub fn name(&self) -> (r: &'static str)
        ensures
            r@ == "WhitespaceAround"@,
    {
        "WhitespaceAround"
    }

    /// The violations at node `node`.
    #[verifier::spinoff_prover]
    pub fn check(&self, tree: &CstTree, node: usize) -> (r: Vec<Diagnostic>)
        requires
            tree.wf(),
            node < tree.node_count(),
        ensures
            diag_views(r@) == spec_check(*self, *tree, node as int),
    {
        let k = tree.kind(node);
        if str_eq(k, "binary_expression") {
            let ops: [&str; 20] = ["+", "-", "*", "/", "%", "==", "!=", "<", ">", "<=", ">=", "&&", "||", "&", "|", "^", "<<", ">>", ">>>", "instanceof"];
            let r = around_of(tree, tree.find_child_in(node, &ops));
            proof {
                assert(ops@.map_values(|k: &str| k@) =~= binary_ops());
            }
            r
        } else if str_eq(k, "assignment_expression") {
            let ops: [&str; 12] = ["=", "+=", "-=", "*=", "/=", "%=", "&=", "|=", "^=", "<<=", ">>=", ">>>="];
            let r = around_of(tree, tree.find_child_in(node, &ops));
            proof {
                assert(ops@.map_values(|k: &str| k@) =~= assignment_ops());
            }
            r
        } else if str_eq(k, "variable_declarator") {
            around_of(tree, tree.find_child(node, "="))
        } else if str_eq(k, "ternary_expression") {
            self.child_ops(tree, node, 0)
        } else if str_eq(k, "if_statement") {
            after_of(tree, tree.find_child(node, "if"))
        } else if str_eq(k, "while_statement") {
            after_of(tree, tree.find_child(node, "while"))
        } else if str_eq(k, "do_statement") {
            let mut d = after_of(tree, tree.find_child(node, "do"));
            let w = after_of(tree, tree.find_child(node, "while"));
            append_diags(&mut d, w);
            d
        } else if str_eq(k, "for_statement") {
            after_of(tree, tree.find_child(node, "for"))
        } else if str_eq(k, "enhanced_for_statement") {
            let mut d = after_of(tree, tree.find_child(node, "for"));
            let c = if !self.ignore_enhanced_for_colon { around_of(tree, tree.find_child(node, ":")) } else { no_diags() };
            append_diags(&mut d, c);
            d
        } else {
            self.check_keywords(tree, node)
        }
    }

    #[verifier::spinoff_prover]
    fn check_keywords(&self, tree: &CstTree, node: usize) -> (r: Vec<Diagnostic>)
        requires
            tree.wf(),
            node < tree.node_count(),
        ensures
            diag_views(r@) == spec_check_keywords(*self, *tree, node as int),
    {
        let k = tree.kind(node);
        if str_eq(k, "switch_expression") || str_eq(k, "switch_statement") {
            after_of(tree, tree.find_child(node, "switch"))
        } else if str_eq(k, "synchronized_statement") {
            after_of(tree, tree.find_child(node, "synchronized"))
        } else if str_eq(k, "try_statement") || str_eq(k, "try_with_resources_statement") {
            after_of(tree, tree.find_child(node, "try"))
        } else if str_eq(k, "catch_clause") {
            after_of(tree, tree.find_child(node, "catch"))
        } else if str_eq(k, "finally_clause") {
            after_of(tree, tree.find_child(node, "finally"))
        } else if str_eq(k, "return_statement") {
            if has_return_value(tree, node) { after_of(tree, tree.find_child(node, "return")) } else { no_diags() }
        } else if str_eq(k, "assert_statement") {
            let mut d = after_of(tree, tree.find_child(node, "assert"));
            let c = around_of(tree, tree.find_child(node, ":"));
            append_diags(&mut d, c);
            d
        } else {
            self.check_rest(tree, node)
        }
    }

    #[verifier::spinoff_prover]
    fn check_rest(&self, tree: &CstTree, node: usize) -> (r: Vec<Diagnostic>)
        requires
            tree.wf(),
            node < tree.node_count(),
        ensures
            diag_views(r@) == spec_check_rest(*self, *tree, node as int),
    {
        let k = tree.kind(node);
        if str_eq(k, "block") {
            let pk = match tree.parent(node) {
                Some(p) => tree.kind(p),
                None => "",
            };
            if is_empty_braces(tree, node) && self.empty_is_allowed(pk) { no_diags() } else { braces(tree, node) }
        } else if str_eq(k, "constructor_body") {
            if is_empty_braces(tree, node) && self.allow_empty_constructors { no_diags() } else { braces(tree, node) }
        } else if str_eq(k, "class_body") || str_eq(k, "interface_body") || str_eq(k, "enum_body") || str_eq(k, "annotation_type_body") {
            if is_empty_braces(tree, node) && self.allow_empty_types { no_diags() } else { braces(tree, node) }
        } else if str_eq(k, "lambda_expression") {
            let mut d = around_of(tree, tree.find_child(node, "->"));
            let b = match tree.child_by_field_name(node, "body") {
                Some(body) => {
                    if tree.kind_is(body, "block") && !(is_empty_braces(tree, body) && self.allow_empty_lambdas) {
                        braces(tree, body)
                    } else {
                        no_diags()
                    }
                },
                None => no_diags(),
            };
            append_diags(&mut d, b);
            d
        } else if str_eq(k, "type_bound") {
            self.child_ops(tree, node, 1)
        } else if str_eq(k, "guard") {
            around_of(tree, tree.find_child(node, "when"))
        } else if str_eq(k, "type_arguments") {
            self.child_ops(tree, node, 2)
        } else if str_eq(k, "wildcard") && self.check_wildcard_type {
            around_of(tree, tree.find_child(node, "?"))
        } else {
            no_diags()
        }
    }

    /// An empty block whose parent has kind `pk` is allowed.
    fn empty_is_allowed(&self, pk: &str) -> (r: bool)
        ensures
            r == empty_allowed(*self, pk@),
    {
        if str_eq(pk, "method_declaration") {
            self.allow_empty_methods
        } else if str_eq(pk, "constructor_declaration") {
            self.allow_empty_constructors
        } else if str_eq(pk, "while_statement") || str_eq(pk, "for_statement") || str_eq(pk, "enhanced_for_statement") || str_eq(pk, "do_statement") {
            self.allow_empty_loops
        } else if str_eq(pk, "lambda_expression") {
            self.allow_empty_lambdas
        } else if str_eq(pk, "catch_clause") {
            self.allow_empty_catches
        } else {
            false
        }
    }

    /// The diagnostics of the operators among the children of `n` (see `spec_child_ops`).
    fn child_ops(&self, tree: &CstTree, n: usize, which: u8) -> (r: Vec<Diagnostic>)
        requires
            tree.wf(),
            n < tree.node_count(),
        ensures
            diag_views(r@) == spec_child_ops(*self, *tree, tree.children_of(n as int), which as int),
    {
        let cs = tree.children(n);
        let mut out = no_diags();
        let mut i: usize = 0;
        proof {
            assert(cs@.subrange(0, 0) =~= Seq::<usize>::empty());
        }
        while i < cs.len()
            invariant
                tree.wf(),
                cs@ == tree.children_of(n as int),
                forall|x: int| 0 <= x < cs@.len() ==> n < #[trigger] cs@[x] < tree.node_count(),
                0 <= i <= cs@.len(),
                diag_views(out@) == spec_child_ops(*self, *tree, cs@.subrange(0, i as int), which as int),
            decreases cs@.len() - i,
        {
            let c = cs[i];
            let k = tree.kind(c);
            let hit = if which == 0 {
                str_eq(k, "?") || str_eq(k, ":")
            } else if which == 1 {
                str_eq(k, "&")
            } else {
                (str_eq(k, "<") && self.check_generic_start) || (str_eq(k, ">") && self.check_generic_end)
            };
            if hit {
                let d = around(tree, c);
                append_diags(&mut out, d);
            } else {
                proof {
                    assert(diag_views(out@) =~= diag_views(out@) + Seq::<DiagView>::empty());
                }
            }
            proof {
                assert(cs@.subrange(0, i + 1).drop_last() =~= cs@.subrange(0, i as int));
            }
            i = i + 1;
        }
        proof {
            assert(cs@.subrange(0, cs@.len() as int) =~= cs@);
        }
        out
    }
}

/// The value of a boolean property: exactly `true`, or `default` when absent.
fn flag(properties: &Properties, key: &str, default: bool) -> (r: bool)
    ensures
        r == match properties.lookup(key@) {
            Some(v) => v == "true"@,
            None => default,
        },
{
    match properties.get(key) {
        Some(v) => str_eq(v, "true"),
        None => default,
    }
}

/// The diagnostic for a token at `range` that lacks white space before
/// (`before`) or after it, with the fix that inserts a space at `at`.
fn missing(before: bool, token: &str, range: TextRange, at: TextSize) -> (r: Diagnostic)
    ensures
        r.dv() == missing_dv(before, token@, range.start.raw as int, range.end.raw as int, at.raw as int),
{
    let kind = if before {
        MissingWhitespaceBefore { token: String::from_str(token) }.kind()
    } else {
        MissingWhitespaceAfter { token: String::from_str(token) }.kind()
    };
    let r = Diagnostic::new(kind, range).with_fix(Fix::safe_edit(Edit::insertion(String::from_str(" "), at)));
    proof {
        assert(edit_views(r.fix.unwrap().edits@) =~= seq![(Some(" "@), at.raw as int, at.raw as int)]);
    }
    r
}

/// `b` is an ASCII white-space byte.
fn is_ascii_ws(b: u8) -> (r: bool)
    ensures
        r == ascii_ws(b),
{
    (9 <= b && b <= 13) || b == 32
}

/// Missing white space before token `t`.
fn before(tree: &CstTree, t: usize) -> (r: Vec<Diagnostic>)
    requires
        tree.wf(),
        t < tree.node_count(),
    ensures
        diag_views(r@) == spec_before(*tree, t as int),
{
    let range = tree.range(t);
    let pos = range.start.raw as usize;
    let bytes = tree.source().as_bytes();
    if pos > 0 && !is_ascii_ws(bytes[pos - 1]) {
        one_diag(missing(true, tree.text(t), range, range.start))
    } else {
        no_diags()
    }
}

/// Missing white space after token `t`.
fn after(tree: &CstTree, t: usize) -> (r: Vec<Diagnostic>)
    requires
        tree.wf(),
        t < tree.node_count(),
    ensures
        diag_views(r@) == spec_after(*tree, t as int),
{
    let range = tree.range(t);
    let pos = range.end.raw as usize;
    let bytes = tree.source().as_bytes();
    if !(pos < bytes.len() && is_ascii_ws(bytes[pos])) {
        one_diag(missing(false, tree.text(t), range, range.end))
    } else {
        no_diags()
    }
}

/// Missing white space before and after token `t`.
fn around(tree: &CstTree, t: usize) -> (r: Vec<Diagnostic>)
    requires
        tree.wf(),
        t < tree.node_count(),
    ensures
        diag_views(r@) == spec_around(*tree, t as int),
{
    let mut d = before(tree, t);
    let a = after(tree, t);
    append_diags(&mut d, a);
    d
}

fn around_of(tree: &CstTree, t: Option<usize>) -> (r: Vec<Diagnostic>)
    requires
        tree.wf(),
        t.is_some() ==> t.unwrap() < tree.node_count(),
    ensures
        diag_views(r@) == around_opt(*tree, t),
{
    match t {
        Some(x) => around(tree, x),
        None => no_diags(),
    }
}

fn after_of(tree: &CstTree, t: Option<usize>) -> (r: Vec<Diagnostic>)
    requires
        tree.wf(),
        t.is_some() ==> t.unwrap() < tree.node_count(),
    ensures
        diag_views(r@) == after_opt(*tree, t),
{
    match t {
        Some(x) => after(tree, x),
        None => no_diags(),
    }
}

/// Node `n` has exactly the two children `{` and `}`.
fn is_empty_braces(tree: &CstTree, n: usize) -> (r: bool)
    requires
        tree.wf(),
        n < tree.node_count(),
    ensures
        r == empty_braces(*tree, n as int),
{
    let cs = tree.children(n);
    cs.len() == 2 && tree.kind_is(cs[0], "{") && tree.kind_is(cs[1], "}")
}

/// The diagnostics for the braces of the body `n`.
fn braces(tree: &CstTree, n: usize) -> (r: Vec<Diagnostic>)
    requires
        tree.wf(),
        n < tree.node_count(),
    ensures
        diag_views(r@) == spec_braces(*tree, n as int),
{
    let empty = is_empty_braces(tree, n);
    let mut d = match tree.find_child(n, "{") {
        Some(o) => open_brace(tree, o, empty),
        None => no_diags(),
    };
    let c = match tree.find_child(n, "}") {
        Some(c) => close_brace(tree, c, empty),
        None => no_diags(),
    };
    append_diags(&mut d, c);
    d
}

fn open_brace(tree: &CstTree, t: usize, empty: bool) -> (r: Vec<Diagnostic>)
    requires
        tree.wf(),
        t < tree.node_count(),
    ensures
        diag_views(r@) == spec_open_brace(*tree, t as int, empty),
{
    let mut d = before(tree, t);
    let range = tree.range(t);
    let pos = range.end.raw as usize;
    let bytes = tree.source().as_bytes();
    let a = if !empty {
        after(tree, t)
    } else if pos < bytes.len() && bytes[pos] < 0x80 && !is_ascii_ws(bytes[pos]) {
        one_diag(missing(false, "{", range, range.end))
    } else {
        no_diags()
    };
    append_diags(&mut d, a);
    d
}

fn close_brace(tree: &CstTree, t: usize, empty: bool) -> (r: Vec<Diagnostic>)
    requires
        tree.wf(),
        t < tree.node_count(),
    ensures
        diag_views(r@) == spec_close_brace(*tree, t as int, empty),
{
    let range = tree.range(t);
    let s = range.start.raw as usize;
    let e = range.end.raw as usize;
    let bytes = tree.source().as_bytes();
    let mut d = if !empty {
        before(tree, t)
    } else if s > 0 && bytes[s - 1] < 0x80 && !is_ascii_ws(bytes[s - 1]) {
        one_diag(missing(true, "}", range, range.start))
    } else {
        no_diags()
    };
    let a = if e < bytes.len() && bytes[e] < 0x80 && !is_ascii_ws(bytes[e]) && !(bytes[e] == 0x29 || bytes[e] == 0x3B
        || bytes[e] == 0x2C || bytes[e] == 0x2E) {
        one_diag(missing(false, "}", range, range.end))
    } else {
        no_diags()
    };
    append_diags(&mut d, a);
    d
}

/// A return statement has a child other than `return` and `;`.
fn has_return_value(tree: &CstTree, n: usize) -> (r: bool)
    requires
        tree.wf(),
        n < tree.node_count(),
    ensures
        r == returns_value(*tree, n as int),
{
    let cs = tree.children(n);
    let mut i: usize = 0;
    while i < cs.len()
        invariant
            tree.wf(),
            cs@ == tree.children_of(n as int),
            forall|x: int| 0 <= x < cs@.len() ==> n < #[trigger] cs@[x] < tree.node_count(),
            0 <= i <= cs@.len(),
            forall|k: int| 0 <= k < i ==> {
                let kk = tree.kind_of(#[trigger] cs@[k] as int);
                !(kk != "return"@ && kk != ";"@)
            },
        decreases cs@.len() - i,
    {
        let k = tree.kind(cs[i]);
        if !str_eq(k, "return") && !str_eq(k, ";") {
            proof {
                assert(tree.children_of(n as int)[i as int] == cs@[i as int]);
            }
            return true;
        }
        i = i + 1;
    }
    false
}

/// The keyword of an `if`, a `while` or a basic `for` statement needs white
/// space after it: where the byte after the keyword is not ASCII white space
/// (or the text ends there), the result is one `MissingWhitespaceAfter`
/// diagnostic at the keyword, whose safe fix inserts a space right after it.
pub proof fn law_statement_keyword_needs_space(rule: WhitespaceAround, tree: CstTree, node: int, kw: Seq<char>)
    requires
        (tree.kind_of(node) == "for_statement"@ && kw == "for"@)
            || (tree.kind_of(node) == "while_statement"@ && kw == "while"@)
            || (tree.kind_of(node) == "if_statement"@ && kw == "if"@),
        tree.kind_child(node, kw) is Some,
        ({
            let k = tree.kind_child(node, kw).unwrap() as int;
            let e = tree.end_of(k);
            let b = tree.src_bytes();
            !(e < b.len() && ((9 <= b[e] && b[e] <= 13) || b[e] == 32))
        }),
    ensures
        ({
            let k = tree.kind_child(node, kw).unwrap() as int;
            let e = tree.end_of(k);
            spec_check(rule, tree, node) == seq![(
                "MissingWhitespaceAfter"@,
                "Missing whitespace after `"@ + tree.text_of(k) + "`"@,
                tree.start_of(k),
                e,
                Some((seq![(Some(" "@), e, e)], Applicability::Safe)),
            )]
        }),
{
    reveal_strlit("assignment_expression");
    reveal_strlit("binary_expression");
    reveal_strlit("do_statement");
    reveal_strlit("for_statement");
    reveal_strlit("if_statement");
    reveal_strlit("ternary_expression");
    reveal_strlit("variable_declarator");
    reveal_strlit("while_statement");
    assert("if_statement"@.len() != "binary_expression"@.len());
    assert("if_statement"@.len() != "assignment_expression"@.len());
    assert("if_statement"@.len() != "variable_declarator"@.len());
    assert("if_statement"@.len() != "ternary_expression"@.len());
    assert("while_statement"@.len() != "binary_expression"@.len());
    assert("while_statement"@.len() != "assignment_expression"@.len());
    assert("while_statement"@.len() != "variable_declarator"@.len());
    assert("while_statement"@.len() != "ternary_expression"@.len());
    assert("while_statement"@.len() != "if_statement"@.len());
    assert("for_statement"@.len() != "binary_expression"@.len());
    assert("for_statement"@.len() != "assignment_expression"@.len());
    assert("for_statement"@.len() != "variable_declarator"@.len());
    assert("for_statement"@.len() != "ternary_expression"@.len());
    assert("for_statement"@.len() != "if_statement"@.len());
    assert("for_statement"@.len() != "while_statement"@.len());
    assert("for_statement"@.len() != "do_statement"@.len());
}

} // verus!
