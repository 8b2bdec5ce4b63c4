//! WhitespaceAfter: certain tokens must be followed by white space.

use vstd::prelude::*;

use crate::config::Properties;
use crate::cst::CstTree;
use crate::diagnostics::{append_diags, diag_views, no_diags, one_diag, DiagView, Diagnostic};
use crate::rules::common::{char_after, diag_not_followed, has_whitespace_after, spec_diag_not_followed};
use crate::strings::{filter_map, split_commas, split_commas_exec, str_eq, str_views, trim, trim_chars};
use crate::text::{chars_after, is_white_space, is_whitespace_char, spec_ws_after};

verus! {

/// The tokens that WhitespaceAfter wants followed by white space.
#[derive(Clone, Copy, Debug, PartialEq, Eq, Hash, Structural)]
pub enum WhitespaceAfterToken {
    Comma,
    Semi,
    Typecast,
    LiteralIf,
    LiteralElse,
    LiteralWhile,
    LiteralDo,
    LiteralFor,
    DoWhile,
}

/// The token that the name `s` stands for, if any.
pub open spec fn whitespace_after_token_named(s: Seq<char>) -> Option<WhitespaceAfterToken> {
    if s == "COMMA"@ {
        Some(WhitespaceAfterToken::Comma)
    } else if s == "SEMI"@ {
        Some(WhitespaceAfterToken::Semi)
    } else if s == "TYPECAST"@ {
        Some(WhitespaceAfterToken::Typecast)
    } else if s == "LITERAL_IF"@ {
        Some(WhitespaceAfterToken::LiteralIf)
    } else if s == "LITERAL_ELSE"@ {
        Some(WhitespaceAfterToken::LiteralElse)
    } else if s == "LITERAL_WHILE"@ {
        Some(WhitespaceAfterToken::LiteralWhile)
    } else if s == "LITERAL_DO"@ {
        Some(WhitespaceAfterToken::LiteralDo)
    } else if s == "LITERAL_FOR"@ {
        Some(WhitespaceAfterToken::LiteralFor)
    } else if s == "DO_WHILE"@ {
        Some(WhitespaceAfterToken::DoWhile)
    } else {
        None
    }
}

impl WhitespaceAfterToken {
    /// The token named `s` (around white space), if any.
    pub fn from_str(s: &str) -> (r: Option<Self>)
        ensures
            r == whitespace_after_token_named(trim_chars(s@)),
    {
        let t = trim(s);
        if str_eq(t, "COMMA") {
            Some(WhitespaceAfterToken::Comma)
        } else if str_eq(t, "SEMI") {
            Some(WhitespaceAfterToken::Semi)
        } else if str_eq(t, "TYPECAST") {
            Some(WhitespaceAfterToken::Typecast)
        } else if str_eq(t, "LITERAL_IF") {
            Some(WhitespaceAfterToken::LiteralIf)
        } else if str_eq(t, "LITERAL_ELSE") {
            Some(WhitespaceAfterToken::LiteralElse)
        } else if str_eq(t, "LITERAL_WHILE") {
            Some(WhitespaceAfterToken::LiteralWhile)
        } else if str_eq(t, "LITERAL_DO") {
            Some(WhitespaceAfterToken::LiteralDo)
        } else if str_eq(t, "LITERAL_FOR") {
            Some(WhitespaceAfterToken::LiteralFor)
        } else if str_eq(t, "DO_WHILE") {
            Some(WhitespaceAfterToken::DoWhile)
        } else {
            None
        }
    }
}

/// `t` is one of `tokens`.
fn has_whitespace_after_token(tokens: &Vec<WhitespaceAfterToken>, t: WhitespaceAfterToken) -> (r: bool)
    ensures
        r == tokens@.contains(t),
{
    let mut i: usize = 0;
    while i < tokens.len()
        invariant
            0 <= i <= tokens@.len(),
            forall|k: int| 0 <= k < i ==> tokens@[k] != t,
        decreases tokens@.len() - i,
    {
        if tokens[i] == t {
            return true;
        }
        i = i + 1;
    }
    false
}

/// The tokens named by the comma-separated list `pieces`, in order; names that stand for no token are skipped.
fn parse_whitespace_after_tokens(pieces: &Vec<String>) -> (r: Vec<WhitespaceAfterToken>)
    ensures
        r@ == filter_map(str_views(pieces@), |p: Seq<char>| whitespace_after_token_named(trim_chars(p))),
{
    let mut out: Vec<WhitespaceAfterToken> = Vec::new();
    let mut i: usize = 0;
    proof {
        assert(str_views(pieces@).subrange(0, 0) =~= Seq::<Seq<char>>::empty());
    }
    while i < pieces.len()
        invariant
            0 <= i <= pieces@.len(),
            out@ == filter_map(str_views(pieces@).subrange(0, i as int), |p: Seq<char>| whitespace_after_token_named(trim_chars(p))),
        decreases pieces@.len() - i,
    {
        let ghost pre = str_views(pieces@).subrange(0, i as int);
        let ghost cur = str_views(pieces@).subrange(0, i + 1);
        proof {
            assert(cur.drop_last() =~= pre);
            assert(cur.last() == pieces@[i as int]@);
        }
        match WhitespaceAfterToken::from_str(pieces[i].as_str()) {
            Some(t) => {
                out.push(t);
            },
            None => {},
        }
        i = i + 1;
    }
    proof {
        assert(str_views(pieces@).subrange(0, pieces@.len() as int) =~= str_views(pieces@));
    }
    out
}

/// The default tokens: comma and semicolon.
pub open spec fn default_whitespace_after_tokens() -> Seq<WhitespaceAfterToken> {
    seq![WhitespaceAfterToken::Comma, WhitespaceAfterToken::Semi]
}

/// The WhitespaceAfter rule.
#[derive(Clone, Debug)]
pub struct WhitespaceAfter {
    pub tokens: Vec<WhitespaceAfterToken>,
}

/// The character after token `t`, if any.
pub open spec fn next_char(tree: CstTree, t: int) -> Option<char> {
    let a = chars_after(tree.src_bytes(), tree.end_of(t));
    if a.len() == 0 { None } else { Some(a[0]) }
}

/// A comma at `t` is fine: white space or a closing bracket follows.
pub open spec fn comma_ok(tree: CstTree, t: int) -> bool {
    let c = next_char(tree, t);
    c is Some && (is_white_space(c.unwrap()) || c.unwrap() == ')' || c.unwrap() == ']' || c.unwrap() == '}')
}

/// A semicolon at `t` needs no white space: it ends the text or a line, or a
/// `)` or `;` follows.
pub open spec fn semicolon_exempt(tree: CstTree, t: int) -> bool {
    let c = next_char(tree, t);
    c is None || c.unwrap() == '\n' || c.unwrap() == '\r' || c.unwrap() == ')' || c.unwrap() == ';'
}

/// The diagnostic for token `t` when white space does not follow it.
pub open spec fn spec_need_ws(tree: CstTree, t: int) -> Seq<DiagView> {
    if !spec_ws_after(tree.src_bytes(), tree.end_of(t)) { seq![spec_diag_not_followed(tree, t)] } else { seq![] }
}

/// The diagnostic for the first child of `n` of kind `kw`, when white space does not follow it.
pub open spec fn spec_keyword(tree: CstTree, n: int, kw: Seq<char>) -> Seq<DiagView> {
    let k = tree.kind_child(n, kw);
    if k is Some { spec_need_ws(tree, k.unwrap() as int) } else { seq![] }
}

/// The diagnostics of WhitespaceAfter at node `node`.
pub open spec fn spec_check(tokens: Seq<WhitespaceAfterToken>, tree: CstTree, node: int) -> Seq<DiagView> {
    let k = tree.kind_of(node);
    if k == ","@ && tokens.contains(WhitespaceAfterToken::Comma) {
        if !comma_ok(tree, node) { seq![spec_diag_not_followed(tree, node)] } else { seq![] }
    } else if k == ";"@ && tokens.contains(WhitespaceAfterToken::Semi) {
        if !semicolon_exempt(tree, node) { spec_need_ws(tree, node) } else { seq![] }
    } else if k == "cast_expression"@ && tokens.contains(WhitespaceAfterToken::Typecast) {
        spec_keyword(tree, node, ")"@)
    } else if k == "if_statement"@ && (tokens.contains(WhitespaceAfterToken::LiteralIf) || tokens.contains(
        WhitespaceAfterToken::LiteralElse,
    )) {
        (if tokens.contains(WhitespaceAfterToken::LiteralIf) { spec_keyword(tree, node, "if"@) } else { seq![] })
            + if tokens.contains(WhitespaceAfterToken::LiteralElse) { spec_keyword(tree, node, "else"@) } else { seq![] }
    } else if k == "while_statement"@ && tokens.contains(WhitespaceAfterToken::LiteralWhile) {
        spec_keyword(tree, node, "while"@)
    } else if k == "do_statement"@ && tokens.contains(WhitespaceAfterToken::LiteralDo) {
        spec_keyword(tree, node, "do"@) + if tokens.contains(WhitespaceAfterToken::DoWhile) { spec_keyword(tree, node, "while"@) } else { seq![] }
    } else if (k == "for_statement"@ || k == "enhanced_for_statement"@) && tokens.contains(WhitespaceAfterToken::LiteralFor) {
        spec_keyword(tree, node, "for"@)
    } else {
        seq![]
    }
}

impl Default for WhitespaceAfter {
    /// The rule with the default tokens.
    fn default() -> (r: Self)
        ensures
            r.tokens@ == default_whitespace_after_tokens(),
    {
        WhitespaceAfter { tokens: default_whitespace_after_tokens_vec() }
    }
}

impl WhitespaceAfter {
    /// The rule as the properties configure it: `tokens` (absent, or naming
    /// no token: comma and semicolon).
    pub fn from_config(properties: &Properties) -> (r: Self)
        ensures
            r.tokens@ == match properties.lookup("tokens"@) {
                Some(v) => {
                    let parsed = filter_map(split_commas(v), |p: Seq<char>| whitespace_after_token_named(trim_chars(p)));
                    if parsed.len() == 0 { default_whitespace_after_tokens() } else { parsed }
                },
                None => default_whitespace_after_tokens(),
            },
    {
        let tokens = match properties.get("tokens") {
            Some(v) => {
                let pieces = split_commas_exec(v);
                let parsed = parse_whitespace_after_tokens(&pieces);
                if parsed.len() == 0 {
                    default_whitespace_after_tokens_vec()
                } else {
                    parsed
                }
            },
            None => default_whitespace_after_tokens_vec(),
        };
        WhitespaceAfter { tokens }
    }

    /// The rule's name.
    pub fn name(&self) -> (r: &'static str)
        ensures
            r@ == "WhitespaceAfter"@,
    {
        "WhitespaceAfter"
    }

    /// The node kinds the rule looks at.
    pub fn relevant_kinds(&self) -> (r: Vec<&'static str>)
        ensures
            r@.map_values(|s: &str| s@) == seq![","@, ";"@, "cast_expression"@, "if_statement"@, "while_statement"@, "do_statement"@, "for_statement"@, "enhanced_for_statement"@],
    {
        let r = vec![
            ",",
            ";",
            "cast_expression",
            "if_statement",
            "while_statement",
            "do_statement",
            "for_statement",
            "enhanced_for_statement"
        ];
        proof {
            assert(r@.map_values(|s: &str| s@) =~= seq![","@, ";"@, "cast_expression"@, "if_statement"@, "while_statement"@, "do_statement"@, "for_statement"@, "enhanced_for_statement"@]);
        }
        r
    }

    /// The violations at node `node`.
    #[verifier::spinoff_prover]
    pub fn check(&self, tree: &CstTree, node: usize) -> (r: Vec<Diagnostic>)
        requires
            tree.wf(),
            node < tree.node_count(),
        ensures
            diag_views(r@) == spec_check(self.tokens@, *tree, node as int),
    {
        let k = tree.kind(node);
        let t = &self.tokens;
        if str_eq(k, ",") && has_whitespace_after_token(t, WhitespaceAfterToken::Comma) {
            if !comma_followed_ok(tree, node) { one_diag(diag_not_followed(tree, node)) } else { no_diags() }
        } else if str_eq(k, ";") && has_whitespace_after_token(t, WhitespaceAfterToken::Semi) {
            if !is_semicolon_exempt(tree, node) { need_ws(tree, node) } else { no_diags() }
        } else if str_eq(k, "cast_expression") && has_whitespace_after_token(t, WhitespaceAfterToken::Typecast) {
            keyword_check(tree, node, ")")
        } else if str_eq(k, "if_statement") && (has_whitespace_after_token(t, WhitespaceAfterToken::LiteralIf)
            || has_whitespace_after_token(t, WhitespaceAfterToken::LiteralElse)) {
            let mut d = if has_whitespace_after_token(t, WhitespaceAfterToken::LiteralIf) {
                keyword_check(tree, node, "if")
            } else {
                no_diags()
            };
            let e = if has_whitespace_after_token(t, WhitespaceAfterToken::LiteralElse) {
                keyword_check(tree, node, "else")
            } else {
                no_diags()
            };
            append_diags(&mut d, e);
            d
        } else if str_eq(k, "while_statement") && has_whitespace_after_token(t, WhitespaceAfterToken::LiteralWhile) {
            keyword_check(tree, node, "while")
        } else if str_eq(k, "do_statement") && has_whitespace_after_token(t, WhitespaceAfterToken::LiteralDo) {
            let mut d = keyword_check(tree, node, "do");
            if has_whitespace_after_token(t, WhitespaceAfterToken::DoWhile) {
                let w = keyword_check(tree, node, "while");
                append_diags(&mut d, w);
            } else {
                proof {
                    assert(diag_views(d@) =~= diag_views(d@) + Seq::<DiagView>::empty());
                }
            }
            d
        } else if (str_eq(k, "for_statement") || str_eq(k, "enhanced_for_statement")) && has_whitespace_after_token(t, WhitespaceAfterToken::LiteralFor) {
            keyword_check(tree, node, "for")
        } else {
            no_diags()
        }
    }
}

/// The diagnostic for token `t` when white space does not follow it.
fn need_ws(tree: &CstTree, t: usize) -> (r: Vec<Diagnostic>)
    requires
        tree.wf(),
        t < tree.node_count(),
    ensures
        diag_views(r@) == spec_need_ws(*tree, t as int),
{
    if !has_whitespace_after(tree.source(), tree.range(t).end) {
        one_diag(diag_not_followed(tree, t))
    } else {
        no_diags()
    }
}

/// The diagnostic for the first child of `n` of kind `kw`, when white space does not follow it.
fn keyword_check(tree: &CstTree, n: usize, kw: &str) -> (r: Vec<Diagnostic>)
    requires
        tree.wf(),
        n < tree.node_count(),
    ensures
        diag_views(r@) == spec_keyword(*tree, n as int, kw@),
{
    match tree.find_child(n, kw) {
        Some(k) => need_ws(tree, k),
        None => no_diags(),
    }
}

/// A comma at `t` is followed by white space or a closing bracket.
fn comma_followed_ok(tree: &CstTree, t: usize) -> (r: bool)
    requires
        tree.wf(),
        t < tree.node_count(),
    ensures
        r == comma_ok(*tree, t as int),
{
    match char_after(tree.source(), tree.range(t).end) {
        Some(c) => is_whitespace_char(c) || c == ')' || c == ']' || c == '}',
        None => false,
    }
}

/// A semicolon at `t` needs no white space after it.
fn is_semicolon_exempt(tree: &CstTree, t: usize) -> (r: bool)
    requires
        tree.wf(),
        t < tree.node_count(),
    ensures
        r == semicolon_exempt(*tree, t as int),
{
    match char_after(tree.source(), tree.range(t).end) {
        Some(c) => c == '\n' || c == '\r' || c == ')' || c == ';',
        None => true,
    }
}

/// The default tokens.
fn default_whitespace_after_tokens_vec() -> (r: Vec<WhitespaceAfterToken>)
    ensures
        r@ == default_whitespace_after_tokens(),
{
    let mut tokens: Vec<WhitespaceAfterToken> = Vec::new();
    tokens.push(WhitespaceAfterToken::Comma);
    tokens.push(WhitespaceAfterToken::Semi);
    proof {
        assert(tokens@ =~= default_whitespace_after_tokens());
    }
    tokens
}

/// The rule reports only at the node kinds that `relevant_kinds` names.
pub proof fn law_reports_only_at_relevant_kinds(tokens: Seq<WhitespaceAfterToken>, tree: CstTree, node: int)
    requires
        !seq![","@, ";"@, "cast_expression"@, "if_statement"@, "while_statement"@, "do_statement"@, "for_statement"@, "enhanced_for_statement"@].contains(tree.kind_of(node)),
    ensures
        spec_check(tokens, tree, node) == Seq::<DiagView>::empty(),
{
    let ks = seq![","@, ";"@, "cast_expression"@, "if_statement"@, "while_statement"@, "do_statement"@, "for_statement"@, "enhanced_for_statement"@];
    assert(ks[0] == ","@ && ks[1] == ";"@ && ks[2] == "cast_expression"@ && ks[3] == "if_statement"@ && ks[4] == "while_statement"@ && ks[5] == "do_statement"@ && ks[6] == "for_statement"@ && ks[7] == "enhanced_for_statement"@);
}

} // verus!
