//! TypecastParenPad: white space just inside the parentheses of a cast.

use vstd::prelude::*;

use crate::config::Properties;
use crate::cst::CstTree;
use crate::diagnostics::{append_diags, diag_views, no_diags, one_diag, DiagView, Diagnostic};
use crate::rules::common::{
    char_after, char_before, diag_followed, diag_not_followed, diag_not_preceded, diag_preceded,
    has_whitespace_after, has_whitespace_before, spec_diag_followed, spec_diag_not_followed,
    spec_diag_not_preceded, spec_diag_preceded, whitespace_range_after, whitespace_range_before,
};
use crate::strings::{str_eq, trim, trim_chars};
use crate::text::{chars_after, chars_before, spec_ws_after, spec_ws_before, spec_ws_range_after, spec_ws_range_before};

verus! {

/// Whether white space is wanted inside the parentheses.
#[derive(Clone, Copy, Debug, PartialEq, Eq, Structural)]
pub enum TypecastParenPadOption {
    Space,
    NoSpace,
}

impl TypecastParenPadOption {
    /// `space` (around white space) selects `Space`; anything else `NoSpace`.
    pub fn from_str(s: &str) -> (r: Self)
        ensures
            r == if trim_chars(s@) == "space"@ { TypecastParenPadOption::Space } else { TypecastParenPadOption::NoSpace },
    {
        if str_eq(trim(s), "space") {
            TypecastParenPadOption::Space
        } else {
            TypecastParenPadOption::NoSpace
        }
    }
}

/// The TypecastParenPad rule.
#[derive(Clone, Debug)]
pub struct TypecastParenPad {
    pub option: TypecastParenPadOption,
}

/// The diagnostics for the `(` of a cast at node `lp`.
pub open spec fn spec_lparen(opt: TypecastParenPadOption, tree: CstTree, lp: int) -> Seq<DiagView> {
    let b = tree.src_bytes();
    let after = tree.end_of(lp);
    let next = chars_after(b, after);
    if next.len() > 0 && next[0] == ')' {
        seq![]
    } else if opt == TypecastParenPadOption::NoSpace {
        if spec_ws_after(b, after) && spec_ws_range_after(b, after) is Some {
            seq![spec_diag_followed(tree, lp, spec_ws_range_after(b, after).unwrap())]
        } else {
            seq![]
        }
    } else if !spec_ws_after(b, after) {
        seq![spec_diag_not_followed(tree, lp)]
    } else {
        seq![]
    }
}

/// The diagnostics for the `)` of a cast at node `rp`.
pub open spec fn spec_rparen(opt: TypecastParenPadOption, tree: CstTree, rp: int) -> Seq<DiagView> {
    let b = tree.src_bytes();
    let before = tree.start_of(rp);
    let prev = chars_before(b, before);
    if before > 0 && prev.len() > 0 && prev.last() == '(' {
        seq![]
    } else if opt == TypecastParenPadOption::NoSpace {
        if spec_ws_before(b, before) && spec_ws_range_before(b, before) is Some {
            seq![spec_diag_preceded(tree, rp, spec_ws_range_before(b, before).unwrap())]
        } else {
            seq![]
        }
    } else if !spec_ws_before(b, before) {
        seq![spec_diag_not_preceded(tree, rp)]
    } else {
        seq![]
    }
}

/// The diagnostics for node `node`: for a cast, those of its first `(` and its first `)`.
pub open spec fn spec_check(opt: TypecastParenPadOption, tree: CstTree, node: int) -> Seq<DiagView> {
    if tree.kind_of(node) == "cast_expression"@ {
        let cs = tree.children_of(node);
        let l = tree.first_of_kind(cs, "("@);
        let r = tree.first_of_kind(cs, ")"@);
        (if l is Some { spec_lparen(opt, tree, l.unwrap() as int) } else { seq![] })
            + (if r is Some { spec_rparen(opt, tree, r.unwrap() as int) } else { seq![] })
    } else {
        seq![]
    }
}

impl Default for TypecastParenPad {
    /// The rule with option `nospace`.
    fn default() -> (r: Self)
        ensures
            r.option == TypecastParenPadOption::NoSpace,
    {
        TypecastParenPad { option: TypecastParenPadOption::NoSpace }
    }
}

impl TypecastParenPad {
    /// The rule as the properties configure it: `option` (default `nospace`).
    pub fn from_config(properties: &Properties) -> (r: Self)
        ensures
            r.option == match properties.lookup("option"@) {
                Some(v) => if trim_chars(v) == "space"@ { TypecastParenPadOption::Space } else { TypecastParenPadOption::NoSpace },
                None => TypecastParenPadOption::NoSpace,
            },
    {
        let option = match properties.get("option") {
            Some(v) => TypecastParenPadOption::from_str(v),
            None => TypecastParenPadOption::NoSpace,
        };
        TypecastParenPad { option }
    }

    /// The rule's name.
    pub fn name(&self) -> (r: &'static str)
        ensures
            r@ == "TypecastParenPad"@,
    {
        "TypecastParenPad"
    }

    /// The node kinds the rule looks at.
    pub fn relevant_kinds(&self) -> (r: Vec<&'static str>)
        ensures
            r@.len() == 1,
            r@[0]@ == "cast_expression"@,
    {
        vec!["cast_expression"]
    }

    /// The violations at node `node`.
    pub fn check(&self, tree: &CstTree, node: usize) -> (r: Vec<Diagnostic>)
        requires
            tree.wf(),
            node < tree.node_count(),
        ensures
            diag_views(r@) == spec_check(self.option, *tree, node as int),
    {
        let mut diagnostics = no_diags();
        if tree.kind_is(node, "cast_expression") {
            let l = tree.find_child(node, "(");
            let r = tree.find_child(node, ")");
            if let Some(lp) = l {
                let d = self.check_lparen(tree, lp);
                append_diags(&mut diagnostics, d);
            }
            if let Some(rp) = r {
                let d = self.check_rparen(tree, rp);
                append_diags(&mut diagnostics, d);
            }
        }
        diagnostics
    }

    fn check_lparen(&self, tree: &CstTree, lp: usize) -> (r: Vec<Diagnostic>)
        requires
            tree.wf(),
            lp < tree.node_count(),
        ensures
            diag_views(r@) == spec_lparen(self.option, *tree, lp as int),
    {
        let source = tree.source();
        let after = tree.range(lp).end;
        if let Some(c) = char_after(source, after) {
            if c == ')' {
                return no_diags();
            }
        }
        let has_space = has_whitespace_after(source, after);
        match self.option {
            TypecastParenPadOption::NoSpace => {
                if has_space {
                    if let Some(ws) = whitespace_range_after(source, after) {
                        return one_diag(diag_followed(tree, lp, ws));
                    }
                }
                no_diags()
            },
            TypecastParenPadOption::Space => {
                if !has_space {
                    return one_diag(diag_not_followed(tree, lp));
                }
                no_diags()
            },
        }
    }

    fn check_rparen(&self, tree: &CstTree, rp: usize) -> (r: Vec<Diagnostic>)
        requires
            tree.wf(),
            rp < tree.node_count(),
        ensures
            diag_views(r@) == spec_rparen(self.option, *tree, rp as int),
    {
        let source = tree.source();
        let before = tree.range(rp).start;
        if before.raw > 0 {
            if let Some(c) = char_before(source, before) {
                if c == '(' {
                    return no_diags();
                }
            }
        }
        let has_space = has_whitespace_before(source, before);
        match self.option {
            TypecastParenPadOption::NoSpace => {
                if has_space {
                    if let Some(ws) = whitespace_range_before(source, before) {
                        return one_diag(diag_preceded(tree, rp, ws));
                    }
                }
                no_diags()
            },
            TypecastParenPadOption::Space => {
                if !has_space {
                    return one_diag(diag_not_preceded(tree, rp));
                }
                no_diags()
            },
        }
    }
}

/// The rule reports only at the node kind that `relevant_kinds` names.
pub proof fn law_reports_only_at_relevant_kinds(opt: TypecastParenPadOption, tree: CstTree, node: int)
    requires
        tree.kind_of(node) != "cast_expression"@,
    ensures
        spec_check(opt, tree, node) == Seq::<DiagView>::empty(),
{
}

} // verus!
