//! EmptyForInitializerPad: white space before the `;` of an empty `for`
//! initializer. No check where the `;` starts its line.

use vstd::prelude::*;

use crate::config::Properties;
use crate::cst::CstTree;
use crate::diagnostics::{diag_views, no_diags, one_diag, DiagView, Diagnostic};
use crate::rules::common::{
    diag_not_preceded, diag_preceded, has_whitespace_before, spec_diag_not_preceded, spec_diag_preceded,
    whitespace_range_before,
};
use crate::strings::{str_eq, to_uppercase, trim, trim_chars, unicode_uppercase};
use crate::text::{
    blank_before_on_line, blank_since_line_start, chars_before, spec_ws_before, spec_ws_range_before,
};

verus! {

/// Whether white space is wanted before the `;`.
#[derive(Clone, Copy, Debug, PartialEq, Eq, Structural)]
pub enum PadOption {
    /// `for (;`
    NoSpace,
    /// `for ( ;`
    Space,
}

/// The option that the upper-case name `s` stands for, if any.
pub open spec fn pad_option_named(s: Seq<char>) -> Option<PadOption> {
    if s == "NOSPACE"@ {
        Some(PadOption::NoSpace)
    } else if s == "SPACE"@ {
        Some(PadOption::Space)
    } else {
        None
    }
}

impl PadOption {
    /// The option named `s`, in any case and around white space.
    pub fn from_str(s: &str) -> (r: Option<Self>)
        ensures
            r == pad_option_named(unicode_uppercase(trim_chars(s@))),
    {
        let u = to_uppercase(trim(s));
        if str_eq(u.as_str(), "NOSPACE") {
            Some(PadOption::NoSpace)
        } else if str_eq(u.as_str(), "SPACE") {
            Some(PadOption::Space)
        } else {
            None
        }
    }
}

/// The EmptyForInitializerPad rule.
#[derive(Clone, Debug)]
pub struct EmptyForInitializerPad {
    pub option: PadOption,
}

/// Child `c` of a `for` lies between its `(` at `lp` and its first `;` at
/// `semi`, is neither of them, and is no comment: the initializer is not empty.
pub open spec fn initializer_part(tree: CstTree, c: int, lp: int, semi: int) -> bool {
    &&& !(tree.start_of(c) == tree.start_of(lp) && tree.end_of(c) == tree.end_of(lp))
    &&& !(tree.start_of(c) == tree.start_of(semi) && tree.end_of(c) == tree.end_of(semi))
    &&& tree.start_of(c) >= tree.end_of(lp)
    &&& tree.end_of(c) <= tree.start_of(semi)
    &&& tree.kind_of(c).len() > 0
    &&& tree.kind_of(c) != "line_comment"@
    &&& tree.kind_of(c) != "block_comment"@
}

/// The `for` at `f` has a `(` and nothing but comments between it and the `;` at `semi`.
pub open spec fn empty_initializer(tree: CstTree, f: int, semi: int) -> bool {
    let l = tree.kind_child(f, "("@);
    &&& l is Some
    &&& forall|k: int| 0 <= k < tree.children_of(f).len() ==> !initializer_part(tree, #[trigger] tree.children_of(f)[k] as int,
        l.unwrap() as int, semi)
}

/// The diagnostics of EmptyForInitializerPad at node `node`.
pub open spec fn spec_check(opt: PadOption, tree: CstTree, node: int) -> Seq<DiagView> {
    let s = tree.kind_child(node, ";"@);
    if tree.kind_of(node) != "for_statement"@ || s is None {
        seq![]
    } else {
        let semi = s.unwrap() as int;
        let b = tree.src_bytes();
        let pos = tree.start_of(semi);
        if !empty_initializer(tree, node, semi) || blank_since_line_start(chars_before(b, pos), false) {
            seq![]
        } else if opt == PadOption::NoSpace {
            let ws = spec_ws_range_before(b, pos);
            if spec_ws_before(b, pos) && ws is Some && ws.unwrap().0 > 0 {
                seq![spec_diag_preceded(tree, semi, ws.unwrap())]
            } else {
                seq![]
            }
        } else if !spec_ws_before(b, pos) {
            seq![spec_diag_not_preceded(tree, semi)]
        } else {
            seq![]
        }
    }
}

impl Default for EmptyForInitializerPad {
    /// The rule with option `nospace`.
    fn default() -> (r: Self)
        ensures
            r.option == PadOption::NoSpace,
    {
        EmptyForInitializerPad { option: PadOption::NoSpace }
    }
}

impl EmptyForInitializerPad {
    /// The rule as the properties configure it: `option`, `nospace` or `space` in
    /// any case; anything else, or no value, gives `nospace`.
    pub fn from_config(properties: &Properties) -> (r: Self)
        ensures
            r.option == match properties.lookup("option"@) {
                Some(v) => match pad_option_named(unicode_uppercase(trim_chars(v))) {
                    Some(o) => o,
                    None => PadOption::NoSpace,
                },
                None => PadOption::NoSpace,
            },
    {
        let option = match properties.get("option") {
            Some(v) => match PadOption::from_str(v) {
                Some(o) => o,
                None => PadOption::NoSpace,
            },
            None => PadOption::NoSpace,
        };
        EmptyForInitializerPad { option }
    }

    /// The rule's name.
    pub fn name(&self) -> (r: &'static str)
        ensures
            r@ == "EmptyForInitializerPad"@,
    {
        "EmptyForInitializerPad"
    }

    /// The violations at node `node`.
    pub fn check(&self, tree: &CstTree, node: usize) -> (r: Vec<Diagnostic>)
        requires
            tree.wf(),
            node < tree.node_count(),
        ensures
            diag_views(r@) == spec_check(self.option, *tree, node as int),
    {
        if !tree.kind_is(node, "for_statement") {
            return no_diags();
        }
        let semi = match tree.find_child(node, ";") {
            Some(s) => s,
            None => return no_diags(),
        };
        if !is_empty_initializer(tree, node, semi) {
            return no_diags();
        }
        let source = tree.source();
        let pos = tree.range(semi).start;
        if blank_before_on_line(source, pos.raw as usize, false) {
            return no_diags();
        }
        let has_ws = has_whitespace_before(source, pos);
        match self.option {
            PadOption::NoSpace => {
                if has_ws {
                    if let Some(ws) = whitespace_range_before(source, pos) {
                        if ws.start.raw > 0 {
                            return one_diag(diag_preceded(tree, semi, ws));
                        }
                    }
                }
                no_diags()
            },
            PadOption::Space => {
                if !has_ws {
                    return one_diag(diag_not_preceded(tree, semi));
                }
                no_diags()
            },
        }
    }
}

/// The `for` at `f` has an empty initializer before its `;` at `semi`.
fn is_empty_initializer(tree: &CstTree, f: usize, semi: usize) -> (r: bool)
    requires
        tree.wf(),
        f < tree.node_count(),
        semi < tree.node_count(),
    ensures
        r == empty_initializer(*tree, f as int, semi as int),
{
    let lp = match tree.find_child(f, "(") {
        Some(l) => l,
        None => return false,
    };
    let lr = tree.range(lp);
    let sr = tree.range(semi);
    let cs = tree.children(f);
    let mut i: usize = 0;
    while i < cs.len()
        invariant
            tree.wf(),
            f < tree.node_count(),
            semi < tree.node_count(),
            lp < tree.node_count(),
            tree.kind_child(f as int, "("@) == Some(lp),
            cs@ == tree.children_of(f as int),
            forall|x: int| 0 <= x < cs@.len() ==> f < #[trigger] cs@[x] < tree.node_count(),
            lr.start.raw == tree.start_of(lp as int),
            lr.end.raw == tree.end_of(lp as int),
            sr.start.raw == tree.start_of(semi as int),
            sr.end.raw == tree.end_of(semi as int),
            0 <= i <= cs@.len(),
            forall|k: int| 0 <= k < i ==> !initializer_part(*tree, #[trigger] cs@[k] as int, lp as int, semi as int),
        decreases cs@.len() - i,
    {
        let c = cs[i];
        let cr = tree.range(c);
        let same_l = cr.start.raw == lr.start.raw && cr.end.raw == lr.end.raw;
        let same_s = cr.start.raw == sr.start.raw && cr.end.raw == sr.end.raw;
        if !same_l && !same_s && cr.start.raw >= lr.end.raw && cr.end.raw <= sr.start.raw {
            let k = tree.kind(c);
            if k.unicode_len() > 0 && !str_eq(k, "line_comment") && !str_eq(k, "block_comment") {
                return false;
            }
        }
        i = i + 1;
    }
    true
}

} // verus!
