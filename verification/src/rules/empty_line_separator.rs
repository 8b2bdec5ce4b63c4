//! EmptyLineSeparator: empty lines between the members of a type and between
//! the parts of a file; no runs of several empty lines where they are not allowed.

use vstd::prelude::*;
use vstd::string::*;

use crate::config::Properties;
use crate::cst::CstTree;
use crate::diagnostics::{Applicability, safe_fix, 
    append_diags, concat3, diag_views, edit_views, make_kind, no_diags, one_diag, push_diag, DiagView, Diagnostic,
    DiagnosticKind, Edit, EditView, Fix,
};
use crate::rules::file_tab_character::{first_lf_from, lemma_first_lf_bounds};
use crate::strings::{filter_map, split_commas, split_commas_exec, str_eq, str_views, trim, trim_chars};
use crate::text::{TextRange, TextSize};

verus! {

/// Violation: the element should be separated from the previous line.
#[derive(Clone, Debug)]
pub struct ShouldBeSeparated {
    pub element: String,
}

impl ShouldBeSeparated {
    /// The message of the violation.
    pub open spec fn spec_message(&self) -> Seq<char> {
        "'"@ + self.element@ + "' should be separated from previous line."@
    }

    /// The message of the violation.
    pub fn message(&self) -> (r: String)
        ensures
            r@ == self.spec_message(),
    {
        concat3("'", self.element.as_str(), "' should be separated from previous line.")
    }

    /// The kind of diagnostic the violation gives.
    pub fn kind(&self) -> (r: DiagnosticKind)
        ensures
            r.name@ == "ShouldBeSeparated"@,
            r.body@ == self.spec_message(),
    {
        make_kind("ShouldBeSeparated", self.message())
    }
}

/// Violation: more than one empty line before the element.
#[derive(Clone, Debug)]
pub struct TooManyEmptyLines {
    pub element: String,
}

impl TooManyEmptyLines {
    /// The message of the violation.
    pub open spec fn spec_message(&self) -> Seq<char> {
        "'"@ + self.element@ + "' has more than 1 empty lines before."@
    }

    /// The message of the violation.
    pub fn message(&self) -> (r: String)
        ensures
            r@ == self.spec_message(),
    {
        concat3("'", self.element.as_str(), "' has more than 1 empty lines before.")
    }

    /// The kind of diagnostic the violation gives.
    pub fn kind(&self) -> (r: DiagnosticKind)
        ensures
            r.name@ == "TooManyEmptyLines"@,
            r.body@ == self.spec_message(),
    {
        make_kind("TooManyEmptyLines", self.message())
    }
}

/// Violation: more than one empty line after the last member, before `}`.
#[derive(Clone, Debug)]
pub struct TooManyEmptyLinesAfter;

impl TooManyEmptyLinesAfter {
    /// The message of the violation.
    pub fn message(&self) -> (r: String)
        ensures
            r@ == "'}' has more than 1 empty lines after."@,
    {
        String::from_str("'}' has more than 1 empty lines after.")
    }

    /// The kind of diagnostic the violation gives.
    pub fn kind(&self) -> (r: DiagnosticKind)
        ensures
            r.name@ == "TooManyEmptyLinesAfter"@,
            r.body@ == "'}' has more than 1 empty lines after."@,
    {
        make_kind("TooManyEmptyLinesAfter", self.message())
    }
}

/// Violation: more than one empty line in a row inside a member.
#[derive(Clone, Debug)]
pub struct TooManyEmptyLinesInside;

impl TooManyEmptyLinesInside {
    /// The message of the violation.
    pub fn message(&self) -> (r: String)
        ensures
            r@ == "There is more than 1 empty line after this line."@,
    {
        String::from_str("There is more than 1 empty line after this line.")
    }

    /// The kind of diagnostic the violation gives.
    pub fn kind(&self) -> (r: DiagnosticKind)
        ensures
            r.name@ == "TooManyEmptyLinesInside"@,
            r.body@ == "There is more than 1 empty line after this line."@,
    {
        make_kind("TooManyEmptyLinesInside", self.message())
    }
}

/// Violation: more than one empty line before a comment.
#[derive(Clone, Debug)]
pub struct CommentTooManyEmptyLines {
    pub comment_start: String,
}

impl CommentTooManyEmptyLines {
    /// The message of the violation.
    pub open spec fn spec_message(&self) -> Seq<char> {
        "'"@ + self.comment_start@ + "' has more than 1 empty lines before."@
    }

    /// The message of the violation.
    pub fn message(&self) -> (r: String)
        ensures
            r@ == self.spec_message(),
    {
        concat3("'", self.comment_start.as_str(), "' has more than 1 empty lines before.")
    }

    /// The kind of diagnostic the violation gives.
    pub fn kind(&self) -> (r: DiagnosticKind)
        ensures
            r.name@ == "CommentTooManyEmptyLines"@,
            r.body@ == self.spec_message(),
    {
        make_kind("CommentTooManyEmptyLines", self.message())
    }
}

/// The elements whose separation the rule checks.
#[derive(Clone, Copy, Debug, PartialEq, Eq, Hash, Structural)]
pub enum EmptyLineSeparatorToken {
    PackageDef,
    Import,
    StaticImport,
    ClassDef,
    InterfaceDef,
    EnumDef,
    StaticInit,
    InstanceInit,
    MethodDef,
    CtorDef,
    VariableDef,
    RecordDef,
    CompactCtorDef,
}

/// The token named `s`, if any.
pub open spec fn els_token_named(s: Seq<char>) -> Option<EmptyLineSeparatorToken> {
    if s == "PACKAGE_DEF"@ {
        Some(EmptyLineSeparatorToken::PackageDef)
    } else if s == "IMPORT"@ {
        Some(EmptyLineSeparatorToken::Import)
    } else if s == "STATIC_IMPORT"@ {
        Some(EmptyLineSeparatorToken::StaticImport)
    } else if s == "CLASS_DEF"@ {
        Some(EmptyLineSeparatorToken::ClassDef)
    } else if s == "INTERFACE_DEF"@ {
        Some(EmptyLineSeparatorToken::InterfaceDef)
    } else if s == "ENUM_DEF"@ {
        Some(EmptyLineSeparatorToken::EnumDef)
    } else if s == "STATIC_INIT"@ {
        Some(EmptyLineSeparatorToken::StaticInit)
    } else if s == "INSTANCE_INIT"@ {
        Some(EmptyLineSeparatorToken::InstanceInit)
    } else if s == "METHOD_DEF"@ {
        Some(EmptyLineSeparatorToken::MethodDef)
    } else if s == "CTOR_DEF"@ {
        Some(EmptyLineSeparatorToken::CtorDef)
    } else if s == "VARIABLE_DEF"@ {
        Some(EmptyLineSeparatorToken::VariableDef)
    } else if s == "RECORD_DEF"@ {
        Some(EmptyLineSeparatorToken::RecordDef)
    } else if s == "COMPACT_CTOR_DEF"@ {
        Some(EmptyLineSeparatorToken::CompactCtorDef)
    } else {
        None
    }
}

/// The checkstyle name of a token.
pub open spec fn els_token_name(t: EmptyLineSeparatorToken) -> Seq<char> {
    match t {
        EmptyLineSeparatorToken::PackageDef => "PACKAGE_DEF"@,
        EmptyLineSeparatorToken::Import => "IMPORT"@,
        EmptyLineSeparatorToken::StaticImport => "STATIC_IMPORT"@,
        EmptyLineSeparatorToken::ClassDef => "CLASS_DEF"@,
        EmptyLineSeparatorToken::InterfaceDef => "INTERFACE_DEF"@,
        EmptyLineSeparatorToken::EnumDef => "ENUM_DEF"@,
        EmptyLineSeparatorToken::StaticInit => "STATIC_INIT"@,
        EmptyLineSeparatorToken::InstanceInit => "INSTANCE_INIT"@,
        EmptyLineSeparatorToken::MethodDef => "METHOD_DEF"@,
        EmptyLineSeparatorToken::CtorDef => "CTOR_DEF"@,
        EmptyLineSeparatorToken::VariableDef => "VARIABLE_DEF"@,
        EmptyLineSeparatorToken::RecordDef => "RECORD_DEF"@,
        EmptyLineSeparatorToken::CompactCtorDef => "COMPACT_CTOR_DEF"@,
    }
}

/// Every token, the default.
pub open spec fn all_els_tokens() -> Seq<EmptyLineSeparatorToken> {
    seq![EmptyLineSeparatorToken::PackageDef, EmptyLineSeparatorToken::Import, EmptyLineSeparatorToken::StaticImport, EmptyLineSeparatorToken::ClassDef, EmptyLineSeparatorToken::InterfaceDef, EmptyLineSeparatorToken::EnumDef, EmptyLineSeparatorToken::StaticInit, EmptyLineSeparatorToken::InstanceInit, EmptyLineSeparatorToken::MethodDef, EmptyLineSeparatorToken::CtorDef, EmptyLineSeparatorToken::VariableDef, EmptyLineSeparatorToken::RecordDef, EmptyLineSeparatorToken::CompactCtorDef]
}

/// The token for a node kind, if the kind is one the rule checks.
pub open spec fn token_of_kind(k: Seq<char>) -> Option<EmptyLineSeparatorToken> {
    if k == "package_declaration"@ {
        Some(EmptyLineSeparatorToken::PackageDef)
    } else if k == "import_declaration"@ {
        Some(EmptyLineSeparatorToken::Import)
    } else if k == "class_declaration"@ {
        Some(EmptyLineSeparatorToken::ClassDef)
    } else if k == "interface_declaration"@ {
        Some(EmptyLineSeparatorToken::InterfaceDef)
    } else if k == "annotation_type_declaration"@ {
        Some(EmptyLineSeparatorToken::InterfaceDef)
    } else if k == "enum_declaration"@ {
        Some(EmptyLineSeparatorToken::EnumDef)
    } else if k == "static_initializer"@ {
        Some(EmptyLineSeparatorToken::StaticInit)
    } else if k == "block"@ {
        Some(EmptyLineSeparatorToken::InstanceInit)
    } else if k == "method_declaration"@ {
        Some(EmptyLineSeparatorToken::MethodDef)
    } else if k == "constructor_declaration"@ {
        Some(EmptyLineSeparatorToken::CtorDef)
    } else if k == "field_declaration"@ {
        Some(EmptyLineSeparatorToken::VariableDef)
    } else if k == "constant_declaration"@ {
        Some(EmptyLineSeparatorToken::VariableDef)
    } else if k == "record_declaration"@ {
        Some(EmptyLineSeparatorToken::RecordDef)
    } else if k == "compact_constructor_declaration"@ {
        Some(EmptyLineSeparatorToken::CompactCtorDef)
    } else {
        None
    }
}

impl EmptyLineSeparatorToken {
    /// The token named `s` (exactly), if any.
    pub fn from_str(s: &str) -> (r: Option<Self>)
        ensures
            r == els_token_named(s@),
    {
        if str_eq(s, "PACKAGE_DEF") {
            Some(EmptyLineSeparatorToken::PackageDef)
        } else if str_eq(s, "IMPORT") {
            Some(EmptyLineSeparatorToken::Import)
        } else if str_eq(s, "STATIC_IMPORT") {
            Some(EmptyLineSeparatorToken::StaticImport)
        } else if str_eq(s, "CLASS_DEF") {
            Some(EmptyLineSeparatorToken::ClassDef)
        } else if str_eq(s, "INTERFACE_DEF") {
            Some(EmptyLineSeparatorToken::InterfaceDef)
        } else if str_eq(s, "ENUM_DEF") {
            Some(EmptyLineSeparatorToken::EnumDef)
        } else if str_eq(s, "STATIC_INIT") {
            Some(EmptyLineSeparatorToken::StaticInit)
        } else if str_eq(s, "INSTANCE_INIT") {
            Some(EmptyLineSeparatorToken::InstanceInit)
        } else if str_eq(s, "METHOD_DEF") {
            Some(EmptyLineSeparatorToken::MethodDef)
        } else if str_eq(s, "CTOR_DEF") {
            Some(EmptyLineSeparatorToken::CtorDef)
        } else if str_eq(s, "VARIABLE_DEF") {
            Some(EmptyLineSeparatorToken::VariableDef)
        } else if str_eq(s, "RECORD_DEF") {
            Some(EmptyLineSeparatorToken::RecordDef)
        } else if str_eq(s, "COMPACT_CTOR_DEF") {
            Some(EmptyLineSeparatorToken::CompactCtorDef)
        } else {
            None
        }
    }

    /// The checkstyle name of the token.
    pub fn to_checkstyle_name(self) -> (r: &'static str)
        ensures
            r@ == els_token_name(self),
    {
        match self {
            EmptyLineSeparatorToken::PackageDef => "PACKAGE_DEF",
            EmptyLineSeparatorToken::Import => "IMPORT",
            EmptyLineSeparatorToken::StaticImport => "STATIC_IMPORT",
            EmptyLineSeparatorToken::ClassDef => "CLASS_DEF",
            EmptyLineSeparatorToken::InterfaceDef => "INTERFACE_DEF",
            EmptyLineSeparatorToken::EnumDef => "ENUM_DEF",
            EmptyLineSeparatorToken::StaticInit => "STATIC_INIT",
            EmptyLineSeparatorToken::InstanceInit => "INSTANCE_INIT",
            EmptyLineSeparatorToken::MethodDef => "METHOD_DEF",
            EmptyLineSeparatorToken::CtorDef => "CTOR_DEF",
            EmptyLineSeparatorToken::VariableDef => "VARIABLE_DEF",
            EmptyLineSeparatorToken::RecordDef => "RECORD_DEF",
            EmptyLineSeparatorToken::CompactCtorDef => "COMPACT_CTOR_DEF",
        }
    }

    /// Every token.
    pub fn default_tokens() -> (r: Vec<Self>)
        ensures
            r@ == all_els_tokens(),
    {
        let mut tokens: Vec<EmptyLineSeparatorToken> = Vec::new();
        tokens.push(EmptyLineSeparatorToken::PackageDef);
        tokens.push(EmptyLineSeparatorToken::Import);
        tokens.push(EmptyLineSeparatorToken::StaticImport);
        tokens.push(EmptyLineSeparatorToken::ClassDef);
        tokens.push(EmptyLineSeparatorToken::InterfaceDef);
        tokens.push(EmptyLineSeparatorToken::EnumDef);
        tokens.push(EmptyLineSeparatorToken::StaticInit);
        tokens.push(EmptyLineSeparatorToken::InstanceInit);
        tokens.push(EmptyLineSeparatorToken::MethodDef);
        tokens.push(EmptyLineSeparatorToken::CtorDef);
        tokens.push(EmptyLineSeparatorToken::VariableDef);
        tokens.push(EmptyLineSeparatorToken::RecordDef);
        tokens.push(EmptyLineSeparatorToken::CompactCtorDef);
        proof {
            assert(tokens@ =~= all_els_tokens());
        }
        tokens
    }
}

/// `t` is one of `tokens`.
fn has_els_token(tokens: &Vec<EmptyLineSeparatorToken>, t: EmptyLineSeparatorToken) -> (r: bool)
    ensures
        r == tokens@.contains(t),
{
    let mut i: usize = 0;
    while i < tokens.len()
        invariant
            0 <= i <= tokens@.len(),
            forall|k: int| 0 <= k < i ==> tokens@[k] != t,
        decreases tokens@.len() - i,
    {
        if tokens[i] == t {
            return true;
        }
        i = i + 1;
    }
    false
}

/// The tokens named by `pieces`, each trimmed; other names are skipped.
fn parse_els_tokens(pieces: &Vec<String>) -> (r: Vec<EmptyLineSeparatorToken>)
    ensures
        r@ == filter_map(str_views(pieces@), |p: Seq<char>| els_token_named(trim_chars(p))),
{
    let mut out: Vec<EmptyLineSeparatorToken> = Vec::new();
    let mut i: usize = 0;
    proof {
        assert(str_views(pieces@).subrange(0, 0) =~= Seq::<Seq<char>>::empty());
    }
    while i < pieces.len()
        invariant
            0 <= i <= pieces@.len(),
            out@ == filter_map(str_views(pieces@).subrange(0, i as int), |p: Seq<char>| els_token_named(trim_chars(p))),
        decreases pieces@.len() - i,
    {
        let ghost pre = str_views(pieces@).subrange(0, i as int);
        let ghost cur = str_views(pieces@).subrange(0, i + 1);
        proof {
            assert(cur.drop_last() =~= pre);
            assert(cur.last() == pieces@[i as int]@);
        }
        match EmptyLineSeparatorToken::from_str(trim(pieces[i].as_str())) {
            Some(t) => {
                out.push(t);
            },
            None => {},
        }
        i = i + 1;
    }
    proof {
        assert(str_views(pieces@).subrange(0, pieces@.len() as int) =~= str_views(pieces@));
    }
    out
}

/// The EmptyLineSeparator rule.
#[derive(Clone, Debug)]
pub struct EmptyLineSeparator {
    pub allow_no_empty_line_between_fields: bool,
    pub allow_multiple_empty_lines: bool,
    pub allow_multiple_empty_lines_inside_class_members: bool,
    pub tokens: Vec<EmptyLineSeparatorToken>,
}

impl Default for EmptyLineSeparator {
    /// Fields must be separated; several empty lines are allowed, everywhere;
    /// every token is checked.
    fn default() -> (r: Self)
        ensures
            !r.allow_no_empty_line_between_fields,
            r.allow_multiple_empty_lines,
            r.allow_multiple_empty_lines_inside_class_members,
            r.tokens@ == all_els_tokens(),
    {
        EmptyLineSeparator {
            allow_no_empty_line_between_fields: false,
            allow_multiple_empty_lines: true,
            allow_multiple_empty_lines_inside_class_members: true,
            tokens: EmptyLineSeparatorToken::default_tokens(),
        }
    }
}

impl EmptyLineSeparator {

    /// The rule as the properties configure it: the three flags are true when
    /// exactly `true` (absent: false, true, true); `tokens` lists the checked
    /// tokens (absent: every token).
    pub fn from_config(properties: &Properties) -> (r: Self)
        ensures
            r.allow_no_empty_line_between_fields == (properties.lookup("allowNoEmptyLineBetweenFields"@) == Some("true"@)),
            r.allow_multiple_empty_lines == match properties.lookup("allowMultipleEmptyLines"@) {
                Some(v) => v == "true"@,
                None => true,
            },
            r.allow_multiple_empty_lines_inside_class_members == match properties.lookup(
                "allowMultipleEmptyLinesInsideClassMembers"@,
            ) {
                Some(v) => v == "true"@,
                None => true,
            },
            r.tokens@ == match properties.lookup("tokens"@) {
                Some(v) => filter_map(split_commas(v), |p: Seq<char>| els_token_named(trim_chars(p))),
                None => all_els_tokens(),
            },
    {
        let f = match properties.get("allowNoEmptyLineBetweenFields") {
            Some(v) => str_eq(v, "true"),
            None => false,
        };
        let m = match properties.get("allowMultipleEmptyLines") {
            Some(v) => str_eq(v, "true"),
            None => true,
        };
        let i = match properties.get("allowMultipleEmptyLinesInsideClassMembers") {
            Some(v) => str_eq(v, "true"),
            None => true,
        };
        let tokens = match properties.get("tokens") {
            Some(v) => {
                let pieces = split_commas_exec(v);
                parse_els_tokens(&pieces)
            },
            None => EmptyLineSeparatorToken::default_tokens(),
        };
        EmptyLineSeparator {
            allow_no_empty_line_between_fields: f,
            allow_multiple_empty_lines: m,
            allow_multiple_empty_lines_inside_class_members: i,
            tokens,
        }
    }

    /// The rule's name.
    pub fn name(&self) -> (r: &'static str)
        ensures
            r@ == "EmptyLineSeparator"@,
    {
        "EmptyLineSeparator"
    }

    /// The node kinds the rule looks at.
    pub fn relevant_kinds(&self) -> (r: Vec<&'static str>)
        ensures
            r@.map_values(|s: &str| s@) == seq!["program"@, "class_body"@, "interface_body"@, "enum_body"@, "annotation_type_body"@],
    {
        let r = vec!["program", "class_body", "interface_body", "enum_body", "annotation_type_body"];
        proof {
            assert(r@.map_values(|s: &str| s@) =~= seq!["program"@, "class_body"@, "interface_body"@, "enum_body"@, "annotation_type_body"@]);
        }
        r
    }

    /// The token for a node kind.
    pub fn node_to_token(&self, k: &str) -> (r: Option<EmptyLineSeparatorToken>)
        ensures
            r == token_of_kind(k@),
    {
        if str_eq(k, "package_declaration") {
            Some(EmptyLineSeparatorToken::PackageDef)
        } else if str_eq(k, "import_declaration") {
            Some(EmptyLineSeparatorToken::Import)
        } else if str_eq(k, "class_declaration") {
            Some(EmptyLineSeparatorToken::ClassDef)
        } else if str_eq(k, "interface_declaration") {
            Some(EmptyLineSeparatorToken::InterfaceDef)
        } else if str_eq(k, "annotation_type_declaration") {
            Some(EmptyLineSeparatorToken::InterfaceDef)
        } else if str_eq(k, "enum_declaration") {
            Some(EmptyLineSeparatorToken::EnumDef)
        } else if str_eq(k, "static_initializer") {
            Some(EmptyLineSeparatorToken::StaticInit)
        } else if str_eq(k, "block") {
            Some(EmptyLineSeparatorToken::InstanceInit)
        } else if str_eq(k, "method_declaration") {
            Some(EmptyLineSeparatorToken::MethodDef)
        } else if str_eq(k, "constructor_declaration") {
            Some(EmptyLineSeparatorToken::CtorDef)
        } else if str_eq(k, "field_declaration") {
            Some(EmptyLineSeparatorToken::VariableDef)
        } else if str_eq(k, "constant_declaration") {
            Some(EmptyLineSeparatorToken::VariableDef)
        } else if str_eq(k, "record_declaration") {
            Some(EmptyLineSeparatorToken::RecordDef)
        } else if str_eq(k, "compact_constructor_declaration") {
            Some(EmptyLineSeparatorToken::CompactCtorDef)
        } else {
            None
        }
    }
}

/// The offset just after the last line feed before `pos` (0 when there is none).
pub open spec fn lf_line_start(b: Seq<u8>, pos: int) -> int
    decreases pos,
{
    if pos <= 0 || pos > b.len() {
        0
    } else if b[pos - 1] == 10 {
        pos
    } else {
        lf_line_start(b, pos - 1)
    }
}

/// The fix that inserts a line break at the start of the line of `pos`.
pub open spec fn insert_blank_fix(b: Seq<u8>, pos: int) -> Option<Seq<EditView>> {
    Some(seq![(Some("\n"@), lf_line_start(b, pos), lf_line_start(b, pos))])
}

/// The fix that keeps one empty line after the line of `ceb` and deletes the
/// lines after it up to the line of `ncs`, if there are any.
pub open spec fn delete_excess_fix(b: Seq<u8>, ceb: int, ncs: int) -> Option<Seq<EditView>> {
    let f = first_lf_from(b, ceb);
    let s = first_lf_from(b, f + 1);
    let n = lf_line_start(b, ncs);
    if f >= b.len() || s >= b.len() || !(s + 1 < n) {
        None
    } else {
        Some(seq![(None, s + 1, n)])
    }
}

/// The fix that deletes the lines between the line of `ceb` and the line of `ncs`.
pub open spec fn delete_all_fix(b: Seq<u8>, ceb: int, ncs: int) -> Option<Seq<EditView>> {
    let f = first_lf_from(b, ceb);
    let n = lf_line_start(b, ncs);
    if f >= b.len() || !(f + 1 < n) {
        None
    } else {
        Some(seq![(None, f + 1, n)])
    }
}

/// The offset just after the last line feed before `pos`.
fn line_start_before(b: &[u8], pos: usize) -> (r: usize)
    requires
        pos <= b@.len(),
    ensures
        r == lf_line_start(b@, pos as int),
        r <= pos,
{
    let mut i = pos;
    while i > 0 && b[i - 1] != 10
        invariant
            i <= pos <= b@.len(),
            lf_line_start(b@, pos as int) == lf_line_start(b@, i as int),
        decreases i,
    {
        i = i - 1;
    }
    i
}

/// The offset of the first line feed at or after `s`, or the length.
pub(crate) fn next_lf(b: &[u8], s: usize) -> (r: usize)
    requires
        s <= b@.len(),
    ensures
        r == first_lf_from(b@, s as int),
        s <= r <= b@.len(),
{
    let mut i = s;
    while i < b.len() && b[i] != 10
        invariant
            s <= i <= b@.len(),
            first_lf_from(b@, s as int) == first_lf_from(b@, i as int),
        decreases b@.len() - i,
    {
        i = i + 1;
    }
    i
}

/// The fix of `insert_blank_fix`.
fn insert_blank(b: &[u8], pos: usize) -> (r: Option<Fix>)
    requires
        pos <= b@.len(),
        b@.len() < u32::MAX,
    ensures
        r is Some ==> r.unwrap().applicability == Applicability::Safe,
        match r {
            Some(f) => insert_blank_fix(b@, pos as int) == Some(edit_views(f.edits@)),
            None => insert_blank_fix(b@, pos as int) is None,
        },
{
    let ls = line_start_before(b, pos);
    let f = Fix::safe_edit(Edit::insertion(String::from_str("\n"), TextSize::new(ls as u32)));
    proof {
        assert(edit_views(f.edits@) =~= seq![(Some("\n"@), ls as int, ls as int)]);
    }
    Some(f)
}

/// The fix of `delete_excess_fix`.
fn delete_excess(b: &[u8], ceb: usize, ncs: usize) -> (r: Option<Fix>)
    requires
        ceb <= b@.len(),
        ncs <= b@.len(),
        b@.len() < u32::MAX,
    ensures
        r is Some ==> r.unwrap().applicability == Applicability::Safe,
        match r {
            Some(f) => delete_excess_fix(b@, ceb as int, ncs as int) == Some(edit_views(f.edits@)),
            None => delete_excess_fix(b@, ceb as int, ncs as int) is None,
        },
{
    let f = next_lf(b, ceb);
    if f >= b.len() {
        return None;
    }
    let s = next_lf(b, f + 1);
    if s >= b.len() {
        return None;
    }
    let n = line_start_before(b, ncs);
    if !(s + 1 < n) {
        return None;
    }
    let fx = Fix::safe_edit(Edit::deletion(TextSize::new((s + 1) as u32), TextSize::new(n as u32)));
    proof {
        assert(edit_views(fx.edits@) =~= seq![(None, s + 1, n as int)]);
    }
    Some(fx)
}

/// The fix of `delete_all_fix`.
fn delete_all(b: &[u8], ceb: usize, ncs: usize) -> (r: Option<Fix>)
    requires
        ceb <= b@.len(),
        ncs <= b@.len(),
        b@.len() < u32::MAX,
    ensures
        r is Some ==> r.unwrap().applicability == Applicability::Safe,
        match r {
            Some(f) => delete_all_fix(b@, ceb as int, ncs as int) == Some(edit_views(f.edits@)),
            None => delete_all_fix(b@, ceb as int, ncs as int) is None,
        },
{
    let f = next_lf(b, ceb);
    if f >= b.len() {
        return None;
    }
    let n = line_start_before(b, ncs);
    if !(f + 1 < n) {
        return None;
    }
    let fx = Fix::safe_edit(Edit::deletion(TextSize::new((f + 1) as u32), TextSize::new(n as u32)));
    proof {
        assert(edit_views(fx.edits@) =~= seq![(None, f + 1, n as int)]);
    }
    Some(fx)
}

/// A diagnostic at the byte `at` with `fix`.
pub open spec fn els_dv(name: Seq<char>, msg: Seq<char>, at: int, fix: Option<Seq<EditView>>) -> DiagView {
    (name, msg, at, at + 1, safe_fix(fix))
}

/// The diagnostic of `els_dv`.
fn els_diag(kind: DiagnosticKind, at: usize, fix: Option<Fix>) -> (r: Diagnostic)
    requires
        at < u32::MAX,
        fix is Some ==> fix.unwrap().applicability == Applicability::Safe,
    ensures
        r.dv() == els_dv(kind.name@, kind.body@, at as int, match fix {
            Some(f) => Some(edit_views(f.edits@)),
            None => None,
        }),
{
    let d = Diagnostic::new(kind, TextRange::new(TextSize::new(at as u32), TextSize::new((at + 1) as u32)));
    match fix {
        Some(f) => d.with_fix(f),
        None => d,
    }
}


/// The node is a line or block comment.
pub open spec fn comment_kind(tree: CstTree, c: int) -> bool {
    tree.kind_of(c) == "line_comment"@ || tree.kind_of(c) == "block_comment"@
}

/// The text that opens a comment of the kind of node `c`.
pub open spec fn comment_opener(tree: CstTree, c: int) -> Seq<char> {
    if tree.kind_of(c) == "line_comment"@ { "//"@ } else { "/*"@ }
}

/// `x`, or 0 when it is negative.
pub open spec fn sat(x: int) -> int {
    if x > 0 { x } else { 0 }
}

/// Scanning `ch[..=j]` backwards, the comments that lead up to the element
/// after them: a trailing comment on row `pel` is skipped, and the scan stops
/// at the first element that is no comment (in a type body, braces and extras
/// other than comments are passed over; at file level, extras are).
/// Whether one of them covers row `r`.
pub open spec fn leading_comment_covers(tree: CstTree, ch: Seq<usize>, j: int, pel: int, r: int, prog: bool) -> bool
    decreases j + 1,
{
    if j < 0 || j >= ch.len() {
        false
    } else {
        let c = ch[j] as int;
        let k = tree.kind_of(c);
        if !prog && (k == "{"@ || k == "}"@) {
            leading_comment_covers(tree, ch, j - 1, pel, r, prog)
        } else if prog && !tree.extra_of(c) {
            false
        } else if !comment_kind(tree, c) {
            if !tree.extra_of(c) { false } else { leading_comment_covers(tree, ch, j - 1, pel, r, prog) }
        } else if tree.start_row_of(c) == pel {
            leading_comment_covers(tree, ch, j - 1, pel, r, prog)
        } else {
            (tree.start_row_of(c) <= r <= tree.end_row_of(c)) || leading_comment_covers(tree, ch, j - 1, pel, r, prog)
        }
    }
}

/// The start row of the earliest and the end row of the latest of the leading
/// comments of `leading_comment_covers`, if there are any.
pub open spec fn leading_comment_span(tree: CstTree, ch: Seq<usize>, j: int, pel: int, prog: bool) -> Option<(int, int)>
    decreases j + 1,
{
    if j < 0 || j >= ch.len() {
        None
    } else {
        let c = ch[j] as int;
        let k = tree.kind_of(c);
        if !prog && (k == "{"@ || k == "}"@) {
            leading_comment_span(tree, ch, j - 1, pel, prog)
        } else if prog && !tree.extra_of(c) {
            None
        } else if !comment_kind(tree, c) {
            if !tree.extra_of(c) { None } else { leading_comment_span(tree, ch, j - 1, pel, prog) }
        } else if tree.start_row_of(c) == pel {
            leading_comment_span(tree, ch, j - 1, pel, prog)
        } else {
            match leading_comment_span(tree, ch, j - 1, pel, prog) {
                None => Some((tree.start_row_of(c), tree.end_row_of(c))),
                Some((fs, _)) => Some((fs, tree.end_row_of(c))),
            }
        }
    }
}

/// Some row between row `pel` and the element `ch[idx]` is covered by no leading comment: an empty line.
pub open spec fn blank_line_before(tree: CstTree, ch: Seq<usize>, idx: int, pel: int, prog: bool) -> bool {
    exists|r: int| pel + 1 <= r < tree.start_row_of(ch[idx] as int) && !#[trigger] leading_comment_covers(tree, ch, idx - 1, pel, r, prog)
}

/// The empty lines that count before `ch[idx]` in a type body: all rows after
/// `pel` when no comment leads up to it, else the larger of the gaps before the
/// first leading comment and after the last.
pub open spec fn empty_lines_before(tree: CstTree, ch: Seq<usize>, idx: int, pel: int) -> int {
    let ts = tree.start_row_of(ch[idx] as int);
    match leading_comment_span(tree, ch, idx - 1, pel, false) {
        None => sat(ts - pel - 1),
        Some((fs, le)) => if sat(fs - pel - 1) >= sat(ts - le - 1) { sat(fs - pel - 1) } else { sat(ts - le - 1) },
    }
}

/// The empty lines that count before `ch[idx]` at file level: those after the
/// last leading comment, or after row `pel` when there is none.
pub open spec fn empty_lines_before_program(tree: CstTree, ch: Seq<usize>, idx: int, pel: int) -> int {
    let ts = tree.start_row_of(ch[idx] as int);
    match leading_comment_span(tree, ch, idx - 1, pel, true) {
        None => sat(ts - pel - 1),
        Some((_, le)) => sat(ts - le - 1),
    }
}

/// The diagnostics for comments with several empty lines before them among
/// the first `n` children `cs` of a modifiers node, and the row and offset
/// where the last element seen ends.
pub open spec fn modifier_fold(tree: CstTree, cs: Seq<usize>, n: int) -> (Option<(int, int)>, Seq<DiagView>)
    decreases n,
{
    if n <= 0 || n > cs.len() {
        (None, seq![])
    } else {
        let (prev, ds) = modifier_fold(tree, cs, n - 1);
        let c = cs[n - 1] as int;
        if comment_kind(tree, c) {
            let d = if prev is Some && sat(tree.start_row_of(c) - (prev.unwrap().0 + 1)) > 1 {
                seq![els_dv("CommentTooManyEmptyLines"@, "'"@ + comment_opener(tree, c) + "' has more than 1 empty lines before."@,
                    tree.start_of(c), delete_excess_fix(tree.src_bytes(), prev.unwrap().1, tree.start_of(c)))]
            } else {
                seq![]
            };
            (Some((tree.end_row_of(c), tree.end_of(c))), ds + d)
        } else if !tree.extra_of(c) {
            (Some((tree.end_row_of(c), tree.end_of(c))), ds)
        } else {
            (prev, ds)
        }
    }
}

/// The modifiers node of `c`: its `modifiers` field, else its first `modifiers` child.
pub open spec fn modifiers_of(tree: CstTree, c: int) -> Option<usize> {
    if tree.field_child(c, "modifiers"@) is Some { tree.field_child(c, "modifiers"@) } else { tree.kind_child(c, "modifiers"@) }
}

/// The diagnostics for comments with several empty lines before them inside the modifiers of `c`.
pub open spec fn modifier_spacing(tree: CstTree, c: int) -> Seq<DiagView> {
    let m = modifiers_of(tree, c);
    if m is None {
        seq![]
    } else {
        let cs = tree.children_of(m.unwrap() as int);
        modifier_fold(tree, cs, cs.len() as int).1
    }
}

/// Whether a leading comment before `ch[j+1]` covers row `r` (see `leading_comment_covers`).
fn covers(tree: &CstTree, ch: &Vec<usize>, j: usize, pel: usize, r: usize, prog: bool) -> (out: bool)
    requires
        tree.wf(),
        j <= ch@.len(),
        forall|x: int| 0 <= x < ch@.len() ==> #[trigger] ch@[x] < tree.node_count(),
    ensures
        out == leading_comment_covers(*tree, ch@, j - 1, pel as int, r as int, prog),
{
    let mut i = j;
    while i > 0
        invariant
            tree.wf(),
            i <= j <= ch@.len(),
            forall|x: int| 0 <= x < ch@.len() ==> #[trigger] ch@[x] < tree.node_count(),
            leading_comment_covers(*tree, ch@, j - 1, pel as int, r as int, prog)
                == leading_comment_covers(*tree, ch@, i - 1, pel as int, r as int, prog),
        decreases i,
    {
        let c = ch[i - 1];
        let k = tree.kind(c);
        let extra = tree.is_extra(c);
        if !prog && (str_eq(k, "{") || str_eq(k, "}")) {
        } else if prog && !extra {
            return false;
        } else if !(str_eq(k, "line_comment") || str_eq(k, "block_comment")) {
            if !extra {
                return false;
            }
        } else if tree.start_row(c) == pel {
        } else if tree.start_row(c) <= r && r <= tree.end_row(c) {
            return true;
        }
        i = i - 1;
    }
    false
}

/// The span of the leading comments before `ch[j+1]` (see `leading_comment_span`).
fn comment_span(tree: &CstTree, ch: &Vec<usize>, j: usize, pel: usize, prog: bool) -> (out: Option<(usize, usize)>)
    requires
        tree.wf(),
        j <= ch@.len(),
        forall|x: int| 0 <= x < ch@.len() ==> #[trigger] ch@[x] < tree.node_count(),
    ensures
        match out {
            Some((a, b)) => leading_comment_span(*tree, ch@, j - 1, pel as int, prog) == Some((a as int, b as int)),
            None => leading_comment_span(*tree, ch@, j - 1, pel as int, prog) is None,
        },
    decreases j,
{
    if j == 0 {
        return None;
    }
    let c = ch[j - 1];
    let k = tree.kind(c);
    let extra = tree.is_extra(c);
    if !prog && (str_eq(k, "{") || str_eq(k, "}")) {
        comment_span(tree, ch, j - 1, pel, prog)
    } else if prog && !extra {
        None
    } else if !(str_eq(k, "line_comment") || str_eq(k, "block_comment")) {
        if !extra { None } else { comment_span(tree, ch, j - 1, pel, prog) }
    } else if tree.start_row(c) == pel {
        comment_span(tree, ch, j - 1, pel, prog)
    } else {
        match comment_span(tree, ch, j - 1, pel, prog) {
            None => Some((tree.start_row(c), tree.end_row(c))),
            Some((fs, _)) => Some((fs, tree.end_row(c))),
        }
    }
}

/// `blank_line_before` of `ch[idx]`.
fn has_blank_line_before(tree: &CstTree, ch: &Vec<usize>, idx: usize, pel: usize, prog: bool) -> (out: bool)
    requires
        tree.wf(),
        idx < ch@.len(),
        forall|x: int| 0 <= x < ch@.len() ==> #[trigger] ch@[x] < tree.node_count(),
    ensures
        out == blank_line_before(*tree, ch@, idx as int, pel as int, prog),
{
    let ts = tree.start_row(ch[idx]);
    if pel >= ts {
        return false;
    }
    let mut r = pel + 1;
    while r < ts
        invariant
            tree.wf(),
            idx < ch@.len(),
            forall|x: int| 0 <= x < ch@.len() ==> #[trigger] ch@[x] < tree.node_count(),
            ts == tree.start_row_of(ch@[idx as int] as int),
            pel + 1 <= r <= ts,
            forall|q: int| pel + 1 <= q < r ==> #[trigger] leading_comment_covers(*tree, ch@, idx - 1, pel as int, q, prog),
        decreases ts - r,
    {
        if !covers(tree, ch, idx, pel, r, prog) {
            return true;
        }
        r = r + 1;
    }
    false
}

/// `empty_lines_before` (in a type body) or `empty_lines_before_program` (at file level) of `ch[idx]`.
fn count_empty_lines_before(tree: &CstTree, ch: &Vec<usize>, idx: usize, pel: usize, prog: bool) -> (out: usize)
    requires
        tree.wf(),
        idx < ch@.len(),
        forall|x: int| 0 <= x < ch@.len() ==> #[trigger] ch@[x] < tree.node_count(),
    ensures
        out as int == if prog {
            empty_lines_before_program(*tree, ch@, idx as int, pel as int)
        } else {
            empty_lines_before(*tree, ch@, idx as int, pel as int)
        },
{
    let ts = tree.start_row(ch[idx]);
    match comment_span(tree, ch, idx, pel, prog) {
        None => sat_sub(ts, pel),
        Some((fs, le)) => {
            if prog {
                sat_sub(ts, le)
            } else {
                let before = sat_sub(fs, pel);
                let after = sat_sub(ts, le);
                if before >= after { before } else { after }
            }
        },
    }
}

/// `sat(a - b - 1)`.
fn sat_sub(a: usize, b: usize) -> (r: usize)
    ensures
        r as int == sat(a - b - 1),
{
    if a > b { a - b - 1 } else { 0 }
}

/// `modifier_spacing` of node `c`.
fn check_modifier_comment_spacing(tree: &CstTree, c: usize) -> (r: Vec<Diagnostic>)
    requires
        tree.wf(),
        c < tree.node_count(),
    ensures
        diag_views(r@) == modifier_spacing(*tree, c as int),
{
    let m = match tree.child_by_field_name(c, "modifiers") {
        Some(m) => m,
        None => match tree.find_child(c, "modifiers") {
            Some(m) => m,
            None => return no_diags(),
        },
    };
    let cs = tree.children(m);
    let b = tree.source().as_bytes();
    let mut out = no_diags();
    let mut prev: Option<(usize, usize)> = None;
    let mut i: usize = 0;
    while i < cs.len()
        invariant
            tree.wf(),
            b@ == tree.src_bytes(),
            b@.len() < u32::MAX,
            cs@ == tree.children_of(m as int),
            forall|x: int| 0 <= x < cs@.len() ==> #[trigger] cs@[x] < tree.node_count(),
            0 <= i <= cs@.len(),
            (match prev {
                Some((a, bb)) => Some((a as int, bb as int)),
                None => None,
            }, diag_views(out@)) == modifier_fold(*tree, cs@, i as int),
            prev is Some ==> prev.unwrap().1 <= b@.len(),
        decreases cs@.len() - i,
    {
        let c2 = cs[i];
        let k = tree.kind(c2);
        let range = tree.range(c2);
        if str_eq(k, "line_comment") || str_eq(k, "block_comment") {
            if let Some((pl, pb)) = prev {
                if sat_sub(tree.start_row(c2), pl) > 1 {
                    let opener = if str_eq(k, "line_comment") { "//" } else { "/*" };
                    let v = CommentTooManyEmptyLines { comment_start: String::from_str(opener) };
                    let fix = delete_excess(b, pb, range.start.raw as usize);
                    let d = els_diag(v.kind(), range.start.raw as usize, fix);
                    push_diag(&mut out, d);
                } else {
                    proof {
                        assert(diag_views(out@) =~= diag_views(out@) + Seq::<DiagView>::empty());
                    }
                }
            } else {
                proof {
                    assert(diag_views(out@) =~= diag_views(out@) + Seq::<DiagView>::empty());
                }
            }
            prev = Some((tree.end_row(c2), range.end.raw as usize));
        } else if !tree.is_extra(c2) {
            prev = Some((tree.end_row(c2), range.end.raw as usize));
        }
        i = i + 1;
    }
    out
}


/// What the scan of a type body remembers between members.
#[derive(Clone, Copy, Debug)]
pub struct BodyScan {
    /// Row where the last checked code element ends.
    pub prev_code_end_line: Option<usize>,
    /// Row where the last element, comment or code, ends.
    pub prev_anything_end_line: Option<usize>,
    /// Offset where the last checked code element ends.
    pub prev_code_end_byte: Option<usize>,
    /// Offset where the last element, comment or code, ends.
    pub prev_anything_end_byte: Option<usize>,
    /// The last code element was a field.
    pub prev_was_field: bool,
    /// No code element has been checked yet.
    pub is_first_member: bool,
    /// A comment in the current gap was reported.
    pub reported: bool,
}

/// The first element of `ch[j..]` that is code: no extra and no brace.
pub open spec fn next_code(tree: CstTree, ch: Seq<usize>, j: int) -> Option<usize>
    decreases ch.len() - j,
{
    if j < 0 || j >= ch.len() {
        None
    } else if !tree.extra_of(ch[j] as int) && tree.kind_of(ch[j] as int) != "{"@ && tree.kind_of(ch[j] as int) != "}"@ {
        Some(ch[j])
    } else {
        next_code(tree, ch, j + 1)
    }
}

/// The fix that deletes excess empty lines after the offset `from`, if it is known.
pub open spec fn delete_excess_after(b: Seq<u8>, from: Option<usize>, to: int) -> Option<Seq<EditView>> {
    if from is Some { delete_excess_fix(b, from.unwrap() as int, to) } else { None }
}

/// The diagnostic "too many empty lines before" the element `c` of token `t`.
pub open spec fn too_many_dv(tree: CstTree, c: int, t: EmptyLineSeparatorToken, from: Option<usize>) -> DiagView {
    els_dv("TooManyEmptyLines"@, "'"@ + els_token_name(t) + "' has more than 1 empty lines before."@, tree.start_of(c),
        delete_excess_after(tree.src_bytes(), from, tree.start_of(c)))
}

/// The diagnostic "should be separated" for the element `c` named `name`.
pub open spec fn separated_dv(tree: CstTree, c: int, name: Seq<char>) -> DiagView {
    els_dv("ShouldBeSeparated"@, "'"@ + name + "' should be separated from previous line."@, tree.start_of(c),
        insert_blank_fix(tree.src_bytes(), tree.start_of(c)))
}

/// The checks of the code element `ch[i]` of token `tok` in a type body, after
/// the previous code element that ends on a known row.
pub open spec fn body_main(rule: EmptyLineSeparator, tree: CstTree, ch: Seq<usize>, st: BodyScan, i: int, tok: Option<EmptyLineSeparatorToken>) -> Seq<DiagView> {
    let c = ch[i] as int;
    let pcl = st.prev_code_end_line.unwrap() as int;
    let multi = rule.allow_multiple_empty_lines;
    let f2f = st.prev_was_field && tok == Some(EmptyLineSeparatorToken::VariableDef);
    if st.is_first_member {
        if !multi && !st.reported && tok is Some && empty_lines_before(tree, ch, i, pcl) > 1 {
            seq![too_many_dv(tree, c, tok.unwrap(), st.prev_code_end_byte)]
        } else {
            seq![]
        }
    } else if !blank_line_before(tree, ch, i, pcl, false) {
        if f2f && rule.allow_no_empty_line_between_fields {
            seq![]
        } else if tok is Some {
            seq![separated_dv(tree, c, els_token_name(tok.unwrap()))]
        } else {
            seq![]
        }
    } else if !multi && !st.reported && tok is Some && empty_lines_before(tree, ch, i, pcl) > 1 {
        seq![too_many_dv(tree, c, tok.unwrap(), st.prev_code_end_byte)]
    } else {
        seq![]
    }
}

/// One step of the scan of a type body: the element `ch[i]`, given what came
/// before (`st`; `chf` says whether the body holds fields).
pub open spec fn body_step(rule: EmptyLineSeparator, tree: CstTree, ch: Seq<usize>, chf: bool, st: BodyScan, i: int) -> (BodyScan, Seq<DiagView>) {
    let c = ch[i] as int;
    let k = tree.kind_of(c);
    let b = tree.src_bytes();
    let multi = rule.allow_multiple_empty_lines;
    if k == "{"@ || k == "}"@ {
        (st, seq![])
    } else if !multi && tree.extra_of(c) && comment_kind(tree, c) {
        if st.prev_anything_end_line is Some && tree.start_row_of(c) == st.prev_anything_end_line.unwrap() {
            (st, seq![])
        } else {
            let nx = next_code(tree, ch, i + 1);
            let req = if !rule.allow_no_empty_line_between_fields || st.is_first_member || chf {
                false
            } else if nx is Some {
                let t = token_of_kind(tree.kind_of(nx.unwrap() as int));
                t is Some && rule.tokens@.contains(t.unwrap())
            } else {
                false
            };
            let report = st.prev_anything_end_line is Some && sat(tree.start_row_of(c) - (st.prev_anything_end_line.unwrap() + 1)) > 1
                && !req;
            let d = if report {
                seq![els_dv("CommentTooManyEmptyLines"@, "'"@ + comment_opener(tree, c) + "' has more than 1 empty lines before."@,
                    tree.start_of(c), delete_excess_after(b, st.prev_anything_end_byte, tree.start_of(c)))]
            } else {
                seq![]
            };
            (BodyScan {
                prev_anything_end_line: Some(tree.end_row_of(c) as usize),
                prev_anything_end_byte: Some(tree.end_of(c) as usize),
                reported: st.reported || report,
                ..st
            }, d)
        }
    } else if tree.extra_of(c) {
        (st, seq![])
    } else {
        let tok = token_of_kind(k);
        if tok is Some && !rule.tokens@.contains(tok.unwrap()) {
            (st, seq![])
        } else {
            let mods = if !multi { modifier_spacing(tree, c) } else { seq![] };
            let main = if st.prev_code_end_line is None { seq![] } else { body_main(rule, tree, ch, st, i, tok) };
            (BodyScan {
                prev_code_end_line: Some(tree.end_row_of(c) as usize),
                prev_anything_end_line: Some(tree.end_row_of(c) as usize),
                prev_code_end_byte: Some(tree.end_of(c) as usize),
                prev_anything_end_byte: Some(tree.end_of(c) as usize),
                prev_was_field: tok == Some(EmptyLineSeparatorToken::VariableDef),
                is_first_member: false,
                reported: false,
            }, mods + main)
        }
    }
}

/// The scan of the first `n` elements of a type body.
pub open spec fn body_fold(rule: EmptyLineSeparator, tree: CstTree, ch: Seq<usize>, chf: bool, st0: BodyScan, n: int) -> (BodyScan, Seq<DiagView>)
    decreases n,
{
    if n <= 0 || n > ch.len() {
        (st0, seq![])
    } else {
        let (st, ds) = body_fold(rule, tree, ch, chf, st0, n - 1);
        let (st2, d) = body_step(rule, tree, ch, chf, st, n - 1);
        (st2, ds + d)
    }
}

/// The children of `cs` other than `;`.
pub open spec fn without_semicolons(tree: CstTree, cs: Seq<usize>) -> Seq<usize>
    decreases cs.len(),
{
    if cs.len() == 0 {
        cs
    } else {
        let p = without_semicolons(tree, cs.drop_last());
        if tree.kind_of(cs.last() as int) != ";"@ { p.push(cs.last()) } else { p }
    }
}

/// The members of an enum body: its children but the constants, with the
/// declarations after the constants (but their `;`) in place of their group.
pub open spec fn enum_members(tree: CstTree, raw: Seq<usize>) -> Seq<usize>
    decreases raw.len(),
{
    if raw.len() == 0 {
        raw
    } else {
        let p = enum_members(tree, raw.drop_last());
        let c = raw.last() as int;
        if tree.kind_of(c) == "enum_constant"@ {
            p
        } else if tree.kind_of(c) == "enum_body_declarations"@ {
            p + without_semicolons(tree, tree.children_of(c))
        } else {
            p.push(raw.last())
        }
    }
}

/// The row where the last enum constant of `raw` ends.
pub open spec fn last_enum_constant_row(tree: CstTree, raw: Seq<usize>) -> Option<usize>
    decreases raw.len(),
{
    if raw.len() == 0 {
        None
    } else if tree.kind_of(raw.last() as int) == "enum_constant"@ {
        Some(tree.end_row_of(raw.last() as int) as usize)
    } else {
        last_enum_constant_row(tree, raw.drop_last())
    }
}

/// The last node of `cs` whose kind is `k`.
pub open spec fn last_of_kind(tree: CstTree, cs: Seq<usize>, k: Seq<char>) -> Option<usize>
    decreases cs.len(),
{
    if cs.len() == 0 {
        None
    } else if tree.kind_of(cs.last() as int) == k {
        Some(cs.last())
    } else {
        last_of_kind(tree, cs.drop_last(), k)
    }
}

/// The last node of `cs` that is no brace.
pub open spec fn last_non_brace(tree: CstTree, cs: Seq<usize>) -> Option<usize>
    decreases cs.len(),
{
    if cs.len() == 0 {
        None
    } else if tree.kind_of(cs.last() as int) != "{"@ && tree.kind_of(cs.last() as int) != "}"@ {
        Some(cs.last())
    } else {
        last_non_brace(tree, cs.drop_last())
    }
}

/// The members of the body `node` as the scan sees them.
pub open spec fn body_members(tree: CstTree, node: int) -> Seq<usize> {
    if tree.kind_of(node) == "enum_body"@ { enum_members(tree, tree.children_of(node)) } else { tree.children_of(node) }
}

/// The state the scan of the body `node` starts from.
pub open spec fn body_start(tree: CstTree, node: int) -> BodyScan {
    let raw = tree.children_of(node);
    let ecl = if tree.kind_of(node) == "enum_body"@ { last_enum_constant_row(tree, raw) } else { None };
    let ob = tree.kind_child(node, "{"@);
    let obl = if ob is Some { Some(tree.end_row_of(ob.unwrap() as int) as usize) } else { None };
    let line = if ecl is Some { ecl } else { obl };
    let ob2 = tree.first_of_kind(body_members(tree, node), "{"@);
    let byte = if ob2 is Some { Some(tree.end_of(ob2.unwrap() as int) as usize) } else { None };
    BodyScan {
        prev_code_end_line: line,
        prev_anything_end_line: line,
        prev_code_end_byte: byte,
        prev_anything_end_byte: byte,
        prev_was_field: false,
        is_first_member: ecl is None,
        reported: false,
    }
}

/// Some member of `ch` is a field.
pub open spec fn has_fields(tree: CstTree, ch: Seq<usize>) -> bool {
    exists|k: int| 0 <= k < ch.len() && token_of_kind(tree.kind_of(#[trigger] ch[k] as int)) == Some(EmptyLineSeparatorToken::VariableDef)
}

/// The diagnostic for several empty lines before the closing brace of a body.
pub open spec fn close_brace_check(rule: EmptyLineSeparator, tree: CstTree, ch: Seq<usize>, fst: BodyScan) -> Seq<DiagView> {
    let close = last_of_kind(tree, ch, "}"@);
    let lc = last_non_brace(tree, ch);
    if rule.allow_multiple_empty_lines || fst.prev_anything_end_line is None || close is None || lc is None {
        seq![]
    } else {
        let e = tree.end_of(lc.unwrap() as int);
        if sat(tree.start_row_of(close.unwrap() as int) - (tree.end_row_of(lc.unwrap() as int) + 1)) > 1 && e > 0 {
            seq![els_dv("TooManyEmptyLinesAfter"@, "'}' has more than 1 empty lines after."@, e - 1,
                delete_all_fix(tree.src_bytes(), e, tree.start_of(close.unwrap() as int)))]
        } else {
            seq![]
        }
    }
}

/// The diagnostics of the members of the type body `node`, before the check
/// inside the members.
pub open spec fn body_diags(rule: EmptyLineSeparator, tree: CstTree, node: int) -> Seq<DiagView> {
    let ch = body_members(tree, node);
    let (fst, ds) = body_fold(rule, tree, ch, has_fields(tree, ch), body_start(tree, node), ch.len() as int);
    ds + close_brace_check(rule, tree, ch, fst)
}


/// The children of `n` other than `;`, appended to `out`.
fn push_without_semicolons(tree: &CstTree, n: usize, out: &mut Vec<usize>)
    requires
        tree.wf(),
        n < tree.node_count(),
        forall|x: int| 0 <= x < old(out)@.len() ==> #[trigger] old(out)@[x] < tree.node_count(),
    ensures
        final(out)@ == old(out)@ + without_semicolons(*tree, tree.children_of(n as int)),
        forall|x: int| 0 <= x < final(out)@.len() ==> #[trigger] final(out)@[x] < tree.node_count(),
{
    let cs = tree.children(n);
    let ghost start = out@;
    let mut i: usize = 0;
    proof {
        assert(cs@.subrange(0, 0) =~= Seq::<usize>::empty());
        assert(start + without_semicolons(*tree, Seq::<usize>::empty()) =~= start);
    }
    while i < cs.len()
        invariant
            tree.wf(),
            cs@ == tree.children_of(n as int),
            forall|x: int| 0 <= x < cs@.len() ==> #[trigger] cs@[x] < tree.node_count(),
            0 <= i <= cs@.len(),
            out@ == start + without_semicolons(*tree, cs@.subrange(0, i as int)),
            forall|x: int| 0 <= x < out@.len() ==> #[trigger] out@[x] < tree.node_count(),
        decreases cs@.len() - i,
    {
        let c = cs[i];
        proof {
            assert(cs@.subrange(0, i + 1).drop_last() =~= cs@.subrange(0, i as int));
            assert(cs@.subrange(0, i + 1).last() == c);
        }
        if !tree.kind_is(c, ";") {
            out.push(c);
            proof {
                assert(out@ =~= start + without_semicolons(*tree, cs@.subrange(0, i + 1)));
            }
        }
        i = i + 1;
    }
    proof {
        assert(cs@.subrange(0, cs@.len() as int) =~= cs@);
    }
}

/// `body_members` of `node`.
fn members(tree: &CstTree, node: usize) -> (r: Vec<usize>)
    requires
        tree.wf(),
        node < tree.node_count(),
    ensures
        r@ == body_members(*tree, node as int),
        forall|x: int| 0 <= x < r@.len() ==> #[trigger] r@[x] < tree.node_count(),
{
    let raw = tree.children(node);
    if !tree.kind_is(node, "enum_body") {
        let mut v: Vec<usize> = Vec::new();
        let mut i: usize = 0;
        while i < raw.len()
            invariant
                tree.wf(),
                forall|x: int| 0 <= x < raw@.len() ==> #[trigger] raw@[x] < tree.node_count(),
                0 <= i <= raw@.len(),
                v@ == raw@.subrange(0, i as int),
            decreases raw@.len() - i,
        {
            v.push(raw[i]);
            proof {
                assert(v@ =~= raw@.subrange(0, i + 1));
            }
            i = i + 1;
        }
        proof {
            assert(raw@.subrange(0, raw@.len() as int) =~= raw@);
        }
        return v;
    }
    let mut out: Vec<usize> = Vec::new();
    let mut i: usize = 0;
    proof {
        assert(raw@.subrange(0, 0) =~= Seq::<usize>::empty());
    }
    while i < raw.len()
        invariant
            tree.wf(),
            node < tree.node_count(),
            raw@ == tree.children_of(node as int),
            forall|x: int| 0 <= x < raw@.len() ==> #[trigger] raw@[x] < tree.node_count(),
            0 <= i <= raw@.len(),
            out@ == enum_members(*tree, raw@.subrange(0, i as int)),
            forall|x: int| 0 <= x < out@.len() ==> #[trigger] out@[x] < tree.node_count(),
        decreases raw@.len() - i,
    {
        let c = raw[i];
        proof {
            assert(raw@.subrange(0, i + 1).drop_last() =~= raw@.subrange(0, i as int));
            assert(raw@.subrange(0, i + 1).last() == c);
        }
        if tree.kind_is(c, "enum_constant") {
        } else if tree.kind_is(c, "enum_body_declarations") {
            push_without_semicolons(tree, c, &mut out);
        } else {
            out.push(c);
        }
        i = i + 1;
    }
    proof {
        assert(raw@.subrange(0, raw@.len() as int) =~= raw@);
    }
    out
}

/// `last_enum_constant_row` of the children of `node`.
fn last_enum_constant(tree: &CstTree, node: usize) -> (r: Option<usize>)
    requires
        tree.wf(),
        node < tree.node_count(),
    ensures
        r == last_enum_constant_row(*tree, tree.children_of(node as int)),
{
    let raw = tree.children(node);
    let mut i = raw.len();
    proof {
        assert(raw@.subrange(0, raw@.len() as int) =~= raw@);
    }
    while i > 0
        invariant
            tree.wf(),
            raw@ == tree.children_of(node as int),
            forall|x: int| 0 <= x < raw@.len() ==> #[trigger] raw@[x] < tree.node_count(),
            0 <= i <= raw@.len(),
            last_enum_constant_row(*tree, raw@) == last_enum_constant_row(*tree, raw@.subrange(0, i as int)),
        decreases i,
    {
        let c = raw[i - 1];
        proof {
            assert(raw@.subrange(0, i as int).drop_last() =~= raw@.subrange(0, i - 1));
            assert(raw@.subrange(0, i as int).last() == c);
        }
        if tree.kind_is(c, "enum_constant") {
            return Some(tree.end_row(c));
        }
        i = i - 1;
    }
    None
}

/// `body_start` of `node`, given its members.
fn start_state(tree: &CstTree, node: usize, ch: &Vec<usize>) -> (r: BodyScan)
    requires
        tree.wf(),
        node < tree.node_count(),
        ch@ == body_members(*tree, node as int),
        forall|x: int| 0 <= x < ch@.len() ==> #[trigger] ch@[x] < tree.node_count(),
    ensures
        r == body_start(*tree, node as int),
{
    let ecl = if tree.kind_is(node, "enum_body") { last_enum_constant(tree, node) } else { None };
    let obl = match tree.find_child(node, "{") {
        Some(ob) => Some(tree.end_row(ob)),
        None => None,
    };
    let line = if ecl.is_some() { ecl } else { obl };
    let byte = match first_in(tree, ch, "{") {
        Some(ob) => Some(tree.range(ob).end.raw as usize),
        None => None,
    };
    BodyScan {
        prev_code_end_line: line,
        prev_anything_end_line: line,
        prev_code_end_byte: byte,
        prev_anything_end_byte: byte,
        prev_was_field: false,
        is_first_member: ecl.is_none(),
        reported: false,
    }
}

/// The first node of `ch` of kind `k`.
fn first_in(tree: &CstTree, ch: &Vec<usize>, k: &str) -> (r: Option<usize>)
    requires
        tree.wf(),
        forall|x: int| 0 <= x < ch@.len() ==> #[trigger] ch@[x] < tree.node_count(),
    ensures
        r == tree.first_of_kind(ch@, k@),
        r.is_some() ==> r.unwrap() < tree.node_count(),
{
    let mut i: usize = 0;
    proof {
        assert(ch@.subrange(0, ch@.len() as int) =~= ch@);
    }
    while i < ch.len()
        invariant
            tree.wf(),
            forall|x: int| 0 <= x < ch@.len() ==> #[trigger] ch@[x] < tree.node_count(),
            0 <= i <= ch@.len(),
            tree.first_of_kind(ch@, k@) == tree.first_of_kind(ch@.subrange(i as int, ch@.len() as int), k@),
        decreases ch@.len() - i,
    {
        assert(ch@.subrange(i as int, ch@.len() as int)[0] == ch@[i as int]);
        if tree.kind_is(ch[i], k) {
            return Some(ch[i]);
        }
        assert(ch@.subrange(i as int, ch@.len() as int).drop_first() =~= ch@.subrange(i + 1, ch@.len() as int));
        i = i + 1;
    }
    None
}

/// The last node of `ch` of kind `k` (`brace`: false), or the last that is no brace (`brace`: true).
fn last_in(tree: &CstTree, ch: &Vec<usize>, k: &str, non_brace: bool) -> (r: Option<usize>)
    requires
        tree.wf(),
        forall|x: int| 0 <= x < ch@.len() ==> #[trigger] ch@[x] < tree.node_count(),
    ensures
        r == if non_brace { last_non_brace(*tree, ch@) } else { last_of_kind(*tree, ch@, k@) },
        r.is_some() ==> r.unwrap() < tree.node_count(),
{
    let mut i = ch.len();
    proof {
        assert(ch@.subrange(0, ch@.len() as int) =~= ch@);
    }
    while i > 0
        invariant
            tree.wf(),
            forall|x: int| 0 <= x < ch@.len() ==> #[trigger] ch@[x] < tree.node_count(),
            0 <= i <= ch@.len(),
            non_brace ==> last_non_brace(*tree, ch@) == last_non_brace(*tree, ch@.subrange(0, i as int)),
            !non_brace ==> last_of_kind(*tree, ch@, k@) == last_of_kind(*tree, ch@.subrange(0, i as int), k@),
        decreases i,
    {
        let c = ch[i - 1];
        proof {
            assert(ch@.subrange(0, i as int).drop_last() =~= ch@.subrange(0, i - 1));
            assert(ch@.subrange(0, i as int).last() == c);
        }
        let hit = if non_brace { !tree.kind_is(c, "{") && !tree.kind_is(c, "}") } else { tree.kind_is(c, k) };
        if hit {
            return Some(c);
        }
        i = i - 1;
    }
    None
}

/// `next_code` of `ch` from `j`.
fn next_code_from(tree: &CstTree, ch: &Vec<usize>, j: usize) -> (r: Option<usize>)
    requires
        tree.wf(),
        forall|x: int| 0 <= x < ch@.len() ==> #[trigger] ch@[x] < tree.node_count(),
    ensures
        r == next_code(*tree, ch@, j as int),
        r.is_some() ==> r.unwrap() < tree.node_count(),
{
    let mut i = j;
    while i < ch.len()
        invariant
            tree.wf(),
            forall|x: int| 0 <= x < ch@.len() ==> #[trigger] ch@[x] < tree.node_count(),
            j <= i,
            next_code(*tree, ch@, j as int) == next_code(*tree, ch@, i as int),
        decreases ch@.len() - i,
    {
        let c = ch[i];
        if !tree.is_extra(c) && !tree.kind_is(c, "{") && !tree.kind_is(c, "}") {
            return Some(c);
        }
        i = i + 1;
    }
    None
}

/// `has_fields` of `ch`.
fn holds_fields(rule: &EmptyLineSeparator, tree: &CstTree, ch: &Vec<usize>) -> (r: bool)
    requires
        tree.wf(),
        forall|x: int| 0 <= x < ch@.len() ==> #[trigger] ch@[x] < tree.node_count(),
    ensures
        r == has_fields(*tree, ch@),
{
    let mut i: usize = 0;
    while i < ch.len()
        invariant
            tree.wf(),
            forall|x: int| 0 <= x < ch@.len() ==> #[trigger] ch@[x] < tree.node_count(),
            0 <= i <= ch@.len(),
            forall|k: int| 0 <= k < i ==> token_of_kind(tree.kind_of(#[trigger] ch@[k] as int)) != Some(EmptyLineSeparatorToken::VariableDef),
        decreases ch@.len() - i,
    {
        if rule.node_to_token(tree.kind(ch[i])) == Some(EmptyLineSeparatorToken::VariableDef) {
            return true;
        }
        i = i + 1;
    }
    false
}

/// The fix that deletes excess empty lines after `from`, if it is known.
fn delete_excess_from(b: &[u8], from: Option<usize>, to: usize) -> (r: Option<Fix>)
    requires
        from is Some ==> from.unwrap() <= b@.len(),
        to <= b@.len(),
        b@.len() < u32::MAX,
    ensures
        r is Some ==> r.unwrap().applicability == Applicability::Safe,
        match r {
            Some(f) => delete_excess_after(b@, from, to as int) == Some(edit_views(f.edits@)),
            None => delete_excess_after(b@, from, to as int) is None,
        },
{
    match from {
        Some(f) => delete_excess(b, f, to),
        None => None,
    }
}

/// The offsets the scan remembers lie in the text.
pub open spec fn scan_in_text(st: BodyScan, len: int) -> bool {
    &&& (st.prev_code_end_byte is Some ==> st.prev_code_end_byte.unwrap() <= len)
    &&& (st.prev_anything_end_byte is Some ==> st.prev_anything_end_byte.unwrap() <= len)
}

impl EmptyLineSeparator {
    fn body_main_exec(&self, tree: &CstTree, ch: &Vec<usize>, st: BodyScan, i: usize, tok: Option<EmptyLineSeparatorToken>) -> (r: Vec<Diagnostic>)
        requires
            tree.wf(),
            i < ch@.len(),
            forall|x: int| 0 <= x < ch@.len() ==> #[trigger] ch@[x] < tree.node_count(),
            st.prev_code_end_line is Some,
            scan_in_text(st, tree.src_bytes().len() as int),
        ensures
            diag_views(r@) == body_main(*self, *tree, ch@, st, i as int, tok),
    {
        let c = ch[i];
        let pcl = st.prev_code_end_line.unwrap();
        let multi = self.allow_multiple_empty_lines;
        let f2f = st.prev_was_field && tok == Some(EmptyLineSeparatorToken::VariableDef);
        let b = tree.source().as_bytes();
        let start = tree.range(c).start.raw as usize;
        if st.is_first_member {
            if !multi && !st.reported && tok.is_some() && count_empty_lines_before(tree, ch, i, pcl, false) > 1 {
                let t = tok.unwrap();
                let v = TooManyEmptyLines { element: String::from_str(t.to_checkstyle_name()) };
                one_diag(els_diag(v.kind(), start, delete_excess_from(b, st.prev_code_end_byte, start)))
            } else {
                no_diags()
            }
        } else if !has_blank_line_before(tree, ch, i, pcl, false) {
            if f2f && self.allow_no_empty_line_between_fields {
                no_diags()
            } else if tok.is_some() {
                let t = tok.unwrap();
                let v = ShouldBeSeparated { element: String::from_str(t.to_checkstyle_name()) };
                one_diag(els_diag(v.kind(), start, insert_blank(b, start)))
            } else {
                no_diags()
            }
        } else if !multi && !st.reported && tok.is_some() && count_empty_lines_before(tree, ch, i, pcl, false) > 1 {
            let t = tok.unwrap();
            let v = TooManyEmptyLines { element: String::from_str(t.to_checkstyle_name()) };
            one_diag(els_diag(v.kind(), start, delete_excess_from(b, st.prev_code_end_byte, start)))
        } else {
            no_diags()
        }
    }

    fn body_step_exec(&self, tree: &CstTree, ch: &Vec<usize>, chf: bool, st: BodyScan, i: usize) -> (r: (BodyScan, Vec<Diagnostic>))
        requires
            tree.wf(),
            i < ch@.len(),
            forall|x: int| 0 <= x < ch@.len() ==> #[trigger] ch@[x] < tree.node_count(),
            scan_in_text(st, tree.src_bytes().len() as int),
        ensures
            (r.0, diag_views(r.1@)) == body_step(*self, *tree, ch@, chf, st, i as int),
            scan_in_text(r.0, tree.src_bytes().len() as int),
    {
        let c = ch[i];
        let n = ch.len();
        let k = tree.kind(c);
        let b = tree.source().as_bytes();
        let range = tree.range(c);
        let multi = self.allow_multiple_empty_lines;
        let is_comment = str_eq(k, "line_comment") || str_eq(k, "block_comment");
        if str_eq(k, "{") || str_eq(k, "}") {
            (st, no_diags())
        } else if !multi && tree.is_extra(c) && is_comment {
            if st.prev_anything_end_line.is_some() && tree.start_row(c) == st.prev_anything_end_line.unwrap() {
                return (st, no_diags());
            }
            let req = if !self.allow_no_empty_line_between_fields || st.is_first_member || chf {
                false
            } else {
                match next_code_from(tree, ch, i + 1) {
                    Some(nx) => match self.node_to_token(tree.kind(nx)) {
                        Some(t) => has_els_token(&self.tokens, t),
                        None => false,
                    },
                    None => false,
                }
            };
            let report = st.prev_anything_end_line.is_some() && sat_sub(tree.start_row(c), st.prev_anything_end_line.unwrap()) > 1
                && !req;
            let d = if report {
                let opener = if str_eq(k, "line_comment") { "//" } else { "/*" };
                let v = CommentTooManyEmptyLines { comment_start: String::from_str(opener) };
                let start = range.start.raw as usize;
                one_diag(els_diag(v.kind(), start, delete_excess_from(b, st.prev_anything_end_byte, start)))
            } else {
                no_diags()
            };
            let st2 = BodyScan {
                prev_anything_end_line: Some(tree.end_row(c)),
                prev_anything_end_byte: Some(range.end.raw as usize),
                reported: st.reported || report,
                ..st
            };
            (st2, d)
        } else if tree.is_extra(c) {
            (st, no_diags())
        } else {
            let tok = self.node_to_token(k);
            if tok.is_some() && !has_els_token(&self.tokens, tok.unwrap()) {
                return (st, no_diags());
            }
            let mut d = if !multi { check_modifier_comment_spacing(tree, c) } else { no_diags() };
            let main = if st.prev_code_end_line.is_none() { no_diags() } else { self.body_main_exec(tree, ch, st, i, tok) };
            append_diags(&mut d, main);
            let st2 = BodyScan {
                prev_code_end_line: Some(tree.end_row(c)),
                prev_anything_end_line: Some(tree.end_row(c)),
                prev_code_end_byte: Some(range.end.raw as usize),
                prev_anything_end_byte: Some(range.end.raw as usize),
                prev_was_field: tok == Some(EmptyLineSeparatorToken::VariableDef),
                is_first_member: false,
                reported: false,
            };
            (st2, d)
        }
    }

    /// `body_diags` of the type body `node`.
    fn check_body(&self, tree: &CstTree, node: usize) -> (r: Vec<Diagnostic>)
        requires
            tree.wf(),
            node < tree.node_count(),
        ensures
            diag_views(r@) == body_diags(*self, *tree, node as int),
    {
        let ch = members(tree, node);
        let chf = holds_fields(self, tree, &ch);
        let mut st = start_state(tree, node, &ch);
        let mut out = no_diags();
        let mut i: usize = 0;
        proof {
            assert(st.prev_code_end_byte is Some ==> st.prev_code_end_byte.unwrap() <= tree.src_bytes().len()) by {
                let ob2 = tree.first_of_kind(body_members(*tree, node as int), "{"@);
                if ob2 is Some {
                    lemma_first_of_kind_in(*tree, ch@, "{"@);
                    tree.lemma_node(ob2.unwrap() as int);
                }
            }
        }
        while i < ch.len()
            invariant
                tree.wf(),
                forall|x: int| 0 <= x < ch@.len() ==> #[trigger] ch@[x] < tree.node_count(),
                0 <= i <= ch@.len(),
                scan_in_text(st, tree.src_bytes().len() as int),
                (st, diag_views(out@)) == body_fold(*self, *tree, ch@, chf, body_start(*tree, node as int), i as int),
            decreases ch@.len() - i,
        {
            let (st2, d) = self.body_step_exec(tree, &ch, chf, st, i);
            append_diags(&mut out, d);
            st = st2;
            i = i + 1;
        }
        let close = if self.allow_multiple_empty_lines || st.prev_anything_end_line.is_none() {
            no_diags()
        } else {
            match (last_in(tree, &ch, "}", false), last_in(tree, &ch, "", true)) {
                (Some(cl), Some(lc)) => {
                    let e = tree.range(lc).end.raw as usize;
                    let cs = tree.range(cl).start.raw as usize;
                    if sat_sub(tree.start_row(cl), tree.end_row(lc)) > 1 && e > 0 {
                        let b = tree.source().as_bytes();
                        one_diag(els_diag(TooManyEmptyLinesAfter.kind(), e - 1, delete_all(b, e, cs)))
                    } else {
                        no_diags()
                    }
                },
                _ => no_diags(),
            }
        };
        append_diags(&mut out, close);
        out
    }
}

/// The first node of `cs` of kind `k` is one of `cs`.
proof fn lemma_first_of_kind_in(tree: CstTree, cs: Seq<usize>, k: Seq<char>)
    ensures
        tree.first_of_kind(cs, k) is Some ==> cs.contains(tree.first_of_kind(cs, k).unwrap()),
    decreases cs.len(),
{
    if cs.len() > 0 && tree.kind_of(cs[0] as int) != k {
        lemma_first_of_kind_in(tree, cs.drop_first(), k);
        if tree.first_of_kind(cs.drop_first(), k) is Some {
            let x = tree.first_of_kind(cs.drop_first(), k).unwrap();
            let w = choose|w: int| 0 <= w < cs.drop_first().len() && cs.drop_first()[w] == x;
            assert(cs[w + 1] == x);
        }
    } else if cs.len() > 0 {
        assert(cs[0] == cs[0]);
    }
}


/// What the scan of a file remembers between its top-level elements.
#[derive(Clone, Copy, Debug)]
pub struct ProgramScan {
    pub prev_code_end_line: Option<usize>,
    pub prev_code_start_line: Option<usize>,
    pub prev_code_end_byte: Option<usize>,
    pub prev_anything_end_line: Option<usize>,
    pub prev_anything_end_byte: Option<usize>,
    /// The token of the last checked code element.
    pub prev_token: Option<EmptyLineSeparatorToken>,
    /// No code element has been checked yet.
    pub is_first_code_element: bool,
    /// A comment in the current gap was reported.
    pub reported: bool,
    /// A comment follows the package declaration on its last line.
    pub had_trailing_after_package: bool,
}

/// The block comments on row 0 that open the file, before its first element
/// that is no extra: the end row and offset of the last of them.
pub open spec fn header_scan(tree: CstTree, ch: Seq<usize>, n: int) -> (bool, Option<usize>, Option<usize>)
    decreases n,
{
    if n <= 0 || n > ch.len() {
        (false, None, None)
    } else {
        let (stopped, l, b) = header_scan(tree, ch, n - 1);
        let c = ch[n - 1] as int;
        if stopped {
            (stopped, l, b)
        } else if tree.kind_of(c) == "block_comment"@ && tree.start_row_of(c) == 0 {
            (false, Some(tree.end_row_of(c) as usize), Some(tree.end_of(c) as usize))
        } else if !tree.extra_of(c) {
            (true, l, b)
        } else {
            (false, l, b)
        }
    }
}

/// A type declaration token.
pub open spec fn is_type_token(t: EmptyLineSeparatorToken) -> bool {
    t == EmptyLineSeparatorToken::ClassDef || t == EmptyLineSeparatorToken::InterfaceDef || t == EmptyLineSeparatorToken::EnumDef || t == EmptyLineSeparatorToken::RecordDef
}

/// An element of token `t` after one of token `prev` must be separated by an
/// empty line: anything after the package (but an import on the last line of
/// a package declaration that spans lines), a type after imports, a type after a type.
pub open spec fn needs_separation(prev: Option<EmptyLineSeparatorToken>, t: EmptyLineSeparatorToken, spans: bool, same: bool) -> bool {
    if prev == Some(EmptyLineSeparatorToken::PackageDef) {
        !((t == EmptyLineSeparatorToken::Import || t == EmptyLineSeparatorToken::StaticImport) && spans && same)
    } else if (prev == Some(EmptyLineSeparatorToken::Import) || prev == Some(EmptyLineSeparatorToken::StaticImport)) && is_type_token(t) {
        true
    } else {
        prev is Some && is_type_token(prev.unwrap()) && is_type_token(t)
    }
}

/// The token of the top-level element `c`: a static import, or the token of its kind.
pub open spec fn program_token(tree: CstTree, c: int) -> Option<EmptyLineSeparatorToken> {
    if tree.kind_of(c) == "import_declaration"@ && tree.field_child(c, "name"@) is None && tree.kind_child(c, "static"@) is Some {
        Some(EmptyLineSeparatorToken::StaticImport)
    } else {
        token_of_kind(tree.kind_of(c))
    }
}

/// The checks of the first code element after a file header ending on row `he`.
pub open spec fn program_first(rule: EmptyLineSeparator, tree: CstTree, st: ProgramScan, c: int, t: EmptyLineSeparatorToken, he: int, hb: Option<usize>) -> Seq<DiagView> {
    let el = tree.start_row_of(c);
    let sep = if st.prev_anything_end_line is Some && st.prev_anything_end_line.unwrap() > he { st.prev_anything_end_line.unwrap() as int } else { he };
    if !(el > sep + 1) && t == EmptyLineSeparatorToken::PackageDef {
        seq![separated_dv(tree, c, els_token_name(t))]
    } else if !rule.allow_multiple_empty_lines && !st.reported && sat(el - (he + 1)) > 1 {
        seq![too_many_dv(tree, c, t, hb)]
    } else {
        seq![]
    }
}

/// The separation checks of the code element `ch[i]` of token `t` after the
/// previous code element, which ends on row `pcl`.
pub open spec fn program_main(rule: EmptyLineSeparator, tree: CstTree, ch: Seq<usize>, st: ProgramScan, i: int, t: EmptyLineSeparatorToken, pcl: int) -> Seq<DiagView> {
    let c = ch[i] as int;
    let hb = blank_line_before(tree, ch, i, pcl, true);
    let same = tree.start_row_of(c) == pcl;
    let spans = st.prev_code_start_line is Some && st.prev_code_start_line.unwrap() < pcl;
    if needs_separation(st.prev_token, t, spans, same) && !hb {
        seq![separated_dv(tree, c, els_token_name(t))]
    } else if hb && !rule.allow_multiple_empty_lines && st.prev_token is Some && empty_lines_before_program(tree, ch, i, pcl) > 1 {
        seq![too_many_dv(tree, c, t, st.prev_code_end_byte)]
    } else {
        seq![]
    }
}

/// One step of the scan of a file: the top-level element `ch[i]`, given what
/// came before (`st`) and the file header (`hl`, `hb`).
pub open spec fn program_step(rule: EmptyLineSeparator, tree: CstTree, ch: Seq<usize>, hl: Option<usize>, hb: Option<usize>, st: ProgramScan, i: int) -> (ProgramScan, Seq<DiagView>) {
    let c = ch[i] as int;
    let k = tree.kind_of(c);
    let b = tree.src_bytes();
    let multi = rule.allow_multiple_empty_lines;
    if tree.extra_of(c) && comment_kind(tree, c) {
        if st.prev_anything_end_line is Some && tree.start_row_of(c) == st.prev_anything_end_line.unwrap() {
            (ProgramScan {
                had_trailing_after_package: if st.prev_token == Some(EmptyLineSeparatorToken::PackageDef) { true } else { st.had_trailing_after_package },
                prev_anything_end_line: Some(tree.end_row_of(c) as usize),
                ..st
            }, seq![])
        } else {
            let cl = tree.start_row_of(c);
            let skip = st.had_trailing_after_package && k == "block_comment"@;
            let d1 = if st.prev_token == Some(EmptyLineSeparatorToken::PackageDef) && !skip && st.prev_code_end_line is Some && st.prev_anything_end_line
                == st.prev_code_end_line && !(cl > st.prev_code_end_line.unwrap() + 1) {
                seq![separated_dv(tree, c, comment_opener(tree, c))]
            } else {
                seq![]
            };
            let rep = !multi && st.prev_anything_end_line is Some && sat(cl - (st.prev_anything_end_line.unwrap() + 1)) > 1;
            let d2 = if rep {
                seq![els_dv("CommentTooManyEmptyLines"@, "'"@ + comment_opener(tree, c) + "' has more than 1 empty lines before."@,
                    tree.start_of(c), delete_excess_after(b, st.prev_anything_end_byte, tree.start_of(c)))]
            } else {
                seq![]
            };
            (ProgramScan {
                prev_anything_end_line: Some(tree.end_row_of(c) as usize),
                prev_anything_end_byte: Some(tree.end_of(c) as usize),
                had_trailing_after_package: false,
                reported: st.reported || rep,
                ..st
            }, d1 + d2)
        }
    } else if tree.extra_of(c) {
        (st, seq![])
    } else {
        let eff = program_token(tree, c);
        if eff is None || !rule.tokens@.contains(eff.unwrap()) {
            (st, seq![])
        } else {
            let t = eff.unwrap();
            let mods = if !multi { modifier_spacing(tree, c) } else { seq![] };
            let first = if st.is_first_code_element && hl is Some && st.prev_code_end_line == hl {
                program_first(rule, tree, st, c, t, hl.unwrap() as int, hb)
            } else {
                seq![]
            };
            let main = if st.prev_code_end_line is Some {
                program_main(rule, tree, ch, st, i, t, st.prev_code_end_line.unwrap() as int)
            } else {
                seq![]
            };
            (ProgramScan {
                prev_code_end_line: Some(tree.end_row_of(c) as usize),
                prev_code_start_line: Some(tree.start_row_of(c) as usize),
                prev_code_end_byte: Some(tree.end_of(c) as usize),
                prev_anything_end_line: Some(tree.end_row_of(c) as usize),
                prev_anything_end_byte: Some(tree.end_of(c) as usize),
                prev_token: Some(t),
                is_first_code_element: false,
                reported: false,
                had_trailing_after_package: false,
            }, mods + first + main)
        }
    }
}

/// The scan of the first `n` top-level elements.
pub open spec fn program_fold(rule: EmptyLineSeparator, tree: CstTree, ch: Seq<usize>, hl: Option<usize>, hb: Option<usize>, n: int) -> (ProgramScan, Seq<DiagView>)
    decreases n,
{
    if n <= 0 || n > ch.len() {
        (ProgramScan {
            prev_code_end_line: hl,
            prev_code_start_line: None,
            prev_code_end_byte: hb,
            prev_anything_end_line: hl,
            prev_anything_end_byte: hb,
            prev_token: None,
            is_first_code_element: true,
            reported: false,
            had_trailing_after_package: false,
        }, seq![])
    } else {
        let (st, ds) = program_fold(rule, tree, ch, hl, hb, n - 1);
        let (st2, d) = program_step(rule, tree, ch, hl, hb, st, n - 1);
        (st2, ds + d)
    }
}

/// The diagnostics of the top-level elements of the file `node`.
pub open spec fn program_diags(rule: EmptyLineSeparator, tree: CstTree, node: int) -> Seq<DiagView> {
    let ch = tree.children_of(node);
    let h = header_scan(tree, ch, ch.len() as int);
    program_fold(rule, tree, ch, h.1, h.2, ch.len() as int).1
}

/// The offsets the scan remembers lie in the text.
pub open spec fn program_in_text(st: ProgramScan, len: int) -> bool {
    &&& (st.prev_code_end_byte is Some ==> st.prev_code_end_byte.unwrap() <= len)
    &&& (st.prev_anything_end_byte is Some ==> st.prev_anything_end_byte.unwrap() <= len)
}

impl EmptyLineSeparator {
    fn program_step_exec(&self, tree: &CstTree, ch: &Vec<usize>, hl: Option<usize>, hb: Option<usize>, st: ProgramScan, i: usize) -> (r: (ProgramScan, Vec<Diagnostic>))
        requires
            tree.wf(),
            i < ch@.len(),
            forall|x: int| 0 <= x < ch@.len() ==> #[trigger] ch@[x] < tree.node_count(),
            program_in_text(st, tree.src_bytes().len() as int),
            hb is Some ==> hb.unwrap() <= tree.src_bytes().len(),
        ensures
            (r.0, diag_views(r.1@)) == program_step(*self, *tree, ch@, hl, hb, st, i as int),
            program_in_text(r.0, tree.src_bytes().len() as int),
    {
        let c = ch[i];
        let k = tree.kind(c);
        let b = tree.source().as_bytes();
        let range = tree.range(c);
        let start = range.start.raw as usize;
        let multi = self.allow_multiple_empty_lines;
        let is_comment = str_eq(k, "line_comment") || str_eq(k, "block_comment");
        if tree.is_extra(c) && is_comment {
            if st.prev_anything_end_line.is_some() && tree.start_row(c) == st.prev_anything_end_line.unwrap() {
                let st2 = ProgramScan {
                    had_trailing_after_package: if st.prev_token == Some(EmptyLineSeparatorToken::PackageDef) { true } else { st.had_trailing_after_package },
                    prev_anything_end_line: Some(tree.end_row(c)),
                    ..st
                };
                return (st2, no_diags());
            }
            let cl = tree.start_row(c);
            let opener = if str_eq(k, "line_comment") { "//" } else { "/*" };
            let skip = st.had_trailing_after_package && str_eq(k, "block_comment");
            let mut d = if st.prev_token == Some(EmptyLineSeparatorToken::PackageDef) && !skip && st.prev_code_end_line.is_some()
                && st.prev_anything_end_line == st.prev_code_end_line && !(cl > st.prev_code_end_line.unwrap() && cl - st.prev_code_end_line.unwrap() > 1) {
                let v = ShouldBeSeparated { element: String::from_str(opener) };
                one_diag(els_diag(v.kind(), start, insert_blank(b, start)))
            } else {
                no_diags()
            };
            let rep = !multi && st.prev_anything_end_line.is_some() && sat_sub(cl, st.prev_anything_end_line.unwrap()) > 1;
            let d2 = if rep {
                let v = CommentTooManyEmptyLines { comment_start: String::from_str(opener) };
                one_diag(els_diag(v.kind(), start, delete_excess_from(b, st.prev_anything_end_byte, start)))
            } else {
                no_diags()
            };
            append_diags(&mut d, d2);
            let st2 = ProgramScan {
                prev_anything_end_line: Some(tree.end_row(c)),
                prev_anything_end_byte: Some(range.end.raw as usize),
                had_trailing_after_package: false,
                reported: st.reported || rep,
                ..st
            };
            (st2, d)
        } else if tree.is_extra(c) {
            (st, no_diags())
        } else {
            let is_static = str_eq(k, "import_declaration") && tree.child_by_field_name(c, "name").is_none() && tree.find_child(
                c,
                "static",
            ).is_some();
            let eff = if is_static { Some(EmptyLineSeparatorToken::StaticImport) } else { self.node_to_token(k) };
            if eff.is_none() || !has_els_token(&self.tokens, eff.unwrap()) {
                return (st, no_diags());
            }
            let t = eff.unwrap();
            let mut d = if !multi { check_modifier_comment_spacing(tree, c) } else { no_diags() };
            let first = if st.is_first_code_element && hl.is_some() && st.prev_code_end_line == hl {
                let he = hl.unwrap();
                let el = tree.start_row(c);
                let sep = if st.prev_anything_end_line.is_some() && st.prev_anything_end_line.unwrap() > he {
                    st.prev_anything_end_line.unwrap()
                } else {
                    he
                };
                if !(el > sep && el - sep > 1) && t == EmptyLineSeparatorToken::PackageDef {
                    let v = ShouldBeSeparated { element: String::from_str(t.to_checkstyle_name()) };
                    one_diag(els_diag(v.kind(), start, insert_blank(b, start)))
                } else if !multi && !st.reported && sat_sub(el, he) > 1 {
                    let v = TooManyEmptyLines { element: String::from_str(t.to_checkstyle_name()) };
                    one_diag(els_diag(v.kind(), start, delete_excess_from(b, hb, start)))
                } else {
                    no_diags()
                }
            } else {
                no_diags()
            };
            append_diags(&mut d, first);
            let main = match st.prev_code_end_line {
                Some(pcl) => {
                    let hbl = has_blank_line_before(tree, ch, i, pcl, true);
                    let same = tree.start_row(c) == pcl;
                    let spans = st.prev_code_start_line.is_some() && st.prev_code_start_line.unwrap() < pcl;
                    if needs_separation_exec(st.prev_token, t, spans, same) && !hbl {
                        let v = ShouldBeSeparated { element: String::from_str(t.to_checkstyle_name()) };
                        one_diag(els_diag(v.kind(), start, insert_blank(b, start)))
                    } else if hbl && !multi && st.prev_token.is_some() && count_empty_lines_before(tree, ch, i, pcl, true) > 1 {
                        let v = TooManyEmptyLines { element: String::from_str(t.to_checkstyle_name()) };
                        one_diag(els_diag(v.kind(), start, delete_excess_from(b, st.prev_code_end_byte, start)))
                    } else {
                        no_diags()
                    }
                },
                None => no_diags(),
            };
            append_diags(&mut d, main);
            let st2 = ProgramScan {
                prev_code_end_line: Some(tree.end_row(c)),
                prev_code_start_line: Some(tree.start_row(c)),
                prev_code_end_byte: Some(range.end.raw as usize),
                prev_anything_end_line: Some(tree.end_row(c)),
                prev_anything_end_byte: Some(range.end.raw as usize),
                prev_token: Some(t),
                is_first_code_element: false,
                reported: false,
                had_trailing_after_package: false,
            };
            (st2, d)
        }
    }

    /// `program_diags` of the file `node`.
    fn check_program(&self, tree: &CstTree, node: usize) -> (r: Vec<Diagnostic>)
        requires
            tree.wf(),
            node < tree.node_count(),
        ensures
            diag_views(r@) == program_diags(*self, *tree, node as int),
    {
        let cs = tree.children(node);
        let mut ch: Vec<usize> = Vec::new();
        let mut j: usize = 0;
        while j < cs.len()
            invariant
                tree.wf(),
                forall|x: int| 0 <= x < cs@.len() ==> #[trigger] cs@[x] < tree.node_count(),
                0 <= j <= cs@.len(),
                ch@ == cs@.subrange(0, j as int),
            decreases cs@.len() - j,
        {
            ch.push(cs[j]);
            proof {
                assert(ch@ =~= cs@.subrange(0, j + 1));
            }
            j = j + 1;
        }
        proof {
            assert(cs@.subrange(0, cs@.len() as int) =~= cs@);
        }
        let mut stopped = false;
        let mut hl: Option<usize> = None;
        let mut hb: Option<usize> = None;
        let mut i: usize = 0;
        while i < ch.len()
            invariant
                tree.wf(),
                ch@ == tree.children_of(node as int),
                forall|x: int| 0 <= x < ch@.len() ==> #[trigger] ch@[x] < tree.node_count(),
                0 <= i <= ch@.len(),
                (stopped, hl, hb) == header_scan(*tree, ch@, i as int),
                hb is Some ==> hb.unwrap() <= tree.src_bytes().len(),
            decreases ch@.len() - i,
        {
            let c = ch[i];
            if stopped {
            } else if tree.kind_is(c, "block_comment") && tree.start_row(c) == 0 {
                hl = Some(tree.end_row(c));
                hb = Some(tree.range(c).end.raw as usize);
            } else if !tree.is_extra(c) {
                stopped = true;
            }
            i = i + 1;
        }
        let mut st = ProgramScan {
            prev_code_end_line: hl,
            prev_code_start_line: None,
            prev_code_end_byte: hb,
            prev_anything_end_line: hl,
            prev_anything_end_byte: hb,
            prev_token: None,
            is_first_code_element: true,
            reported: false,
            had_trailing_after_package: false,
        };
        let mut out = no_diags();
        let mut i: usize = 0;
        while i < ch.len()
            invariant
                tree.wf(),
                ch@ == tree.children_of(node as int),
                forall|x: int| 0 <= x < ch@.len() ==> #[trigger] ch@[x] < tree.node_count(),
                0 <= i <= ch@.len(),
                hb is Some ==> hb.unwrap() <= tree.src_bytes().len(),
                program_in_text(st, tree.src_bytes().len() as int),
                (hl, hb) == (header_scan(*tree, ch@, ch@.len() as int).1, header_scan(*tree, ch@, ch@.len() as int).2),
                (st, diag_views(out@)) == program_fold(*self, *tree, ch@, hl, hb, i as int),
            decreases ch@.len() - i,
        {
            let (st2, d) = self.program_step_exec(tree, &ch, hl, hb, st, i);
            append_diags(&mut out, d);
            st = st2;
            i = i + 1;
        }
        out
    }
}

/// `needs_separation`.
fn needs_separation_exec(prev: Option<EmptyLineSeparatorToken>, t: EmptyLineSeparatorToken, spans: bool, same: bool) -> (r: bool)
    ensures
        r == needs_separation(prev, t, spans, same),
{
    let is_type = t == EmptyLineSeparatorToken::ClassDef || t == EmptyLineSeparatorToken::InterfaceDef || t == EmptyLineSeparatorToken::EnumDef || t == EmptyLineSeparatorToken::RecordDef;
    match prev {
        Some(p) => {
            if p == EmptyLineSeparatorToken::PackageDef {
                !((t == EmptyLineSeparatorToken::Import || t == EmptyLineSeparatorToken::StaticImport) && spans && same)
            } else if (p == EmptyLineSeparatorToken::Import || p == EmptyLineSeparatorToken::StaticImport) && is_type {
                true
            } else {
                (p == EmptyLineSeparatorToken::ClassDef || p == EmptyLineSeparatorToken::InterfaceDef || p == EmptyLineSeparatorToken::EnumDef || p == EmptyLineSeparatorToken::RecordDef) && is_type
            }
        },
        None => false,
    }
}


/// Type bodies and array initializers: regions whose lines the block check
/// counts as content and does not look into.
pub open spec fn is_region(tree: CstTree, n: int) -> bool {
    let k = tree.kind_of(n);
    k == "class_body"@ || k == "interface_body"@ || k == "enum_body"@ || k == "annotation_type_body"@ || k == "array_initializer"@
}

/// A comment (or another extra).
pub open spec fn is_cmt(tree: CstTree, n: int) -> bool {
    comment_kind(tree, n) || tree.extra_of(n)
}

/// A brace.
pub open spec fn is_brace(tree: CstTree, n: int) -> bool {
    tree.kind_of(n) == "{"@ || tree.kind_of(n) == "}"@
}

/// Node `n` has a child that is no extra.
pub open spec fn has_code_child(tree: CstTree, n: int) -> bool {
    exists|k: int| 0 <= k < tree.children_of(n).len() && !tree.extra_of(#[trigger] tree.children_of(n)[k] as int)
}

/// Node `n` marks the rows it covers: a leaf or a comment, outside regions.
pub open spec fn marking(tree: CstTree, n: int) -> bool {
    !is_region(tree, n) && (!has_code_child(tree, n) || is_cmt(tree, n))
}

/// Node `n` lies below a child of `blk` with no region between.
pub open spec fn visited(tree: CstTree, blk: int, n: int) -> bool
    decreases n,
{
    let p = tree.parent_of(n);
    if n <= 0 || p is None || p.unwrap() >= n {
        false
    } else if p.unwrap() == blk {
        true
    } else {
        !is_region(tree, p.unwrap() as int) && visited(tree, blk, p.unwrap() as int)
    }
}

/// What node `n` says of row `r`: it holds content (0), a comment (1), code
/// (2), code other than a brace (3), a brace starting there (4), or the row is
/// strictly inside a region (5).
pub open spec fn node_marks(tree: CstTree, blk: int, n: int, r: int, which: int) -> bool {
    let rows = tree.start_row_of(n) <= r <= tree.end_row_of(n);
    visited(tree, blk, n) && if which == 0 {
        (is_region(tree, n) || marking(tree, n)) && rows
    } else if which == 1 {
        marking(tree, n) && is_cmt(tree, n) && rows
    } else if which == 2 {
        (is_region(tree, n) || (marking(tree, n) && !is_cmt(tree, n))) && rows
    } else if which == 3 {
        marking(tree, n) && !is_cmt(tree, n) && !is_brace(tree, n) && rows
    } else if which == 4 {
        marking(tree, n) && !is_cmt(tree, n) && is_brace(tree, n) && tree.start_row_of(n) == r
    } else {
        is_region(tree, n) && tree.start_row_of(n) < r < tree.end_row_of(n)
    }
}

/// Some node before `j` says `which` of row `r`.
pub open spec fn marked_upto(tree: CstTree, blk: int, r: int, which: int, j: int) -> bool {
    exists|n: int| 0 <= n < j && #[trigger] node_marks(tree, blk, n, r, which)
}

/// Row `r` of the block `blk` has content: its first or last row, or a row some node marks.
pub open spec fn content_row(tree: CstTree, blk: int, r: int) -> bool {
    r == tree.start_row_of(blk) || r == tree.end_row_of(blk) || marked_upto(tree, blk, r, 0, tree.node_count() as int)
}

/// Row `r` holds only braces of code (or is the first or last row), and no other code.
pub open spec fn brace_only_row(tree: CstTree, blk: int, r: int) -> bool {
    (r == tree.start_row_of(blk) || r == tree.end_row_of(blk) || marked_upto(tree, blk, r, 4, tree.node_count() as int))
        && !marked_upto(tree, blk, r, 3, tree.node_count() as int)
}

/// The largest end offset of a node under `blk` (or `blk`) among `0..j` that ends on row `line`; at least the start of `blk`.
pub open spec fn line_end_byte(tree: CstTree, blk: int, line: int, j: int) -> int
    decreases j,
{
    if j <= 0 {
        tree.start_of(blk)
    } else {
        let a = line_end_byte(tree, blk, line, j - 1);
        let n = j - 1;
        if crate::rules::no_whitespace_after::is_desc(tree, n, blk) && tree.end_row_of(n) == line && tree.end_of(n) > a {
            tree.end_of(n)
        } else {
            a
        }
    }
}

/// The smallest start offset of a node under `blk` (or `blk`) among `0..j` that starts on row `line`; at most the end of `blk`.
pub open spec fn line_start_byte(tree: CstTree, blk: int, line: int, j: int) -> int
    decreases j,
{
    if j <= 0 {
        tree.end_of(blk)
    } else {
        let a = line_start_byte(tree, blk, line, j - 1);
        let n = j - 1;
        if crate::rules::no_whitespace_after::is_desc(tree, n, blk) && tree.start_row_of(n) == line && tree.start_of(n) < a {
            tree.start_of(n)
        } else {
            a
        }
    }
}

/// The first row from `l` to the last row of `blk` that has content (the last row if none).
pub open spec fn next_content_row(tree: CstTree, blk: int, l: int) -> int
    decreases tree.end_row_of(blk) - l,
{
    if l >= tree.end_row_of(blk) {
        tree.end_row_of(blk)
    } else if content_row(tree, blk, l) {
        l
    } else {
        next_content_row(tree, blk, l + 1)
    }
}

/// What the scan of the rows of a block remembers.
#[derive(Clone, Copy, Debug)]
pub struct LineScan {
    /// Empty rows in a row so far.
    pub consecutive: usize,
    pub last_content: usize,
    pub last_code: usize,
    /// The current run of empty rows was reported.
    pub reported: bool,
    /// The next code row is reported too (array initializers).
    pub need_report: bool,
    /// A comment came after the last code row.
    pub had_comment: bool,
    /// The last code row held only braces.
    pub last_code_is_close_brace: bool,
}

/// One step of the scan of the rows of `blk`: row `line`.
pub open spec fn line_step(tree: CstTree, blk: int, st: LineScan, line: int) -> (LineScan, Seq<DiagView>) {
    let n = tree.node_count() as int;
    let sl = tree.start_row_of(blk);
    let msg = "There is more than 1 empty line after this line."@;
    if marked_upto(tree, blk, line, 5, n) {
        (LineScan { consecutive: 0, reported: false, need_report: false, had_comment: false, ..st }, seq![])
    } else if !content_row(tree, blk, line) {
        let cons = st.consecutive + 1;
        if cons > 1 && !st.reported {
            let rl = if marked_upto(tree, blk, st.last_content as int, 1, n) && st.last_code + 1 == st.last_content
                && st.last_code != sl && !st.last_code_is_close_brace {
                st.last_code as int
            } else {
                st.last_content as int
            };
            let bo = line_end_byte(tree, blk, rl, n);
            let ncb = line_start_byte(tree, blk, next_content_row(tree, blk, line + 1), n);
            let d = seq![els_dv("TooManyEmptyLinesInside"@, msg, bo, delete_excess_fix(tree.src_bytes(), bo, ncb))];
            let need = if tree.kind_of(blk) == "array_initializer"@ && !st.had_comment { true } else { st.need_report };
            (LineScan { consecutive: cons as usize, reported: true, need_report: need, ..st }, d)
        } else {
            (LineScan { consecutive: cons as usize, ..st }, seq![])
        }
    } else {
        let is_code = marked_upto(tree, blk, line, 2, n);
        let is_cm = marked_upto(tree, blk, line, 1, n);
        let d = if st.need_report && is_code {
            seq![els_dv("TooManyEmptyLinesInside"@, msg, line_start_byte(tree, blk, line, n), None)]
        } else {
            seq![]
        };
        let had = if is_cm { true } else { st.had_comment };
        (LineScan {
            consecutive: 0,
            last_content: line as usize,
            last_code: if is_code { line as usize } else { st.last_code },
            last_code_is_close_brace: if is_code { brace_only_row(tree, blk, line) } else { st.last_code_is_close_brace },
            had_comment: if is_code { false } else { had },
            reported: false,
            need_report: false,
        }, d)
    }
}

/// The scan of the first `k` rows after the first row of `blk`.
pub open spec fn line_fold(tree: CstTree, blk: int, k: int) -> (LineScan, Seq<DiagView>)
    decreases k,
{
    let sl = tree.start_row_of(blk);
    if k <= 0 {
        (LineScan {
            consecutive: 0,
            last_content: sl as usize,
            last_code: sl as usize,
            reported: false,
            need_report: false,
            had_comment: false,
            last_code_is_close_brace: true,
        }, seq![])
    } else {
        let (st, ds) = line_fold(tree, blk, k - 1);
        let (st2, d) = line_step(tree, blk, st, sl + k);
        (st2, ds + d)
    }
}

/// Runs of several empty rows inside a block, constructor body or array initializer.
pub open spec fn block_check(tree: CstTree, blk: int) -> Seq<DiagView> {
    let k = tree.kind_of(blk);
    let sl = tree.start_row_of(blk);
    let el = tree.end_row_of(blk);
    if (k != "block"@ && k != "constructor_body"@ && k != "array_initializer"@) || el <= sl + 1 {
        seq![]
    } else {
        line_fold(tree, blk, el - sl - 1).1
    }
}

/// The block checks of the array initializers among nodes `0..j` under `node` (or `node`), in order.
pub open spec fn arrays_fold(tree: CstTree, node: int, j: int) -> Seq<DiagView>
    decreases j,
{
    if j <= 0 {
        seq![]
    } else {
        let n = j - 1;
        arrays_fold(tree, node, j - 1) + if crate::rules::no_whitespace_after::is_desc(tree, n, node) && tree.kind_of(n)
            == "array_initializer"@ {
            block_check(tree, n)
        } else {
            seq![]
        }
    }
}

/// The check of a member's body: the body itself, then the array initializers in it.
pub open spec fn body_and_arrays(tree: CstTree, b: Option<usize>) -> Seq<DiagView> {
    if b is Some {
        block_check(tree, b.unwrap() as int) + arrays_fold(tree, b.unwrap() as int, tree.node_count() as int)
    } else {
        seq![]
    }
}

/// The checks inside the members `ch[..n]` of a type body.
pub open spec fn inside_fold(rule: EmptyLineSeparator, tree: CstTree, ch: Seq<usize>, n: int) -> Seq<DiagView>
    decreases n,
{
    if n <= 0 || n > ch.len() {
        seq![]
    } else {
        let c = ch[n - 1] as int;
        let k = tree.kind_of(c);
        let t = rule.tokens@;
        inside_fold(rule, tree, ch, n - 1) + if k == "method_declaration"@ && t.contains(EmptyLineSeparatorToken::MethodDef) {
            body_and_arrays(tree, tree.field_child(c, "body"@))
        } else if k == "constructor_declaration"@ && t.contains(EmptyLineSeparatorToken::CtorDef) {
            body_and_arrays(tree, tree.field_child(c, "body"@))
        } else if k == "static_initializer"@ && t.contains(EmptyLineSeparatorToken::StaticInit) {
            body_and_arrays(tree, tree.kind_child(c, "block"@))
        } else if k == "block"@ && t.contains(EmptyLineSeparatorToken::InstanceInit) {
            body_and_arrays(tree, Some(c as usize))
        } else if k == "compact_constructor_declaration"@ && t.contains(EmptyLineSeparatorToken::CompactCtorDef) {
            body_and_arrays(tree, tree.kind_child(c, "block"@))
        } else {
            seq![]
        }
    }
}

/// The diagnostics of EmptyLineSeparator at node `node`.
pub open spec fn spec_check(rule: EmptyLineSeparator, tree: CstTree, node: int) -> Seq<DiagView> {
    let k = tree.kind_of(node);
    if k == "program"@ {
        program_diags(rule, tree, node)
    } else if k == "class_body"@ || k == "interface_body"@ || k == "enum_body"@ || k == "annotation_type_body"@ {
        let ch = body_members(tree, node);
        body_diags(rule, tree, node) + if !rule.allow_multiple_empty_lines_inside_class_members {
            inside_fold(rule, tree, ch, ch.len() as int)
        } else {
            seq![]
        }
    } else {
        seq![]
    }
}


/// A node of the block either says `which` of row `r` or it does not: adding
/// node `j` to the nodes looked at adds exactly what it says.
proof fn lemma_marked_step(tree: CstTree, blk: int, r: int, which: int, j: int)
    requires
        j >= 0,
    ensures
        marked_upto(tree, blk, r, which, j + 1) == (marked_upto(tree, blk, r, which, j) || node_marks(tree, blk, j, r, which)),
{
    if marked_upto(tree, blk, r, which, j + 1) {
        let n = choose|n: int| 0 <= n < j + 1 && #[trigger] node_marks(tree, blk, n, r, which);
        if n < j {
            assert(marked_upto(tree, blk, r, which, j));
        }
    }
    if marked_upto(tree, blk, r, which, j) {
        let n = choose|n: int| 0 <= n < j && #[trigger] node_marks(tree, blk, n, r, which);
        assert(0 <= n < j + 1 && node_marks(tree, blk, n, r, which));
    }
    if node_marks(tree, blk, j, r, which) {
        assert(0 <= j < j + 1 && node_marks(tree, blk, j, r, which));
    }
}

/// `visited` of node `n`.
fn is_visited(tree: &CstTree, blk: usize, n: usize) -> (r: bool)
    requires
        tree.wf(),
        n < tree.node_count(),
    ensures
        r == visited(*tree, blk as int, n as int),
{
    let mut cur = n;
    loop
        invariant
            tree.wf(),
            cur < tree.node_count(),
            visited(*tree, blk as int, n as int) == visited(*tree, blk as int, cur as int),
        decreases cur,
    {
        let p = match tree.parent(cur) {
            Some(p) => p,
            None => return false,
        };
        if p == blk {
            return true;
        }
        let k = tree.kind(p);
        if str_eq(k, "class_body") || str_eq(k, "interface_body") || str_eq(k, "enum_body") || str_eq(k, "annotation_type_body")
            || str_eq(k, "array_initializer") {
            return false;
        }
        cur = p;
    }
}

/// `has_code_child` of node `n`.
fn code_child_exists(tree: &CstTree, n: usize) -> (r: bool)
    requires
        tree.wf(),
        n < tree.node_count(),
    ensures
        r == has_code_child(*tree, n as int),
{
    let cs = tree.children(n);
    let mut i: usize = 0;
    while i < cs.len()
        invariant
            tree.wf(),
            cs@ == tree.children_of(n as int),
            forall|x: int| 0 <= x < cs@.len() ==> #[trigger] cs@[x] < tree.node_count(),
            0 <= i <= cs@.len(),
            forall|k: int| 0 <= k < i ==> tree.extra_of(#[trigger] cs@[k] as int),
        decreases cs@.len() - i,
    {
        if !tree.is_extra(cs[i]) {
            proof {
                assert(tree.children_of(n as int)[i as int] == cs@[i as int]);
            }
            return true;
        }
        i = i + 1;
    }
    false
}

/// What node `j` is to the block check of `blk`: visited, a region, a
/// marking node, a comment, a brace.
fn node_flags(tree: &CstTree, blk: usize, j: usize) -> (r: (bool, bool, bool, bool, bool))
    requires
        tree.wf(),
        j < tree.node_count(),
    ensures
        r.0 == visited(*tree, blk as int, j as int),
        r.1 == is_region(*tree, j as int),
        r.2 == marking(*tree, j as int),
        r.3 == is_cmt(*tree, j as int),
        r.4 == is_brace(*tree, j as int),
{
    let vis = is_visited(tree, blk, j);
    let k = tree.kind(j);
    let region = str_eq(k, "class_body") || str_eq(k, "interface_body") || str_eq(k, "enum_body") || str_eq(k, "annotation_type_body")
        || str_eq(k, "array_initializer");
    let cmt = str_eq(k, "line_comment") || str_eq(k, "block_comment") || tree.is_extra(j);
    let brace = str_eq(k, "{") || str_eq(k, "}");
    let marking_node = !region && (!code_child_exists(tree, j) || cmt);
    (vis, region, marking_node, cmt, brace)
}

/// `node_marks` of node `j`.
fn node_marks_exec(tree: &CstTree, blk: usize, j: usize, r: usize, which: usize) -> (out: bool)
    requires
        tree.wf(),
        j < tree.node_count(),
    ensures
        out == node_marks(*tree, blk as int, j as int, r as int, which as int),
{
    let (vis, region, marking_node, cmt, brace) = node_flags(tree, blk, j);
    let s = tree.start_row(j);
    let e = tree.end_row(j);
    let rows = s <= r && r <= e;
    vis && if which == 0 {
        (region || marking_node) && rows
    } else if which == 1 {
        marking_node && cmt && rows
    } else if which == 2 {
        (region || (marking_node && !cmt)) && rows
    } else if which == 3 {
        marking_node && !cmt && !brace && rows
    } else if which == 4 {
        marking_node && !cmt && brace && s == r
    } else {
        region && s < r && r < e
    }
}

/// `marked_upto` over all nodes, for one row.
fn marked_row(tree: &CstTree, blk: usize, r: usize, which: usize) -> (out: bool)
    requires
        tree.wf(),
    ensures
        out == marked_upto(*tree, blk as int, r as int, which as int, tree.node_count() as int),
{
    let n = tree.len();
    let mut res = false;
    let mut j: usize = 0;
    while j < n
        invariant
            tree.wf(),
            n == tree.node_count(),
            0 <= j <= n,
            res == marked_upto(*tree, blk as int, r as int, which as int, j as int),
        decreases n - j,
    {
        let m = node_marks_exec(tree, blk, j, r, which);
        proof {
            lemma_marked_step(*tree, blk as int, r as int, which as int, j as int);
        }
        res = res || m;
        j = j + 1;
    }
    res
}

/// The inner rows of a block as the block check sees them: row `base + i` is entry `i`.
pub struct RowMarks {
    pub base: usize,
    pub len: usize,
    /// Entry `w` says what some node says of the row (see `node_marks`).
    pub marks: Vec<Vec<bool>>,
}

impl RowMarks {
    pub open spec fn valid(&self, tree: CstTree, blk: int) -> bool {
        &&& self.base == tree.start_row_of(blk) + 1
        &&& self.base + self.len == tree.end_row_of(blk)
        &&& self.marks@.len() == 6
        &&& forall|w: int| 0 <= w < 6 ==> (#[trigger] self.marks@[w])@.len() == self.len
        &&& forall|w: int, i: int| 0 <= w < 6 && 0 <= i < self.len ==> #[trigger] self.marks@[w]@[i] == marked_upto(
            tree,
            blk,
            self.base + i,
            w,
            tree.node_count() as int,
        )
    }
}

/// `marked_upto` over all nodes, for row `r` of the block.
fn mark_of(tree: &CstTree, blk: usize, rm: &RowMarks, w: usize, r: usize) -> (out: bool)
    requires
        tree.wf(),
        rm.valid(*tree, blk as int),
        w < 6,
    ensures
        out == marked_upto(*tree, blk as int, r as int, w as int, tree.node_count() as int),
{
    if r >= rm.base && r - rm.base < rm.len {
        let v = &rm.marks[w];
        proof {
            assert(rm.marks@[w as int]@.len() == rm.len);
        }
        v[r - rm.base]
    } else {
        marked_row(tree, blk, r, w)
    }
}

/// Sets the entries of `v` for rows `lo..=hi` (row `base` is entry 0).
fn mark_rows(v: &mut Vec<bool>, base: usize, lo: usize, hi: usize)
    ensures
        final(v)@.len() == old(v)@.len(),
        forall|i: int| 0 <= i < old(v)@.len() ==> #[trigger] final(v)@[i] == (old(v)@[i] || (lo <= base + i <= hi)),
{
    let n = v.len();
    let mut i: usize = 0;
    while i < n
        invariant
            n == old(v)@.len(),
            v@.len() == n,
            0 <= i <= n,
            forall|x: int| 0 <= x < i ==> #[trigger] v@[x] == (old(v)@[x] || (lo <= base + x <= hi)),
            forall|x: int| i <= x < n ==> #[trigger] v@[x] == old(v)@[x],
        decreases n - i,
    {
        if base as u128 + i as u128 >= lo as u128 && base as u128 + i as u128 <= hi as u128 {
            v.set(i, true);
        }
        i = i + 1;
    }
}

/// A row of `len` entries, all false.
fn no_marks(len: usize) -> (r: Vec<bool>)
    ensures
        r@.len() == len,
        forall|x: int| 0 <= x < len ==> !#[trigger] r@[x],
{
    let mut m: Vec<bool> = Vec::new();
    let mut i: usize = 0;
    while i < len
        invariant
            0 <= i <= len,
            m@.len() == i,
            forall|x: int| 0 <= x < i ==> !#[trigger] m@[x],
        decreases len - i,
    {
        m.push(false);
        i = i + 1;
    }
    m
}

/// The row marks of the block `blk`, which has inner rows.
fn row_marks(tree: &CstTree, blk: usize) -> (r: RowMarks)
    requires
        tree.wf(),
        blk < tree.node_count(),
        tree.start_row_of(blk as int) + 1 < tree.end_row_of(blk as int),
    ensures
        r.valid(*tree, blk as int),
{
    let el = tree.end_row(blk);
    let base = tree.start_row(blk) + 1;
    let len = el - base;
    let mut m0 = no_marks(len);
    let mut m1 = no_marks(len);
    let mut m2 = no_marks(len);
    let mut m3 = no_marks(len);
    let mut m4 = no_marks(len);
    let mut m5 = no_marks(len);
    let n = tree.len();
    let mut j: usize = 0;
    while j < n
        invariant
            tree.wf(),
            n == tree.node_count(),
            base == tree.start_row_of(blk as int) + 1,
            base + len == tree.end_row_of(blk as int),
            0 <= j <= n,
            m0@.len() == len && m1@.len() == len && m2@.len() == len && m3@.len() == len && m4@.len() == len && m5@.len() == len,
            forall|x: int| 0 <= x < len ==> #[trigger] m0@[x] == marked_upto(*tree, blk as int, base + x, 0, j as int),
            forall|x: int| 0 <= x < len ==> #[trigger] m1@[x] == marked_upto(*tree, blk as int, base + x, 1, j as int),
            forall|x: int| 0 <= x < len ==> #[trigger] m2@[x] == marked_upto(*tree, blk as int, base + x, 2, j as int),
            forall|x: int| 0 <= x < len ==> #[trigger] m3@[x] == marked_upto(*tree, blk as int, base + x, 3, j as int),
            forall|x: int| 0 <= x < len ==> #[trigger] m4@[x] == marked_upto(*tree, blk as int, base + x, 4, j as int),
            forall|x: int| 0 <= x < len ==> #[trigger] m5@[x] == marked_upto(*tree, blk as int, base + x, 5, j as int),
        decreases n - j,
    {
        let (vis, region, marking_node, cmt, brace) = node_flags(tree, blk, j);
        let s = tree.start_row(j);
        let e = tree.end_row(j);
        if vis && (region || marking_node) {
            mark_rows(&mut m0, base, s, e);
        }
        if vis && marking_node && cmt {
            mark_rows(&mut m1, base, s, e);
        }
        if vis && (region || (marking_node && !cmt)) {
            mark_rows(&mut m2, base, s, e);
        }
        if vis && marking_node && !cmt && !brace {
            mark_rows(&mut m3, base, s, e);
        }
        if vis && marking_node && !cmt && brace {
            mark_rows(&mut m4, base, s, s);
        }
        if vis && region && e >= 1 && s < e - 1 {
            mark_rows(&mut m5, base, s + 1, e - 1);
        }
        proof {
            assert forall|x: int| 0 <= x < len implies #[trigger] m0@[x] == marked_upto(*tree, blk as int, base + x, 0, j + 1) by {
                lemma_marked_step(*tree, blk as int, base + x, 0, j as int);
            }
            assert forall|x: int| 0 <= x < len implies #[trigger] m1@[x] == marked_upto(*tree, blk as int, base + x, 1, j + 1) by {
                lemma_marked_step(*tree, blk as int, base + x, 1, j as int);
            }
            assert forall|x: int| 0 <= x < len implies #[trigger] m2@[x] == marked_upto(*tree, blk as int, base + x, 2, j + 1) by {
                lemma_marked_step(*tree, blk as int, base + x, 2, j as int);
            }
            assert forall|x: int| 0 <= x < len implies #[trigger] m3@[x] == marked_upto(*tree, blk as int, base + x, 3, j + 1) by {
                lemma_marked_step(*tree, blk as int, base + x, 3, j as int);
            }
            assert forall|x: int| 0 <= x < len implies #[trigger] m4@[x] == marked_upto(*tree, blk as int, base + x, 4, j + 1) by {
                lemma_marked_step(*tree, blk as int, base + x, 4, j as int);
            }
            assert forall|x: int| 0 <= x < len implies #[trigger] m5@[x] == marked_upto(*tree, blk as int, base + x, 5, j + 1) by {
                lemma_marked_step(*tree, blk as int, base + x, 5, j as int);
            }
        }
        j = j + 1;
    }
    let mut marks: Vec<Vec<bool>> = Vec::new();
    marks.push(m0);
    marks.push(m1);
    marks.push(m2);
    marks.push(m3);
    marks.push(m4);
    marks.push(m5);
    let r = RowMarks { base, len, marks };
    proof {
        assert forall|w: int| 0 <= w < 6 implies (#[trigger] r.marks@[w])@.len() == r.len by {
        }
        assert forall|w: int, i: int| 0 <= w < 6 && 0 <= i < r.len implies #[trigger] r.marks@[w]@[i] == marked_upto(
            *tree,
            blk as int,
            r.base + i,
            w,
            tree.node_count() as int,
        ) by {
            if w == 0 {
                assert(r.marks@[w]@[i] == m0@[i]);
            } else if w == 1 {
                assert(r.marks@[w]@[i] == m1@[i]);
            } else if w == 2 {
                assert(r.marks@[w]@[i] == m2@[i]);
            } else if w == 3 {
                assert(r.marks@[w]@[i] == m3@[i]);
            } else if w == 4 {
                assert(r.marks@[w]@[i] == m4@[i]);
            } else {
                assert(r.marks@[w]@[i] == m5@[i]);
            }
        }
    }
    r
}

/// `content_row` of row `r`.
fn content_row_exec(tree: &CstTree, blk: usize, rm: &RowMarks, r: usize) -> (out: bool)
    requires
        tree.wf(),
        blk < tree.node_count(),
        rm.valid(*tree, blk as int),
    ensures
        out == content_row(*tree, blk as int, r as int),
{
    r == tree.start_row(blk) || r == tree.end_row(blk) || mark_of(tree, blk, rm, 0, r)
}

/// `brace_only_row` of row `r`.
fn brace_only_exec(tree: &CstTree, blk: usize, rm: &RowMarks, r: usize) -> (out: bool)
    requires
        tree.wf(),
        blk < tree.node_count(),
        rm.valid(*tree, blk as int),
    ensures
        out == brace_only_row(*tree, blk as int, r as int),
{
    (r == tree.start_row(blk) || r == tree.end_row(blk) || mark_of(tree, blk, rm, 4, r)) && !mark_of(tree, blk, rm, 3, r)
}

/// `line_end_byte` over all nodes.
fn line_end_byte_exec(tree: &CstTree, blk: usize, line: usize) -> (out: usize)
    requires
        tree.wf(),
        blk < tree.node_count(),
    ensures
        out == line_end_byte(*tree, blk as int, line as int, tree.node_count() as int),
        out <= tree.src_bytes().len(),
{
    let n = tree.len();
    let mut best = tree.range(blk).start.raw as usize;
    let mut j: usize = 0;
    while j < n
        invariant
            tree.wf(),
            n == tree.node_count(),
            blk < n,
            0 <= j <= n,
            best == line_end_byte(*tree, blk as int, line as int, j as int),
            best <= tree.src_bytes().len(),
        decreases n - j,
    {
        if crate::rules::no_whitespace_after::is_descendant(tree, j, blk) && tree.end_row(j) == line {
            let e = tree.range(j).end.raw as usize;
            if e > best {
                best = e;
            }
        }
        j = j + 1;
    }
    best
}

/// `line_start_byte` over all nodes.
fn line_start_byte_exec(tree: &CstTree, blk: usize, line: usize) -> (out: usize)
    requires
        tree.wf(),
        blk < tree.node_count(),
    ensures
        out == line_start_byte(*tree, blk as int, line as int, tree.node_count() as int),
        out <= tree.src_bytes().len(),
{
    let n = tree.len();
    let mut best = tree.range(blk).end.raw as usize;
    let mut j: usize = 0;
    while j < n
        invariant
            tree.wf(),
            n == tree.node_count(),
            blk < n,
            0 <= j <= n,
            best == line_start_byte(*tree, blk as int, line as int, j as int),
            best <= tree.src_bytes().len(),
        decreases n - j,
    {
        if crate::rules::no_whitespace_after::is_descendant(tree, j, blk) && tree.start_row(j) == line {
            let s = tree.range(j).start.raw as usize;
            if s < best {
                best = s;
            }
        }
        j = j + 1;
    }
    best
}

/// `next_content_row` from row `l`.
fn next_content_row_exec(tree: &CstTree, blk: usize, rm: &RowMarks, l: usize) -> (out: usize)
    requires
        tree.wf(),
        blk < tree.node_count(),
        rm.valid(*tree, blk as int),
    ensures
        out == next_content_row(*tree, blk as int, l as int),
{
    let el = tree.end_row(blk);
    let mut r = l;
    while r < el
        invariant
            tree.wf(),
            blk < tree.node_count(),
            rm.valid(*tree, blk as int),
            el == tree.end_row_of(blk as int),
            next_content_row(*tree, blk as int, l as int) == next_content_row(*tree, blk as int, r as int),
        decreases el - r,
    {
        if content_row_exec(tree, blk, rm, r) {
            return r;
        }
        r = r + 1;
    }
    el
}

impl LineScan {
    /// The rows the scan remembers lie before row `line`.
    pub open spec fn before(&self, line: int) -> bool {
        self.consecutive < line && self.last_code < line && self.last_content < line
    }
}

/// `line_step` of row `line`, an inner row of the block.
fn line_step_exec(tree: &CstTree, blk: usize, rm: &RowMarks, st: LineScan, line: usize) -> (r: (LineScan, Vec<Diagnostic>))
    requires
        tree.wf(),
        blk < tree.node_count(),
        rm.valid(*tree, blk as int),
        line < tree.end_row_of(blk as int),
        st.before(line as int),
    ensures
        (r.0, diag_views(r.1@)) == line_step(*tree, blk as int, st, line as int),
        r.0.before(line + 1),
{
    proof {
        tree.lemma_node(blk as int);
    }
    let sl = tree.start_row(blk);
    let el = tree.end_row(blk);
    if mark_of(tree, blk, rm, 5, line) {
        (LineScan { consecutive: 0, reported: false, need_report: false, had_comment: false, ..st }, no_diags())
    } else if !content_row_exec(tree, blk, rm, line) {
        let cons = st.consecutive + 1;
        if cons > 1 && !st.reported {
            let rl = if mark_of(tree, blk, rm, 1, st.last_content) && st.last_code + 1 == st.last_content && st.last_code != sl
                && !st.last_code_is_close_brace {
                st.last_code
            } else {
                st.last_content
            };
            let bo = line_end_byte_exec(tree, blk, rl);
            let ncr = next_content_row_exec(tree, blk, rm, line + 1);
            let ncb = line_start_byte_exec(tree, blk, ncr);
            let b = tree.source().as_bytes();
            let d = one_diag(els_diag(TooManyEmptyLinesInside.kind(), bo, delete_excess(b, bo, ncb)));
            let need = if str_eq(tree.kind(blk), "array_initializer") && !st.had_comment {
                true
            } else {
                st.need_report
            };
            (LineScan { consecutive: cons, reported: true, need_report: need, ..st }, d)
        } else {
            (LineScan { consecutive: cons, ..st }, no_diags())
        }
    } else {
        let is_code = mark_of(tree, blk, rm, 2, line);
        let is_cm = mark_of(tree, blk, rm, 1, line);
        let d = if st.need_report && is_code {
            one_diag(els_diag(TooManyEmptyLinesInside.kind(), line_start_byte_exec(tree, blk, line), None))
        } else {
            no_diags()
        };
        let had = if is_cm {
            true
        } else {
            st.had_comment
        };
        let st2 = LineScan {
            consecutive: 0,
            last_content: line,
            last_code: if is_code {
                line
            } else {
                st.last_code
            },
            last_code_is_close_brace: if is_code {
                brace_only_exec(tree, blk, rm, line)
            } else {
                st.last_code_is_close_brace
            },
            had_comment: if is_code {
                false
            } else {
                had
            },
            reported: false,
            need_report: false,
        };
        (st2, d)
    }
}

/// `block_check` of node `blk`.
fn block_check_exec(tree: &CstTree, blk: usize) -> (r: Vec<Diagnostic>)
    requires
        tree.wf(),
        blk < tree.node_count(),
    ensures
        diag_views(r@) == block_check(*tree, blk as int),
{
    let k = tree.kind(blk);
    let sl = tree.start_row(blk);
    let el = tree.end_row(blk);
    if (!str_eq(k, "block") && !str_eq(k, "constructor_body") && !str_eq(k, "array_initializer")) || el <= sl || el - sl <= 1 {
        return no_diags();
    }
    let rm = row_marks(tree, blk);
    let mut st = LineScan {
        consecutive: 0,
        last_content: sl,
        last_code: sl,
        reported: false,
        need_report: false,
        had_comment: false,
        last_code_is_close_brace: true,
    };
    let mut out = no_diags();
    let mut line = sl + 1;
    while line < el
        invariant
            tree.wf(),
            blk < tree.node_count(),
            rm.valid(*tree, blk as int),
            sl == tree.start_row_of(blk as int),
            el == tree.end_row_of(blk as int),
            sl + 1 <= line <= el,
            st.before(line as int),
            (st, diag_views(out@)) == line_fold(*tree, blk as int, line - sl - 1),
        decreases el - line,
    {
        let (st2, d) = line_step_exec(tree, blk, &rm, st, line);
        append_diags(&mut out, d);
        st = st2;
        line = line + 1;
    }
    out
}

/// `arrays_fold` over all nodes under `node`.
fn arrays_exec(tree: &CstTree, node: usize) -> (r: Vec<Diagnostic>)
    requires
        tree.wf(),
    ensures
        diag_views(r@) == arrays_fold(*tree, node as int, tree.node_count() as int),
{
    let n = tree.len();
    let mut out = no_diags();
    let mut j: usize = 0;
    while j < n
        invariant
            tree.wf(),
            n == tree.node_count(),
            0 <= j <= n,
            diag_views(out@) == arrays_fold(*tree, node as int, j as int),
        decreases n - j,
    {
        if crate::rules::no_whitespace_after::is_descendant(tree, j, node) && str_eq(tree.kind(j), "array_initializer") {
            let d = block_check_exec(tree, j);
            append_diags(&mut out, d);
        } else {
            proof {
                assert(diag_views(out@) + Seq::<DiagView>::empty() =~= diag_views(out@));
            }
        }
        j = j + 1;
    }
    out
}

/// `body_and_arrays` of the body `b`.
fn body_and_arrays_exec(tree: &CstTree, b: Option<usize>) -> (r: Vec<Diagnostic>)
    requires
        tree.wf(),
        b is Some ==> b.unwrap() < tree.node_count(),
    ensures
        diag_views(r@) == body_and_arrays(*tree, b),
{
    match b {
        Some(x) => {
            let mut out = block_check_exec(tree, x);
            append_diags(&mut out, arrays_exec(tree, x));
            out
        },
        None => no_diags(),
    }
}

impl EmptyLineSeparator {
    /// `inside_fold` over all members `ch`.
    fn check_inside_members(&self, tree: &CstTree, ch: &Vec<usize>) -> (r: Vec<Diagnostic>)
        requires
            tree.wf(),
            forall|x: int| 0 <= x < ch@.len() ==> #[trigger] ch@[x] < tree.node_count(),
        ensures
            diag_views(r@) == inside_fold(*self, *tree, ch@, ch@.len() as int),
    {
        let mut out = no_diags();
        let mut i: usize = 0;
        while i < ch.len()
            invariant
                tree.wf(),
                forall|x: int| 0 <= x < ch@.len() ==> #[trigger] ch@[x] < tree.node_count(),
                0 <= i <= ch@.len(),
                diag_views(out@) == inside_fold(*self, *tree, ch@, i as int),
            decreases ch@.len() - i,
        {
            let c = ch[i];
            let k = tree.kind(c);
            let t = &self.tokens;
            let d = if str_eq(k, "method_declaration") && has_els_token(t, EmptyLineSeparatorToken::MethodDef) {
                body_and_arrays_exec(tree, tree.child_by_field_name(c, "body"))
            } else if str_eq(k, "constructor_declaration") && has_els_token(t, EmptyLineSeparatorToken::CtorDef) {
                body_and_arrays_exec(tree, tree.child_by_field_name(c, "body"))
            } else if str_eq(k, "static_initializer") && has_els_token(t, EmptyLineSeparatorToken::StaticInit) {
                body_and_arrays_exec(tree, tree.find_child(c, "block"))
            } else if str_eq(k, "block") && has_els_token(t, EmptyLineSeparatorToken::InstanceInit) {
                body_and_arrays_exec(tree, Some(c))
            } else if str_eq(k, "compact_constructor_declaration") && has_els_token(t, EmptyLineSeparatorToken::CompactCtorDef) {
                body_and_arrays_exec(tree, tree.find_child(c, "block"))
            } else {
                no_diags()
            };
            append_diags(&mut out, d);
            i = i + 1;
        }
        out
    }

    /// The violations at node `node`: the separation of the parts of a file
    /// at the `program` node; the separation of the members of a type body,
    /// then runs of empty lines inside its members, at a type body.
    pub fn check(&self, tree: &CstTree, node: usize) -> (r: Vec<Diagnostic>)
        requires
            tree.wf(),
            node < tree.node_count(),
        ensures
            diag_views(r@) == spec_check(*self, *tree, node as int),
    {
        let k = tree.kind(node);
        if str_eq(k, "program") {
            self.check_program(tree, node)
        } else if str_eq(k, "class_body") || str_eq(k, "interface_body") || str_eq(k, "enum_body") || str_eq(k, "annotation_type_body") {
            let mut out = self.check_body(tree, node);
            if !self.allow_multiple_empty_lines_inside_class_members {
                let ch = members(tree, node);
                let d = self.check_inside_members(tree, &ch);
                append_diags(&mut out, d);
            } else {
                proof {
                    assert(diag_views(out@) + Seq::<DiagView>::empty() =~= diag_views(out@));
                }
            }
            out
        } else {
            no_diags()
        }
    }
}

/// The rule reports only at the node kinds that `relevant_kinds` names.
pub proof fn law_reports_only_at_relevant_kinds(rule: EmptyLineSeparator, tree: CstTree, node: int)
    requires
        !seq!["program"@, "class_body"@, "interface_body"@, "enum_body"@, "annotation_type_body"@].contains(tree.kind_of(node)),
    ensures
        spec_check(rule, tree, node) == Seq::<DiagView>::empty(),
{
    let ks = seq!["program"@, "class_body"@, "interface_body"@, "enum_body"@, "annotation_type_body"@];
    assert(ks[0] == "program"@ && ks[1] == "class_body"@ && ks[2] == "interface_body"@ && ks[3] == "enum_body"@ && ks[4]
        == "annotation_type_body"@);
}

/// Diagnostic `d` says that a field should be separated from the line before.
pub open spec fn is_field_separation(d: DiagView) -> bool {
    d.0 == "ShouldBeSeparated"@ && d.1 == "'VARIABLE_DEF' should be separated from previous line."@
}

/// `ch[i]` is a member that the scan of a body checks under `rule`: no brace,
/// no comment or other extra, and of no token or of a checked one.
pub open spec fn checked_member(rule: EmptyLineSeparator, tree: CstTree, ch: Seq<usize>, i: int) -> bool {
    let c = ch[i] as int;
    let k = tree.kind_of(c);
    &&& k != "{"@
    &&& k != "}"@
    &&& !tree.extra_of(c)
    &&& (token_of_kind(k) is None || rule.tokens@.contains(token_of_kind(k).unwrap()))
}

/// The last member before `ch[i]` that the scan checks under `rule` is a field.
pub open spec fn follows_field(rule: EmptyLineSeparator, tree: CstTree, ch: Seq<usize>, i: int) -> bool
    decreases i,
{
    if i <= 0 || i > ch.len() {
        false
    } else if checked_member(rule, tree, ch, i - 1) {
        token_of_kind(tree.kind_of(ch[i - 1] as int)) == Some(EmptyLineSeparatorToken::VariableDef)
    } else {
        follows_field(rule, tree, ch, i - 1)
    }
}

/// `d` is the field separation reported at the member `ch[i]`: a field whose
/// previous checked member is a field.
pub open spec fn field_separation_at(rule: EmptyLineSeparator, tree: CstTree, ch: Seq<usize>, i: int, d: DiagView) -> bool {
    &&& 0 <= i < ch.len()
    &&& token_of_kind(tree.kind_of(ch[i] as int)) == Some(EmptyLineSeparatorToken::VariableDef)
    &&& follows_field(rule, tree, ch, i)
    &&& is_field_separation(d)
    &&& d == separated_dv(tree, ch[i] as int, "VARIABLE_DEF"@)
}

/// The field separations that can be reported in a body with members `ch`
/// at a field whose previous checked member is a field.
pub open spec fn separations_after_fields(rule: EmptyLineSeparator, tree: CstTree, ch: Seq<usize>) -> Set<DiagView> {
    Set::new(|d: DiagView| exists|i: int| #[trigger] field_separation_at(rule, tree, ch, i, d))
}

/// `b` is `a` with some entries that belong to `s` left out, the rest in order.
pub open spec fn drops_some_of(a: Seq<DiagView>, b: Seq<DiagView>, s: Set<DiagView>) -> bool
    decreases a.len(),
{
    if a.len() == 0 {
        b.len() == 0
    } else if b.len() > 0 && b.last() == a.last() && drops_some_of(a.drop_last(), b.drop_last(), s) {
        true
    } else {
        s.contains(a.last()) && drops_some_of(a.drop_last(), b, s)
    }
}

proof fn lemma_drops_refl(a: Seq<DiagView>, s: Set<DiagView>)
    ensures
        drops_some_of(a, a, s),
    decreases a.len(),
{
    if a.len() > 0 {
        lemma_drops_refl(a.drop_last(), s);
    }
}

proof fn lemma_drops_concat(a1: Seq<DiagView>, b1: Seq<DiagView>, a2: Seq<DiagView>, b2: Seq<DiagView>, s: Set<DiagView>)
    requires
        drops_some_of(a1, b1, s),
        drops_some_of(a2, b2, s),
    ensures
        drops_some_of(a1 + a2, b1 + b2, s),
    decreases a2.len(),
{
    if a2.len() == 0 {
        assert(b2.len() == 0);
        assert(a1 + a2 =~= a1);
        assert(b1 + b2 =~= b1);
    } else {
        assert((a1 + a2).drop_last() =~= a1 + a2.drop_last());
        assert((a1 + a2).last() == a2.last());
        if b2.len() > 0 && b2.last() == a2.last() && drops_some_of(a2.drop_last(), b2.drop_last(), s) {
            lemma_drops_concat(a1, b1, a2.drop_last(), b2.drop_last(), s);
            assert((b1 + b2).drop_last() =~= b1 + b2.drop_last());
            assert((b1 + b2).last() == b2.last());
        } else {
            lemma_drops_concat(a1, b1, a2.drop_last(), b2, s);
        }
    }
}

/// The two configurations differ only in whether fields may follow fields
/// without an empty line, and several empty lines are allowed in both.
pub open spec fn fields_variant(a: EmptyLineSeparator, b: EmptyLineSeparator) -> bool {
    &&& !a.allow_no_empty_line_between_fields
    &&& b.allow_no_empty_line_between_fields
    &&& a.allow_multiple_empty_lines
    &&& b.allow_multiple_empty_lines
    &&& a.allow_multiple_empty_lines_inside_class_members == b.allow_multiple_empty_lines_inside_class_members
    &&& a.tokens@ == b.tokens@
}

proof fn lemma_follows_field(rule: EmptyLineSeparator, tree: CstTree, ch: Seq<usize>, chf: bool, st0: BodyScan, n: int)
    requires
        !st0.prev_was_field,
        0 <= n <= ch.len(),
    ensures
        body_fold(rule, tree, ch, chf, st0, n).0.prev_was_field == follows_field(rule, tree, ch, n),
    decreases n,
{
    if n > 0 {
        lemma_follows_field(rule, tree, ch, chf, st0, n - 1);
    }
}

proof fn lemma_fields_step(a: EmptyLineSeparator, b: EmptyLineSeparator, tree: CstTree, ch: Seq<usize>, chf: bool, st: BodyScan, i: int)
    requires
        fields_variant(a, b),
        0 <= i < ch.len(),
        st.prev_was_field == follows_field(a, tree, ch, i),
    ensures
        body_step(b, tree, ch, chf, st, i).0 == body_step(a, tree, ch, chf, st, i).0,
        drops_some_of(body_step(a, tree, ch, chf, st, i).1, body_step(b, tree, ch, chf, st, i).1,
            separations_after_fields(a, tree, ch)),
{
    let s = separations_after_fields(a, tree, ch);
    let da = body_step(a, tree, ch, chf, st, i).1;
    let db = body_step(b, tree, ch, chf, st, i).1;
    let c = ch[i] as int;
    let tok = token_of_kind(tree.kind_of(c));
    let f2f = st.prev_was_field && tok == Some(EmptyLineSeparatorToken::VariableDef);
    if da == db {
        lemma_drops_refl(da, s);
    } else {
        reveal_with_fuel(drops_some_of, 2);
        reveal_strlit("VARIABLE_DEF");
        assert(f2f);
        assert(db =~= Seq::<DiagView>::empty());
        assert(Seq::<DiagView>::empty() + body_main(a, tree, ch, st, i, tok) =~= body_main(a, tree, ch, st, i, tok));
        assert(da.len() == 1);
        assert(da.drop_last() =~= Seq::<DiagView>::empty());
        reveal_strlit("'");
        reveal_strlit("' should be separated from previous line.");
        reveal_strlit("'VARIABLE_DEF' should be separated from previous line.");
        assert("'"@ + "VARIABLE_DEF"@ + "' should be separated from previous line."@
            =~= "'VARIABLE_DEF' should be separated from previous line."@);
        assert(is_field_separation(da.last()));
        assert(field_separation_at(a, tree, ch, i, da.last()));
        assert(s.contains(da.last()));
    }
}

proof fn lemma_inside_same(a: EmptyLineSeparator, b: EmptyLineSeparator, tree: CstTree, ch: Seq<usize>, n: int)
    requires
        a.tokens@ == b.tokens@,
    ensures
        inside_fold(a, tree, ch, n) == inside_fold(b, tree, ch, n),
    decreases n,
{
    if n > 0 && n <= ch.len() {
        lemma_inside_same(a, b, tree, ch, n - 1);
    }
}

proof fn lemma_program_same(a: EmptyLineSeparator, b: EmptyLineSeparator, tree: CstTree, ch: Seq<usize>, hl: Option<usize>, hb: Option<usize>, n: int)
    requires
        fields_variant(a, b),
    ensures
        program_fold(a, tree, ch, hl, hb, n) == program_fold(b, tree, ch, hl, hb, n),
    decreases n,
{
    if n > 0 && n <= ch.len() {
        lemma_program_same(a, b, tree, ch, hl, hb, n - 1);
        let st = program_fold(a, tree, ch, hl, hb, n - 1).0;
        assert(program_step(a, tree, ch, hl, hb, st, n - 1) == program_step(b, tree, ch, hl, hb, st, n - 1));
    }
}

proof fn lemma_fields_fold(a: EmptyLineSeparator, b: EmptyLineSeparator, tree: CstTree, ch: Seq<usize>, chf: bool, st0: BodyScan, n: int)
    requires
        fields_variant(a, b),
        !st0.prev_was_field,
        0 <= n <= ch.len(),
    ensures
        body_fold(b, tree, ch, chf, st0, n).0 == body_fold(a, tree, ch, chf, st0, n).0,
        drops_some_of(body_fold(a, tree, ch, chf, st0, n).1, body_fold(b, tree, ch, chf, st0, n).1,
            separations_after_fields(a, tree, ch)),
    decreases n,
{
    let s = separations_after_fields(a, tree, ch);
    if n == 0 {
        lemma_drops_refl(body_fold(a, tree, ch, chf, st0, n).1, s);
    } else {
        lemma_fields_fold(a, b, tree, ch, chf, st0, n - 1);
        lemma_follows_field(a, tree, ch, chf, st0, n - 1);
        let st = body_fold(a, tree, ch, chf, st0, n - 1).0;
        lemma_fields_step(a, b, tree, ch, chf, st, n - 1);
        lemma_drops_concat(
            body_fold(a, tree, ch, chf, st0, n - 1).1,
            body_fold(b, tree, ch, chf, st0, n - 1).1,
            body_step(a, tree, ch, chf, st, n - 1).1,
            body_step(b, tree, ch, chf, st, n - 1).1,
            s,
        );
    }
}

/// Allowing fields to follow fields without an empty line only takes
/// diagnostics away: where several empty lines are allowed, the diagnostics of
/// the configuration `b` that allows it are those of `a`, which does not, in
/// the same order, with some left out; each one left out is a
/// `'VARIABLE_DEF' should be separated` diagnostic at a member of the body
/// that is a field and whose previous checked member is a field.
pub proof fn law_fields_option_only_removes(a: EmptyLineSeparator, b: EmptyLineSeparator, tree: CstTree, node: int)
    requires
        fields_variant(a, b),
    ensures
        drops_some_of(spec_check(a, tree, node), spec_check(b, tree, node),
            separations_after_fields(a, tree, body_members(tree, node))),
{
    let s = separations_after_fields(a, tree, body_members(tree, node));
    let k = tree.kind_of(node);
    if k == "program"@ {
        let ch = tree.children_of(node);
        let h = header_scan(tree, ch, ch.len() as int);
        lemma_program_same(a, b, tree, ch, h.1, h.2, ch.len() as int);
        lemma_drops_refl(spec_check(a, tree, node), s);
    } else if k == "class_body"@ || k == "interface_body"@ || k == "enum_body"@ || k == "annotation_type_body"@ {
        let ch = body_members(tree, node);
        let chf = has_fields(tree, ch);
        let st0 = body_start(tree, node);
        lemma_fields_fold(a, b, tree, ch, chf, st0, ch.len() as int);
        let fa = body_fold(a, tree, ch, chf, st0, ch.len() as int);
        let fb = body_fold(b, tree, ch, chf, st0, ch.len() as int);
        assert(close_brace_check(a, tree, ch, fa.0) =~= Seq::<DiagView>::empty());
        assert(close_brace_check(b, tree, ch, fb.0) =~= Seq::<DiagView>::empty());
        assert(body_diags(a, tree, node) =~= fa.1);
        assert(body_diags(b, tree, node) =~= fb.1);
        lemma_inside_same(a, b, tree, ch, ch.len() as int);
        let ia = if !a.allow_multiple_empty_lines_inside_class_members { inside_fold(a, tree, ch, ch.len() as int) } else { seq![] };
        lemma_drops_refl(ia, s);
        lemma_drops_concat(fa.1, fb.1, ia, ia, s);
    } else {
        lemma_drops_refl(spec_check(a, tree, node), s);
    }
}

proof fn lemma_last_constant_row(tree: CstTree, raw: Seq<usize>, q: int)
    requires
        0 <= q < raw.len(),
        tree.kind_of(raw[q] as int) == "enum_constant"@,
        forall|j: int| q < j < raw.len() ==> tree.kind_of(#[trigger] raw[j] as int) != "enum_constant"@,
    ensures
        last_enum_constant_row(tree, raw) == Some(tree.end_row_of(raw[q] as int) as usize),
    decreases raw.len(),
{
    if q < raw.len() - 1 {
        assert(tree.kind_of(raw[raw.len() - 1] as int) != "enum_constant"@);
        let d = raw.drop_last();
        assert forall|j: int| q < j < d.len() implies tree.kind_of(#[trigger] d[j] as int) != "enum_constant"@ by {
            assert(d[j] == raw[j]);
        }
        lemma_last_constant_row(tree, d, q);
    }
}

/// While no member that the scan checks has come, the scan keeps where the
/// previous code ended, whether a member was seen, and whether it was a field.
proof fn lemma_unchecked_prefix(rule: EmptyLineSeparator, tree: CstTree, ch: Seq<usize>, chf: bool, st0: BodyScan, n: int)
    requires
        0 <= n <= ch.len(),
        forall|j: int| 0 <= j < n ==> !#[trigger] checked_member(rule, tree, ch, j),
    ensures
        body_fold(rule, tree, ch, chf, st0, n).0.prev_code_end_line == st0.prev_code_end_line,
        body_fold(rule, tree, ch, chf, st0, n).0.is_first_member == st0.is_first_member,
        body_fold(rule, tree, ch, chf, st0, n).0.prev_was_field == st0.prev_was_field,
    decreases n,
{
    if n > 0 {
        lemma_unchecked_prefix(rule, tree, ch, chf, st0, n - 1);
        assert(!checked_member(rule, tree, ch, n - 1));
    }
}

/// What the scan of the first `m` members reports stays in the scan of the first `n >= m`.
proof fn lemma_fold_keeps(rule: EmptyLineSeparator, tree: CstTree, ch: Seq<usize>, chf: bool, st0: BodyScan, m: int, n: int, d: DiagView)
    requires
        0 <= m <= n <= ch.len(),
        body_fold(rule, tree, ch, chf, st0, m).1.contains(d),
    ensures
        body_fold(rule, tree, ch, chf, st0, n).1.contains(d),
    decreases n - m,
{
    if n > m {
        lemma_fold_keeps(rule, tree, ch, chf, st0, m, n - 1, d);
        let prev = body_fold(rule, tree, ch, chf, st0, n - 1);
        let step = body_step(rule, tree, ch, chf, prev.0, n - 1);
        let k = choose|k: int| 0 <= k < prev.1.len() && prev.1[k] == d;
        assert((prev.1 + step.1)[k] == d);
    }
}

/// In an enum body with constants, the first member that the scan checks,
/// when it is of a checked token kind and starts on the line right after the
/// one where the last constant ends, follows the constants without an empty
/// line: the result holds a `ShouldBeSeparated` diagnostic at its first byte.
pub proof fn law_enum_member_after_constants(rule: EmptyLineSeparator, tree: CstTree, node: int, q: int, i: int)
    requires
        tree.wf(),
        0 <= node < tree.node_count(),
        tree.kind_of(node) == "enum_body"@,
        0 <= q < tree.children_of(node).len(),
        tree.kind_of(tree.children_of(node)[q] as int) == "enum_constant"@,
        forall|j: int| q < j < tree.children_of(node).len() ==> tree.kind_of(#[trigger] tree.children_of(node)[j] as int) != "enum_constant"@,
        0 <= i < body_members(tree, node).len(),
        checked_member(rule, tree, body_members(tree, node), i),
        token_of_kind(tree.kind_of(body_members(tree, node)[i] as int)) is Some,
        forall|j: int| 0 <= j < i ==> !#[trigger] checked_member(rule, tree, body_members(tree, node), j),
        tree.start_row_of(body_members(tree, node)[i] as int) == tree.end_row_of(tree.children_of(node)[q] as int) + 1,
    ensures
        ({
            let c = body_members(tree, node)[i] as int;
            let t = token_of_kind(tree.kind_of(c)).unwrap();
            exists|k: int| #![trigger spec_check(rule, tree, node)[k]]
                0 <= k < spec_check(rule, tree, node).len() && {
                let d = spec_check(rule, tree, node)[k];
                &&& d.0 == "ShouldBeSeparated"@
                &&& d.1 == "'"@ + els_token_name(t) + "' should be separated from previous line."@
                &&& d.2 == tree.start_of(c)
                &&& d.3 == tree.start_of(c) + 1
            }
        }),
{
    let raw = tree.children_of(node);
    let ch = body_members(tree, node);
    let c = ch[i] as int;
    let tok = token_of_kind(tree.kind_of(c));
    tree.lemma_node(node);
    tree.lemma_node(raw[q] as int);
    lemma_last_constant_row(tree, raw, q);
    let chf = has_fields(tree, ch);
    let st0 = body_start(tree, node);
    let pcl = tree.end_row_of(raw[q] as int);
    assert(st0.prev_code_end_line == Some(pcl as usize));
    assert(!st0.is_first_member);
    lemma_unchecked_prefix(rule, tree, ch, chf, st0, i);
    let st = body_fold(rule, tree, ch, chf, st0, i).0;
    assert(!blank_line_before(tree, ch, i, pcl, false));
    let sep = separated_dv(tree, c, els_token_name(tok.unwrap()));
    assert(body_main(rule, tree, ch, st, i, tok) == seq![sep]);
    let step = body_step(rule, tree, ch, chf, st, i);
    assert(step.1.last() == sep);
    let prev = body_fold(rule, tree, ch, chf, st0, i);
    assert((prev.1 + step.1)[prev.1.len() + step.1.len() - 1] == sep);
    assert(body_fold(rule, tree, ch, chf, st0, i + 1).1.contains(sep));
    lemma_fold_keeps(rule, tree, ch, chf, st0, i + 1, ch.len() as int, sep);
    let fa = body_fold(rule, tree, ch, chf, st0, ch.len() as int);
    let kk = choose|k: int| 0 <= k < fa.1.len() && fa.1[k] == sep;
    reveal_strlit("enum_body");
    reveal_strlit("program");
    reveal_strlit("class_body");
    reveal_strlit("interface_body");
    assert("enum_body"@.len() != "program"@.len());
    assert("enum_body"@.len() != "class_body"@.len());
    assert("enum_body"@.len() != "interface_body"@.len());
    let bd = body_diags(rule, tree, node);
    assert(bd[kk] == sep);
    let r = spec_check(rule, tree, node);
    assert(r[kk] == sep);
}

} // verus!
