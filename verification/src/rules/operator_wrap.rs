//! OperatorWrap: where an operator stands when an expression spans lines.

use vstd::prelude::*;
use vstd::utf8::decode_utf8;

use crate::config::Properties;
use crate::cst::{slice_text, CstTree};
use crate::diagnostics::{Applicability, safe_fix, 
    append_diags, concat2, concat3, diag_views, edit_views, make_kind, no_diags, one_diag, DiagView, Diagnostic,
    DiagnosticKind, Edit, Fix,
};
use crate::strings::{contains_str, filter_map, has_substring, split_commas, split_commas_exec, str_eq, str_views, trim, trim_chars, lemma_trim_idempotent};
use crate::text::{after_last_lf, chars_before, head_ws, line_index, line_indent_before, line_of_offset, TextRange, TextSize};

verus! {

/// Violation: the operator should start the next line.
#[derive(Clone, Debug)]
pub struct OperatorShouldBeOnNewLine {
    pub operator: String,
}

impl OperatorShouldBeOnNewLine {
    /// The message of the violation.
    pub open spec fn spec_message(&self) -> Seq<char> {
        "'"@ + self.operator@ + "' should be on a new line."@
    }

    /// The message of the violation.
    pub fn message(&self) -> (r: String)
        ensures
            r@ == self.spec_message(),
    {
        concat3("'", self.operator.as_str(), "' should be on a new line.")
    }

    /// The kind of diagnostic the violation gives.
    pub fn kind(&self) -> (r: DiagnosticKind)
        ensures
            r.name@ == "OperatorShouldBeOnNewLine"@,
            r.body@ == self.spec_message(),
    {
        make_kind("OperatorShouldBeOnNewLine", self.message())
    }
}

/// Violation: the operator should end the previous line.
#[derive(Clone, Debug)]
pub struct OperatorShouldBeOnPrevLine {
    pub operator: String,
}

impl OperatorShouldBeOnPrevLine {
    /// The message of the violation.
    pub open spec fn spec_message(&self) -> Seq<char> {
        "'"@ + self.operator@ + "' should be on the previous line."@
    }

    /// The message of the violation.
    pub fn message(&self) -> (r: String)
        ensures
            r@ == self.spec_message(),
    {
        concat3("'", self.operator.as_str(), "' should be on the previous line.")
    }

    /// The kind of diagnostic the violation gives.
    pub fn kind(&self) -> (r: DiagnosticKind)
        ensures
            r.name@ == "OperatorShouldBeOnPrevLine"@,
            r.body@ == self.spec_message(),
    {
        make_kind("OperatorShouldBeOnPrevLine", self.message())
    }
}

/// Where operators go when an expression is wrapped.
#[derive(Clone, Copy, Debug, PartialEq, Eq, Structural)]
pub enum WrapOption {
    /// At the start of the new line.
    Nl,
    /// At the end of the line.
    Eol,
}

impl Default for WrapOption {
    /// `Nl`.
    fn default() -> (r: Self)
        ensures
            r == WrapOption::Nl,
    {
        WrapOption::Nl
    }
}

/// The operators that OperatorWrap can check.
#[derive(Clone, Copy, Debug, PartialEq, Eq, Hash, Structural)]
pub enum OperatorWrapToken {
    Plus,
    Minus,
    Star,
    Div,
    Mod,
    Equal,
    NotEqual,
    Gt,
    Ge,
    Lt,
    Le,
    Land,
    Lor,
    Band,
    Bor,
    Bxor,
    Sl,
    Sr,
    Bsr,
    Question,
    Colon,
    Assign,
    PlusAssign,
    MinusAssign,
    StarAssign,
    DivAssign,
    ModAssign,
    SlAssign,
    SrAssign,
    BsrAssign,
    BxorAssign,
    BorAssign,
    BandAssign,
    TypeExtensionAnd,
    LiteralInstanceof,
    MethodRef,
}

/// The token that the name `s` stands for, if any.
pub open spec fn operator_wrap_token_named(s: Seq<char>) -> Option<OperatorWrapToken> {
    if s == "PLUS"@ {
        Some(OperatorWrapToken::Plus)
    } else if s == "MINUS"@ {
        Some(OperatorWrapToken::Minus)
    } else if s == "STAR"@ {
        Some(OperatorWrapToken::Star)
    } else if s == "DIV"@ {
        Some(OperatorWrapToken::Div)
    } else if s == "MOD"@ {
        Some(OperatorWrapToken::Mod)
    } else if s == "EQUAL"@ {
        Some(OperatorWrapToken::Equal)
    } else if s == "NOT_EQUAL"@ {
        Some(OperatorWrapToken::NotEqual)
    } else if s == "GT"@ {
        Some(OperatorWrapToken::Gt)
    } else if s == "GE"@ {
        Some(OperatorWrapToken::Ge)
    } else if s == "LT"@ {
        Some(OperatorWrapToken::Lt)
    } else if s == "LE"@ {
        Some(OperatorWrapToken::Le)
    } else if s == "LAND"@ {
        Some(OperatorWrapToken::Land)
    } else if s == "LOR"@ {
        Some(OperatorWrapToken::Lor)
    } else if s == "BAND"@ {
        Some(OperatorWrapToken::Band)
    } else if s == "BOR"@ {
        Some(OperatorWrapToken::Bor)
    } else if s == "BXOR"@ {
        Some(OperatorWrapToken::Bxor)
    } else if s == "SL"@ {
        Some(OperatorWrapToken::Sl)
    } else if s == "SR"@ {
        Some(OperatorWrapToken::Sr)
    } else if s == "BSR"@ {
        Some(OperatorWrapToken::Bsr)
    } else if s == "QUESTION"@ {
        Some(OperatorWrapToken::Question)
    } else if s == "COLON"@ {
        Some(OperatorWrapToken::Colon)
    } else if s == "ASSIGN"@ {
        Some(OperatorWrapToken::Assign)
    } else if s == "PLUS_ASSIGN"@ {
        Some(OperatorWrapToken::PlusAssign)
    } else if s == "MINUS_ASSIGN"@ {
        Some(OperatorWrapToken::MinusAssign)
    } else if s == "STAR_ASSIGN"@ {
        Some(OperatorWrapToken::StarAssign)
    } else if s == "DIV_ASSIGN"@ {
        Some(OperatorWrapToken::DivAssign)
    } else if s == "MOD_ASSIGN"@ {
        Some(OperatorWrapToken::ModAssign)
    } else if s == "SL_ASSIGN"@ {
        Some(OperatorWrapToken::SlAssign)
    } else if s == "SR_ASSIGN"@ {
        Some(OperatorWrapToken::SrAssign)
    } else if s == "BSR_ASSIGN"@ {
        Some(OperatorWrapToken::BsrAssign)
    } else if s == "BXOR_ASSIGN"@ {
        Some(OperatorWrapToken::BxorAssign)
    } else if s == "BOR_ASSIGN"@ {
        Some(OperatorWrapToken::BorAssign)
    } else if s == "BAND_ASSIGN"@ {
        Some(OperatorWrapToken::BandAssign)
    } else if s == "TYPE_EXTENSION_AND"@ {
        Some(OperatorWrapToken::TypeExtensionAnd)
    } else if s == "LITERAL_INSTANCEOF"@ {
        Some(OperatorWrapToken::LiteralInstanceof)
    } else if s == "METHOD_REF"@ {
        Some(OperatorWrapToken::MethodRef)
    } else {
        None
    }
}

/// The checkstyle name of the token `t`.
pub open spec fn operator_wrap_token_name(t: OperatorWrapToken) -> Seq<char> {
    match t {
        OperatorWrapToken::Plus => "PLUS"@,
        OperatorWrapToken::Minus => "MINUS"@,
        OperatorWrapToken::Star => "STAR"@,
        OperatorWrapToken::Div => "DIV"@,
        OperatorWrapToken::Mod => "MOD"@,
        OperatorWrapToken::Equal => "EQUAL"@,
        OperatorWrapToken::NotEqual => "NOT_EQUAL"@,
        OperatorWrapToken::Gt => "GT"@,
        OperatorWrapToken::Ge => "GE"@,
        OperatorWrapToken::Lt => "LT"@,
        OperatorWrapToken::Le => "LE"@,
        OperatorWrapToken::Land => "LAND"@,
        OperatorWrapToken::Lor => "LOR"@,
        OperatorWrapToken::Band => "BAND"@,
        OperatorWrapToken::Bor => "BOR"@,
        OperatorWrapToken::Bxor => "BXOR"@,
        OperatorWrapToken::Sl => "SL"@,
        OperatorWrapToken::Sr => "SR"@,
        OperatorWrapToken::Bsr => "BSR"@,
        OperatorWrapToken::Question => "QUESTION"@,
        OperatorWrapToken::Colon => "COLON"@,
        OperatorWrapToken::Assign => "ASSIGN"@,
        OperatorWrapToken::PlusAssign => "PLUS_ASSIGN"@,
        OperatorWrapToken::MinusAssign => "MINUS_ASSIGN"@,
        OperatorWrapToken::StarAssign => "STAR_ASSIGN"@,
        OperatorWrapToken::DivAssign => "DIV_ASSIGN"@,
        OperatorWrapToken::ModAssign => "MOD_ASSIGN"@,
        OperatorWrapToken::SlAssign => "SL_ASSIGN"@,
        OperatorWrapToken::SrAssign => "SR_ASSIGN"@,
        OperatorWrapToken::BsrAssign => "BSR_ASSIGN"@,
        OperatorWrapToken::BxorAssign => "BXOR_ASSIGN"@,
        OperatorWrapToken::BorAssign => "BOR_ASSIGN"@,
        OperatorWrapToken::BandAssign => "BAND_ASSIGN"@,
        OperatorWrapToken::TypeExtensionAnd => "TYPE_EXTENSION_AND"@,
        OperatorWrapToken::LiteralInstanceof => "LITERAL_INSTANCEOF"@,
        OperatorWrapToken::MethodRef => "METHOD_REF"@,
    }
}

/// White space around a name does not matter, and once trimmed the name
/// stays as it is: `from_checkstyle_name` gives the same token for `s` and
/// for `s` trimmed.
pub proof fn law_operator_name_trim(s: Seq<char>)
    ensures
        operator_wrap_token_named(trim_chars(trim_chars(s))) == operator_wrap_token_named(trim_chars(s)),
{
    lemma_trim_idempotent(s);
}

/// Names and tokens correspond one to one: each token is found by its
/// checkstyle name, and a name gives a token only when it is that token's
/// checkstyle name.
pub proof fn law_operator_names_one_to_one(s: Seq<char>, t: OperatorWrapToken)
    ensures
        operator_wrap_token_named(operator_wrap_token_name(t)) == Some(t),
        operator_wrap_token_named(s) == Some(t) <==> s == operator_wrap_token_name(t),
{
    reveal_strlit("PLUS");
    reveal_strlit("MINUS");
    reveal_strlit("STAR");
    reveal_strlit("DIV");
    reveal_strlit("MOD");
    reveal_strlit("EQUAL");
    reveal_strlit("NOT_EQUAL");
    reveal_strlit("GT");
    reveal_strlit("GE");
    reveal_strlit("LT");
    reveal_strlit("LE");
    reveal_strlit("LAND");
    reveal_strlit("LOR");
    reveal_strlit("BAND");
    reveal_strlit("BOR");
    reveal_strlit("BXOR");
    reveal_strlit("SL");
    reveal_strlit("SR");
    reveal_strlit("BSR");
    reveal_strlit("QUESTION");
    reveal_strlit("COLON");
    reveal_strlit("ASSIGN");
    reveal_strlit("PLUS_ASSIGN");
    reveal_strlit("MINUS_ASSIGN");
    reveal_strlit("STAR_ASSIGN");
    reveal_strlit("DIV_ASSIGN");
    reveal_strlit("MOD_ASSIGN");
    reveal_strlit("SL_ASSIGN");
    reveal_strlit("SR_ASSIGN");
    reveal_strlit("BSR_ASSIGN");
    reveal_strlit("BXOR_ASSIGN");
    reveal_strlit("BOR_ASSIGN");
    reveal_strlit("BAND_ASSIGN");
    reveal_strlit("TYPE_EXTENSION_AND");
    reveal_strlit("LITERAL_INSTANCEOF");
    reveal_strlit("METHOD_REF");
    assert("PLUS"@.len() == 4);
    assert("MINUS"@.len() == 5);
    assert("STAR"@.len() == 4);
    assert("DIV"@.len() == 3);
    assert("MOD"@.len() == 3);
    assert("EQUAL"@.len() == 5);
    assert("NOT_EQUAL"@.len() == 9);
    assert("GT"@.len() == 2);
    assert("GE"@.len() == 2);
    assert("LT"@.len() == 2);
    assert("LE"@.len() == 2);
    assert("LAND"@.len() == 4);
    assert("LOR"@.len() == 3);
    assert("BAND"@.len() == 4);
    assert("BOR"@.len() == 3);
    assert("BXOR"@.len() == 4);
    assert("SL"@.len() == 2);
    assert("SR"@.len() == 2);
    assert("BSR"@.len() == 3);
    assert("QUESTION"@.len() == 8);
    assert("COLON"@.len() == 5);
    assert("ASSIGN"@.len() == 6);
    assert("PLUS_ASSIGN"@.len() == 11);
    assert("MINUS_ASSIGN"@.len() == 12);
    assert("STAR_ASSIGN"@.len() == 11);
    assert("DIV_ASSIGN"@.len() == 10);
    assert("MOD_ASSIGN"@.len() == 10);
    assert("SL_ASSIGN"@.len() == 9);
    assert("SR_ASSIGN"@.len() == 9);
    assert("BSR_ASSIGN"@.len() == 10);
    assert("BXOR_ASSIGN"@.len() == 11);
    assert("BOR_ASSIGN"@.len() == 10);
    assert("BAND_ASSIGN"@.len() == 11);
    assert("TYPE_EXTENSION_AND"@.len() == 18);
    assert("LITERAL_INSTANCEOF"@.len() == 18);
    assert("METHOD_REF"@.len() == 10);
    match t {
        OperatorWrapToken::Plus => {
            assert(operator_wrap_token_named("PLUS"@) == Some(OperatorWrapToken::Plus));
        },
        OperatorWrapToken::Minus => {
            assert(operator_wrap_token_named("MINUS"@) == Some(OperatorWrapToken::Minus));
        },
        OperatorWrapToken::Star => {
            assert("STAR"@[0] != "PLUS"@[0]);
            assert(operator_wrap_token_named("STAR"@) == Some(OperatorWrapToken::Star));
        },
        OperatorWrapToken::Div => {
            assert(operator_wrap_token_named("DIV"@) == Some(OperatorWrapToken::Div));
        },
        OperatorWrapToken::Mod => {
            assert("MOD"@[0] != "DIV"@[0]);
            assert(operator_wrap_token_named("MOD"@) == Some(OperatorWrapToken::Mod));
        },
        OperatorWrapToken::Equal => {
            assert("EQUAL"@[0] != "MINUS"@[0]);
            assert(operator_wrap_token_named("EQUAL"@) == Some(OperatorWrapToken::Equal));
        },
        OperatorWrapToken::NotEqual => {
            assert(operator_wrap_token_named("NOT_EQUAL"@) == Some(OperatorWrapToken::NotEqual));
        },
        OperatorWrapToken::Gt => {
            assert(operator_wrap_token_named("GT"@) == Some(OperatorWrapToken::Gt));
        },
        OperatorWrapToken::Ge => {
            assert("GE"@[1] != "GT"@[1]);
            assert(operator_wrap_token_named("GE"@) == Some(OperatorWrapToken::Ge));
        },
        OperatorWrapToken::Lt => {
            assert("LT"@[0] != "GT"@[0]);
            assert("LT"@[0] != "GE"@[0]);
            assert(operator_wrap_token_named("LT"@) == Some(OperatorWrapToken::Lt));
        },
        OperatorWrapToken::Le => {
            assert("LE"@[0] != "GT"@[0]);
            assert("LE"@[0] != "GE"@[0]);
            assert("LE"@[1] != "LT"@[1]);
            assert(operator_wrap_token_named("LE"@) == Some(OperatorWrapToken::Le));
        },
        OperatorWrapToken::Land => {
            assert("LAND"@[0] != "PLUS"@[0]);
            assert("LAND"@[0] != "STAR"@[0]);
            assert(operator_wrap_token_named("LAND"@) == Some(OperatorWrapToken::Land));
        },
        OperatorWrapToken::Lor => {
            assert("LOR"@[0] != "DIV"@[0]);
            assert("LOR"@[0] != "MOD"@[0]);
            assert(operator_wrap_token_named("LOR"@) == Some(OperatorWrapToken::Lor));
        },
        OperatorWrapToken::Band => {
            assert("BAND"@[0] != "PLUS"@[0]);
            assert("BAND"@[0] != "STAR"@[0]);
            assert("BAND"@[0] != "LAND"@[0]);
            assert(operator_wrap_token_named("BAND"@) == Some(OperatorWrapToken::Band));
        },
        OperatorWrapToken::Bor => {
            assert("BOR"@[0] != "DIV"@[0]);
            assert("BOR"@[0] != "MOD"@[0]);
            assert("BOR"@[0] != "LOR"@[0]);
            assert(operator_wrap_token_named("BOR"@) == Some(OperatorWrapToken::Bor));
        },
        OperatorWrapToken::Bxor => {
            assert("BXOR"@[0] != "PLUS"@[0]);
            assert("BXOR"@[0] != "STAR"@[0]);
            assert("BXOR"@[0] != "LAND"@[0]);
            assert("BXOR"@[1] != "BAND"@[1]);
            assert(operator_wrap_token_named("BXOR"@) == Some(OperatorWrapToken::Bxor));
        },
        OperatorWrapToken::Sl => {
            assert("SL"@[0] != "GT"@[0]);
            assert("SL"@[0] != "GE"@[0]);
            assert("SL"@[0] != "LT"@[0]);
            assert("SL"@[0] != "LE"@[0]);
            assert(operator_wrap_token_named("SL"@) == Some(OperatorWrapToken::Sl));
        },
        OperatorWrapToken::Sr => {
            assert("SR"@[0] != "GT"@[0]);
            assert("SR"@[0] != "GE"@[0]);
            assert("SR"@[0] != "LT"@[0]);
            assert("SR"@[0] != "LE"@[0]);
            assert("SR"@[1] != "SL"@[1]);
            assert(operator_wrap_token_named("SR"@) == Some(OperatorWrapToken::Sr));
        },
        OperatorWrapToken::Bsr => {
            assert("BSR"@[0] != "DIV"@[0]);
            assert("BSR"@[0] != "MOD"@[0]);
            assert("BSR"@[0] != "LOR"@[0]);
            assert("BSR"@[1] != "BOR"@[1]);
            assert(operator_wrap_token_named("BSR"@) == Some(OperatorWrapToken::Bsr));
        },
        OperatorWrapToken::Question => {
            assert(operator_wrap_token_named("QUESTION"@) == Some(OperatorWrapToken::Question));
        },
        OperatorWrapToken::Colon => {
            assert("COLON"@[0] != "MINUS"@[0]);
            assert("COLON"@[0] != "EQUAL"@[0]);
            assert(operator_wrap_token_named("COLON"@) == Some(OperatorWrapToken::Colon));
        },
        OperatorWrapToken::Assign => {
            assert(operator_wrap_token_named("ASSIGN"@) == Some(OperatorWrapToken::Assign));
        },
        OperatorWrapToken::PlusAssign => {
            assert(operator_wrap_token_named("PLUS_ASSIGN"@) == Some(OperatorWrapToken::PlusAssign));
        },
        OperatorWrapToken::MinusAssign => {
            assert(operator_wrap_token_named("MINUS_ASSIGN"@) == Some(OperatorWrapToken::MinusAssign));
        },
        OperatorWrapToken::StarAssign => {
            assert("STAR_ASSIGN"@[0] != "PLUS_ASSIGN"@[0]);
            assert(operator_wrap_token_named("STAR_ASSIGN"@) == Some(OperatorWrapToken::StarAssign));
        },
        OperatorWrapToken::DivAssign => {
            assert(operator_wrap_token_named("DIV_ASSIGN"@) == Some(OperatorWrapToken::DivAssign));
        },
        OperatorWrapToken::ModAssign => {
            assert("MOD_ASSIGN"@[0] != "DIV_ASSIGN"@[0]);
            assert(operator_wrap_token_named("MOD_ASSIGN"@) == Some(OperatorWrapToken::ModAssign));
        },
        OperatorWrapToken::SlAssign => {
            assert("SL_ASSIGN"@[0] != "NOT_EQUAL"@[0]);
            assert(operator_wrap_token_named("SL_ASSIGN"@) == Some(OperatorWrapToken::SlAssign));
        },
        OperatorWrapToken::SrAssign => {
            assert("SR_ASSIGN"@[0] != "NOT_EQUAL"@[0]);
            assert("SR_ASSIGN"@[1] != "SL_ASSIGN"@[1]);
            assert(operator_wrap_token_named("SR_ASSIGN"@) == Some(OperatorWrapToken::SrAssign));
        },
        OperatorWrapToken::BsrAssign => {
            assert("BSR_ASSIGN"@[0] != "DIV_ASSIGN"@[0]);
            assert("BSR_ASSIGN"@[0] != "MOD_ASSIGN"@[0]);
            assert(operator_wrap_token_named("BSR_ASSIGN"@) == Some(OperatorWrapToken::BsrAssign));
        },
        OperatorWrapToken::BxorAssign => {
            assert("BXOR_ASSIGN"@[0] != "PLUS_ASSIGN"@[0]);
            assert("BXOR_ASSIGN"@[0] != "STAR_ASSIGN"@[0]);
            assert(operator_wrap_token_named("BXOR_ASSIGN"@) == Some(OperatorWrapToken::BxorAssign));
        },
        OperatorWrapToken::BorAssign => {
            assert("BOR_ASSIGN"@[0] != "DIV_ASSIGN"@[0]);
            assert("BOR_ASSIGN"@[0] != "MOD_ASSIGN"@[0]);
            assert("BOR_ASSIGN"@[1] != "BSR_ASSIGN"@[1]);
            assert(operator_wrap_token_named("BOR_ASSIGN"@) == Some(OperatorWrapToken::BorAssign));
        },
        OperatorWrapToken::BandAssign => {
            assert("BAND_ASSIGN"@[0] != "PLUS_ASSIGN"@[0]);
            assert("BAND_ASSIGN"@[0] != "STAR_ASSIGN"@[0]);
            assert("BAND_ASSIGN"@[1] != "BXOR_ASSIGN"@[1]);
            assert(operator_wrap_token_named("BAND_ASSIGN"@) == Some(OperatorWrapToken::BandAssign));
        },
        OperatorWrapToken::TypeExtensionAnd => {
            assert(operator_wrap_token_named("TYPE_EXTENSION_AND"@) == Some(OperatorWrapToken::TypeExtensionAnd));
        },
        OperatorWrapToken::LiteralInstanceof => {
            assert("LITERAL_INSTANCEOF"@[0] != "TYPE_EXTENSION_AND"@[0]);
            assert(operator_wrap_token_named("LITERAL_INSTANCEOF"@) == Some(OperatorWrapToken::LiteralInstanceof));
        },
        OperatorWrapToken::MethodRef => {
            assert("METHOD_REF"@[0] != "DIV_ASSIGN"@[0]);
            assert("METHOD_REF"@[1] != "MOD_ASSIGN"@[1]);
            assert("METHOD_REF"@[0] != "BSR_ASSIGN"@[0]);
            assert("METHOD_REF"@[0] != "BOR_ASSIGN"@[0]);
            assert(operator_wrap_token_named("METHOD_REF"@) == Some(OperatorWrapToken::MethodRef));
        },
    }
}


impl OperatorWrapToken {
    /// The token with the checkstyle name `s` (around white space), if any.
    pub fn from_checkstyle_name(s: &str) -> (r: Option<Self>)
        ensures
            r == operator_wrap_token_named(trim_chars(s@)),
    {
        let t = trim(s);
        if str_eq(t, "PLUS") {
            Some(OperatorWrapToken::Plus)
        } else if str_eq(t, "MINUS") {
            Some(OperatorWrapToken::Minus)
        } else if str_eq(t, "STAR") {
            Some(OperatorWrapToken::Star)
        } else if str_eq(t, "DIV") {
            Some(OperatorWrapToken::Div)
        } else if str_eq(t, "MOD") {
            Some(OperatorWrapToken::Mod)
        } else if str_eq(t, "EQUAL") {
            Some(OperatorWrapToken::Equal)
        } else if str_eq(t, "NOT_EQUAL") {
            Some(OperatorWrapToken::NotEqual)
        } else if str_eq(t, "GT") {
            Some(OperatorWrapToken::Gt)
        } else if str_eq(t, "GE") {
            Some(OperatorWrapToken::Ge)
        } else if str_eq(t, "LT") {
            Some(OperatorWrapToken::Lt)
        } else if str_eq(t, "LE") {
            Some(OperatorWrapToken::Le)
        } else if str_eq(t, "LAND") {
            Some(OperatorWrapToken::Land)
        } else if str_eq(t, "LOR") {
            Some(OperatorWrapToken::Lor)
        } else if str_eq(t, "BAND") {
            Some(OperatorWrapToken::Band)
        } else if str_eq(t, "BOR") {
            Some(OperatorWrapToken::Bor)
        } else if str_eq(t, "BXOR") {
            Some(OperatorWrapToken::Bxor)
        } else if str_eq(t, "SL") {
            Some(OperatorWrapToken::Sl)
        } else if str_eq(t, "SR") {
            Some(OperatorWrapToken::Sr)
        } else if str_eq(t, "BSR") {
            Some(OperatorWrapToken::Bsr)
        } else if str_eq(t, "QUESTION") {
            Some(OperatorWrapToken::Question)
        } else if str_eq(t, "COLON") {
            Some(OperatorWrapToken::Colon)
        } else if str_eq(t, "ASSIGN") {
            Some(OperatorWrapToken::Assign)
        } else if str_eq(t, "PLUS_ASSIGN") {
            Some(OperatorWrapToken::PlusAssign)
        } else if str_eq(t, "MINUS_ASSIGN") {
            Some(OperatorWrapToken::MinusAssign)
        } else if str_eq(t, "STAR_ASSIGN") {
            Some(OperatorWrapToken::StarAssign)
        } else if str_eq(t, "DIV_ASSIGN") {
            Some(OperatorWrapToken::DivAssign)
        } else if str_eq(t, "MOD_ASSIGN") {
            Some(OperatorWrapToken::ModAssign)
        } else if str_eq(t, "SL_ASSIGN") {
            Some(OperatorWrapToken::SlAssign)
        } else if str_eq(t, "SR_ASSIGN") {
            Some(OperatorWrapToken::SrAssign)
        } else if str_eq(t, "BSR_ASSIGN") {
            Some(OperatorWrapToken::BsrAssign)
        } else if str_eq(t, "BXOR_ASSIGN") {
            Some(OperatorWrapToken::BxorAssign)
        } else if str_eq(t, "BOR_ASSIGN") {
            Some(OperatorWrapToken::BorAssign)
        } else if str_eq(t, "BAND_ASSIGN") {
            Some(OperatorWrapToken::BandAssign)
        } else if str_eq(t, "TYPE_EXTENSION_AND") {
            Some(OperatorWrapToken::TypeExtensionAnd)
        } else if str_eq(t, "LITERAL_INSTANCEOF") {
            Some(OperatorWrapToken::LiteralInstanceof)
        } else if str_eq(t, "METHOD_REF") {
            Some(OperatorWrapToken::MethodRef)
        } else {
            None
        }
    }
}

/// `t` is one of `tokens`.
fn has_operator_wrap_token(tokens: &Vec<OperatorWrapToken>, t: OperatorWrapToken) -> (r: bool)
    ensures
        r == tokens@.contains(t),
{
    let mut i: usize = 0;
    while i < tokens.len()
        invariant
            0 <= i <= tokens@.len(),
            forall|k: int| 0 <= k < i ==> tokens@[k] != t,
        decreases tokens@.len() - i,
    {
        if tokens[i] == t {
            return true;
        }
        i = i + 1;
    }
    false
}

/// The tokens named by the comma-separated list `pieces`, in order; names that stand for no token are skipped.
fn parse_operator_wrap_tokens(pieces: &Vec<String>) -> (r: Vec<OperatorWrapToken>)
    ensures
        r@ == filter_map(str_views(pieces@), |p: Seq<char>| operator_wrap_token_named(trim_chars(p))),
{
    let mut out: Vec<OperatorWrapToken> = Vec::new();
    let mut i: usize = 0;
    proof {
        assert(str_views(pieces@).subrange(0, 0) =~= Seq::<Seq<char>>::empty());
    }
    while i < pieces.len()
        invariant
            0 <= i <= pieces@.len(),
            out@ == filter_map(str_views(pieces@).subrange(0, i as int), |p: Seq<char>| operator_wrap_token_named(trim_chars(p))),
        decreases pieces@.len() - i,
    {
        let ghost pre = str_views(pieces@).subrange(0, i as int);
        let ghost cur = str_views(pieces@).subrange(0, i + 1);
        proof {
            assert(cur.drop_last() =~= pre);
            assert(cur.last() == pieces@[i as int]@);
        }
        match OperatorWrapToken::from_checkstyle_name(pieces[i].as_str()) {
            Some(t) => {
                out.push(t);
            },
            None => {},
        }
        i = i + 1;
    }
    proof {
        assert(str_views(pieces@).subrange(0, pieces@.len() as int) =~= str_views(pieces@));
    }
    out
}

/// The token of the operator text `s`, if any.
pub open spec fn operator_token_of(s: Seq<char>) -> Option<OperatorWrapToken> {
    if s == "+"@ {
        Some(OperatorWrapToken::Plus)
    } else if s == "-"@ {
        Some(OperatorWrapToken::Minus)
    } else if s == "*"@ {
        Some(OperatorWrapToken::Star)
    } else if s == "/"@ {
        Some(OperatorWrapToken::Div)
    } else if s == "%"@ {
        Some(OperatorWrapToken::Mod)
    } else if s == "=="@ {
        Some(OperatorWrapToken::Equal)
    } else if s == "!="@ {
        Some(OperatorWrapToken::NotEqual)
    } else if s == ">"@ {
        Some(OperatorWrapToken::Gt)
    } else if s == ">="@ {
        Some(OperatorWrapToken::Ge)
    } else if s == "<"@ {
        Some(OperatorWrapToken::Lt)
    } else if s == "<="@ {
        Some(OperatorWrapToken::Le)
    } else if s == "&&"@ {
        Some(OperatorWrapToken::Land)
    } else if s == "||"@ {
        Some(OperatorWrapToken::Lor)
    } else if s == "&"@ {
        Some(OperatorWrapToken::Band)
    } else if s == "|"@ {
        Some(OperatorWrapToken::Bor)
    } else if s == "^"@ {
        Some(OperatorWrapToken::Bxor)
    } else if s == "<<"@ {
        Some(OperatorWrapToken::Sl)
    } else if s == ">>"@ {
        Some(OperatorWrapToken::Sr)
    } else if s == ">>>"@ {
        Some(OperatorWrapToken::Bsr)
    } else if s == "?"@ {
        Some(OperatorWrapToken::Question)
    } else if s == ":"@ {
        Some(OperatorWrapToken::Colon)
    } else if s == "="@ {
        Some(OperatorWrapToken::Assign)
    } else if s == "+="@ {
        Some(OperatorWrapToken::PlusAssign)
    } else if s == "-="@ {
        Some(OperatorWrapToken::MinusAssign)
    } else if s == "*="@ {
        Some(OperatorWrapToken::StarAssign)
    } else if s == "/="@ {
        Some(OperatorWrapToken::DivAssign)
    } else if s == "%="@ {
        Some(OperatorWrapToken::ModAssign)
    } else if s == "<<="@ {
        Some(OperatorWrapToken::SlAssign)
    } else if s == ">>="@ {
        Some(OperatorWrapToken::SrAssign)
    } else if s == ">>>="@ {
        Some(OperatorWrapToken::BsrAssign)
    } else if s == "^="@ {
        Some(OperatorWrapToken::BxorAssign)
    } else if s == "|="@ {
        Some(OperatorWrapToken::BorAssign)
    } else if s == "&="@ {
        Some(OperatorWrapToken::BandAssign)
    } else if s == "instanceof"@ {
        Some(OperatorWrapToken::LiteralInstanceof)
    } else if s == "::"@ {
        Some(OperatorWrapToken::MethodRef)
    } else {
        None
    }
}

/// The tokens checked by default.
pub open spec fn default_operator_wrap_tokens() -> Seq<OperatorWrapToken> {
    seq![OperatorWrapToken::Question, OperatorWrapToken::Colon, OperatorWrapToken::Equal, OperatorWrapToken::NotEqual, OperatorWrapToken::Div, OperatorWrapToken::Plus, OperatorWrapToken::Minus, OperatorWrapToken::Star, OperatorWrapToken::Mod, OperatorWrapToken::Sr, OperatorWrapToken::Bsr, OperatorWrapToken::Ge, OperatorWrapToken::Gt, OperatorWrapToken::Sl, OperatorWrapToken::Le, OperatorWrapToken::Lt, OperatorWrapToken::Bxor, OperatorWrapToken::Bor, OperatorWrapToken::Lor, OperatorWrapToken::Band, OperatorWrapToken::Land, OperatorWrapToken::TypeExtensionAnd, OperatorWrapToken::LiteralInstanceof]
}

impl OperatorWrapToken {
    /// The token of the operator text `op`, if any.
    pub fn from_operator(op: &str) -> (r: Option<Self>)
        ensures
            r == operator_token_of(op@),
    {
        if str_eq(op, "+") {
            Some(OperatorWrapToken::Plus)
        } else if str_eq(op, "-") {
            Some(OperatorWrapToken::Minus)
        } else if str_eq(op, "*") {
            Some(OperatorWrapToken::Star)
        } else if str_eq(op, "/") {
            Some(OperatorWrapToken::Div)
        } else if str_eq(op, "%") {
            Some(OperatorWrapToken::Mod)
        } else if str_eq(op, "==") {
            Some(OperatorWrapToken::Equal)
        } else if str_eq(op, "!=") {
            Some(OperatorWrapToken::NotEqual)
        } else if str_eq(op, ">") {
            Some(OperatorWrapToken::Gt)
        } else if str_eq(op, ">=") {
            Some(OperatorWrapToken::Ge)
        } else if str_eq(op, "<") {
            Some(OperatorWrapToken::Lt)
        } else if str_eq(op, "<=") {
            Some(OperatorWrapToken::Le)
        } else if str_eq(op, "&&") {
            Some(OperatorWrapToken::Land)
        } else if str_eq(op, "||") {
            Some(OperatorWrapToken::Lor)
        } else if str_eq(op, "&") {
            Some(OperatorWrapToken::Band)
        } else if str_eq(op, "|") {
            Some(OperatorWrapToken::Bor)
        } else if str_eq(op, "^") {
            Some(OperatorWrapToken::Bxor)
        } else if str_eq(op, "<<") {
            Some(OperatorWrapToken::Sl)
        } else if str_eq(op, ">>") {
            Some(OperatorWrapToken::Sr)
        } else if str_eq(op, ">>>") {
            Some(OperatorWrapToken::Bsr)
        } else if str_eq(op, "?") {
            Some(OperatorWrapToken::Question)
        } else if str_eq(op, ":") {
            Some(OperatorWrapToken::Colon)
        } else if str_eq(op, "=") {
            Some(OperatorWrapToken::Assign)
        } else if str_eq(op, "+=") {
            Some(OperatorWrapToken::PlusAssign)
        } else if str_eq(op, "-=") {
            Some(OperatorWrapToken::MinusAssign)
        } else if str_eq(op, "*=") {
            Some(OperatorWrapToken::StarAssign)
        } else if str_eq(op, "/=") {
            Some(OperatorWrapToken::DivAssign)
        } else if str_eq(op, "%=") {
            Some(OperatorWrapToken::ModAssign)
        } else if str_eq(op, "<<=") {
            Some(OperatorWrapToken::SlAssign)
        } else if str_eq(op, ">>=") {
            Some(OperatorWrapToken::SrAssign)
        } else if str_eq(op, ">>>=") {
            Some(OperatorWrapToken::BsrAssign)
        } else if str_eq(op, "^=") {
            Some(OperatorWrapToken::BxorAssign)
        } else if str_eq(op, "|=") {
            Some(OperatorWrapToken::BorAssign)
        } else if str_eq(op, "&=") {
            Some(OperatorWrapToken::BandAssign)
        } else if str_eq(op, "instanceof") {
            Some(OperatorWrapToken::LiteralInstanceof)
        } else if str_eq(op, "::") {
            Some(OperatorWrapToken::MethodRef)
        } else {
            None
        }
    }

    /// The tokens checked by default.
    pub fn default_tokens() -> (r: Vec<Self>)
        ensures
            r@ == default_operator_wrap_tokens(),
    {
        let mut tokens: Vec<OperatorWrapToken> = Vec::new();
        tokens.push(OperatorWrapToken::Question);
        tokens.push(OperatorWrapToken::Colon);
        tokens.push(OperatorWrapToken::Equal);
        tokens.push(OperatorWrapToken::NotEqual);
        tokens.push(OperatorWrapToken::Div);
        tokens.push(OperatorWrapToken::Plus);
        tokens.push(OperatorWrapToken::Minus);
        tokens.push(OperatorWrapToken::Star);
        tokens.push(OperatorWrapToken::Mod);
        tokens.push(OperatorWrapToken::Sr);
        tokens.push(OperatorWrapToken::Bsr);
        tokens.push(OperatorWrapToken::Ge);
        tokens.push(OperatorWrapToken::Gt);
        tokens.push(OperatorWrapToken::Sl);
        tokens.push(OperatorWrapToken::Le);
        tokens.push(OperatorWrapToken::Lt);
        tokens.push(OperatorWrapToken::Bxor);
        tokens.push(OperatorWrapToken::Bor);
        tokens.push(OperatorWrapToken::Lor);
        tokens.push(OperatorWrapToken::Band);
        tokens.push(OperatorWrapToken::Land);
        tokens.push(OperatorWrapToken::TypeExtensionAnd);
        tokens.push(OperatorWrapToken::LiteralInstanceof);
        proof {
            assert(tokens@ =~= default_operator_wrap_tokens());
        }
        tokens
    }
}

/// The OperatorWrap rule.
#[derive(Clone, Debug)]
pub struct OperatorWrap {
    pub option: WrapOption,
    pub tokens: Vec<OperatorWrapToken>,
}

/// The text between byte offsets `a` and `b` holds a comment opener.
pub open spec fn comment_between(b: Seq<u8>, a: int, c: int) -> bool {
    let t = decode_utf8(b.subrange(a, c));
    has_substring(t, "//"@) || has_substring(t, "/*"@)
}

/// The fix that moves the operator `op` to the start of the right operand's
/// line: unless a comment lies between operator and operand, the text between
/// the operands becomes a line break, the indentation of the operand's line,
/// the operator and a space.
pub open spec fn spec_fix_nl(tree: CstTree, left: int, op: int, right: int, op_text: Seq<char>) -> Option<Seq<(Option<Seq<char>>, int, int)>> {
    let b = tree.src_bytes();
    let (le, os, oe, rs) = (tree.end_of(left), tree.start_of(op), tree.end_of(op), tree.start_of(right));
    if oe > rs || le > rs || comment_between(b, oe, rs) {
        None
    } else {
        let indent = head_ws(after_last_lf(chars_before(b, rs)));
        Some(seq![(Some(seq!['\n'] + indent + op_text + seq![' ']), le, rs)])
    }
}

/// The fix that moves the operator `op` to the end of the left operand's line:
/// unless a comment lies between operand and operator, the text between the
/// operands becomes a space, the operator, a line break and the indentation of
/// the right operand's line.
pub open spec fn spec_fix_eol(tree: CstTree, left: int, op: int, right: int, op_text: Seq<char>) -> Option<Seq<(Option<Seq<char>>, int, int)>> {
    let b = tree.src_bytes();
    let (le, os, rs) = (tree.end_of(left), tree.start_of(op), tree.start_of(right));
    if le > os || le > rs || comment_between(b, le, os) {
        None
    } else {
        let indent = head_ws(after_last_lf(chars_before(b, rs)));
        Some(seq![(Some(seq![' '] + op_text + seq!['\n'] + indent), le, rs)])
    }
}

/// The diagnostic for the operator `op` between `left` and `right`, if it is misplaced.
pub open spec fn spec_wrap(opt: WrapOption, tree: CstTree, left: int, op: int, right: int, op_text: Seq<char>) -> Seq<DiagView> {
    let b = tree.src_bytes();
    let ll = line_index(b, tree.end_of(left));
    let rl = line_index(b, tree.start_of(right));
    let ol = line_index(b, tree.start_of(op));
    if ll == rl {
        seq![]
    } else if opt == WrapOption::Nl {
        if ol == ll && ol != rl {
            seq![("OperatorShouldBeOnNewLine"@, "'"@ + op_text + "' should be on a new line."@, tree.start_of(op), tree.end_of(op),
                safe_fix(spec_fix_nl(tree, left, op, right, op_text)))]
        } else {
            seq![]
        }
    } else if ol != ll {
        seq![("OperatorShouldBeOnPrevLine"@, "'"@ + op_text + "' should be on the previous line."@, tree.start_of(op), tree.end_of(op),
            safe_fix(spec_fix_eol(tree, left, op, right, op_text)))]
    } else {
        seq![]
    }
}

/// The index of the first of `ch` whose text is `t`.
pub open spec fn first_text(tree: CstTree, ch: Seq<usize>, t: Seq<char>, from: int) -> Option<int>
    decreases ch.len() - from,
{
    if from < 0 || from >= ch.len() {
        None
    } else if tree.text_of(ch[from] as int) == t {
        Some(from)
    } else {
        first_text(tree, ch, t, from + 1)
    }
}

/// The check of the first operator with text `t` among `ch`, between its neighbours.
pub open spec fn spec_wrap_first(opt: WrapOption, tree: CstTree, ch: Seq<usize>, t: Seq<char>) -> Seq<DiagView> {
    let i = first_text(tree, ch, t, 0);
    if i is None || i.unwrap() == 0 || i.unwrap() + 1 >= ch.len() {
        seq![]
    } else {
        let k = i.unwrap();
        spec_wrap(opt, tree, ch[k - 1] as int, ch[k] as int, ch[k + 1] as int, t)
    }
}

/// The check of an operator that is the second of at least three operands and operators.
pub open spec fn spec_wrap_middle(opt: WrapOption, tokens: Seq<OperatorWrapToken>, tree: CstTree, ch: Seq<usize>) -> Seq<DiagView> {
    if ch.len() < 3 {
        seq![]
    } else {
        let t = tree.text_of(ch[1] as int);
        let tok = operator_token_of(t);
        if tok is None || !tokens.contains(tok.unwrap()) {
            seq![]
        } else {
            spec_wrap(opt, tree, ch[0] as int, ch[1] as int, ch[2] as int, t)
        }
    }
}

/// The checks of the `&` operators among `ch[0..n]`, in order.
pub open spec fn spec_ands(opt: WrapOption, tree: CstTree, ch: Seq<usize>, n: int) -> Seq<DiagView>
    decreases n,
{
    if n <= 0 || n > ch.len() {
        seq![]
    } else {
        let i = n - 1;
        spec_ands(opt, tree, ch, n - 1) + if tree.text_of(ch[i] as int) == "&"@ && i > 0 && i + 1 < ch.len() {
            spec_wrap(opt, tree, ch[i - 1] as int, ch[i] as int, ch[i + 1] as int, "&"@)
        } else {
            seq![]
        }
    }
}

/// The diagnostics of OperatorWrap at node `node`.
pub open spec fn spec_check(rule: OperatorWrap, tree: CstTree, node: int) -> Seq<DiagView> {
    let k = tree.kind_of(node);
    let ch = tree.non_extra(tree.children_of(node));
    let tokens = rule.tokens@;
    let o = rule.option;
    if k == "binary_expression"@ || k == "assignment_expression"@ {
        spec_wrap_middle(o, tokens, tree, ch)
    } else if k == "ternary_expression"@ {
        if ch.len() < 5 {
            seq![]
        } else {
            (if tree.text_of(ch[1] as int) == "?"@ && tokens.contains(OperatorWrapToken::Question) {
                spec_wrap(o, tree, ch[0] as int, ch[1] as int, ch[2] as int, "?"@)
            } else {
                seq![]
            }) + (if tree.text_of(ch[3] as int) == ":"@ && tokens.contains(OperatorWrapToken::Colon) {
                spec_wrap(o, tree, ch[2] as int, ch[3] as int, ch[4] as int, ":"@)
            } else {
                seq![]
            })
        }
    } else if k == "variable_declarator"@ {
        if !tokens.contains(OperatorWrapToken::Assign) || ch.len() < 3 { seq![] } else { spec_wrap_first(o, tree, ch, "="@) }
    } else if k == "instanceof_expression"@ {
        if !tokens.contains(OperatorWrapToken::LiteralInstanceof) || ch.len() < 3 { seq![] } else { spec_wrap_first(o, tree, ch, "instanceof"@) }
    } else if k == "type_bound"@ {
        if !tokens.contains(OperatorWrapToken::TypeExtensionAnd) { seq![] } else { spec_ands(o, tree, ch, ch.len() as int) }
    } else if k == "method_reference"@ {
        if !tokens.contains(OperatorWrapToken::MethodRef) { seq![] } else { spec_wrap_first(o, tree, ch, "::"@) }
    } else if k == "enhanced_for_statement"@ {
        if !tokens.contains(OperatorWrapToken::Colon) { seq![] } else { spec_wrap_first(o, tree, ch, ":"@) }
    } else if k == "resource"@ || k == "element_value_pair"@ {
        if !tokens.contains(OperatorWrapToken::Assign) { seq![] } else { spec_wrap_first(o, tree, ch, "="@) }
    } else {
        seq![]
    }
}

impl Default for OperatorWrap {
    /// The rule with option `nl` and the default tokens.
    fn default() -> (r: Self)
        ensures
            r.option == WrapOption::Nl,
            r.tokens@ == default_operator_wrap_tokens(),
    {
        OperatorWrap { option: WrapOption::Nl, tokens: OperatorWrapToken::default_tokens() }
    }
}

impl OperatorWrap {
    /// The rule as the properties configure it: `option` (`eol` or `EOL`
    /// selects end of line; anything else new line) and `tokens` (absent, or
    /// naming no token: the defaults).
    pub fn from_config(properties: &Properties) -> (r: Self)
        ensures
            r.option == match properties.lookup("option"@) {
                Some(v) => if v == "eol"@ || v == "EOL"@ { WrapOption::Eol } else { WrapOption::Nl },
                None => WrapOption::Nl,
            },
            r.tokens@ == match properties.lookup("tokens"@) {
                Some(v) => {
                    let parsed = filter_map(split_commas(v), |p: Seq<char>| operator_wrap_token_named(trim_chars(p)));
                    if parsed.len() == 0 { default_operator_wrap_tokens() } else { parsed }
                },
                None => default_operator_wrap_tokens(),
            },
    {
        let option = match properties.get("option") {
            Some(v) => if str_eq(v, "eol") || str_eq(v, "EOL") { WrapOption::Eol } else { WrapOption::Nl },
            None => WrapOption::Nl,
        };
        let tokens = match properties.get("tokens") {
            Some(v) => {
                let pieces = split_commas_exec(v);
                let parsed = parse_operator_wrap_tokens(&pieces);
                if parsed.len() == 0 {
                    OperatorWrapToken::default_tokens()
                } else {
                    parsed
                }
            },
            None => OperatorWrapToken::default_tokens(),
        };
        OperatorWrap { option, tokens }
    }

    /// The rule's name.
    pub fn name(&self) -> (r: &'static str)
        ensures
            r@ == "OperatorWrap"@,
    {
        "OperatorWrap"
    }

    /// The node kinds the rule looks at.
    pub fn relevant_kinds(&self) -> (r: Vec<&'static str>)
        ensures
            r@.map_values(|s: &str| s@) == seq!["binary_expression"@, "ternary_expression"@, "assignment_expression"@, "variable_declarator"@, "instanceof_expression"@, "type_bound"@, "method_reference"@, "enhanced_for_statement"@, "resource"@, "element_value_pair"@],
    {
        let r = vec![
            "binary_expression",
            "ternary_expression",
            "assignment_expression",
            "variable_declarator",
            "instanceof_expression",
            "type_bound",
            "method_reference",
            "enhanced_for_statement",
            "resource",
            "element_value_pair"
        ];
        proof {
            assert(r@.map_values(|s: &str| s@) =~= seq!["binary_expression"@, "ternary_expression"@, "assignment_expression"@, "variable_declarator"@, "instanceof_expression"@, "type_bound"@, "method_reference"@, "enhanced_for_statement"@, "resource"@, "element_value_pair"@]);
        }
        r
    }

    /// The violations at node `node`.
    #[verifier::spinoff_prover]
    pub fn check(&self, tree: &CstTree, node: usize) -> (r: Vec<Diagnostic>)
        requires
            tree.wf(),
            node < tree.node_count(),
        ensures
            diag_views(r@) == spec_check(*self, *tree, node as int),
    {
        let k = tree.kind(node);
        let ch = tree.non_extra_children(node);
        let t = &self.tokens;
        if str_eq(k, "binary_expression") || str_eq(k, "assignment_expression") {
            self.wrap_middle(tree, &ch)
        } else if str_eq(k, "ternary_expression") {
            if ch.len() < 5 {
                no_diags()
            } else {
                let mut d = if str_eq(tree.text(ch[1]), "?") && has_operator_wrap_token(t, OperatorWrapToken::Question) {
                    self.check_wrap(tree, ch[0], ch[1], ch[2], "?")
                } else {
                    no_diags()
                };
                let c = if str_eq(tree.text(ch[3]), ":") && has_operator_wrap_token(t, OperatorWrapToken::Colon) {
                    self.check_wrap(tree, ch[2], ch[3], ch[4], ":")
                } else {
                    no_diags()
                };
                append_diags(&mut d, c);
                d
            }
        } else if str_eq(k, "variable_declarator") {
            if !has_operator_wrap_token(t, OperatorWrapToken::Assign) || ch.len() < 3 { no_diags() } else { self.wrap_first(tree, &ch, "=") }
        } else if str_eq(k, "instanceof_expression") {
            if !has_operator_wrap_token(t, OperatorWrapToken::LiteralInstanceof) || ch.len() < 3 { no_diags() } else { self.wrap_first(tree, &ch, "instanceof") }
        } else if str_eq(k, "type_bound") {
            if !has_operator_wrap_token(t, OperatorWrapToken::TypeExtensionAnd) { no_diags() } else { self.wrap_ands(tree, &ch) }
        } else if str_eq(k, "method_reference") {
            if !has_operator_wrap_token(t, OperatorWrapToken::MethodRef) { no_diags() } else { self.wrap_first(tree, &ch, "::") }
        } else if str_eq(k, "enhanced_for_statement") {
            if !has_operator_wrap_token(t, OperatorWrapToken::Colon) { no_diags() } else { self.wrap_first(tree, &ch, ":") }
        } else if str_eq(k, "resource") || str_eq(k, "element_value_pair") {
            if !has_operator_wrap_token(t, OperatorWrapToken::Assign) { no_diags() } else { self.wrap_first(tree, &ch, "=") }
        } else {
            no_diags()
        }
    }

    fn wrap_middle(&self, tree: &CstTree, ch: &Vec<usize>) -> (r: Vec<Diagnostic>)
        requires
            tree.wf(),
            forall|x: int| 0 <= x < ch@.len() ==> #[trigger] ch@[x] < tree.node_count(),
        ensures
            diag_views(r@) == spec_wrap_middle(self.option, self.tokens@, *tree, ch@),
    {
        if ch.len() < 3 {
            return no_diags();
        }
        let text = tree.text(ch[1]);
        match OperatorWrapToken::from_operator(text) {
            Some(tok) => {
                if !has_operator_wrap_token(&self.tokens, tok) {
                    no_diags()
                } else {
                    self.check_wrap(tree, ch[0], ch[1], ch[2], text)
                }
            },
            None => no_diags(),
        }
    }

    fn wrap_first(&self, tree: &CstTree, ch: &Vec<usize>, t: &str) -> (r: Vec<Diagnostic>)
        requires
            tree.wf(),
            forall|x: int| 0 <= x < ch@.len() ==> #[trigger] ch@[x] < tree.node_count(),
        ensures
            diag_views(r@) == spec_wrap_first(self.option, *tree, ch@, t@),
    {
        let mut i: usize = 0;
        while i < ch.len()
            invariant
                tree.wf(),
                forall|x: int| 0 <= x < ch@.len() ==> #[trigger] ch@[x] < tree.node_count(),
                0 <= i <= ch@.len(),
                first_text(*tree, ch@, t@, 0) == first_text(*tree, ch@, t@, i as int),
            decreases ch@.len() - i,
        {
            if str_eq(tree.text(ch[i]), t) {
                if i == 0 || i + 1 >= ch.len() {
                    return no_diags();
                }
                return self.check_wrap(tree, ch[i - 1], ch[i], ch[i + 1], t);
            }
            i = i + 1;
        }
        no_diags()
    }

    fn wrap_ands(&self, tree: &CstTree, ch: &Vec<usize>) -> (r: Vec<Diagnostic>)
        requires
            tree.wf(),
            forall|x: int| 0 <= x < ch@.len() ==> #[trigger] ch@[x] < tree.node_count(),
        ensures
            diag_views(r@) == spec_ands(self.option, *tree, ch@, ch@.len() as int),
    {
        let mut out = no_diags();
        let mut i: usize = 0;
        while i < ch.len()
            invariant
                tree.wf(),
                forall|x: int| 0 <= x < ch@.len() ==> #[trigger] ch@[x] < tree.node_count(),
                0 <= i <= ch@.len(),
                diag_views(out@) == spec_ands(self.option, *tree, ch@, i as int),
            decreases ch@.len() - i,
        {
            if str_eq(tree.text(ch[i]), "&") && i > 0 && i + 1 < ch.len() {
                let d = self.check_wrap(tree, ch[i - 1], ch[i], ch[i + 1], "&");
                append_diags(&mut out, d);
            } else {
                proof {
                    assert(diag_views(out@) =~= diag_views(out@) + Seq::<DiagView>::empty());
                }
            }
            i = i + 1;
        }
        out
    }

    /// The diagnostic for the operator `op` between `left` and `right`, if it is misplaced.
    fn check_wrap(&self, tree: &CstTree, left: usize, op: usize, right: usize, op_text: &str) -> (r: Vec<Diagnostic>)
        requires
            tree.wf(),
            left < tree.node_count(),
            op < tree.node_count(),
            right < tree.node_count(),
        ensures
            diag_views(r@) == spec_wrap(self.option, *tree, left as int, op as int, right as int, op_text@),
    {
        let source = tree.source();
        let lr = tree.range(left);
        let orr = tree.range(op);
        let rr = tree.range(right);
        let ll = line_of_offset(source, lr.end.raw as usize);
        let rl = line_of_offset(source, rr.start.raw as usize);
        let ol = line_of_offset(source, orr.start.raw as usize);
        if ll == rl {
            return no_diags();
        }
        match self.option {
            WrapOption::Nl => {
                if ol == ll && ol != rl {
                    let v = OperatorShouldBeOnNewLine { operator: String::from_str(op_text) };
                    let fix = fix_nl(tree, left, op, right, op_text);
                    one_diag(with_opt_fix(Diagnostic::new(v.kind(), orr), fix))
                } else {
                    no_diags()
                }
            },
            WrapOption::Eol => {
                if ol != ll {
                    let v = OperatorShouldBeOnPrevLine { operator: String::from_str(op_text) };
                    let fix = fix_eol(tree, left, op, right, op_text);
                    one_diag(with_opt_fix(Diagnostic::new(v.kind(), orr), fix))
                } else {
                    no_diags()
                }
            },
        }
    }
}

/// `d` with `fix` when there is one.
fn with_opt_fix(d: Diagnostic, fix: Option<Fix>) -> (r: Diagnostic)
    requires
        d.fix.is_none(),
    ensures
        r.kind == d.kind,
        r.range == d.range,
        r.fix == fix,
{
    match fix {
        Some(f) => d.with_fix(f),
        None => d,
    }
}

/// The fix of `spec_fix_nl`.
fn fix_nl(tree: &CstTree, left: usize, op: usize, right: usize, op_text: &str) -> (r: Option<Fix>)
    requires
        tree.wf(),
        left < tree.node_count(),
        op < tree.node_count(),
        right < tree.node_count(),
    ensures
        r is Some ==> r.unwrap().applicability == Applicability::Safe,
        match r {
            Some(f) => spec_fix_nl(*tree, left as int, op as int, right as int, op_text@) == Some(edit_views(f.edits@)),
            None => spec_fix_nl(*tree, left as int, op as int, right as int, op_text@) is None,
        },
{
    let source = tree.source();
    let le = tree.range(left).end;
    let oe = tree.range(op).end;
    let rs = tree.range(right).start;
    if oe.raw > rs.raw || le.raw > rs.raw {
        return None;
    }
    let between = slice_text(source, oe.raw as usize, rs.raw as usize);
    if contains_str(between, "//") || contains_str(between, "/*") {
        return None;
    }
    let indent = line_indent_before(source, rs.raw as usize);
    proof {
        reveal_strlit("\n");
        reveal_strlit(" ");
    }
    let mut text = String::from_str("\n");
    text.append(indent.as_str());
    text.append(op_text);
    text.append(" ");
    assert(text@ =~= seq!['\n'] + indent@ + op_text@ + seq![' ']);
    let f = Fix::safe_edit(Edit::replacement(text, le, rs));
    proof {
        assert(edit_views(f.edits@) =~= seq![(Some(seq!['\n'] + indent@ + op_text@ + seq![' ']), le.raw as int, rs.raw as int)]);
    }
    Some(f)
}

/// The fix of `spec_fix_eol`.
fn fix_eol(tree: &CstTree, left: usize, op: usize, right: usize, op_text: &str) -> (r: Option<Fix>)
    requires
        tree.wf(),
        left < tree.node_count(),
        op < tree.node_count(),
        right < tree.node_count(),
    ensures
        r is Some ==> r.unwrap().applicability == Applicability::Safe,
        match r {
            Some(f) => spec_fix_eol(*tree, left as int, op as int, right as int, op_text@) == Some(edit_views(f.edits@)),
            None => spec_fix_eol(*tree, left as int, op as int, right as int, op_text@) is None,
        },
{
    let source = tree.source();
    let le = tree.range(left).end;
    let os = tree.range(op).start;
    let rs = tree.range(right).start;
    if le.raw > os.raw || le.raw > rs.raw {
        return None;
    }
    let between = slice_text(source, le.raw as usize, os.raw as usize);
    if contains_str(between, "//") || contains_str(between, "/*") {
        return None;
    }
    let indent = line_indent_before(source, rs.raw as usize);
    proof {
        reveal_strlit("\n");
        reveal_strlit(" ");
    }
    let mut text = String::from_str(" ");
    text.append(op_text);
    text.append("\n");
    text.append(indent.as_str());
    assert(text@ =~= seq![' '] + op_text@ + seq!['\n'] + indent@);
    let f = Fix::safe_edit(Edit::replacement(text, le, rs));
    proof {
        assert(edit_views(f.edits@) =~= seq![(Some(seq![' '] + op_text@ + seq!['\n'] + indent@), le.raw as int, rs.raw as int)]);
    }
    Some(f)
}

/// The rule reports only at the node kinds that `relevant_kinds` names.
pub proof fn law_reports_only_at_relevant_kinds(rule: OperatorWrap, tree: CstTree, node: int)
    requires
        !seq!["binary_expression"@, "ternary_expression"@, "assignment_expression"@, "variable_declarator"@, "instanceof_expression"@, "type_bound"@, "method_reference"@, "enhanced_for_statement"@, "resource"@, "element_value_pair"@].contains(tree.kind_of(node)),
    ensures
        spec_check(rule, tree, node) == Seq::<DiagView>::empty(),
{
    let ks = seq!["binary_expression"@, "ternary_expression"@, "assignment_expression"@, "variable_declarator"@, "instanceof_expression"@, "type_bound"@, "method_reference"@, "enhanced_for_statement"@, "resource"@, "element_value_pair"@];
    assert(ks[0] == "binary_expression"@ && ks[1] == "ternary_expression"@ && ks[2] == "assignment_expression"@ && ks[3] == "variable_declarator"@ && ks[4] == "instanceof_expression"@ && ks[5] == "type_bound"@ && ks[6] == "method_reference"@ && ks[7] == "enhanced_for_statement"@ && ks[8] == "resource"@ && ks[9] == "element_value_pair"@);
}

/// With option `nl` and `:` among the tokens, the `:` of a ternary expression
/// that stays on the line where the middle operand ends, while the last
/// operand starts on another line, is reported: the result ends with an
/// `OperatorShouldBeOnNewLine` diagnostic at that `:`.
pub proof fn law_ternary_colon_on_new_line(rule: OperatorWrap, tree: CstTree, node: int)
    requires
        tree.kind_of(node) == "ternary_expression"@,
        rule.option == WrapOption::Nl,
        rule.tokens@.contains(OperatorWrapToken::Colon),
        tree.non_extra(tree.children_of(node)).len() >= 5,
        ({
            let ch = tree.non_extra(tree.children_of(node));
            let b = tree.src_bytes();
            &&& tree.text_of(ch[3] as int) == ":"@
            &&& line_index(b, tree.end_of(ch[2] as int)) == line_index(b, tree.start_of(ch[3] as int))
            &&& line_index(b, tree.start_of(ch[3] as int)) != line_index(b, tree.start_of(ch[4] as int))
        }),
    ensures
        ({
            let ch = tree.non_extra(tree.children_of(node));
            let r = spec_check(rule, tree, node);
            &&& r.len() >= 1
            &&& r.last().0 == "OperatorShouldBeOnNewLine"@
            &&& r.last().1 == "'"@ + ":"@ + "' should be on a new line."@
            &&& r.last().2 == tree.start_of(ch[3] as int)
            &&& r.last().3 == tree.end_of(ch[3] as int)
        }),
{
    reveal_strlit("ternary_expression");
    reveal_strlit("binary_expression");
    reveal_strlit("assignment_expression");
    assert("ternary_expression"@.len() != "binary_expression"@.len());
    assert("ternary_expression"@.len() != "assignment_expression"@.len());
}

/// With option `nl` and `?` among the tokens, the `?` of a ternary expression
/// that stays on the line where the condition ends, while the middle operand
/// starts on another line, is reported: the result starts with an
/// `OperatorShouldBeOnNewLine` diagnostic at that `?`.
pub proof fn law_ternary_question_on_new_line(rule: OperatorWrap, tree: CstTree, node: int)
    requires
        tree.kind_of(node) == "ternary_expression"@,
        rule.option == WrapOption::Nl,
        rule.tokens@.contains(OperatorWrapToken::Question),
        tree.non_extra(tree.children_of(node)).len() >= 5,
        ({
            let ch = tree.non_extra(tree.children_of(node));
            let b = tree.src_bytes();
            &&& tree.text_of(ch[1] as int) == "?"@
            &&& line_index(b, tree.end_of(ch[0] as int)) == line_index(b, tree.start_of(ch[1] as int))
            &&& line_index(b, tree.start_of(ch[1] as int)) != line_index(b, tree.start_of(ch[2] as int))
        }),
    ensures
        ({
            let ch = tree.non_extra(tree.children_of(node));
            let r = spec_check(rule, tree, node);
            &&& r.len() >= 1
            &&& r[0].0 == "OperatorShouldBeOnNewLine"@
            &&& r[0].1 == "'"@ + "?"@ + "' should be on a new line."@
            &&& r[0].2 == tree.start_of(ch[1] as int)
            &&& r[0].3 == tree.end_of(ch[1] as int)
        }),
{
    reveal_strlit("ternary_expression");
    reveal_strlit("binary_expression");
    reveal_strlit("assignment_expression");
    assert("ternary_expression"@.len() != "binary_expression"@.len());
    assert("ternary_expression"@.len() != "assignment_expression"@.len());
}

} // verus!
