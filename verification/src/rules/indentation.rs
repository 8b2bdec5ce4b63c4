//! Indentation: the configuration of the rule, its two violations, and the
//! context its checks share: the lines of the source, their visual columns
//! (tabs expanded), and the diagnostics logged with their fixes.

use vstd::prelude::*;
use vstd::string::*;
use vstd::utf8::*;

use crate::config::Properties;
use crate::cst::{slice_text, CstTree};
use crate::diagnostics::{Applicability, safe_fix, diag_views, edit_views, make_kind, push_diag, DiagView, Diagnostic, DiagnosticKind, Edit, EditView, Fix};
use crate::indent_level::{join_levels, IndentLevel};
use crate::rules::empty_line_separator::next_lf;
use crate::rules::file_tab_character::{first_lf_from, lemma_first_lf_bounds, str_line_end, visual_column};
use crate::suppression::lemma_first_lf_is_lf;
use crate::strings::{decimal, int_to_string, parse_i32, parse_i32_spec, parse_usize, parse_usize_spec, push_char, str_eq, to_chars};
use crate::text::{is_white_space, is_whitespace_char, lemma_ascii_boundaries, lemma_leading_ws_bound, lemma_leading_ws_prefix, lemma_encode_concat, lemma_view_is_decode, leading_ws, utf8_len, TextRange, TextSize};

verus! {

broadcast use vstd::utf8::encode_utf8_decode_utf8, vstd::utf8::encode_utf8_valid_utf8;

/// The message of an indentation violation of `element`.
pub open spec fn indentation_message(element: Seq<char>, actual: i32, expected: Seq<char>) -> Seq<char> {
    "'"@ + element + "' has incorrect indentation level "@ + decimal(actual as int) + ", expected level should be "@ + expected
}

/// The message of an indentation violation of a child of `parent`.
pub open spec fn child_message(parent: Seq<char>, actual: i32, expected: Seq<char>) -> Seq<char> {
    "'"@ + parent + "' child has incorrect indentation level "@ + decimal(actual as int) + ", expected level should be "@
        + expected
}

/// Violation: an element is not at an expected indentation level.
#[derive(Clone, Debug)]
pub struct IndentationError {
    /// The kind of element (`class def`, `if`, `method def`, ...).
    pub element: String,
    /// The indentation found.
    pub actual: i32,
    /// The expected levels, as text.
    pub expected: String,
}

/// `a + b + c + d + e` as one string.
fn concat5(a: &str, b: &str, c: &str, d: &str, e: &str) -> (r: String)
    ensures
        r@ == a@ + b@ + c@ + d@ + e@,
{
    let mut s = String::from_str(a);
    s.append(b);
    s.append(c);
    s.append(d);
    s.append(e);
    s
}

impl IndentationError {
    /// The message of the violation.
    pub fn message(&self) -> (r: String)
        ensures
            r@ == indentation_message(self.element@, self.actual, self.expected@),
    {
        let n = int_to_string(self.actual as i64);
        let mut s = concat5("'", self.element.as_str(), "' has incorrect indentation level ", n.as_str(), ", expected level should be ");
        s.append(self.expected.as_str());
        s
    }

    /// The kind of diagnostic the violation gives.
    pub fn kind(&self) -> (r: DiagnosticKind)
        ensures
            r.name@ == "IndentationError"@,
            r.body@ == indentation_message(self.element@, self.actual, self.expected@),
    {
        make_kind("IndentationError", self.message())
    }
}

/// Violation: a child of an element is not at an expected indentation level.
#[derive(Clone, Debug)]
pub struct IndentationChildError {
    /// The kind of the parent element.
    pub parent: String,
    /// The indentation found.
    pub actual: i32,
    /// The expected levels, as text.
    pub expected: String,
}

impl IndentationChildError {
    /// The message of the violation.
    pub fn message(&self) -> (r: String)
        ensures
            r@ == child_message(self.parent@, self.actual, self.expected@),
    {
        let n = int_to_string(self.actual as i64);
        let mut s = concat5(
            "'",
            self.parent.as_str(),
            "' child has incorrect indentation level ",
            n.as_str(),
            ", expected level should be ",
        );
        s.append(self.expected.as_str());
        s
    }

    /// The kind of diagnostic the violation gives.
    pub fn kind(&self) -> (r: DiagnosticKind)
        ensures
            r.name@ == "IndentationChildError"@,
            r.body@ == child_message(self.parent@, self.actual, self.expected@),
    {
        make_kind("IndentationChildError", self.message())
    }
}

/// The Indentation rule's configuration.
#[derive(Clone, Copy, Debug)]
pub struct Indentation {
    /// How far a new indentation level is indented on the next line.
    pub basic_offset: i32,
    /// How far a brace is indented when on the next line.
    pub brace_adjustment: i32,
    /// How far a case label is indented when on the next line.
    pub case_indent: i32,
    /// How far a throws clause is indented when on the next line.
    pub throws_indent: i32,
    /// How far an array initialization is indented when on the next line.
    pub array_init_indent: i32,
    /// How far a continuation line is indented when a line is wrapped.
    pub line_wrapping_indentation: i32,
    /// Wrapped lines must sit exactly at an expected level.
    pub force_strict_condition: bool,
    /// The width of a tab.
    pub tab_width: usize,
}

impl Default for Indentation {
    /// Offsets of 4 (0 for braces), lenient wrapping, tabs of 4 columns.
    fn default() -> (r: Self)
        ensures
            r.basic_offset == 4,
            r.brace_adjustment == 0,
            r.case_indent == 4,
            r.throws_indent == 4,
            r.array_init_indent == 4,
            r.line_wrapping_indentation == 4,
            !r.force_strict_condition,
            r.tab_width == 4,
    {
        Indentation {
            basic_offset: 4,
            brace_adjustment: 0,
            case_indent: 4,
            throws_indent: 4,
            array_init_indent: 4,
            line_wrapping_indentation: 4,
            force_strict_condition: false,
            tab_width: 4,
        }
    }
}

/// The `i32` that property `key` holds, or `default`.
pub open spec fn int_property(p: Properties, key: Seq<char>, default: i32) -> i32 {
    match p.lookup(key) {
        Some(v) => match parse_i32_spec(v) {
            Some(n) => n,
            None => default,
        },
        None => default,
    }
}

/// `int_property`.
fn read_int(p: &Properties, key: &str, default: i32) -> (r: i32)
    ensures
        r == int_property(*p, key@, default),
{
    match p.get(key) {
        Some(v) => match parse_i32(v) {
            Some(n) => n,
            None => default,
        },
        None => default,
    }
}

impl Indentation {
    /// The rule as the properties configure it: each offset a decimal `i32`
    /// (otherwise its default), `forceStrictCondition` exactly `true`,
    /// `tabWidth` a decimal `usize` (otherwise 4).
    pub fn from_config(properties: &Properties) -> (r: Self)
        ensures
            r.basic_offset == int_property(*properties, "basicOffset"@, 4),
            r.brace_adjustment == int_property(*properties, "braceAdjustment"@, 0),
            r.case_indent == int_property(*properties, "caseIndent"@, 4),
            r.throws_indent == int_property(*properties, "throwsIndent"@, 4),
            r.array_init_indent == int_property(*properties, "arrayInitIndent"@, 4),
            r.line_wrapping_indentation == int_property(*properties, "lineWrappingIndentation"@, 4),
            r.force_strict_condition == (properties.lookup("forceStrictCondition"@) == Some("true"@)),
            r.tab_width == match properties.lookup("tabWidth"@) {
                Some(v) => match parse_usize_spec(v) {
                    Some(n) => n,
                    None => 4,
                },
                None => 4,
            },
    {
        let force_strict_condition = match properties.get("forceStrictCondition") {
            Some(v) => str_eq(v, "true"),
            None => false,
        };
        let tab_width = match properties.get("tabWidth") {
            Some(v) => match parse_usize(v) {
                Some(n) => n,
                None => 4,
            },
            None => 4,
        };
        Indentation {
            basic_offset: read_int(properties, "basicOffset", 4),
            brace_adjustment: read_int(properties, "braceAdjustment", 0),
            case_indent: read_int(properties, "caseIndent", 4),
            throws_indent: read_int(properties, "throwsIndent", 4),
            array_init_indent: read_int(properties, "arrayInitIndent", 4),
            line_wrapping_indentation: read_int(properties, "lineWrappingIndentation", 4),
            force_strict_condition,
            tab_width,
        }
    }

    /// The rule's name.
    pub fn name(&self) -> (r: &'static str)
        ensures
            r@ == "Indentation"@,
    {
        "Indentation"
    }

    /// The node kinds the rule looks at: the whole file, from its root.
    pub fn relevant_kinds(&self) -> (r: Vec<&'static str>)
        ensures
            r@.len() == 1,
            r@[0]@ == "program"@,
    {
        vec!["program"]
    }
}

/// The offsets where lines start among the first `i` bytes of `b`: 0, and
/// one past each line feed.
pub open spec fn lf_starts_upto(b: Seq<u8>, i: int) -> Seq<int>
    decreases i,
{
    if i <= 0 {
        seq![0]
    } else {
        let p = lf_starts_upto(b, i - 1);
        if b[i - 1] == 10 {
            p.push(i)
        } else {
            p
        }
    }
}

/// The offsets where the lines of `b` start.
pub open spec fn lf_starts(b: Seq<u8>) -> Seq<int> {
    lf_starts_upto(b, b.len() as int)
}

/// Line `k` of the text with bytes `b`, as `str::lines` gives it: split at
/// line feeds, without a `\r` before one, and no empty line after a final
/// line feed.
pub open spec fn source_line(b: Seq<u8>, k: int) -> Option<Seq<char>> {
    let st = lf_starts(b);
    if 0 <= k < st.len() && st[k] < b.len() {
        Some(decode_utf8(b.subrange(st[k], str_line_end(b, st[k]))))
    } else {
        None
    }
}

/// The number of entries of `s` at or before `off`.
pub open spec fn count_at_or_before(s: Seq<int>, off: int) -> nat
    decreases s.len(),
{
    if s.len() == 0 {
        0
    } else {
        count_at_or_before(s.drop_last(), off) + if s.last() <= off {
            1nat
        } else {
            0nat
        }
    }
}

/// The (0-based) line of byte offset `off`.
pub open spec fn line_of(b: Seq<u8>, off: int) -> int {
    count_at_or_before(lf_starts(b), off) - 1
}

/// The characters of `cs` that start before byte `off`.
pub open spec fn chars_before_byte(cs: Seq<char>, off: int) -> Seq<char>
    decreases cs.len(),
{
    if cs.len() == 0 || off <= 0 {
        seq![]
    } else {
        seq![cs[0]] + chars_before_byte(cs.drop_first(), off - utf8_len(seq![cs[0]]))
    }
}

/// The visual column of the first non-white-space character of `line`.
pub open spec fn indent_column(line: Seq<char>, tw: int) -> int {
    visual_column(line.subrange(0, leading_ws(line) as int), tw)
}

/// Tab stops can be computed for `cs`: a positive width, or no tab.
pub open spec fn tabs_ok(cs: Seq<char>, tw: int) -> bool {
    tw >= 1 || !cs.contains('\t')
}

/// The indentation of line `k` of `b` can be measured in `i32` columns with
/// tabs of width `tw` (or there is no such line).
pub open spec fn line_start_fits(b: Seq<u8>, k: int, tw: int) -> bool {
    match source_line(b, k) {
        Some(l) => {
            let p = l.subrange(0, leading_ws(l) as int);
            tabs_ok(p, tw) && visual_column(p, tw) <= i32::MAX
        },
        None => true,
    }
}

/// The column of byte offset `off` of `b` can be measured in `i32` columns
/// with tabs of width `tw`.
pub open spec fn offset_column_fits(b: Seq<u8>, off: int, tw: int) -> bool {
    let k = line_of(b, off);
    match source_line(b, k) {
        Some(l) => {
            let p = chars_before_byte(l, off - lf_starts(b)[k]);
            tabs_ok(p, tw) && visual_column(p, tw) <= i32::MAX
        },
        None => true,
    }
}

/// The visual column of byte offset `off` of the text: on its line, with tabs expanded.
pub open spec fn offset_column(b: Seq<u8>, off: int, tw: int) -> int {
    let k = line_of(b, off);
    match source_line(b, k) {
        Some(l) => visual_column(chars_before_byte(l, off - lf_starts(b)[k]), tw),
        None => 0,
    }
}

/// The indentation of line `k` (0 when there is no such line).
pub open spec fn line_start_column(b: Seq<u8>, k: int, tw: int) -> int {
    match source_line(b, k) {
        Some(l) => indent_column(l, tw),
        None => 0,
    }
}

/// `n` spaces.
pub open spec fn spaces(n: nat) -> Seq<char> {
    Seq::new(n, |i: int| ' ')
}

/// The smallest level, or 0 when there is none.
pub open spec fn first_level_of(levels: Seq<i32>) -> i32 {
    if levels.len() > 0 {
        levels[0]
    } else {
        0
    }
}

/// The edit that sets the indentation of line `k` to `expected` spaces:
/// deleting its leading white space for 0, replacing it otherwise; an empty
/// insertion at 0 when there is no such line.
pub open spec fn fix_edit(b: Seq<u8>, k: int, expected: i32) -> EditView {
    match source_line(b, k) {
        None => (Some(seq![]), 0, 0),
        Some(l) => {
            let s = lf_starts(b)[k];
            let w = utf8_len(l.subrange(0, leading_ws(l) as int));
            if expected == 0 {
                (None, s, s + w)
            } else {
                (Some(spaces(expected as nat)), s, s + w)
            }
        },
    }
}

/// The facts about the line starts: 0 first, increasing, within the text,
/// each other one just after a line feed.
pub proof fn lemma_lf_starts(b: Seq<u8>, i: int)
    requires
        0 <= i <= b.len(),
    ensures
        lf_starts_upto(b, i).len() >= 1,
        lf_starts_upto(b, i)[0] == 0,
        forall|x: int, y: int| 0 <= x < y < lf_starts_upto(b, i).len() ==> lf_starts_upto(b, i)[x] < lf_starts_upto(b, i)[y],
        forall|x: int| 0 <= x < lf_starts_upto(b, i).len() ==> 0 <= #[trigger] lf_starts_upto(b, i)[x] <= i,
        forall|x: int| 1 <= x < lf_starts_upto(b, i).len() ==> b[#[trigger] lf_starts_upto(b, i)[x] - 1] == 10,
    decreases i,
{
    if i > 0 {
        lemma_lf_starts(b, i - 1);
    }
}

/// In an increasing sequence, the entries at or before `off` come first.
proof fn lemma_count_sorted(s: Seq<int>, off: int)
    requires
        forall|x: int, y: int| 0 <= x < y < s.len() ==> s[x] < s[y],
    ensures
        count_at_or_before(s, off) <= s.len(),
        forall|x: int| 0 <= x < count_at_or_before(s, off) ==> s[x] <= off,
        forall|x: int| count_at_or_before(s, off) <= x < s.len() ==> s[x] > off,
    decreases s.len(),
{
    if s.len() > 0 {
        let d = s.drop_last();
        lemma_count_sorted(d, off);
        if s.last() <= off {
            assert forall|x: int| 0 <= x < s.len() - 1 implies d[x] <= off by {
                assert(s[x] < s[s.len() - 1]);
            }
            if count_at_or_before(d, off) < d.len() {
                assert(d[count_at_or_before(d, off) as int] > off);
                assert(false);
            }
            assert forall|x: int| 0 <= x < count_at_or_before(s, off) implies s[x] <= off by {
                if x < s.len() - 1 {
                    assert(s[x] == d[x]);
                }
            }
        } else {
            assert forall|x: int| 0 <= x < count_at_or_before(s, off) implies s[x] <= off by {
                assert(s[x] == d[x]);
            }
            assert forall|x: int| count_at_or_before(s, off) <= x < s.len() implies s[x] > off by {
                if x < s.len() - 1 {
                    assert(s[x] == d[x]);
                }
            }
        }
    }
}

/// The line of an offset is a line, and starts at or before it.
pub proof fn lemma_line_of(b: Seq<u8>, off: int)
    requires
        0 <= off,
    ensures
        0 <= line_of(b, off) < lf_starts(b).len(),
        lf_starts(b)[line_of(b, off)] <= off,
        line_of(b, off) + 1 < lf_starts(b).len() ==> lf_starts(b)[line_of(b, off) + 1] > off,
{
    let s = lf_starts(b);
    lemma_lf_starts(b, b.len() as int);
    lemma_count_sorted(s, off);
    if count_at_or_before(s, off) == 0 {
        assert(s[0] > off);
    }
}

/// The characters before a byte offset are a prefix.
pub proof fn lemma_chars_before_prefix(cs: Seq<char>, off: int)
    ensures
        chars_before_byte(cs, off).len() <= cs.len(),
        chars_before_byte(cs, off) == cs.subrange(0, chars_before_byte(cs, off).len() as int),
    decreases cs.len(),
{
    if cs.len() > 0 && off > 0 {
        lemma_chars_before_prefix(cs.drop_first(), off - utf8_len(seq![cs[0]]));
        let r = chars_before_byte(cs.drop_first(), off - utf8_len(seq![cs[0]]));
        assert(seq![cs[0]] + r =~= cs.subrange(0, r.len() + 1int));
    } else {
        assert(cs.subrange(0, 0) =~= Seq::<char>::empty());
    }
}

/// Visual columns grow along a line.
pub proof fn lemma_visual_mono(cs: Seq<char>, k: int, tw: int)
    requires
        0 <= k <= cs.len(),
        tabs_ok(cs, tw),
    ensures
        0 <= visual_column(cs.subrange(0, k), tw) <= visual_column(cs, tw),
    decreases cs.len() - k,
{
    if k < cs.len() {
        lemma_visual_mono(cs, k + 1, tw);
        let p = cs.subrange(0, k + 1);
        let q = cs.subrange(0, k);
        assert(p.drop_last() =~= q);
        assert(tabs_ok(q, tw)) by {
            if q.contains('\t') {
                let x = choose|x: int| 0 <= x < q.len() && q[x] == '\t';
                assert(cs[x] == '\t');
            }
        }
        lemma_visual_nonneg(q, tw);
        let v = visual_column(q, tw);
        if p.last() == '\t' {
            assert(cs.contains('\t')) by {
                assert(cs[k] == '\t');
            }
            assert(v % tw < tw) by (nonlinear_arith)
                requires
                    tw >= 1,
                    v >= 0,
            ;
        }
    } else {
        assert(cs.subrange(0, k) =~= cs);
        lemma_visual_nonneg(cs, tw);
    }
}

/// Visual columns are not negative.
pub proof fn lemma_visual_nonneg(cs: Seq<char>, tw: int)
    requires
        tabs_ok(cs, tw),
    ensures
        visual_column(cs, tw) >= 0,
    decreases cs.len(),
{
    if cs.len() > 0 {
        let d = cs.drop_last();
        assert(tabs_ok(d, tw)) by {
            if d.contains('\t') {
                let x = choose|x: int| 0 <= x < d.len() && d[x] == '\t';
                assert(cs[x] == '\t');
            }
        }
        lemma_visual_nonneg(d, tw);
        if cs.last() == '\t' {
            assert(cs.contains('\t')) by {
                assert(cs[cs.len() - 1] == '\t');
            }
        }
    }
}

/// The context that the checks of a file share: its text and line starts,
/// the configuration, the tab width, and the diagnostics logged so far.
pub struct HandlerContext {
    source: String,
    line_offsets: Vec<usize>,
    config: Indentation,
    tab_width: usize,
    diagnostics: Vec<Diagnostic>,
}

impl HandlerContext {
    /// The text's bytes.
    pub closed spec fn bytes(&self) -> Seq<u8> {
        encode_utf8(self.source@)
    }

    /// The text.
    pub closed spec fn src(&self) -> Seq<char> {
        self.source@
    }

    /// The tab width.
    pub closed spec fn tw(&self) -> int {
        self.tab_width as int
    }

    /// The configuration.
    pub closed spec fn conf(&self) -> Indentation {
        self.config
    }

    /// The diagnostics logged so far.
    pub closed spec fn logged(&self) -> Seq<DiagView> {
        diag_views(self.diagnostics@)
    }

    /// The line starts are those of the text, and the text fits text sizes.
    pub closed spec fn wf(&self) -> bool {
        &&& self.line_offsets@.map_values(|x: usize| x as int) == lf_starts(self.bytes())
        &&& self.bytes().len() < u32::MAX
    }

    /// The context of `source`: its line starts, no diagnostics yet.
    pub fn new(source: &str, config: &Indentation, tab_width: usize) -> (r: Self)
        requires
            source.spec_bytes().len() < u32::MAX,
        ensures
            r.wf(),
            r.src() == source@,
            r.bytes() == source.spec_bytes(),
            r.conf() == *config,
            r.tw() == tab_width,
            r.logged() == Seq::<DiagView>::empty(),
    {
        let b = source.as_bytes();
        let mut offs: Vec<usize> = Vec::new();
        offs.push(0);
        let mut i: usize = 0;
        proof {
            assert(offs@.map_values(|x: usize| x as int) =~= lf_starts_upto(b@, 0));
        }
        while i < b.len()
            invariant
                b@ == source.spec_bytes(),
                b@.len() < u32::MAX,
                0 <= i <= b@.len(),
                offs@.map_values(|x: usize| x as int) == lf_starts_upto(b@, i as int),
            decreases b@.len() - i,
        {
            if b[i] == 10 {
                let ghost before = offs@;
                offs.push(i + 1);
                proof {
                    assert(offs@.map_values(|x: usize| x as int) =~= before.map_values(|x: usize| x as int).push(i + 1));
                }
            }
            i = i + 1;
        }
        let r = HandlerContext {
            source: String::from_str(source),
            line_offsets: offs,
            config: *config,
            tab_width,
            diagnostics: Vec::new(),
        };
        proof {
            assert(r.logged() =~= Seq::<DiagView>::empty());
        }
        r
    }
}

/// The number of bytes of `c` in UTF-8.
fn char_width(c: char) -> (r: usize)
    ensures
        r == utf8_len(seq![c]),
        1 <= r <= 4,
{
    proof {
        vstd::utf8::char_is_scalar(c);
        assert(seq![c].drop_first() =~= Seq::<char>::empty());
        assert(encode_utf8(seq![c]) == encode_scalar(c as u32) + encode_utf8(Seq::<char>::empty()));
    }
    let u = c as u32;
    if u < 0x80 {
        1
    } else if u < 0x800 {
        2
    } else if u < 0x10000 {
        3
    } else {
        4
    }
}

/// One step of the visual column: past a tab to the next tab stop, past
/// anything else by one column.
fn column_step(col: u64, c: char, tw: u64) -> (r: u64)
    requires
        col <= i32::MAX,
        c == '\t' ==> tw >= 1 && col + tw - col % tw <= i32::MAX,
    ensures
        r == if c == '\t' { col + tw - col % tw } else { col + 1 },
{
    if c == '\t' {
        let q = col / tw;
        proof {
            assert((q + 1) * tw == col + tw - col % tw) by (nonlinear_arith)
                requires
                    q == col / tw,
                    tw >= 1,
                    col >= 0,
            ;
        }
        (q + 1) * tw
    } else {
        col + 1
    }
}

/// The prefix `cs[..k + 1]` of `t` ends one step after `cs[..k]`.
proof fn lemma_visual_step(cs: Seq<char>, k: int, tw: int)
    requires
        0 <= k < cs.len(),
    ensures
        visual_column(cs.subrange(0, k + 1), tw) == if cs[k] == '\t' {
            visual_column(cs.subrange(0, k), tw) + tw - visual_column(cs.subrange(0, k), tw) % tw
        } else {
            visual_column(cs.subrange(0, k), tw) + 1
        },
{
    assert(cs.subrange(0, k + 1).drop_last() =~= cs.subrange(0, k));
}

impl HandlerContext {
    /// The text.
    pub fn source(&self) -> (r: &str)
        ensures
            r@ == self.src(),
            r.spec_bytes() == self.bytes(),
    {
        self.source.as_str()
    }

    /// The configuration.
    pub fn config(&self) -> (r: &Indentation)
        ensures
            *r == self.conf(),
    {
        &self.config
    }

    /// The configured basic offset.
    pub fn basic_offset(&self) -> (r: i32)
        ensures
            r == self.conf().basic_offset,
    {
        self.config.basic_offset
    }

    /// The configured brace adjustment.
    pub fn brace_adjustment(&self) -> (r: i32)
        ensures
            r == self.conf().brace_adjustment,
    {
        self.config.brace_adjustment
    }

    /// The configured case indent.
    pub fn case_indent(&self) -> (r: i32)
        ensures
            r == self.conf().case_indent,
    {
        self.config.case_indent
    }

    /// The configured throws indent.
    pub fn throws_indent(&self) -> (r: i32)
        ensures
            r == self.conf().throws_indent,
    {
        self.config.throws_indent
    }

    /// The configured array initializer indent.
    pub fn array_init_indent(&self) -> (r: i32)
        ensures
            r == self.conf().array_init_indent,
    {
        self.config.array_init_indent
    }

    /// The configured line wrapping indentation.
    pub fn line_wrapping_indentation(&self) -> (r: i32)
        ensures
            r == self.conf().line_wrapping_indentation,
    {
        self.config.line_wrapping_indentation
    }

    /// Whether wrapped lines must sit exactly at a level.
    pub fn force_strict_condition(&self) -> (r: bool)
        ensures
            r == self.conf().force_strict_condition,
    {
        self.config.force_strict_condition
    }

    /// `actual` is acceptable for wrapped content: one of the levels when the
    /// condition is strict, at or past the smallest level otherwise.
    pub fn is_indent_acceptable(&self, actual: i32, expected: &IndentLevel) -> (r: bool)
        ensures
            r == if self.conf().force_strict_condition {
                expected@.contains(actual)
            } else {
                expected@.len() > 0 && actual >= expected@[0]
            },
    {
        expected.is_acceptable_with_force_strict(actual, self.config.force_strict_condition)
    }

    /// `actual` is exactly one of the levels (structural indentation).
    pub fn is_indent_exact(&self, actual: i32, expected: &IndentLevel) -> (r: bool)
        ensures
            r == expected@.contains(actual),
    {
        expected.is_acceptable(actual)
    }

    /// The tab width.
    pub fn tab_width(&self) -> (r: usize)
        ensures
            r == self.tw(),
    {
        self.tab_width
    }

    /// Line `line_no` (0-based), as `str::lines` gives it.
    pub fn get_line(&self, line_no: usize) -> (r: Option<&str>)
        requires
            self.wf(),
        ensures
            match r {
                Some(l) => source_line(self.bytes(), line_no as int) == Some(l@),
                None => source_line(self.bytes(), line_no as int) is None,
            },
    {
        let src = self.source.as_str();
        let b = src.as_bytes();
        let ghost st = lf_starts(b@);
        proof {
            lemma_lf_starts(b@, b@.len() as int);
            lemma_view_is_decode(src);
        }
        if line_no < self.line_offsets.len() && self.line_offsets[line_no] < b.len() {
            let s = self.line_offsets[line_no];
            proof {
                assert(self.line_offsets@.map_values(|x: usize| x as int)[line_no as int] == s as int);
                if s > 0 {
                    assert(line_no >= 1);
                    lemma_ascii_boundaries(b@, s - 1);
                }
            }
            let nl = next_lf(b, s);
            let e = if nl < b.len() && nl > s && b[nl - 1] == 13 {
                nl - 1
            } else {
                nl
            };
            proof {
                if nl < b@.len() {
                    lemma_first_lf_is_lf(b@, s as int);
                    lemma_ascii_boundaries(b@, nl as int);
                    if e < nl {
                        lemma_ascii_boundaries(b@, e as int);
                    }
                } else {
                    vstd::utf8::is_char_boundary_start_end_of_seq(b@);
                }
            }
            Some(slice_text(src, s, e))
        } else {
            proof {
                if line_no < self.line_offsets@.len() {
                    assert(self.line_offsets@.map_values(|x: usize| x as int)[line_no as int] == self.line_offsets@[line_no as int]);
                }
            }
            None
        }
    }

    /// The visual column (tabs expanded) of byte `byte_offset` of `line`:
    /// the columns of the characters that start before it.
    pub fn expanded_tabs_column(&self, line: &str, byte_offset: usize) -> (r: i32)
        requires
            tabs_ok(chars_before_byte(line@, byte_offset as int), self.tw()),
            visual_column(chars_before_byte(line@, byte_offset as int), self.tw()) <= i32::MAX,
        ensures
            r == visual_column(chars_before_byte(line@, byte_offset as int), self.tw()),
    {
        let cs = to_chars(line);
        let n = cs.len();
        let tw = self.tab_width as u64;
        let ghost target = chars_before_byte(line@, byte_offset as int);
        let ghost t = self.tw();
        let mut col: u64 = 0;
        let mut i: u128 = 0;
        let mut k: usize = 0;
        proof {
            assert(cs@.subrange(0, 0) =~= Seq::<char>::empty());
            assert(cs@.subrange(0, n as int) =~= cs@);
            assert(target =~= cs@.subrange(0, 0) + chars_before_byte(cs@.subrange(0, n as int), byte_offset - 0));
            lemma_visual_nonneg(target, t);
        }
        while k < n && i < byte_offset as u128
            invariant
                cs@ == line@,
                n == cs@.len(),
                0 <= k <= n,
                t == self.tw(),
                tw == t,
                i == utf8_len(cs@.subrange(0, k as int)),
                target == cs@.subrange(0, k as int) + chars_before_byte(cs@.subrange(k as int, n as int), byte_offset - i),
                col == visual_column(cs@.subrange(0, k as int), t),
                tabs_ok(target, t),
                0 <= visual_column(target, t) <= i32::MAX,
                col <= visual_column(target, t),
            decreases n - k,
        {
            let c = cs[k];
            let w = char_width(c);
            proof {
                let rest = cs@.subrange(k as int, n as int);
                assert(rest[0] == c);
                assert(rest.drop_first() =~= cs@.subrange(k + 1, n as int));
                assert(cs@.subrange(0, k as int) + seq![c] =~= cs@.subrange(0, k + 1));
                assert(target =~= cs@.subrange(0, k + 1) + chars_before_byte(cs@.subrange(k + 1, n as int), byte_offset - i - w));
                assert(target.subrange(0, k + 1) =~= cs@.subrange(0, k + 1));
                lemma_visual_mono(target, k + 1, t);
                lemma_visual_step(cs@, k as int, t);
                if c == '\t' {
                    assert(target[k as int] == '\t');
                }
                lemma_encode_concat(cs@.subrange(0, k as int), seq![c]);
            }
            col = column_step(col, c, tw);
            i = i + w as u128;
            k = k + 1;
        }
        proof {
            assert(chars_before_byte(cs@.subrange(k as int, n as int), byte_offset - i) =~= Seq::<char>::empty());
            assert(target =~= cs@.subrange(0, k as int));
        }
        col as i32
    }

    /// The indentation of `line`: the visual column of its first
    /// non-white-space character.
    pub fn get_line_start_from_str(&self, line: &str) -> (r: i32)
        requires
            tabs_ok(line@.subrange(0, leading_ws(line@) as int), self.tw()),
            indent_column(line@, self.tw()) <= i32::MAX,
        ensures
            r == indent_column(line@, self.tw()),
    {
        let cs = to_chars(line);
        let n = cs.len();
        let tw = self.tab_width as u64;
        let ghost t = self.tw();
        let ghost lw = leading_ws(line@) as int;
        let ghost target = line@.subrange(0, lw);
        let mut col: u64 = 0;
        let mut k: usize = 0;
        proof {
            assert(cs@.subrange(0, 0) =~= Seq::<char>::empty());
            assert(cs@.subrange(0, n as int) =~= cs@);
            lemma_leading_ws_bound(line@);
            lemma_visual_nonneg(target, t);
        }
        while k < n && is_whitespace_char(cs[k])
            invariant
                cs@ == line@,
                n == cs@.len(),
                0 <= k <= n,
                t == self.tw(),
                tw == t,
                lw == leading_ws(line@),
                lw <= n,
                target == line@.subrange(0, lw),
                leading_ws(line@) == k + leading_ws(cs@.subrange(k as int, n as int)),
                col == visual_column(cs@.subrange(0, k as int), t),
                tabs_ok(target, t),
                0 <= visual_column(target, t) <= i32::MAX,
                col <= visual_column(target, t),
            decreases n - k,
        {
            let c = cs[k];
            proof {
                let rest = cs@.subrange(k as int, n as int);
                assert(rest[0] == c);
                assert(rest.drop_first() =~= cs@.subrange(k + 1, n as int));
                assert(k + 1 <= lw);
                assert(target.subrange(0, k + 1) =~= cs@.subrange(0, k + 1));
                lemma_visual_mono(target, k + 1, t);
                lemma_visual_step(cs@, k as int, t);
                if c == '\t' {
                    assert(target[k as int] == '\t');
                }
            }
            col = column_step(col, c, tw);
            k = k + 1;
        }
        proof {
            assert(k == lw);
            assert(target =~= cs@.subrange(0, k as int));
        }
        col as i32
    }
}

/// The diagnostic that logging a violation named `name` with message `msg`
/// at node `node` gives: the node's range, and the fix that sets its line's
/// indentation to the smallest expected level.
pub open spec fn logged_dv(name: Seq<char>, msg: Seq<char>, tree: CstTree, node: int, expected: Seq<i32>) -> DiagView {
    let b = tree.src_bytes();
    (name, msg, tree.start_of(node), tree.end_of(node), safe_fix(Some(seq![fix_edit(b, line_of(b, tree.start_of(node)), first_level_of(expected))])))
}

/// A line of the text lies within it.
proof fn lemma_source_line(b: Seq<u8>, k: int)
    requires
        valid_utf8(b),
        source_line(b, k) is Some,
    ensures
        0 <= k < lf_starts(b).len(),
        0 <= lf_starts(b)[k] < b.len(),
        lf_starts(b)[k] + utf8_len(source_line(b, k).unwrap()) <= b.len(),
{
    let st = lf_starts(b);
    lemma_lf_starts(b, b.len() as int);
    let s = st[k];
    lemma_first_lf_bounds(b, s);
    let e = str_line_end(b, s);
    assert(s <= e <= b.len());
    if s > 0 {
        assert(k >= 1);
        lemma_ascii_boundaries(b, s - 1);
    }
    if first_lf_from(b, s) < b.len() {
        lemma_first_lf_is_lf(b, s);
        lemma_ascii_boundaries(b, first_lf_from(b, s));
        if e < first_lf_from(b, s) {
            lemma_ascii_boundaries(b, e);
        }
    } else {
        vstd::utf8::is_char_boundary_start_end_of_seq(b);
    }
    crate::cst::lemma_boundary_in_prefix(b, s, e);
    vstd::utf8::valid_utf8_split(b.subrange(0, e), s);
    assert(b.subrange(0, e).subrange(s, e as int) =~= b.subrange(s, e));
    vstd::utf8::decode_utf8_encode_utf8(b.subrange(s, e));
}

impl HandlerContext {
    /// The indentation of line `line_no` (0 when there is no such line).
    pub fn get_line_start(&self, line_no: usize) -> (r: i32)
        requires
            self.wf(),
            line_start_fits(self.bytes(), line_no as int, self.tw()),
        ensures
            r == line_start_column(self.bytes(), line_no as int, self.tw()),
    {
        match self.get_line(line_no) {
            Some(line) => {
                self.get_line_start_from_str(line)
            },
            None => 0,
        }
    }

    /// The line of byte offset `offset`.
    pub fn line_no_from_offset(&self, offset: TextSize) -> (r: usize)
        requires
            self.wf(),
        ensures
            r == line_of(self.bytes(), offset.raw as int),
    {
        let ghost st = lf_starts(self.bytes());
        let off = offset.raw as usize;
        let offs = &self.line_offsets;
        proof {
            lemma_lf_starts(self.bytes(), self.bytes().len() as int);
            assert forall|x: int| 0 <= x < offs@.len() implies #[trigger] offs@[x] as int == st[x] by {
                assert(offs@.map_values(|x: usize| x as int)[x] == offs@[x] as int);
            }
        }
        let mut lo: usize = 0;
        let mut hi: usize = offs.len();
        while lo < hi
            invariant
                offs@.len() == st.len(),
                forall|x: int| 0 <= x < offs@.len() ==> #[trigger] offs@[x] as int == st[x],
                forall|x: int, y: int| 0 <= x < y < st.len() ==> st[x] < st[y],
                0 <= lo <= hi <= offs@.len(),
                forall|x: int| 0 <= x < lo ==> st[x] <= off,
                forall|x: int| hi <= x < st.len() ==> st[x] > off,
            decreases hi - lo,
        {
            let mid = lo + (hi - lo) / 2;
            if offs[mid] <= off {
                proof {
                    assert forall|x: int| 0 <= x < mid + 1 implies st[x] <= off by {
                        if x < mid {
                            assert(st[x] < st[mid as int]);
                        }
                    }
                }
                lo = mid + 1;
            } else {
                proof {
                    assert forall|x: int| mid <= x < st.len() implies st[x] > off by {
                        if x > mid {
                            assert(st[mid as int] < st[x]);
                        }
                    }
                }
                hi = mid;
            }
        }
        proof {
            lemma_count_sorted(st, off as int);
            let c = count_at_or_before(st, off as int);
            if c < lo {
                assert(st[c as int] > off);
            }
            if c > lo {
                assert(st[lo as int] <= off);
            }
            assert(st[0] == 0);
        }
        lo - 1
    }

    /// Where line `line_no` starts (0 when there is no such line start).
    pub fn line_start_offset(&self, line_no: usize) -> (r: usize)
        requires
            self.wf(),
        ensures
            r == if line_no < lf_starts(self.bytes()).len() {
                lf_starts(self.bytes())[line_no as int]
            } else {
                0
            },
    {
        if line_no < self.line_offsets.len() {
            proof {
                assert(self.line_offsets@.map_values(|x: usize| x as int)[line_no as int] == self.line_offsets@[line_no as int] as int);
            }
            self.line_offsets[line_no]
        } else {
            0
        }
    }

    /// The visual column (tabs expanded) where node `node` starts.
    pub fn column_from_node(&self, tree: &CstTree, node: usize) -> (r: i32)
        requires
            self.wf(),
            tree.wf(),
            node < tree.node_count(),
            tree.src_bytes() == self.bytes(),
            offset_column_fits(self.bytes(), tree.start_of(node as int), self.tw()),
        ensures
            r == offset_column(self.bytes(), tree.start_of(node as int), self.tw()),
    {
        let start = tree.range(node).start;
        let line_no = self.line_no_from_offset(start);
        proof {
            lemma_line_of(self.bytes(), start.raw as int);
        }
        match self.get_line(line_no) {
            Some(line) => {
                let lso = self.line_start_offset(line_no);
                let bo = start.raw as usize - lso;
                self.expanded_tabs_column(line, bo)
            },
            None => 0,
        }
    }

    /// Node `node` is the first thing on its line.
    pub fn is_on_start_of_line(&self, tree: &CstTree, node: usize) -> (r: bool)
        requires
            self.wf(),
            tree.wf(),
            node < tree.node_count(),
            tree.src_bytes() == self.bytes(),
            line_start_fits(self.bytes(), line_of(self.bytes(), tree.start_of(node as int)), self.tw()),
            offset_column_fits(self.bytes(), tree.start_of(node as int), self.tw()),
        ensures
            r == (line_start_column(self.bytes(), line_of(self.bytes(), tree.start_of(node as int)), self.tw())
                == offset_column(self.bytes(), tree.start_of(node as int), self.tw())),
    {
        let start = tree.range(node).start;
        let line_no = self.line_no_from_offset(start);
        let line_start = self.get_line_start(line_no);
        let node_column = self.column_from_node(tree, node);
        line_start == node_column
    }

    /// The fix that sets the indentation of line `line_no` to `expected`.
    #[verifier::spinoff_prover]
    #[verifier::rlimit(40)]
    fn create_fix(&self, line_no: usize, actual: i32, expected: i32) -> (r: Fix)
        requires
            self.wf(),
            source_line(self.bytes(), line_no as int) is Some ==> expected >= 0,
        ensures
            r.applicability == Applicability::Safe,
            edit_views(r.edits@) == seq![fix_edit(self.bytes(), line_no as int, expected)],
    {
        match self.get_line(line_no) {
            None => {
                let e = Edit::insertion(String::new(), TextSize::new(0));
                let f = Fix::safe_edit(e);
                proof {
                    assert(e.ev() == fix_edit(self.bytes(), line_no as int, expected));
                    assert(edit_views(f.edits@) =~= seq![e.ev()]);
                }
                f
            },
            Some(line) => {
                let lso = self.line_start_offset(line_no);
                let src = self.source.as_str();
                let cs = to_chars(line);
                let n = cs.len();
                let mut k: usize = 0;
                let mut w: usize = 0;
                proof {
                    lemma_view_is_decode(src);
                    lemma_source_line(self.bytes(), line_no as int);
                    lemma_leading_ws_bound(line@);
                    assert(cs@.subrange(0, 0) =~= Seq::<char>::empty());
                    assert(cs@.subrange(0, n as int) =~= cs@);
                }
                while k < n && is_whitespace_char(cs[k])
                    invariant
                        cs@ == line@,
                        n == cs@.len(),
                        0 <= k <= n,
                        leading_ws(line@) == k + leading_ws(cs@.subrange(k as int, n as int)),
                        w == utf8_len(cs@.subrange(0, k as int)),
                        lso + utf8_len(line@) <= self.bytes().len(),
                        self.bytes().len() < u32::MAX,
                    decreases n - k,
                {
                    let c = cs[k];
                    let cw = char_width(c);
                    proof {
                        let rest = cs@.subrange(k as int, n as int);
                        assert(rest[0] == c);
                        assert(rest.drop_first() =~= cs@.subrange(k + 1, n as int));
                        assert(cs@.subrange(0, k as int) + seq![c] =~= cs@.subrange(0, k + 1));
                        lemma_encode_concat(cs@.subrange(0, k as int), seq![c]);
                        assert(cs@.subrange(0, k + 1) + cs@.subrange(k + 1, n as int) =~= cs@);
                        lemma_encode_concat(cs@.subrange(0, k + 1), cs@.subrange(k + 1, n as int));
                    }
                    w = w + cw;
                    k = k + 1;
                }
                proof {
                    assert(k == leading_ws(line@));
                    assert(cs@.subrange(0, k as int) + cs@.subrange(k as int, n as int) =~= cs@);
                    lemma_encode_concat(cs@.subrange(0, k as int), cs@.subrange(k as int, n as int));
                }
                let range = TextRange::new(TextSize::new(lso as u32), TextSize::new((lso + w) as u32));
                let e = if expected == 0 {
                    Edit::deletion(range.start, range.end)
                } else {
                    let mut sp = String::new();
                    let mut j: i32 = 0;
                    while j < expected
                        invariant
                            0 <= j <= expected,
                            sp@ == spaces(j as nat),
                        decreases expected - j,
                    {
                        push_char(&mut sp, ' ');
                        proof {
                            assert(sp@ =~= spaces((j + 1) as nat));
                        }
                        j = j + 1;
                    }
                    Edit::range_replacement(sp, range)
                };
                let f = Fix::safe_edit(e);
                proof {
                    assert(e.ev() == fix_edit(self.bytes(), line_no as int, expected));
                    assert(edit_views(f.edits@) =~= seq![e.ev()]);
                }
                f
            },
        }
    }

    /// Logs that node `node`, an element of kind `element_type`, sits at
    /// `actual` where `expected` was expected, with the fix that moves its
    /// line to the smallest expected level.
    pub fn log_error(&mut self, tree: &CstTree, node: usize, element_type: &str, actual_indent: i32, expected: &IndentLevel)
        requires
            old(self).wf(),
            tree.wf(),
            node < tree.node_count(),
            tree.src_bytes() == old(self).bytes(),
            source_line(old(self).bytes(), line_of(old(self).bytes(), tree.start_of(node as int))) is Some ==> first_level_of(
                expected@,
            ) >= 0,
        ensures
            final(self).wf(),
            final(self).bytes() == old(self).bytes(),
            final(self).src() == old(self).src(),
            final(self).conf() == old(self).conf(),
            final(self).tw() == old(self).tw(),
            final(self).logged() == old(self).logged().push(
                logged_dv(
                    "IndentationError"@,
                    indentation_message(element_type@, actual_indent, join_levels(expected@)),
                    *tree,
                    node as int,
                    expected@,
                ),
            ),
    {
        let range = tree.range(node);
        let line_no = self.line_no_from_offset(range.start);
        let v = IndentationError { element: String::from_str(element_type), actual: actual_indent, expected: expected.to_string() };
        let fix = self.create_fix(line_no, actual_indent, expected.first_level());
        let d = Diagnostic::new(v.kind(), range).with_fix(fix);
        push_diag(&mut self.diagnostics, d);
    }

    /// Logs that node `node`, a child of an element of kind `parent_type`,
    /// sits at `actual` where `expected` was expected, with the same fix.
    pub fn log_child_error(&mut self, tree: &CstTree, node: usize, parent_type: &str, actual_indent: i32, expected: &IndentLevel)
        requires
            old(self).wf(),
            tree.wf(),
            node < tree.node_count(),
            tree.src_bytes() == old(self).bytes(),
            source_line(old(self).bytes(), line_of(old(self).bytes(), tree.start_of(node as int))) is Some ==> first_level_of(
                expected@,
            ) >= 0,
        ensures
            final(self).wf(),
            final(self).bytes() == old(self).bytes(),
            final(self).src() == old(self).src(),
            final(self).conf() == old(self).conf(),
            final(self).tw() == old(self).tw(),
            final(self).logged() == old(self).logged().push(
                logged_dv(
                    "IndentationChildError"@,
                    child_message(parent_type@, actual_indent, join_levels(expected@)),
                    *tree,
                    node as int,
                    expected@,
                ),
            ),
    {
        let range = tree.range(node);
        let line_no = self.line_no_from_offset(range.start);
        let v = IndentationChildError { parent: String::from_str(parent_type), actual: actual_indent, expected: expected.to_string() };
        let fix = self.create_fix(line_no, actual_indent, expected.first_level());
        let d = Diagnostic::new(v.kind(), range).with_fix(fix);
        push_diag(&mut self.diagnostics, d);
    }

    /// The diagnostics logged so far, in order; none are left behind.
    pub fn take_diagnostics(&mut self) -> (r: Vec<Diagnostic>)
        requires
            old(self).wf(),
        ensures
            diag_views(r@) == old(self).logged(),
            final(self).logged() == Seq::<DiagView>::empty(),
            final(self).wf(),
            final(self).bytes() == old(self).bytes(),
            final(self).src() == old(self).src(),
            final(self).conf() == old(self).conf(),
            final(self).tw() == old(self).tw(),
    {
        let mut out: Vec<Diagnostic> = Vec::new();
        std::mem::swap(&mut out, &mut self.diagnostics);
        proof {
            assert(diag_views(self.diagnostics@) =~= Seq::<DiagView>::empty());
        }
        out
    }
}

/// Characters other than tabs each take one column.
proof fn lemma_visual_no_tabs(cs: Seq<char>, tw: int)
    requires
        !cs.contains('\t'),
    ensures
        visual_column(cs, tw) == cs.len(),
    decreases cs.len(),
{
    if cs.len() > 0 {
        let d = cs.drop_last();
        assert(!d.contains('\t')) by {
            if d.contains('\t') {
                let x = choose|x: int| 0 <= x < d.len() && d[x] == '\t';
                assert(cs[x] == '\t');
            }
        }
        lemma_visual_no_tabs(d, tw);
        assert(cs.last() != '\t') by {
            if cs.last() == '\t' {
                assert(cs[cs.len() - 1] == '\t');
            }
        }
    }
}

/// The fix of a logged violation gives its line the expected indentation:
/// with the line's leading white space replaced by `expected` spaces (the
/// replacement, or for 0 the deletion, that `fix_edit` makes), the first
/// non-white-space character sits at column `expected`.
pub proof fn law_fix_sets_indentation(line: Seq<char>, expected: nat, tw: int)
    ensures
        indent_column(spaces(expected) + line.subrange(leading_ws(line) as int, line.len() as int), tw) == expected,
{
    lemma_leading_ws_bound(line);
    let lw = leading_ws(line) as int;
    let rest = line.subrange(lw, line.len() as int);
    let sp = spaces(expected);
    let t = sp + rest;
    assert forall|i: int| 0 <= i < expected implies is_white_space(#[trigger] t[i]) by {
        assert(t[i] == ' ');
    }
    if expected < t.len() {
        assert(t[expected as int] == line[lw]);
    }
    lemma_leading_ws_prefix(t, expected as int);
    assert(t.subrange(0, expected as int) =~= sp);
    assert(!sp.contains('\t')) by {
        if sp.contains('\t') {
            let x = choose|x: int| 0 <= x < sp.len() && sp[x] == '\t';
            assert(sp[x] == ' ');
        }
    }
    lemma_visual_no_tabs(sp, tw);
}

} // verus!
