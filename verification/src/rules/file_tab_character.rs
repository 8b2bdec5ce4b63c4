//! FileTabCharacter: the source holds no tab characters.
//!
//! The text is read as `str::lines` reads it (lines split at `\n`, a `\r`
//! before it dropped); a diagnostic's offset is the start of the same-numbered
//! line of the line index (which also breaks at a lone `\r`) plus the byte
//! position of the tab in its line.

use vstd::prelude::*;
use vstd::string::*;
use vstd::utf8::*;

use crate::config::Properties;
use crate::cst::{slice_text, CstTree};
use crate::diagnostics::{Applicability, safe_fix, diag_views, edit_views, make_kind, no_diags, push_diag, DiagView, Diagnostic, DiagnosticKind, Edit, Fix};
use crate::strings::{parse_usize, parse_usize_spec, push_char, str_eq, to_chars};
use crate::text::{is_line_break_at, lemma_ascii_boundaries, TextRange, TextSize};

verus! {

/// Violation: the file holds a tab (reported once, at the first).
#[derive(Clone, Debug)]
pub struct FileContainsTabViolation;

impl FileContainsTabViolation {
    /// The message of the violation.
    pub fn message(&self) -> (r: String)
        ensures
            r@ == "File contains tab characters (this is the first instance)"@,
    {
        String::from_str("File contains tab characters (this is the first instance)")
    }

    /// The kind of diagnostic the violation gives.
    pub fn kind(&self) -> (r: DiagnosticKind)
        ensures
            r.name@ == "FileContainsTabViolation"@,
            r.body@ == "File contains tab characters (this is the first instance)"@,
    {
        make_kind("FileContainsTabViolation", self.message())
    }
}

/// Violation: a line holds a tab (reported for each line).
#[derive(Clone, Debug)]
pub struct LineContainsTabViolation;

impl LineContainsTabViolation {
    /// The message of the violation.
    pub fn message(&self) -> (r: String)
        ensures
            r@ == "Line contains a tab character"@,
    {
        String::from_str("Line contains a tab character")
    }

    /// The kind of diagnostic the violation gives.
    pub fn kind(&self) -> (r: DiagnosticKind)
        ensures
            r.name@ == "LineContainsTabViolation"@,
            r.body@ == "Line contains a tab character"@,
    {
        make_kind("LineContainsTabViolation", self.message())
    }
}

/// The FileTabCharacter rule.
#[derive(Clone, Debug)]
pub struct FileTabCharacter {
    /// Report every line with a tab, not only the first.
    pub each_line: bool,
    /// Columns between tab stops.
    pub tab_width: usize,
}

/// The starts of the lines of the line index among the first `i` bytes:
/// offset 0, and each offset just after a line break.
pub open spec fn starts_upto(b: Seq<u8>, i: int) -> Seq<int>
    decreases i,
{
    if i <= 0 {
        seq![0]
    } else {
        let p = starts_upto(b, i - 1);
        if is_line_break_at(b, i - 1) { p.push(i) } else { p }
    }
}

/// The offset of the first `\n` at or after `s`, or the length.
pub open spec fn first_lf_from(b: Seq<u8>, s: int) -> int
    decreases b.len() - s,
{
    if s < 0 || s >= b.len() {
        b.len() as int
    } else if b[s] == 10 {
        s
    } else {
        first_lf_from(b, s + 1)
    }
}

pub proof fn lemma_first_lf_bounds(b: Seq<u8>, s: int)
    requires
        0 <= s,
    ensures
        s <= first_lf_from(b, s) || s >= b.len(),
        first_lf_from(b, s) <= b.len(),
    decreases b.len() - s,
{
    if s < b.len() && b[s] != 10 {
        lemma_first_lf_bounds(b, s + 1);
    }
}

/// The end of the line that starts at `s`, as `str::lines` gives it.
pub open spec fn str_line_end(b: Seq<u8>, s: int) -> int {
    let nl = first_lf_from(b, s);
    if nl < b.len() && nl > s && b[nl - 1] == 13 { nl - 1 } else { nl }
}

/// The offset of the first tab in `s..e`.
pub open spec fn first_tab_from(b: Seq<u8>, s: int, e: int) -> Option<int>
    decreases e - s,
{
    if s < 0 || s >= e || s >= b.len() {
        None
    } else if b[s] == 9 {
        Some(s)
    } else {
        first_tab_from(b, s + 1, e)
    }
}

/// The visual column reached after the characters `cs`, with tab stops every `tw` columns.
pub open spec fn visual_column(cs: Seq<char>, tw: int) -> int
    decreases cs.len(),
{
    if cs.len() == 0 {
        0
    } else {
        let v = visual_column(cs.drop_last(), tw);
        if cs.last() == '\t' { v + tw - v % tw } else { v + 1 }
    }
}

/// The spaces that replace a tab at byte `tab_position` of `line`: enough to
/// reach the next tab stop after the first `tab_position` characters of the line.
pub open spec fn tab_spaces(line: Seq<char>, tab_position: int, tw: int) -> Seq<char> {
    let n = if tab_position < line.len() { tab_position } else { line.len() as int };
    let v = visual_column(line.subrange(0, n), tw);
    Seq::new((tw - v % tw) as nat, |i: int| ' ')
}

/// The diagnostics for the lines from the one starting at `s` (line number `k`) on.
pub open spec fn tab_diags(b: Seq<u8>, s: int, k: int, each: bool, tw: int) -> Seq<DiagView>
    decreases b.len() - s,
{
    let starts = starts_upto(b, b.len() as int);
    if s < 0 || s >= b.len() || k < 0 || k >= starts.len() {
        seq![]
    } else {
        let nl = first_lf_from(b, s);
        let e = str_line_end(b, s);
        let rest = if nl < b.len() {
            proof {
                lemma_first_lf_bounds(b, s);
            }
            tab_diags(b, nl + 1, k + 1, each, tw)
        } else {
            seq![]
        };
        let t = first_tab_from(b, s, e);
        if t is None {
            rest
        } else {
            let off = starts[k] + (t.unwrap() - s);
            if off + 1 > u32::MAX {
                seq![]
            } else {
                let line = decode_utf8(b.subrange(s, e));
                let d = (
                    if each { "LineContainsTabViolation"@ } else { "FileContainsTabViolation"@ },
                    if each { "Line contains a tab character"@ } else { "File contains tab characters (this is the first instance)"@ },
                    off,
                    off + 1,
                    safe_fix(Some(seq![(Some(tab_spaces(line, t.unwrap() - s, tw)), off, off + 1)])),
                );
                if each { seq![d] + rest } else { seq![d] }
            }
        }
    }
}

/// The diagnostics of FileTabCharacter at node `node`: at the root, one for
/// the first tab, or one for each line with a tab; none elsewhere.
pub open spec fn spec_check(rule: FileTabCharacter, tree: CstTree, node: int) -> Seq<DiagView> {
    if tree.parent_of(node) is Some {
        seq![]
    } else {
        tab_diags(tree.src_bytes(), 0, 0, rule.each_line, rule.tab_width as int)
    }
}

impl Default for FileTabCharacter {
    /// One report per file, tab stops every 8 columns.
    fn default() -> (r: Self)
        ensures
            !r.each_line,
            r.tab_width == 8,
    {
        FileTabCharacter { each_line: false, tab_width: 8 }
    }
}

impl FileTabCharacter {
    /// The rule as the properties configure it: `eachLine` (exactly `true`),
    /// `tabWidth` (a decimal number; otherwise 8).
    pub fn from_config(properties: &Properties) -> (r: Self)
        ensures
            r.each_line == (properties.lookup("eachLine"@) == Some("true"@)),
            r.tab_width == match properties.lookup("tabWidth"@) {
                Some(v) => match parse_usize_spec(v) {
                    Some(n) => n,
                    None => 8,
                },
                None => 8,
            },
    {
        let each_line = match properties.get("eachLine") {
            Some(v) => str_eq(v, "true"),
            None => false,
        };
        let tab_width = match properties.get("tabWidth") {
            Some(v) => match parse_usize(v) {
                Some(n) => n,
                None => 8,
            },
            None => 8,
        };
        FileTabCharacter { each_line, tab_width }
    }

    /// The rule's name.
    pub fn name(&self) -> (r: &'static str)
        ensures
            r@ == "FileTabCharacter"@,
    {
        "FileTabCharacter"
    }

    /// The node kinds the rule looks at.
    pub fn relevant_kinds(&self) -> (r: Vec<&'static str>)
        ensures
            r@.len() == 1,
            r@[0]@ == "program"@,
    {
        vec!["program"]
    }

    /// The violations at node `node`. A tab width of zero is refused when the
    /// text holds a tab (tab stops need a positive width).
    pub fn check(&self, tree: &CstTree, node: usize) -> (r: Vec<Diagnostic>)
        requires
            tree.wf(),
            node < tree.node_count(),
            self.tab_width > 0 || !tree.src_bytes().contains(9u8),
        ensures
            diag_views(r@) == spec_check(*self, *tree, node as int),
    {
        if tree.parent(node).is_some() {
            return no_diags();
        }
        let source = tree.source();
        let b = source.as_bytes();
        let n = b.len();
        let starts = line_starts(source);
        proof {
            lemma_starts_bounded(b@, n as int);
        }
        let mut out = no_diags();
        let mut s: usize = 0;
        let mut k: usize = 0;
        let ghost bs = b@;
        proof {
            assert(tab_diags(bs, 0, 0, self.each_line, self.tab_width as int) == tab_diags(bs, s as int, k as int, self.each_line, self.tab_width as int));
            assert(diag_views(out@) + tab_diags(bs, 0, 0, self.each_line, self.tab_width as int) =~= tab_diags(bs, 0, 0, self.each_line, self.tab_width as int));
            crate::text::lemma_view_is_decode(source);
            vstd::utf8::is_char_boundary_start_end_of_seq(bs);
        }
        while s < n
            invariant
                tree.wf(),
                node < tree.node_count(),
                tree.parent_of(node as int) is None,
                b@ == bs,
                bs == source.spec_bytes(),
                bs == tree.src_bytes(),
                valid_utf8(bs),
                n == bs.len(),
                n <= u32::MAX,
                starts@ == starts_upto(bs, n as int).map_values(|x: int| x as usize),
                forall|j: int| 0 <= j < starts_upto(bs, n as int).len() ==> 0 <= #[trigger] starts_upto(bs, n as int)[j] <= n,
                self.tab_width > 0 || !bs.contains(9u8),
                0 <= s <= n,
                s < n ==> is_char_boundary(bs, s as int),
                diag_views(out@) + tab_diags(bs, s as int, k as int, self.each_line, self.tab_width as int)
                    == tab_diags(bs, 0, 0, self.each_line, self.tab_width as int),
            decreases n - s,
        {
            if k >= starts.len() {
                proof {
                    assert(diag_views(out@) + Seq::<DiagView>::empty() =~= diag_views(out@));
                }
                return out;
            }
            let ghost rest_spec = tab_diags(bs, s as int, k as int, self.each_line, self.tab_width as int);
            let mut nl = s;
            while nl < n && b[nl] != 10
                invariant
                    b@ == bs,
                    n == bs.len(),
                    s <= nl <= n,
                    first_lf_from(bs, s as int) == first_lf_from(bs, nl as int),
                decreases n - nl,
            {
                nl = nl + 1;
            }
            let e = if nl < n && nl > s && b[nl - 1] == 13 { nl - 1 } else { nl };
            let mut t = s;
            while t < e && b[t] != 9
                invariant
                    b@ == bs,
                    n == bs.len(),
                    s <= t <= e <= n,
                    first_tab_from(bs, s as int, e as int) == first_tab_from(bs, t as int, e as int),
                decreases e - t,
            {
                t = t + 1;
            }
            let ghost each = self.each_line;
            let ghost tw = self.tab_width as int;
            let ghost nxt = if nl < n { tab_diags(bs, nl + 1, k + 1, each, tw) } else { Seq::<DiagView>::empty() };
            proof {
                assert(first_lf_from(bs, s as int) == nl);
                assert(str_line_end(bs, s as int) == e);
                if t < e {
                    assert(first_tab_from(bs, t as int, e as int) == Some(t as int));
                } else {
                    assert(first_tab_from(bs, t as int, e as int) is None);
                }
                assert(starts@[k as int] as int == starts_upto(bs, n as int)[k as int]);
                if t >= e {
                    assert(rest_spec == nxt);
                }
            }
            if t < e {
                let off = starts[k] as u64 + (t - s) as u64;
                if off + 1 > 4294967295u64 {
                    proof {
                        assert(rest_spec == Seq::<DiagView>::empty());
                        assert(diag_views(out@) + Seq::<DiagView>::empty() =~= diag_views(out@));
                    }
                    return out;
                }
                proof {
                    assert(bs.contains(9u8)) by {
                        assert(bs[t as int] == 9);
                    }
                    if e < n {
                        lemma_ascii_boundaries(bs, e as int);
                    } else {
                        vstd::utf8::is_char_boundary_start_end_of_seq(bs);
                    }
                }
                let line = slice_text(source, s, e);
                let fix = create_tab_fix(line, t - s, off as usize, self.tab_width);
                let range = TextRange::new(TextSize::new(off as u32), TextSize::new((off + 1) as u32));
                let kind = if self.each_line { LineContainsTabViolation.kind() } else { FileContainsTabViolation.kind() };
                let d = Diagnostic::new(kind, range).with_fix(fix);
                let ghost dv = d.dv();
                let ghost old_out = diag_views(out@);
                proof {
                    let line_v = decode_utf8(bs.subrange(s as int, e as int));
                    assert(line@ == line_v);
                    let spec_d = (
                        if each { "LineContainsTabViolation"@ } else { "FileContainsTabViolation"@ },
                        if each { "Line contains a tab character"@ } else { "File contains tab characters (this is the first instance)"@ },
                        off as int,
                        off + 1,
                        safe_fix(Some(seq![(Some(tab_spaces(line_v, t - s, tw)), off as int, off + 1)])),
                    );
                    assert(dv == spec_d);
                    assert(rest_spec == if each { seq![spec_d] + nxt } else { seq![spec_d] });
                }
                push_diag(&mut out, d);
                if !self.each_line {
                    return out;
                }
                proof {
                    assert(diag_views(out@) + nxt =~= old_out + (seq![dv] + nxt));
                }
                if nl >= n {
                    proof {
                        assert(diag_views(out@) + Seq::<DiagView>::empty() =~= diag_views(out@));
                    }
                    return out;
                }
            } else {
                if nl >= n {
                    proof {
                        assert(diag_views(out@) + Seq::<DiagView>::empty() =~= diag_views(out@));
                    }
                    return out;
                }
            }
            proof {
                lemma_ascii_boundaries(bs, nl as int);
            }
            s = nl + 1;
            k = k + 1;
        }
        out
    }
}

/// Every line start among the first `i` bytes lies in `0..=i`.
proof fn lemma_starts_bounded(b: Seq<u8>, i: int)
    requires
        i >= 0,
    ensures
        forall|j: int| 0 <= j < starts_upto(b, i).len() ==> 0 <= #[trigger] starts_upto(b, i)[j] <= i,
    decreases i,
{
    if i > 0 {
        lemma_starts_bounded(b, i - 1);
        let p = starts_upto(b, i - 1);
        assert forall|j: int| 0 <= j < starts_upto(b, i).len() implies 0 <= #[trigger] starts_upto(b, i)[j] <= i by {
            if j < p.len() {
                assert(starts_upto(b, i)[j] == p[j]);
            }
        }
    }
}

/// The starts of the lines of the line index of `source`.
fn line_starts(source: &str) -> (r: Vec<usize>)
    ensures
        r@ == starts_upto(source.spec_bytes(), source.spec_bytes().len() as int).map_values(|x: int| x as usize),
{
    let b = source.as_bytes();
    let mut out: Vec<usize> = Vec::new();
    out.push(0);
    let mut i: usize = 0;
    proof {
        assert(out@ =~= starts_upto(b@, 0).map_values(|x: int| x as usize));
    }
    while i < b.len()
        invariant
            b@ == source.spec_bytes(),
            0 <= i <= b@.len(),
            out@ == starts_upto(b@, i as int).map_values(|x: int| x as usize),
        decreases b@.len() - i,
    {
        if b[i] == 10 || (b[i] == 13 && !(i + 1 < b.len() && b[i + 1] == 10)) {
            out.push(i + 1);
        }
        proof {
            assert(out@ =~= starts_upto(b@, i + 1).map_values(|x: int| x as usize));
        }
        i = i + 1;
    }
    out
}

/// The fix that replaces the tab at byte `tab_position` of `line` (offset
/// `tab_offset` in the file) by spaces up to the next tab stop.
pub fn create_tab_fix(line: &str, tab_position: usize, tab_offset: usize, tab_width: usize) -> (r: Fix)
    requires
        tab_width > 0,
        tab_offset < u32::MAX,
    ensures
        r.applicability == Applicability::Safe,
        edit_views(r.edits@) == seq![(Some(tab_spaces(line@, tab_position as int, tab_width as int)), tab_offset as int, tab_offset + 1)],
{
    let cs = to_chars(line);
    let n = if tab_position < cs.len() { tab_position } else { cs.len() };
    let tw = tab_width as u128;
    let mut v: u128 = 0;
    let mut i: usize = 0;
    proof {
        assert(cs@.subrange(0, 0) =~= Seq::<char>::empty());
    }
    while i < n
        invariant
            cs@ == line@,
            n <= cs@.len(),
            n <= usize::MAX,
            tw == tab_width,
            tw > 0,
            0 <= i <= n,
            v == visual_column(cs@.subrange(0, i as int), tw as int),
            v <= i * tw,
        decreases n - i,
    {
        proof {
            assert(cs@.subrange(0, i + 1).drop_last() =~= cs@.subrange(0, i as int));
            assert(cs@.subrange(0, i + 1).last() == cs@[i as int]);
            assert((i + 1) * tw == i * tw + tw) by (nonlinear_arith);
            assert(i * tw <= usize::MAX * tw) by (nonlinear_arith)
                requires i <= usize::MAX;
            assert(usize::MAX * tw <= usize::MAX * usize::MAX) by (nonlinear_arith)
                requires tw <= usize::MAX;
        }
        if cs[i] == '\t' {
            v = v + tw - v % tw;
        } else {
            v = v + 1;
        }
        i = i + 1;
    }
    let spaces = (tw - v % tw) as usize;
    let mut text = String::new();
    let mut j: usize = 0;
    while j < spaces
        invariant
            0 <= j <= spaces,
            text@ == Seq::new(j as nat, |x: int| ' '),
        decreases spaces - j,
    {
        push_char(&mut text, ' ');
        proof {
            assert(text@ =~= Seq::new((j + 1) as nat, |x: int| ' '));
        }
        j = j + 1;
    }
    proof {
        assert(cs@.subrange(0, n as int) == line@.subrange(0, n as int));
    }
    let range = TextRange::new(TextSize::new(tab_offset as u32), TextSize::new((tab_offset + 1) as u32));
    let f = Fix::safe_edit(Edit::range_replacement(text, range));
    proof {
        assert(edit_views(f.edits@) =~= seq![(Some(tab_spaces(line@, tab_position as int, tab_width as int)), tab_offset as int, tab_offset + 1)]);
    }
    f
}

} // verus!
