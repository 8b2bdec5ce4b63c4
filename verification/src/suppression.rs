//! Suppressions: regions of the source where a rule (or every rule) is off.
//!
//! Two sources of regions: comments that switch a rule off and on again (by
//! default `// CHECKSTYLE:OFF:RuleName` and `// CHECKSTYLE:ON:RuleName`, line
//! or block comments), and `@SuppressWarnings("checkstyle:RuleName")` or `@SuppressWarnings("RuleName")`
//! annotations, which cover the element they annotate.

use vstd::prelude::*;
use vstd::string::*;
use vstd::utf8::*;

use crate::cst::{slice_text, CstTree};
use crate::rules::empty_line_separator::next_lf;
use crate::rules::file_tab_character::{first_lf_from, lemma_first_lf_bounds};
use crate::strings::{parse_usize, parse_usize_spec, str_eq, string_from_chars, to_chars};
use crate::text::{lemma_ascii_boundaries, lemma_view_is_decode, TextSize};

verus! {

broadcast use vstd::utf8::encode_utf8_decode_utf8, vstd::utf8::encode_utf8_valid_utf8;

/// Whether `regex::Regex::new(pattern)` compiles the pattern.
pub uninterp spec fn regex_compiles(pattern: Seq<char>) -> bool;

/// What the regex compiled from `pattern` finds in `text`: `None` when the
/// pattern does not compile or has no match in `text`; otherwise the text of
/// capture group `group` of the leftmost match (`None` when that group took no
/// part in the match).
pub uninterp spec fn regex_capture(pattern: Seq<char>, text: Seq<char>, group: nat) -> Option<Option<Seq<char>>>;

/// `regex::Regex::new(pattern).is_ok()`.
#[verifier::external_body]
fn pattern_compiles(pattern: &str) -> (r: bool)
    ensures
        r == regex_compiles(pattern@),
{
    regex::Regex::new(pattern).is_ok()
}

/// `regex::Regex::new(pattern)`, then `captures(text)` and `get(group)` on
/// the result; the group's match as its text. The contract claims only that
/// the result is a function of the three arguments, named `regex_capture`.
#[verifier::external_body]
fn capture_group(pattern: &str, text: &str, group: usize) -> (r: Option<Option<String>>)
    ensures
        match r {
            None => regex_capture(pattern@, text@, group as nat) is None,
            Some(None) => regex_capture(pattern@, text@, group as nat) == Some(Option::<Seq<char>>::None),
            Some(Some(s)) => regex_capture(pattern@, text@, group as nat) == Some(Some(s@)),
        },
{
    match regex::Regex::new(pattern) {
        Ok(re) => match re.captures(text) {
            Some(caps) => Some(caps.get(group).map(|m| m.as_str().to_string())),
            None => None,
        },
        Err(_) => None,
    }
}

/// A region where the rule `rule` (every rule, for `*`) is off: from `start`
/// up to, not including, `end` (to the end of the file when there is none).
#[derive(Debug, Clone)]
pub struct SuppressionRegion {
    pub rule: String,
    pub start: TextSize,
    pub end: Option<TextSize>,
}

/// A region as plain values: rule, start, end.
pub type RegionView = (Seq<char>, int, Option<int>);

impl SuppressionRegion {
    pub open spec fn view_tuple(&self) -> RegionView {
        (self.rule@, self.start.raw as int, match self.end {
            Some(e) => Some(e.raw as int),
            None => None,
        })
    }
}

/// The views of a list of regions.
pub open spec fn region_views(v: Seq<SuppressionRegion>) -> Seq<RegionView> {
    v.map_values(|r: SuppressionRegion| r.view_tuple())
}

/// The comment filter: the patterns of the comments that switch rules off
/// and on, and the capture group that names the rule (0: every rule).
#[derive(Debug, Clone)]
pub struct PlainTextCommentFilterConfig {
    pub off_comment_format: String,
    pub on_comment_format: String,
    pub check_format_group: usize,
}

/// The capture group that a check format such as `$1` names; 0 without one.
pub open spec fn format_group(check_format: Option<Seq<char>>) -> usize {
    match check_format {
        Some(f) => if f.len() > 0 && f[0] == '$' {
            match parse_usize_spec(f.drop_first()) {
                Some(g) => g,
                None => 0,
            }
        } else {
            0
        },
        None => 0,
    }
}

impl PlainTextCommentFilterConfig {
    /// The filter of the two patterns and the check format; `None` when
    /// either pattern is no valid regex.
    pub fn new(off_comment_format: &str, on_comment_format: &str, check_format: Option<&str>) -> (r: Option<Self>)
        ensures
            r is Some <==> regex_compiles(off_comment_format@) && regex_compiles(on_comment_format@),
            r is Some ==> r.unwrap().off_comment_format@ == off_comment_format@,
            r is Some ==> r.unwrap().on_comment_format@ == on_comment_format@,
            r is Some ==> r.unwrap().check_format_group == format_group(match check_format {
                Some(f) => Some(f@),
                None => None,
            }),
    {
        if !pattern_compiles(off_comment_format) || !pattern_compiles(on_comment_format) {
            return None;
        }
        let group = match check_format {
            Some(f) => {
                let cs = to_chars(f);
                if cs.len() > 0 && cs[0] == '$' {
                    let rest = string_from_chars(&cs, 1, cs.len());
                    proof {
                        assert(rest@ == f@.drop_first());
                    }
                    match parse_usize(rest.as_str()) {
                        Some(g) => g,
                        None => 0,
                    }
                } else {
                    0
                }
            },
            None => 0,
        };
        Some(PlainTextCommentFilterConfig {
            off_comment_format: String::from_str(off_comment_format),
            on_comment_format: String::from_str(on_comment_format),
            check_format_group: group,
        })
    }

    /// The checkstyle filter: `CHECKSTYLE:OFF:(\w+)` and `CHECKSTYLE:ON:(\w+)`,
    /// the rule named by the first group.
    pub fn checkstyle_default() -> (r: Self)
        ensures
            r.off_comment_format@ == "CHECKSTYLE:OFF:(\\w+)"@,
            r.on_comment_format@ == "CHECKSTYLE:ON:(\\w+)"@,
            r.check_format_group == 1,
    {
        PlainTextCommentFilterConfig {
            off_comment_format: String::from_str("CHECKSTYLE:OFF:(\\w+)"),
            on_comment_format: String::from_str("CHECKSTYLE:ON:(\\w+)"),
            check_format_group: 1,
        }
    }
}

/// The end of the block comment whose text starts at `e`: the first `*/` at
/// or after `e`, or -1 when it is not closed.
pub open spec fn block_end(b: Seq<u8>, e: int) -> int
    decreases b.len() - e,
{
    if e < 0 || e + 1 >= b.len() {
        -1
    } else if b[e] == 42 && b[e + 1] == 47 {
        e
    } else {
        block_end(b, e + 1)
    }
}

/// The comments of `b` from byte `pos` on, as (start, end) byte ranges: a
/// line comment runs to the next line feed (not included), a block comment
/// to its `*/` (included); an unclosed block comment ends the scan.
pub open spec fn comment_spans(b: Seq<u8>, pos: int) -> Seq<(int, int)>
    decreases b.len() - pos,
{
    if pos < 0 || pos >= b.len() {
        seq![]
    } else if pos + 1 < b.len() && b[pos] == 47 && b[pos + 1] == 47 {
        let le = first_lf_from(b, pos);
        if le < pos {
            seq![]
        } else if le >= b.len() {
            seq![(pos, le)]
        } else {
            seq![(pos, le)] + comment_spans(b, le + 1)
        }
    } else if pos + 1 < b.len() && b[pos] == 47 && b[pos + 1] == 42 {
        let e = block_end(b, pos + 2);
        if e < pos || e + 1 >= b.len() {
            seq![]
        } else {
            seq![(pos, e + 2)] + comment_spans(b, e + 2)
        }
    } else {
        comment_spans(b, pos + 1)
    }
}

/// The rule a capture result names: the group's text, or `*` for every rule
/// (no group configured, or the group took no part); `None` without a match.
pub open spec fn rule_named(cap: Option<Option<Seq<char>>>, group: usize) -> Option<Seq<char>> {
    match cap {
        None => None,
        Some(g) => Some(
            if group > 0 {
                match g {
                    Some(s) => s,
                    None => "*"@,
                }
            } else {
                "*"@
            },
        ),
    }
}

/// The first index from `i` on of the open region of rule `rule`, or -1.
pub open spec fn open_index(open: Seq<(Seq<char>, int)>, rule: Seq<char>, i: int) -> int
    decreases open.len() - i,
{
    if i < 0 || i >= open.len() {
        -1
    } else if open[i].0 == rule {
        i
    } else {
        open_index(open, rule, i + 1)
    }
}

/// Opens region `rule` at `pos`, moving its start there when it is open already.
pub open spec fn open_put(open: Seq<(Seq<char>, int)>, rule: Seq<char>, pos: int) -> Seq<(Seq<char>, int)> {
    let k = open_index(open, rule, 0);
    if k >= 0 {
        open.update(k, (rule, pos))
    } else {
        open.push((rule, pos))
    }
}

/// What the scan has: the regions found and the regions still open.
pub type ScanView = (Seq<RegionView>, Seq<(Seq<char>, int)>);

/// A comment with text `text` at `pos`: an "off" match opens the rule it
/// names; then an "on" match closes it, if it is open, into a region.
pub open spec fn process_comment(f: (Seq<char>, Seq<char>, usize), st: ScanView, text: Seq<char>, pos: int) -> ScanView {
    let st1 = match rule_named(regex_capture(f.0, text, f.2 as nat), f.2) {
        Some(r) => (st.0, open_put(st.1, r, pos)),
        None => st,
    };
    match rule_named(regex_capture(f.1, text, f.2 as nat), f.2) {
        Some(r) => {
            let k = open_index(st1.1, r, 0);
            if k >= 0 {
                (st1.0.push((r, st1.1[k].1, Some(pos))), st1.1.remove(k))
            } else {
                st1
            }
        },
        None => st1,
    }
}

/// The text of bytes `a..e` of `b`.
pub open spec fn span_text(b: Seq<u8>, a: int, e: int) -> Seq<char> {
    decode_utf8(b.subrange(a, e))
}

/// The comments `spans` processed in order.
pub open spec fn process_spans(f: (Seq<char>, Seq<char>, usize), b: Seq<u8>, spans: Seq<(int, int)>, st: ScanView) -> ScanView
    decreases spans.len(),
{
    if spans.len() == 0 {
        st
    } else {
        let st0 = process_spans(f, b, spans.drop_last(), st);
        process_comment(f, st0, span_text(b, spans.last().0, spans.last().1), spans.last().0)
    }
}

/// The regions still open at the end of the file, closed there.
pub open spec fn close_at(open: Seq<(Seq<char>, int)>, end: int) -> Seq<RegionView> {
    open.map_values(|o: (Seq<char>, int)| (o.0, o.1, Some(end)))
}

/// The regions that filter `f` finds in the text with bytes `b`.
pub open spec fn filter_regions(f: (Seq<char>, Seq<char>, usize), b: Seq<u8>) -> Seq<RegionView> {
    let st = process_spans(f, b, comment_spans(b, 0), (seq![], seq![]));
    st.0 + close_at(st.1, b.len() as int)
}

impl PlainTextCommentFilterConfig {
    pub open spec fn view_tuple(&self) -> (Seq<char>, Seq<char>, usize) {
        (self.off_comment_format@, self.on_comment_format@, self.check_format_group)
    }
}

/// The regions of the filters `fs[..n]`, in order.
pub open spec fn filters_regions(fs: Seq<PlainTextCommentFilterConfig>, b: Seq<u8>, n: int) -> Seq<RegionView>
    decreases n,
{
    if n <= 0 || n > fs.len() {
        seq![]
    } else {
        filters_regions(fs, b, n - 1) + filter_regions(fs[n - 1].view_tuple(), b)
    }
}

/// Region `r` turns off rule `rule` at offset `pos`.
pub open spec fn covers(r: RegionView, rule: Seq<char>, pos: int) -> bool {
    &&& (r.0 == rule || r.0 == "*"@)
    &&& r.1 <= pos
    &&& match r.2 {
        Some(e) => pos < e,
        None => true,
    }
}

/// The suppression regions of a source file.
#[derive(Debug)]
pub struct SuppressionContext {
    regions: Vec<SuppressionRegion>,
}

impl View for SuppressionContext {
    type V = Seq<RegionView>;

    closed spec fn view(&self) -> Seq<RegionView> {
        region_views(self.regions@)
    }
}

/// The open regions as plain values.
pub open spec fn open_views(v: Seq<(String, u32)>) -> Seq<(Seq<char>, int)> {
    v.map_values(|o: (String, u32)| (o.0@, o.1 as int))
}

/// `block_end` from `e`.
fn find_block_end(b: &[u8], e: usize) -> (r: Option<usize>)
    ensures
        match r {
            Some(x) => x as int == block_end(b@, e as int) && x >= e && x + 1 < b@.len() && b@[x + 1] == 47,
            None => block_end(b@, e as int) == -1,
        },
{
    let mut i = e;
    while i < b.len() && i + 1 < b.len()
        invariant
            e <= i,
            block_end(b@, e as int) == block_end(b@, i as int),
        decreases b@.len() - i,
    {
        if b[i] == 42 && b[i + 1] == 47 {
            return Some(i);
        }
        i = i + 1;
    }
    None
}

/// The byte `first_lf_from` finds is a line feed.
pub proof fn lemma_first_lf_is_lf(b: Seq<u8>, s: int)
    requires
        0 <= s,
        first_lf_from(b, s) < b.len(),
    ensures
        b[first_lf_from(b, s)] == 10,
    decreases b.len() - s,
{
    if s < b.len() && b[s] != 10 {
        lemma_first_lf_is_lf(b, s + 1);
    }
}

/// `open_index` from 0.
fn find_open(open: &Vec<(String, u32)>, rule: &str) -> (r: Option<usize>)
    ensures
        match r {
            Some(k) => k as int == open_index(open_views(open@), rule@, 0) && k < open@.len(),
            None => open_index(open_views(open@), rule@, 0) == -1,
        },
{
    let ghost ov = open_views(open@);
    let mut i: usize = 0;
    while i < open.len()
        invariant
            0 <= i <= open@.len(),
            ov == open_views(open@),
            open_index(ov, rule@, 0) == open_index(ov, rule@, i as int),
        decreases open@.len() - i,
    {
        if str_eq(open[i].0.as_str(), rule) {
            return Some(i);
        }
        i = i + 1;
    }
    None
}

impl SuppressionContext {
    /// No regions.
    pub fn new() -> (r: Self)
        ensures
            r@ == Seq::<RegionView>::empty(),
    {
        let r = SuppressionContext { regions: Vec::new() };
        assert(r@ =~= Seq::<RegionView>::empty());
        r
    }

    fn add_region(&mut self, region: SuppressionRegion)
        ensures
            final(self)@ == old(self)@.push(region.view_tuple()),
    {
        self.regions.push(region);
        proof {
            assert(self@ =~= old(self)@.push(region.view_tuple()));
        }
    }

    /// The rule that a capture result names (see `rule_named`).
    fn named_rule(cap: Option<Option<String>>, group: usize) -> (r: Option<String>)
        ensures
            match r {
                Some(s) => rule_named(match cap {
                    None => None,
                    Some(None) => Some(Option::<Seq<char>>::None),
                    Some(Some(t)) => Some(Some(t@)),
                }, group) == Some(s@),
                None => cap is None,
            },
    {
        match cap {
            None => None,
            Some(g) => {
                if group > 0 {
                    match g {
                        Some(s) => Some(s),
                        None => Some(String::from_str("*")),
                    }
                } else {
                    Some(String::from_str("*"))
                }
            },
        }
    }

    /// `process_comment` of the comment `comment` at `pos`.
    fn process(&mut self, comment: &str, pos: u32, filter: &PlainTextCommentFilterConfig, open: &mut Vec<(String, u32)>)
        ensures
            (final(self)@, open_views(final(open)@)) == process_comment(
                filter.view_tuple(),
                (old(self)@, open_views(old(open)@)),
                comment@,
                pos as int,
            ),
    {
        let g = filter.check_format_group;
        let off = Self::named_rule(capture_group(filter.off_comment_format.as_str(), comment, g), g);
        match off {
            Some(rule) => {
                match find_open(open, rule.as_str()) {
                    Some(k) => {
                        open.set(k, (rule, pos));
                    },
                    None => {
                        open.push((rule, pos));
                    },
                }
            },
            None => {},
        }
        proof {
            assert(open_views(open@) =~= match rule_named(regex_capture(filter.off_comment_format@, comment@, g as nat), g) {
                Some(r) => open_put(open_views(old(open)@), r, pos as int),
                None => open_views(old(open)@),
            });
        }
        let ghost mid = open_views(open@);
        let on = Self::named_rule(capture_group(filter.on_comment_format.as_str(), comment, g), g);
        match on {
            Some(rule) => {
                match find_open(open, rule.as_str()) {
                    Some(k) => {
                        let (_, start) = open.remove(k);
                        proof {
                            assert(open_views(open@) =~= mid.remove(k as int));
                        }
                        self.add_region(SuppressionRegion { rule, start: TextSize::new(start), end: Some(TextSize::new(pos)) });
                    },
                    None => {},
                }
            },
            None => {},
        }
    }
}

impl SuppressionContext {
    /// The regions of filter `filter` in `source`, added after the present ones.
    fn parse_with_filter(&mut self, source: &str, filter: &PlainTextCommentFilterConfig)
        requires
            source.spec_bytes().len() <= u32::MAX,
        ensures
            final(self)@ == old(self)@ + filter_regions(filter.view_tuple(), source.spec_bytes()),
    {
        let b = source.as_bytes();
        let n = b.len();
        let ghost f = filter.view_tuple();
        proof {
            lemma_view_is_decode(source);
        }
        let mut found = SuppressionContext::new();
        let mut open: Vec<(String, u32)> = Vec::new();
        let ghost mut done: Seq<(int, int)> = seq![];
        let mut pos: usize = 0;
        proof {
            assert(open_views(open@) =~= Seq::<(Seq<char>, int)>::empty());
            assert(comment_spans(b@, 0) =~= done + comment_spans(b@, 0));
        }
        while pos < n
            invariant
                b@ == source.spec_bytes(),
                valid_utf8(b@),
                n == b@.len(),
                n <= u32::MAX,
                f == filter.view_tuple(),
                comment_spans(b@, 0) == done + comment_spans(b@, pos as int),
                (found@, open_views(open@)) == process_spans(f, b@, done, (seq![], seq![])),
                forall|k: int| 0 <= k < open@.len() ==> #[trigger] open@[k].1 <= u32::MAX,
            decreases n - pos,
        {
            if pos + 1 < n && b[pos] == 47 && b[pos + 1] == 47 {
                let le = next_lf(b, pos);
                proof {
                    lemma_ascii_boundaries(b@, pos as int);
                    if le < n {
                        lemma_first_lf_is_lf(b@, pos as int);
                        lemma_ascii_boundaries(b@, le as int);
                    } else {
                        vstd::utf8::is_char_boundary_start_end_of_seq(b@);
                    }
                }
                let comment = slice_text(source, pos, le);
                let ghost before = done;
                found.process(comment, pos as u32, filter, &mut open);
                proof {
                    done = done.push((pos as int, le as int));
                    assert(done.drop_last() =~= before);
                    if le < n {
                        assert(comment_spans(b@, 0) =~= done + comment_spans(b@, le + 1));
                    } else {
                        assert(comment_spans(b@, 0) =~= done + comment_spans(b@, n as int));
                    }
                }
                if le < n {
                    pos = le + 1;
                } else {
                    pos = n;
                }
            } else if pos + 1 < n && b[pos] == 47 && b[pos + 1] == 42 {
                match find_block_end(b, pos + 2) {
                    Some(e) => {
                        let ce = e + 2;
                        proof {
                            lemma_ascii_boundaries(b@, pos as int);
                            lemma_ascii_boundaries(b@, e + 1);
                        }
                        let comment = slice_text(source, pos, ce);
                        let ghost before = done;
                        found.process(comment, pos as u32, filter, &mut open);
                        proof {
                            done = done.push((pos as int, ce as int));
                            assert(done.drop_last() =~= before);
                            assert(comment_spans(b@, 0) =~= done + comment_spans(b@, ce as int));
                        }
                        pos = ce;
                    },
                    None => {
                        proof {
                            assert(comment_spans(b@, 0) =~= done + comment_spans(b@, n as int));
                        }
                        pos = n;
                    },
                }
            } else {
                pos = pos + 1;
            }
        }
        proof {
            assert(done =~= comment_spans(b@, 0));
        }
        let ghost st = process_spans(f, b@, done, (seq![], seq![]));
        let mut i: usize = 0;
        proof {
            assert(close_at(st.1.subrange(0, 0), n as int) =~= Seq::<RegionView>::empty());
            assert(found@ =~= st.0 + close_at(st.1.subrange(0, 0), n as int));
        }
        while i < open.len()
            invariant
                n == b@.len(),
                n <= u32::MAX,
                st.1 == open_views(open@),
                0 <= i <= open@.len(),
                found@ == st.0 + close_at(st.1.subrange(0, i as int), n as int),
                forall|k: int| 0 <= k < open@.len() ==> #[trigger] open@[k].1 <= u32::MAX,
            decreases open@.len() - i,
        {
            let rule = String::from_str(open[i].0.as_str());
            let start = open[i].1;
            found.add_region(SuppressionRegion { rule, start: TextSize::new(start), end: Some(TextSize::new(n as u32)) });
            proof {
                assert(st.1.subrange(0, i + 1).drop_last() =~= st.1.subrange(0, i as int));
                assert(close_at(st.1.subrange(0, i + 1), n as int) =~= close_at(st.1.subrange(0, i as int), n as int).push(
                    (open@[i as int].0@, open@[i as int].1 as int, Some(n as int)),
                ));
            }
            i = i + 1;
        }
        proof {
            assert(st.1.subrange(0, open@.len() as int) =~= st.1);
        }
        let ghost mine = self@;
        self.regions.append(&mut found.regions);
        proof {
            assert(self@ =~= mine + filter_regions(f, b@));
        }
    }

    /// The regions that the comment filters `filters` find in `source`, in order.
    pub fn from_source(source: &str, filters: &[PlainTextCommentFilterConfig]) -> (r: Self)
        requires
            source.spec_bytes().len() <= u32::MAX,
        ensures
            r@ == filters_regions(filters@, source.spec_bytes(), filters@.len() as int),
    {
        let mut ctx = SuppressionContext::new();
        let mut i: usize = 0;
        while i < filters.len()
            invariant
                source.spec_bytes().len() <= u32::MAX,
                0 <= i <= filters@.len(),
                ctx@ == filters_regions(filters@, source.spec_bytes(), i as int),
            decreases filters@.len() - i,
        {
            ctx.parse_with_filter(source, &filters[i]);
            i = i + 1;
        }
        ctx
    }

    /// Some region turns off rule `rule_name` (or every rule) at `pos`.
    pub fn is_suppressed(&self, rule_name: &str, pos: TextSize) -> (r: bool)
        ensures
            r == exists|i: int| 0 <= i < self@.len() && covers(#[trigger] self@[i], rule_name@, pos.raw as int),
    {
        let mut i: usize = 0;
        while i < self.regions.len()
            invariant
                0 <= i <= self.regions@.len(),
                self@ == region_views(self.regions@),
                forall|k: int| 0 <= k < i ==> !covers(#[trigger] self@[k], rule_name@, pos.raw as int),
            decreases self.regions@.len() - i,
        {
            let r = &self.regions[i];
            let named = str_eq(r.rule.as_str(), rule_name) || str_eq(r.rule.as_str(), "*");
            let inside = pos.raw >= r.start.raw && match r.end {
                Some(e) => pos.raw < e.raw,
                None => true,
            };
            proof {
                assert(self@[i as int] == r.view_tuple());
                reveal_strlit("*");
            }
            if named && inside {
                return true;
            }
            i = i + 1;
        }
        false
    }

    /// There is at least one region.
    pub fn has_suppressions(&self) -> (r: bool)
        ensures
            r == (self@.len() > 0),
    {
        self.regions.len() > 0
    }
}

impl Default for SuppressionContext {
    fn default() -> (r: Self)
        ensures
            r@ == Seq::<RegionView>::empty(),
    {
        Self::new()
    }
}

/// The kinds of declaration whose annotations can suppress rules.
pub open spec fn is_decl_kind(k: Seq<char>) -> bool {
    k == "class_declaration"@ || k == "interface_declaration"@ || k == "enum_declaration"@ || k == "method_declaration"@
        || k == "constructor_declaration"@ || k == "field_declaration"@ || k == "annotation_type_declaration"@
        || k == "record_declaration"@
}

/// Node `n` is an annotation.
pub open spec fn is_annotation(tree: CstTree, n: int) -> bool {
    tree.kind_of(n) == "annotation"@ || tree.kind_of(n) == "marker_annotation"@
}

/// The annotations among `cs`, in order.
pub open spec fn annotations_in(tree: CstTree, cs: Seq<usize>) -> Seq<usize>
    decreases cs.len(),
{
    if cs.len() == 0 {
        seq![]
    } else {
        annotations_in(tree, cs.drop_last()) + if is_annotation(tree, cs.last() as int) {
            seq![cs.last()]
        } else {
            seq![]
        }
    }
}

/// The annotations of node `n` that may name suppressed rules: those of its
/// modifiers, then its own, for a declaration; its own, for a local variable.
pub open spec fn node_annotations(tree: CstTree, n: int) -> Seq<usize> {
    let k = tree.kind_of(n);
    if is_decl_kind(k) {
        let m = match tree.kind_child(n, "modifiers"@) {
            Some(m) => annotations_in(tree, tree.children_of(m as int)),
            None => seq![],
        };
        m + annotations_in(tree, tree.children_of(n))
    } else if k == "local_variable_declaration"@ {
        annotations_in(tree, tree.children_of(n))
    } else {
        seq![]
    }
}

/// Node `n` is reached from `root` through named children.
pub open spec fn reached_named(tree: CstTree, root: int, n: int) -> bool
    decreases n,
{
    if n == root {
        true
    } else {
        let p = tree.parent_of(n);
        if n <= 0 || p is None || p.unwrap() >= n {
            false
        } else {
            tree.named_of(n) && reached_named(tree, root, p.unwrap() as int)
        }
    }
}

/// Node `j` is looked at when rules are read from the annotation arguments
/// `root`: the value of a key-value pair, or a named child, of a node looked
/// at that is no string literal.
pub open spec fn reached_value(tree: CstTree, root: int, j: int) -> bool
    decreases j,
{
    if j == root {
        true
    } else {
        let p = tree.parent_of(j);
        if j <= 0 || p is None || p.unwrap() >= j {
            false
        } else {
            let q = p.unwrap() as int;
            &&& tree.kind_of(q) != "string_literal"@
            &&& if tree.kind_of(q) == "element_value_pair"@ {
                tree.field_child(q, "value"@) == Some(j as usize)
            } else {
                tree.named_of(j)
            }
            &&& reached_value(tree, root, q)
        }
    }
}

/// `s` without its leading double quotes.
pub open spec fn strip_leading_quotes(s: Seq<char>) -> Seq<char>
    decreases s.len(),
{
    if s.len() > 0 && s[0] == '"' {
        strip_leading_quotes(s.drop_first())
    } else {
        s
    }
}

/// `s` without its trailing double quotes.
pub open spec fn strip_trailing_quotes(s: Seq<char>) -> Seq<char>
    decreases s.len(),
{
    if s.len() > 0 && s.last() == '"' {
        strip_trailing_quotes(s.drop_last())
    } else {
        s
    }
}

/// The rule a `@SuppressWarnings` string names: the text between the quotes,
/// without a leading `checkstyle:` (both `"checkstyle:RuleName"` and
/// `"RuleName"` name `RuleName`).
pub open spec fn suppress_warning_value(text: Seq<char>) -> Seq<char> {
    let c = strip_trailing_quotes(strip_leading_quotes(text));
    let p = "checkstyle:"@;
    if c.len() >= p.len() && c.subrange(0, p.len() as int) == p {
        c.subrange(p.len() as int, c.len() as int)
    } else {
        c
    }
}

/// The rules named by the string literals among nodes `0..j` that are looked
/// at from the arguments `root`, in order.
pub open spec fn rules_upto(tree: CstTree, root: int, j: int) -> Seq<Seq<char>>
    decreases j,
{
    if j <= 0 {
        seq![]
    } else {
        let n = j - 1;
        rules_upto(tree, root, n) + if reached_value(tree, root, n) && tree.kind_of(n) == "string_literal"@ {
            seq![suppress_warning_value(tree.text_of(n))]
        } else {
            seq![]
        }
    }
}

/// The text of the name of annotation `a` (its `name` field, or else its
/// first identifier child); empty without one.
pub open spec fn annotation_name(tree: CstTree, a: int) -> Seq<char> {
    match tree.field_child(a, "name"@) {
        Some(x) => tree.text_of(x as int),
        None => match tree.kind_child(a, "identifier"@) {
            Some(x) => tree.text_of(x as int),
            None => seq![],
        },
    }
}

/// The regions annotation `a` of node `t` makes: for a `@SuppressWarnings`
/// with arguments, one region over `t` per rule the arguments name.
pub open spec fn annotation_regions(tree: CstTree, a: int, t: int) -> Seq<RegionView> {
    if annotation_name(tree, a) != "SuppressWarnings"@ {
        seq![]
    } else {
        match tree.field_child(a, "arguments"@) {
            Some(args) => rules_upto(tree, args as int, tree.node_count() as int).map_values(
                |r: Seq<char>| (r, tree.start_of(t), Some(tree.end_of(t))),
            ),
            None => seq![],
        }
    }
}

/// The regions of the annotations `anns` of node `t`, in order.
pub open spec fn annotations_regions(tree: CstTree, anns: Seq<usize>, t: int) -> Seq<RegionView>
    decreases anns.len(),
{
    if anns.len() == 0 {
        seq![]
    } else {
        annotations_regions(tree, anns.drop_last(), t) + annotation_regions(tree, anns.last() as int, t)
    }
}

/// The regions the annotations of the nodes `0..j` reached from `root` make.
pub open spec fn annotated_upto(tree: CstTree, root: int, j: int) -> Seq<RegionView>
    decreases j,
{
    if j <= 0 {
        seq![]
    } else {
        let n = j - 1;
        annotated_upto(tree, root, n) + if reached_named(tree, root, n) {
            annotations_regions(tree, node_annotations(tree, n), n)
        } else {
            seq![]
        }
    }
}

/// `reached_named` of node `n`.
fn reached_named_exec(tree: &CstTree, root: usize, n: usize) -> (r: bool)
    requires
        tree.wf(),
        n < tree.node_count(),
    ensures
        r == reached_named(*tree, root as int, n as int),
{
    let mut cur = n;
    while cur != root
        invariant
            tree.wf(),
            cur < tree.node_count(),
            reached_named(*tree, root as int, n as int) == reached_named(*tree, root as int, cur as int),
        decreases cur,
    {
        let p = match tree.parent(cur) {
            Some(p) => p,
            None => return false,
        };
        if !tree.is_named(cur) {
            return false;
        }
        cur = p;
    }
    true
}

/// `reached_value` of node `j`.
fn reached_value_exec(tree: &CstTree, root: usize, j: usize) -> (r: bool)
    requires
        tree.wf(),
        j < tree.node_count(),
    ensures
        r == reached_value(*tree, root as int, j as int),
{
    let mut cur = j;
    while cur != root
        invariant
            tree.wf(),
            cur < tree.node_count(),
            reached_value(*tree, root as int, j as int) == reached_value(*tree, root as int, cur as int),
        decreases cur,
    {
        let p = match tree.parent(cur) {
            Some(p) => p,
            None => return false,
        };
        if str_eq(tree.kind(p), "string_literal") {
            return false;
        }
        let ok = if str_eq(tree.kind(p), "element_value_pair") {
            tree.child_by_field_name(p, "value") == Some(cur)
        } else {
            tree.is_named(cur)
        };
        if !ok {
            return false;
        }
        cur = p;
    }
    true
}

/// `annotations_in` of the children of node `n`.
fn annotation_children(tree: &CstTree, n: usize) -> (r: Vec<usize>)
    requires
        tree.wf(),
        n < tree.node_count(),
    ensures
        r@ == annotations_in(*tree, tree.children_of(n as int)),
        forall|k: int| 0 <= k < r@.len() ==> #[trigger] r@[k] < tree.node_count(),
{
    proof {
        tree.lemma_node(n as int);
    }
    let cs = tree.children(n);
    let mut out: Vec<usize> = Vec::new();
    let mut i: usize = 0;
    while i < cs.len()
        invariant
            tree.wf(),
            cs@ == tree.children_of(n as int),
            forall|c: usize| #[trigger] cs@.contains(c) ==> c < tree.node_count(),
            0 <= i <= cs@.len(),
            out@ == annotations_in(*tree, cs@.subrange(0, i as int)),
            forall|k: int| 0 <= k < out@.len() ==> #[trigger] out@[k] < tree.node_count(),
        decreases cs@.len() - i,
    {
        let c = cs[i];
        proof {
            assert(cs@.contains(c));
            assert(cs@.subrange(0, i + 1).drop_last() =~= cs@.subrange(0, i as int));
        }
        let k = tree.kind(c);
        if str_eq(k, "annotation") || str_eq(k, "marker_annotation") {
            out.push(c);
        }
        i = i + 1;
    }
    proof {
        assert(cs@.subrange(0, cs@.len() as int) =~= cs@);
    }
    out
}

/// `node_annotations` of node `n`.
fn node_annotations_exec(tree: &CstTree, n: usize) -> (r: Vec<usize>)
    requires
        tree.wf(),
        n < tree.node_count(),
    ensures
        r@ == node_annotations(*tree, n as int),
        forall|k: int| 0 <= k < r@.len() ==> #[trigger] r@[k] < tree.node_count(),
{
    let k = tree.kind(n);
    if str_eq(k, "class_declaration") || str_eq(k, "interface_declaration") || str_eq(k, "enum_declaration") || str_eq(
        k,
        "method_declaration",
    ) || str_eq(k, "constructor_declaration") || str_eq(k, "field_declaration") || str_eq(k, "annotation_type_declaration")
        || str_eq(k, "record_declaration") {
        let mut out = match tree.find_child(n, "modifiers") {
            Some(m) => annotation_children(tree, m),
            None => Vec::new(),
        };
        let mut own = annotation_children(tree, n);
        out.append(&mut own);
        out
    } else if str_eq(k, "local_variable_declaration") {
        annotation_children(tree, n)
    } else {
        Vec::new()
    }
}

/// `suppress_warning_value` of `text`.
fn suppress_warning_value_exec(text: &str) -> (r: String)
    ensures
        r@ == suppress_warning_value(text@),
{
    let cs = to_chars(text);
    let n = cs.len();
    let mut a: usize = 0;
    proof {
        assert(cs@.subrange(0, n as int) =~= cs@);
    }
    while a < n && cs[a] == '"'
        invariant
            cs@ == text@,
            n == cs@.len(),
            0 <= a <= n,
            strip_leading_quotes(text@) == strip_leading_quotes(cs@.subrange(a as int, n as int)),
        decreases n - a,
    {
        proof {
            assert(cs@.subrange(a as int, n as int).drop_first() =~= cs@.subrange(a + 1, n as int));
        }
        a = a + 1;
    }
    proof {
        assert(strip_leading_quotes(text@) == cs@.subrange(a as int, n as int));
    }
    let mut e: usize = n;
    while e > a && cs[e - 1] == '"'
        invariant
            cs@ == text@,
            n == cs@.len(),
            0 <= a <= e <= n,
            strip_leading_quotes(text@) == cs@.subrange(a as int, n as int),
            strip_trailing_quotes(cs@.subrange(a as int, n as int)) == strip_trailing_quotes(cs@.subrange(a as int, e as int)),
        decreases e,
    {
        proof {
            assert(cs@.subrange(a as int, e as int).drop_last() =~= cs@.subrange(a as int, e - 1));
        }
        e = e - 1;
    }
    let ghost c = cs@.subrange(a as int, e as int);
    proof {
        assert(strip_trailing_quotes(c) == c);
    }
    let p = to_chars("checkstyle:");
    proof {
        reveal_strlit("checkstyle:");
    }
    if e - a < p.len() {
        let w = string_from_chars(&cs, a, e);
        proof {
            assert(w@ =~= c);
        }
        return w;
    }
    let mut k: usize = 0;
    while k < p.len()
        invariant
            p@ == "checkstyle:"@,
            cs@ == text@,
            n == cs@.len(),
            0 <= a <= e <= n,
            e - a >= p@.len(),
            c == cs@.subrange(a as int, e as int),
            strip_trailing_quotes(strip_leading_quotes(text@)) == c,
            0 <= k <= p@.len(),
            forall|x: int| 0 <= x < k ==> cs@[a + x] == #[trigger] p@[x],
        decreases p@.len() - k,
    {
        if cs[a + k] != p[k] {
            proof {
                assert(c[k as int] != p@[k as int]);
                assert(c.subrange(0, p@.len() as int) != p@) by {
                    assert(c.subrange(0, p@.len() as int)[k as int] != p@[k as int]);
                }
            }
            let w = string_from_chars(&cs, a, e);
            proof {
                assert(w@ =~= c);
            }
            return w;
        }
        k = k + 1;
    }
    proof {
        assert(c.subrange(0, p@.len() as int) =~= p@);
    }
    let v = string_from_chars(&cs, a + p.len(), e);
    proof {
        assert(v@ =~= c.subrange(p@.len() as int, c.len() as int));
    }
    v
}

/// `rules_upto` over all nodes, from the arguments `root`.
fn rules_from(tree: &CstTree, root: usize) -> (r: Vec<String>)
    requires
        tree.wf(),
    ensures
        r@.map_values(|s: String| s@) == rules_upto(*tree, root as int, tree.node_count() as int),
{
    let n = tree.len();
    let mut out: Vec<String> = Vec::new();
    let mut j: usize = 0;
    while j < n
        invariant
            tree.wf(),
            n == tree.node_count(),
            0 <= j <= n,
            out@.map_values(|s: String| s@) == rules_upto(*tree, root as int, j as int),
        decreases n - j,
    {
        if reached_value_exec(tree, root, j) && str_eq(tree.kind(j), "string_literal") {
            let v = suppress_warning_value_exec(tree.text(j));
            let ghost before = out@;
            out.push(v);
            proof {
                assert(out@.map_values(|s: String| s@) =~= before.map_values(|s: String| s@).push(v@));
            }
        } else {
            proof {
                assert(out@.map_values(|s: String| s@) =~= rules_upto(*tree, root as int, j + 1));
            }
        }
        j = j + 1;
    }
    out
}

/// `annotation_name` of annotation `a`.
fn annotation_name_exec(tree: &CstTree, a: usize) -> (r: &str)
    requires
        tree.wf(),
        a < tree.node_count(),
    ensures
        r@ == annotation_name(*tree, a as int),
{
    match tree.child_by_field_name(a, "name") {
        Some(x) => tree.text(x),
        None => match tree.find_child(a, "identifier") {
            Some(x) => tree.text(x),
            None => {
                let e = "";
                proof {
                    reveal_strlit("");
                }
                e
            },
        },
    }
}

impl SuppressionContext {
    /// Adds the regions annotation `a` of node `t` makes.
    fn process_annotation(&mut self, tree: &CstTree, a: usize, t: usize)
        requires
            tree.wf(),
            a < tree.node_count(),
            t < tree.node_count(),
        ensures
            final(self)@ == old(self)@ + annotation_regions(*tree, a as int, t as int),
    {
        if !str_eq(annotation_name_exec(tree, a), "SuppressWarnings") {
            proof {
                assert(old(self)@ + Seq::<RegionView>::empty() =~= old(self)@);
            }
            return;
        }
        match tree.child_by_field_name(a, "arguments") {
            Some(args) => {
                let rules = rules_from(tree, args);
                let range = tree.range(t);
                let ghost rv = rules@.map_values(|s: String| s@);
                let ghost mine = self@;
                let mut i: usize = 0;
                while i < rules.len()
                    invariant
                        rv == rules@.map_values(|s: String| s@),
                        range.start.raw == tree.start_of(t as int),
                        range.end.raw == tree.end_of(t as int),
                        0 <= i <= rules@.len(),
                        self@ == mine + rv.subrange(0, i as int).map_values(
                            |r: Seq<char>| (r, tree.start_of(t as int), Some(tree.end_of(t as int))),
                        ),
                    decreases rules@.len() - i,
                {
                    let rule = String::from_str(rules[i].as_str());
                    self.add_region(SuppressionRegion { rule, start: range.start, end: Some(range.end) });
                    proof {
                        assert(rv[i as int] == rules@[i as int]@);
                        assert(rv.subrange(0, i + 1).map_values(|r: Seq<char>| (r, tree.start_of(t as int), Some(tree.end_of(t as int))))
                            =~= rv.subrange(0, i as int).map_values(
                            |r: Seq<char>| (r, tree.start_of(t as int), Some(tree.end_of(t as int))),
                        ).push((rv[i as int], tree.start_of(t as int), Some(tree.end_of(t as int)))));
                    }
                    i = i + 1;
                }
                proof {
                    assert(rv.subrange(0, rules@.len() as int) =~= rv);
                }
            },
            None => {
                proof {
                    assert(old(self)@ + Seq::<RegionView>::empty() =~= old(self)@);
                }
            },
        }
    }

    /// Adds the regions of the `@SuppressWarnings("checkstyle:Rule")` and
    /// `@SuppressWarnings("Rule")` annotations on the declarations and local variables reached from
    /// `root` through named children: each covers the node it annotates.
    pub fn parse_suppress_warnings(&mut self, tree: &CstTree, root: usize)
        requires
            tree.wf(),
        ensures
            final(self)@ == old(self)@ + annotated_upto(*tree, root as int, tree.node_count() as int),
    {
        let n = tree.len();
        let ghost mine = self@;
        let mut j: usize = 0;
        proof {
            assert(mine + annotated_upto(*tree, root as int, 0) =~= mine);
        }
        while j < n
            invariant
                tree.wf(),
                n == tree.node_count(),
                0 <= j <= n,
                self@ == mine + annotated_upto(*tree, root as int, j as int),
            decreases n - j,
        {
            if reached_named_exec(tree, root, j) {
                let anns = node_annotations_exec(tree, j);
                let ghost here = self@;
                let mut i: usize = 0;
                proof {
                    assert(here + annotations_regions(*tree, anns@.subrange(0, 0), j as int) =~= here);
                }
                while i < anns.len()
                    invariant
                        tree.wf(),
                        j < tree.node_count(),
                        forall|k: int| 0 <= k < anns@.len() ==> #[trigger] anns@[k] < tree.node_count(),
                        0 <= i <= anns@.len(),
                        self@ == here + annotations_regions(*tree, anns@.subrange(0, i as int), j as int),
                    decreases anns@.len() - i,
                {
                    self.process_annotation(tree, anns[i], j);
                    proof {
                        assert(anns@.subrange(0, i + 1).drop_last() =~= anns@.subrange(0, i as int));
                    }
                    i = i + 1;
                }
                proof {
                    assert(anns@.subrange(0, anns@.len() as int) =~= anns@);
                }
            } else {
                proof {
                    assert(self@ + Seq::<RegionView>::empty() =~= self@);
                }
            }
            j = j + 1;
        }
    }
}

/// The regions of the first `n` filters do not depend on the filters after them.
proof fn lemma_filters_prefix(fs: Seq<PlainTextCommentFilterConfig>, g: PlainTextCommentFilterConfig, b: Seq<u8>, n: int)
    requires
        0 <= n <= fs.len(),
    ensures
        filters_regions(fs.push(g), b, n) == filters_regions(fs, b, n),
    decreases n,
{
    if n > 0 {
        lemma_filters_prefix(fs, g, b, n - 1);
        assert(fs.push(g)[n - 1] == fs[n - 1]);
    }
}

/// Adding a comment filter keeps every suppression: what the filters `fs`
/// turn off at `pos` stays off with `g` added after them.
pub proof fn law_more_filters_keep_suppressions(
    fs: Seq<PlainTextCommentFilterConfig>,
    g: PlainTextCommentFilterConfig,
    b: Seq<u8>,
    rule: Seq<char>,
    pos: int,
)
    ensures
        (exists|i: int| 0 <= i < filters_regions(fs, b, fs.len() as int).len() && covers(
            #[trigger] filters_regions(fs, b, fs.len() as int)[i],
            rule,
            pos,
        )) ==> (exists|i: int| 0 <= i < filters_regions(fs.push(g), b, fs.len() + 1int).len() && covers(
            #[trigger] filters_regions(fs.push(g), b, fs.len() + 1int)[i],
            rule,
            pos,
        )),
{
    let n = fs.len() as int;
    lemma_filters_prefix(fs, g, b, n);
    let before = filters_regions(fs, b, n);
    let after = filters_regions(fs.push(g), b, n + 1);
    assert(after == filters_regions(fs.push(g), b, n) + filter_regions(fs.push(g)[n].view_tuple(), b));
    if exists|i: int| 0 <= i < before.len() && covers(#[trigger] before[i], rule, pos) {
        let i = choose|i: int| 0 <= i < before.len() && covers(#[trigger] before[i], rule, pos);
        assert(after[i] == before[i]);
    }
}

/// The spans `s`, each moved by `d` bytes.
pub open spec fn shift_spans(s: Seq<(int, int)>, d: int) -> Seq<(int, int)> {
    s.map_values(|x: (int, int)| (x.0 + d, x.1 + d))
}

proof fn lemma_first_lf_shift(p: Seq<u8>, b: Seq<u8>, k: int)
    requires
        0 <= k,
    ensures
        first_lf_from(p + b, p.len() + k) == first_lf_from(b, k) + p.len(),
    decreases b.len() - k,
{
    if k < b.len() {
        assert((p + b)[p.len() + k] == b[k]);
        if b[k] != 10 {
            lemma_first_lf_shift(p, b, k + 1);
        }
    }
}

proof fn lemma_block_end_shift(p: Seq<u8>, b: Seq<u8>, k: int)
    requires
        0 <= k,
    ensures
        block_end(p + b, p.len() + k) == if block_end(b, k) == -1 { -1 } else { block_end(b, k) + p.len() },
        block_end(b, k) == -1 || block_end(b, k) >= k,
    decreases b.len() - k,
{
    if k + 1 < b.len() {
        assert((p + b)[p.len() + k] == b[k]);
        assert((p + b)[p.len() + k + 1] == b[k + 1]);
        if !(b[k] == 42 && b[k + 1] == 47) {
            lemma_block_end_shift(p, b, k + 1);
        }
    }
}

/// Scanning from inside the second part of a text finds the comments of that
/// part, moved by the length of the first.
proof fn lemma_spans_shift(p: Seq<u8>, b: Seq<u8>, k: int)
    requires
        0 <= k,
    ensures
        comment_spans(p + b, p.len() + k) == shift_spans(comment_spans(b, k), p.len() as int),
    decreases b.len() - k,
{
    let t = p + b;
    let pos = p.len() + k;
    let d = p.len() as int;
    if k >= b.len() {
        assert(shift_spans(comment_spans(b, k), d) =~= Seq::<(int, int)>::empty());
    } else {
        assert(t[pos] == b[k]);
        if k + 1 < b.len() {
            assert(t[pos + 1] == b[k + 1]);
        }
        if k + 1 < b.len() && b[k] == 47 && b[k + 1] == 47 {
            lemma_first_lf_shift(p, b, k);
            lemma_first_lf_bounds(b, k);
            let le = first_lf_from(b, k);
            if le >= b.len() {
                assert(shift_spans(seq![(k, le)], d) =~= seq![(pos, le + d)]);
            } else {
                lemma_spans_shift(p, b, le + 1);
                assert(shift_spans(seq![(k, le)] + comment_spans(b, le + 1), d)
                    =~= seq![(pos, le + d)] + shift_spans(comment_spans(b, le + 1), d));
            }
        } else if k + 1 < b.len() && b[k] == 47 && b[k + 1] == 42 {
            lemma_block_end_shift(p, b, k + 2);
            let e = block_end(b, k + 2);
            if e == -1 || e + 1 >= b.len() {
                assert(shift_spans(comment_spans(b, k), d) =~= Seq::<(int, int)>::empty());
            } else {
                lemma_spans_shift(p, b, e + 2);
                assert(shift_spans(seq![(k, e + 2)] + comment_spans(b, e + 2), d)
                    =~= seq![(pos, e + 2 + d)] + shift_spans(comment_spans(b, e + 2), d));
            }
        } else {
            lemma_spans_shift(p, b, k + 1);
        }
    }
}

proof fn lemma_block_scan(y: Seq<u8>, rest: Seq<u8>, j: int)
    requires
        forall|i: int| 0 <= i < y.len() - 1 ==> !(#[trigger] y[i] == 42 && y[i + 1] == 47),
        2 <= j <= y.len() + 2,
    ensures
        block_end(seq![47u8, 42u8] + y + seq![42u8, 47u8] + rest, j) == y.len() + 2,
    decreases y.len() + 2 - j,
{
    let t = seq![47u8, 42u8] + y + seq![42u8, 47u8] + rest;
    if j == y.len() + 2 {
        assert(t[j] == 42 && t[j + 1] == 47);
    } else {
        assert(t[j] == y[j - 2]);
        if j + 1 < y.len() + 2 {
            assert(t[j + 1] == y[j - 1]);
        } else {
            assert(t[j + 1] == 42);
        }
        lemma_block_scan(y, rest, j + 1);
    }
}

proof fn lemma_line_scan(y: Seq<u8>, rest: Seq<u8>, j: int)
    requires
        forall|i: int| 0 <= i < y.len() ==> #[trigger] y[i] != 10,
        0 <= j <= y.len() + 2,
    ensures
        first_lf_from(seq![47u8, 47u8] + y + seq![10u8] + rest, j) == y.len() + 2,
    decreases y.len() + 2 - j,
{
    let t = seq![47u8, 47u8] + y + seq![10u8] + rest;
    if j == y.len() + 2 {
        assert(t[j] == 10);
    } else {
        if j >= 2 {
            assert(t[j] == y[j - 2]);
        }
        lemma_line_scan(y, rest, j + 1);
    }
}

/// A closed block comment does not end the scan for comments: the comments
/// of a text that opens with the block comment `/*y*/` (no `*/` inside `y`)
/// are that comment and then the comments of the rest, moved by its length.
pub proof fn law_comments_after_block_comment(y: Seq<u8>, rest: Seq<u8>)
    requires
        forall|i: int| 0 <= i < y.len() - 1 ==> !(#[trigger] y[i] == 42 && y[i + 1] == 47),
    ensures
        ({
            let pre = seq![47u8, 42u8] + y + seq![42u8, 47u8];
            comment_spans(pre + rest, 0) == seq![(0int, pre.len() as int)] + shift_spans(comment_spans(rest, 0), pre.len() as int)
        }),
{
    let pre = seq![47u8, 42u8] + y + seq![42u8, 47u8];
    let t = pre + rest;
    assert(t[0] == 47 && t[1] == 42);
    lemma_block_scan(y, rest, 2);
    lemma_spans_shift(pre, rest, 0);
    assert(pre.len() + 0 == y.len() + 4);
}

/// A line comment runs to the end of its line and the scan goes on after it:
/// the comments of a text that opens with `//y` and a line feed (no line feed
/// inside `y`) are that comment and then the comments of the rest, moved.
pub proof fn law_comments_after_line_comment(y: Seq<u8>, rest: Seq<u8>)
    requires
        forall|i: int| 0 <= i < y.len() ==> #[trigger] y[i] != 10,
    ensures
        ({
            let pre = seq![47u8, 47u8] + y + seq![10u8];
            comment_spans(pre + rest, 0) == seq![(0int, y.len() + 2int)] + shift_spans(comment_spans(rest, 0), pre.len() as int)
        }),
{
    let pre = seq![47u8, 47u8] + y + seq![10u8];
    let t = pre + rest;
    assert(t[0] == 47 && t[1] == 47);
    lemma_line_scan(y, rest, 0);
    lemma_spans_shift(pre, rest, 0);
    assert(pre.len() + 0 == y.len() + 3);
}

proof fn lemma_plain_scan(p: Seq<u8>, rest: Seq<u8>, j: int)
    requires
        forall|i: int| 0 <= i < p.len() ==> #[trigger] p[i] != 47,
        0 <= j <= p.len(),
    ensures
        comment_spans(p + rest, j) == comment_spans(p + rest, p.len() as int),
    decreases p.len() - j,
{
    if j < p.len() {
        assert((p + rest)[j] == p[j]);
        lemma_plain_scan(p, rest, j + 1);
    }
}

/// Text without a slash holds no comment and does not change the comments
/// after it: they are those of the rest, moved by its length.
pub proof fn law_comments_after_plain_text(p: Seq<u8>, rest: Seq<u8>)
    requires
        forall|i: int| 0 <= i < p.len() ==> #[trigger] p[i] != 47,
    ensures
        comment_spans(p + rest, 0) == shift_spans(comment_spans(rest, 0), p.len() as int),
{
    lemma_plain_scan(p, rest, 0);
    lemma_spans_shift(p, rest, 0);
    assert(p.len() + 0 == p.len());
}

} // verus!
