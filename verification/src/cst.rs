//! The concrete syntax tree of a Java source file: every node, named or not,
//! with its kind, byte range, rows, parent and children. Node `0` is the root
//! and the nodes are numbered in preorder.

use vstd::prelude::*;
use vstd::string::*;
use vstd::utf8::*;

use crate::java_parser::{java_flat_nodes, java_syntax_nodes, FlatNode, FlatNodeView};
use crate::strings::{str_eq, str_in};

use crate::text::{is_boundary, split_text, TextRange, TextSize};

verus! {

broadcast use vstd::utf8::encode_utf8_decode_utf8, vstd::utf8::encode_utf8_valid_utf8;

/// The depth of a flat node.
pub open spec fn fdepth(f: FlatNodeView) -> int {
    f.5 as int
}

/// The last node among `0..=j` whose depth is `d`, or -1 when there is none.
pub open spec fn last_at_depth(flat: Seq<FlatNodeView>, j: int, d: int) -> int
    decreases j + 1,
{
    if j < 0 {
        -1
    } else if fdepth(flat[j]) == d {
        j
    } else {
        last_at_depth(flat, j - 1, d)
    }
}

/// The parent of flat node `k`: the last earlier node one level up.
pub open spec fn flat_parent(flat: Seq<FlatNodeView>, k: int) -> int {
    last_at_depth(flat, k - 1, fdepth(flat[k]) - 1)
}

/// The depths describe a preorder walk of one tree.
pub open spec fn valid_depths(flat: Seq<FlatNodeView>) -> bool {
    &&& flat.len() > 0
    &&& fdepth(flat[0]) == 0
    &&& forall|k: int| 1 <= k < flat.len() ==> 1 <= #[trigger] fdepth(flat[k]) <= fdepth(flat[k - 1]) + 1
}

/// Every node's range lies in `source` and starts and ends at character boundaries.
pub open spec fn valid_ranges(source: &str, flat: Seq<FlatNodeView>) -> bool {
    forall|k: int| 0 <= k < flat.len() ==> {
        &&& (#[trigger] flat[k]).1 <= flat[k].2 <= source.spec_bytes().len()
        &&& is_boundary(source, flat[k].1 as int)
        &&& is_boundary(source, flat[k].2 as int)
    }
}

/// A strictly increasing sequence of indices.
pub open spec fn increasing(s: Seq<usize>) -> bool {
    forall|a: int, b: int| 0 <= a < b < s.len() ==> s[a] < s[b]
}

/// The syntax tree of a source text.
pub struct CstTree {
    source: String,
    kinds: Vec<String>,
    starts: Vec<u32>,
    ends: Vec<u32>,
    start_rows: Vec<usize>,
    end_rows: Vec<usize>,
    named: Vec<bool>,
    extra: Vec<bool>,
    fields: Vec<Option<String>>,
    parents: Vec<Option<usize>>,
    children: Vec<Vec<usize>>,
}

impl CstTree {
    pub closed spec fn node_count(&self) -> nat {
        self.kinds@.len()
    }

    /// The source text.
    pub closed spec fn src(&self) -> Seq<char> {
        self.source@
    }

    /// The UTF-8 bytes of the source text.
    pub open spec fn src_bytes(&self) -> Seq<u8> {
        encode_utf8(self.src())
    }

    pub closed spec fn kind_of(&self, i: int) -> Seq<char> {
        self.kinds@[i]@
    }

    pub closed spec fn start_of(&self, i: int) -> int {
        self.starts@[i] as int
    }

    pub closed spec fn end_of(&self, i: int) -> int {
        self.ends@[i] as int
    }

    pub closed spec fn start_row_of(&self, i: int) -> int {
        self.start_rows@[i] as int
    }

    pub closed spec fn end_row_of(&self, i: int) -> int {
        self.end_rows@[i] as int
    }

    pub closed spec fn named_of(&self, i: int) -> bool {
        self.named@[i]
    }

    pub closed spec fn extra_of(&self, i: int) -> bool {
        self.extra@[i]
    }

    pub closed spec fn field_of(&self, i: int) -> Option<Seq<char>> {
        match self.fields@[i] {
            Some(f) => Some(f@),
            None => None,
        }
    }

    pub closed spec fn parent_of(&self, i: int) -> Option<usize> {
        self.parents@[i]
    }

    pub closed spec fn children_of(&self, i: int) -> Seq<usize> {
        self.children@[i]@
    }

    /// The first node of `cs` whose kind is `k`.
    pub open spec fn first_of_kind(&self, cs: Seq<usize>, k: Seq<char>) -> Option<usize>
        decreases cs.len(),
    {
        if cs.len() == 0 {
            None
        } else if self.kind_of(cs[0] as int) == k {
            Some(cs[0])
        } else {
            self.first_of_kind(cs.drop_first(), k)
        }
    }

    /// The first node of `cs` that fills the field `name`.
    pub open spec fn first_with_field(&self, cs: Seq<usize>, name: Seq<char>) -> Option<usize>
        decreases cs.len(),
    {
        if cs.len() == 0 {
            None
        } else if self.field_of(cs[0] as int) == Some(name) {
            Some(cs[0])
        } else {
            self.first_with_field(cs.drop_first(), name)
        }
    }

    /// The child of `i` that fills the field `name`, if any.
    pub open spec fn field_child(&self, i: int, name: Seq<char>) -> Option<usize> {
        self.first_with_field(self.children_of(i), name)
    }

    /// The first child of `i` of kind `k`, if any.
    pub open spec fn kind_child(&self, i: int, k: Seq<char>) -> Option<usize> {
        self.first_of_kind(self.children_of(i), k)
    }

    /// The nodes of `cs` whose kind is `k`, in order.
    pub open spec fn of_kind(&self, cs: Seq<usize>, k: Seq<char>) -> Seq<usize>
        decreases cs.len(),
    {
        if cs.len() == 0 {
            Seq::<usize>::empty()
        } else {
            let prev = self.of_kind(cs.drop_last(), k);
            if self.kind_of(cs.last() as int) == k {
                prev.push(cs.last())
            } else {
                prev
            }
        }
    }

    /// The nearest proper ancestor of `i` whose kind is `k`, if any.
    pub open spec fn enclosing(&self, i: int, k: Seq<char>) -> Option<usize>
        decreases i,
    {
        let p = self.parent_of(i);
        if i <= 0 || p is None || p.unwrap() >= i {
            None
        } else if self.kind_of(p.unwrap() as int) == k {
            p
        } else {
            self.enclosing(p.unwrap() as int, k)
        }
    }

    /// Nodes `a` and `b` cover the same bytes.
    pub open spec fn same_range(&self, a: int, b: int) -> bool {
        self.start_of(a) == self.start_of(b) && self.end_of(a) == self.end_of(b)
    }

    /// The first node of `cs` whose kind is one of `ks`.
    pub open spec fn first_of_kinds(&self, cs: Seq<usize>, ks: Seq<Seq<char>>) -> Option<usize>
        decreases cs.len(),
    {
        if cs.len() == 0 {
            None
        } else if ks.contains(self.kind_of(cs[0] as int)) {
            Some(cs[0])
        } else {
            self.first_of_kinds(cs.drop_first(), ks)
        }
    }

    /// The characters of node `i`.
    pub open spec fn text_of(&self, i: int) -> Seq<char> {
        decode_utf8(self.src_bytes().subrange(self.start_of(i), self.end_of(i)))
    }

    /// The structure of the tree is consistent.
    pub closed spec fn wf(&self) -> bool {
        let n = self.kinds@.len();
        &&& n > 0
        &&& self.starts@.len() == n
        &&& self.ends@.len() == n
        &&& self.start_rows@.len() == n
        &&& self.end_rows@.len() == n
        &&& self.named@.len() == n
        &&& self.extra@.len() == n
        &&& self.fields@.len() == n
        &&& self.parents@.len() == n
        &&& self.children@.len() == n
        &&& n <= usize::MAX
        &&& encode_utf8(self.source@).len() < u32::MAX
        &&& self.parents@[0] is None
        &&& forall|i: int| 1 <= i < n ==> (#[trigger] self.parents@[i]) is Some && self.parents@[i].unwrap() < i
        &&& forall|i: int| 0 <= i < n ==> {
            &&& (#[trigger] self.starts@[i]) <= self.ends@[i] <= encode_utf8(self.source@).len()
            &&& is_char_boundary(encode_utf8(self.source@), self.starts@[i] as int)
            &&& is_char_boundary(encode_utf8(self.source@), self.ends@[i] as int)
        }
        &&& forall|i: int| 0 <= i < n ==> increasing(#[trigger] self.children@[i]@)
        &&& forall|i: int, c: usize| 0 <= i < n ==> (#[trigger] self.children@[i]@.contains(c)
            <==> (c < n && self.parents@[c as int] == Some(i as usize)))
    }

    /// Facts about node `i` of a well-formed tree.
    pub proof fn lemma_node(&self, i: int)
        requires
            self.wf(),
            0 <= i < self.node_count(),
        ensures
            0 <= self.start_of(i) <= self.end_of(i) <= self.src_bytes().len(),
            self.src_bytes().len() < u32::MAX,
            0 <= self.start_row_of(i) <= usize::MAX,
            0 <= self.end_row_of(i) <= usize::MAX,
            is_char_boundary(self.src_bytes(), self.start_of(i)),
            is_char_boundary(self.src_bytes(), self.end_of(i)),
            i == 0 <==> self.parent_of(i) is None,
            self.parent_of(i) is Some ==> self.parent_of(i).unwrap() < i,
            increasing(self.children_of(i)),
            forall|c: usize| #[trigger] self.children_of(i).contains(c) <==> (c < self.node_count()
                && self.parent_of(c as int) == Some(i as usize)),
            forall|k: int| 0 <= k < self.children_of(i).len() ==> i < #[trigger] self.children_of(i)[k] < self.node_count(),
    {
        assert(self.starts@[i] <= self.ends@[i]);
        if i > 0 {
            assert(self.parents@[i] is Some);
        }
        assert forall|k: int| 0 <= k < self.children_of(i).len() implies i < #[trigger] self.children_of(i)[k] < self.node_count() by {
            let c = self.children_of(i)[k];
            assert(self.children@[i]@.contains(c));
            assert(self.parents@[c as int] == Some(i as usize));
            if c == 0 {
                assert(self.parents@[0] is None);
            }
            assert(self.parents@[c as int].unwrap() < c);
        }
    }

    /// Builds the tree from a preorder list of nodes with their depths, or gives
    /// `None` when the depths do not describe a tree, a range does not fit the
    /// source, or the source is too long for every offset up to one past its
    /// end to be a `u32`.
    pub fn from_flat_nodes(source: &str, flat: &Vec<FlatNode>) -> (r: Option<CstTree>)
        ensures
            ({
                let fv = flat@.map_values(|f: FlatNode| f.view_tuple());
                r.is_some() <==> (source.spec_bytes().len() < u32::MAX && valid_depths(fv)
                    && valid_ranges(source, fv))
            }),
            r.is_some() ==> ({
                let t = r.unwrap();
                let fv = flat@.map_values(|f: FlatNode| f.view_tuple());
                &&& t.wf()
                &&& t.src() == source@
                &&& t.node_count() == fv.len()
                &&& forall|k: int| 0 <= k < fv.len() ==> {
                    &&& #[trigger] t.kind_of(k) == fv[k].0
                    &&& t.start_of(k) == fv[k].1
                    &&& t.end_of(k) == fv[k].2
                    &&& t.start_row_of(k) == fv[k].3
                    &&& t.end_row_of(k) == fv[k].4
                    &&& t.named_of(k) == fv[k].6
                    &&& t.extra_of(k) == fv[k].7
                    &&& t.field_of(k) == fv[k].8
                    &&& t.parent_of(k) == if k == 0 { None } else { Some(flat_parent(fv, k) as usize) }
                }
            }),
    {
        let ghost fv = flat@.map_values(|f: FlatNode| f.view_tuple());
        let bytes = source.as_bytes();
        if bytes.len() >= 4294967295 {
            return None;
        }
        let parents = match flat_parents(flat) {
            Some(p) => p,
            None => return None,
        };
        let n = flat.len();
        let mut kinds: Vec<String> = Vec::new();
        let mut starts: Vec<u32> = Vec::new();
        let mut ends: Vec<u32> = Vec::new();
        let mut start_rows: Vec<usize> = Vec::new();
        let mut end_rows: Vec<usize> = Vec::new();
        let mut named: Vec<bool> = Vec::new();
        let mut extra: Vec<bool> = Vec::new();
        let mut fields: Vec<Option<String>> = Vec::new();
        let mut k: usize = 0;
        while k < n
            invariant
                n == flat@.len(),
                n == fv.len(),
                fv == flat@.map_values(|f: FlatNode| f.view_tuple()),
                bytes@ == source.spec_bytes(),
                source.spec_bytes().len() < u32::MAX,
                0 <= k <= n,
                kinds@.len() == k,
                starts@.len() == k,
                ends@.len() == k,
                start_rows@.len() == k,
                end_rows@.len() == k,
                named@.len() == k,
                extra@.len() == k,
                fields@.len() == k,
                forall|j: int| 0 <= j < k ==> {
                    &&& (#[trigger] fv[j]).1 <= fv[j].2 <= source.spec_bytes().len()
                    &&& is_boundary(source, fv[j].1 as int)
                    &&& is_boundary(source, fv[j].2 as int)
                },
                forall|j: int| 0 <= j < k ==> (#[trigger] kinds@[j])@ == fv[j].0,
                forall|j: int| 0 <= j < k ==> #[trigger] starts@[j] == fv[j].1,
                forall|j: int| 0 <= j < k ==> #[trigger] ends@[j] == fv[j].2,
                forall|j: int| 0 <= j < k ==> #[trigger] start_rows@[j] == fv[j].3,
                forall|j: int| 0 <= j < k ==> #[trigger] end_rows@[j] == fv[j].4,
                forall|j: int| 0 <= j < k ==> #[trigger] named@[j] == fv[j].6,
                forall|j: int| 0 <= j < k ==> #[trigger] extra@[j] == fv[j].7,
                forall|j: int| 0 <= j < k ==> crate::java_parser::opt_view(#[trigger] fields@[j]) == fv[j].8,
            decreases n - k,
        {
            let f = &flat[k];
            assert(fv[k as int] == f.view_tuple());
            if f.start_byte > f.end_byte || f.end_byte > bytes.len() || !source.is_char_boundary(
                f.start_byte,
            ) || !source.is_char_boundary(f.end_byte) {
                return None;
            }
            kinds.push(f.kind.clone());
            starts.push(f.start_byte as u32);
            ends.push(f.end_byte as u32);
            start_rows.push(f.start_row);
            end_rows.push(f.end_row);
            named.push(f.is_named);
            extra.push(f.is_extra);
            let field = match &f.field_name {
                Some(name) => Some(name.clone()),
                None => None,
            };
            fields.push(field);
            proof {
                assert(kinds@[k as int]@ == f.kind@);
                assert(crate::java_parser::opt_view(fields@[k as int]) == fv[k as int].8);
                assert(starts@[k as int] == fv[k as int].1);
                assert(ends@[k as int] == fv[k as int].2);
                assert(start_rows@[k as int] == fv[k as int].3);
                assert(end_rows@[k as int] == fv[k as int].4);
                assert(named@[k as int] == fv[k as int].6);
                assert(extra@[k as int] == fv[k as int].7);
            }
            k = k + 1;
        }
        let children = children_lists(&parents);
        proof {
            assert(valid_ranges(source, fv));
        }
        let t = CstTree {
            source: String::from_str(source),
            kinds,
            starts,
            ends,
            start_rows,
            end_rows,
            named,
            extra,
            fields,
            parents,
            children,
        };
        proof {
            assert(t.source@ == source@);
            assert(encode_utf8(t.source@) == source.spec_bytes());
            assert(t.kinds@.len() == n);
            assert(n <= usize::MAX);
            assert(t.parents@[0] is None);
            assert forall|i: int| 0 <= i < n implies {
                &&& (#[trigger] t.starts@[i]) <= t.ends@[i] <= encode_utf8(t.source@).len()
                &&& is_char_boundary(encode_utf8(t.source@), t.starts@[i] as int)
                &&& is_char_boundary(encode_utf8(t.source@), t.ends@[i] as int)
            } by {
                assert(fv[i].1 <= fv[i].2 <= source.spec_bytes().len());
                assert(t.starts@[i] == fv[i].1);
                assert(t.ends@[i] == fv[i].2);
            }
            assert(t.wf());
            assert forall|j: int| 0 <= j < n implies {
                &&& #[trigger] t.kind_of(j) == fv[j].0
                &&& t.field_of(j) == fv[j].8
            } by {
                assert(kinds@[j]@ == fv[j].0);
                assert(crate::java_parser::opt_view(fields@[j]) == fv[j].8);
            }
        }
        Some(t)
    }
}

proof fn lemma_last_at_depth_step(fv: Seq<FlatNodeView>, k: int, d: int)
    requires
        0 <= k < fv.len(),
    ensures
        fdepth(fv[k]) == d ==> last_at_depth(fv, k, d) == k,
        fdepth(fv[k]) != d ==> last_at_depth(fv, k, d) == last_at_depth(fv, k - 1, d),
{
}

/// A character boundary of a text is one of each prefix that reaches it.
pub proof fn lemma_boundary_in_prefix(b: Seq<u8>, i: int, j: int)
    requires
        valid_utf8(b),
        is_char_boundary(b, i),
        is_char_boundary(b, j),
        0 <= i <= j <= b.len(),
    ensures
        is_char_boundary(b.subrange(0, j), i),
        valid_utf8(b.subrange(0, j)),
{
    vstd::utf8::valid_utf8_split(b, j);
    let p = b.subrange(0, j);
    vstd::utf8::is_char_boundary_start_end_of_seq(p);
    if 0 < i < j {
        vstd::utf8::is_char_boundary_iff_not_is_continuation_byte(b, i);
        vstd::utf8::is_char_boundary_iff_not_is_continuation_byte(p, i);
        assert(p[i] == b[i]);
    }
}

impl CstTree {
    /// Parses `source` as Java. `None` exactly when the source is too long for
    /// text sizes or the parser's node list does not form a tree within the
    /// source.
    pub fn parse(source: &str) -> (r: Option<CstTree>)
        ensures
            r.is_some() <==> (source.spec_bytes().len() < u32::MAX && valid_depths(java_syntax_nodes(source@))
                && valid_ranges(source, java_syntax_nodes(source@))),
            r.is_some() ==> ({
                let t = r.unwrap();
                let fv = java_syntax_nodes(source@);
                &&& t.wf()
                &&& t.src() == source@
                &&& valid_depths(fv)
                &&& valid_ranges(source, fv)
                &&& t.node_count() == fv.len()
                &&& forall|k: int| 0 <= k < fv.len() ==> {
                    &&& #[trigger] t.kind_of(k) == fv[k].0
                    &&& t.start_of(k) == fv[k].1
                    &&& t.end_of(k) == fv[k].2
                    &&& t.start_row_of(k) == fv[k].3
                    &&& t.end_row_of(k) == fv[k].4
                    &&& t.named_of(k) == fv[k].6
                    &&& t.extra_of(k) == fv[k].7
                    &&& t.field_of(k) == fv[k].8
                    &&& t.parent_of(k) == if k == 0 { None } else { Some(flat_parent(fv, k) as usize) }
                }
            }),
    {
        let flat = match java_flat_nodes(source) {
            Some(f) => f,
            None => return None,
        };
        let r = CstTree::from_flat_nodes(source, &flat);
        proof {
            let fv = flat@.map_values(|f: FlatNode| f.view_tuple());
            assert(fv =~= java_syntax_nodes(source@));
        }
        r
    }

    /// The number of nodes.
    pub fn len(&self) -> (r: usize)
        requires
            self.wf(),
        ensures
            r == self.node_count(),
    {
        self.kinds.len()
    }

    /// The source text.
    pub fn source(&self) -> (r: &str)
        requires
            self.wf(),
        ensures
            r@ == self.src(),
            r.spec_bytes() == self.src_bytes(),
            r.spec_bytes().len() < u32::MAX,
    {
        self.source.as_str()
    }

    /// The kind of node `i`.
    pub fn kind(&self, i: usize) -> (r: &str)
        requires
            self.wf(),
            i < self.node_count(),
        ensures
            r@ == self.kind_of(i as int),
    {
        self.kinds[i].as_str()
    }

    /// Node `i` is of kind `k`.
    pub fn kind_is(&self, i: usize, k: &str) -> (r: bool)
        requires
            self.wf(),
            i < self.node_count(),
        ensures
            r == (self.kind_of(i as int) == k@),
    {
        str_eq(self.kinds[i].as_str(), k)
    }

    /// The byte range of node `i`.
    pub fn range(&self, i: usize) -> (r: TextRange)
        requires
            self.wf(),
            i < self.node_count(),
        ensures
            r.start.raw == self.start_of(i as int),
            r.end.raw == self.end_of(i as int),
            r.start.raw <= r.end.raw,
            r.end.raw <= self.src_bytes().len(),
            is_char_boundary(self.src_bytes(), r.start.raw as int),
            is_char_boundary(self.src_bytes(), r.end.raw as int),
    {
        proof { self.lemma_node(i as int); }
        TextRange::new(TextSize::new(self.starts[i]), TextSize::new(self.ends[i]))
    }

    /// The row (0-based line) where node `i` starts.
    pub fn start_row(&self, i: usize) -> (r: usize)
        requires
            self.wf(),
            i < self.node_count(),
        ensures
            r == self.start_row_of(i as int),
    {
        self.start_rows[i]
    }

    /// The row (0-based line) where node `i` ends.
    pub fn end_row(&self, i: usize) -> (r: usize)
        requires
            self.wf(),
            i < self.node_count(),
        ensures
            r == self.end_row_of(i as int),
    {
        self.end_rows[i]
    }

    /// Node `i` is a named node of the grammar.
    pub fn is_named(&self, i: usize) -> (r: bool)
        requires
            self.wf(),
            i < self.node_count(),
        ensures
            r == self.named_of(i as int),
    {
        self.named[i]
    }

    /// Node `i` is an extra (a comment).
    pub fn is_extra(&self, i: usize) -> (r: bool)
        requires
            self.wf(),
            i < self.node_count(),
        ensures
            r == self.extra_of(i as int),
    {
        self.extra[i]
    }

    /// The parent of node `i`.
    pub fn parent(&self, i: usize) -> (r: Option<usize>)
        requires
            self.wf(),
            i < self.node_count(),
        ensures
            r == self.parent_of(i as int),
            r.is_some() ==> r.unwrap() < i,
            r.is_none() <==> i == 0,
    {
        proof { self.lemma_node(i as int); }
        self.parents[i]
    }

    /// The children of node `i`, in source order.
    pub fn children(&self, i: usize) -> (r: &[usize])
        requires
            self.wf(),
            i < self.node_count(),
        ensures
            r@ == self.children_of(i as int),
            forall|k: int| 0 <= k < r@.len() ==> i < #[trigger] r@[k] < self.node_count(),
    {
        proof { self.lemma_node(i as int); }
        self.children[i].as_slice()
    }

    /// The text of node `i`.
    pub fn text(&self, i: usize) -> (r: &str)
        requires
            self.wf(),
            i < self.node_count(),
        ensures
            r@ == self.text_of(i as int),
    {
        proof { self.lemma_node(i as int); }
        let src = self.source.as_str();
        let s = self.starts[i] as usize;
        let e = self.ends[i] as usize;
        let (a, _) = split_text(src, e);
        proof {
            lemma_boundary_in_prefix(src.spec_bytes(), s as int, e as int);
        }
        let (_, b) = split_text(a, s);
        proof {
            assert(a.spec_bytes().subrange(s as int, a.spec_bytes().len() as int) =~= src.spec_bytes().subrange(s as int, e as int));
        }
        b
    }

    /// The first child of `i` whose kind is `k`.
    pub fn find_child(&self, i: usize, k: &str) -> (r: Option<usize>)
        requires
            self.wf(),
            i < self.node_count(),
        ensures
            r == self.first_of_kind(self.children_of(i as int), k@),
            r.is_some() ==> i < r.unwrap() < self.node_count(),
            r.is_some() ==> self.kind_of(r.unwrap() as int) == k@,
    {
        proof { self.lemma_node(i as int); }
        let cs = self.children[i].as_slice();
        assert(cs@.subrange(0, cs@.len() as int) =~= cs@);
        let mut j: usize = 0;
        while j < cs.len()
            invariant
                self.wf(),
                i < self.node_count(),
                cs@ == self.children_of(i as int),
                forall|x: int| 0 <= x < cs@.len() ==> i < #[trigger] cs@[x] < self.node_count(),
                0 <= j <= cs@.len(),
                self.first_of_kind(cs@, k@) == self.first_of_kind(cs@.subrange(j as int, cs@.len() as int), k@),
            decreases cs@.len() - j,
        {
            let c = cs[j];
            assert(cs@.subrange(j as int, cs@.len() as int)[0] == c);
            if str_eq(self.kinds[c].as_str(), k) {
                return Some(c);
            }
            assert(cs@.subrange(j as int, cs@.len() as int).drop_first() =~= cs@.subrange(j + 1, cs@.len() as int));
            j = j + 1;
        }
        None
    }

    /// The first child of `i` that fills the field `name`.
    pub fn child_by_field_name(&self, i: usize, name: &str) -> (r: Option<usize>)
        requires
            self.wf(),
            i < self.node_count(),
        ensures
            r == self.first_with_field(self.children_of(i as int), name@),
            r.is_some() ==> i < r.unwrap() < self.node_count(),
            r.is_some() ==> self.field_of(r.unwrap() as int) == Some(name@),
    {
        proof { self.lemma_node(i as int); }
        let cs = self.children[i].as_slice();
        assert(cs@.subrange(0, cs@.len() as int) =~= cs@);
        let mut j: usize = 0;
        while j < cs.len()
            invariant
                self.wf(),
                i < self.node_count(),
                cs@ == self.children_of(i as int),
                forall|x: int| 0 <= x < cs@.len() ==> i < #[trigger] cs@[x] < self.node_count(),
                0 <= j <= cs@.len(),
                self.first_with_field(cs@, name@) == self.first_with_field(cs@.subrange(j as int, cs@.len() as int), name@),
            decreases cs@.len() - j,
        {
            let c = cs[j];
            assert(cs@.subrange(j as int, cs@.len() as int)[0] == c);
            let hit = match &self.fields[c] {
                Some(f) => str_eq(f.as_str(), name),
                None => false,
            };
            if hit {
                return Some(c);
            }
            assert(cs@.subrange(j as int, cs@.len() as int).drop_first() =~= cs@.subrange(j + 1, cs@.len() as int));
            j = j + 1;
        }
        None
    }
}

impl CstTree {
    /// The children of `i` whose kind is `k`, in order.
    pub fn children_of_kind(&self, i: usize, k: &str) -> (r: Vec<usize>)
        requires
            self.wf(),
            i < self.node_count(),
        ensures
            r@ == self.of_kind(self.children_of(i as int), k@),
            forall|x: int| 0 <= x < r@.len() ==> i < #[trigger] r@[x] < self.node_count(),
    {
        proof { self.lemma_node(i as int); }
        let cs = self.children[i].as_slice();
        let mut out: Vec<usize> = Vec::new();
        let mut j: usize = 0;
        proof {
            assert(cs@.subrange(0, 0) =~= Seq::<usize>::empty());
        }
        while j < cs.len()
            invariant
                self.wf(),
                i < self.node_count(),
                cs@ == self.children_of(i as int),
                forall|x: int| 0 <= x < cs@.len() ==> i < #[trigger] cs@[x] < self.node_count(),
                0 <= j <= cs@.len(),
                out@ == self.of_kind(cs@.subrange(0, j as int), k@),
                forall|x: int| 0 <= x < out@.len() ==> i < #[trigger] out@[x] < self.node_count(),
            decreases cs@.len() - j,
        {
            let c = cs[j];
            proof {
                assert(cs@.subrange(0, j + 1).drop_last() =~= cs@.subrange(0, j as int));
                assert(cs@.subrange(0, j + 1).last() == c);
            }
            if str_eq(self.kinds[c].as_str(), k) {
                out.push(c);
            }
            j = j + 1;
        }
        proof {
            assert(cs@.subrange(0, cs@.len() as int) =~= cs@);
        }
        out
    }

    /// The first child of `i` whose kind is one of `ks`.
    pub fn find_child_in(&self, i: usize, ks: &[&str]) -> (r: Option<usize>)
        requires
            self.wf(),
            i < self.node_count(),
        ensures
            r == self.first_of_kinds(self.children_of(i as int), ks@.map_values(|k: &str| k@)),
            r.is_some() ==> i < r.unwrap() < self.node_count(),
    {
        proof { self.lemma_node(i as int); }
        let ghost kv = ks@.map_values(|k: &str| k@);
        let cs = self.children[i].as_slice();
        assert(cs@.subrange(0, cs@.len() as int) =~= cs@);
        let mut j: usize = 0;
        while j < cs.len()
            invariant
                self.wf(),
                i < self.node_count(),
                kv == ks@.map_values(|k: &str| k@),
                cs@ == self.children_of(i as int),
                forall|x: int| 0 <= x < cs@.len() ==> i < #[trigger] cs@[x] < self.node_count(),
                0 <= j <= cs@.len(),
                self.first_of_kinds(cs@, kv) == self.first_of_kinds(cs@.subrange(j as int, cs@.len() as int), kv),
            decreases cs@.len() - j,
        {
            let c = cs[j];
            assert(cs@.subrange(j as int, cs@.len() as int)[0] == c);
            if str_in(self.kinds[c].as_str(), ks) {
                proof {
                    let w = choose|w: int| 0 <= w < ks@.len() && self.kinds@[c as int]@ == (#[trigger] ks@[w])@;
                    assert(kv[w] == self.kind_of(c as int));
                }
                return Some(c);
            }
            proof {
                if kv.contains(self.kind_of(c as int)) {
                    let w = choose|w: int| 0 <= w < kv.len() && kv[w] == self.kind_of(c as int);
                    assert(ks@[w]@ == kv[w]);
                }
            }
            assert(cs@.subrange(j as int, cs@.len() as int).drop_first() =~= cs@.subrange(j + 1, cs@.len() as int));
            j = j + 1;
        }
        None
    }

    /// The nearest proper ancestor of `i` whose kind is `k`, if any.
    pub fn ancestor_of_kind(&self, i: usize, k: &str) -> (r: Option<usize>)
        requires
            self.wf(),
            i < self.node_count(),
        ensures
            r == self.enclosing(i as int, k@),
            r.is_some() ==> r.unwrap() < i,
    {
        let mut cur = i;
        while cur > 0
            invariant
                self.wf(),
                cur <= i < self.node_count(),
                self.enclosing(i as int, k@) == self.enclosing(cur as int, k@),
            decreases cur,
        {
            proof { self.lemma_node(cur as int); }
            let p = match self.parents[cur] {
                Some(p) => p,
                None => return None,
            };
            if str_eq(self.kinds[p].as_str(), k) {
                return Some(p);
            }
            cur = p;
        }
        None
    }
}

/// The characters of `source` between byte offsets `a` and `b`.
pub fn slice_text(source: &str, a: usize, b: usize) -> (r: &str)
    requires
        a <= b <= source.spec_bytes().len(),
        is_boundary(source, a as int),
        is_boundary(source, b as int),
    ensures
        r@ == decode_utf8(source.spec_bytes().subrange(a as int, b as int)),
{
    let (x, _) = split_text(source, b);
    proof {
        lemma_boundary_in_prefix(source.spec_bytes(), a as int, b as int);
    }
    let (_, y) = split_text(x, a);
    proof {
        assert(x.spec_bytes().subrange(a as int, x.spec_bytes().len() as int) =~= source.spec_bytes().subrange(a as int, b as int));
    }
    y
}

impl CstTree {
    /// The children of `i` that are not extras (comments), in order.
    pub open spec fn non_extra(&self, cs: Seq<usize>) -> Seq<usize>
        decreases cs.len(),
    {
        if cs.len() == 0 {
            Seq::<usize>::empty()
        } else {
            let prev = self.non_extra(cs.drop_last());
            if !self.extra_of(cs.last() as int) {
                prev.push(cs.last())
            } else {
                prev
            }
        }
    }

    /// The children of `i` that are not extras, in order.
    pub fn non_extra_children(&self, i: usize) -> (r: Vec<usize>)
        requires
            self.wf(),
            i < self.node_count(),
        ensures
            r@ == self.non_extra(self.children_of(i as int)),
            forall|x: int| 0 <= x < r@.len() ==> i < #[trigger] r@[x] < self.node_count(),
    {
        proof { self.lemma_node(i as int); }
        let cs = self.children[i].as_slice();
        let mut out: Vec<usize> = Vec::new();
        let mut j: usize = 0;
        proof {
            assert(cs@.subrange(0, 0) =~= Seq::<usize>::empty());
        }
        while j < cs.len()
            invariant
                self.wf(),
                i < self.node_count(),
                cs@ == self.children_of(i as int),
                forall|x: int| 0 <= x < cs@.len() ==> i < #[trigger] cs@[x] < self.node_count(),
                0 <= j <= cs@.len(),
                out@ == self.non_extra(cs@.subrange(0, j as int)),
                forall|x: int| 0 <= x < out@.len() ==> i < #[trigger] out@[x] < self.node_count(),
            decreases cs@.len() - j,
        {
            let c = cs[j];
            proof {
                assert(cs@.subrange(0, j + 1).drop_last() =~= cs@.subrange(0, j as int));
                assert(cs@.subrange(0, j + 1).last() == c);
            }
            if !self.extra[c] {
                out.push(c);
            }
            j = j + 1;
        }
        proof {
            assert(cs@.subrange(0, cs@.len() as int) =~= cs@);
        }
        out
    }
}

/// The parent of every flat node, computed from the depths, or `None` when the
/// depths do not describe a preorder walk of one tree.
fn flat_parents(flat: &Vec<FlatNode>) -> (r: Option<Vec<Option<usize>>>)
    ensures
        ({
            let fv = flat@.map_values(|f: FlatNode| f.view_tuple());
            &&& r.is_some() <==> valid_depths(fv)
            &&& r.is_some() ==> r.unwrap()@.len() == fv.len()
            &&& r.is_some() ==> forall|k: int| 0 <= k < fv.len() ==> #[trigger] r.unwrap()@[k] == if k == 0 {
                None
            } else {
                Some(flat_parent(fv, k) as usize)
            }
            &&& r.is_some() ==> forall|k: int| 1 <= k < fv.len() ==> (#[trigger] r.unwrap()@[k]) is Some
                && r.unwrap()@[k].unwrap() < k
        }),
{
    let ghost fv = flat@.map_values(|f: FlatNode| f.view_tuple());
    let n = flat.len();
    if n == 0 {
        return None;
    }
    assert(fv[0] == flat@[0].view_tuple());
    if flat[0].depth != 0 {
        return None;
    }
    let mut parents: Vec<Option<usize>> = Vec::new();
    parents.push(None);
    let mut stack: Vec<usize> = Vec::new();
    stack.push(0);
    let mut k: usize = 1;
    proof {
        assert(last_at_depth(fv, 0, 0) == 0);
    }
    while k < n
        invariant
            n == flat@.len(),
            n == fv.len(),
            fv == flat@.map_values(|f: FlatNode| f.view_tuple()),
            fdepth(fv[0]) == 0,
            1 <= k <= n,
            parents@.len() == k,
            forall|j: int| 1 <= j < k ==> 1 <= #[trigger] fdepth(fv[j]) <= fdepth(fv[j - 1]) + 1,
            stack@.len() == fdepth(fv[k - 1]) + 1,
            forall|d: int| 0 <= d < stack@.len() ==> #[trigger] stack@[d] == last_at_depth(fv, k - 1, d),
            forall|d: int| 0 <= d < stack@.len() ==> #[trigger] stack@[d] < k,
            forall|j: int| 0 <= j < k ==> #[trigger] parents@[j] == if j == 0 {
                None
            } else {
                Some(flat_parent(fv, j) as usize)
            },
            forall|j: int| 1 <= j < k ==> (#[trigger] parents@[j]) is Some && parents@[j].unwrap() < j,
        decreases n - k,
    {
        assert(fv[k as int] == flat@[k as int].view_tuple());
        let d = flat[k].depth as usize;
        if d < 1 || d > stack.len() {
            proof {
                assert(!(1 <= fdepth(fv[k as int]) <= fdepth(fv[k - 1]) + 1));
                assert(!valid_depths(fv));
            }
            return None;
        }
        let ghost old_stack = stack@;
        stack.truncate(d);
        let p = stack[d - 1];
        proof {
            assert(p == last_at_depth(fv, k - 1, d - 1));
            assert(p == flat_parent(fv, k as int));
        }
        parents.push(Some(p));
        stack.push(k);
        proof {
            assert forall|dd: int| 0 <= dd < stack@.len() implies #[trigger] stack@[dd] == last_at_depth(fv, k as int, dd) by {
                lemma_last_at_depth_step(fv, k as int, dd);
                if dd < stack@.len() - 1 {
                    assert(stack@[dd] == old_stack[dd]);
                }
            }
            assert forall|dd: int| 0 <= dd < stack@.len() implies #[trigger] stack@[dd] < k + 1 by {
                if dd < stack@.len() - 1 {
                    assert(stack@[dd] == old_stack[dd]);
                }
            }
        }
        k = k + 1;
    }
    proof {
        assert(valid_depths(fv));
    }
    Some(parents)
}

/// The children of every node, in increasing order, from the parents.
fn children_lists(parents: &Vec<Option<usize>>) -> (r: Vec<Vec<usize>>)
    requires
        parents@.len() > 0,
        parents@[0] is None,
        forall|k: int| 1 <= k < parents@.len() ==> (#[trigger] parents@[k]) is Some && parents@[k].unwrap() < k,
    ensures
        r@.len() == parents@.len(),
        forall|i: int| 0 <= i < r@.len() ==> increasing(#[trigger] r@[i]@),
        forall|i: int, c: usize| 0 <= i < r@.len() ==> (#[trigger] r@[i]@.contains(c)
            <==> (c < parents@.len() && parents@[c as int] == Some(i as usize))),
{
    let n = parents.len();
    let mut children: Vec<Vec<usize>> = Vec::new();
    let mut i: usize = 0;
    while i < n
        invariant
            n == parents@.len(),
            0 <= i <= n,
            children@.len() == i,
            forall|j: int| 0 <= j < i ==> (#[trigger] children@[j])@.len() == 0,
        decreases n - i,
    {
        children.push(Vec::new());
        i = i + 1;
    }
    let mut k: usize = 1;
    proof {
        assert forall|j: int, c: usize| 0 <= j < n implies !(#[trigger] children@[j]@.contains(c)) by {
            assert(children@[j]@.len() == 0);
        }
    }
    while k < n
        invariant
            n == parents@.len(),
            parents@[0] is None,
            forall|j: int| 1 <= j < n ==> (#[trigger] parents@[j]) is Some && parents@[j].unwrap() < j,
            1 <= k <= n,
            children@.len() == n,
            forall|j: int| 0 <= j < n ==> increasing(#[trigger] children@[j]@),
            forall|j: int, c: usize| 0 <= j < n ==> (#[trigger] children@[j]@.contains(c)
                <==> (1 <= c < k && parents@[c as int] == Some(j as usize))),
        decreases n - k,
    {
        let p = match parents[k] {
            Some(p) => p,
            None => 0,
        };
        assert(parents@[k as int] is Some);
        let ghost old_ch = children@;
        children[p].push(k);
        proof {
            assert(parents@[k as int] == Some(p));
            assert forall|j: int, c: usize| 0 <= j < n implies (#[trigger] children@[j]@.contains(c)
                <==> (1 <= c < k + 1 && parents@[c as int] == Some(j as usize))) by {
                assert(old_ch[j]@.contains(c) <==> (1 <= c < k && parents@[c as int] == Some(j as usize)));
                if j == p as int {
                    assert(children@[j]@ == old_ch[j]@.push(k));
                    if children@[j]@.contains(c) && c != k {
                        let idx = choose|idx: int| 0 <= idx < children@[j]@.len() && children@[j]@[idx] == c;
                        assert(old_ch[j]@[idx] == c);
                        assert(old_ch[j]@.contains(c));
                    }
                    if 1 <= c < k && parents@[c as int] == Some(j as usize) {
                        assert(old_ch[j]@.contains(c));
                        let idx = choose|idx: int| 0 <= idx < old_ch[j]@.len() && old_ch[j]@[idx] == c;
                        assert(children@[j]@[idx] == c);
                    }
                    if c == k {
                        assert(children@[j]@[children@[j]@.len() - 1] == k);
                    }
                } else {
                    assert(children@[j] == old_ch[j]);
                    if c == k {
                        assert(parents@[c as int] != Some(j as usize));
                    }
                }
            }
            assert forall|j: int| 0 <= j < n implies increasing(#[trigger] children@[j]@) by {
                if j == p {
                    assert forall|a: int, b: int| 0 <= a < b < children@[j]@.len() implies children@[j]@[a] < children@[j]@[b] by {
                        if b == children@[j]@.len() - 1 {
                            assert(old_ch[j]@.contains(children@[j]@[a]));
                        } else {
                            assert(children@[j]@[a] == old_ch[j]@[a]);
                            assert(children@[j]@[b] == old_ch[j]@[b]);
                        }
                    }
                } else {
                    assert(children@[j] == old_ch[j]);
                }
            }
        }
        k = k + 1;
    }
    proof {
        assert forall|j: int, c: usize| 0 <= j < n implies (#[trigger] children@[j]@.contains(c)
            <==> (c < n && parents@[c as int] == Some(j as usize))) by {
            if c == 0 {
                assert(!(parents@[0] == Some(j as usize)));
            }
        }
    }
    children
}

} // verus!
