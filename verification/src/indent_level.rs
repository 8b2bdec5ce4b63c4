//! A set of acceptable indentation levels, kept as a strictly increasing sequence.

use vstd::prelude::*;

use crate::strings::{decimal, int_to_string};

verus! {

/// True when every element of `s` is smaller than every later element.
pub open spec fn strictly_sorted(s: Seq<i32>) -> bool {
    forall|i: int, j: int| 0 <= i < j < s.len() ==> s[i] < s[j]
}

/// Two strictly increasing sequences that hold the same values are equal.
pub proof fn lemma_sorted_unique(a: Seq<i32>, b: Seq<i32>)
    requires
        strictly_sorted(a),
        strictly_sorted(b),
        forall|x: i32| a.contains(x) <==> b.contains(x),
    ensures
        a == b,
    decreases a.len() + b.len(),
{
    if a.len() == 0 {
        if b.len() > 0 {
            assert(b.contains(b[0]));
        }
        assert(a =~= b);
    } else if b.len() == 0 {
        assert(a.contains(a[0]));
    } else {
        // the last elements are the maxima, hence equal
        let la = a.last();
        let lb = b.last();
        assert(a.contains(la));
        assert(b.contains(lb));
        let ia = choose|i: int| 0 <= i < a.len() && a[i] == lb;
        let ib = choose|i: int| 0 <= i < b.len() && b[i] == la;
        assert(la == lb) by {
            if la < lb {
                assert(b[ib] == la);
                assert(ib < b.len() - 1);
                assert(false) by {
                    assert(a[ia] == lb);
                    assert(ia <= a.len() - 1);
                    if ia < a.len() - 1 {
                        assert(a[ia] < a[a.len() - 1]);
                    }
                }
            } else if lb < la {
                assert(a[ia] == lb);
                if ib < b.len() - 1 {
                    assert(b[ib] < b[b.len() - 1]);
                }
            }
        }
        let a2 = a.drop_last();
        let b2 = b.drop_last();
        assert forall|x: i32| a2.contains(x) <==> b2.contains(x) by {
            if a2.contains(x) {
                let i = choose|i: int| 0 <= i < a2.len() && a2[i] == x;
                assert(a[i] < a[a.len() - 1]);
                assert(b.contains(x));
                let j = choose|j: int| 0 <= j < b.len() && b[j] == x;
                assert(j != b.len() - 1);
                assert(b2[j] == x);
            }
            if b2.contains(x) {
                let j = choose|j: int| 0 <= j < b2.len() && b2[j] == x;
                assert(b[j] < b[b.len() - 1]);
                assert(a.contains(x));
                let i = choose|i: int| 0 <= i < a.len() && a[i] == x;
                assert(i != a.len() - 1);
                assert(a2[i] == x);
            }
        }
        lemma_sorted_unique(a2, b2);
        assert(a =~= a2.push(la));
        assert(b =~= b2.push(lb));
    }
}

#[verifier::spinoff_prover]
/// Inserts `x` into the strictly increasing vector `v`, keeping it strictly
/// increasing and without duplicates.
fn insert_sorted(v: &mut Vec<i32>, x: i32)
    requires
        strictly_sorted(old(v)@),
    ensures
        strictly_sorted(final(v)@),
        forall|y: i32| final(v)@.contains(y) <==> (old(v)@.contains(y) || y == x),
{
    let mut i: usize = 0;
    while i < v.len() && v[i] < x
        invariant
            0 <= i <= v.len(),
            strictly_sorted(v@),
            v@ == old(v)@,
            forall|k: int| 0 <= k < i ==> v@[k] < x,
        decreases v.len() - i,
    {
        i = i + 1;
    }
    if i < v.len() && v[i] == x {
        assert(v@[i as int] == x);
        return;
    }
    let ghost old_v = v@;
    v.insert(i, x);
    assert forall|y: i32| v@.contains(y) <==> (old_v.contains(y) || y == x) by {
        if v@.contains(y) {
            let k = choose|k: int| 0 <= k < v@.len() && v@[k] == y;
            if k < i {
                assert(old_v[k] == y);
            } else if k > i {
                assert(old_v[k - 1] == y);
            }
        }
        if old_v.contains(y) {
            let k = choose|k: int| 0 <= k < old_v.len() && old_v[k] == y;
            if k < i {
                assert(v@[k] == y);
            } else {
                assert(v@[k + 1] == y);
            }
        }
        if y == x {
            assert(v@[i as int] == y);
        }
    }
}

/// The levels written in decimal and separated by `, `.
pub open spec fn join_levels(s: Seq<i32>) -> Seq<char>
    decreases s.len(),
{
    if s.len() == 0 {
        Seq::empty()
    } else if s.len() == 1 {
        decimal(s[0] as int)
    } else {
        join_levels(s.drop_last()) + ", "@ + decimal(s.last() as int)
    }
}

/// Expected indentation, given as one or more acceptable levels.
/// The value never changes once made.
#[derive(Debug, PartialEq, Eq)]
pub struct IndentLevel {
    levels: Vec<i32>,
}

impl View for IndentLevel {
    type V = Seq<i32>;

    closed spec fn view(&self) -> Seq<i32> {
        self.levels@
    }
}

impl Clone for IndentLevel {
    fn clone(&self) -> (r: Self)
        ensures
            r@ == self@,
            strictly_sorted(r@),
    {
        proof { use_type_invariant(self); }
        let mut levels: Vec<i32> = Vec::new();
        let mut i: usize = 0;
        while i < self.levels.len()
            invariant
                0 <= i <= self.levels@.len(),
                strictly_sorted(self.levels@),
                levels@ == self.levels@.subrange(0, i as int),
            decreases self.levels@.len() - i,
        {
            levels.push(self.levels[i]);
            i = i + 1;
        }
        assert(levels@ =~= self.levels@);
        IndentLevel { levels }
    }
}

impl IndentLevel {
    #[verifier::type_invariant]
    spec fn inv(self) -> bool {
        strictly_sorted(self.levels@)
    }

    /// One acceptable level.
    pub fn new(indent: i32) -> (r: Self)
        ensures
            r@ == seq![indent],
            strictly_sorted(r@),
    {
        let mut levels = Vec::new();
        levels.push(indent);
        IndentLevel { levels }
    }

    /// Every level moved by `offset`.
    pub fn with_offset(&self, offset: i32) -> (r: Self)
        requires
            forall|i: int| 0 <= i < self@.len() ==> i32::MIN <= #[trigger] self@[i] + offset <= i32::MAX,
        ensures
            r@.len() == self@.len(),
            forall|i: int| 0 <= i < self@.len() ==> #[trigger] r@[i] == self@[i] + offset,
            strictly_sorted(r@),
    {
        proof { use_type_invariant(self); }
        assert(self@ == self.levels@);
        let mut levels: Vec<i32> = Vec::new();
        let mut i: usize = 0;
        while i < self.levels.len()
            invariant
                0 <= i <= self.levels@.len(),
                strictly_sorted(self.levels@),
                forall|k: int| 0 <= k < self.levels@.len() ==> i32::MIN <= #[trigger] self.levels@[k] + offset <= i32::MAX,
                levels@.len() == i,
                forall|k: int| 0 <= k < i ==> #[trigger] levels@[k] == self.levels@[k] + offset,
            decreases self.levels@.len() - i,
        {
            levels.push(self.levels[i] + offset);
            i = i + 1;
        }
        IndentLevel { levels }
    }

    /// Every sum of a level and one of `offsets`.
    pub fn with_offsets(&self, offsets: &[i32]) -> (r: Self)
        requires
            forall|i: int, j: int| 0 <= i < self@.len() && 0 <= j < offsets@.len()
                ==> i32::MIN <= #[trigger] self@[i] + #[trigger] offsets@[j] <= i32::MAX,
        ensures
            strictly_sorted(r@),
            forall|y: i32| r@.contains(y) <==> exists|i: int, j: int|
                0 <= i < self@.len() && 0 <= j < offsets@.len() && y == #[trigger] self@[i] + #[trigger] offsets@[j],
    {
        proof { use_type_invariant(self); }
        assert(self@ == self.levels@);
        let mut levels: Vec<i32> = Vec::new();
        let mut i: usize = 0;
        while i < self.levels.len()
            invariant
                0 <= i <= self.levels@.len(),
                forall|a: int, b: int| 0 <= a < self.levels@.len() && 0 <= b < offsets@.len()
                    ==> i32::MIN <= #[trigger] self.levels@[a] + #[trigger] offsets@[b] <= i32::MAX,
                strictly_sorted(levels@),
                forall|y: i32| levels@.contains(y) <==> exists|a: int, b: int|
                    0 <= a < i && 0 <= b < offsets@.len() && y == #[trigger] self.levels@[a] + #[trigger] offsets@[b],
            decreases self.levels@.len() - i,
        {
            let mut j: usize = 0;
            while j < offsets.len()
                invariant
                    0 <= i < self.levels@.len(),
                    0 <= j <= offsets@.len(),
                    forall|a: int, b: int| 0 <= a < self.levels@.len() && 0 <= b < offsets@.len()
                        ==> i32::MIN <= #[trigger] self.levels@[a] + #[trigger] offsets@[b] <= i32::MAX,
                    strictly_sorted(levels@),
                    forall|y: i32| levels@.contains(y) <==> (exists|a: int, b: int|
                        0 <= a < i && 0 <= b < offsets@.len() && y == #[trigger] self.levels@[a] + #[trigger] offsets@[b])
                        || (exists|b: int| 0 <= b < j && y == self.levels@[i as int] + #[trigger] offsets@[b]),
                decreases offsets@.len() - j,
            {
                let ghost before = levels@;
                let x = self.levels[i] + offsets[j];
                insert_sorted(&mut levels, x);
                assert forall|y: i32| levels@.contains(y) <==> (exists|a: int, b: int|
                        0 <= a < i && 0 <= b < offsets@.len() && y == #[trigger] self.levels@[a] + #[trigger] offsets@[b])
                        || (exists|b: int| 0 <= b < j + 1 && y == self.levels@[i as int] + #[trigger] offsets@[b]) by {
                    if y == x {
                        assert(offsets@[j as int] == offsets[j as int]);
                    }
                }
                j = j + 1;
            }
            assert forall|y: i32| levels@.contains(y) <==> exists|a: int, b: int|
                    0 <= a < i + 1 && 0 <= b < offsets@.len() && y == #[trigger] self.levels@[a] + #[trigger] offsets@[b] by {
                if exists|a: int, b: int| 0 <= a < i + 1 && 0 <= b < offsets@.len() && y == #[trigger] self.levels@[a] + #[trigger] offsets@[b] {
                    let (a, b) = choose|a: int, b: int| 0 <= a < i + 1 && 0 <= b < offsets@.len() && y == #[trigger] self.levels@[a] + #[trigger] offsets@[b];
                    if a == i {
                        assert(exists|b2: int| 0 <= b2 < j && y == self.levels@[i as int] + #[trigger] offsets@[b2]);
                    }
                }
            }
            i = i + 1;
        }
        IndentLevel { levels }
    }

    /// The levels together with `additions`.
    pub fn add_acceptable(&self, additions: &[i32]) -> (r: Self)
        ensures
            strictly_sorted(r@),
            forall|y: i32| r@.contains(y) <==> (self@.contains(y) || additions@.contains(y)),
    {
        proof { use_type_invariant(self); }
        let copy = self.clone();
        let mut levels = copy.levels;
        let mut j: usize = 0;
        while j < additions.len()
            invariant
                0 <= j <= additions@.len(),
                strictly_sorted(levels@),
                forall|y: i32| levels@.contains(y) <==> (self.levels@.contains(y)
                    || exists|b: int| 0 <= b < j && y == #[trigger] additions@[b]),
            decreases additions@.len() - j,
        {
            insert_sorted(&mut levels, additions[j]);
            j = j + 1;
        }
        IndentLevel { levels }
    }

    /// The levels of both values.
    pub fn combine(&self, other: &IndentLevel) -> (r: Self)
        ensures
            strictly_sorted(r@),
            forall|y: i32| r@.contains(y) <==> (self@.contains(y) || other@.contains(y)),
    {
        self.add_acceptable(other.levels.as_slice())
    }

    /// More than one acceptable level.
    pub fn is_multi_level(&self) -> (r: bool)
        ensures
            r == (self@.len() > 1),
    {
        self.levels.len() > 1
    }

    /// `indent` is one of the acceptable levels.
    pub fn is_acceptable(&self, indent: i32) -> (r: bool)
        ensures
            r == self@.contains(indent),
    {
        let mut i: usize = 0;
        while i < self.levels.len()
            invariant
                0 <= i <= self.levels@.len(),
                forall|k: int| 0 <= k < i ==> self.levels@[k] != indent,
            decreases self.levels@.len() - i,
        {
            if self.levels[i] == indent {
                return true;
            }
            i = i + 1;
        }
        false
    }

    /// With `force_strict`, `indent` must be one of the levels; without it,
    /// any indent at or above the smallest level is accepted.
    pub fn is_acceptable_with_force_strict(&self, indent: i32, force_strict: bool) -> (r: bool)
        ensures
            r == if force_strict {
                self@.contains(indent)
            } else {
                self@.len() > 0 && indent >= self@[0]
            },
    {
        if force_strict {
            self.is_acceptable(indent)
        } else {
            self.levels.len() > 0 && indent >= self.levels[0]
        }
    }

    /// `indent` lies below the smallest acceptable level.
    pub fn is_greater_than(&self, indent: i32) -> (r: bool)
        ensures
            r == (self@.len() > 0 && self@[0] > indent),
    {
        self.levels.len() > 0 && self.levels[0] > indent
    }

    /// The smallest level, or 0 when there is none.
    pub fn first_level(&self) -> (r: i32)
        ensures
            r == if self@.len() > 0 { self@[0] } else { 0 },
            forall|i: int| 0 <= i < self@.len() ==> r <= #[trigger] self@[i],
    {
        proof { use_type_invariant(self); }
        if self.levels.len() > 0 {
            self.levels[0]
        } else {
            0
        }
    }

    /// The largest level, or 0 when there is none.
    pub fn last_level(&self) -> (r: i32)
        ensures
            r == if self@.len() > 0 { self@.last() } else { 0 },
            forall|i: int| 0 <= i < self@.len() ==> r >= #[trigger] self@[i],
    {
        proof { use_type_invariant(self); }
        if self.levels.len() > 0 {
            self.levels[self.levels.len() - 1]
        } else {
            0
        }
    }

    /// The levels in decimal, separated by `, ` (e.g. `4, 8, 12`).
    pub fn to_string(&self) -> (r: String)
        ensures
            r@ == join_levels(self@),
    {
        let mut out = String::new();
        let mut i: usize = 0;
        while i < self.levels.len()
            invariant
                0 <= i <= self.levels@.len(),
                out@ == join_levels(self.levels@.subrange(0, i as int)),
            decreases self.levels@.len() - i,
        {
            proof {
                assert(self.levels@.subrange(0, i + 1).drop_last() =~= self.levels@.subrange(0, i as int));
            }
            if i > 0 {
                out.append(", ");
            }
            let d = int_to_string(self.levels[i] as i64);
            out.append(d.as_str());
            i = i + 1;
        }
        proof {
            assert(self.levels@.subrange(0, self.levels@.len() as int) =~= self.levels@);
        }
        out
    }

    /// All acceptable levels, in increasing order.
    pub fn levels(&self) -> (r: &[i32])
        ensures
            r@ == self@,
            strictly_sorted(r@),
    {
        proof { use_type_invariant(self); }
        self.levels.as_slice()
    }
}

/// Moving the levels by `x` and then by `y` moves them by `x + y`: `r1`
/// is `with_offset(x)` of levels `s` and `r2` is `with_offset(y)` of `r1`, as
/// their contracts give them.
pub proof fn law_with_offset_composes(s: Seq<i32>, x: i32, y: i32, r1: Seq<i32>, r2: Seq<i32>)
    requires
        r1.len() == s.len(),
        forall|i: int| 0 <= i < s.len() ==> #[trigger] r1[i] == s[i] + x,
        r2.len() == r1.len(),
        forall|i: int| 0 <= i < r1.len() ==> #[trigger] r2[i] == r1[i] + y,
    ensures
        r2.len() == s.len(),
        forall|i: int| 0 <= i < s.len() ==> #[trigger] r2[i] == s[i] + (x + y),
{
    assert forall|i: int| 0 <= i < s.len() implies #[trigger] r2[i] == s[i] + (x + y) by {
        assert(r1[i] == s[i] + x);
    }
}

/// Combining is symmetric: the levels of `a` combined with `b` are the levels
/// of `b` combined with `a` (`r1` and `r2`, as the contract of `combine` gives
/// them), since a value holds each level once, in increasing order.
pub proof fn law_combine_symmetric(a: Seq<i32>, b: Seq<i32>, r1: Seq<i32>, r2: Seq<i32>)
    requires
        strictly_sorted(r1),
        forall|y: i32| r1.contains(y) <==> (a.contains(y) || b.contains(y)),
        strictly_sorted(r2),
        forall|y: i32| r2.contains(y) <==> (b.contains(y) || a.contains(y)),
    ensures
        r1 == r2,
{
    lemma_sorted_unique(r1, r2);
}

/// Adding levels that are there already changes nothing: `r` is
/// `add_acceptable(additions)` of levels `s` (strictly increasing) whose
/// levels include every addition.
pub proof fn law_add_present_levels(s: Seq<i32>, additions: Seq<i32>, r: Seq<i32>)
    requires
        strictly_sorted(s),
        forall|i: int| 0 <= i < additions.len() ==> s.contains(#[trigger] additions[i]),
        strictly_sorted(r),
        forall|y: i32| r.contains(y) <==> (s.contains(y) || additions.contains(y)),
    ensures
        r == s,
{
    assert forall|y: i32| r.contains(y) <==> s.contains(y) by {
        if additions.contains(y) {
            let i = choose|i: int| 0 <= i < additions.len() && additions[i] == y;
            assert(s.contains(additions[i]));
        }
    }
    lemma_sorted_unique(r, s);
}

/// Strict acceptance implies lenient acceptance: a level of a value (whose
/// levels are strictly increasing, as `levels` ensures) is at or past its
/// smallest level.
pub proof fn law_strict_implies_lenient(levels: Seq<i32>, indent: i32)
    requires
        strictly_sorted(levels),
        levels.contains(indent),
    ensures
        levels.len() > 0 && indent >= levels[0],
{
    let i = choose|i: int| 0 <= i < levels.len() && levels[i] == indent;
    if i > 0 {
        assert(levels[0] < levels[i]);
    }
}

/// Combining a value with itself gives it back: `r` is `combine` of levels
/// `a` with `a`.
pub proof fn law_combine_idempotent(a: Seq<i32>, r: Seq<i32>)
    requires
        strictly_sorted(a),
        strictly_sorted(r),
        forall|y: i32| r.contains(y) <==> (a.contains(y) || a.contains(y)),
    ensures
        r == a,
{
    lemma_sorted_unique(r, a);
}

/// Combining is associative: `ab` combines `a` and `b`, `ab_c` combines `ab`
/// and `c`; `bc` combines `b` and `c`, `a_bc` combines `a` and `bc`.
pub proof fn law_combine_associative(
    a: Seq<i32>,
    b: Seq<i32>,
    c: Seq<i32>,
    ab: Seq<i32>,
    ab_c: Seq<i32>,
    bc: Seq<i32>,
    a_bc: Seq<i32>,
)
    requires
        forall|y: i32| ab.contains(y) <==> (a.contains(y) || b.contains(y)),
        strictly_sorted(ab_c),
        forall|y: i32| ab_c.contains(y) <==> (ab.contains(y) || c.contains(y)),
        forall|y: i32| bc.contains(y) <==> (b.contains(y) || c.contains(y)),
        strictly_sorted(a_bc),
        forall|y: i32| a_bc.contains(y) <==> (a.contains(y) || bc.contains(y)),
    ensures
        ab_c == a_bc,
{
    lemma_sorted_unique(ab_c, a_bc);
}

/// Moving by the single offset `o` with `with_offsets` is `with_offset(o)`:
/// `r1` is `with_offsets(&[o])` and `r2` is `with_offset(o)` of levels `s`.
pub proof fn law_with_offsets_single(s: Seq<i32>, o: i32, r1: Seq<i32>, r2: Seq<i32>)
    requires
        strictly_sorted(r1),
        forall|y: i32| r1.contains(y) <==> exists|i: int, j: int|
            0 <= i < s.len() && 0 <= j < seq![o].len() && y == #[trigger] s[i] + #[trigger] seq![o][j],
        strictly_sorted(r2),
        r2.len() == s.len(),
        forall|i: int| 0 <= i < s.len() ==> #[trigger] r2[i] == s[i] + o,
    ensures
        r1 == r2,
{
    assert forall|y: i32| r1.contains(y) <==> r2.contains(y) by {
        if r1.contains(y) {
            let (i, j) = choose|i: int, j: int|
                0 <= i < s.len() && 0 <= j < seq![o].len() && y == #[trigger] s[i] + #[trigger] seq![o][j];
            assert(r2[i] == y);
        }
        if r2.contains(y) {
            let i = choose|i: int| 0 <= i < r2.len() && r2[i] == y;
            assert(y == s[i] + seq![o][0]);
        }
    }
    lemma_sorted_unique(r1, r2);
}

} // verus!
