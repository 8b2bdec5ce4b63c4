//! Offsets and ranges in UTF-8 source text, and the character-level facts the
//! rules read from it.

use vstd::prelude::*;
use vstd::string::*;
use vstd::utf8::*;
use vstd::std_specs::iter::IteratorSpec;

verus! {

broadcast use vstd::utf8::encode_utf8_decode_utf8, vstd::utf8::encode_utf8_valid_utf8;

/// A byte offset into source text.
#[derive(Clone, Copy, Debug, PartialEq, Eq, Structural)]
pub struct TextSize {
    pub raw: u32,
}

impl TextSize {
    /// The offset `raw`.
    pub fn new(raw: u32) -> (r: Self)
        ensures
            r.raw == raw,
    {
        TextSize { raw }
    }

    /// The offset as a `usize`.
    pub fn to_usize(self) -> (r: usize)
        ensures
            r == self.raw,
    {
        self.raw as usize
    }
}

/// A half-open byte range `[start, end)` of source text.
#[derive(Clone, Copy, Debug, PartialEq, Eq, Structural)]
pub struct TextRange {
    pub start: TextSize,
    pub end: TextSize,
}

impl TextRange {
    /// The range from `start` to `end`.
    pub fn new(start: TextSize, end: TextSize) -> (r: Self)
        requires
            start.raw <= end.raw,
        ensures
            r.start == start,
            r.end == end,
    {
        TextRange { start, end }
    }

    /// The first offset of the range.
    pub fn start(&self) -> (r: TextSize)
        ensures
            r == self.start,
    {
        self.start
    }

    /// The offset just past the range.
    pub fn end(&self) -> (r: TextSize)
        ensures
            r == self.end,
    {
        self.end
    }

    /// True when the range holds no byte.
    pub fn is_empty(&self) -> (r: bool)
        ensures
            r == (self.start.raw == self.end.raw),
    {
        self.start.raw == self.end.raw
    }
}

/// The UTF-8 bytes of `s`.
pub open spec fn bytes_of(s: &str) -> Seq<u8> {
    s.spec_bytes()
}

/// The text is short enough for its offsets to be `u32` values.
pub open spec fn fits_text_size(s: &str) -> bool {
    s.spec_bytes().len() <= u32::MAX
}

/// `pos` is a character boundary of `s` (or its end).
pub open spec fn is_boundary(s: &str, pos: int) -> bool {
    is_char_boundary(s.spec_bytes(), pos)
}

/// The characters of the UTF-8 text `b` that lie before byte offset `pos`.
pub open spec fn chars_before(b: Seq<u8>, pos: int) -> Seq<char> {
    decode_utf8(b.subrange(0, pos))
}

/// The characters of the UTF-8 text `b` that lie at or after byte offset `pos`.
pub open spec fn chars_after(b: Seq<u8>, pos: int) -> Seq<char> {
    decode_utf8(b.subrange(pos, b.len() as int))
}

/// The number of bytes that the characters `cs` take in UTF-8.
pub open spec fn utf8_len(cs: Seq<char>) -> nat {
    encode_utf8(cs).len()
}

/// `c` has the Unicode White_Space property.
pub open spec fn is_white_space(c: char) -> bool {
    let u = c as u32;
    ||| 0x9 <= u <= 0xD
    ||| u == 0x20
    ||| u == 0x85
    ||| u == 0xA0
    ||| u == 0x1680
    ||| 0x2000 <= u <= 0x200A
    ||| u == 0x2028
    ||| u == 0x2029
    ||| u == 0x202F
    ||| u == 0x205F
    ||| u == 0x3000
}

/// The number of white-space characters at the end of `cs`.
pub open spec fn trailing_ws(cs: Seq<char>) -> nat
    decreases cs.len(),
{
    if cs.len() > 0 && is_white_space(cs.last()) {
        1 + trailing_ws(cs.drop_last())
    } else {
        0
    }
}

/// The number of white-space characters at the start of `cs`.
pub open spec fn leading_ws(cs: Seq<char>) -> nat
    decreases cs.len(),
{
    if cs.len() > 0 && is_white_space(cs[0]) {
        1 + leading_ws(cs.drop_first())
    } else {
        0
    }
}

pub proof fn lemma_trailing_ws_bound(cs: Seq<char>)
    ensures
        trailing_ws(cs) <= cs.len(),
        forall|i: int| cs.len() - trailing_ws(cs) <= i < cs.len() ==> is_white_space(#[trigger] cs[i]),
        trailing_ws(cs) < cs.len() ==> !is_white_space(cs[cs.len() - trailing_ws(cs) - 1]),
    decreases cs.len(),
{
    if cs.len() > 0 && is_white_space(cs.last()) {
        lemma_trailing_ws_bound(cs.drop_last());
        assert forall|i: int| cs.len() - trailing_ws(cs) <= i < cs.len() implies is_white_space(#[trigger] cs[i]) by {
            if i < cs.len() - 1 {
                assert(cs.drop_last()[i] == cs[i]);
            }
        }
        if trailing_ws(cs) < cs.len() {
            assert(cs.drop_last()[cs.len() - trailing_ws(cs) - 1] == cs[cs.len() - trailing_ws(cs) - 1]);
        }
    }
}

pub proof fn lemma_leading_ws_bound(cs: Seq<char>)
    ensures
        leading_ws(cs) <= cs.len(),
        forall|i: int| 0 <= i < leading_ws(cs) ==> is_white_space(#[trigger] cs[i]),
        leading_ws(cs) < cs.len() ==> !is_white_space(cs[leading_ws(cs) as int]),
    decreases cs.len(),
{
    if cs.len() > 0 && is_white_space(cs[0]) {
        lemma_leading_ws_bound(cs.drop_first());
        assert forall|i: int| 0 <= i < leading_ws(cs) implies is_white_space(#[trigger] cs[i]) by {
            if i > 0 {
                assert(cs.drop_first()[i - 1] == cs[i]);
            }
        }
        if leading_ws(cs) < cs.len() {
            assert(cs.drop_first()[leading_ws(cs) - 1] == cs[leading_ws(cs) as int]);
        }
    }
}

/// Encoding distributes over concatenation.
pub proof fn lemma_encode_concat(a: Seq<char>, b: Seq<char>)
    ensures
        encode_utf8(a + b) == encode_utf8(a) + encode_utf8(b),
    decreases a.len(),
{
    if a.len() == 0 {
        assert(a + b =~= b);
    } else {
        lemma_encode_concat(a.drop_first(), b);
        assert((a + b).drop_first() =~= a.drop_first() + b);
        assert((a + b)[0] == a[0]);
    }
}

/// The view of a string is the decoding of its bytes.
pub proof fn lemma_view_is_decode(s: &str)
    ensures
        s@ == decode_utf8(s.spec_bytes()),
        valid_utf8(s.spec_bytes()),
{
}

/// Splitting at a boundary: the parts decode to the characters before and after.
pub proof fn lemma_split_chars(s: &str, pos: int)
    requires
        is_boundary(s, pos),
    ensures
        chars_before(s.spec_bytes(), pos) + chars_after(s.spec_bytes(), pos) == s@,
        0 <= pos <= s.spec_bytes().len(),
        utf8_len(chars_before(s.spec_bytes(), pos)) == pos,
        utf8_len(chars_after(s.spec_bytes(), pos)) == s.spec_bytes().len() - pos,
{
    let b = s.spec_bytes();
    vstd::utf8::valid_utf8_split(b, pos);
    vstd::utf8::decode_utf8_split(b, pos);
    if pos != 0 {
        assert(pos > 0 && pos <= b.len()) by {
            reveal_with_fuel(is_char_boundary, 1);
        }
    }
    vstd::utf8::decode_utf8_encode_utf8(b.subrange(0, pos));
    vstd::utf8::decode_utf8_encode_utf8(b.subrange(pos, b.len() as int));
}

/// The character before byte `pos` is white space, or `pos` is the start of the text.
pub open spec fn spec_ws_before(b: Seq<u8>, pos: int) -> bool {
    pos == 0 || (chars_before(b, pos).len() > 0 && is_white_space(chars_before(b, pos).last()))
}

/// The character at byte `pos` is white space.
pub open spec fn spec_ws_after(b: Seq<u8>, pos: int) -> bool {
    chars_after(b, pos).len() > 0 && is_white_space(chars_after(b, pos)[0])
}

/// The byte range of the run of white space that ends at `pos`, if there is one.
pub open spec fn spec_ws_range_before(b: Seq<u8>, pos: int) -> Option<(int, int)> {
    let p = chars_before(b, pos);
    let k = trailing_ws(p);
    if k == 0 {
        None
    } else {
        Some((pos - utf8_len(p.subrange(p.len() - k, p.len() as int)), pos))
    }
}

/// The byte range of the run of white space that starts at `pos`, if there is one.
pub open spec fn spec_ws_range_after(b: Seq<u8>, pos: int) -> Option<(int, int)> {
    let p = chars_after(b, pos);
    let k = leading_ws(p);
    if k == 0 {
        None
    } else {
        Some((pos, pos + utf8_len(p.subrange(0, k as int))))
    }
}

/// `c` has the Unicode White_Space property.
pub fn is_whitespace_char(c: char) -> (r: bool)
    ensures
        r == is_white_space(c),
{
    let u = c as u32;
    (0x9 <= u && u <= 0xD) || u == 0x20 || u == 0x85 || u == 0xA0 || u == 0x1680 || (0x2000 <= u
        && u <= 0x200A) || u == 0x2028 || u == 0x2029 || u == 0x202F || u == 0x205F || u == 0x3000
}

/// `str::trim_end`: the slice without its trailing white space
/// (White_Space as Unicode defines it, the set `char::is_whitespace` tests).
#[verifier::external_body]
fn trim_end_ws(s: &str) -> (r: &str)
    ensures
        r@ == s@.subrange(0, s@.len() - trailing_ws(s@)),
{
    s.trim_end()
}

/// `str::trim_start`: the slice without its leading white space.
#[verifier::external_body]
fn trim_start_ws(s: &str) -> (r: &str)
    ensures
        r@ == s@.subrange(leading_ws(s@) as int, s@.len() as int),
{
    s.trim_start()
}

/// `str::chars().next_back()`: the last character of `s`, if any.
#[verifier::external_body]
fn last_char_of(s: &str) -> (r: Option<char>)
    ensures
        r == if s@.len() == 0 { None } else { Some(s@.last()) },
{
    s.chars().next_back()
}

/// The part of `s` before byte `pos` and the part from it.
pub fn split_text(s: &str, pos: usize) -> (r: (&str, &str))
    requires
        is_boundary(s, pos as int),
    ensures
        r.0@ == chars_before(s.spec_bytes(), pos as int),
        r.1@ == chars_after(s.spec_bytes(), pos as int),
        r.0.spec_bytes() == s.spec_bytes().subrange(0, pos as int),
        r.1.spec_bytes() == s.spec_bytes().subrange(pos as int, s.spec_bytes().len() as int),
{
    let r = s.split_at(pos);
    proof {
        lemma_view_is_decode(r.0);
        lemma_view_is_decode(r.1);
    }
    r
}

/// The first character of `s`, if any.
pub fn first_char_of(s: &str) -> (r: Option<char>)
    ensures
        r == if s@.len() == 0 { None } else { Some(s@[0]) },
{
    broadcast use vstd::string::group_string_axioms;
    let mut it = s.chars();
    it.next()
}

/// The character just before byte `pos` of `source`, if any.
pub fn char_before_pos(source: &str, pos: usize) -> (r: Option<char>)
    requires
        is_boundary(source, pos as int),
    ensures
        r == if chars_before(source.spec_bytes(), pos as int).len() == 0 {
            None
        } else {
            Some(chars_before(source.spec_bytes(), pos as int).last())
        },
{
    let (a, _) = split_text(source, pos);
    last_char_of(a)
}

/// The character at byte `pos` of `source`, if any.
pub fn char_at_pos(source: &str, pos: usize) -> (r: Option<char>)
    requires
        is_boundary(source, pos as int),
    ensures
        r == if chars_after(source.spec_bytes(), pos as int).len() == 0 {
            None
        } else {
            Some(chars_after(source.spec_bytes(), pos as int)[0])
        },
{
    let (_, b) = split_text(source, pos);
    first_char_of(b)
}

/// The number of bytes of white space that end at byte `pos` of `source`.
pub fn ws_bytes_before(source: &str, pos: usize) -> (r: usize)
    requires
        is_boundary(source, pos as int),
    ensures
        ({
            let p = chars_before(source.spec_bytes(), pos as int);
            &&& r == utf8_len(p.subrange(p.len() - trailing_ws(p), p.len() as int))
            &&& r <= pos
            &&& (r == 0 <==> trailing_ws(p) == 0)
        }),
{
    let (a, _) = split_text(source, pos);
    let t = trim_end_ws(a);
    proof {
        let p = a@;
        lemma_trailing_ws_bound(p);
        let k = trailing_ws(p);
        lemma_encode_concat(p.subrange(0, p.len() - k), p.subrange(p.len() - k, p.len() as int));
        assert(p.subrange(0, p.len() - k) + p.subrange(p.len() - k, p.len() as int) =~= p);
        lemma_view_is_decode(a);
        vstd::utf8::decode_utf8_encode_utf8(a.spec_bytes());
        if k > 0 {
            let tail = p.subrange(p.len() - k, p.len() as int);
            assert(tail.len() > 0);
            vstd::utf8::encode_utf8_first_scalar(tail);
        } else {
            assert(p.subrange(p.len() - k, p.len() as int) =~= Seq::<char>::empty());
        }
    }
    a.len() - t.len()
}

/// The number of bytes of white space that start at byte `pos` of `source`.
pub fn ws_bytes_after(source: &str, pos: usize) -> (r: usize)
    requires
        is_boundary(source, pos as int),
        fits_text_size(source),
    ensures
        ({
            let p = chars_after(source.spec_bytes(), pos as int);
            &&& r == utf8_len(p.subrange(0, leading_ws(p) as int))
            &&& pos + r <= source.spec_bytes().len()
            &&& (r == 0 <==> leading_ws(p) == 0)
        }),
{
    let (a, b) = split_text(source, pos);
    let t = trim_start_ws(b);
    proof {
        let p = b@;
        lemma_leading_ws_bound(p);
        let k = leading_ws(p);
        lemma_encode_concat(p.subrange(0, k as int), p.subrange(k as int, p.len() as int));
        assert(p.subrange(0, k as int) + p.subrange(k as int, p.len() as int) =~= p);
        lemma_view_is_decode(b);
        vstd::utf8::decode_utf8_encode_utf8(b.spec_bytes());
        lemma_split_chars(source, pos as int);
        if k > 0 {
            let head = p.subrange(0, k as int);
            vstd::utf8::encode_utf8_first_scalar(head);
        } else {
            assert(p.subrange(0, k as int) =~= Seq::<char>::empty());
        }
        assert(b.spec_bytes() == encode_utf8(p));
        assert(t.spec_bytes() == encode_utf8(p.subrange(k as int, p.len() as int)));
        assert(b.spec_bytes().len() == encode_utf8(p.subrange(0, k as int)).len() + t.spec_bytes().len());
        assert(b.spec_bytes().len() == source.spec_bytes().len() - pos);
    }
    b.len() - t.len()
}


/// The run of white space at the end of `cs` holds a line feed.
pub open spec fn tail_ws_has_newline(cs: Seq<char>) -> bool
    decreases cs.len(),
{
    cs.len() > 0 && is_white_space(cs.last()) && (cs.last() == '\n' || tail_ws_has_newline(cs.drop_last()))
}

/// The run of white space that ends at byte `pos` of `source` holds a line feed.
pub fn ws_before_has_newline(source: &str, pos: usize) -> (r: bool)
    requires
        is_boundary(source, pos as int),
    ensures
        r == tail_ws_has_newline(chars_before(source.spec_bytes(), pos as int)),
{
    let (a, _) = split_text(source, pos);
    let cs = crate::strings::to_chars(a);
    let mut i: usize = cs.len();
    proof {
        assert(cs@.subrange(0, i as int) =~= cs@);
    }
    while i > 0
        invariant
            0 <= i <= cs@.len(),
            cs@ == chars_before(source.spec_bytes(), pos as int),
            tail_ws_has_newline(cs@) == tail_ws_has_newline(cs@.subrange(0, i as int)),
        decreases i,
    {
        let c = cs[i - 1];
        let ghost pre = cs@.subrange(0, i as int);
        assert(pre.last() == c);
        if !is_whitespace_char(c) {
            return false;
        }
        if c == '\n' {
            return true;
        }
        assert(pre.drop_last() =~= cs@.subrange(0, i - 1));
        i = i - 1;
    }
    false
}


/// Every character of `cs` after its last line break is white space: the text
/// before a position holds nothing but white space on that position's line. A
/// line breaks at `\n`, and also at `\r` when `with_cr`.
pub open spec fn blank_since_line_start(cs: Seq<char>, with_cr: bool) -> bool
    decreases cs.len(),
{
    if cs.len() == 0 {
        true
    } else if cs.last() == '\n' || (with_cr && cs.last() == '\r') {
        true
    } else {
        is_white_space(cs.last()) && blank_since_line_start(cs.drop_last(), with_cr)
    }
}

/// Only white space lies between the start of its line and byte `pos` of
/// `source` (lines break at `\n`, and at `\r` when `with_cr`).
pub fn blank_before_on_line(source: &str, pos: usize, with_cr: bool) -> (r: bool)
    requires
        is_boundary(source, pos as int),
    ensures
        r == blank_since_line_start(chars_before(source.spec_bytes(), pos as int), with_cr),
{
    let (a, _) = split_text(source, pos);
    let cs = crate::strings::to_chars(a);
    let mut i: usize = cs.len();
    proof {
        assert(cs@.subrange(0, i as int) =~= cs@);
    }
    while i > 0
        invariant
            0 <= i <= cs@.len(),
            cs@ == chars_before(source.spec_bytes(), pos as int),
            blank_since_line_start(cs@, with_cr) == blank_since_line_start(cs@.subrange(0, i as int), with_cr),
        decreases i,
    {
        let c = cs[i - 1];
        let ghost pre = cs@.subrange(0, i as int);
        assert(pre.last() == c);
        if c == '\n' || (with_cr && c == '\r') {
            return true;
        }
        if !is_whitespace_char(c) {
            return false;
        }
        assert(pre.drop_last() =~= cs@.subrange(0, i - 1));
        i = i - 1;
    }
    true
}


/// A run of white space found before `pos` is maximal: what lies before it
/// is the text before `pos` without the run, and, unless the run starts the
/// text, the character just before the run is not white space.
pub proof fn lemma_ws_run_before(s: &str, pos: int)
    requires
        is_boundary(s, pos),
        spec_ws_range_before(s.spec_bytes(), pos) is Some,
    ensures
        ({
            let b = s.spec_bytes();
            let start = spec_ws_range_before(b, pos).unwrap().0;
            let p = chars_before(b, pos);
            &&& 0 <= start < pos
            &&& is_boundary(s, start)
            &&& chars_before(b, start) == p.subrange(0, p.len() - trailing_ws(p))
            &&& start > 0 ==> chars_before(b, start).len() > 0 && !is_white_space(chars_before(b, start).last())
        }),
{
    let b = s.spec_bytes();
    let p = chars_before(b, pos);
    let k = trailing_ws(p);
    lemma_trailing_ws_bound(p);
    lemma_split_chars(s, pos);
    let x = p.subrange(0, p.len() - k);
    let t = p.subrange(p.len() - k, p.len() as int);
    assert(x + t =~= p);
    lemma_encode_concat(x, t);
    vstd::utf8::valid_utf8_split(b, pos);
    let pre = b.subrange(0, pos);
    vstd::utf8::decode_utf8_encode_utf8(pre);
    assert(encode_utf8(p) == pre);
    let start = pos - utf8_len(t);
    assert(start == encode_utf8(x).len());
    assert(b.subrange(0, start) =~= pre.subrange(0, start));
    assert(pre.subrange(0, start) =~= encode_utf8(x));
    assert(chars_before(b, start) == x);
    if k > 0 {
        vstd::utf8::encode_utf8_first_scalar(t);
    }
    if start > 0 {
        assert(x.len() > 0);
    }
    if start > 0 {
        let et = encode_utf8(t);
        assert(pre =~= encode_utf8(x) + et);
        assert(et.len() == pos - start);
        assert(pre[start] == b[start]);
        assert((encode_utf8(x) + et)[start] == et[0]);
        assert(b[start] == et[0]);
        vstd::utf8::is_char_boundary_iff_is_leading_byte(b, start);
    } else {
        vstd::utf8::is_char_boundary_start_end_of_seq(b);
    }
}


/// Every character of `cs` is a line feed or a carriage return.
pub open spec fn all_line_breaks(cs: Seq<char>) -> bool {
    forall|i: int| 0 <= i < cs.len() ==> (#[trigger] cs[i] == '\n' || cs[i] == '\r')
}

/// The run of white space that starts `cs`.
pub open spec fn head_ws(cs: Seq<char>) -> Seq<char> {
    cs.subrange(0, leading_ws(cs) as int)
}

/// The run of white space that ends `cs`.
pub open spec fn tail_ws(cs: Seq<char>) -> Seq<char> {
    cs.subrange(cs.len() - trailing_ws(cs), cs.len() as int)
}

/// When the first `n` characters of `cs` are white space and the next one (if
/// any) is not, the leading run has length `n`; when only the first part holds,
/// it is at least `n` long.
pub proof fn lemma_leading_ws_prefix(cs: Seq<char>, n: int)
    requires
        0 <= n <= cs.len(),
        forall|i: int| 0 <= i < n ==> is_white_space(#[trigger] cs[i]),
    ensures
        leading_ws(cs) >= n,
        (n == cs.len() || !is_white_space(cs[n])) ==> leading_ws(cs) == n,
    decreases n,
{
    if n > 0 {
        assert forall|i: int| 0 <= i < n - 1 implies is_white_space(#[trigger] cs.drop_first()[i]) by {
            assert(cs.drop_first()[i] == cs[i + 1]);
        }
        lemma_leading_ws_prefix(cs.drop_first(), n - 1);
        if n < cs.len() {
            assert(cs.drop_first()[n - 1] == cs[n]);
        }
    }
}

/// The run of white space that starts at byte `pos` of `source` is made of line breaks only.
pub fn ws_after_all_breaks(source: &str, pos: usize) -> (r: bool)
    requires
        is_boundary(source, pos as int),
    ensures
        r == all_line_breaks(head_ws(chars_after(source.spec_bytes(), pos as int))),
{
    broadcast use vstd::string::group_string_axioms;
    let (_, b) = split_text(source, pos);
    let ghost total = b@;
    let mut it = b.chars();
    let ghost mut n: int = 0;
    loop
        invariant
            total == b@,
            total == chars_after(source.spec_bytes(), pos as int),
            0 <= n <= total.len(),
            it.remaining() == total.subrange(n, total.len() as int),
            forall|i: int| 0 <= i < n ==> is_white_space(#[trigger] total[i]) && (total[i] == '\n' || total[i] == '\r'),
            it.obeys_prophetic_iter_laws(),
        decreases total.len() - n,
    {
        let ghost before = it.remaining();
        match it.next() {
            Some(c) => {
                assert(before.len() > 0);
                assert(c == total[n]);
                if !is_whitespace_char(c) {
                    proof {
                        lemma_leading_ws_prefix(total, n);
                        lemma_leading_ws_bound(total);
                        assert forall|i: int| 0 <= i < head_ws(total).len() implies (#[trigger] head_ws(total)[i] == '\n'
                            || head_ws(total)[i] == '\r') by {
                            assert(head_ws(total)[i] == total[i]);
                        }
                    }
                    return true;
                }
                if c != '\n' && c != '\r' {
                    proof {
                        lemma_leading_ws_prefix(total, n + 1);
                        lemma_leading_ws_bound(total);
                        assert(head_ws(total)[n] == total[n]);
                    }
                    return false;
                }
                proof {
                    n = n + 1;
                    assert(it.remaining() =~= total.subrange(n, total.len() as int));
                }
            },
            None => {
                proof {
                    assert(before.len() == 0);
                    lemma_leading_ws_prefix(total, n);
                    lemma_leading_ws_bound(total);
                    assert forall|i: int| 0 <= i < head_ws(total).len() implies (#[trigger] head_ws(total)[i] == '\n'
                        || head_ws(total)[i] == '\r') by {
                        assert(head_ws(total)[i] == total[i]);
                    }
                }
                return true;
            },
        }
    }
}

/// The run of white space that ends at byte `pos` of `source` is made of line breaks only.
pub fn ws_before_all_breaks(source: &str, pos: usize) -> (r: bool)
    requires
        is_boundary(source, pos as int),
    ensures
        r == all_line_breaks(tail_ws(chars_before(source.spec_bytes(), pos as int))),
{
    let (a, _) = split_text(source, pos);
    let cs = crate::strings::to_chars(a);
    let ghost total = cs@;
    let mut i: usize = cs.len();
    proof {
        lemma_trailing_ws_bound(total);
    }
    while i > 0
        invariant
            total == cs@,
            total == chars_before(source.spec_bytes(), pos as int),
            0 <= i <= total.len(),
            forall|j: int| i <= j < total.len() ==> is_white_space(#[trigger] total[j]) && (total[j] == '\n' || total[j] == '\r'),
        decreases i,
    {
        let c = cs[i - 1];
        if !is_whitespace_char(c) || (c != '\n' && c != '\r') {
            proof {
                lemma_trailing_ws_bound(total);
                lemma_trailing_ws_suffix(total, total.len() - (i - 1) - 1);
                let t = tail_ws(total);
                if is_white_space(c) {
                    lemma_trailing_ws_suffix(total, total.len() - (i - 1));
                    assert(t[t.len() - (total.len() - (i - 1))] == total[i - 1]);
                } else {
                    assert forall|j: int| 0 <= j < t.len() implies (#[trigger] t[j] == '\n' || t[j] == '\r') by {
                        assert(t[j] == total[total.len() - t.len() + j]);
                    }
                }
            }
            return is_white_space_exec_false(c);
        }
        i = i - 1;
    }
    proof {
        lemma_trailing_ws_bound(total);
        lemma_trailing_ws_suffix(total, total.len() as int);
        let t = tail_ws(total);
        assert forall|j: int| 0 <= j < t.len() implies (#[trigger] t[j] == '\n' || t[j] == '\r') by {
            assert(t[j] == total[total.len() - t.len() + j]);
        }
    }
    true
}

/// True exactly when `c` is not white space.
fn is_white_space_exec_false(c: char) -> (r: bool)
    ensures
        r == !is_white_space(c),
{
    !is_whitespace_char(c)
}

/// When the last `n` characters of `cs` are white space and the one before
/// (if any) is not, the trailing run has length `n`; when only the first part
/// holds, it is at least `n` long.
pub proof fn lemma_trailing_ws_suffix(cs: Seq<char>, n: int)
    requires
        0 <= n <= cs.len(),
        forall|i: int| cs.len() - n <= i < cs.len() ==> is_white_space(#[trigger] cs[i]),
    ensures
        trailing_ws(cs) >= n,
        (n == cs.len() || !is_white_space(cs[cs.len() - n - 1])) ==> trailing_ws(cs) == n,
    decreases n,
{
    if n > 0 {
        let d = cs.drop_last();
        assert forall|i: int| d.len() - (n - 1) <= i < d.len() implies is_white_space(#[trigger] d[i]) by {
            assert(d[i] == cs[i]);
        }
        lemma_trailing_ws_suffix(d, n - 1);
        if n < cs.len() {
            assert(d[d.len() - (n - 1) - 1] == cs[cs.len() - n - 1]);
        }
    }
}


/// Byte `i` of `b` ends a line: a line feed, or a carriage return not followed by a line feed.
pub open spec fn is_line_break_at(b: Seq<u8>, i: int) -> bool {
    b[i] == 10 || (b[i] == 13 && !(i + 1 < b.len() && b[i + 1] == 10))
}

/// The number of line ends among the first `pos` bytes of `b`: the 0-based
/// line of offset `pos`.
pub open spec fn line_index(b: Seq<u8>, pos: int) -> nat
    decreases pos,
{
    if pos <= 0 {
        0
    } else {
        line_index(b, pos - 1) + if is_line_break_at(b, pos - 1) { 1nat } else { 0nat }
    }
}

/// The 0-based line of byte offset `pos` of `source`.
pub fn line_of_offset(source: &str, pos: usize) -> (r: usize)
    requires
        pos <= source.spec_bytes().len(),
    ensures
        r == line_index(source.spec_bytes(), pos as int),
{
    let b = source.as_bytes();
    let mut n: usize = 0;
    let mut i: usize = 0;
    while i < pos
        invariant
            b@ == source.spec_bytes(),
            pos <= b@.len(),
            0 <= i <= pos,
            n == line_index(b@, i as int),
            n <= i,
        decreases pos - i,
    {
        if b[i] == 10 || (b[i] == 13 && !(i + 1 < b.len() && b[i + 1] == 10)) {
            n = n + 1;
        }
        i = i + 1;
    }
    n
}

/// The characters of `cs` after its last line feed (all of `cs` when it holds none).
pub open spec fn after_last_lf(cs: Seq<char>) -> Seq<char>
    decreases cs.len(),
{
    if cs.len() == 0 {
        cs
    } else if cs.last() == '\n' {
        Seq::<char>::empty()
    } else {
        after_last_lf(cs.drop_last()).push(cs.last())
    }
}

/// The white space that starts the line of byte `pos` of `source` (lines split
/// at line feeds), up to `pos`.
pub fn line_indent_before(source: &str, pos: usize) -> (r: String)
    requires
        is_boundary(source, pos as int),
    ensures
        r@ == head_ws(after_last_lf(chars_before(source.spec_bytes(), pos as int))),
{
    let (a, _) = split_text(source, pos);
    let cs = crate::strings::to_chars(a);
    let mut start: usize = cs.len();
    proof {
        assert(cs@.subrange(cs@.len() as int, cs@.len() as int) =~= Seq::<char>::empty());
        assert(cs@.subrange(0, cs@.len() as int) =~= cs@);
    }
    while start > 0 && cs[start - 1] != '\n'
        invariant
            cs@ == chars_before(source.spec_bytes(), pos as int),
            0 <= start <= cs@.len(),
            after_last_lf(cs@) == after_last_lf(cs@.subrange(0, start as int)) + cs@.subrange(start as int, cs@.len() as int),
        decreases start,
    {
        proof {
            let pre = cs@.subrange(0, start as int);
            assert(pre.drop_last() =~= cs@.subrange(0, start - 1));
            assert(pre.last() == cs@[start - 1]);
            assert(after_last_lf(pre) == after_last_lf(pre.drop_last()).push(cs@[start - 1]));
            assert(after_last_lf(pre.drop_last()).push(cs@[start - 1]) + cs@.subrange(start as int, cs@.len() as int)
                =~= after_last_lf(pre.drop_last()) + cs@.subrange(start - 1, cs@.len() as int));
        }
        start = start - 1;
    }
    proof {
        let pre = cs@.subrange(0, start as int);
        if start > 0 {
            assert(pre.last() == '\n');
        }
        assert(after_last_lf(pre) =~= Seq::<char>::empty());
        assert(after_last_lf(cs@) =~= cs@.subrange(start as int, cs@.len() as int));
    }
    let mut end = start;
    while end < cs.len() && is_whitespace_char(cs[end])
        invariant
            start <= end <= cs@.len(),
            forall|i: int| start <= i < end ==> is_white_space(#[trigger] cs@[i]),
        decreases cs@.len() - end,
    {
        end = end + 1;
    }
    proof {
        let line = cs@.subrange(start as int, cs@.len() as int);
        assert forall|i: int| 0 <= i < end - start implies is_white_space(#[trigger] line[i]) by {
            assert(line[i] == cs@[start + i]);
        }
        if end < cs@.len() {
            assert(line[end - start] == cs@[end as int]);
        }
        lemma_leading_ws_prefix(line, end - start);
        assert(head_ws(line) =~= cs@.subrange(start as int, end as int));
    }
    crate::strings::string_from_chars(&cs, start, end)
}


/// A text takes at least as many bytes in UTF-8 as it has characters.
pub proof fn lemma_utf8_len_ge(cs: Seq<char>)
    ensures
        utf8_len(cs) >= cs.len(),
    decreases cs.len(),
{
    if cs.len() > 0 {
        lemma_utf8_len_ge(cs.drop_first());
    }
}

/// The characters of the line that ends `cs`: those after its last line break.
/// A line breaks at `\n`, and at `\r` unless `\n` follows it (`next_lf` says
/// whether the character after `cs` is `\n`).
pub open spec fn line_tail(cs: Seq<char>, next_lf: bool) -> Seq<char>
    decreases cs.len(),
{
    if cs.len() == 0 {
        cs
    } else if cs.last() == '\n' || (cs.last() == '\r' && !next_lf) {
        Seq::<char>::empty()
    } else {
        line_tail(cs.drop_last(), false).push(cs.last())
    }
}

/// The characters of `cs` before its first line feed (all of `cs` when it holds none).
pub open spec fn before_first_lf(cs: Seq<char>) -> Seq<char>
    decreases cs.len(),
{
    if cs.len() == 0 || cs[0] == '\n' {
        Seq::<char>::empty()
    } else {
        seq![cs[0]] + before_first_lf(cs.drop_first())
    }
}

/// The characters between the start of the line of byte `pos` and `pos`
/// (lines break at `\n`, or at `\r` not followed by `\n`).
pub fn line_prefix(source: &str, pos: usize) -> (r: Vec<char>)
    requires
        is_boundary(source, pos as int),
    ensures
        ({
            let a = chars_after(source.spec_bytes(), pos as int);
            r@ == line_tail(chars_before(source.spec_bytes(), pos as int), a.len() > 0 && a[0] == '\n')
        }),
{
    let next_lf = match char_at_pos(source, pos) {
        Some(c) => c == '\n',
        None => false,
    };
    let (a, _) = split_text(source, pos);
    let cs = crate::strings::to_chars(a);
    let mut start: usize = cs.len();
    let mut nl = next_lf;
    proof {
        assert(cs@.subrange(cs@.len() as int, cs@.len() as int) =~= Seq::<char>::empty());
        assert(cs@.subrange(0, cs@.len() as int) =~= cs@);
    }
    while start > 0 && !(cs[start - 1] == '\n' || (cs[start - 1] == '\r' && !nl))
        invariant
            cs@ == chars_before(source.spec_bytes(), pos as int),
            0 <= start <= cs@.len(),
            line_tail(cs@, next_lf) == line_tail(cs@.subrange(0, start as int), nl) + cs@.subrange(start as int, cs@.len() as int),
        decreases start,
    {
        proof {
            let pre = cs@.subrange(0, start as int);
            assert(pre.drop_last() =~= cs@.subrange(0, start - 1));
            assert(pre.last() == cs@[start - 1]);
            assert(line_tail(pre, nl) == line_tail(pre.drop_last(), false).push(cs@[start - 1]));
            assert(line_tail(pre.drop_last(), false).push(cs@[start - 1]) + cs@.subrange(start as int, cs@.len() as int)
                =~= line_tail(pre.drop_last(), false) + cs@.subrange(start - 1, cs@.len() as int));
        }
        start = start - 1;
        nl = false;
    }
    proof {
        assert(line_tail(cs@.subrange(0, start as int), nl) =~= Seq::<char>::empty());
        assert(line_tail(cs@, next_lf) =~= cs@.subrange(start as int, cs@.len() as int));
    }
    let mut out: Vec<char> = Vec::new();
    let mut i = start;
    while i < cs.len()
        invariant
            start <= i <= cs@.len(),
            out@ == cs@.subrange(start as int, i as int),
        decreases cs@.len() - i,
    {
        out.push(cs[i]);
        assert(out@ =~= cs@.subrange(start as int, i + 1));
        i = i + 1;
    }
    out
}

/// The characters from byte `pos` of `source` up to the next line feed.
pub fn rest_of_line(source: &str, pos: usize) -> (r: Vec<char>)
    requires
        is_boundary(source, pos as int),
    ensures
        r@ == before_first_lf(chars_after(source.spec_bytes(), pos as int)),
{
    broadcast use vstd::string::group_string_axioms;
    let (_, b) = split_text(source, pos);
    let ghost total = b@;
    let mut it = b.chars();
    let mut out: Vec<char> = Vec::new();
    proof {
        assert(total.subrange(0, total.len() as int) =~= total);
    }
    loop
        invariant
            total == b@,
            total == chars_after(source.spec_bytes(), pos as int),
            out@.len() <= total.len(),
            it.remaining() == total.subrange(out@.len() as int, total.len() as int),
            before_first_lf(total) == out@ + before_first_lf(total.subrange(out@.len() as int, total.len() as int)),
            it.obeys_prophetic_iter_laws(),
        decreases total.len() - out@.len(),
    {
        let ghost before = it.remaining();
        let ghost k = out@.len() as int;
        match it.next() {
            Some(c) => {
                assert(before.len() > 0);
                assert(c == total[k]);
                let ghost rest = total.subrange(k, total.len() as int);
                assert(rest[0] == c);
                if c == '\n' {
                    assert(before_first_lf(rest) =~= Seq::<char>::empty());
                    assert(out@ + Seq::<char>::empty() =~= out@);
                    return out;
                }
                assert(rest.drop_first() =~= total.subrange(k + 1, total.len() as int));
                out.push(c);
                assert(out@ + before_first_lf(total.subrange(k + 1, total.len() as int)) =~= (out@.drop_last() + seq![c])
                    + before_first_lf(rest.drop_first()));
                assert(it.remaining() =~= total.subrange(out@.len() as int, total.len() as int));
            },
            None => {
                assert(before.len() == 0);
                assert(out@ + Seq::<char>::empty() =~= out@);
                return out;
            },
        }
    }
}

/// The characters after the last line feed before byte `pos` of `source`.
pub fn lf_line_before(source: &str, pos: usize) -> (r: Vec<char>)
    requires
        is_boundary(source, pos as int),
    ensures
        r@ == after_last_lf(chars_before(source.spec_bytes(), pos as int)),
{
    let (a, _) = split_text(source, pos);
    let cs = crate::strings::to_chars(a);
    let mut start: usize = cs.len();
    proof {
        assert(cs@.subrange(cs@.len() as int, cs@.len() as int) =~= Seq::<char>::empty());
        assert(cs@.subrange(0, cs@.len() as int) =~= cs@);
    }
    while start > 0 && cs[start - 1] != '\n'
        invariant
            cs@ == chars_before(source.spec_bytes(), pos as int),
            0 <= start <= cs@.len(),
            after_last_lf(cs@) == after_last_lf(cs@.subrange(0, start as int)) + cs@.subrange(start as int, cs@.len() as int),
        decreases start,
    {
        proof {
            let pre = cs@.subrange(0, start as int);
            assert(pre.drop_last() =~= cs@.subrange(0, start - 1));
            assert(pre.last() == cs@[start - 1]);
            assert(after_last_lf(pre.drop_last()).push(cs@[start - 1]) + cs@.subrange(start as int, cs@.len() as int)
                =~= after_last_lf(pre.drop_last()) + cs@.subrange(start - 1, cs@.len() as int));
        }
        start = start - 1;
    }
    proof {
        assert(after_last_lf(cs@.subrange(0, start as int)) =~= Seq::<char>::empty());
        assert(after_last_lf(cs@) =~= cs@.subrange(start as int, cs@.len() as int));
    }
    let mut out: Vec<char> = Vec::new();
    let mut i = start;
    while i < cs.len()
        invariant
            start <= i <= cs@.len(),
            out@ == cs@.subrange(start as int, i as int),
        decreases cs@.len() - i,
    {
        out.push(cs[i]);
        assert(out@ =~= cs@.subrange(start as int, i + 1));
        i = i + 1;
    }
    out
}


/// The line that ends `cs` is a suffix of it.
pub proof fn lemma_line_tail_suffix(cs: Seq<char>, next_lf: bool)
    ensures
        line_tail(cs, next_lf).len() <= cs.len(),
        line_tail(cs, next_lf) == cs.subrange(cs.len() - line_tail(cs, next_lf).len(), cs.len() as int),
    decreases cs.len(),
{
    if cs.len() == 0 {
        assert(cs.subrange(0, 0) =~= cs);
    } else if cs.last() == '\n' || (cs.last() == '\r' && !next_lf) {
        assert(cs.subrange(cs.len() as int, cs.len() as int) =~= Seq::<char>::empty());
    } else {
        let d = cs.drop_last();
        lemma_line_tail_suffix(d, false);
        let t = line_tail(d, false);
        assert(t.push(cs.last()) =~= cs.subrange(cs.len() - (t.len() + 1), cs.len() as int));
    }
}


/// An ASCII byte of valid UTF-8 is a whole character: a character boundary
/// lies on each side of it.
pub proof fn lemma_ascii_boundaries(b: Seq<u8>, i: int)
    requires
        valid_utf8(b),
        0 <= i < b.len(),
        b[i] < 0x80,
    ensures
        is_char_boundary(b, i),
        is_char_boundary(b, i + 1),
{
    vstd::utf8::is_char_boundary_iff_is_leading_byte(b, i);
    assert(is_leading_byte_width_1(b[i]));
    lemma_ascii_next_boundary(b, i);
}

proof fn lemma_ascii_next_boundary(b: Seq<u8>, i: int)
    requires
        valid_utf8(b),
        0 <= i < b.len(),
        is_char_boundary(b, i),
        b[i] < 0x80,
    ensures
        is_char_boundary(b, i + 1),
    decreases b.len(),
{
    let l = length_of_first_scalar(b);
    let p = pop_first_scalar(b);
    assert(valid_first_scalar(b) && valid_utf8(p));
    if i == 0 {
        assert(is_leading_byte_width_1(b[0]));
        assert(l == 1);
        assert(is_char_boundary(b, 1) == is_char_boundary(p, 0));
    } else {
        assert(is_char_boundary(b, i) == is_char_boundary(p, i - l));
        if i - l < 0 {
            assert(!is_char_boundary(p, i - l));
        }
        assert(p[i - l] == b[i]);
        lemma_ascii_next_boundary(p, i - l);
        assert(is_char_boundary(b, i + 1) == is_char_boundary(p, i + 1 - l));
    }
}

} // verus!
