//! Text positions and ranges, and the wrapper that attaches a range to a value.
use vstd::prelude::*;

verus! {

/// Represents a text position in a text file, with line and character
#[derive(Debug, Clone, Default, Copy, PartialEq, Eq, Structural, PartialOrd, Ord, Hash)]
pub struct Position {
    /// The line that the position is pointing at
    pub line: u32,
    /// The character in the line that the position is pointing at
    pub col: u32,
}

/// Location of an error, as a span between `start` and `end`
#[derive(Debug, Clone, Default, Copy, PartialEq, Eq, Structural, PartialOrd, Ord, Hash)]
pub struct Range {
    /// Position of the start of the error
    pub start: Position,
    /// Position of the end of the error
    pub end: Position,
}

/// Wrapper to hold the range that the inner value spans
#[derive(Debug, Default, Clone, PartialEq, Eq)]
pub struct Ranged<T> {
    /// The wrapped value
    pub inner: T,
    /// The range of text the value was read from
    pub range: Range,
}

impl<T: View> View for Ranged<T> {
    type V = Ranged<T::V>;

    open spec fn view(&self) -> Ranged<T::V> {
        Ranged { inner: self.inner@, range: self.range }
    }
}

/// `a` comes strictly before `b` (line first, then column)
pub open spec fn pos_lt(a: Position, b: Position) -> bool {
    a.line < b.line || (a.line == b.line && a.col < b.col)
}

/// `a` comes before `b`, or is `b`
pub open spec fn pos_le(a: Position, b: Position) -> bool {
    pos_lt(a, b) || a == b
}

/// The earlier of two positions
pub open spec fn pos_min(a: Position, b: Position) -> Position {
    if pos_le(a, b) { a } else { b }
}

/// The later of two positions
pub open spec fn pos_max(a: Position, b: Position) -> Position {
    if pos_le(a, b) { b } else { a }
}

/// The order of ranges: by start, then by end
pub open spec fn range_le(a: Range, b: Range) -> bool {
    pos_lt(a.start, b.start) || (a.start == b.start && pos_le(a.end, b.end))
}

/// The smallest range containing both ranges
pub open spec fn range_hull(a: Range, b: Range) -> Range {
    Range { start: pos_min(a.start, b.start), end: pos_max(a.end, b.end) }
}

/// Every range of the sequence is ordered before the ranges after it
pub open spec fn ranges_sorted(s: Seq<Range>) -> bool {
    forall|i: int, j: int| 0 <= i < j < s.len() ==> range_le(#[trigger] s[i], #[trigger] s[j])
}

/// Inserts `r` into a sorted sequence, before the first range that is not ordered before it
pub open spec fn insert_sorted(s: Seq<Range>, r: Range) -> Seq<Range>
    decreases s.len(),
{
    if s.len() == 0 {
        seq![r]
    } else if range_le(r, s[0]) {
        seq![r] + s
    } else {
        seq![s[0]] + insert_sorted(s.drop_first(), r)
    }
}

/// The ranges in sorted order
pub open spec fn sort_ranges(s: Seq<Range>) -> Seq<Range>
    decreases s.len(),
{
    if s.len() == 0 {
        s
    } else {
        insert_sorted(sort_ranges(s.drop_last()), s.last())
    }
}

/// Merges sorted ranges, growing `cur` while the next range starts before `cur` ends
pub open spec fn merge_from(cur: Range, rest: Seq<Range>) -> Seq<Range>
    decreases rest.len(),
{
    if rest.len() == 0 {
        seq![cur]
    } else if pos_le(rest[0].start, cur.end) {
        merge_from(range_hull(cur, rest[0]), rest.drop_first())
    } else {
        seq![cur] + merge_from(rest[0], rest.drop_first())
    }
}

/// The result of combining the ranges: sorted, then merged
pub open spec fn combined(s: Seq<Range>) -> Seq<Range> {
    let sorted = sort_ranges(s);
    if sorted.len() == 0 {
        sorted
    } else {
        merge_from(sorted[0], sorted.drop_first())
    }
}

/// `inner` lies within `outer`
pub open spec fn range_within(inner: Range, outer: Range) -> bool {
    pos_le(outer.start, inner.start) && pos_le(inner.end, outer.end)
}

/// Consecutive ranges neither overlap nor touch, and come in order of their starts
pub open spec fn ranges_separated(s: Seq<Range>) -> bool {
    forall|k: int|
        0 <= k < s.len() - 1 ==> pos_lt(#[trigger] s[k].end, s[k + 1].start) && pos_le(
            s[k].start,
            s[k + 1].start,
        )
}

proof fn lemma_insert_sorted(s: Seq<Range>, r: Range)
    requires
        ranges_sorted(s),
    ensures
        ranges_sorted(insert_sorted(s, r)),
        insert_sorted(s, r).len() == s.len() + 1,
        forall|x: Range| #[trigger] insert_sorted(s, r).contains(x) <==> (s.contains(x) || x == r),
    decreases s.len(),
{
    if s.len() == 0 {
        assert(insert_sorted(s, r) == seq![r]);
        assert forall|x: Range| #[trigger] insert_sorted(s, r).contains(x) <==> (s.contains(x) || x == r) by {
            if insert_sorted(s, r).contains(x) {
                assert(insert_sorted(s, r)[0] == x);
            }
            if x == r {
                assert(insert_sorted(s, r)[0] == x);
            }
        }
    } else if range_le(r, s[0]) {
        let t = seq![r] + s;
        assert(insert_sorted(s, r) == t);
        assert forall|x: Range| #[trigger] t.contains(x) <==> (s.contains(x) || x == r) by {
            if t.contains(x) {
                let k = choose|k: int| 0 <= k < t.len() && t[k] == x;
                if k > 0 {
                    assert(s[k - 1] == x);
                }
            }
            if s.contains(x) {
                let k = choose|k: int| 0 <= k < s.len() && s[k] == x;
                assert(t[k + 1] == x);
            }
            if x == r {
                assert(t[0] == x);
            }
        }
    } else {
        let d = s.drop_first();
        lemma_insert_sorted(d, r);
        let t = seq![s[0]] + insert_sorted(d, r);
        assert(insert_sorted(s, r) == t);
        assert forall|i: int, j: int| 0 <= i < j < t.len() implies range_le(#[trigger] t[i], #[trigger] t[j]) by {
            if i == 0 {
                let y = t[j];
                assert(insert_sorted(d, r).contains(y)) by {
                    assert(insert_sorted(d, r)[j - 1] == y);
                }
                if y != r {
                    let m = choose|m: int| 0 <= m < d.len() && d[m] == y;
                    assert(s[m + 1] == y);
                }
            }
        }
        assert forall|x: Range| #[trigger] t.contains(x) <==> (s.contains(x) || x == r) by {
            if t.contains(x) {
                let k = choose|k: int| 0 <= k < t.len() && t[k] == x;
                if k > 0 {
                    assert(insert_sorted(d, r)[k - 1] == x);
                    assert(insert_sorted(d, r).contains(x));
                    if x != r {
                        let m = choose|m: int| 0 <= m < d.len() && d[m] == x;
                        assert(s[m + 1] == x);
                    }
                }
            }
            if s.contains(x) {
                let k = choose|k: int| 0 <= k < s.len() && s[k] == x;
                if k == 0 {
                    assert(t[0] == x);
                } else {
                    assert(d[k - 1] == x);
                    assert(insert_sorted(d, r).contains(x));
                    let m = choose|m: int| 0 <= m < insert_sorted(d, r).len() && insert_sorted(d, r)[m] == x;
                    assert(t[m + 1] == x);
                }
            }
            if x == r {
                assert(insert_sorted(d, r).contains(x));
                let m = choose|m: int| 0 <= m < insert_sorted(d, r).len() && insert_sorted(d, r)[m] == x;
                assert(t[m + 1] == x);
            }
        }
    }
}

/// Sorting gives a sorted sequence holding exactly the ranges it was given
pub proof fn lemma_sort_ranges(s: Seq<Range>)
    ensures
        ranges_sorted(sort_ranges(s)),
        sort_ranges(s).len() == s.len(),
        forall|x: Range| #[trigger] sort_ranges(s).contains(x) <==> s.contains(x),
    decreases s.len(),
{
    if s.len() > 0 {
        lemma_sort_ranges(s.drop_last());
        lemma_insert_sorted(sort_ranges(s.drop_last()), s.last());
        assert forall|x: Range| #[trigger] sort_ranges(s).contains(x) <==> s.contains(x) by {
            if s.drop_last().contains(x) {
                let k = choose|k: int| 0 <= k < s.drop_last().len() && s.drop_last()[k] == x;
                assert(s[k] == x);
            }
            if s.contains(x) {
                let k = choose|k: int| 0 <= k < s.len() && s[k] == x;
                if k < s.len() - 1 {
                    assert(s.drop_last()[k] == x);
                }
            }
        }
    }
}

proof fn lemma_merge_from(cur: Range, rest: Seq<Range>)
    requires
        ranges_sorted(rest),
        forall|i: int| 0 <= i < rest.len() ==> pos_le(cur.start, #[trigger] rest[i].start),
    ensures
        merge_from(cur, rest).len() > 0,
        merge_from(cur, rest)[0].start == cur.start,
        merge_from(cur, rest).len() <= rest.len() + 1,
        ranges_separated(merge_from(cur, rest)),
        exists|k: int|
            0 <= k < merge_from(cur, rest).len() && range_within(cur, #[trigger] merge_from(cur, rest)[k]),
        forall|i: int|
            0 <= i < rest.len() ==> exists|k: int|
                0 <= k < merge_from(cur, rest).len() && range_within(#[trigger] rest[i], #[trigger] merge_from(cur, rest)[k]),
    decreases rest.len(),
{
    let out = merge_from(cur, rest);
    if rest.len() == 0 {
        assert(range_within(cur, out[0]));
    } else {
        let d = rest.drop_first();
        assert(ranges_sorted(d)) by {
            assert forall|i: int, j: int| 0 <= i < j < d.len() implies range_le(#[trigger] d[i], #[trigger] d[j]) by {
                assert(d[i] == rest[i + 1] && d[j] == rest[j + 1]);
            }
        }
        if pos_le(rest[0].start, cur.end) {
            let h = range_hull(cur, rest[0]);
            assert forall|i: int| 0 <= i < d.len() implies pos_le(h.start, #[trigger] d[i].start) by {
                assert(d[i] == rest[i + 1]);
                assert(range_le(rest[0], rest[i + 1]));
            }
            lemma_merge_from(h, d);
            let k0 = choose|k: int| 0 <= k < out.len() && range_within(h, #[trigger] out[k]);
            assert(range_within(cur, out[k0]));
            assert forall|i: int| 0 <= i < rest.len() implies exists|k: int|
                0 <= k < out.len() && range_within(#[trigger] rest[i], #[trigger] out[k]) by {
                if i == 0 {
                    assert(range_within(rest[0], out[k0]));
                } else {
                    assert(d[i - 1] == rest[i]);
                }
            }
        } else {
            let t = merge_from(rest[0], d);
            assert forall|i: int| 0 <= i < d.len() implies pos_le(rest[0].start, #[trigger] d[i].start) by {
                assert(d[i] == rest[i + 1]);
                assert(range_le(rest[0], rest[i + 1]));
            }
            lemma_merge_from(rest[0], d);
            assert(ranges_separated(t));
            assert(out == seq![cur] + t);
            assert(range_within(cur, out[0]));
            assert forall|k: int| 0 <= k < out.len() - 1 implies pos_lt(#[trigger] out[k].end, out[k + 1].start)
                && pos_le(out[k].start, out[k + 1].start) by {
                if k > 0 {
                    assert(out[k] == t[k - 1] && out[k + 1] == t[k]);
                    let j = k - 1;
                    assert(0 <= j < t.len() - 1);
                    assert(pos_lt(t[j].end, t[j + 1].start) && pos_le(t[j].start, t[j + 1].start));
                } else {
                    assert(out[1] == t[0]);
                }
            }
            assert forall|i: int| 0 <= i < rest.len() implies exists|k: int|
                0 <= k < out.len() && range_within(#[trigger] rest[i], #[trigger] out[k]) by {
                if i == 0 {
                    let k1 = choose|k: int| 0 <= k < t.len() && range_within(rest[0], #[trigger] t[k]);
                    assert(out[k1 + 1] == t[k1]);
                } else {
                    assert(d[i - 1] == rest[i]);
                    let k1 = choose|k: int| 0 <= k < t.len() && range_within(d[i - 1], #[trigger] t[k]);
                    assert(out[k1 + 1] == t[k1]);
                }
            }
        }
    }
}

/// Combining ranges gives ranges in order, none of which overlap or touch the next, that
/// together cover every range that was given, and no more ranges than were given
pub proof fn lemma_combined(s: Seq<Range>)
    ensures
        ranges_separated(combined(s)),
        combined(s).len() <= s.len(),
        forall|i: int|
            0 <= i < s.len() ==> exists|k: int|
                0 <= k < combined(s).len() && range_within(#[trigger] s[i], #[trigger] combined(s)[k]),
{
    lemma_sort_ranges(s);
    let sorted = sort_ranges(s);
    if sorted.len() > 0 {
        let d = sorted.drop_first();
        assert(ranges_sorted(d)) by {
            assert forall|i: int, j: int| 0 <= i < j < d.len() implies range_le(#[trigger] d[i], #[trigger] d[j]) by {
                assert(d[i] == sorted[i + 1] && d[j] == sorted[j + 1]);
            }
        }
        assert forall|i: int| 0 <= i < d.len() implies pos_le(sorted[0].start, #[trigger] d[i].start) by {
            assert(d[i] == sorted[i + 1]);
            assert(range_le(sorted[0], sorted[i + 1]));
        }
        lemma_merge_from(sorted[0], d);
        let out = combined(s);
        assert forall|i: int| 0 <= i < s.len() implies exists|k: int|
            0 <= k < out.len() && range_within(#[trigger] s[i], #[trigger] out[k]) by {
            assert(s.contains(s[i]));
            assert(sorted.contains(s[i]));
            let m = choose|m: int| 0 <= m < sorted.len() && sorted[m] == s[i];
            if m > 0 {
                assert(d[m - 1] == s[i]);
            }
        }
    }
}

/// Inserting a range into a sorted sequence adds it to the ranges held, counted with repeats
proof fn lemma_insert_sorted_multiset(s: Seq<Range>, r: Range)
    ensures
        insert_sorted(s, r).to_multiset() =~= s.to_multiset().insert(r),
    decreases s.len(),
{
    broadcast use vstd::seq_lib::group_to_multiset_ensures, vstd::multiset::group_multiset_axioms;
    if s.len() == 0 {
        assert(seq![r] =~= s.insert(0, r));
    } else if range_le(r, s[0]) {
        assert(seq![r] + s =~= s.insert(0, r));
    } else {
        let d = s.drop_first();
        lemma_insert_sorted_multiset(d, r);
        vstd::seq_lib::lemma_multiset_commutative(seq![s[0]], insert_sorted(d, r));
        vstd::seq_lib::lemma_multiset_commutative(seq![s[0]], d);
        assert(seq![s[0]] + d =~= s);
    }
}

/// Sorting keeps the ranges held, counted with repeats
proof fn lemma_sort_ranges_multiset(s: Seq<Range>)
    ensures
        sort_ranges(s).to_multiset() =~= s.to_multiset(),
    decreases s.len(),
{
    broadcast use vstd::seq_lib::group_to_multiset_ensures, vstd::multiset::group_multiset_axioms;
    if s.len() > 0 {
        lemma_sort_ranges_multiset(s.drop_last());
        lemma_insert_sorted_multiset(sort_ranges(s.drop_last()), s.last());
        assert(s.drop_last().push(s.last()) =~= s);
    }
}

/// Two sorted sequences that hold the same ranges, counted with repeats, are the same
proof fn lemma_sorted_unique(a: Seq<Range>, b: Seq<Range>)
    requires
        ranges_sorted(a),
        ranges_sorted(b),
        a.to_multiset() =~= b.to_multiset(),
    ensures
        a == b,
    decreases a.len(),
{
    broadcast use vstd::seq_lib::group_to_multiset_ensures, vstd::multiset::group_multiset_axioms;
    assert(a.len() == a.to_multiset().len());
    assert(b.len() == b.to_multiset().len());
    if a.len() > 0 {
        assert(a.contains(a[0]));
        assert(a.to_multiset().count(a[0]) > 0);
        assert(b.to_multiset().count(a[0]) > 0);
        assert(b.contains(a[0]));
        let j = choose|j: int| 0 <= j < b.len() && b[j] == a[0];
        assert(range_le(b[0], a[0])) by {
            if j > 0 {
                assert(range_le(b[0], b[j]));
            }
        }
        assert(b.contains(b[0]));
        assert(b.to_multiset().count(b[0]) > 0);
        assert(a.to_multiset().count(b[0]) > 0);
        assert(a.contains(b[0]));
        let i = choose|i: int| 0 <= i < a.len() && a[i] == b[0];
        assert(range_le(a[0], b[0])) by {
            if i > 0 {
                assert(range_le(a[0], a[i]));
            }
        }
        assert(a[0] == b[0]);
        let da = a.drop_first();
        let db = b.drop_first();
        assert(da =~= a.remove(0));
        assert(db =~= b.remove(0));
        assert(da.to_multiset() =~= db.to_multiset());
        assert(ranges_sorted(da)) by {
            assert forall|x: int, y: int| 0 <= x < y < da.len() implies range_le(#[trigger] da[x], #[trigger] da[y]) by {
                assert(da[x] == a[x + 1] && da[y] == a[y + 1]);
            }
        }
        assert(ranges_sorted(db)) by {
            assert forall|x: int, y: int| 0 <= x < y < db.len() implies range_le(#[trigger] db[x], #[trigger] db[y]) by {
                assert(db[x] == b[x + 1] && db[y] == b[y + 1]);
            }
        }
        lemma_sorted_unique(da, db);
        assert(a =~= seq![a[0]] + da);
        assert(b =~= seq![b[0]] + db);
    } else {
        assert(a =~= b);
    }
}

/// Combining ranges does not depend on the order they are given in: two sequences holding the
/// same ranges, each as many times, combine to the same ranges
pub proof fn lemma_combine_ranges_order(s1: Seq<Range>, s2: Seq<Range>)
    requires
        s1.to_multiset() =~= s2.to_multiset(),
    ensures
        combined(s1) == combined(s2),
{
    lemma_sort_ranges(s1);
    lemma_sort_ranges(s2);
    lemma_sort_ranges_multiset(s1);
    lemma_sort_ranges_multiset(s2);
    lemma_sorted_unique(sort_ranges(s1), sort_ranges(s2));
}

fn pos_lt_exec(a: Position, b: Position) -> (r: bool)
    ensures
        r == pos_lt(a, b),
{
    a.line < b.line || (a.line == b.line && a.col < b.col)
}

fn pos_le_exec(a: Position, b: Position) -> (r: bool)
    ensures
        r == pos_le(a, b),
{
    a.line < b.line || (a.line == b.line && a.col <= b.col)
}

fn range_le_exec(a: Range, b: Range) -> (r: bool)
    ensures
        r == range_le(a, b),
{
    pos_lt_exec(a.start, b.start) || (a.start == b.start && pos_le_exec(a.end, b.end))
}

/// Inserting before the first range that `r` is ordered before
proof fn lemma_insert_sorted_at(s: Seq<Range>, r: Range, k: int)
    requires
        0 <= k <= s.len(),
        forall|j: int| 0 <= j < k ==> !range_le(r, #[trigger] s[j]),
        k < s.len() ==> range_le(r, s[k]),
    ensures
        insert_sorted(s, r) == s.take(k) + seq![r] + s.skip(k),
    decreases s.len(),
{
    if s.len() == 0 {
    } else if k == 0 {
        assert(s.take(0) + seq![r] + s.skip(0) == seq![r] + s);
    } else {
        lemma_insert_sorted_at(s.drop_first(), r, k - 1);
        assert(seq![s[0]] + (s.drop_first().take(k - 1) + seq![r] + s.drop_first().skip(k - 1))
            == s.take(k) + seq![r] + s.skip(k));
    }
}

/// Sorts the ranges by insertion
fn sort_range_vec(v: Vec<Range>) -> (out: Vec<Range>)
    ensures
        out@ == sort_ranges(v@),
{
    let mut out: Vec<Range> = Vec::new();
    let mut i: usize = 0;
    while i < v.len()
        invariant
            i <= v@.len(),
            out@ == sort_ranges(v@.take(i as int)),
        decreases v.len() - i,
    {
        let r = v[i];
        let mut k: usize = 0;
        while k < out.len() && !range_le_exec(r, out[k])
            invariant
                k <= out@.len(),
                forall|j: int| 0 <= j < k ==> !range_le(r, #[trigger] out@[j]),
            decreases out.len() - k,
        {
            k = k + 1;
        }
        proof {
            lemma_insert_sorted_at(out@, r, k as int);
            assert(v@.take(i + 1).drop_last() == v@.take(i as int));
        }
        let ghost before = out@;
        out.insert(k, r);
        assert(out@ =~= before.take(k as int) + seq![r] + before.skip(k as int));
        i = i + 1;
    }
    assert(v@.take(v@.len() as int) == v@);
    out
}

impl Position {
    /// Creates a position from a line number, and a character number
    pub fn new(line: u32, col: u32) -> (r: Self)
        ensures
            r.line == line,
            r.col == col,
    {
        Self { line, col }
    }
}

impl Range {
    /// Creates a range from starting and ending line and column
    pub fn new(start_line: u32, start_col: u32, end_line: u32, end_col: u32) -> (r: Self)
        ensures
            r.start == (Position { line: start_line, col: start_col }),
            r.end == (Position { line: end_line, col: end_col }),
    {
        Self {
            start: Position { line: start_line, col: start_col },
            end: Position { line: end_line, col: end_col },
        }
    }

    /// Creates a Range with the end set to the same as the start of the current range
    pub fn to_start(&self) -> (r: Self)
        ensures
            r.start == self.start,
            r.end == self.start,
    {
        Self { start: self.start, end: self.start }
    }

    /// Creates a Range with the start set to the same as the end of the current range
    pub fn to_end(&self) -> (r: Self)
        ensures
            r.start == self.end,
            r.end == self.end,
    {
        Self { start: self.end, end: self.end }
    }

    /// The smallest range that contains both `self` and `rhs`
    pub fn add(self, rhs: Self) -> (r: Self)
        ensures
            r == range_hull(self, rhs),
    {
        let start = if pos_le_exec(self.start, rhs.start) { self.start } else { rhs.start };
        let end = if pos_le_exec(self.end, rhs.end) { rhs.end } else { self.end };
        Self { start, end }
    }

    /// Combines overlapping ranges into one range, creating a sorted set of non-overlapping ranges as output
    pub fn combine_ranges(ranges: Vec<Range>) -> (r: Vec<Range>)
        ensures
            r@ == combined(ranges@),
            ranges_separated(r@),
            r@.len() <= ranges@.len(),
            forall|i: int|
                0 <= i < ranges@.len() ==> exists|k: int|
                    0 <= k < r@.len() && range_within(#[trigger] ranges@[i], #[trigger] r@[k]),
    {
        proof {
            lemma_combined(ranges@);
        }
        if ranges.len() == 0 {
            return Vec::new();
        }
        let sorted = sort_range_vec(ranges);
        let mut ret_ranges: Vec<Range> = Vec::new();
        let mut curr_range = sorted[0];
        let mut i: usize = 1;
        assert(sorted@.drop_first() == sorted@.subrange(1, sorted@.len() as int));
        while i < sorted.len()
            invariant
                1 <= i <= sorted@.len(),
                combined(ranges@) == ret_ranges@ + merge_from(
                    curr_range,
                    sorted@.subrange(i as int, sorted@.len() as int),
                ),
            decreases sorted.len() - i,
        {
            let range = sorted[i];
            let ghost rest = sorted@.subrange(i as int, sorted@.len() as int);
            assert(rest.drop_first() == sorted@.subrange(i + 1, sorted@.len() as int));
            if pos_le_exec(range.start, curr_range.end) {
                curr_range = curr_range.add(range);
            } else {
                let ghost before = ret_ranges@;
                ret_ranges.push(curr_range);
                assert(before + (seq![curr_range] + merge_from(range, rest.drop_first()))
                    == ret_ranges@ + merge_from(range, rest.drop_first()));
                curr_range = range;
            }
            i = i + 1;
        }
        ret_ranges.push(curr_range);
        assert(sorted@.subrange(sorted@.len() as int, sorted@.len() as int).len() == 0);
        assert(ret_ranges@ == combined(ranges@));
        proof {
            lemma_combined(ranges@);
        }
        assert(ranges_separated(ret_ranges@));
        ret_ranges
    }
}

} // verus!

verus! {

/// The view of an optional value
pub open spec fn opt_view<T: View>(o: Option<T>) -> Option<T::V> {
    match o {
        Some(x) => Some(x@),
        None => None,
    }
}

} // verus!

verus! {

impl<T> Ranged<T> {
    /// Creates a wrapper over the inner item with the range provided
    pub fn new(inner: T, range: Range) -> (r: Self)
        ensures
            r.inner == inner,
            r.range == range,
    {
        Ranged { inner, range }
    }

    /// Get the range the `inner` spans
    pub fn get_range(&self) -> (r: Range)
        ensures
            r == self.range,
    {
        self.range
    }

    /// Map a `Ranged<T>` to a `Ranged<U>` using the passed function
    pub fn map<U, F: FnOnce(T) -> U>(self, f: F) -> (r: Ranged<U>)
        requires
            f.requires((self.inner,)),
        ensures
            f.ensures((self.inner,), r.inner),
            r.range == self.range,
    {
        Ranged { inner: f(self.inner), range: self.range }
    }

    /// The wrapped value
    pub fn as_ref(&self) -> (r: &T)
        ensures
            *r == self.inner,
    {
        &self.inner
    }

    /// The wrapped value, to be changed in place; the range stays as it was
    pub fn as_mut(&mut self) -> (r: &mut T)
        ensures
            *r == old(self).inner,
            final(self).inner == *final(r),
            final(self).range == old(self).range,
    {
        &mut self.inner
    }
}

} // verus!

verus! {

/// How a range is written: `[l, c] to [l, c]` when it spans lines, `l:c-c` when it does not
pub open spec fn range_text(r: Range) -> Seq<char> {
    if r.end.line > r.start.line {
        seq!['['] + crate::text::nat_text(r.start.line as nat) + seq![',', ' '] + crate::text::nat_text(
            r.start.col as nat,
        ) + "] to ["@ + crate::text::nat_text(r.end.line as nat) + seq![',', ' '] + crate::text::nat_text(
            r.end.col as nat,
        ) + seq![']']
    } else {
        crate::text::nat_text(r.start.line as nat) + seq![':'] + crate::text::nat_text(r.start.col as nat)
            + seq!['-'] + crate::text::nat_text(r.end.col as nat)
    }
}

impl Range {
    /// How the range is written. Its end must not be on a line before its start.
    pub fn to_string(&self) -> (r: String)
        requires
            self.start.line <= self.end.line,
        ensures
            r@ == range_text(*self),
    {
        let mut r = String::new();
        if self.end.line - self.start.line > 0 {
            crate::text::push_char(&mut r, '[');
            crate::text::push_nat(&mut r, self.start.line as u64);
            crate::text::push_char(&mut r, ',');
            crate::text::push_char(&mut r, ' ');
            crate::text::push_nat(&mut r, self.start.col as u64);
            r.append("] to [");
            crate::text::push_nat(&mut r, self.end.line as u64);
            crate::text::push_char(&mut r, ',');
            crate::text::push_char(&mut r, ' ');
            crate::text::push_nat(&mut r, self.end.col as u64);
            crate::text::push_char(&mut r, ']');
        } else {
            crate::text::push_nat(&mut r, self.start.line as u64);
            crate::text::push_char(&mut r, ':');
            crate::text::push_nat(&mut r, self.start.col as u64);
            crate::text::push_char(&mut r, '-');
            crate::text::push_nat(&mut r, self.end.col as u64);
        }
        assert(r@ =~= range_text(*self));
        r
    }
}

} // verus!

verus! {

impl Position {
    /// The position counted from zero, as editors count: one line and one column less. The
    /// position must not be before the first line or the first column.
    pub fn to_zero_based(&self) -> (r: (u32, u32))
        requires
            self.line >= 1,
            self.col >= 1,
        ensures
            r.0 == self.line - 1,
            r.1 == self.col - 1,
    {
        (self.line - 1, self.col - 1)
    }
}

} // verus!
