//! The diff engine: a positional, line-oriented comparison of two strings.
//!
//! Lines are paired strictly by index, up to the length of the shorter line
//! sequence; trailing lines of the longer input are not compared at all. This
//! is deliberate: it is cheap, deterministic, and sufficient when mismatches
//! are localized line rewrites rather than insertions or deletions.

use vstd::prelude::*;
use vstd::string::StrSliceExecFns;

verus! {

/// One compared line position: either the two lines were equal, or they
/// changed from the left (golden) text to the right (received) text.
#[derive(Debug, Clone, PartialEq, Eq)]
pub enum Line {
    Changed(String, String),
    Equal(String),
}

/// The result of comparing two strings: byte-for-byte identical, or a
/// sequence of positionally paired lines.
#[derive(Debug, Clone, PartialEq, Eq)]
pub enum Diff {
    Lines(Vec<Line>),
    Same,
}

/// The lines of `s`, split as `str::lines` splits: at every `'\n'`, with a
/// `'\r'` immediately before the `'\n'` dropped, and with no empty final line
/// for a trailing newline.
pub open spec fn lines_of(s: Seq<char>) -> Seq<Seq<char>>
    decreases s.len(),
{
    if s.len() == 0 {
        Seq::empty()
    } else if s[0] == '\n' {
        seq![Seq::<char>::empty()] + lines_of(s.skip(1))
    } else if s[0] == '\r' && s.len() >= 2 && s[1] == '\n' {
        seq![Seq::<char>::empty()] + lines_of(s.skip(2))
    } else {
        let rest = lines_of(s.skip(1));
        if rest.len() == 0 {
            seq![seq![s[0]]]
        } else {
            seq![seq![s[0]] + rest[0]] + rest.skip(1)
        }
    }
}

/// `l` records the comparison of golden line `a` against received line `b`.
pub open spec fn line_matches(l: Line, a: Seq<char>, b: Seq<char>) -> bool {
    match l {
        Line::Equal(t) => a == b && t@ == a,
        Line::Changed(x, y) => a != b && x@ == a && y@ == b,
    }
}

/// `d` records the comparison of golden text `a` against received text `b`:
/// `Same` exactly when the texts are identical, otherwise one [`Line`] per
/// position up to the shorter line count.
pub open spec fn diff_matches(d: Diff, a: Seq<char>, b: Seq<char>) -> bool {
    match d {
        Diff::Same => a == b,
        Diff::Lines(v) => {
            &&& a != b
            &&& v@.len() == vstd::math::min(lines_of(a).len() as int, lines_of(b).len() as int)
            &&& forall|i: int|
                0 <= i < v@.len() ==> line_matches(#[trigger] v@[i], lines_of(a)[i], lines_of(b)[i])
        },
    }
}

/// Whether two string slices hold the same characters.
pub(crate) fn str_eq(a: &str, b: &str) -> (r: bool)
    ensures
        r == (a@ == b@),
{
    let sa = a.to_owned();
    let sb = b.to_owned();
    sa == sb
}

impl Line {
    /// Pair the golden line `left` with the received line `right`.
    pub fn new(left: &str, right: &str) -> (r: Line)
        ensures
            line_matches(r, left@, right@),
    {
        if str_eq(left, right) {
            Line::Equal(left.to_owned())
        } else {
            Line::Changed(left.to_owned(), right.to_owned())
        }
    }
}

/// The first line of `s`, whose first newline stands at `i`: the prefix up to
/// `i`, less a carriage return directly before the newline.
pub open spec fn line_content(s: Seq<char>, i: int) -> Seq<char> {
    if i > 0 && s[i - 1] == '\r' {
        s.subrange(0, i - 1)
    } else {
        s.subrange(0, i)
    }
}

/// A nonempty string without newlines is a single line.
proof fn lemma_lines_no_newline(s: Seq<char>)
    requires
        s.len() > 0,
        forall|j: int| 0 <= j < s.len() ==> s[j] != '\n',
    ensures
        lines_of(s) == seq![s],
    decreases s.len(),
{
    if s.len() == 1 {
        assert(s.skip(1).len() == 0);
        assert(lines_of(s.skip(1)) =~= Seq::<Seq<char>>::empty());
        assert(seq![s[0]] =~= s);
        assert(lines_of(s) =~~= seq![s]);
    } else {
        lemma_lines_no_newline(s.skip(1));
        assert(seq![s[0]] + s.skip(1) =~= s);
        assert(lines_of(s) =~~= seq![s]);
    }
}

/// Splitting at the first newline: the first line at the front, then the
/// lines of what follows the newline.
proof fn lemma_lines_split_at_first(s: Seq<char>, i: int)
    requires
        0 <= i < s.len(),
        s[i] == '\n',
        forall|j: int| 0 <= j < i ==> s[j] != '\n',
    ensures
        lines_of(s) == seq![line_content(s, i)] + lines_of(s.skip(i + 1)),
    decreases i,
{
    if i == 0 {
        assert(line_content(s, 0) =~= Seq::<char>::empty());
        assert(lines_of(s) =~~= seq![line_content(s, 0)] + lines_of(s.skip(1)));
    } else if i == 1 && s[0] == '\r' {
        assert(line_content(s, 1) =~= Seq::<char>::empty());
        assert(lines_of(s) =~~= seq![line_content(s, 1)] + lines_of(s.skip(2)));
    } else {
        let t = s.skip(1);
        assert(t[i - 1] == '\n');
        assert(forall|j: int| 0 <= j < i - 1 ==> #[trigger] t[j] != '\n');
        lemma_lines_split_at_first(t, i - 1);
        assert(t.skip(i) =~= s.skip(i + 1));
        assert(s[0] != '\n');
        assert(!(s[0] == '\r' && s.len() >= 2 && s[1] == '\n'));
        assert(seq![s[0]] + line_content(t, i - 1) =~= line_content(s, i));
        assert(lines_of(s) =~~= seq![line_content(s, i)] + lines_of(s.skip(i + 1)));
    }
}

/// Split `s` into its lines, as [`lines_of`] describes them.
pub fn split_lines(s: &str) -> (r: Vec<String>)
    ensures
        r.deep_view() == lines_of(s@),
{
    let n = s.unicode_len();
    let mut r: Vec<String> = Vec::new();
    let mut start: usize = 0;
    let mut i: usize = 0;
    proof {
        assert(s@.skip(0) =~= s@);
        assert(r.deep_view() =~~= Seq::<Seq<char>>::empty());
        assert(lines_of(s@) =~~= r.deep_view() + lines_of(s@.skip(0)));
    }
    while i < n
        invariant
            n == s@.len(),
            start <= i <= n,
            forall|j: int| start <= j < i ==> s@[j] != '\n',
            lines_of(s@) == r.deep_view() + lines_of(s@.skip(start as int)),
        decreases n - i,
    {
        let c = s.get_char(i);
        if c == '\n' {
            let end = if i > start && s.get_char(i - 1) == '\r' {
                i - 1
            } else {
                i
            };
            let line = s.substring_char(start, end).to_owned();
            let ghost pre = r.deep_view();
            proof {
                let tail = s@.skip(start as int);
                lemma_lines_split_at_first(tail, i - start);
                assert(tail.skip(i - start + 1) =~= s@.skip(i + 1));
                assert(line_content(tail, i - start) =~= s@.subrange(start as int, end as int));
                assert(lines_of(s@) =~~= pre.push(line@) + lines_of(s@.skip(i + 1)));
            }
            r.push(line);
            proof {
                assert(r.deep_view() =~~= pre.push(line@));
            }
            start = i + 1;
        }
        i = i + 1;
    }
    if start < n {
        let line = s.substring_char(start, n).to_owned();
        let ghost pre = r.deep_view();
        proof {
            lemma_lines_no_newline(s@.skip(start as int));
            assert(s@.skip(start as int) =~= s@.subrange(start as int, n as int));
            assert(lines_of(s@) =~~= pre.push(line@));
        }
        r.push(line);
        proof {
            assert(r.deep_view() =~~= pre.push(line@));
        }
    } else {
        proof {
            assert(s@.skip(start as int).len() == 0);
            assert(lines_of(s@) =~~= r.deep_view());
        }
    }
    r
}

/// Comparing any text against itself yields `Same`, and never a line list.
pub proof fn law_diff_self(d: Diff, a: Seq<char>)
    requires
        diff_matches(d, a, a),
    ensures
        d is Same,
{
}

/// When both texts split into the same number of lines, a comparison that is
/// not `Same` yields exactly that many lines, each `Equal` where the paired
/// lines agree and `Changed` where they differ.
pub proof fn law_diff_equal_counts(d: Diff, a: Seq<char>, b: Seq<char>)
    requires
        diff_matches(d, a, b),
        a != b,
        lines_of(a).len() == lines_of(b).len(),
    ensures
        d matches Diff::Lines(v) && v@.len() == lines_of(a).len() && forall|i: int|
            0 <= i < v@.len() ==> line_matches(#[trigger] v@[i], lines_of(a)[i], lines_of(b)[i]),
{
}

impl Diff {
    /// Compare the golden text `left` against the received text `right`:
    /// `Same` when they are identical, otherwise the lines paired by
    /// position up to the shorter line count.
    pub fn new(left: &str, right: &str) -> (r: Diff)
        ensures
            diff_matches(r, left@, right@),
    {
        if str_eq(left, right) {
            return Diff::Same;
        }
        let lv = split_lines(left);
        let rv = split_lines(right);
        let n = if lv.len() <= rv.len() {
            lv.len()
        } else {
            rv.len()
        };
        let mut lines: Vec<Line> = Vec::new();
        let mut i: usize = 0;
        while i < n
            invariant
                lv.deep_view() == lines_of(left@),
                rv.deep_view() == lines_of(right@),
                n == vstd::math::min(lv@.len() as int, rv@.len() as int),
                i <= n,
                lines@.len() == i,
                forall|k: int|
                    0 <= k < i ==> line_matches(
                        #[trigger] lines@[k],
                        lines_of(left@)[k],
                        lines_of(right@)[k],
                    ),
            decreases n - i,
        {
            let l = Line::new(lv[i].as_str(), rv[i].as_str());
            lines.push(l);
            i = i + 1;
        }
        Diff::Lines(lines)
    }
}

} // verus!
