//! Meta information about a test and its result, and the rendering of that
//! result as a human-readable block of text.
//!
//! Decoration (color, emphasis) is an opaque capability supplied by the
//! environment: each decorated role of the output is a [`Style`], a pair of
//! strings laid before and after a fragment. With the plain palette the
//! renderer degrades gracefully to undecorated text.

use vstd::prelude::*;
use vstd::string::StringExecFns;

use crate::diff::Diff;
use crate::diff::Line;
use crate::diff::lines_of;
use crate::test::Outcome;
use crate::test::Test;
use crate::test::basename_of;
use crate::test::dirname_of;

verus! {

/// One text decoration: `pre` is laid before a fragment, `post` after it.
#[derive(Debug, Clone)]
pub struct Style {
    pub pre: String,
    pub post: String,
}

/// The fragment `s` under the decoration `st`.
pub open spec fn styled(st: Style, s: Seq<char>) -> Seq<char> {
    st.pre@ + s + st.post@
}

/// A decoration that leaves text untouched.
pub open spec fn plain_style(st: Style) -> bool {
    st.pre@.len() == 0 && st.post@.len() == 0
}

impl Style {
    /// The empty decoration.
    pub fn none() -> (r: Style)
        ensures
            plain_style(r),
    {
        Style { pre: String::new(), post: String::new() }
    }

    /// The decoration that lays `pre` before a fragment and `post` after it.
    pub fn wrap(pre: &str, post: &str) -> (r: Style)
        ensures
            r.pre@ == pre@,
            r.post@ == post@,
    {
        Style { pre: pre.to_owned(), post: post.to_owned() }
    }
}

/// The decorations of every role the report output uses.
#[derive(Debug, Clone)]
pub struct Palette {
    pub failed: Style,
    pub passed: Style,
    pub dim: Style,
    pub removed: Style,
    pub added: Style,
    pub keyword: Style,
    pub ident: Style,
}

impl Palette {
    /// Every role undecorated.
    pub open spec fn is_plain(self) -> bool {
        plain_style(self.failed) && plain_style(self.passed) && plain_style(self.dim)
            && plain_style(self.removed) && plain_style(self.added) && plain_style(self.keyword)
            && plain_style(self.ident)
    }

    /// The palette without any decoration: plain text everywhere.
    pub fn plain() -> (r: Palette)
        ensures
            r.is_plain(),
    {
        Palette {
            failed: Style::none(),
            passed: Style::none(),
            dim: Style::none(),
            removed: Style::none(),
            added: Style::none(),
            keyword: Style::none(),
            ident: Style::none(),
        }
    }
}

/// The heading line: a banner label, the fully qualified test name, and the
/// declaring file location with directory and file name separated.
pub open spec fn heading_text(t: Test, banner: Style, dim: Style, label: Seq<char>) -> Seq<char> {
    "  "@ + styled(banner, label) + " "@ + styled(dim, t.path@ + "::"@) + t.name@ + " "@ + styled(
        dim,
        "("@ + dirname_of(t.file@) + "/"@,
    ) + basename_of(t.file@) + styled(dim, ")"@) + "\n"@
}

/// The legend naming the two sides of the diff.
pub open spec fn legend_text(p: Palette) -> Seq<char> {
    "\n"@ + "  "@ + styled(p.removed, "- Snapshot"@) + "\n"@ + "  "@ + styled(
        p.added,
        "+ Received"@,
    ) + "\n"@ + "\n"@
}

/// The pseudo-signature line of the test under report.
pub open spec fn signature_text(t: Test, p: Palette) -> Seq<char> {
    "    "@ + styled(p.keyword, "fn"@) + " "@ + styled(p.ident, t.name@) + "() -> "@ + styled(
        p.keyword,
        t.ret@,
    ) + " {"@ + "\n"@ + "\n"@
}

/// One compared position: an equal line dimmed behind a blank margin, or the
/// golden line marked `-` directly above the received line marked `+`.
pub open spec fn position_text(a: Seq<char>, b: Seq<char>, p: Palette) -> Seq<char> {
    if a == b {
        "        "@ + styled(p.dim, a) + "\n"@
    } else {
        "  "@ + styled(p.removed, "-"@) + "     "@ + styled(p.removed, a) + "\n"@ + "  "@ + styled(
            p.added,
            "+"@,
        ) + "     "@ + styled(p.added, b) + "\n"@
    }
}

/// The first `n` compared positions, in order.
pub open spec fn positions_text(
    la: Seq<Seq<char>>,
    lb: Seq<Seq<char>>,
    p: Palette,
    n: int,
) -> Seq<char>
    decreases n,
{
    if n <= 0 {
        Seq::empty()
    } else {
        positions_text(la, lb, p, n - 1) + position_text(la[n - 1], lb[n - 1], p)
    }
}

/// The rendered diff body: nothing when the texts agree, otherwise every
/// position up to the shorter line count.
pub open spec fn body_text(g: Seq<char>, rcv: Seq<char>, p: Palette) -> Seq<char> {
    if g == rcv {
        Seq::empty()
    } else {
        positions_text(
            lines_of(g),
            lines_of(rcv),
            p,
            vstd::math::min(lines_of(g).len() as int, lines_of(rcv).len() as int),
        )
    }
}

/// The whole failure block: heading, legend, signature, diff body, and the
/// closing brace.
pub open spec fn failure_text(t: Test, g: Seq<char>, rcv: Seq<char>, p: Palette) -> Seq<char> {
    heading_text(t, p.failed, p.dim, "  FAILED  "@) + legend_text(p) + signature_text(t, p)
        + body_text(g, rcv, p) + "\n"@ + "    }"@ + "\n"@
}

/// The success block: the heading line alone.
pub open spec fn success_text(t: Test, p: Palette) -> Seq<char> {
    heading_text(t, p.passed, p.dim, "  PASSED  "@)
}

/// The whole report: padding around the success or failure block.
pub open spec fn report_text(rep: Report, p: Palette) -> Seq<char> {
    "\n"@ + "\n"@ + "\n"@ + (match rep.outcome {
        Outcome::Success => success_text(rep.test, p),
        Outcome::Failure(g, rcv) => failure_text(rep.test, g@, rcv@, p),
    }) + "\n"@ + "\n"@
}

/// Lay `part` under the decoration `st` at the end of `out`.
fn append_styled(out: &mut String, st: &Style, part: &str)
    ensures
        final(out)@ == old(out)@ + styled(*st, part@),
{
    out.append(st.pre.as_str());
    out.append(part);
    out.append(st.post.as_str());
    proof {
        assert(out@ =~= old(out)@ + styled(*st, part@));
    }
}

/// Lay the heading line for `t` under the banner `banner` at the end of `out`.
fn append_heading(out: &mut String, t: &Test, banner: &Style, dim: &Style, label: &str)
    ensures
        final(out)@ == old(out)@ + heading_text(*t, *banner, *dim, label@),
{
    out.append("  ");
    append_styled(out, banner, label);
    out.append(" ");
    out.append(dim.pre.as_str());
    out.append(t.path.as_str());
    out.append("::");
    out.append(dim.post.as_str());
    out.append(t.name.as_str());
    out.append(" ");
    out.append(dim.pre.as_str());
    out.append("(");
    let d = t.dirname();
    out.append(d.as_str());
    out.append("/");
    out.append(dim.post.as_str());
    let b = t.basename();
    out.append(b.as_str());
    append_styled(out, dim, ")");
    out.append("\n");
    proof {
        assert(out@ =~= old(out)@ + heading_text(*t, *banner, *dim, label@));
    }
}

/// Where the rendering of compared position `i` begins inside the failure
/// text: after the heading, the legend and the signature, and after the
/// positions before it.
pub open spec fn position_offset(t: Test, g: Seq<char>, rcv: Seq<char>, p: Palette, i: int) -> int {
    (heading_text(t, p.failed, p.dim, "  FAILED  "@) + legend_text(p) + signature_text(t, p)).len()
        as int + positions_text(lines_of(g), lines_of(rcv), p, i).len() as int
}

proof fn lemma_positions_text_at(la: Seq<Seq<char>>, lb: Seq<Seq<char>>, p: Palette, i: int, n: int)
    requires
        0 <= i < n,
    ensures
        ({
            let piece = position_text(la[i], lb[i], p);
            let off = positions_text(la, lb, p, i).len() as int;
            &&& off + piece.len() <= positions_text(la, lb, p, n).len()
            &&& positions_text(la, lb, p, n).subrange(off, off + piece.len() as int) == piece
        }),
    decreases n,
{
    let piece = position_text(la[i], lb[i], p);
    let off = positions_text(la, lb, p, i).len() as int;
    if n == i + 1 {
        assert(positions_text(la, lb, p, n).subrange(off, off + piece.len() as int) =~= piece);
    } else {
        lemma_positions_text_at(la, lb, p, i, n - 1);
        assert(positions_text(la, lb, p, n).subrange(off, off + piece.len() as int)
            =~= positions_text(la, lb, p, n - 1).subrange(off, off + piece.len() as int));
    }
}

/// A changed position lays the `-`-marked golden line directly before the
/// `+`-marked received line, with nothing between them.
pub proof fn law_changed_position_layout(a: Seq<char>, b: Seq<char>, p: Palette)
    requires
        a != b,
    ensures
        position_text(a, b, p) == ("  "@ + styled(p.removed, "-"@) + "     "@ + styled(p.removed, a)
            + "\n"@) + ("  "@ + styled(p.added, "+"@) + "     "@ + styled(p.added, b) + "\n"@),
{
    assert(position_text(a, b, p) =~= ("  "@ + styled(p.removed, "-"@) + "     "@ + styled(
        p.removed,
        a,
    ) + "\n"@) + ("  "@ + styled(p.added, "+"@) + "     "@ + styled(p.added, b) + "\n"@));
}

/// Within a failure report the compared positions are rendered in index
/// order, after the legend and the signature: position `i`'s text stands
/// exactly at `position_offset(..., i)`, and position `i + 1` begins exactly
/// where position `i` ends.
pub proof fn law_failure_text_positions_in_order(
    t: Test,
    g: Seq<char>,
    rcv: Seq<char>,
    p: Palette,
    i: int,
)
    requires
        g != rcv,
        0 <= i < vstd::math::min(lines_of(g).len() as int, lines_of(rcv).len() as int),
    ensures
        ({
            let piece = position_text(lines_of(g)[i], lines_of(rcv)[i], p);
            let o = position_offset(t, g, rcv, p, i);
            &&& (heading_text(t, p.failed, p.dim, "  FAILED  "@) + legend_text(p) + signature_text(
                t,
                p,
            )).len() <= o
            &&& o + piece.len() <= failure_text(t, g, rcv, p).len()
            &&& failure_text(t, g, rcv, p).subrange(o, o + piece.len() as int) == piece
            &&& position_offset(t, g, rcv, p, i + 1) == o + piece.len()
        }),
{
    let la = lines_of(g);
    let lb = lines_of(rcv);
    let n = vstd::math::min(la.len() as int, lb.len() as int);
    let pre = heading_text(t, p.failed, p.dim, "  FAILED  "@) + legend_text(p) + signature_text(
        t,
        p,
    );
    let body = positions_text(la, lb, p, n);
    let piece = position_text(la[i], lb[i], p);
    let off = positions_text(la, lb, p, i).len() as int;
    lemma_positions_text_at(la, lb, p, i, n);
    assert(failure_text(t, g, rcv, p).subrange(pre.len() + off, pre.len() + off + piece.len() as int)
        =~= body.subrange(off, off + piece.len() as int));
}

/// The text of one rendered [`Line`] of the diff.
pub open spec fn line_text(l: Line, p: Palette) -> Seq<char> {
    match l {
        Line::Equal(t) => "        "@ + styled(p.dim, t@) + "\n"@,
        Line::Changed(a, b) => "  "@ + styled(p.removed, "-"@) + "     "@ + styled(p.removed, a@)
            + "\n"@ + "  "@ + styled(p.added, "+"@) + "     "@ + styled(p.added, b@) + "\n"@,
    }
}

/// Lay the legend at the end of `out`.
fn append_legend(out: &mut String, p: &Palette)
    ensures
        final(out)@ == old(out)@ + legend_text(*p),
{
    out.append("\n");
    out.append("  ");
    append_styled(out, &p.removed, "- Snapshot");
    out.append("\n");
    out.append("  ");
    append_styled(out, &p.added, "+ Received");
    out.append("\n");
    out.append("\n");
    proof {
        assert(out@ =~= old(out)@ + legend_text(*p));
    }
}

/// Lay the pseudo-signature line at the end of `out`.
fn append_signature(out: &mut String, t: &Test, p: &Palette)
    ensures
        final(out)@ == old(out)@ + signature_text(*t, *p),
{
    out.append("    ");
    append_styled(out, &p.keyword, "fn");
    out.append(" ");
    append_styled(out, &p.ident, t.name.as_str());
    out.append("() -> ");
    append_styled(out, &p.keyword, t.ret.as_str());
    out.append(" {");
    out.append("\n");
    out.append("\n");
    proof {
        assert(out@ =~= old(out)@ + signature_text(*t, *p));
    }
}

/// Lay one rendered diff line at the end of `out`.
fn append_line(out: &mut String, li: &Line, p: &Palette)
    ensures
        final(out)@ == old(out)@ + line_text(*li, *p),
{
    match li {
        Line::Equal(t) => {
            out.append("        ");
            append_styled(out, &p.dim, t.as_str());
            out.append("\n");
        },
        Line::Changed(a, b) => {
            out.append("  ");
            append_styled(out, &p.removed, "-");
            out.append("     ");
            append_styled(out, &p.removed, a.as_str());
            out.append("\n");
            out.append("  ");
            append_styled(out, &p.added, "+");
            out.append("     ");
            append_styled(out, &p.added, b.as_str());
            out.append("\n");
        },
    }
    proof {
        assert(out@ =~= old(out)@ + line_text(*li, *p));
    }
}

/// Meta information about a test and test result.
#[derive(Debug)]
pub struct Report {
    pub test: Test,
    pub outcome: Outcome,
}

impl Report {
    /// Pair a test with the outcome of its run.
    pub fn new(test: Test, outcome: Outcome) -> (r: Report)
        ensures
            r.test == test,
            r.outcome == outcome,
    {
        Report { test, outcome }
    }

    /// The outcome of the run this report describes.
    pub fn outcome(&self) -> (r: &Outcome)
        ensures
            r == self.outcome,
    {
        &self.outcome
    }

    /// The success block for this report's test.
    pub fn display_success(&self, palette: &Palette) -> (r: String)
        ensures
            r@ == success_text(self.test, *palette),
    {
        let mut out = String::new();
        append_heading(&mut out, &self.test, &palette.passed, &palette.dim, "  PASSED  ");
        proof {
            assert(out@ =~= success_text(self.test, *palette));
        }
        out
    }

    /// The failure block for this report's test: heading, legend, the
    /// pseudo-signature, one rendered line per compared position, and the
    /// closing brace.
    pub fn display_failure(&self, palette: &Palette) -> (r: String)
        requires
            self.outcome is Failure,
        ensures
            self.outcome matches Outcome::Failure(g, rcv) ==> r@ == failure_text(
                self.test,
                g@,
                rcv@,
                *palette,
            ),
    {
        let ghost gv = (self.outcome->Failure_0)@;
        let ghost rv = (self.outcome->Failure_1)@;
        let mut out = String::new();
        append_heading(&mut out, &self.test, &palette.failed, &palette.dim, "  FAILED  ");
        append_legend(&mut out, palette);
        append_signature(&mut out, &self.test, palette);
        proof {
            assert(out@ =~= heading_text(self.test, palette.failed, palette.dim, "  FAILED  "@)
                + legend_text(*palette) + signature_text(self.test, *palette));
        }
        let ghost prefix = out@;
        let d = self.outcome.diff();
        match d {
            Diff::Lines(v) => {
                let ghost la = lines_of(gv);
                let ghost lb = lines_of(rv);
                let n = v.len();
                let mut i: usize = 0;
                while i < n
                    invariant
                        i <= n,
                        n == v@.len(),
                        v@.len() == vstd::math::min(la.len() as int, lb.len() as int),
                        forall|k: int|
                            0 <= k < v@.len() ==> crate::diff::line_matches(
                                #[trigger] v@[k],
                                la[k],
                                lb[k],
                            ),
                        la == lines_of(gv),
                        lb == lines_of(rv),
                        out@ == prefix + positions_text(la, lb, *palette, i as int),
                    decreases n - i,
                {
                    let li = &v[i];
                    let ghost pre_out = out@;
                    append_line(&mut out, li, palette);
                    proof {
                        assert(line_text(v@[i as int], *palette) == position_text(
                            la[i as int],
                            lb[i as int],
                            *palette,
                        ));
                        assert(out@ =~= prefix + positions_text(la, lb, *palette, i + 1));
                    }
                    i = i + 1;
                }
                proof {
                    assert(gv != rv);
                    assert(out@ =~= prefix + body_text(gv, rv, *palette));
                }
            },
            Diff::Same => {
                proof {
                    assert(gv == rv);
                    assert(out@ =~= prefix + body_text(gv, rv, *palette));
                }
            },
        }
        out.append("\n");
        out.append("    }");
        out.append("\n");
        proof {
            assert(out@ =~= failure_text(self.test, gv, rv, *palette));
        }
        out
    }

    /// The whole report as text: padding, then the success or failure block.
    pub fn render(&self, palette: &Palette) -> (r: String)
        ensures
            r@ == report_text(*self, *palette),
    {
        let mut out = String::new();
        out.append("\n");
        out.append("\n");
        out.append("\n");
        if self.outcome.was_successful() {
            let block = self.display_success(palette);
            out.append(block.as_str());
        } else {
            let block = self.display_failure(palette);
            out.append(block.as_str());
        }
        out.append("\n");
        out.append("\n");
        proof {
            assert(out@ =~= report_text(*self, *palette));
        }
        out
    }
}

} // verus!
