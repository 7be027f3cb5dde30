//! Policies that turn one logical piece of input text into width-exact
//! display lines, and reconstruct unused lines back into input text.
//!
//! Widths are measured in grapheme clusters (user-perceived characters), not
//! in code units.

use vstd::prelude::*;

use unicode_segmentation::UnicodeSegmentation;

use crate::grid::Alignment;
use crate::process::{DrawProcess, ProcView};

verus! {

/// A sequence of `n` space characters (empty when `n` is negative).
pub open spec fn spaces(n: int) -> Seq<char> {
    Seq::new(if n >= 0 { n as nat } else { 0 }, |i: int| ' ')
}

/// The views of a sequence of trimmed lines.
pub open spec fn line_views(v: Seq<TrimmedText>) -> Seq<Seq<char>> {
    v.map_values(|t: TrimmedText| t@)
}

/// The views of a sequence of strings.
pub open spec fn str_views(v: Seq<String>) -> Seq<Seq<char>> {
    v.map_values(|s: String| s@)
}

/// The sequence of extended grapheme clusters of a string's characters: the
/// unit in which this library measures text width.
pub uninterp spec fn graphemes_of(s: Seq<char>) -> Seq<Seq<char>>;

/// Relies on unicode_segmentation's `UnicodeSegmentation::graphemes`: it
/// yields the extended grapheme clusters of the string in order, as
/// consecutive non-empty substrings that concatenate back to the string.
#[verifier::external_body]
pub(crate) fn split_graphemes(s: &str) -> (r: Vec<String>)
    ensures
        str_views(r@) == graphemes_of(s@),
        str_views(r@).flatten() == s@,
        forall|i: int| 0 <= i < r@.len() ==> r@[i]@.len() > 0,
        s@.len() == 0 ==> r@.len() == 0,
{
    s.graphemes(true).map(|g| g.to_string()).collect()
}

/// Appends `n` spaces to `s`.
pub(crate) fn push_spaces(s: &mut String, n: usize)
    ensures
        final(s)@ == old(s)@ + spaces(n as int),
{
    let mut i: usize = 0;
    while i < n
        invariant
            i <= n,
            s@ == old(s)@ + spaces(i as int),
        decreases n - i,
    {
        s.append(" ");
        proof {
            reveal_strlit(" ");
            assert(old(s)@ + spaces(i as int) + " "@ =~= old(s)@ + spaces(i + 1));
        }
        i = i + 1;
    }
}

/// Concatenates the strings `g[from..to]` into one string.
pub(crate) fn concat_range(g: &Vec<String>, from: usize, to: usize) -> (r: String)
    requires
        from <= to <= g@.len(),
    ensures
        r@ == str_views(g@).subrange(from as int, to as int).flatten(),
{
    let mut s = String::new();
    let mut i: usize = from;
    while i < to
        invariant
            from <= i <= to <= g@.len(),
            s@ == str_views(g@).subrange(from as int, i as int).flatten(),
        decreases to - i,
    {
        s.append(g[i].as_str());
        proof {
            let gv = str_views(g@);
            assert(gv.subrange(from as int, i + 1) =~= gv.subrange(from as int, i as int).push(gv[i as int]));
            gv.subrange(from as int, i as int).lemma_flatten_push(gv[i as int]);
        }
        i = i + 1;
    }
    s
}

/// Trimmed text is text that is marked as processed and displayable. It is
/// public only so that users can define [`TrimStrategy`] implementations
/// other than the built-in ones; it is not meant to be created by anything
/// but a trim strategy.
#[derive(Debug, Clone, PartialEq, Eq, Default, Hash)]
pub struct TrimmedText(pub String);

impl View for TrimmedText {
    type V = Seq<char>;

    open spec fn view(&self) -> Seq<char> {
        self.0@
    }
}

/// Represents a formatting problem. Contains the original input, restored as
/// close to its original form as the active trim strategy allows; some of the
/// information may be lost. The only variant indicates a lack of space.
#[derive(Debug, Clone, PartialEq, Eq, Hash)]
pub enum FormatError<T: TrimStrategy> {
    NoSpace(T::Input),
}

/// A trim strategy converts logical input text into zero or more
/// display-ready lines, and converts unused lines back into a best-effort
/// reconstruction of the input.
///
/// Both operations are pinned by the strategy's own specification functions,
/// so a section can state exactly which lines it committed and exactly what
/// an overflow error carries.
pub trait TrimStrategy where Self: Sized + core::fmt::Debug {
    type Input: View + core::fmt::Debug;

    /// What the strategy needs of a section before it can trim for it.
    spec fn trim_req(width: int, a: Alignment) -> bool;

    /// The lines `trim` produces and the state it leaves the strategy in.
    spec fn trim_spec(pre: Self, text: <Self::Input as View>::V, chunk: ProcView, a: Alignment) -> (Seq<Seq<char>>, Self);

    /// The input `back` reconstructs and the state it leaves the strategy in.
    spec fn back_spec(pre: Self, lines: Seq<Seq<char>>, chunk: ProcView, a: Alignment) -> (<Self::Input as View>::V, Self);

    /// Processes the input, producing the lines to be displayed. For `Plus`
    /// the lines read top to bottom in input order; for `Minus` a
    /// multi-line-capable strategy pre-reverses them, so that appending them
    /// one at a time and rendering the minus side in reverse reproduces the
    /// original reading order.
    fn trim(&mut self, text: Self::Input, chunk: &DrawProcess, a: Alignment) -> (r: Vec<TrimmedText>)
        requires
            chunk.inv(),
            Self::trim_req(chunk@.width(), a),
        ensures
            ({
                let (lines, post) = Self::trim_spec(*old(self), text@, chunk@, a);
                line_views(r@) == lines && *final(self) == post
            }),
    ;

    /// Undoes the processing of `text`, folding the unused lines back into
    /// one input value so the caller can use it again.
    fn back(&mut self, text: Vec<TrimmedText>, chunk: &DrawProcess, a: Alignment) -> (r: Self::Input)
        requires
            text@.len() > 0,
        ensures
            ({
                let (recon, post) = Self::back_spec(*old(self), line_views(text@), chunk@, a);
                r@ == recon && *final(self) == post
            }),
    ;
}

/// Useful for debug purposes, or for quick code. Does absolutely nothing to
/// the text, bypassing the width discipline entirely: a line longer than the
/// section's width will overflow into neighboring regions when rendered.
/// Bad formatting is what this crate is designed to prevent; this policy is
/// a documented hazard, to be used at the caller's own risk.
#[derive(Debug)]
pub struct Ignore;

impl TrimStrategy for Ignore {
    type Input = String;

    open spec fn trim_req(width: int, a: Alignment) -> bool {
        true
    }

    open spec fn trim_spec(pre: Self, text: Seq<char>, chunk: ProcView, a: Alignment) -> (Seq<Seq<char>>, Self) {
        (seq![text], pre)
    }

    open spec fn back_spec(pre: Self, lines: Seq<Seq<char>>, chunk: ProcView, a: Alignment) -> (Seq<char>, Self) {
        (lines[0], pre)
    }

    fn trim(&mut self, text: String, chunk: &DrawProcess, a: Alignment) -> (r: Vec<TrimmedText>) {
        let mut r: Vec<TrimmedText> = Vec::new();
        r.push(TrimmedText(text));
        proof {
            assert(line_views(r@) =~= seq![r@[0]@]);
        }
        r
    }

    fn back(&mut self, text: Vec<TrimmedText>, chunk: &DrawProcess, a: Alignment) -> (r: String) {
        let mut text = text;
        let first = text.remove(0);
        first.0
    }
}

/// One `width`-grapheme line cut from the front of `g`, padded with trailing
/// spaces when `g` is shorter than `width`.
pub open spec fn trunc_line(g: Seq<Seq<char>>, width: int) -> Seq<char> {
    if g.len() >= width {
        g.take(width).flatten()
    } else {
        g.flatten() + spaces(width - g.len())
    }
}

/// Cuts out anything that does not fit on one line of the section, and pads
/// short input with trailing spaces: always exactly one output line of
/// exactly the section's width in graphemes. The cut-off tail is permanently
/// lost by design.
#[derive(Debug)]
pub struct Truncate;

impl TrimStrategy for Truncate {
    type Input = String;

    open spec fn trim_req(width: int, a: Alignment) -> bool {
        true
    }

    open spec fn trim_spec(pre: Self, text: Seq<char>, chunk: ProcView, a: Alignment) -> (Seq<Seq<char>>, Self) {
        (seq![trunc_line(graphemes_of(text), chunk.width())], pre)
    }

    open spec fn back_spec(pre: Self, lines: Seq<Seq<char>>, chunk: ProcView, a: Alignment) -> (Seq<char>, Self) {
        (lines[0], pre)
    }

    fn trim(&mut self, text: String, chunk: &DrawProcess, a: Alignment) -> (r: Vec<TrimmedText>) {
        let w = chunk.width();
        let g = split_graphemes(text.as_str());
        let n = if g.len() < w {
            g.len()
        } else {
            w
        };
        let mut s = concat_range(&g, 0, n);
        if g.len() < w {
            push_spaces(&mut s, w - g.len());
        }
        proof {
            let gv = str_views(g@);
            if gv.len() >= w {
                assert(gv.subrange(0, w as int) =~= gv.take(chunk@.width()));
            } else {
                assert(gv.subrange(0, gv.len() as int) =~= gv);
            }
        }
        let mut r: Vec<TrimmedText> = Vec::new();
        r.push(TrimmedText(s));
        proof {
            assert(line_views(r@) =~= seq![r@[0]@]);
        }
        r
    }

    fn back(&mut self, text: Vec<TrimmedText>, chunk: &DrawProcess, a: Alignment) -> (r: String) {
        let mut text = text;
        let first = text.remove(0);
        first.0
    }
}

/// The lines that the splitting policy cuts `g` into: chunks of exactly
/// `width` graphemes, the last one padded with trailing spaces.
pub open spec fn split_lines(g: Seq<Seq<char>>, width: int) -> Seq<Seq<char>>
    decreases g.len(),
{
    if width <= 0 {
        Seq::empty()
    } else if g.len() <= width {
        seq![g.flatten() + spaces(width - g.len())]
    } else {
        seq![g.take(width).flatten()] + split_lines(g.skip(width), width)
    }
}

/// Splits the text into as many lines as it needs, each of exactly the
/// section's width in graphemes, padding only the last one with trailing
/// spaces; empty input becomes a single all-space line. For `Minus` the line
/// sequence is reversed before being handed out, so that lines appended one
/// at a time and rendered in reverse still read top to bottom.
///
/// The section must be at least one character wide.
#[derive(Debug)]
pub struct Split;

impl TrimStrategy for Split {
    type Input = String;

    open spec fn trim_req(width: int, a: Alignment) -> bool {
        width > 0
    }

    open spec fn trim_spec(pre: Self, text: Seq<char>, chunk: ProcView, a: Alignment) -> (Seq<Seq<char>>, Self) {
        let g0 = graphemes_of(text);
        let g = if g0.len() == 0 {
            seq![seq![' ']]
        } else {
            g0
        };
        let lines = split_lines(g, chunk.width());
        ((if a is Minus {
            lines.reverse()
        } else {
            lines
        }), pre)
    }

    open spec fn back_spec(pre: Self, lines: Seq<Seq<char>>, chunk: ProcView, a: Alignment) -> (Seq<char>, Self) {
        ((if a is Minus {
            lines.reverse().flatten()
        } else {
            lines.flatten()
        }), pre)
    }

    fn trim(&mut self, text: String, chunk: &DrawProcess, a: Alignment) -> (r: Vec<TrimmedText>) {
        let w = chunk.width();
        let mut g = split_graphemes(text.as_str());
        if g.len() == 0 {
            g.push(String::from_str(" "));
            proof {
                reveal_strlit(" ");
                assert(" "@ =~= seq![' ']);
                assert(str_views(g@) =~= seq![" "@]);
            }
        }
        let ghost gv = str_views(g@);
        let ghost w_int = w as int;
        let mut res: Vec<TrimmedText> = Vec::new();
        let mut i: usize = 0;
        proof {
            assert(gv.skip(0) =~= gv);
            assert(line_views(res@) + split_lines(gv, w_int) =~= split_lines(gv, w_int));
        }
        while g.len() - i > w
            invariant
                chunk@.width() == w_int,
                w_int == w as int,
                w > 0,
                i < g.len(),
                gv == str_views(g@),
                split_lines(gv, w_int) == line_views(res@) + split_lines(gv.skip(i as int), w_int),
            decreases g.len() - i,
        {
            let piece = concat_range(&g, i, i + w);
            res.push(TrimmedText(piece));
            proof {
                let rest = gv.skip(i as int);
                assert(rest.take(w_int) =~= gv.subrange(i as int, i + w));
                assert(rest.skip(w_int) =~= gv.skip(i + w));
                assert(line_views(res@) =~= line_views(res@.drop_last()) + seq![piece@]);
                assert(line_views(res@.drop_last()) + seq![rest.take(w_int).flatten()]
                    + split_lines(gv.skip(i + w), w_int)
                    =~= line_views(res@) + split_lines(gv.skip(i + w), w_int));
            }
            i = i + w;
        }
        let mut last = concat_range(&g, i, g.len());
        push_spaces(&mut last, w - (g.len() - i));
        proof {
            let rest = gv.skip(i as int);
            assert(rest =~= gv.subrange(i as int, gv.len() as int));
            assert(last@ == rest.flatten() + spaces(w_int - rest.len()));
        }
        res.push(TrimmedText(last));
        proof {
            assert(line_views(res@) =~= line_views(res@.drop_last()) + seq![last@]);
            assert(line_views(res@) =~= split_lines(gv, w_int));
        }
        if matches!(a, Alignment::Minus) {
            let mut rev: Vec<TrimmedText> = Vec::new();
            let ghost full = res@;
            proof {
                assert(full.take(full.len() as int) =~= full);
                assert(full.skip(full.len() as int).reverse() =~= rev@);
            }
            while res.len() > 0
                invariant
                    res@.len() <= full.len(),
                    res@ == full.take(res@.len() as int),
                    rev@ == full.skip(res@.len() as int).reverse(),
                decreases res.len(),
            {
                let ghost k = res@.len() as int;
                let x = res.pop().unwrap();
                proof {
                    assert(full.take(k).subrange(0, k - 1) =~= full.take(k - 1));
                    assert(x == full.take(k)[k - 1]);
                }
                rev.push(x);
                proof {
                    assert(full.skip(k - 1).reverse() =~= full.skip(k).reverse().push(full[k - 1]));
                }
            }
            proof {
                assert(full.skip(0) =~= full);
                assert(line_views(full.reverse()) =~= line_views(full).reverse());
            }
            rev
        } else {
            res
        }
    }

    fn back(&mut self, text: Vec<TrimmedText>, chunk: &DrawProcess, a: Alignment) -> (r: String) {
        let mut res = String::new();
        let ghost lv = line_views(text@);
        if matches!(a, Alignment::Minus) {
            let mut i: usize = text.len();
            while i > 0
                invariant
                    i <= text@.len(),
                    lv == line_views(text@),
                    res@ == lv.subrange(i as int, lv.len() as int).reverse().flatten(),
                decreases i,
            {
                i = i - 1;
                res.append(text[i].0.as_str());
                proof {
                    let tail = lv.subrange(i + 1, lv.len() as int).reverse();
                    assert(lv.subrange(i as int, lv.len() as int).reverse() =~= tail.push(lv[i as int]));
                    tail.lemma_flatten_push(lv[i as int]);
                }
            }
            proof {
                assert(lv.subrange(0, lv.len() as int) =~= lv);
            }
        } else {
            let mut i: usize = 0;
            while i < text.len()
                invariant
                    i <= text@.len(),
                    lv == line_views(text@),
                    res@ == lv.subrange(0, i as int).flatten(),
                decreases text@.len() - i,
            {
                res.append(text[i].0.as_str());
                proof {
                    assert(lv.subrange(0, i + 1) =~= lv.subrange(0, i as int).push(lv[i as int]));
                    lv.subrange(0, i as int).lemma_flatten_push(lv[i as int]);
                }
                i = i + 1;
            }
            proof {
                assert(lv.subrange(0, lv.len() as int) =~= lv);
            }
        }
        res
    }
}

/// The chunks that [`split_lines`] cuts a grapheme sequence into concatenate
/// back to the whole sequence followed by trailing spaces, padding it to the
/// least whole number of lines: the splitting policy loses nothing.
pub proof fn lemma_split_lines_round_trip(g: Seq<Seq<char>>, w: int)
    requires
        w > 0,
        g.len() > 0,
    ensures
        ({
            let lines = split_lines(g, w);
            &&& lines.len() >= 1
            &&& lines.flatten() == g.flatten() + spaces(lines.len() * w - g.len())
            &&& lines.len() * w >= g.len()
            &&& (lines.len() - 1) * w < g.len()
        }),
    decreases g.len(),
{
    let lines = split_lines(g, w);
    if g.len() <= w {
        lines.lemma_flatten_singleton();
        assert(lines.len() * w == w) by (nonlinear_arith)
            requires lines.len() == 1;
    } else {
        let head = seq![g.take(w).flatten()];
        let tail = split_lines(g.skip(w), w);
        lemma_split_lines_round_trip(g.skip(w), w);
        vstd::seq_lib::lemma_flatten_concat(head, tail);
        head.lemma_flatten_singleton();
        assert(g.take(w) + g.skip(w) =~= g);
        vstd::seq_lib::lemma_flatten_concat(g.take(w), g.skip(w));
        let n = tail.len() as int;
        assert((n + 1) * w == n * w + w) by (nonlinear_arith);
        assert(tail.flatten() == g.skip(w).flatten() + spaces(n * w - g.skip(w).len()));
        assert(lines.flatten() =~= g.take(w).flatten() + (g.skip(w).flatten() + spaces(n * w - g.skip(w).len())));
        assert(lines.flatten() =~= (g.take(w).flatten() + g.skip(w).flatten()) + spaces(n * w - g.skip(w).len()));
        assert(lines.flatten() =~= g.flatten() + spaces(lines.len() * w - g.len()));
        assert(n * w >= g.skip(w).len());
        assert((n - 1) * w < g.skip(w).len());
        assert(n * w == (n - 1) * w + w) by (nonlinear_arith);
        assert(n * w < g.len());
    }
}

/// Round trip for the splitting policy: trimming input text into width-exact
/// chunks and handing every resulting chunk straight back, on either side,
/// reconstructs the text's grapheme clusters in full, padded with trailing
/// spaces to a whole number of lines. (The segmentation wrapper separately
/// guarantees that a string's grapheme clusters concatenate back to the
/// string itself, and that empty input has no clusters.)
pub proof fn lemma_split_round_trip(st: Split, text: Seq<char>, chunk: ProcView, a: Alignment)
    requires
        chunk.width() > 0,
    ensures
        ({
            let g0 = graphemes_of(text);
            let g = if g0.len() == 0 { seq![seq![' ']] } else { g0 };
            let w = chunk.width();
            let (lines, st1) = <Split as TrimStrategy>::trim_spec(st, text, chunk, a);
            let (recon, st2) = <Split as TrimStrategy>::back_spec(st1, lines, chunk, a);
            &&& recon == g.flatten() + spaces(lines.len() * w - g.len())
            &&& lines.len() * w >= g.len()
            &&& (lines.len() - 1) * w < g.len()
        }),
{
    let g0 = graphemes_of(text);
    let g = if g0.len() == 0 { seq![seq![' ']] } else { g0 };
    let w = chunk.width();
    lemma_split_lines_round_trip(g, w);
    if a is Minus {
        let base = split_lines(g, w);
        assert(base.reverse().reverse() =~= base);
    }
}

} // verus!
