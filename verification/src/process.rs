//! A section of the grid that accumulates lines of text from two opposing
//! edges toward a movable divider, and renders them as a stream of actions.

use vstd::prelude::*;

use crate::grid::{Alignment, DividerStrategy, Grid};
use crate::out::{lemma_sink_run_snoc, out_to_string_output, sink_run, ActView, Action, Handler, SafeHandler};
use crate::trim::{
    graphemes_of, line_views, push_spaces, spaces, trunc_line, FormatError, TrimStrategy,
    TrimmedText, Truncate,
};

verus! {

/// The mathematical state of a [`DrawProcess`]: its bounds, the divider
/// offset (relative to `start_y`), and the lines committed to each side.
pub ghost struct ProcView {
    pub start_x: int,
    pub start_y: int,
    pub end_x: int,
    pub end_y: int,
    pub divider: int,
    pub minus: Seq<Seq<char>>,
    pub plus: Seq<Seq<char>>,
}

impl ProcView {
    /// Number of columns: the visual length every committed line is meant to
    /// have.
    pub open spec fn width(self) -> int {
        self.end_x - self.start_x
    }

    /// Number of rows available to the two sides together.
    pub open spec fn height(self) -> int {
        self.end_y - self.start_y
    }

    /// The section's continuously maintained invariant: ordered bounds, the
    /// divider inside the section, and neither side holding more lines than
    /// the space between its edge and the divider allows.
    pub open spec fn wf(self) -> bool {
        &&& 0 <= self.start_x <= self.end_x
        &&& 0 <= self.start_y <= self.end_y
        &&& 0 <= self.divider <= self.height()
        &&& self.minus.len() <= self.divider
        &&& self.plus.len() <= self.height() - self.divider
    }

    /// The lines committed to one side.
    pub open spec fn side(self, a: Alignment) -> Seq<Seq<char>> {
        match a {
            Alignment::Minus => self.minus,
            Alignment::Plus => self.plus,
        }
    }

    /// How many more lines one side can take before it reaches the divider.
    pub open spec fn space(self, a: Alignment) -> int {
        match a {
            Alignment::Minus => self.divider - self.minus.len(),
            Alignment::Plus => self.height() - self.divider - self.plus.len(),
        }
    }

    /// What row `i` (relative to `start_y`) of the section displays: blank
    /// padding above the minus zone, the minus lines in reverse storage
    /// order ending at the divider, the plus lines in storage order starting
    /// at the divider, and blank padding below them. The rows cover the
    /// whole section, so a render repaints every cell of its grid.
    pub open spec fn row_view(self, i: int) -> Seq<char> {
        if i < self.divider - self.minus.len() {
            spaces(self.width())
        } else if i < self.divider {
            self.minus[self.divider - 1 - i]
        } else if i < self.divider + self.plus.len() {
            self.plus[i - self.divider]
        } else {
            spaces(self.width())
        }
    }

    /// The full action stream of a render pass: for each row, a cursor move
    /// to the row's start and a print of the row's contents.
    pub open spec fn action_seq(self) -> Seq<ActView> {
        Seq::new(
            (2 * self.height()) as nat,
            |j: int|
                if j % 2 == 0 {
                    ActView::MoveTo(self.start_x, self.start_y + j / 2)
                } else {
                    ActView::Print(self.row_view(j / 2))
                },
        )
    }

    /// The section's rows from row `i` down, each followed by a newline.
    pub open spec fn rows_from(self, i: int) -> Seq<char>
        decreases self.height() - i,
    {
        if i < 0 || i >= self.height() {
            Seq::empty()
        } else {
            self.row_view(i) + seq!['\n'] + self.rows_from(i + 1)
        }
    }

    /// The state after appending `lines` to one side, in order.
    pub open spec fn committed(self, a: Alignment, lines: Seq<Seq<char>>) -> ProcView {
        match a {
            Alignment::Minus => ProcView {
                start_x: self.start_x,
                start_y: self.start_y,
                end_x: self.end_x,
                end_y: self.end_y,
                divider: self.divider,
                minus: self.minus + lines,
                plus: self.plus,
            },
            Alignment::Plus => ProcView {
                start_x: self.start_x,
                start_y: self.start_y,
                end_x: self.end_x,
                end_y: self.end_y,
                divider: self.divider,
                minus: self.minus,
                plus: self.plus + lines,
            },
        }
    }
}

/// The divider row offset that a [`DividerStrategy`] selects in a section of
/// the given height.
pub open spec fn divider_of(strategy: DividerStrategy, height: int) -> int {
    match strategy {
        DividerStrategy::Beginning => 0,
        DividerStrategy::End => height,
        DividerStrategy::Halfway => height / 2,
        DividerStrategy::Pos(v) => v as int,
    }
}

/// A structure that can lay text out inside a grid: lines are committed to a
/// minus side (filling upward from the divider) and a plus side (filling
/// downward from it), then rendered as move-and-print actions that repaint
/// the whole grid.
#[derive(Debug, Clone, PartialEq, Eq, Hash)]
pub struct DrawProcess {
    start_x: usize,
    start_y: usize,
    end_x: usize,
    end_y: usize,
    divider: usize,
    minus: Vec<TrimmedText>,
    plus: Vec<TrimmedText>,
    example_str: String,
}

impl View for DrawProcess {
    type V = ProcView;

    closed spec fn view(&self) -> ProcView {
        ProcView {
            start_x: self.start_x as int,
            start_y: self.start_y as int,
            end_x: self.end_x as int,
            end_y: self.end_y as int,
            divider: self.divider as int,
            minus: line_views(self.minus@),
            plus: line_views(self.plus@),
        }
    }
}

impl DrawProcess {
    /// The abstract invariant [`ProcView::wf`], together with the blank-line
    /// template holding exactly one space per column.
    pub closed spec fn inv(self) -> bool {
        self@.wf() && self.example_str@ == spaces(self@.width())
    }

    /// A section that satisfies its invariant has a well-formed view: the
    /// divider lies inside the section and neither side exceeds its quota,
    /// so callers can reason about the space that remains.
    pub proof fn lemma_inv_wf(self)
        requires
            self.inv(),
        ensures
            self@.wf(),
    {
    }

    /// Creates a new section covering `val`, with the divider placed as
    /// `strategy` directs, and both sides empty.
    pub(crate) fn new(val: Grid, strategy: DividerStrategy) -> (r: DrawProcess)
        requires
            val.wf(),
            match strategy {
                DividerStrategy::Pos(v) => v <= val.spec_height(),
                _ => true,
            },
        ensures
            r.inv(),
            r@ == (ProcView {
                start_x: val.start_x as int,
                start_y: val.start_y as int,
                end_x: val.end_x as int,
                end_y: val.end_y as int,
                divider: divider_of(strategy, val.spec_height()),
                minus: Seq::<Seq<char>>::empty(),
                plus: Seq::<Seq<char>>::empty(),
            }),
    {
        let height = val.end_y - val.start_y;
        let divider = match strategy {
            DividerStrategy::Beginning => 0,
            DividerStrategy::End => height,
            DividerStrategy::Halfway => height / 2,
            DividerStrategy::Pos(v) => v,
        };
        let width = val.end_x - val.start_x;
        let mut blank = String::new();
        push_spaces(&mut blank, width);
        let r = DrawProcess {
            start_x: val.start_x,
            start_y: val.start_y,
            end_x: val.end_x,
            end_y: val.end_y,
            divider,
            minus: Vec::new(),
            plus: Vec::new(),
            example_str: blank,
        };
        proof {
            assert(line_views(Seq::<TrimmedText>::empty()) =~= Seq::<Seq<char>>::empty());
        }
        r
    }

    /// The section's width: the number of characters that fit on a line.
    pub fn width(&self) -> (r: usize)
        requires
            self.inv(),
        ensures
            r == self@.width(),
    {
        self.end_x - self.start_x
    }

    /// The section's height: the number of lines that fit in it.
    pub fn height(&self) -> (r: usize)
        requires
            self.inv(),
        ensures
            r == self@.height(),
    {
        self.end_y - self.start_y
    }

    /// The column where the section begins.
    pub fn start_x(&self) -> (r: usize)
        ensures
            r == self@.start_x,
    {
        self.start_x
    }

    /// The row where the section begins.
    pub fn start_y(&self) -> (r: usize)
        ensures
            r == self@.start_y,
    {
        self.start_y
    }

    /// The column where the section ends.
    pub fn end_x(&self) -> (r: usize)
        ensures
            r == self@.end_x,
    {
        self.end_x
    }

    /// The row where the section ends.
    pub fn end_y(&self) -> (r: usize)
        ensures
            r == self@.end_y,
    {
        self.end_y
    }

    /// Trims a string using a trim strategy. This is meant to be called
    /// indirectly, through [`DrawProcess::add_to_section`].
    fn trim<T: TrimStrategy>(&self, text: T::Input, b: &mut T, a: Alignment) -> (r: Vec<TrimmedText>)
        requires
            self.inv(),
            T::trim_req(self@.width(), a),
        ensures
            ({
                let (lines, post) = T::trim_spec(*old(b), text@, self@, a);
                line_views(r@) == lines && *final(b) == post
            }),
    {
        b.trim(text, self, a)
    }

    /// Appends one already-trimmed line to a side, failing (and handing the
    /// line back) when that side's space is exhausted.
    fn add_to_section_trimmed(&mut self, text: TrimmedText, section: Alignment) -> (r: Result<(), TrimmedText>)
        requires
            old(self).inv(),
        ensures
            final(self).inv(),
            old(self)@.space(section) > 0 ==> r is Ok && final(self)@ == old(self)@.committed(
                section,
                seq![text@],
            ),
            old(self)@.space(section) <= 0 ==> r == Err::<(), TrimmedText>(text) && *final(self)
                == *old(self),
    {
        if matches!(section, Alignment::Minus) {
            let space = self.divider - self.minus.len();
            if space == 0 {
                return Err(text);
            }
            let ghost pre = self.minus@;
            self.minus.push(text);
            proof {
                assert(line_views(pre.push(text)) =~= line_views(pre) + seq![text@]);
            }
        } else {
            let space = self.end_y - self.start_y - self.divider - self.plus.len();
            if space == 0 {
                return Err(text);
            }
            let ghost pre = self.plus@;
            self.plus.push(text);
            proof {
                assert(line_views(pre.push(text)) =~= line_views(pre) + seq![text@]);
            }
        }
        Ok(())
    }

    /// Adds single-line content to one side, using the given trim strategy.
    ///
    /// The strategy first turns the input into display lines; these are then
    /// committed one at a time until the side's space runs out. The lines
    /// that fit stay committed — partial progress is retained, not rolled
    /// back — and the strategy folds the lines that did not fit back into a
    /// best-effort reconstruction of the unconsumed input, returned inside
    /// the error.
    #[verifier::loop_isolation(false)]
    pub fn add_to_section<T: TrimStrategy>(&mut self, text: T::Input, strategy: &mut T, section: Alignment) -> (r: Result<(), FormatError<T>>)
        requires
            old(self).inv(),
            T::trim_req(old(self)@.width(), section),
        ensures
            final(self).inv(),
            final(self)@.start_x == old(self)@.start_x,
            final(self)@.start_y == old(self)@.start_y,
            final(self)@.end_x == old(self)@.end_x,
            final(self)@.end_y == old(self)@.end_y,
            final(self)@.divider == old(self)@.divider,
            ({
                let (p2, s2, e) = add_spec::<T>(old(self)@, text@, *old(strategy), section);
                &&& final(self)@ == p2
                &&& *final(strategy) == s2
                &&& match r {
                    Ok(_) => e is None,
                    Err(err) => match err {
                        FormatError::NoSpace(x) => match e {
                            Some(v) => x@ == v,
                            None => false,
                        },
                    },
                }
            }),
    {
        let ghost p0 = self@;
        let mut lines: Vec<TrimmedText> = self.trim(text, strategy, section);
        let ghost all = line_views(lines@);
        let ghost s1 = *strategy;
        let ghost cap = p0.space(section);
        let ghost mut k: int = 0;
        proof {
            assert(all.skip(0) =~= all);
            assert(p0.committed(section, all.take(0)).side(section) =~= p0.side(section));
            assert(p0.committed(section, all.take(0)) == p0);
        }
        while lines.len() > 0
            invariant
                self.inv(),
                *strategy == s1,
                0 <= k,
                k + lines@.len() == all.len(),
                k <= cap,
                line_views(lines@) == all.skip(k),
                self@ == p0.committed(section, all.take(k)),
                self@.space(section) == cap - k,
            decreases lines@.len(),
        {
            let ghost lv0 = lines@;
            let t = lines.remove(0);
            proof {
                assert(line_views(lv0)[0] == lv0[0]@);
                assert(t@ == all[k]);
                assert forall|j: int| 0 <= j < lines@.len() implies line_views(lines@)[j] == all.skip(
                    k + 1,
                )[j] by {
                    assert(lines@[j] == lv0[j + 1]);
                    assert(line_views(lv0)[j + 1] == lv0[j + 1]@);
                    assert(line_views(lines@)[j] == lines@[j]@);
                }
                assert(line_views(lines@) =~= all.skip(k + 1));
            }
            match self.add_to_section_trimmed(t, section) {
                Ok(_) => {
                    proof {
                        let before = p0.committed(section, all.take(k));
                        assert(before.committed(section, seq![all[k]]).side(section)
                            =~= p0.committed(section, all.take(k + 1)).side(section));
                        assert(before.committed(section, seq![all[k]])
                            == p0.committed(section, all.take(k + 1)));
                        k = k + 1;
                    }
                }
                Err(t) => {
                    lines.insert(0, t);
                    proof {
                        assert(line_views(lines@) =~= all.skip(k));
                        assert(k == cap);
                        assert(all.len() > cap);
                    }
                    let recon = strategy.back(lines, self, section);
                    return Err(FormatError::NoSpace(recon));
                }
            }
        }
        proof {
            assert(k == all.len());
            assert(all.take(k) =~= all);
        }
        Ok(())
    }

    /// Adds multi-line content to one side, one call of
    /// [`DrawProcess::add_to_section`] per entry.
    ///
    /// The content reads top to bottom even when `Minus` is selected — the
    /// exact opposite of simply adding the entries one by one — so for
    /// `Minus` the entries are processed in reverse order, and the result
    /// sequence is reversed back afterward so that each result aligns
    /// positionally with its original entry. Each entry succeeds or fails
    /// independently: one failing entry does not block later entries.
    #[verifier::loop_isolation(false)]
    pub fn add_to_section_lines<T: TrimStrategy>(&mut self, text: Vec<T::Input>, strategy: &mut T, section: Alignment) -> (r: Vec<Result<(), FormatError<T>>>)
        requires
            old(self).inv(),
            T::trim_req(old(self)@.width(), section),
        ensures
            final(self).inv(),
            final(self)@.start_x == old(self)@.start_x,
            final(self)@.start_y == old(self)@.start_y,
            final(self)@.end_x == old(self)@.end_x,
            final(self)@.end_y == old(self)@.end_y,
            final(self)@.divider == old(self)@.divider,
            r@.len() == text@.len(),
            ({
                let texts = input_views(text@);
                let order = if section is Minus {
                    texts.reverse()
                } else {
                    texts
                };
                let (p2, s2, es) = add_seq_spec::<T>(old(self)@, order, *old(strategy), section);
                &&& final(self)@ == p2
                &&& *final(strategy) == s2
                &&& err_views(r@) == (if section is Minus {
                    es.reverse()
                } else {
                    es
                })
            }),
    {
        let ghost p0 = self@;
        let ghost s0 = *strategy;
        let ghost texts = input_views(text@);
        let ghost order = if section is Minus { texts.reverse() } else { texts };
        let ghost n = order.len() as int;
        let mut inputs = text;
        let mut results: Vec<Result<(), FormatError<T>>> = Vec::new();
        let ghost mut j: int = 0;
        proof {
            assert(order.skip(0) =~= order);
            assert(err_views(results@) + add_seq_spec::<T>(self@, order, *strategy, section).2
                =~= add_seq_spec::<T>(self@, order, *strategy, section).2);
        }
        while inputs.len() > 0
            invariant
                self.inv(),
                0 <= j <= n,
                results@.len() == j,
                j + inputs@.len() == n,
                self@.start_x == p0.start_x,
                self@.start_y == p0.start_y,
                self@.end_x == p0.end_x,
                self@.end_y == p0.end_y,
                self@.divider == p0.divider,
                input_views(inputs@) == (if section is Minus {
                    texts.take(n - j)
                } else {
                    texts.skip(j)
                }),
                add_seq_spec::<T>(p0, order, s0, section).0 == add_seq_spec::<T>(
                    self@,
                    order.skip(j),
                    *strategy,
                    section,
                ).0,
                add_seq_spec::<T>(p0, order, s0, section).1 == add_seq_spec::<T>(
                    self@,
                    order.skip(j),
                    *strategy,
                    section,
                ).1,
                add_seq_spec::<T>(p0, order, s0, section).2 == err_views(results@)
                    + add_seq_spec::<T>(self@, order.skip(j), *strategy, section).2,
            decreases inputs@.len(),
        {
            let ghost iv0 = inputs@;
            let ghost pj = self@;
            let ghost sj = *strategy;
            let x;
            if matches!(section, Alignment::Minus) {
                x = inputs.pop().unwrap();
                proof {
                    assert(input_views(iv0)[iv0.len() - 1] == iv0[iv0.len() - 1]@);
                    assert(x@ == texts[n - j - 1]);
                    assert(x@ == order[j]);
                    assert forall|m: int| 0 <= m < inputs@.len() implies input_views(inputs@)[m]
                        == texts.take(n - (j + 1))[m] by {
                        assert(inputs@[m] == iv0[m]);
                        assert(input_views(iv0)[m] == iv0[m]@);
                        assert(input_views(inputs@)[m] == inputs@[m]@);
                    }
                    assert(input_views(inputs@) =~= texts.take(n - (j + 1)));
                }
            } else {
                x = inputs.remove(0);
                proof {
                    assert(input_views(iv0)[0] == iv0[0]@);
                    assert(x@ == order[j]);
                    assert forall|m: int| 0 <= m < inputs@.len() implies input_views(inputs@)[m]
                        == texts.skip(j + 1)[m] by {
                        assert(inputs@[m] == iv0[m + 1]);
                        assert(input_views(iv0)[m + 1] == iv0[m + 1]@);
                        assert(input_views(inputs@)[m] == inputs@[m]@);
                    }
                    assert(input_views(inputs@) =~= texts.skip(j + 1));
                }
            }
            let res = self.add_to_section(x, strategy, section);
            results.push(res);
            proof {
                let tail = order.skip(j);
                assert(tail[0] == order[j]);
                assert(tail.skip(1) =~= order.skip(j + 1));
                let (e_p, e_s, e_e) = add_spec::<T>(pj, x@, sj, section);
                assert(err_views(results@) =~= err_views(results@.drop_last()) + seq![
                    err_views(results@)[j],
                ]);
                assert(err_views(results@)[j] == e_e);
                assert(err_views(results@.drop_last()) + (seq![e_e] + add_seq_spec::<T>(
                    self@,
                    order.skip(j + 1),
                    *strategy,
                    section,
                ).2) =~= err_views(results@) + add_seq_spec::<T>(
                    self@,
                    order.skip(j + 1),
                    *strategy,
                    section,
                ).2);
                j = j + 1;
            }
        }
        proof {
            assert(j == n);
            assert(order.skip(n) =~= Seq::<<T::Input as View>::V>::empty());
            assert(err_views(results@) + Seq::<Option<<T::Input as View>::V>>::empty()
                =~= err_views(results@));
        }
        if matches!(section, Alignment::Minus) {
            let mut rev: Vec<Result<(), FormatError<T>>> = Vec::new();
            let ghost full = results@;
            proof {
                assert(full.take(full.len() as int) =~= full);
                assert(full.skip(full.len() as int).reverse() =~= rev@);
            }
            while results.len() > 0
                invariant
                    results@.len() <= full.len(),
                    results@ == full.take(results@.len() as int),
                    rev@ == full.skip(results@.len() as int).reverse(),
                decreases results.len(),
            {
                let ghost k = results@.len() as int;
                let x = results.pop().unwrap();
                proof {
                    assert(full.take(k).subrange(0, k - 1) =~= full.take(k - 1));
                    assert(x == full.take(k)[k - 1]);
                }
                rev.push(x);
                proof {
                    assert(full.skip(k - 1).reverse() =~= full.skip(k).reverse().push(full[k - 1]));
                }
            }
            proof {
                assert(full.skip(0) =~= full);
                assert forall|m: int| 0 <= m < full.len() implies err_views(full.reverse())[m]
                    == err_views(full).reverse()[m] by {
                    let i = full.len() - 1 - m;
                    assert(full.reverse()[m] == full[i]);
                    assert(err_views(full).reverse()[m] == err_views(full)[i]);
                }
                assert(err_views(full.reverse()) =~= err_views(full).reverse());
            }
            rev
        } else {
            results
        }
    }

    /// Moves the divider to make more space available on one side.
    ///
    /// Toward `Minus` the divider drops to the minus side's occupancy
    /// (`min(divider, minus.len())`); toward `Plus` it rises to
    /// `max(divider, height - plus.len())`, measured from the section's total
    /// height. Neither side's committed lines are touched: shoving only
    /// changes how much unused slack the other side may claim.
    pub fn shove(&mut self, direction: Alignment)
        requires
            old(self).inv(),
        ensures
            final(self).inv(),
            final(self)@.minus == old(self)@.minus,
            final(self)@.plus == old(self)@.plus,
            final(self)@.start_x == old(self)@.start_x,
            final(self)@.start_y == old(self)@.start_y,
            final(self)@.end_x == old(self)@.end_x,
            final(self)@.end_y == old(self)@.end_y,
            final(self)@.divider == match direction {
                Alignment::Minus => if old(self)@.minus.len() <= old(self)@.divider {
                    old(self)@.minus.len() as int
                } else {
                    old(self)@.divider
                },
                Alignment::Plus => if old(self)@.divider >= old(self)@.height() - old(self)@.plus.len() {
                    old(self)@.divider
                } else {
                    old(self)@.height() - old(self)@.plus.len()
                },
            },
    {
        match direction {
            Alignment::Minus => {
                let occ = self.minus.len();
                if occ < self.divider {
                    self.divider = occ;
                }
            }
            Alignment::Plus => {
                let floor = self.end_y - self.start_y - self.plus.len();
                if floor > self.divider {
                    self.divider = floor;
                }
            }
        }
    }

    /// Renders the section into its action stream: one cursor move and one
    /// print per row, covering the entire grid from top to bottom (see
    /// [`ProcView::row_view`]), so that stale content from a previous pass
    /// can never leak through.
    pub fn grab_actions(&self) -> (r: Vec<Action>)
        requires
            self.inv(),
        ensures
            r@.len() == 2 * self@.height(),
            r@.map_values(|a: Action| a@) == self@.action_seq(),
    {
        let ghost av = self@.action_seq();
        let mut result: Vec<Action> = Vec::new();
        let height = self.end_y - self.start_y;
        let mut i: usize = 0;
        while i < height
            invariant
                self.inv(),
                av == self@.action_seq(),
                i <= height,
                height == self@.height(),
                result@.len() == 2 * i,
                forall|m: int| 0 <= m < result@.len() ==> (#[trigger] result@[m])@ == av[m],
            decreases height - i,
        {
            result.push(Action::MoveTo(self.start_x, self.start_y + i));
            let ms = self.divider - self.minus.len();
            let line: String = if i < ms {
                self.example_str.clone()
            } else if i < self.divider {
                self.minus[self.divider - 1 - i].0.clone()
            } else if i < self.divider + self.plus.len() {
                self.plus[i - self.divider].0.clone()
            } else {
                self.example_str.clone()
            };
            proof {
                let ii = i as int;
                assert((2 * ii) % 2 == 0 && (2 * ii) / 2 == ii);
                assert((2 * ii + 1) % 2 == 1 && (2 * ii + 1) / 2 == ii);
                if ms <= i && ii < self@.divider {
                    assert(line_views(self.minus@)[self@.divider - 1 - ii]
                        == self.minus@[self@.divider - 1 - ii]@);
                } else if self@.divider <= ii && ii < self@.divider + self@.plus.len() {
                    assert(line_views(self.plus@)[ii - self@.divider]
                        == self.plus@[ii - self@.divider]@);
                }
                assert(line@ == self@.row_view(ii));
            }
            result.push(Action::Print(line));
            i = i + 1;
        }
        proof {
            assert(result@.map_values(|a: Action| a@) =~= av);
        }
        result
    }

    /// Prints the section through a handler, one action at a time, in the
    /// order of [`DrawProcess::grab_actions`].
    ///
    /// Whether a call succeeds is the handler's to decide: on the first
    /// failure the remaining actions are abandoned and the handler's error
    /// is returned, after a successfully handled prefix of the stream; when
    /// every call succeeds — always, for an infallible handler, and trivially
    /// for an empty stream — the result is `Ok` and the whole action stream
    /// has been handled, each action with its declared effect.
    #[verifier::loop_isolation(false)]
    pub fn print<H: Handler>(&mut self, handler: &mut H, out: &mut H::OutputDevice) -> (r: Result<
        (),
        H::Error,
    >)
        requires
            old(self).inv(),
        ensures
            *final(self) == *old(self),
            r is Ok ==> sink_run::<H>(
                *old(handler),
                *old(out),
                old(self)@.action_seq(),
                *final(handler),
                *final(out),
            ),
            old(self)@.action_seq().len() == 0 ==> r is Ok,
            H::infallible() ==> r is Ok,
            r is Err ==> exists|i: int, hm: H, dm: H::OutputDevice|
                0 <= i < old(self)@.action_seq().len() && sink_run::<H>(
                    *old(handler),
                    *old(out),
                    old(self)@.action_seq().take(i),
                    hm,
                    dm,
                ),
    {
        let actions = self.grab_actions();
        let ghost av = self@.action_seq();
        let ghost h0 = *handler;
        let ghost d0 = *out;
        let mut i: usize = 0;
        proof {
            assert(av.take(0) =~= Seq::<ActView>::empty());
        }
        while i < actions.len()
            invariant
                i <= actions@.len(),
                sink_run::<H>(h0, d0, av.take(i as int), *handler, *out),
            decreases actions@.len() - i,
        {
            let ghost hm = *handler;
            let ghost dm = *out;
            let res = handler.handle(out, &actions[i]);
            match res {
                Err(e) => {
                    proof {
                        assert((i as int) < av.len());
                        assert(sink_run::<H>(h0, d0, av.take(i as int), hm, dm));
                    }
                    return Err(e);
                }
                Ok(_) => {}
            }
            proof {
                assert(actions@[i as int]@ == av[i as int]);
                lemma_sink_run_snoc::<H>(h0, d0, av.take(i as int), hm, dm, av[i as int], *handler, *out);
                assert(av.take(i as int).push(av[i as int]) =~= av.take(i + 1));
            }
            i = i + 1;
        }
        proof {
            assert(av.take(av.len() as int) =~= av);
        }
        Ok(())
    }

    /// Prints the section through a safe handler: the same action stream as
    /// [`DrawProcess::print`], handled unconditionally, each action with its
    /// declared effect.
    #[verifier::loop_isolation(false)]
    pub fn print_safe<H: SafeHandler>(&mut self, handler: &mut H, out: &mut H::OutputDevice)
        requires
            old(self).inv(),
        ensures
            *final(self) == *old(self),
            sink_run::<H>(
                *old(handler),
                *old(out),
                old(self)@.action_seq(),
                *final(handler),
                *final(out),
            ),
    {
        let actions = self.grab_actions();
        let ghost av = self@.action_seq();
        let ghost h0 = *handler;
        let ghost d0 = *out;
        let mut i: usize = 0;
        proof {
            assert(av.take(0) =~= Seq::<ActView>::empty());
        }
        while i < actions.len()
            invariant
                i <= actions@.len(),
                sink_run::<H>(h0, d0, av.take(i as int), *handler, *out),
            decreases actions@.len() - i,
        {
            let ghost hm = *handler;
            let ghost dm = *out;
            handler.safe_handle(out, &actions[i]);
            proof {
                assert(H::ok_effect(hm, dm, av[i as int], *handler, *out));
                lemma_sink_run_snoc::<H>(h0, d0, av.take(i as int), hm, dm, av[i as int], *handler, *out);
                assert(av.take(i as int).push(av[i as int]) =~= av.take(i + 1));
            }
            i = i + 1;
        }
        proof {
            assert(av.take(av.len() as int) =~= av);
        }
    }
}

/// What adding one input to a side does: the strategy's lines are appended
/// up to the side's free space; if they all fit the result is `None`, and
/// otherwise the lines that fit stay committed and the reconstruction of the
/// leftover lines is returned.
pub open spec fn add_spec<T: TrimStrategy>(
    p: ProcView,
    text: <T::Input as View>::V,
    s: T,
    a: Alignment,
) -> (ProcView, T, Option<<T::Input as View>::V>) {
    let (lines, s1) = T::trim_spec(s, text, p, a);
    let cap = p.space(a);
    if lines.len() <= cap {
        (p.committed(a, lines), s1, None)
    } else {
        let p2 = p.committed(a, lines.take(cap));
        let (recon, s2) = T::back_spec(s1, lines.skip(cap), p2, a);
        (p2, s2, Some(recon))
    }
}

/// The views of a sequence of input values.
pub open spec fn input_views<I: View>(v: Seq<I>) -> Seq<I::V> {
    v.map_values(|x: I| x@)
}

/// The per-input outcomes of a sequence of add results: `None` where the
/// input fit, and the reconstructed unconsumed input where it did not.
pub open spec fn err_views<T: TrimStrategy>(rs: Seq<Result<(), FormatError<T>>>) -> Seq<
    Option<<T::Input as View>::V>,
> {
    rs.map_values(
        |r: Result<(), FormatError<T>>|
            match r {
                Ok(_) => None,
                Err(FormatError::NoSpace(x)) => Some(x@),
            },
    )
}

/// What adding a sequence of inputs one at a time does: each input is added
/// independently with [`add_spec`], threading the section and the strategy
/// state from one to the next.
pub open spec fn add_seq_spec<T: TrimStrategy>(
    p: ProcView,
    texts: Seq<<T::Input as View>::V>,
    s: T,
    a: Alignment,
) -> (ProcView, T, Seq<Option<<T::Input as View>::V>>)
    decreases texts.len(),
{
    if texts.len() == 0 {
        (p, s, Seq::empty())
    } else {
        let (p1, s1, e) = add_spec::<T>(p, texts[0], s, a);
        let (p2, s2, es) = add_seq_spec::<T>(p1, texts.skip(1), s1, a);
        (p2, s2, seq![e] + es)
    }
}

/// With the divider at the beginning, a truncating section accepts a plus
/// line exactly while the plus side holds fewer lines than the section's
/// height; once the plus side is full, adding fails and hands back the
/// width-trimmed text, with the section unchanged.
pub proof fn lemma_truncate_plus_capacity(p: ProcView, text: Seq<char>, st: Truncate)
    requires
        p.wf(),
        p.divider == 0,
    ensures
        ({
            let (p2, s2, e) = add_spec::<Truncate>(p, text, st, Alignment::Plus);
            let line = trunc_line(graphemes_of(text), p.width());
            &&& p.plus.len() < p.height() ==> e is None && p2.plus == p.plus.push(line)
                && p2.minus == p.minus
            &&& p.plus.len() == p.height() ==> p2 == p && (match e {
                Some(v) => v == line,
                None => false,
            })
        }),
{
    let (lines, s1) = <Truncate as TrimStrategy>::trim_spec(st, text, p, Alignment::Plus);
    let line = trunc_line(graphemes_of(text), p.width());
    let cap = p.space(Alignment::Plus);
    if p.plus.len() < p.height() {
        assert(lines.len() <= cap);
        assert(p.plus + seq![line] =~= p.plus.push(line));
    } else {
        assert(cap == 0);
        assert(lines.take(0) =~= Seq::<Seq<char>>::empty());
        let p2 = p.committed(Alignment::Plus, lines.take(0));
        assert(p2.plus =~= p.plus);
        assert(p2 == p);
        assert(lines.skip(0) =~= lines);
    }
}

proof fn lemma_rows_output(p: ProcView, k: int)
    requires
        0 <= k <= p.height(),
    ensures
        out_to_string_output(p.action_seq().skip(2 * k)) == p.rows_from(k),
    decreases p.height() - k,
{
    let av = p.action_seq();
    if k == p.height() {
        assert(av.skip(2 * k) =~= Seq::<ActView>::empty());
    } else {
        lemma_rows_output(p, k + 1);
        let tail = av.skip(2 * k);
        assert((2 * k) % 2 == 0 && (2 * k) / 2 == k);
        assert((2 * k + 1) % 2 == 1 && (2 * k + 1) / 2 == k);
        assert(tail[0] == av[2 * k]);
        assert(tail.skip(1)[0] == av[2 * k + 1]);
        assert(tail.skip(1).skip(1) =~= av.skip(2 * (k + 1)));
        assert(out_to_string_output(tail.skip(1)) == (p.row_view(k) + seq!['\n'])
            + out_to_string_output(av.skip(2 * (k + 1))));
        assert(Seq::<char>::empty() + ((p.row_view(k) + seq!['\n']) + p.rows_from(k + 1))
            =~= p.row_view(k) + seq!['\n'] + p.rows_from(k + 1));
    }
}

/// Printing a section through the string-collecting sink appends to the
/// output string exactly the section's rows, top to bottom, each followed by
/// a newline: the section's entire rectangle is repainted, blank padding
/// included.
pub proof fn lemma_print_to_string(
    p: ProcView,
    h0: crate::out::OutToString,
    d0: String,
    h1: crate::out::OutToString,
    d1: String,
)
    requires
        p.height() >= 0,
        sink_run::<crate::out::OutToString>(h0, d0, p.action_seq(), h1, d1),
    ensures
        d1@ == d0@ + p.rows_from(0),
{
    crate::out::lemma_out_to_string_run(h0, d0, p.action_seq(), h1, d1);
    lemma_rows_output(p, 0);
    assert(p.action_seq().skip(0) =~= p.action_seq());
}

impl Grid {
    /// Converts the grid into a [`DrawProcess`] whose divider is placed as
    /// `strategy` directs. A `Pos` divider must lie inside the section, that
    /// is, at most the grid's height.
    pub fn into_process(self, strategy: DividerStrategy) -> (r: DrawProcess)
        requires
            self.wf(),
            match strategy {
                DividerStrategy::Pos(v) => v <= self.spec_height(),
                _ => true,
            },
        ensures
            r.inv(),
            r@ == (ProcView {
                start_x: self.start_x as int,
                start_y: self.start_y as int,
                end_x: self.end_x as int,
                end_y: self.end_y as int,
                divider: divider_of(strategy, self.spec_height()),
                minus: Seq::<Seq<char>>::empty(),
                plus: Seq::<Seq<char>>::empty(),
            }),
    {
        DrawProcess::new(self, strategy)
    }
}

} // verus!
