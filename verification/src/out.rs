//! Output handling: the action instructions a section emits, the handler
//! traits that carry actions to an output device, and two string-collecting
//! reference sinks.

use vstd::prelude::*;

use crate::grid::Frame;
use crate::trim::{concat_range, graphemes_of, split_graphemes, str_views};

verus! {

/// One atomic output instruction: print text at the current cursor position,
/// or move the cursor to an absolute position (`x`, then `y`, in the same
/// unit space as a grid).
#[derive(Debug, Clone, PartialEq, Eq, Hash)]
pub enum Action {
    Print(String),
    MoveTo(usize, usize),
}

/// The mathematical value of an [`Action`].
pub ghost enum ActView {
    Print(Seq<char>),
    MoveTo(int, int),
}

impl View for Action {
    type V = ActView;

    open spec fn view(&self) -> ActView {
        match self {
            Action::Print(s) => ActView::Print(s@),
            Action::MoveTo(x, y) => ActView::MoveTo(*x as int, *y as int),
        }
    }
}

/// A handler converts actions into output on an output device.
///
/// An implementor states in `ok_effect` what one successfully handled action
/// does to the handler and to the device; `handle` may fail with a
/// handler-defined error and promises the effect only on success.
pub trait Handler where Self: Sized {
    type OutputDevice;

    type Error;

    /// What one successfully handled action does.
    spec fn ok_effect(
        pre: Self,
        pre_dev: Self::OutputDevice,
        action: ActView,
        post: Self,
        post_dev: Self::OutputDevice,
    ) -> bool;

    /// Whether this handler is infallible: `handle` then never returns an
    /// error. Every safe handler declares this, so callers get its effect
    /// unconditionally.
    spec fn infallible() -> bool;

    /// Carries one action to the output device.
    fn handle(&mut self, out: &mut Self::OutputDevice, input: &Action) -> (r: Result<
        (),
        Self::Error,
    >)
        ensures
            r is Ok ==> Self::ok_effect(*old(self), *old(out), input@, *final(self), *final(out)),
            Self::infallible() ==> r is Ok,
    ;
}

/// A handler that is "safe": handling an action cannot fail. Every safe
/// handler is also a [`Handler`] (with `()` as its error), so it can be used
/// wherever a handler is expected.
pub trait SafeHandler where Self: Sized {
    type OutputDevice;

    /// What one handled action does.
    spec fn effect(
        pre: Self,
        pre_dev: Self::OutputDevice,
        action: ActView,
        post: Self,
        post_dev: Self::OutputDevice,
    ) -> bool;

    /// Carries one action to the output device.
    fn safe_handle(&mut self, out: &mut Self::OutputDevice, input: &Action)
        ensures
            Self::effect(*old(self), *old(out), input@, *final(self), *final(out)),
    ;
}

impl<H: SafeHandler> Handler for H {
    type OutputDevice = <H as SafeHandler>::OutputDevice;

    type Error = ();

    open spec fn ok_effect(
        pre: Self,
        pre_dev: <H as SafeHandler>::OutputDevice,
        action: ActView,
        post: Self,
        post_dev: <H as SafeHandler>::OutputDevice,
    ) -> bool {
        <H as SafeHandler>::effect(pre, pre_dev, action, post, post_dev)
    }

    open spec fn infallible() -> bool {
        true
    }

    fn handle(&mut self, out: &mut <H as SafeHandler>::OutputDevice, input: &Action) -> (r: Result<
        (),
        (),
    >) {
        self.safe_handle(out, input);
        Ok(())
    }
}

/// Whether handling the actions one after the other, each call succeeding
/// with its declared effect, can carry the handler and device from
/// `(h0, d0)` to `(h1, d1)`.
pub open spec fn sink_run<H: Handler>(
    h0: H,
    d0: H::OutputDevice,
    actions: Seq<ActView>,
    h1: H,
    d1: H::OutputDevice,
) -> bool
    decreases actions.len(),
{
    if actions.len() == 0 {
        h1 == h0 && d1 == d0
    } else {
        exists|hm: H, dm: H::OutputDevice|
            H::ok_effect(h0, d0, actions[0], hm, dm) && sink_run(hm, dm, actions.skip(1), h1, d1)
    }
}

/// A run extends by one more successfully handled action.
pub proof fn lemma_sink_run_snoc<H: Handler>(
    h0: H,
    d0: H::OutputDevice,
    actions: Seq<ActView>,
    hm: H,
    dm: H::OutputDevice,
    a: ActView,
    h1: H,
    d1: H::OutputDevice,
)
    requires
        sink_run(h0, d0, actions, hm, dm),
        H::ok_effect(hm, dm, a, h1, d1),
    ensures
        sink_run(h0, d0, actions.push(a), h1, d1),
    decreases actions.len(),
{
    if actions.len() == 0 {
        assert(actions.push(a)[0] == a);
        assert(actions.push(a).skip(1) =~= Seq::<ActView>::empty());
        assert(H::ok_effect(h0, d0, a, h1, d1));
        assert(sink_run(h1, d1, actions.push(a).skip(1), h1, d1));
    } else {
        let (hx, dx) = choose|hx: H, dx: H::OutputDevice|
            H::ok_effect(h0, d0, actions[0], hx, dx) && sink_run(hx, dx, actions.skip(1), hm, dm);
        lemma_sink_run_snoc::<H>(hx, dx, actions.skip(1), hm, dm, a, h1, d1);
        assert(actions.push(a).skip(1) =~= actions.skip(1).push(a));
        assert(actions.push(a)[0] == actions[0]);
    }
}

/// A handler that outputs the text to a string, as lines: each print appends
/// its text and a newline, and cursor moves are ignored entirely. This makes
/// it useful for inspecting the instruction stream without a real terminal;
/// it does no positioning, so only the order of the calls matters.
pub struct OutToString;

impl SafeHandler for OutToString {
    type OutputDevice = String;

    open spec fn effect(
        pre: Self,
        pre_dev: String,
        action: ActView,
        post: Self,
        post_dev: String,
    ) -> bool {
        match action {
            ActView::Print(s) => post_dev@ == pre_dev@ + s + seq!['\n'],
            ActView::MoveTo(x, y) => post_dev@ == pre_dev@,
        }
    }

    fn safe_handle(&mut self, out: &mut String, input: &Action) {
        match input {
            Action::Print(s) => {
                out.append(s.as_str());
                out.append("\n");
                proof {
                    reveal_strlit("\n");
                    assert("\n"@ =~= seq!['\n']);
                }
            }
            Action::MoveTo(_, _) => {}
        }
    }
}

/// What the string sink accumulates over a sequence of actions: the printed
/// texts in order, each followed by a newline; cursor moves add nothing.
pub open spec fn out_to_string_output(acts: Seq<ActView>) -> Seq<char>
    decreases acts.len(),
{
    if acts.len() == 0 {
        Seq::empty()
    } else {
        (match acts[0] {
            ActView::Print(s) => s + seq!['\n'],
            ActView::MoveTo(x, y) => Seq::<char>::empty(),
        }) + out_to_string_output(acts.skip(1))
    }
}

/// Running the string sink over any sequence of actions appends exactly
/// [`out_to_string_output`] of that sequence to the output string.
pub proof fn lemma_out_to_string_run(
    h0: OutToString,
    d0: String,
    acts: Seq<ActView>,
    h1: OutToString,
    d1: String,
)
    requires
        sink_run::<OutToString>(h0, d0, acts, h1, d1),
    ensures
        d1@ == d0@ + out_to_string_output(acts),
    decreases acts.len(),
{
    if acts.len() == 0 {
        assert(d0@ + out_to_string_output(acts) =~= d0@);
    } else {
        let (hm, dm) = choose|hm: OutToString, dm: String|
            <OutToString as Handler>::ok_effect(h0, d0, acts[0], hm, dm) && sink_run(
                hm,
                dm,
                acts.skip(1),
                h1,
                d1,
            );
        lemma_out_to_string_run(hm, dm, acts.skip(1), h1, d1);
        match acts[0] {
            ActView::Print(s) => {
                assert(dm@ == d0@ + s + seq!['\n']);
                assert(d0@ + s + seq!['\n'] + out_to_string_output(acts.skip(1)) =~= d0@ + ((s
                    + seq!['\n']) + out_to_string_output(acts.skip(1))));
            }
            ActView::MoveTo(x, y) => {
                assert(dm@ == d0@);
                assert(d0@ + out_to_string_output(acts.skip(1)) =~= d0@ + (Seq::<char>::empty()
                    + out_to_string_output(acts.skip(1))));
            }
        }
    }
}

/// The mathematical state of a [`StringBuffer`]: a grid of grapheme cells
/// and a cursor, both relative to the buffer's offset.
pub ghost struct BufView {
    pub contents: Seq<Seq<Seq<char>>>,
    pub offset_x: int,
    pub offset_y: int,
    pub cur_x: int,
    pub cur_y: int,
}

/// A row after writing the graphemes `g` into it starting at column `x`;
/// cells outside the row are dropped.
pub open spec fn written_row(row: Seq<Seq<char>>, x: int, g: Seq<Seq<char>>) -> Seq<Seq<char>> {
    Seq::new(row.len(), |c: int| if x <= c < x + g.len() { g[c - x] } else { row[c] })
}

/// A buffer's contents after writing the graphemes `g` into row `y` starting
/// at column `x`; writes outside the buffer are dropped.
pub open spec fn written(c: Seq<Seq<Seq<char>>>, y: int, x: int, g: Seq<Seq<char>>) -> Seq<
    Seq<Seq<char>>,
> {
    Seq::new(c.len(), |r: int| if r == y { written_row(c[r], x, g) } else { c[r] })
}

/// A more involved variant of [`OutToString`]: a two-dimensional buffer of
/// grapheme cells with an offset, so that several grids of one frame can be
/// printed through it in any order and read back as whole lines.
///
/// A cursor move clamps to the buffer's origin when it aims above or left of
/// the offset, and a print drops the part that falls outside the buffer;
/// text printed by an overflowing trim policy (such as the pass-through one)
/// can still overwrite neighboring regions *inside* the buffer.
pub struct StringBuffer {
    pub contents: Vec<Vec<String>>,
    pub offset_x: usize,
    pub offset_y: usize,
    current_x: usize,
    current_y: usize,
}

impl View for StringBuffer {
    type V = BufView;

    closed spec fn view(&self) -> BufView {
        BufView {
            contents: self.contents@.map_values(|row: Vec<String>| str_views(row@)),
            offset_x: self.offset_x as int,
            offset_y: self.offset_y as int,
            cur_x: self.current_x as int,
            cur_y: self.current_y as int,
        }
    }
}

impl StringBuffer {
    /// Creates a new buffer from four bounds, filled with single-space cells
    /// and with the cursor at its origin.
    pub fn new(min_x: usize, min_y: usize, max_x: usize, max_y: usize) -> (r: StringBuffer)
        requires
            min_x <= max_x,
            min_y <= max_y,
        ensures
            r@.offset_x == min_x,
            r@.offset_y == min_y,
            r@.cur_x == 0,
            r@.cur_y == 0,
            r@.contents.len() == max_y - min_y,
            forall|i: int| #![trigger r@.contents[i]]
                0 <= i < r@.contents.len() ==> r@.contents[i].len() == max_x - min_x && forall|
                    j: int,
                |
                    0 <= j < r@.contents[i].len() ==> r@.contents[i][j] == seq![' '],
    {
        let w = max_x - min_x;
        let h = max_y - min_y;
        let mut contents: Vec<Vec<String>> = Vec::new();
        while contents.len() < h
            invariant
                contents@.len() <= h,
                forall|i: int| #![trigger contents@[i]]
                    0 <= i < contents@.len() ==> contents@[i]@.len() == w && forall|j: int|
                        0 <= j < contents@[i]@.len() ==> contents@[i]@[j]@ == seq![' '],
            decreases h - contents.len(),
        {
            let mut row: Vec<String> = Vec::new();
            while row.len() < w
                invariant
                    row@.len() <= w,
                    forall|j: int| 0 <= j < row@.len() ==> row@[j]@ == seq![' '],
                decreases w - row.len(),
            {
                row.push(String::from_str(" "));
                proof {
                    reveal_strlit(" ");
                    assert(" "@ =~= seq![' ']);
                }
            }
            contents.push(row);
        }
        let r = StringBuffer { contents, offset_x: min_x, offset_y: min_y, current_x: 0, current_y: 0 };
        proof {
            assert forall|i: int| 0 <= i < r@.contents.len() implies (#[trigger] r@.contents[i]).len()
                == max_x - min_x && forall|j: int| 0 <= j < r@.contents[i].len() ==> r@.contents[i][j]
                == seq![' '] by {
                assert(r@.contents[i] == str_views(r.contents@[i]@));
                assert forall|j: int| 0 <= j < r@.contents[i].len() implies r@.contents[i][j]
                    == seq![' '] by {
                    assert(str_views(r.contents@[i]@)[j] == r.contents@[i]@[j]@);
                }
            }
        }
        r
    }

    /// Creates a new buffer with the same bounds as the frame.
    pub fn from_frame(f: &Frame) -> (r: StringBuffer)
        requires
            f@.wf(),
        ensures
            r@.offset_x == f@.start_x,
            r@.offset_y == f@.start_y,
            r@.cur_x == 0,
            r@.cur_y == 0,
            r@.contents.len() == f@.spec_height(),
            forall|i: int| #![trigger r@.contents[i]]
                0 <= i < r@.contents.len() ==> r@.contents[i].len() == f@.spec_width() && forall|
                    j: int,
                |
                    0 <= j < r@.contents[i].len() ==> r@.contents[i][j] == seq![' '],
    {
        let g = f.next_frame();
        StringBuffer::new(g.start_x, g.start_y, g.end_x, g.end_y)
    }

    /// Returns the buffer's rows, each collected into one string.
    pub fn lines(self) -> (r: Vec<String>)
        ensures
            str_views(r@) == self@.contents.map_values(|row: Seq<Seq<char>>| row.flatten()),
    {
        let mut out: Vec<String> = Vec::new();
        let mut i: usize = 0;
        while i < self.contents.len()
            invariant
                i <= self.contents@.len(),
                out@.len() == i,
                forall|m: int| #![trigger out@[m]]
                    0 <= m < i ==> out@[m]@ == str_views(self.contents@[m]@).flatten(),
            decreases self.contents@.len() - i,
        {
            let row = &self.contents[i];
            let line = concat_range(row, 0, row.len());
            proof {
                assert(str_views(row@).subrange(0, row@.len() as int) =~= str_views(row@));
            }
            out.push(line);
            i = i + 1;
        }
        proof {
            let target = self@.contents.map_values(|row: Seq<Seq<char>>| row.flatten());
            assert forall|m: int| 0 <= m < out@.len() implies str_views(out@)[m] == target[m] by {
                assert(str_views(out@)[m] == out@[m]@);
                assert(self@.contents[m] == str_views(self.contents@[m]@));
            }
            assert(str_views(out@) =~= target);
        }
        out
    }
}

impl SafeHandler for StringBuffer {
    type OutputDevice = ();

    open spec fn effect(pre: Self, pre_dev: (), action: ActView, post: Self, post_dev: ()) -> bool {
        match action {
            ActView::MoveTo(x, y) => {
                &&& post@.contents == pre@.contents
                &&& post@.offset_x == pre@.offset_x
                &&& post@.offset_y == pre@.offset_y
                &&& post@.cur_x == (if x >= pre@.offset_x { x - pre@.offset_x } else { 0 })
                &&& post@.cur_y == (if y >= pre@.offset_y { y - pre@.offset_y } else { 0 })
            }
            ActView::Print(s) => {
                &&& post@.contents == written(pre@.contents, pre@.cur_y, pre@.cur_x, graphemes_of(s))
                &&& post@.offset_x == pre@.offset_x
                &&& post@.offset_y == pre@.offset_y
                &&& post@.cur_x == pre@.cur_x
                &&& post@.cur_y == pre@.cur_y
            }
        }
    }

    fn safe_handle(&mut self, out: &mut (), input: &Action) {
        match input {
            Action::MoveTo(x, y) => {
                self.current_x = if *x >= self.offset_x {
                    *x - self.offset_x
                } else {
                    0
                };
                self.current_y = if *y >= self.offset_y {
                    *y - self.offset_y
                } else {
                    0
                };
            }
            Action::Print(v) => {
                let g = split_graphemes(v.as_str());
                let ghost gv = str_views(g@);
                let ghost pre_contents = self@.contents;
                let ghost y = self@.cur_y;
                let ghost x = self@.cur_x;
                let ghost rawc0 = self.contents@;
                if self.current_y < self.contents.len() {
                    let mut row = self.contents.remove(self.current_y);
                    let ghost row0 = str_views(row@);
                    proof {
                        assert(row0 == pre_contents[y]);
                        assert(written_row(row0, x, gv.take(0)) =~= row0);
                        assert(str_views(row@) =~= row0);
                    }
                    let mut j: usize = 0;
                    while j < g.len()
                        invariant
                            j <= g@.len(),
                            gv == str_views(g@),
                            row@.len() == row0.len(),
                            str_views(row@) == written_row(row0, x, gv.take(j as int)),
                            x == self.current_x as int,
                        decreases g@.len() - j,
                    {
                        if self.current_x < row.len() && j < row.len() - self.current_x {
                            let val = g[j].clone();
                            let ghost rowv0 = row@;
                            row[self.current_x + j] = val;
                            proof {
                                let idx = x + j;
                                assert(val@ == gv[j as int]);
                                assert forall|c: int| 0 <= c < row@.len() implies str_views(row@)[c]
                                    == written_row(row0, x, gv.take(j + 1))[c] by {
                                    assert(str_views(row@)[c] == row@[c]@);
                                    if c == idx {
                                        assert(row@[c] == val);
                                    } else {
                                        assert(row@[c] == rowv0[c]);
                                        assert(str_views(rowv0)[c] == rowv0[c]@);
                                    }
                                }
                                assert(str_views(row@) =~= written_row(row0, x, gv.take(j + 1)));
                            }
                        } else {
                            proof {
                                assert(written_row(row0, x, gv.take(j + 1)) =~= written_row(
                                    row0,
                                    x,
                                    gv.take(j as int),
                                ));
                            }
                        }
                        j = j + 1;
                    }
                    proof {
                        assert(gv.take(gv.len() as int) =~= gv);
                    }
                    self.contents.insert(self.current_y, row);
                    proof {
                        let newc = self@.contents;
                        let target = written(pre_contents, y, x, gv);
                        assert forall|r: int| 0 <= r < newc.len() implies newc[r] == target[r] by {
                            assert(newc[r] == str_views(self.contents@[r]@));
                            if r != y {
                                assert(self.contents@[r] == rawc0[r]);
                                assert(pre_contents[r] == str_views(rawc0[r]@));
                            }
                        }
                        assert(newc =~= target);
                    }
                } else {
                    proof {
                        assert(written(pre_contents, y, x, gv) =~= pre_contents);
                    }
                }
            }
        }
    }
}

} // verus!
