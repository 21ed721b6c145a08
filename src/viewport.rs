use vstd::prelude::*;

verus! {

/// Width of the visible window, in points; every pan moves it by this much.
pub const SPAN: usize = 100;

/// How much one zoom step widens the price axis on each side: ten whole
/// units, in price units.
pub const ZOOM_STEP: u64 = 100000;

/// The visible window `[window_start, window_end)` over the series and the
/// padding added below and above the price extrema.
#[derive(Debug, Clone, Copy, PartialEq, Eq, Structural)]
pub struct Viewport {
    pub window_start: usize,
    pub window_end: usize,
    pub zoom_offset: u64,
}

impl Viewport {
    /// The window has the fixed width and starts on a multiple of it.
    pub open spec fn wf(&self) -> bool {
        &&& self.window_start < self.window_end
        &&& self.window_end - self.window_start == SPAN
        &&& self.window_start % SPAN == 0
    }

    pub open spec fn initial() -> Viewport {
        Viewport { window_start: 0, window_end: SPAN, zoom_offset: 0 }
    }

    /// The window moved one span right, unless that would pass the end of
    /// a series of `count` points.
    pub open spec fn panned_right(self, count: int) -> Viewport {
        if self.window_end + SPAN <= count {
            Viewport {
                window_start: (self.window_start + SPAN) as usize,
                window_end: (self.window_end + SPAN) as usize,
                ..self
            }
        } else {
            self
        }
    }

    /// The window moved one span left, unless it already starts at zero.
    pub open spec fn panned_left(self) -> Viewport {
        if self.window_start > 0 {
            Viewport {
                window_start: (self.window_start - SPAN) as usize,
                window_end: (self.window_end - SPAN) as usize,
                ..self
            }
        } else {
            self
        }
    }

    /// One zoom step wider, unless the offset would no longer fit.
    pub open spec fn zoomed_in(self) -> Viewport {
        if self.zoom_offset + ZOOM_STEP <= u64::MAX {
            Viewport { zoom_offset: (self.zoom_offset + ZOOM_STEP) as u64, ..self }
        } else {
            self
        }
    }

    /// One zoom step narrower, only while the offset exceeds one step.
    pub open spec fn zoomed_out(self) -> Viewport {
        if self.zoom_offset > ZOOM_STEP {
            Viewport { zoom_offset: (self.zoom_offset - ZOOM_STEP) as u64, ..self }
        } else {
            self
        }
    }

    /// The window over the first points, with no zoom.
    pub fn new() -> (r: Viewport)
        ensures
            r == Viewport::initial(),
            r.wf(),
    {
        Viewport { window_start: 0, window_end: SPAN, zoom_offset: 0 }
    }

    pub fn pan_right(&mut self, count: usize)
        requires
            old(self).wf(),
        ensures
            *final(self) == old(self).panned_right(count as int),
            final(self).wf(),
    {
        if self.window_end <= count && count - self.window_end >= SPAN {
            self.window_start = self.window_start + SPAN;
            self.window_end = self.window_end + SPAN;
        }
    }

    pub fn pan_left(&mut self)
        requires
            old(self).wf(),
        ensures
            *final(self) == old(self).panned_left(),
            final(self).wf(),
    {
        if self.window_start > 0 {
            self.window_start = self.window_start - SPAN;
            self.window_end = self.window_end - SPAN;
        }
    }

    pub fn zoom_in(&mut self)
        ensures
            *final(self) == old(self).zoomed_in(),
    {
        if self.zoom_offset <= u64::MAX - ZOOM_STEP {
            self.zoom_offset = self.zoom_offset + ZOOM_STEP;
        }
    }

    pub fn zoom_out(&mut self)
        ensures
            *final(self) == old(self).zoomed_out(),
    {
        if self.zoom_offset > ZOOM_STEP {
            self.zoom_offset = self.zoom_offset - ZOOM_STEP;
        }
    }
}

/// The viewport after a sequence of pans over `count` points; `true` pans
/// right, `false` pans left.
pub open spec fn apply_pans(v: Viewport, count: int, moves: Seq<bool>) -> Viewport
    decreases moves.len(),
{
    if moves.len() == 0 {
        v
    } else {
        let next = if moves[0] {
            v.panned_right(count)
        } else {
            v.panned_left()
        };
        apply_pans(next, count, moves.drop_first())
    }
}

/// The viewport after `n` zoom-in steps.
pub open spec fn zoom_in_times(v: Viewport, n: nat) -> Viewport
    decreases n,
{
    if n == 0 {
        v
    } else {
        zoom_in_times(v, (n - 1) as nat).zoomed_in()
    }
}

/// The viewport after `n` zoom-out steps.
pub open spec fn zoom_out_times(v: Viewport, n: nat) -> Viewport
    decreases n,
{
    if n == 0 {
        v
    } else {
        zoom_out_times(v, (n - 1) as nat).zoomed_out()
    }
}

/// No sequence of pans moves a window that fits within `count` points out of
/// them: it keeps its shape, starts at or after zero and ends at or before
/// `count`.
pub proof fn lemma_pans_stay_within_series(v: Viewport, count: usize, moves: Seq<bool>)
    requires
        v.wf(),
        v.window_end <= count,
    ensures
        apply_pans(v, count as int, moves).wf(),
        apply_pans(v, count as int, moves).window_start >= 0,
        apply_pans(v, count as int, moves).window_end <= count,
    decreases moves.len(),
{
    if moves.len() > 0 {
        let next = if moves[0] {
            v.panned_right(count as int)
        } else {
            v.panned_left()
        };
        assert(next.window_start == v.window_start || next.window_start == v.window_start + SPAN
            || next.window_start == v.window_start - SPAN);
        assert(next.wf());
        lemma_pans_stay_within_series(next, count, moves.drop_first());
    }
}

/// Panning left at the start of the series, or right at its end, changes
/// nothing.
pub proof fn lemma_pan_at_edge_is_no_op(v: Viewport, count: usize)
    requires
        v.wf(),
    ensures
        v.window_start == 0 ==> v.panned_left() == v,
        v.window_end == count ==> v.panned_right(count as int) == v,
{
}

/// Each zoom-in step widens the offset by one step, so repeated zooming in
/// strictly increases it, as long as the result fits.
pub proof fn lemma_zoom_in_increases(v: Viewport, n: nat)
    requires
        v.zoom_offset + n * ZOOM_STEP <= u64::MAX,
    ensures
        zoom_in_times(v, n).zoom_offset == v.zoom_offset + n * ZOOM_STEP,
        n > 0 ==> zoom_in_times(v, n).zoom_offset > zoom_in_times(v, (n - 1) as nat).zoom_offset,
    decreases n,
{
    if n > 0 {
        assert((n - 1) * ZOOM_STEP <= n * ZOOM_STEP) by (nonlinear_arith);
        assert(n * ZOOM_STEP == (n - 1) * ZOOM_STEP + ZOOM_STEP) by (nonlinear_arith);
        lemma_zoom_in_increases(v, (n - 1) as nat);
    }
}

/// Zooming out any number of times never raises the offset and never takes
/// it below zero.
pub proof fn lemma_zoom_out_stays_nonnegative(v: Viewport, n: nat)
    ensures
        0 <= zoom_out_times(v, n).zoom_offset <= v.zoom_offset,
    decreases n,
{
    if n > 0 {
        lemma_zoom_out_stays_nonnegative(v, (n - 1) as nat);
    }
}

} // verus!
