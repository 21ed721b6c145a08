use vstd::prelude::*;

use crate::decimal::{format_price, price_text};
use crate::series::{PricePoint, Series};
use crate::viewport::Viewport;

verus! {

/// What one redraw shows: the axis bounds and labels and the points to plot.
/// Prices are in price units.
#[derive(Debug)]
pub struct Frame {
    pub x_bounds: (usize, usize),
    /// The first and the last date of the whole series; none when it is empty.
    pub x_labels: Option<(String, String)>,
    pub y_bounds: (i128, i128),
    pub y_labels: (String, String),
    pub plotted: Vec<PricePoint>,
}

/// The lower price bound: the minimum less the zoom offset.
pub open spec fn y_low(series: &Series, view: &Viewport) -> int {
    series.min - view.zoom_offset
}

/// The upper price bound: the maximum plus the zoom offset.
pub open spec fn y_high(series: &Series, view: &Viewport) -> int {
    series.max + view.zoom_offset
}

/// `f` is the frame for the series seen through the viewport.
pub open spec fn frame_of(f: &Frame, series: &Series, view: &Viewport) -> bool {
    &&& f.x_bounds == (view.window_start, view.window_end)
    &&& match f.x_labels {
        Some(labels) => series.count > 0 && labels.0@ == series.labels@[0]@ && labels.1@
            == series.labels@[series.count - 1]@,
        None => series.count == 0,
    }
    &&& f.y_bounds.0 == y_low(series, view)
    &&& f.y_bounds.1 == y_high(series, view)
    &&& f.y_labels.0@ == price_text(y_low(series, view))
    &&& f.y_labels.1@ == price_text(y_high(series, view))
    &&& f.plotted@ == series.points@
}

/// Combines a series with the viewport into the frame to draw. The x axis
/// spans the window and is labelled with the first and last dates of the
/// whole series; the y axis spans the extrema widened by the zoom offset;
/// every point is handed over, the window clips nothing here.
pub fn compose(series: &Series, view: &Viewport) -> (f: Frame)
    requires
        series.wf(),
    ensures
        frame_of(&f, series, view),
{
    let x_labels = if series.count > 0 {
        Some((series.labels[0].clone(), series.labels[series.count - 1].clone()))
    } else {
        None
    };
    let low: i128 = series.min as i128 - view.zoom_offset as i128;
    let high: i128 = series.max as i128 + view.zoom_offset as i128;
    let mut plotted: Vec<PricePoint> = Vec::new();
    let mut i: usize = 0;
    while i < series.points.len()
        invariant
            i <= series.points@.len(),
            plotted@ == series.points@.subrange(0, i as int),
        decreases series.points@.len() - i,
    {
        plotted.push(series.points[i]);
        i = i + 1;
        assert(plotted@ =~= series.points@.subrange(0, i as int));
    }
    assert(plotted@ =~= series.points@);
    Frame {
        x_bounds: (view.window_start, view.window_end),
        x_labels,
        y_bounds: (low, high),
        y_labels: (format_price(low), format_price(high)),
        plotted,
    }
}

} // verus!
