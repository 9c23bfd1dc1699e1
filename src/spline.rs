use vstd::prelude::*;

use crate::error::InputError;

verus! {

/// The smallest number of control points a spline is built from.
pub const MIN_CONTROL_POINTS: usize = 4;

/// The four control points, by index, that shape one segment of a spline:
/// the segment runs from `start` to `end`, `before` and `after` are its
/// neighbours, clamped to the ends of the control-point list.
#[derive(Debug, Clone, Copy, PartialEq, Eq, Structural)]
pub struct Window {
    pub before: usize,
    pub start: usize,
    pub end: usize,
    pub after: usize,
}

/// The window of segment `i` of a spline over `count` control points.
pub open spec fn window_spec(i: int, count: int) -> Window
    recommends
        0 <= i < count - 1,
{
    Window {
        before: (if i >= 1 { i - 1 } else { 0 }) as usize,
        start: i as usize,
        end: (i + 1) as usize,
        after: (if i + 2 <= count - 1 { i + 2 } else { count - 1 }) as usize,
    }
}

/// The window of segment `i` of a spline over `count` control points.
pub fn segment_window(i: usize, count: usize) -> (w: Window)
    requires
        i + 1 < count,
    ensures
        w == window_spec(i as int, count as int),
        w.before <= w.start < w.end <= w.after < count,
{
    let before = if i >= 1 { i - 1 } else { 0 };
    let after = if i + 2 <= count - 1 { i + 2 } else { count - 1 };
    Window { before, start: i, end: i + 1, after }
}

/// The windows of all segments of a spline over `count` control points, in
/// order; a spline over `count` points has `count - 1` segments.
pub fn segment_windows(count: usize) -> (r: Result<Vec<Window>, InputError>)
    ensures
        count < MIN_CONTROL_POINTS <==> r == Err::<Vec<Window>, InputError>(InputError::TooFewControlPoints),
        r is Ok <==> count >= MIN_CONTROL_POINTS,
        r is Ok ==> {
            let ws = r->Ok_0@;
            &&& ws.len() == count - 1
            &&& forall|i: int| 0 <= i < ws.len() ==> ws[i] == window_spec(i, count as int)
        },
{
    if count < MIN_CONTROL_POINTS {
        return Err(InputError::TooFewControlPoints);
    }
    let mut ws: Vec<Window> = Vec::new();
    let mut i: usize = 0;
    while i < count - 1
        invariant
            count >= MIN_CONTROL_POINTS,
            i <= count - 1,
            ws@.len() == i,
            forall|k: int| 0 <= k < i ==> ws@[k] == window_spec(k, count as int),
        decreases count - 1 - i,
    {
        ws.push(segment_window(i, count));
        i += 1;
    }
    Ok(ws)
}

} // verus!
