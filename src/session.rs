use vstd::prelude::*;

use crate::frame::{compose, frame_of, Frame};
use crate::series::Series;
use crate::viewport::Viewport;

verus! {

/// What one event asks of the loop.
#[derive(Debug, Clone, Copy, PartialEq, Eq, Structural)]
pub enum Command {
    Quit,
    PanLeft,
    PanRight,
    ZoomIn,
    ZoomOut,
    Tick,
    Unrecognized,
}

/// Whether the loop goes on.
#[derive(Debug, Clone, Copy, PartialEq, Eq, Structural)]
pub enum LoopState {
    Running,
    Terminated,
}

/// The command bound to a key: `q` quits, `h` and `l` pan left and right,
/// `j` zooms in, `k` zooms out; other keys are not recognized.
pub open spec fn key_command(c: char) -> Command {
    if c == 'q' {
        Command::Quit
    } else if c == 'h' {
        Command::PanLeft
    } else if c == 'l' {
        Command::PanRight
    } else if c == 'j' {
        Command::ZoomIn
    } else if c == 'k' {
        Command::ZoomOut
    } else {
        Command::Unrecognized
    }
}

pub fn command_for_key(c: char) -> (r: Command)
    ensures
        r == key_command(c),
{
    if c == 'q' {
        Command::Quit
    } else if c == 'h' {
        Command::PanLeft
    } else if c == 'l' {
        Command::PanRight
    } else if c == 'j' {
        Command::ZoomIn
    } else if c == 'k' {
        Command::ZoomOut
    } else {
        Command::Unrecognized
    }
}

/// The viewport after a command over `count` points.
pub open spec fn view_after(v: Viewport, count: int, cmd: Command) -> Viewport {
    match cmd {
        Command::PanLeft => v.panned_left(),
        Command::PanRight => v.panned_right(count),
        Command::ZoomIn => v.zoomed_in(),
        Command::ZoomOut => v.zoomed_out(),
        _ => v,
    }
}

/// The loop state after a command: only quitting ends it.
pub open spec fn state_after(s: LoopState, cmd: Command) -> LoopState {
    if cmd == Command::Quit {
        LoopState::Terminated
    } else {
        s
    }
}

/// The outcome of running the loop over a recorded sequence of events from
/// a running state: the number of frames drawn, the final viewport, and
/// whether the loop ended. Each round draws a frame and then takes one
/// event; when the events run out the loop is left waiting after its last
/// frame.
pub open spec fn run_outcome(v: Viewport, count: int, events: Seq<Command>) -> (
    nat,
    Viewport,
    LoopState,
)
    decreases events.len(),
{
    if events.len() == 0 {
        (1, v, LoopState::Running)
    } else if events[0] == Command::Quit {
        (1, v, LoopState::Terminated)
    } else {
        let rest = run_outcome(view_after(v, count, events[0]), count, events.drop_first());
        (rest.0 + 1, rest.1, rest.2)
    }
}

/// The running viewer: the series, the viewport over it, and the loop state.
#[derive(Debug)]
pub struct Session {
    pub series: Series,
    pub view: Viewport,
    pub state: LoopState,
}

impl Session {
    pub open spec fn wf(&self) -> bool {
        self.series.wf() && self.view.wf()
    }

    pub fn new(series: Series) -> (r: Session)
        requires
            series.wf(),
        ensures
            r.wf(),
            r.series == series,
            r.view == Viewport::initial(),
            r.state == LoopState::Running,
    {
        Session { series, view: Viewport::new(), state: LoopState::Running }
    }

    /// The frame to draw for the current state.
    pub fn frame(&self) -> (f: Frame)
        requires
            self.wf(),
        ensures
            frame_of(&f, &self.series, &self.view),
    {
        compose(&self.series, &self.view)
    }

    /// Applies one event: a navigation command changes the viewport, quit
    /// ends the loop, a tick or an unrecognized key changes nothing.
    pub fn handle(&mut self, cmd: Command) -> (s: LoopState)
        requires
            old(self).wf(),
        ensures
            final(self).wf(),
            final(self).series == old(self).series,
            final(self).view == view_after(old(self).view, old(self).series.count as int, cmd),
            final(self).state == state_after(old(self).state, cmd),
            s == final(self).state,
    {
        match cmd {
            Command::Quit => {
                self.state = LoopState::Terminated;
            },
            Command::PanLeft => {
                self.view.pan_left();
            },
            Command::PanRight => {
                self.view.pan_right(self.series.count);
            },
            Command::ZoomIn => {
                self.view.zoom_in();
            },
            Command::ZoomOut => {
                self.view.zoom_out();
            },
            Command::Tick => {},
            Command::Unrecognized => {},
        }
        self.state
    }

    /// Runs the loop over recorded events, drawing a frame before each
    /// event and stopping at quit; returns the frames drawn.
    pub fn run_events(&mut self, events: &Vec<Command>) -> (frames: Vec<Frame>)
        requires
            old(self).wf(),
            old(self).state == LoopState::Running,
        ensures
            final(self).wf(),
            final(self).series == old(self).series,
            frames@.len() == run_outcome(old(self).view, old(self).series.count as int, events@).0,
            final(self).view == run_outcome(old(self).view, old(self).series.count as int, events@).1,
            final(self).state == run_outcome(
                old(self).view,
                old(self).series.count as int,
                events@,
            ).2,
    {
        let ghost count = self.series.count as int;
        let mut frames: Vec<Frame> = Vec::new();
        let mut i: usize = 0;
        assert(events@.subrange(0, events@.len() as int) =~= events@);
        loop
            invariant_except_break
                self.state == LoopState::Running,
                frames@.len() == i,
                run_outcome(old(self).view, count, events@) == ({
                    let rest = run_outcome(
                        self.view,
                        count,
                        events@.subrange(i as int, events@.len() as int),
                    );
                    ((rest.0 + i) as nat, rest.1, rest.2)
                }),
            invariant
                self.wf(),
                self.series == old(self).series,
                count == self.series.count,
                i <= events@.len(),
            ensures
                frames@.len() == run_outcome(old(self).view, count, events@).0,
                self.view == run_outcome(old(self).view, count, events@).1,
                self.state == run_outcome(old(self).view, count, events@).2,
            decreases events@.len() - i,
        {
            frames.push(self.frame());
            if i == events.len() {
                break;
            }
            let cmd = events[i];
            let ghost rest = events@.subrange(i as int, events@.len() as int);
            assert(rest[0] == cmd);
            assert(rest.drop_first() =~= events@.subrange(i + 1, events@.len() as int));
            self.handle(cmd);
            i = i + 1;
            if cmd == Command::Quit {
                break;
            }
        }
        frames
    }
}

/// When the first event is quit, the loop draws exactly one frame and ends,
/// with the viewport untouched.
pub proof fn lemma_quit_first_draws_once(v: Viewport, count: int, events: Seq<Command>)
    requires
        events.len() > 0,
        events[0] == Command::Quit,
    ensures
        run_outcome(v, count, events) == (1nat, v, LoopState::Terminated),
{
}

} // verus!
