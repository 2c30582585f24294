//! The frame driver: what to do on each notification of the host's
//! animation scheduler.
//!
//! The driver decides and the host acts. The host hands the driver an
//! [`Event`], the driver moves to its next state and answers with an
//! [`Action`] for the host to carry out.

use vstd::prelude::*;
use crate::canvas::{restores_own_saves, DrawOp};
use crate::error::RenderError;
use crate::kaleidoscope::{frame_ops, whole_surface, Kaleidoscope, PAT_DIM};
use crate::pattern::{quadrants, FillRect, InputCanvas};

verus! {

/// Rotation of the pattern source per tick, in hundredths of a radian.
pub const ROTATION_STEP: i64 = -1;

/// Where the driver is within a tick.
#[derive(Clone, Copy, Debug, PartialEq, Eq, Structural)]
pub enum Phase {
    /// Registered with the scheduler, waiting for the next tick.
    Idle,
    /// A tick is in progress.
    Rendering,
}

/// What the host reports to the driver.
#[derive(Clone, Copy, Debug, PartialEq, Eq, Structural)]
pub enum Event {
    /// The scheduler's per-frame notification fired.
    Tick,
    /// The work of the tick was carried out and the frame was read back.
    Rendered,
    /// The frame was handed to the visible surface and the next tick is
    /// registered.
    Delivered,
    /// The work of the tick, or the delivery of its frame, failed.
    Failed(RenderError),
}

/// The work of one tick, in the order in which it is to be done.
#[derive(Debug)]
pub struct Tick {
    /// Rotate the pattern surface by this many hundredths of a radian.
    pub rotation: i64,
    /// Then fill these rectangles of the pattern surface with the texture.
    pub fills: Vec<FillRect>,
    /// Then read the pattern surface back, for diagnostics.
    pub snapshot: Vec<DrawOp>,
    /// Then draw this on the kaleidoscope surface; the buffer held at the end
    /// is the frame.
    pub frame: Vec<DrawOp>,
}

/// What the driver asks of the host.
#[derive(Debug)]
pub enum Action {
    /// Carry out the work of the tick, then report `Rendered` or `Failed`.
    Render(Tick),
    /// Deliver the frame to the visible surface and register for the next
    /// tick, then report `Delivered` or `Failed`.
    Present,
    /// Nothing more in this tick: the next one is registered.
    Wait,
    /// Nothing: deliver no frame and do not register again.
    Halt,
}

/// What the driver's decisions depend on.
pub struct DriverState {
    pub phase: Phase,
    /// Whether the frame of the tick in progress was read back, and its
    /// delivery asked for.
    pub frame_ready: bool,
    /// Rotation of the pattern source, in hundredths of a radian.
    pub angle: int,
    /// The angle at which the frame now visible was rendered, if any frame
    /// was delivered yet.
    pub presented: Option<int>,
}

/// Whether a tick may start: the driver is idle and the pattern source can
/// take one more step.
pub open spec fn may_start(s: DriverState) -> bool {
    s.phase is Idle && i64::MIN <= s.angle + ROTATION_STEP
}

/// Whether the driver answers `event` in state `s` with [`Action::Render`].
pub open spec fn asks_render(s: DriverState, event: Event) -> bool {
    event is Tick && may_start(s)
}

/// Whether the driver answers `event` in state `s` with [`Action::Present`].
pub open spec fn asks_present(s: DriverState, event: Event) -> bool {
    event is Rendered && s.phase is Rendering && !s.frame_ready
}

/// Whether `event` in state `s` ends the tick: the frame whose delivery was
/// asked for is delivered.
pub open spec fn ends_tick(s: DriverState, event: Event) -> bool {
    event is Delivered && s.phase is Rendering && s.frame_ready
}

/// The state that follows `s` on `event`.
///
/// A tick starts only from idle and turns the pattern source one step. Once
/// its frame is rendered its delivery is asked for, and only when the frame is
/// delivered and the next tick registered is the driver idle again, with the
/// new frame the visible one. A failed tick is never finished: the driver
/// stays where it is, and so it does on every event that arrives out of turn.
pub open spec fn next_state(s: DriverState, event: Event) -> DriverState {
    if asks_render(s, event) {
        DriverState {
            phase: Phase::Rendering,
            frame_ready: false,
            angle: s.angle + ROTATION_STEP,
            presented: s.presented,
        }
    } else if asks_present(s, event) {
        DriverState {
            phase: Phase::Rendering,
            frame_ready: true,
            angle: s.angle,
            presented: s.presented,
        }
    } else if ends_tick(s, event) {
        DriverState {
            phase: Phase::Idle,
            frame_ready: false,
            angle: s.angle,
            presented: Some(s.angle),
        }
    } else {
        s
    }
}

/// A failed tick delivers nothing: the frame that was visible stays visible,
/// the driver asks for neither a delivery nor a new registration, and every
/// later tick finds the driver where the failure left it.
pub proof fn lemma_failure_keeps_frame(s: DriverState, error: RenderError)
    ensures
        next_state(s, Event::Failed(error)) == s,
        !asks_present(s, Event::Failed(error)),
        !asks_render(s, Event::Failed(error)),
        !ends_tick(s, Event::Failed(error)),
        s.phase is Rendering ==> next_state(s, Event::Tick) == s && !asks_render(s, Event::Tick),
{
}

/// The visible frame changes only when a frame is delivered, and then to the
/// frame of the tick in progress.
pub proof fn lemma_frame_changes_on_delivery(s: DriverState, event: Event)
    ensures
        !ends_tick(s, event) ==> next_state(s, event).presented == s.presented,
        ends_tick(s, event) ==> next_state(s, event).presented == Some(s.angle),
{
}

/// The driver with the two surfaces it owns.
pub struct FrameDriver {
    phase: Phase,
    frame_ready: bool,
    source: InputCanvas,
    kaleidoscope: Kaleidoscope,
    presented: Option<i64>,
}

impl FrameDriver {
    /// What the driver's decisions depend on.
    pub closed spec fn state(&self) -> DriverState {
        DriverState {
            phase: self.phase,
            frame_ready: self.frame_ready,
            angle: self.source.spec_angle(),
            presented: match self.presented {
                Some(a) => Some(a as int),
                None => None,
            },
        }
    }

    /// The pattern source.
    pub closed spec fn source(&self) -> InputCanvas {
        self.source
    }

    /// The kaleidoscope surface.
    pub closed spec fn kaleidoscope(&self) -> Kaleidoscope {
        self.kaleidoscope
    }

    /// The kaleidoscope is between frames and draws with an edge of
    /// [`PAT_DIM`].
    pub open spec fn wf(&self) -> bool {
        &&& self.kaleidoscope().wf()
        &&& self.kaleidoscope().unit().spec_edge() == PAT_DIM
    }

    /// What the kaleidoscope surface is asked to draw in the tick that starts
    /// now: what is still pending, the pattern as fill style, one frame, and
    /// the read-back of the whole surface.
    pub open spec fn tick_frame(&self) -> Seq<DrawOp> {
        let canvas = self.kaleidoscope().canvas();
        canvas.pending() + seq![DrawOp::UsePattern] + frame_ops(
            self.kaleidoscope().unit(),
            canvas.spec_width(),
            canvas.spec_height(),
        ) + seq![whole_surface(canvas.spec_width(), canvas.spec_height())]
    }

    /// What the pattern surface is asked to read back in every tick.
    pub open spec fn tick_snapshot(&self) -> Seq<DrawOp> {
        seq![
            DrawOp::Capture {
                left: 0,
                top: 0,
                width: self.source().spec_width() as u32,
                height: self.source().spec_height() as u32,
            },
            DrawOp::Stamp { px: 0, py: 0 },
        ]
    }

    /// An idle driver for the given kaleidoscope surface. The pattern surface
    /// is `d + 2` pixels wide and twice `floor(h)` high, and not rotated yet.
    pub fn new(kaleidoscope: Kaleidoscope) -> (driver: FrameDriver)
        requires
            kaleidoscope.wf(),
            kaleidoscope.unit().spec_edge() == PAT_DIM,
        ensures
            driver.wf(),
            driver.state() == (DriverState {
                phase: Phase::Idle,
                frame_ready: false,
                angle: 0,
                presented: None,
            }),
            driver.kaleidoscope() == kaleidoscope,
            driver.source().spec_width() == PAT_DIM + 2,
            driver.source().spec_height() == 2 * kaleidoscope.unit().spec_height_floor(),
    {
        let unit = kaleidoscope.triangle_unit();
        let source = InputCanvas::new(unit.edge() + 2, unit.height_floor() * 2);
        FrameDriver { phase: Phase::Idle, frame_ready: false, source, kaleidoscope, presented: None }
    }

    /// Where the driver is within a tick.
    pub fn phase(&self) -> (phase: Phase)
        ensures
            phase == self.state().phase,
    {
        self.phase
    }

    /// Whether the frame of the tick in progress was read back, and its
    /// delivery asked for.
    pub fn frame_ready(&self) -> (ready: bool)
        ensures
            ready == self.state().frame_ready,
    {
        self.frame_ready
    }

    /// Rotation of the pattern source, in hundredths of a radian.
    pub fn angle(&self) -> (angle: i64)
        ensures
            angle == self.state().angle,
    {
        self.source.angle()
    }

    /// The angle at which the frame now visible was rendered, if any frame
    /// was delivered yet.
    pub fn presented(&self) -> (angle: Option<i64>)
        ensures
            angle is Some <==> self.state().presented is Some,
            angle matches Some(a) ==> self.state().presented == Some(a as int),
    {
        self.presented
    }

    /// Takes `event`, moves to [`next_state`] and answers with the action for
    /// the host: the work of a tick where a tick starts, a delivery where a
    /// frame was rendered, a wait where the frame was delivered, and nothing
    /// at all after a failure or on an event out of turn.
    pub fn step(&mut self, event: Event) -> (action: Action)
        requires
            old(self).wf(),
        ensures
            final(self).wf(),
            final(self).state() == next_state(old(self).state(), event),
            final(self).source().spec_width() == old(self).source().spec_width(),
            final(self).source().spec_height() == old(self).source().spec_height(),
            final(self).kaleidoscope().canvas().spec_width() == old(
                self,
            ).kaleidoscope().canvas().spec_width(),
            final(self).kaleidoscope().canvas().spec_height() == old(
                self,
            ).kaleidoscope().canvas().spec_height(),
            action is Render <==> asks_render(old(self).state(), event),
            action is Present <==> asks_present(old(self).state(), event),
            action is Wait <==> ends_tick(old(self).state(), event),
            action matches Action::Render(tick) ==> {
                &&& tick.rotation == ROTATION_STEP
                &&& tick.fills@ == quadrants(PAT_DIM as int)
                &&& tick.snapshot@ == old(self).tick_snapshot()
                &&& tick.frame@ == old(self).tick_frame()
                &&& restores_own_saves(tick.frame@)
                &&& final(self).kaleidoscope().canvas().pending() == Seq::<DrawOp>::empty()
            },
            !(action is Render) ==> final(self).kaleidoscope() == old(self).kaleidoscope(),
    {
        let rendering = match self.phase {
            Phase::Idle => false,
            Phase::Rendering => true,
        };
        match event {
            Event::Tick => {
                if rendering || self.source.angle() == i64::MIN {
                    return Action::Halt;
                }
                let turned = self.source.advance(ROTATION_STEP);
                assert(turned);
                let unit = self.kaleidoscope.triangle_unit();
                let fills = self.source.draw_onto(&unit);
                let snapshot = self.source.frame();
                let frame = self.kaleidoscope.get_update_frame();
                self.phase = Phase::Rendering;
                self.frame_ready = false;
                Action::Render(Tick { rotation: ROTATION_STEP, fills, snapshot, frame })
            },
            Event::Rendered => {
                if rendering && !self.frame_ready {
                    self.frame_ready = true;
                    Action::Present
                } else {
                    Action::Halt
                }
            },
            Event::Delivered => {
                if rendering && self.frame_ready {
                    self.phase = Phase::Idle;
                    self.frame_ready = false;
                    self.presented = Some(self.source.angle());
                    Action::Wait
                } else {
                    Action::Halt
                }
            },
            Event::Failed(_) => Action::Halt,
        }
    }
}

} // verus!
