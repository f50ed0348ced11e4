//! The frame loop.
//!
//! The loop owns no window, timer or event queue. It is a state machine:
//! whoever owns those tells it what has happened, and it answers with what is
//! to be done next. One round of sixty a second looks like this: read the
//! tick count, poll the events, draw, then wait in steps of one tick until
//! the frame has lasted its share of the second.

use vstd::prelude::*;

verus! {

/// How many ticks (thousandths of a second) a frame lasts at least.
pub const FRAME_TICKS: u32 = 1000 / 60;

/// How the window and its renderer are to be made.
#[derive(Debug, PartialEq, Eq, Clone, Copy)]
pub struct RendererPlan {
    pub title: &'static str,
    pub width: u32,
    pub height: u32,
    pub fullscreen: bool,
    pub accelerated: bool,
    pub vsync: bool,
}

/// Where the loop stands: what it has asked for and is waiting to hear of.
#[derive(Debug, PartialEq, Eq, Clone, Copy, Structural)]
pub enum Phase {
    /// Nothing was asked for yet.
    Idle,
    /// The renderer is being built.
    Renderer,
    /// The timer is being opened.
    Timer,
    /// The event queue is being opened.
    Pump,
    /// The screen is being prepared.
    Init,
    /// The tick count that starts a frame is being read.
    FrameStart,
    /// The events of the frame that started at `start` are being polled.
    Events { start: u32 },
    /// The frame is being drawn.
    Drawing { start: u32 },
    /// The tick count is being read to see whether the frame is over.
    Pacing { start: u32 },
    /// The loop is asleep for a moment.
    Delaying { start: u32 },
    /// The loop has ended.
    Over,
}

/// What has happened.
#[derive(Debug, PartialEq, Eq, Clone, Copy, Structural)]
pub enum Event {
    /// What was asked for is done.
    Done,
    /// What was asked for could not be done.
    Failed,
    /// The tick count was read.
    Ticks(u32),
    /// The events were polled; `quit` tells whether the user asked to leave.
    Polled { quit: bool },
}

/// What is to be done next.
#[derive(Debug, PartialEq, Eq, Clone, Copy, Structural)]
pub enum Action {
    /// Build the window and its renderer; answer `Done` or `Failed`.
    BuildRenderer,
    /// Open the timer; answer `Done` or `Failed`.
    OpenTimer,
    /// Open the event queue; answer `Done` or `Failed`.
    OpenEvents,
    /// Prepare the screen; answer `Done`.
    InitDitty,
    /// Read the tick count; answer `Ticks`.
    ReadTicks,
    /// Poll the events; answer `Polled`.
    PollEvents,
    /// Clear the display, draw the screen and present it; answer `Done`.
    Draw,
    /// Sleep for so many ticks; answer `Done`.
    Delay(u32),
    /// Leave the loop in good order.
    Finish,
    /// Leave the loop with the error of what failed.
    Fail,
}

/// What a loop that stands in `phase` is waiting for: the request that it
/// repeats when it hears of something else.
pub open spec fn pending(phase: Phase) -> Action {
    match phase {
        Phase::Idle | Phase::Renderer => Action::BuildRenderer,
        Phase::Timer => Action::OpenTimer,
        Phase::Pump => Action::OpenEvents,
        Phase::Init => Action::InitDitty,
        Phase::FrameStart | Phase::Pacing { .. } => Action::ReadTicks,
        Phase::Events { .. } => Action::PollEvents,
        Phase::Drawing { .. } => Action::Draw,
        Phase::Delaying { .. } => Action::Delay(1),
        Phase::Over => Action::Finish,
    }
}

/// Whether a frame that started at tick `start` is over at tick `now`. The
/// tick count starts again at zero when it has run through 32 bits.
pub open spec fn frame_over(start: u32, now: u32) -> bool {
    now.wrapping_sub(start) >= FRAME_TICKS
}

/// One step of the part of the loop that sets things up: renderer, timer and
/// event queue are asked for in this order, and the first that fails ends
/// the loop.
pub open spec fn setup_step(phase: Phase, event: Event) -> (Phase, Action) {
    match (phase, event) {
        (Phase::Idle, _) => (Phase::Renderer, Action::BuildRenderer),
        (Phase::Renderer, Event::Done) => (Phase::Timer, Action::OpenTimer),
        (Phase::Timer, Event::Done) => (Phase::Pump, Action::OpenEvents),
        (Phase::Pump, Event::Done) => (Phase::Init, Action::InitDitty),
        (Phase::Renderer, Event::Failed) | (Phase::Timer, Event::Failed) | (
            Phase::Pump,
            Event::Failed,
        ) => (Phase::Over, Action::Fail),
        _ => (phase, pending(phase)),
    }
}

/// One step of the part of the loop that shows frames.
pub open spec fn frame_step(phase: Phase, event: Event) -> (Phase, Action) {
    match (phase, event) {
        (Phase::Init, Event::Done) => (Phase::FrameStart, Action::ReadTicks),
        (Phase::FrameStart, Event::Ticks(t)) => (Phase::Events { start: t }, Action::PollEvents),
        (Phase::Events { start }, Event::Polled { quit }) => if quit {
            (Phase::Over, Action::Finish)
        } else {
            (Phase::Drawing { start }, Action::Draw)
        },
        (Phase::Drawing { start }, Event::Done) => (Phase::Pacing { start }, Action::ReadTicks),
        (Phase::Pacing { start }, Event::Ticks(now)) => if frame_over(start, now) {
            (Phase::FrameStart, Action::ReadTicks)
        } else {
            (Phase::Delaying { start }, Action::Delay(1))
        },
        (Phase::Delaying { start }, Event::Done) => (Phase::Pacing { start }, Action::ReadTicks),
        _ => (phase, pending(phase)),
    }
}

/// Whether the loop is setting things up in this phase.
pub open spec fn in_setup(phase: Phase) -> bool {
    phase is Idle || phase is Renderer || phase is Timer || phase is Pump
}

/// One step of the loop.
pub open spec fn step(phase: Phase, event: Event) -> (Phase, Action) {
    if in_setup(phase) {
        setup_step(phase, event)
    } else {
        frame_step(phase, event)
    }
}

/// A frame loop for a display of a given size.
#[derive(Debug, PartialEq, Eq, Clone, Copy)]
pub struct GameLoop {
    width: u32,
    height: u32,
    phase: Phase,
}

impl GameLoop {
    pub closed spec fn spec_width(&self) -> u32 {
        self.width
    }

    pub closed spec fn spec_height(&self) -> u32 {
        self.height
    }

    pub closed spec fn spec_phase(&self) -> Phase {
        self.phase
    }

    /// A loop for a display of the given size, with nothing asked for yet.
    pub fn new(width: u32, height: u32) -> (r: GameLoop)
        ensures
            r.spec_width() == width,
            r.spec_height() == height,
            r.spec_phase() == Phase::Idle,
    {
        GameLoop { width, height, phase: Phase::Idle }
    }

    /// The width of the display.
    #[verifier::when_used_as_spec(spec_width)]
    pub fn width(&self) -> (r: u32)
        ensures
            r == self.spec_width(),
    {
        self.width
    }

    /// The height of the display.
    #[verifier::when_used_as_spec(spec_height)]
    pub fn height(&self) -> (r: u32)
        ensures
            r == self.spec_height(),
    {
        self.height
    }

    /// Where the loop stands.
    #[verifier::when_used_as_spec(spec_phase)]
    pub fn phase(&self) -> (r: Phase)
        ensures
            r == self.spec_phase(),
    {
        self.phase
    }

    /// How the window and its renderer are to be made: full screen in the
    /// size of the display, drawn by the graphics hardware in step with the
    /// display's refresh.
    pub fn build_renderer(&self) -> (r: RendererPlan)
        ensures
            r == (RendererPlan {
                title: "Cretacious Island",
                width: self.width(),
                height: self.height(),
                fullscreen: true,
                accelerated: true,
                vsync: true,
            }),
    {
        RendererPlan {
            title: "Cretacious Island",
            width: self.width,
            height: self.height,
            fullscreen: true,
            accelerated: true,
            vsync: true,
        }
    }

    /// Takes one step of the part of the loop that shows frames.
    pub fn do_run(&mut self, event: Event) -> (action: Action)
        ensures
            (final(self).phase(), action) == frame_step(old(self).phase(), event),
            final(self).width() == old(self).width(),
            final(self).height() == old(self).height(),
    {
        let (next, action) = match (self.phase, event) {
            (Phase::Init, Event::Done) => (Phase::FrameStart, Action::ReadTicks),
            (Phase::FrameStart, Event::Ticks(t)) => (
                Phase::Events { start: t },
                Action::PollEvents,
            ),
            (Phase::Events { start }, Event::Polled { quit }) => if quit {
                (Phase::Over, Action::Finish)
            } else {
                (Phase::Drawing { start }, Action::Draw)
            },
            (Phase::Drawing { start }, Event::Done) => (
                Phase::Pacing { start },
                Action::ReadTicks,
            ),
            (Phase::Pacing { start }, Event::Ticks(now)) => if now.wrapping_sub(start)
                >= FRAME_TICKS {
                (Phase::FrameStart, Action::ReadTicks)
            } else {
                (Phase::Delaying { start }, Action::Delay(1))
            },
            (Phase::Delaying { start }, Event::Done) => (
                Phase::Pacing { start },
                Action::ReadTicks,
            ),
            (phase, _) => (phase, GameLoop::waiting_for(phase)),
        };
        self.phase = next;
        action
    }

    /// The request that a loop in `phase` is waiting to hear of.
    pub fn waiting_for(phase: Phase) -> (r: Action)
        ensures
            r == pending(phase),
    {
        match phase {
            Phase::Idle | Phase::Renderer => Action::BuildRenderer,
            Phase::Timer => Action::OpenTimer,
            Phase::Pump => Action::OpenEvents,
            Phase::Init => Action::InitDitty,
            Phase::FrameStart | Phase::Pacing { .. } => Action::ReadTicks,
            Phase::Events { .. } => Action::PollEvents,
            Phase::Drawing { .. } => Action::Draw,
            Phase::Delaying { .. } => Action::Delay(1),
            Phase::Over => Action::Finish,
        }
    }

    /// Takes one step of the loop: hears what has happened and says what is
    /// to be done next. The first call, whatever it is told, asks for the
    /// renderer.
    pub fn run(&mut self, event: Event) -> (action: Action)
        ensures
            (final(self).phase(), action) == step(old(self).phase(), event),
            final(self).width() == old(self).width(),
            final(self).height() == old(self).height(),
    {
        let (next, action) = match (self.phase, event) {
            (Phase::Idle, _) => (Phase::Renderer, Action::BuildRenderer),
            (Phase::Renderer, Event::Done) => (Phase::Timer, Action::OpenTimer),
            (Phase::Timer, Event::Done) => (Phase::Pump, Action::OpenEvents),
            (Phase::Pump, Event::Done) => (Phase::Init, Action::InitDitty),
            (Phase::Renderer, Event::Failed) | (Phase::Timer, Event::Failed) | (
                Phase::Pump,
                Event::Failed,
            ) => (Phase::Over, Action::Fail),
            (Phase::Renderer, _) | (Phase::Timer, _) | (Phase::Pump, _) => (
                self.phase,
                GameLoop::waiting_for(self.phase),
            ),
            _ => {
                return self.do_run(event);
            },
        };
        self.phase = next;
        action
    }
}

/// Once the screen is prepared, the loop asks for a frame to be drawn only
/// after the events were polled without a request to leave, and starts the
/// next frame only when the last has lasted its share of the second.
pub proof fn lemma_frame_order(phase: Phase, event: Event)
    ensures
        step(phase, event).1 == Action::Draw && !(phase is Drawing) ==> phase is Events && event
            == (Event::Polled { quit: false }),
        phase is Pacing && step(phase, event).0 is FrameStart ==> event is Ticks && frame_over(
            phase->Pacing_start,
            event->Ticks_0,
        ),
        phase is Events && event == (Event::Polled { quit: true }) ==> step(phase, event) == (
            Phase::Over,
            Action::Finish,
        ),
{
}

} // verus!
