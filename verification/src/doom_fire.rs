//! The simulation instance: a grid, its drift source, the pointer and the
//! clock, advanced by the messages that the host delivers.
//!
//! What an instance does is a function of its state and of the message:
//! `FireView::step`. The laws at the end are stated over that function.

use vstd::prelude::*;

use crate::drift_source::{seeded_words, DriftSource};
use crate::heat_grid::{
    drawn_drifts, injected, propagated, seeded_cells, words_after_drawing, FireError, HeatGrid,
};
use crate::palette_mapper::{picture, PIXEL_BYTES};
use crate::pointer_input::PointerInput;
use crate::simulation_clock::{SimulationClock, Teardown};
use crate::stroke_painter::Vector2;

verus! {

/// Size of the surface, in pixels; one cell per pixel.
#[derive(Debug, Clone, Copy, PartialEq, Eq, Structural)]
pub struct DoomFireProps {
    pub width: u32,
    pub height: u32,
}

/// What the host reports to a simulation.
#[derive(Debug, Clone, Copy, PartialEq, Eq, Structural)]
pub enum DoomFireMsg {
    /// The pointer went down at the given surface position.
    MouseDown(i64, i64),
    /// The pointer went up.
    MouseUp,
    /// The pointer moved to the given surface position.
    MouseMove(i64, i64),
    /// The tick timer fired.
    Tick,
    /// The requested frame was delivered.
    Draw,
}

/// What the host is to do after a message.
#[derive(Debug, Clone, Copy, PartialEq, Eq, Structural)]
pub enum DoomFireAction {
    /// Nothing.
    Nothing,
    /// Request one frame callback.
    RequestFrame,
    /// Paint the picture of the grid onto the surface.
    Paint,
}

/// One mounted simulation.
pub struct DoomFire {
    pub props: DoomFireProps,
    pub grid: HeatGrid,
    pub source: DriftSource,
    pub pointer: PointerInput,
    pub clock: SimulationClock,
}

/// The state of a simulation: its size, the levels of its grid, the state of
/// its drift source, its pointer and its clock.
pub struct FireView {
    pub props: DoomFireProps,
    pub cells: Seq<u8>,
    pub words: Seq<u32>,
    pub pointer: PointerInput,
    pub clock: SimulationClock,
}

/// The far corner of a surface of the given size.
pub open spec fn corner(props: DoomFireProps) -> Vector2 {
    Vector2 { x: props.width, y: props.height }
}

impl FireView {
    /// The state of a simulation just mounted: a fresh grid, the source in
    /// the state that the seed expands to, an idle pointer, and a clock that
    /// ticks and awaits its first frame.
    pub open spec fn created(props: DoomFireProps, seed: u64) -> FireView {
        FireView {
            props,
            cells: seeded_cells(props.width as int, props.height as int),
            words: seeded_words(seed),
            pointer: PointerInput {
                drawing: false,
                position: Vector2 { x: 0, y: 0 },
                last_position: Vector2 { x: 0, y: 0 },
                limit: corner(props),
            },
            clock: SimulationClock { dirty: true, ticking: true, frame_pending: true },
        }
    }

    /// The grid once the pending stroke is painted, if one is being drawn:
    /// what a tick propagates.
    pub open spec fn painted_cells(self) -> Seq<u8> {
        if self.pointer.drawing {
            injected(
                self.cells,
                self.pointer.last_position,
                self.pointer.position,
                self.props.width as int,
            )
        } else {
            self.cells
        }
    }

    /// The state after a tick of a running simulation: the pending stroke is
    /// painted, if one is being drawn, and the next stroke starts where it
    /// ended; the fire propagates with the drifts that the source gives from
    /// the state it is in; the source is left after those draws; the picture
    /// is stale.
    pub open spec fn ticked(self) -> FireView {
        let painted = self.painted_cells();
        let width = self.props.width as int;
        let height = self.props.height as int;
        FireView {
            props: self.props,
            cells: propagated(
                painted,
                drawn_drifts(painted, width, height, self.words),
                width,
                height,
            ),
            words: words_after_drawing(painted, width, height, self.words),
            pointer: if self.pointer.drawing {
                self.pointer.after_paint()
            } else {
                self.pointer
            },
            clock: self.clock.after_tick().0,
        }
    }

    /// The state after a message, and what the host is to do.
    ///
    /// Pointer messages move the pointer and nothing else. A tick advances a
    /// running simulation and asks for a frame unless one is pending; after
    /// teardown it does nothing. A frame that is pending asks for the picture
    /// to be painted; any other frame does nothing.
    pub open spec fn step(self, msg: DoomFireMsg) -> (FireView, DoomFireAction) {
        match msg {
            DoomFireMsg::MouseDown(x, y) => (
                FireView { pointer: self.pointer.after_down(x, y), ..self },
                DoomFireAction::Nothing,
            ),
            DoomFireMsg::MouseUp => (
                FireView { pointer: self.pointer.after_up(), ..self },
                DoomFireAction::Nothing,
            ),
            DoomFireMsg::MouseMove(x, y) => (
                FireView { pointer: self.pointer.after_move(x, y), ..self },
                DoomFireAction::Nothing,
            ),
            DoomFireMsg::Tick => if self.clock.ticking {
                (
                    self.ticked(),
                    if self.clock.after_tick().1 {
                        DoomFireAction::RequestFrame
                    } else {
                        DoomFireAction::Nothing
                    },
                )
            } else {
                (self, DoomFireAction::Nothing)
            },
            DoomFireMsg::Draw => (
                FireView { clock: self.clock.after_frame().0, ..self },
                if self.clock.after_frame().1 {
                    DoomFireAction::Paint
                } else {
                    DoomFireAction::Nothing
                },
            ),
        }
    }

    /// The state after teardown, and what the host is to cancel.
    pub open spec fn torn_down(self) -> (FireView, Teardown) {
        (FireView { clock: self.clock.after_teardown().0, ..self }, self.clock.after_teardown().1)
    }

    /// The state after a sequence of messages.
    pub open spec fn run(self, msgs: Seq<DoomFireMsg>) -> FireView
        decreases msgs.len(),
    {
        if msgs.len() == 0 {
            self
        } else {
            self.run(msgs.drop_last()).step(msgs.last()).0
        }
    }

    /// What the host is told after the message `msgs[i]` of a sequence.
    pub open spec fn action_at(self, msgs: Seq<DoomFireMsg>, i: int) -> DoomFireAction {
        self.run(msgs.take(i)).step(msgs[i]).1
    }
}

impl View for DoomFire {
    type V = FireView;

    open spec fn view(&self) -> FireView {
        FireView {
            props: self.props,
            cells: self.grid@,
            words: self.source@,
            pointer: self.pointer,
            clock: self.clock,
        }
    }
}

impl DoomFire {
    /// The instance's invariant: a valid grid of the size in `props`, and a
    /// pointer confined to that surface.
    pub open spec fn wf(&self) -> bool {
        &&& self.grid.wf()
        &&& self.grid.width() == self.props.width
        &&& self.grid.height() == self.props.height
        &&& self.pointer.limit == corner(self.props)
        &&& self.pointer.on_surface()
    }

    /// Mounts a simulation on a surface of the given size, its drifts fixed
    /// by `seed`. The timer is taken to run and a first frame to be pending.
    /// A zero dimension is rejected.
    pub fn create(props: DoomFireProps, seed: u64) -> (result: Result<DoomFire, FireError>)
        requires
            props.width * props.height <= usize::MAX,
        ensures
            result is Err <==> props.width == 0 || props.height == 0,
            result matches Err(e) ==> e == FireError::InvalidDimension,
            result matches Ok(fire) ==> {
                &&& fire.wf()
                &&& fire@ == FireView::created(props, seed)
                &&& fire.grid.source_burns()
            },
    {
        match HeatGrid::new(props.width, props.height) {
            Err(e) => Err(e),
            Ok(grid) => {
                let limit = Vector2 { x: props.width, y: props.height };
                Ok(
                    DoomFire {
                        props,
                        grid,
                        source: DriftSource::seeded(seed),
                        pointer: PointerInput::new(limit),
                        clock: SimulationClock::new(),
                    },
                )
            },
        }
    }

    /// Advances the simulation by one tick: paints the pending stroke if one
    /// is being drawn, propagates the fire, and marks the picture stale.
    /// Returns whether a frame is to be requested. After teardown a tick
    /// changes nothing.
    pub fn tick(&mut self) -> (request_frame: bool)
        requires
            old(self).wf(),
        ensures
            final(self).wf(),
            final(self)@ == old(self)@.step(DoomFireMsg::Tick).0,
            request_frame == (old(self)@.step(DoomFireMsg::Tick).1 == DoomFireAction::RequestFrame),
            old(self).grid.source_burns() ==> final(self).grid.source_burns(),
    {
        if !self.clock.ticking {
            return false;
        }
        if self.pointer.drawing {
            self.grid.inject(self.pointer.last_position, self.pointer.position);
            self.pointer.painted();
        }
        self.grid.propagate(&mut self.source);
        self.clock.tick()
    }

    /// Applies one message and says what the host is to do next: the state
    /// moves as `FireView::step` says.
    pub fn update(&mut self, msg: DoomFireMsg) -> (action: DoomFireAction)
        requires
            old(self).wf(),
        ensures
            final(self).wf(),
            (final(self)@, action) == old(self)@.step(msg),
            old(self).grid.source_burns() ==> final(self).grid.source_burns(),
    {
        match msg {
            DoomFireMsg::MouseDown(x, y) => {
                self.pointer.down(x, y);
                DoomFireAction::Nothing
            },
            DoomFireMsg::MouseUp => {
                self.pointer.up();
                DoomFireAction::Nothing
            },
            DoomFireMsg::MouseMove(x, y) => {
                self.pointer.move_to(x, y);
                DoomFireAction::Nothing
            },
            DoomFireMsg::Tick => {
                if self.tick() {
                    DoomFireAction::RequestFrame
                } else {
                    DoomFireAction::Nothing
                }
            },
            DoomFireMsg::Draw => {
                if self.clock.frame() {
                    DoomFireAction::Paint
                } else {
                    DoomFireAction::Nothing
                }
            },
        }
    }

    /// Writes the picture of the grid into `frame`, four bytes per cell:
    /// red, green, blue, alpha. `frame` must hold exactly that many bytes.
    pub fn render(&self, frame: &mut Vec<u8>)
        requires
            self.wf(),
            old(frame)@.len() == PIXEL_BYTES * self.grid@.len(),
        ensures
            final(frame)@ == picture(self@.cells),
            final(frame)@.len() == PIXEL_BYTES * (self.props.width * self.props.height),
    {
        proof {
            self.grid.lemma_wf();
        }
        crate::palette_mapper::map(&self.grid, frame);
    }

    /// Unmounts the simulation: stops the clock and says which callbacks the
    /// host is to cancel. From then on `Tick` and `Draw` change nothing.
    pub fn destroy(&mut self) -> (cancel: Teardown)
        requires
            old(self).wf(),
        ensures
            final(self).wf(),
            (final(self)@, cancel) == old(self)@.torn_down(),
            final(self).clock.stopped(),
    {
        self.clock.teardown()
    }
}

/// A running simulation keeps running, whatever messages it gets: nothing
/// but teardown stops the clock.
pub proof fn lemma_messages_keep_the_clock_ticking(state: FireView, msgs: Seq<DoomFireMsg>)
    requires
        state.clock.ticking,
    ensures
        state.run(msgs).clock.ticking,
    decreases msgs.len(),
{
    if msgs.len() > 0 {
        lemma_messages_keep_the_clock_ticking(state, msgs.drop_last());
    }
}

/// Teardown after any messages cancels the timer, and the frame request if
/// one is pending; a second teardown has nothing left to cancel.
pub proof fn lemma_teardown_cancels_once(props: DoomFireProps, seed: u64, msgs: Seq<DoomFireMsg>)
    ensures
        ({
            let state = FireView::created(props, seed).run(msgs);
            &&& state.torn_down().1 == Teardown {
                cancel_timer: true,
                cancel_frame: state.clock.frame_pending,
            }
            &&& state.torn_down().0.torn_down().1 == Teardown {
                cancel_timer: false,
                cancel_frame: false,
            }
        }),
{
    lemma_messages_keep_the_clock_ticking(FireView::created(props, seed), msgs);
}

/// After teardown no message restarts the clock, and the grid and the drift
/// source stay as they are.
pub proof fn lemma_stopped_stays_stopped(state: FireView, msgs: Seq<DoomFireMsg>)
    requires
        state.clock.stopped(),
    ensures
        state.run(msgs).clock == state.clock,
        state.run(msgs).cells == state.cells,
        state.run(msgs).words == state.words,
        state.run(msgs).props == state.props,
    decreases msgs.len(),
{
    if msgs.len() > 0 {
        lemma_stopped_stays_stopped(state, msgs.drop_last());
    }
}

/// After teardown no tick and no frame is observed: whatever messages
/// follow, the host is never told to request a frame nor to paint.
pub proof fn lemma_nothing_runs_after_teardown(state: FireView, msgs: Seq<DoomFireMsg>, i: int)
    requires
        0 <= i < msgs.len(),
    ensures
        state.torn_down().0.action_at(msgs, i) == DoomFireAction::Nothing,
{
    lemma_stopped_stays_stopped(state.torn_down().0, msgs.take(i));
}

} // verus!
