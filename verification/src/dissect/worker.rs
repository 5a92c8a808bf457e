//! What the dissection worker decides: it numbers and dissects frames as they
//! arrive, and hands them to the store in batches. Waiting for frames, and
//! the store's lock, are its driver's business.

use std::sync::Arc;

use vstd::prelude::*;

use super::state::{no_memory, StateView};
use super::{dissect_with, dissected, frame_from, Frame, FrameView, Options, State};
use crate::capture::{LinkType, RawFrame, RawView};

verus! {

/// Largest batch appended under one store lock.
pub const BATCH: usize = 1024;

/// What the driver has to tell.
pub enum Event {
    /// A frame arrived.
    Frame(RawFrame),
    /// No frame is waiting.
    Idle,
    /// The capture side is gone and no frame is waiting.
    Closed,
}

/// What the driver is to do next.
pub enum Step {
    /// Wait for a frame.
    Wait,
    /// Take a frame if one is waiting.
    Poll,
    /// Append these to the store, then wait for a frame.
    Append(Vec<Arc<Frame>>),
    /// Every frame was handed on.
    Stop,
}

/// Frames on their way to the store.
pub struct Batcher {
    link_type: LinkType,
    options: Options,
    next: u32,
    state: State,
    batch: Vec<Arc<Frame>>,
}

/// What a batcher holds.
#[verifier::ext_equal]
pub struct BatcherView {
    pub link_type: LinkType,
    pub options: Options,
    /// Number of the next frame.
    pub next: u32,
    pub state: StateView,
    pub batch: Seq<FrameView>,
}

impl View for Batcher {
    type V = BatcherView;

    closed spec fn view(&self) -> BatcherView {
        BatcherView {
            link_type: self.link_type,
            options: self.options,
            next: self.next,
            state: self.state@,
            batch: frame_views(self.batch@),
        }
    }
}

/// Frames by what they show.
pub open spec fn frame_views(v: Seq<Arc<Frame>>) -> Seq<FrameView> {
    v.map_values(|f: Arc<Frame>| f@)
}

/// The number after `n`; numbering starts over behind the last one.
pub open spec fn following(n: u32) -> u32 {
    if n == u32::MAX {
        0
    } else {
        (n + 1) as u32
    }
}

impl BatcherView {
    /// After one more frame, `f`, was dissected and left `state` behind.
    pub open spec fn with(self, f: FrameView, state: StateView) -> BatcherView {
        BatcherView { next: following(self.next), state, batch: self.batch.push(f), ..self }
    }

    /// With nothing on its way.
    pub open spec fn emptied(self) -> BatcherView {
        BatcherView { batch: Seq::empty(), ..self }
    }

    /// What dissecting `raw` next comes to.
    pub open spec fn makes(self, raw: RawView, f: FrameView, state: StateView) -> bool {
        frame_from(
            dissected(
                self.link_type,
                self.next,
                raw.ts,
                raw.orig_len,
                raw.bytes,
                self.state,
                self.options,
            ),
            self.next,
            raw,
            f,
            state,
        )
    }
}

/// The step from `b` to `after` on a frame: it is dissected under the next
/// number, and a full batch is handed on.
pub open spec fn took(b: BatcherView, raw: RawView, after: BatcherView, step: Step) -> bool {
    exists|f: FrameView, state: StateView|
        {
            let now = #[trigger] b.with(f, state);
            &&& b.makes(raw, f, state)
            &&& now.batch.len() < BATCH ==> step is Poll && after == now
            &&& now.batch.len() >= BATCH ==> after == now.emptied() && (step matches Step::Append(v)
                && frame_views(v@) == now.batch)
        }
}

/// The step from `b` to `after` when no frame is waiting: what is on its way
/// is handed on, and with nothing on its way `idle` is next.
pub open spec fn paused(b: BatcherView, after: BatcherView, step: Step, idle: Step) -> bool {
    &&& after == b.emptied()
    &&& b.batch.len() > 0 ==> (step matches Step::Append(v) && frame_views(v@) == b.batch)
    &&& b.batch.len() == 0 ==> step == idle
}

impl Batcher {
    /// A worker's start, with `next` the number of its first frame.
    pub fn new(link_type: LinkType, options: Options, next: u32) -> (r: Batcher)
        ensures
            r@ == (BatcherView {
                link_type,
                options,
                next,
                state: no_memory(),
                batch: Seq::empty(),
            }),
    {
        let r = Batcher { link_type, options, next, state: State::new(), batch: Vec::new() };
        assert(r@.batch =~= Seq::empty());
        r
    }

    /// What to do on an event.
    pub fn step(&mut self, event: Event) -> (r: Step)
        ensures
            match event {
                Event::Frame(raw) => took(old(self)@, raw@, final(self)@, r),
                Event::Idle => paused(old(self)@, final(self)@, r, Step::Wait),
                Event::Closed => paused(old(self)@, final(self)@, r, Step::Stop),
            },
    {
        match event {
            Event::Frame(raw) => {
                let ghost before = self@;
                let ghost view = raw@;
                let frame: Frame = dissect_with(
                    self.link_type,
                    self.next,
                    raw,
                    &mut self.state,
                    self.options,
                );
                let ghost f = frame@;
                let ghost state = self.state@;
                self.batch.push(Arc::new(frame));
                self.next = if self.next == u32::MAX {
                    0
                } else {
                    self.next + 1
                };
                proof {
                    assert(before.makes(view, f, state));
                    assert(self@.batch =~= before.batch.push(f));
                    assert(self@ == before.with(f, state));
                }
                if self.batch.len() < BATCH {
                    Step::Poll
                } else {
                    self.hand_on()
                }
            },
            Event::Idle => if self.batch.len() == 0 {
                assert(self@ =~= self@.emptied());
                Step::Wait
            } else {
                self.hand_on()
            },
            Event::Closed => if self.batch.len() == 0 {
                assert(self@ =~= self@.emptied());
                Step::Stop
            } else {
                self.hand_on()
            },
        }
    }

    fn hand_on(&mut self) -> (r: Step)
        ensures
            final(self)@ == old(self)@.emptied(),
            r matches Step::Append(v) && frame_views(v@) == old(self)@.batch,
    {
        let mut batch: Vec<Arc<Frame>> = Vec::new();
        std::mem::swap(&mut batch, &mut self.batch);
        assert(self@ =~= old(self)@.emptied());
        Step::Append(batch)
    }
}

} // verus!
