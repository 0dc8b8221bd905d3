//! A tile worker as a step function: what it does with each thing its command
//! queue can yield. The caller owns the queues and the thread, polls, hands
//! the outcome in and carries out the reply.
use vstd::prelude::*;
use crate::frame::{fits, resampled, scalable, well_shaped, zeroed, Buffer};
use crate::pattern::{next_line, painted, palette, xorshift_n, DrawState, PALETTE_LEN, SEED};

verus! {

/// A message to a worker. `C` is the channel on which frames go out.
pub enum Command<C> {
    /// The compositor wants the current frame.
    NeedUpdate(),
    /// The tile has a new width and height, and frames go out on a new
    /// channel from now on.
    NewResolution(u32, u32, C),
}

/// What one non-blocking poll of the command queue yielded.
pub enum Polled<C> {
    /// A command.
    Command(Command<C>),
    /// Nothing is pending.
    Empty,
    /// The queue is closed for good.
    Disconnected,
}

/// What the caller does after a step.
pub enum Step {
    /// Offer this frame on the worker's channel. While the channel is full,
    /// let the worker go on with [`Worker::waiting`] and offer the frame
    /// again; then report with [`Worker::sent`] whether it went out.
    Send(Buffer),
    /// Nothing; the worker painted this many pixels.
    Drawn(u32),
    /// Leave the loop.
    Stop,
}

/// What can happen to a tile, without the channels.
pub enum Event {
    /// A poll found nothing pending.
    Idle,
    /// A frame was asked for.
    Request,
    /// The frame that was asked for cannot go out yet: the channel is full.
    Waiting,
    /// The frame that was asked for went out, or its receiver is gone.
    Sent(bool),
    /// A new width and height arrived.
    Resize(u32, u32),
    /// The command queue was closed.
    Closed,
}

/// A worker's tile as plain values: the frame and the pattern's state.
pub struct Tile {
    pub width: u32,
    pub height: u32,
    pub pixels: Seq<Seq<u8>>,
    pub line: u32,
    pub factor: u64,
    pub color: [u8; 3],
}

impl Tile {
    /// There is a pixel for every cell.
    pub open spec fn wf(self) -> bool {
        well_shaped(self.pixels, self.width, self.height)
    }

    /// The number of pixels that painting a scanline paints: the tile's
    /// width, or none where the tile has no rows.
    pub open spec fn scanline(self) -> u32 {
        if self.height == 0 {
            0
        } else {
            self.width
        }
    }

    /// The tile after one scanline has been painted. A tile without rows
    /// stays as it is.
    pub open spec fn draw(self) -> Tile {
        if self.height == 0 {
            self
        } else {
            let y = next_line(self.line, self.height);
            Tile {
                pixels: painted(
                    self.pixels,
                    self.width,
                    y,
                    self.width as int,
                    self.factor,
                    self.color,
                ),
                line: (y + 1) as u32,
                factor: xorshift_n(self.factor, self.width as nat),
                ..self
            }
        }
    }

    /// The tile resampled to a new size; the pattern's state stays. A tile
    /// without pixels becomes transparent black, and a tile that has the new
    /// size already keeps its pixels.
    pub open spec fn resize(self, width: u32, height: u32) -> Tile {
        Tile {
            width,
            height,
            pixels: if self.width == 0 || self.height == 0 {
                zeroed((width * height) as nat)
            } else if width == self.width && height == self.height {
                self.pixels
            } else {
                resampled(self.pixels, self.width, self.height, width, height)
            },
            ..self
        }
    }

    /// Whether the tile can take the event: with a new size, the resampled
    /// frame and the intermediate one that resampling allocates must fit a
    /// vector. Any size that does is taken, also one without rows or
    /// columns.
    pub open spec fn accepts(self, e: Event) -> bool {
        e matches Event::Resize(w, h) ==> scalable(self.width, self.height, w, h)
    }

    /// The tile after an event. A scanline is painted after every event but
    /// a request, a frame that did not go out, and the closing of the queue.
    pub open spec fn after(self, e: Event) -> Tile {
        match e {
            Event::Idle => self.draw(),
            Event::Request => self,
            Event::Waiting => self.draw(),
            Event::Sent(delivered) => if delivered {
                self.draw()
            } else {
                self
            },
            Event::Resize(w, h) => self.resize(w, h).draw(),
            Event::Closed => self,
        }
    }

    /// The tile after a sequence of events, the first one first.
    pub open spec fn run(self, events: Seq<Event>) -> Tile
        decreases events.len(),
    {
        if events.len() == 0 {
            self
        } else {
            self.run(events.drop_last()).after(events.last())
        }
    }
}

impl<C> Polled<C> {
    /// The event that this outcome of a poll is to the tile.
    pub open spec fn event(self) -> Event {
        match self {
            Polled::Command(Command::NeedUpdate()) => Event::Request,
            Polled::Command(Command::NewResolution(w, h, _)) => Event::Resize(w, h),
            Polled::Empty => Event::Idle,
            Polled::Disconnected => Event::Closed,
        }
    }
}

/// One worker: its pattern state, its frame, and the channel on which its
/// frames go out.
pub struct Worker<C> {
    pub state: DrawState,
    pub buf: Buffer,
    pub draw_tx: C,
}

impl<C> View for Worker<C> {
    type V = Tile;

    open spec fn view(&self) -> Tile {
        Tile {
            width: self.buf.spec_width(),
            height: self.buf.spec_height(),
            pixels: self.buf@,
            line: self.state.line,
            factor: self.state.factor,
            color: self.state.color,
        }
    }
}

impl<C> Worker<C> {
    /// The worker's tile is well formed.
    pub open spec fn wf(&self) -> bool {
        self@.wf()
    }

    /// Worker `id` with a blank tile of `x` by `y` pixels, sending on
    /// `draw_tx`.
    pub fn new(draw_tx: C, x: u32, y: u32, id: usize) -> (w: Self)
        requires
            fits(4, x, y),
        ensures
            w.wf(),
            w.draw_tx == draw_tx,
            w@.width == x,
            w@.height == y,
            w@.pixels == zeroed((x * y) as nat),
            w@.line == 0,
            w@.factor == SEED,
            w@.color@ == palette(id as int % PALETTE_LEN as int),
    {
        Worker { state: DrawState::new(id), buf: Buffer::new(x, y), draw_tx }
    }

    /// Paints a scanline, unless the tile has no rows.
    fn paint(&mut self) -> (n: u32)
        requires
            old(self).wf(),
        ensures
            final(self).wf(),
            final(self)@ == old(self)@.draw(),
            final(self).draw_tx == old(self).draw_tx,
            n == old(self)@.scanline(),
    {
        if self.buf.height() == 0 {
            0
        } else {
            self.state.draw(&mut self.buf)
        }
    }

    /// Tells whether the worker can take what a poll yielded.
    pub fn admits(&self, polled: &Polled<C>) -> (ok: bool)
        ensures
            ok == self@.accepts(polled.event()),
    {
        match polled {
            Polled::Command(Command::NewResolution(new_x, new_y, _)) => self.buf.can_scale(
                *new_x,
                *new_y,
            ),
            _ => true,
        }
    }

    /// One turn of the worker's loop, given what the poll of its command
    /// queue yielded.
    ///
    /// With nothing pending the worker paints a scanline. Asked for a frame,
    /// it hands out a copy of the tile as it is and paints nothing in this
    /// turn. Given a new resolution, it resamples the tile, switches to the
    /// new channel and paints a scanline. Once the queue is closed it changes
    /// nothing and asks to stop. A tile without rows is never painted.
    pub fn handle(&mut self, polled: Polled<C>) -> (step: Step)
        requires
            old(self).wf(),
            old(self)@.accepts(polled.event()),
        ensures
            final(self).wf(),
            final(self)@ == old(self)@.after(polled.event()),
            final(self).draw_tx == match polled {
                Polled::Command(Command::NewResolution(_, _, tx)) => tx,
                _ => old(self).draw_tx,
            },
            match polled.event() {
                Event::Request => step matches Step::Send(frame) && frame.spec_width() == old(
                    self,
                )@.width && frame.spec_height() == old(self)@.height && frame@ == old(
                    self,
                )@.pixels,
                Event::Closed => step == Step::Stop,
                _ => step == Step::Drawn(final(self)@.scanline()),
            },
    {
        match polled {
            Polled::Command(Command::NeedUpdate()) => Step::Send(self.buf.snapshot()),
            Polled::Command(Command::NewResolution(new_x, new_y, new_draw_tx)) => {
                self.buf = self.buf.scale(new_x, new_y);
                self.draw_tx = new_draw_tx;
                let n = self.paint();
                Step::Drawn(n)
            },
            Polled::Empty => {
                let n = self.paint();
                Step::Drawn(n)
            },
            Polled::Disconnected => Step::Stop,
        }
    }

    /// One turn of the worker's loop, as [`Worker::handle`] takes it, where
    /// the worker can take what the poll yielded. Where it cannot, a new
    /// resolution that is larger than a vector can be, nothing changes and
    /// the outcome of the poll is handed back.
    pub fn try_handle(&mut self, polled: Polled<C>) -> (r: Result<Step, Polled<C>>)
        requires
            old(self).wf(),
        ensures
            final(self).wf(),
            r is Ok <==> old(self)@.accepts(polled.event()),
            r matches Err(back) ==> back == polled && *final(self) == *old(self),
            r matches Ok(step) ==> {
                &&& final(self)@ == old(self)@.after(polled.event())
                &&& final(self).draw_tx == match polled {
                    Polled::Command(Command::NewResolution(_, _, tx)) => tx,
                    _ => old(self).draw_tx,
                }
                &&& match polled.event() {
                    Event::Request => step matches Step::Send(frame) && frame.spec_width() == old(
                        self,
                    )@.width && frame.spec_height() == old(self)@.height && frame@ == old(
                        self,
                    )@.pixels,
                    Event::Closed => step == Step::Stop,
                    _ => step == Step::Drawn(final(self)@.scanline()),
                }
            },
    {
        if self.admits(&polled) {
            Ok(self.handle(polled))
        } else {
            Err(polled)
        }
    }

    /// A turn in which the frame that was handed out cannot go out yet,
    /// because the channel is full: the worker goes on painting, and the
    /// frame stays as it was handed out. Returns the number of pixels
    /// painted.
    pub fn waiting(&mut self) -> (n: u32)
        requires
            old(self).wf(),
        ensures
            final(self).wf(),
            final(self)@ == old(self)@.after(Event::Waiting),
            final(self).draw_tx == old(self).draw_tx,
            n == old(self)@.scanline(),
    {
        self.paint()
    }

    /// Finishes the turns on a frame that was handed out: the worker paints
    /// a scanline if the frame went out, and nothing if the receiver is gone.
    /// Returns the number of pixels painted.
    pub fn sent(&mut self, delivered: bool) -> (n: u32)
        requires
            old(self).wf(),
        ensures
            final(self).wf(),
            final(self)@ == old(self)@.after(Event::Sent(delivered)),
            final(self).draw_tx == old(self).draw_tx,
            n == if delivered {
                old(self)@.scanline()
            } else {
                0
            },
    {
        if delivered {
            self.paint()
        } else {
            0
        }
    }
}

/// The height of each worker's strip when `workers` workers share a canvas of
/// `total_height` rows.
pub fn strip_height(total_height: u32, workers: u32) -> (h: u32)
    requires
        workers > 0,
    ensures
        h == total_height / workers,
{
    total_height / workers
}

/// Until the next change of resolution, a tile keeps the size that the last
/// one gave it, whatever else happens: after a new size that the tile can
/// take, the frame that the worker hands out next has exactly the new width
/// and height.
pub proof fn lemma_resize_fixes_frame_size(tile: Tile, width: u32, height: u32, events: Seq<Event>)
    requires
        tile.accepts(Event::Resize(width, height)),
        forall|i: int| 0 <= i < events.len() ==> !(events[i] is Resize),
    ensures
        tile.after(Event::Resize(width, height)).run(events).width == width,
        tile.after(Event::Resize(width, height)).run(events).height == height,
    decreases events.len(),
{
    if events.len() > 0 {
        lemma_resize_fixes_frame_size(tile, width, height, events.drop_last());
    }
}

/// Production does not wait for the consumer. Whether nobody asks for the
/// worker's frames or a frame waits in a full channel, every turn paints a
/// scanline: after turns that found nothing pending and turns in which a
/// frame waited, the tile has its size still and the generator has run that
/// many scanlines' worth of rounds.
pub proof fn lemma_production_goes_on(tile: Tile, events: Seq<Event>)
    requires
        forall|i: int| 0 <= i < events.len() ==> events[i] is Idle || events[i] is Waiting,
    ensures
        tile.run(events).width == tile.width,
        tile.run(events).height == tile.height,
        tile.run(events).factor == xorshift_n(
            tile.factor,
            events.len() * tile.scanline() as nat,
        ),
    decreases events.len(),
{
    let row = tile.scanline() as nat;
    if events.len() == 0 {
        assert(0 * row == 0);
    } else {
        let shorter = events.drop_last();
        let m = shorter.len();
        lemma_production_goes_on(tile, shorter);
        assert(tile.run(events) == tile.run(shorter).draw());
        lemma_rounds_add(tile.factor, m * row, row);
        assert(m * row + row == events.len() * row) by (nonlinear_arith)
            requires
                m + 1 == events.len(),
        ;
    }
}

/// Running `a` rounds of the generator and then `b` more is running `a + b`.
pub proof fn lemma_rounds_add(f: u64, a: nat, b: nat)
    ensures
        xorshift_n(xorshift_n(f, a), b) == xorshift_n(f, a + b),
    decreases b,
{
    if b > 0 {
        lemma_rounds_add(f, a, (b - 1) as nat);
        assert((a + b - 1) as nat == a + (b - 1) as nat);
    }
}

} // verus!
