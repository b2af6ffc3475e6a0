//! The loops that a target runs, as steps from what its socket did to what is
//! done next. The sockets themselves are the caller's.
use vstd::prelude::*;

verus! {

/// Whether and how a counting consumer drains what has already arrived before
/// it waits again.
#[derive(Clone, Copy, Debug, PartialEq, Eq, Structural)]
pub enum Drain {
    Never,
    /// Until nothing is there.
    Freely,
    /// Until nothing is there or the window is over.
    InTime,
}

/// What a counting consumer is doing.
#[derive(Clone, Copy, Debug, PartialEq, Eq, Structural)]
pub enum Stage {
    /// Waiting for the first message, which starts the clock.
    First,
    Waiting,
    Draining,
}

/// What the socket did.
#[derive(Clone, Copy, Debug, PartialEq, Eq, Structural)]
pub enum Seen {
    Message,
    /// Nothing arrived: the wait timed out, or nothing was there to drain.
    Nothing,
    /// The peer is gone.
    Gone,
}

/// What a counting consumer does next.
#[derive(Clone, Copy, Debug, PartialEq, Eq, Structural)]
pub enum Next {
    /// Wait for a message.
    Receive,
    /// Take a message that is already there.
    TryReceive,
    /// Start the clock, then look at it.
    StartClock,
    /// Look whether the window is over.
    LookAtClock,
    /// Report the count and what the clock shows.
    Report,
    /// Report that nothing arrived.
    ReportNothing,
    /// Report that nothing arrived, and give up with the error at hand.
    ReportNothingAndFail,
}

/// A consumer that counts what it receives within a window. The clock starts on
/// the first message, so that the connect ramp is left out.
#[derive(Clone, Copy, Debug, PartialEq, Eq, Structural)]
pub struct Window {
    pub count: u64,
    pub stage: Stage,
    pub drain: Drain,
    /// Whether a consumer whose peer is gone before anything arrived fails.
    pub must_hear: bool,
}

/// A window before anything arrived.
pub open spec fn fresh_window(drain: Drain, must_hear: bool) -> Window {
    Window { count: 0, stage: Stage::First, drain, must_hear }
}

/// What follows a message, once it is counted.
pub open spec fn after_message(w: Window) -> (Window, Next) {
    match w.drain {
        Drain::Never => (Window { stage: Stage::Waiting, ..w }, Next::LookAtClock),
        Drain::Freely => (Window { stage: Stage::Draining, ..w }, Next::TryReceive),
        Drain::InTime => (Window { stage: Stage::Draining, ..w }, Next::LookAtClock),
    }
}

/// What follows what the socket did.
pub open spec fn seen_step(w: Window, e: Seen) -> (Window, Next) {
    match w.stage {
        Stage::First => match e {
            Seen::Message => (
                Window { count: (w.count + 1) as u64, stage: Stage::Waiting, ..w },
                Next::StartClock,
            ),
            Seen::Nothing => (w, Next::Receive),
            Seen::Gone => (
                w,
                if w.must_hear {
                    Next::ReportNothingAndFail
                } else {
                    Next::ReportNothing
                },
            ),
        },
        Stage::Waiting => match e {
            Seen::Message => after_message(Window { count: (w.count + 1) as u64, ..w }),
            Seen::Nothing => (w, Next::LookAtClock),
            Seen::Gone => (w, Next::Report),
        },
        Stage::Draining => match e {
            Seen::Message => after_message(Window { count: (w.count + 1) as u64, ..w }),
            Seen::Nothing => (Window { stage: Stage::Waiting, ..w }, Next::LookAtClock),
            Seen::Gone => (Window { stage: Stage::Waiting, ..w }, Next::LookAtClock),
        },
    }
}

/// What follows a look at the clock.
pub open spec fn clock_step(w: Window, over: bool) -> Next {
    if over {
        Next::Report
    } else if w.stage == Stage::Draining {
        Next::TryReceive
    } else {
        Next::Receive
    }
}

impl Window {
    pub fn new(drain: Drain, must_hear: bool) -> (w: Window)
        ensures
            w == fresh_window(drain, must_hear),
    {
        Window { count: 0, stage: Stage::First, drain, must_hear }
    }

    /// What follows what the socket did.
    pub fn on_seen(self, e: Seen) -> (r: (Window, Next))
        requires
            e == Seen::Message ==> self.count < u64::MAX,
        ensures
            r == seen_step(self, e),
    {
        let mut w = self;
        if e == Seen::Message {
            w.count = w.count + 1;
        }
        match self.stage {
            Stage::First => match e {
                Seen::Message => {
                    w.stage = Stage::Waiting;
                    (w, Next::StartClock)
                },
                Seen::Nothing => (w, Next::Receive),
                Seen::Gone => if self.must_hear {
                    (w, Next::ReportNothingAndFail)
                } else {
                    (w, Next::ReportNothing)
                },
            },
            Stage::Waiting | Stage::Draining => match e {
                Seen::Message => match self.drain {
                    Drain::Never => {
                        w.stage = Stage::Waiting;
                        (w, Next::LookAtClock)
                    },
                    Drain::Freely => {
                        w.stage = Stage::Draining;
                        (w, Next::TryReceive)
                    },
                    Drain::InTime => {
                        w.stage = Stage::Draining;
                        (w, Next::LookAtClock)
                    },
                },
                Seen::Nothing => {
                    w.stage = Stage::Waiting;
                    (w, Next::LookAtClock)
                },
                Seen::Gone => if self.stage == Stage::Draining {
                    w.stage = Stage::Waiting;
                    (w, Next::LookAtClock)
                } else {
                    (w, Next::Report)
                },
            },
        }
    }

    /// What follows a look at the clock.
    pub fn on_clock(self, over: bool) -> (r: Next)
        ensures
            r == clock_step(self, over),
    {
        if over {
            Next::Report
        } else {
            match self.stage {
                Stage::Draining => Next::TryReceive,
                _ => Next::Receive,
            }
        }
    }
}

/// The window after a list of things that the socket did.
pub open spec fn window_after(drain: Drain, must_hear: bool, seen: Seq<Seen>) -> Window
    decreases seen.len(),
{
    if seen.len() == 0 {
        fresh_window(drain, must_hear)
    } else {
        seen_step(window_after(drain, must_hear, seen.drop_last()), seen.last()).0
    }
}

/// How many messages are in a list.
pub open spec fn messages_in(seen: Seq<Seen>) -> nat
    decreases seen.len(),
{
    if seen.len() == 0 {
        0
    } else {
        messages_in(seen.drop_last()) + (if seen.last() == Seen::Message {
            1nat
        } else {
            0nat
        })
    }
}

proof fn lemma_messages_bound(seen: Seq<Seen>)
    ensures
        messages_in(seen) <= seen.len(),
    decreases seen.len(),
{
    if seen.len() > 0 {
        lemma_messages_bound(seen.drop_last());
    }
}

/// The window counts every message and nothing else, whether it was waited for
/// or drained; it is past its first stage exactly once one arrived.
pub proof fn law_window_counts_messages(drain: Drain, must_hear: bool, seen: Seq<Seen>)
    requires
        seen.len() <= u64::MAX,
    ensures
        window_after(drain, must_hear, seen).count == messages_in(seen),
        (window_after(drain, must_hear, seen).stage == Stage::First) <==> messages_in(seen) == 0,
    decreases seen.len(),
{
    if seen.len() > 0 {
        law_window_counts_messages(drain, must_hear, seen.drop_last());
        lemma_messages_bound(seen.drop_last());
    }
}

/// How a consumer of a counted block takes what is not a message.
#[derive(Clone, Copy, Debug, PartialEq, Eq, Structural)]
pub enum Style {
    /// Anything but a message fails the block.
    Strict,
    /// The block is a stream: a broken item counts during the warmup, and
    /// whatever is no message ends the measurement.
    Stream,
    /// What has already arrived is drained before the next wait; the end of the
    /// stream ends the measurement.
    Draining,
}

/// What a receive gave.
#[derive(Clone, Copy, Debug, PartialEq, Eq, Structural)]
pub enum Got {
    Message,
    /// A broken item or an error.
    Broken,
    /// Nothing to drain.
    Empty,
    /// The end of the stream.
    Ended,
}

/// What a consumer of a counted block does next.
#[derive(Clone, Copy, Debug, PartialEq, Eq, Structural)]
pub enum BlockNext {
    Receive,
    TryReceive,
    /// Report the measured messages and what the clock shows.
    Report,
    /// Report that nothing arrived.
    ReportNothing,
    /// Give up with the error at hand.
    Fail,
}

/// One turn of such a consumer.
#[derive(Clone, Copy, Debug, PartialEq, Eq, Structural)]
pub struct Turn {
    /// Start the clock before anything else.
    pub start_clock: bool,
    pub next: BlockNext,
}

/// A consumer that receives a warmup prefix untimed and then times a fixed
/// number of messages.
#[derive(Clone, Copy, Debug, PartialEq, Eq, Structural)]
pub struct Block {
    pub warmup: u64,
    pub messages: u64,
    pub style: Style,
    /// How much of the warmup was received.
    pub warmed: u64,
    /// How much of the measured block was received.
    pub measured: u64,
    /// Whether the clock runs.
    pub clocked: bool,
}

impl Block {
    /// Nothing is measured before the warmup is over, nor more than asked for.
    pub open spec fn wf(self) -> bool {
        &&& self.warmed <= self.warmup
        &&& self.measured <= self.messages
        &&& self.measured > 0 ==> self.warmed == self.warmup
    }

    /// Whether everything was received.
    pub open spec fn complete(self) -> bool {
        self.warmed == self.warmup && self.measured == self.messages
    }
}

/// The block with one more message received.
pub open spec fn counted(b: Block) -> Block {
    if b.warmed < b.warmup {
        Block { warmed: (b.warmed + 1) as u64, ..b }
    } else {
        Block { measured: (b.measured + 1) as u64, ..b }
    }
}

/// Whether the clock is due: it does not run, and the warmup is over.
pub open spec fn clock_due(b: Block) -> bool {
    !b.clocked && b.warmed == b.warmup
}

/// The turn after a message: the block with it counted, and on the clock where
/// that is due.
pub open spec fn message_turn(b: Block) -> (Block, Turn) {
    let c = counted(b);
    let due = clock_due(c);
    let next = if c.complete() {
        BlockNext::Report
    } else if b.style == Style::Draining {
        BlockNext::TryReceive
    } else {
        BlockNext::Receive
    };
    (Block { clocked: c.clocked || due, ..c }, Turn { start_clock: due, next })
}

/// The turn after a receive.
pub open spec fn got_step(b: Block, g: Got) -> (Block, Turn) {
    let stop = |n: BlockNext| (b, Turn { start_clock: false, next: n });
    match g {
        Got::Message => message_turn(b),
        Got::Broken => match b.style {
            Style::Strict => stop(BlockNext::Fail),
            Style::Stream => if b.warmed < b.warmup {
                message_turn(b)
            } else {
                stop(BlockNext::Report)
            },
            Style::Draining => stop(BlockNext::Fail),
        },
        Got::Empty => match b.style {
            Style::Strict => stop(BlockNext::Fail),
            Style::Stream => if b.warmed < b.warmup {
                stop(BlockNext::ReportNothing)
            } else {
                stop(BlockNext::Report)
            },
            Style::Draining => stop(BlockNext::Receive),
        },
        Got::Ended => match b.style {
            Style::Strict => stop(BlockNext::Fail),
            Style::Stream => if b.warmed < b.warmup {
                stop(BlockNext::ReportNothing)
            } else {
                stop(BlockNext::Report)
            },
            Style::Draining => stop(BlockNext::Report),
        },
    }
}

/// The first turn: a consumer that drains starts its clock on a message, the
/// others as soon as no warmup is left.
pub open spec fn first_turn(warmup: u64, messages: u64, style: Style) -> (Block, Turn) {
    let due = warmup == 0 && style != Style::Draining;
    (
        Block { warmup, messages, style, warmed: 0, measured: 0, clocked: due },
        Turn {
            start_clock: due,
            next: if warmup == 0 && messages == 0 {
                BlockNext::Report
            } else {
                BlockNext::Receive
            },
        },
    )
}

impl Block {
    /// Begins a block.
    pub fn begin(warmup: u64, messages: u64, style: Style) -> (r: (Block, Turn))
        ensures
            r == first_turn(warmup, messages, style),
            r.0.wf(),
    {
        let due: bool = warmup == 0 && style != Style::Draining;
        let next = if warmup == 0 && messages == 0 {
            BlockNext::Report
        } else {
            BlockNext::Receive
        };
        (
            Block { warmup, messages, style, warmed: 0, measured: 0, clocked: due },
            Turn { start_clock: due, next },
        )
    }

    fn with_message(self) -> (r: (Block, Turn))
        requires
            self.wf(),
            !self.complete(),
        ensures
            r == message_turn(self),
            r.0.wf(),
    {
        let mut b = self;
        if b.warmed < b.warmup {
            b.warmed = b.warmed + 1;
        } else {
            b.measured = b.measured + 1;
        }
        let due: bool = !b.clocked && b.warmed == b.warmup;
        b.clocked = b.clocked || due;
        let next = if b.warmed == b.warmup && b.measured == b.messages {
            BlockNext::Report
        } else if b.style == Style::Draining {
            BlockNext::TryReceive
        } else {
            BlockNext::Receive
        };
        (b, Turn { start_clock: due, next })
    }

    /// The turn after a receive.
    pub fn on_got(self, g: Got) -> (r: (Block, Turn))
        requires
            self.wf(),
            !self.complete(),
        ensures
            r == got_step(self, g),
            r.0.wf(),
    {
        let warming: bool = self.warmed < self.warmup;
        let next = match g {
            Got::Message => {
                return self.with_message();
            },
            Got::Broken => match self.style {
                Style::Strict => BlockNext::Fail,
                Style::Stream => {
                    if warming {
                        return self.with_message();
                    }
                    BlockNext::Report
                },
                Style::Draining => BlockNext::Fail,
            },
            Got::Empty => match self.style {
                Style::Strict => BlockNext::Fail,
                Style::Stream => if warming {
                    BlockNext::ReportNothing
                } else {
                    BlockNext::Report
                },
                Style::Draining => BlockNext::Receive,
            },
            Got::Ended => match self.style {
                Style::Strict => BlockNext::Fail,
                Style::Stream => if warming {
                    BlockNext::ReportNothing
                } else {
                    BlockNext::Report
                },
                Style::Draining => BlockNext::Report,
            },
        };
        (self, Turn { start_clock: false, next })
    }
}

/// A block after so many messages in a row.
pub open spec fn after_messages(b: Block, n: nat) -> Block
    decreases n,
{
    if n == 0 {
        b
    } else {
        message_turn(after_messages(b, (n - 1) as nat)).0
    }
}

/// A consumer takes the warmup and the measured block, and nothing beyond them:
/// each message counts towards one of the two, the warmup first, and everything
/// is received exactly with the last of them.
pub proof fn law_block_takes_its_messages(warmup: u64, messages: u64, style: Style, n: nat)
    requires
        n <= warmup + messages,
    ensures
        ({
            let b = after_messages(first_turn(warmup, messages, style).0, n);
            &&& b.wf()
            &&& b.warmup == warmup && b.messages == messages
            &&& b.warmed + b.measured == n
            &&& b.warmed == (if n <= warmup {
                n as int
            } else {
                warmup as int
            })
            &&& b.complete() <==> n == warmup + messages
        }),
    decreases n,
{
    if n > 0 {
        law_block_takes_its_messages(warmup, messages, style, (n - 1) as nat);
    }
}

/// A strict consumer reports only once it has received exactly the measured
/// block: no data is dropped and none is left out of the count.
pub proof fn law_strict_report_is_complete(b: Block, g: Got)
    requires
        b.wf(),
        !b.complete(),
        b.style == Style::Strict,
        got_step(b, g).1.next == BlockNext::Report,
    ensures
        got_step(b, g).0.complete(),
        got_step(b, g).0.measured == b.messages,
{
}

/// The clock starts once, and never before the warmup is over: a turn that
/// starts it finds it stopped and the warmup received, and leaves it running.
pub proof fn law_clock_starts_after_warmup(b: Block, g: Got)
    requires
        b.wf(),
        !b.complete(),
    ensures
        ({
            let (c, t) = got_step(b, g);
            &&& t.start_clock ==> !b.clocked && c.clocked && c.warmed == c.warmup
            &&& b.clocked ==> c.clocked && !t.start_clock
        }),
{
}

/// With a warmup, nothing that is measured is received before the clock runs.
pub proof fn law_measured_is_timed(b: Block, g: Got)
    requires
        b.wf(),
        !b.complete(),
        b.warmup > 0,
        b.warmed == b.warmup ==> b.clocked,
    ensures
        ({
            let c = got_step(b, g).0;
            &&& c.warmed == c.warmup ==> c.clocked
            &&& c.measured > b.measured ==> b.clocked
        }),
{
}

/// What a round-trip client does next.
#[derive(Clone, Copy, Debug, PartialEq, Eq, Structural)]
pub enum Trip {
    /// A round trip that is not timed.
    Untimed,
    /// A round trip that is timed.
    Timed,
    /// Report the quantiles.
    Report,
}

/// A client that makes some round trips untimed and then times a fixed number.
#[derive(Clone, Copy, Debug, PartialEq, Eq, Structural)]
pub struct RoundTrips {
    pub warmup: u64,
    pub messages: u64,
    pub warmed: u64,
    pub timed: u64,
}

impl RoundTrips {
    pub open spec fn wf(self) -> bool {
        &&& self.warmed <= self.warmup
        &&& self.timed <= self.messages
        &&& self.timed > 0 ==> self.warmed == self.warmup
    }

    pub fn new(warmup: u64, messages: u64) -> (r: RoundTrips)
        ensures
            r == (RoundTrips { warmup, messages, warmed: 0, timed: 0 }),
            r.wf(),
    {
        RoundTrips { warmup, messages, warmed: 0, timed: 0 }
    }

    /// What comes next.
    pub open spec fn upcoming(self) -> Trip {
        if self.warmed < self.warmup {
            Trip::Untimed
        } else if self.timed < self.messages {
            Trip::Timed
        } else {
            Trip::Report
        }
    }

    /// The client with one more round trip done.
    pub open spec fn advanced(self) -> RoundTrips {
        if self.warmed < self.warmup {
            RoundTrips { warmed: (self.warmed + 1) as u64, ..self }
        } else {
            RoundTrips { timed: (self.timed + 1) as u64, ..self }
        }
    }

    /// What comes next.
    pub fn next(self) -> (r: Trip)
        requires
            self.wf(),
        ensures
            r == self.upcoming(),
            r == (if self.warmed < self.warmup {
                Trip::Untimed
            } else if self.timed < self.messages {
                Trip::Timed
            } else {
                Trip::Report
            }),
            r == Trip::Report ==> self.timed == self.messages && self.warmed == self.warmup,
    {
        if self.warmed < self.warmup {
            Trip::Untimed
        } else if self.timed < self.messages {
            Trip::Timed
        } else {
            Trip::Report
        }
    }

    /// One more round trip is done.
    pub fn done(self) -> (r: RoundTrips)
        requires
            self.wf(),
            self.warmed < self.warmup || self.timed < self.messages,
        ensures
            r.wf(),
            r == self.advanced(),
            r.warmup == self.warmup,
            r.messages == self.messages,
            self.warmed < self.warmup ==> r.warmed == self.warmed + 1 && r.timed == self.timed,
            self.warmed == self.warmup ==> r.warmed == self.warmed && r.timed == self.timed + 1,
    {
        let mut r = self;
        if r.warmed < r.warmup {
            r.warmed = r.warmed + 1;
        } else {
            r.timed = r.timed + 1;
        }
        r
    }
}

/// What a producer makes of a failed send.
#[derive(Clone, Copy, Debug, PartialEq, Eq, Structural)]
pub enum OnError {
    /// It gives up with the error.
    Fail,
    /// It stops: the peer is gone, which is the normal end of a cell.
    Stop,
    /// It goes on.
    Ignore,
}

/// What a producer does next.
#[derive(Clone, Copy, Debug, PartialEq, Eq, Structural)]
pub enum SendNext {
    Send,
    /// Flush what is left of the last batch, if batches are flushed, and end.
    Finish,
    /// End.
    Stop,
    /// Give up with the error at hand.
    Fail,
}

/// A producer of a fixed number of messages, or of messages until it is killed.
#[derive(Clone, Copy, Debug, PartialEq, Eq, Structural)]
pub struct Producer {
    /// How many messages it sends; none for as many as it can.
    pub limit: Option<u64>,
    /// How many messages make a batch that is flushed; zero where batches are
    /// not flushed.
    pub flush_every: u64,
    pub on_error: OnError,
    pub sent: u64,
}

/// Whether the limit is reached.
pub open spec fn exhausted(p: Producer) -> bool {
    p.limit matches Some(n) && p.sent >= n
}

/// What follows a send: whether a batch is to be flushed, and what comes next.
pub open spec fn sent_step(p: Producer, ok: bool) -> (Producer, bool, SendNext) {
    if !ok && p.on_error == OnError::Fail {
        (p, false, SendNext::Fail)
    } else if !ok && p.on_error == OnError::Stop {
        (p, false, SendNext::Stop)
    } else {
        let q = Producer { sent: (p.sent + 1) as u64, ..p };
        (
            q,
            p.flush_every > 0 && q.sent % p.flush_every == 0,
            if exhausted(q) {
                SendNext::Finish
            } else {
                SendNext::Send
            },
        )
    }
}

impl Producer {
    /// Begins to send.
    pub fn begin(limit: Option<u64>, flush_every: u64, on_error: OnError) -> (r: (
        Producer,
        SendNext,
    ))
        ensures
            r.0 == (Producer { limit, flush_every, on_error, sent: 0 }),
            r.1 == (if limit == Some(0u64) {
                SendNext::Finish
            } else {
                SendNext::Send
            }),
    {
        let next = match limit {
            Some(n) => if n == 0 {
                SendNext::Finish
            } else {
                SendNext::Send
            },
            None => SendNext::Send,
        };
        (Producer { limit, flush_every, on_error, sent: 0 }, next)
    }

    /// What follows a send.
    pub fn on_sent(self, ok: bool) -> (r: (Producer, bool, SendNext))
        requires
            ok || self.on_error == OnError::Ignore ==> self.sent < u64::MAX,
        ensures
            r == sent_step(self, ok),
    {
        if !ok {
            match self.on_error {
                OnError::Fail => {
                    return (self, false, SendNext::Fail);
                },
                OnError::Stop => {
                    return (self, false, SendNext::Stop);
                },
                OnError::Ignore => {},
            }
        }
        let sent: u64 = self.sent + 1;
        let q = Producer {
            limit: self.limit,
            flush_every: self.flush_every,
            on_error: self.on_error,
            sent,
        };
        let flush: bool = self.flush_every > 0 && sent % self.flush_every == 0;
        let finished: bool = match self.limit {
            Some(n) => sent >= n,
            None => false,
        };
        let next = if finished {
            SendNext::Finish
        } else {
            SendNext::Send
        };
        (q, flush, next)
    }

    /// What follows a flush that was due, where `next` would follow one that
    /// succeeded. A failed flush is taken like a failed send.
    pub fn on_flushed(self, ok: bool, next: SendNext) -> (r: SendNext)
        ensures
            r == flushed_step(self, ok, next),
    {
        if ok {
            return next;
        }
        match self.on_error {
            OnError::Fail => SendNext::Fail,
            OnError::Stop => SendNext::Stop,
            OnError::Ignore => next,
        }
    }
}

/// What follows a flush: a failed one is taken like a failed send.
pub open spec fn flushed_step(p: Producer, ok: bool, next: SendNext) -> SendNext {
    if ok || p.on_error == OnError::Ignore {
        next
    } else if p.on_error == OnError::Fail {
        SendNext::Fail
    } else {
        SendNext::Stop
    }
}

/// A producer with a limit that gives up on errors sends exactly that many
/// messages: it finishes on the send that reaches the limit, and on no other.
pub proof fn law_limited_producer_sends_all(p: Producer, n: u64)
    requires
        p.limit == Some(n),
        p.on_error == OnError::Fail,
        p.sent < n,
    ensures
        ({
            let (q, flush, next) = sent_step(p, true);
            &&& q.sent == p.sent + 1
            &&& (next == SendNext::Finish) <==> q.sent == n
            &&& next == SendNext::Finish || next == SendNext::Send
        }),
{
}

/// A producer without a limit never finishes of itself.
pub proof fn law_unlimited_producer_goes_on(p: Producer, ok: bool)
    requires
        p.limit is None,
    ensures
        sent_step(p, ok).2 != SendNext::Finish,
        ok ==> sent_step(p, ok).2 == SendNext::Send,
{
}

/// What became of a message that an echoing server was to send back.
#[derive(Clone, Copy, Debug, PartialEq, Eq, Structural)]
pub enum Echoed {
    /// It arrived and was sent back.
    Sent,
    /// The peer ended the stream.
    Ended,
    /// It could not be received.
    NotReceived,
    /// It could not be sent back.
    NotSent,
}

/// What an echoing server does next.
#[derive(Clone, Copy, Debug, PartialEq, Eq, Structural)]
pub enum EchoNext {
    /// Echo the next message.
    Echo,
    /// End.
    Stop,
    /// Give up with the error at hand.
    Fail,
}

/// What an echoing server makes of an error.
pub open spec fn echo_error(on_error: OnError) -> EchoNext {
    match on_error {
        OnError::Fail => EchoNext::Fail,
        OnError::Stop => EchoNext::Stop,
        OnError::Ignore => EchoNext::Echo,
    }
}

/// What follows an echo, by what is made of an error of either half of it.
pub open spec fn echo_step(e: Echoed, on_receive_error: OnError, on_send_error: OnError) -> EchoNext {
    match e {
        Echoed::Sent => EchoNext::Echo,
        Echoed::Ended => EchoNext::Stop,
        Echoed::NotReceived => echo_error(on_receive_error),
        Echoed::NotSent => echo_error(on_send_error),
    }
}

/// What follows an echo, by what is made of an error of either half of it.
pub fn on_echoed(e: Echoed, on_receive_error: OnError, on_send_error: OnError) -> (r: EchoNext)
    ensures
        r == echo_step(e, on_receive_error, on_send_error),
{
    let on_error = match e {
        Echoed::Sent => {
            return EchoNext::Echo;
        },
        Echoed::Ended => {
            return EchoNext::Stop;
        },
        Echoed::NotReceived => on_receive_error,
        Echoed::NotSent => on_send_error,
    };
    match on_error {
        OnError::Fail => EchoNext::Fail,
        OnError::Stop => EchoNext::Stop,
        OnError::Ignore => EchoNext::Echo,
    }
}

/// What a consumer of a fixed number of messages does next.
#[derive(Clone, Copy, Debug, PartialEq, Eq, Structural)]
pub enum TakeNext {
    Receive,
    /// End.
    Done,
    /// Give up with the error at hand.
    Fail,
}

/// A consumer that receives a fixed number of messages and reports nothing.
#[derive(Clone, Copy, Debug, PartialEq, Eq, Structural)]
pub struct Intake {
    /// How many messages are still to come.
    pub left: u64,
}

/// What such a consumer does with so many messages to come.
pub open spec fn intake_next(left: u64) -> TakeNext {
    if left == 0 {
        TakeNext::Done
    } else {
        TakeNext::Receive
    }
}

/// What follows a receive: anything but a message fails.
pub open spec fn intake_step(i: Intake, g: Got) -> (Intake, TakeNext) {
    if g == Got::Message {
        let left = (i.left - 1) as u64;
        (Intake { left }, intake_next(left))
    } else {
        (i, TakeNext::Fail)
    }
}

impl Intake {
    /// Begins to receive.
    pub fn begin(total: u64) -> (r: (Intake, TakeNext))
        ensures
            r.0 == (Intake { left: total }),
            r.1 == intake_next(total),
    {
        let next = if total == 0 {
            TakeNext::Done
        } else {
            TakeNext::Receive
        };
        (Intake { left: total }, next)
    }

    /// What follows a receive.
    pub fn on_got(self, g: Got) -> (r: (Intake, TakeNext))
        requires
            self.left > 0,
        ensures
            r == intake_step(self, g),
    {
        if g != Got::Message {
            return (self, TakeNext::Fail);
        }
        let left: u64 = self.left - 1;
        let next = if left == 0 {
            TakeNext::Done
        } else {
            TakeNext::Receive
        };
        (Intake { left }, next)
    }
}

/// What such a consumer does after so many messages in a row.
pub open spec fn intake_after(total: u64, n: nat) -> (Intake, TakeNext)
    decreases n,
{
    if n == 0 {
        (Intake { left: total }, intake_next(total))
    } else {
        intake_step(intake_after(total, (n - 1) as nat).0, Got::Message)
    }
}

/// A consumer of a fixed number of messages is done exactly with the last of
/// them.
pub proof fn law_intake_takes_all(total: u64, n: nat)
    requires
        n <= total,
    ensures
        intake_after(total, n).0.left == total - n,
        intake_after(total, n).1 == (if n == total {
            TakeNext::Done
        } else {
            TakeNext::Receive
        }),
    decreases n,
{
    if n > 0 {
        law_intake_takes_all(total, (n - 1) as nat);
    }
}

/// A publisher that waits for its subscribers: what is sent to a peer that has
/// not subscribed yet is dropped.
#[derive(Clone, Copy, Debug, PartialEq, Eq, Structural)]
pub struct Gathering {
    /// How many subscribers are still to be accepted.
    pub left: u32,
}

/// What a gathering publisher does next.
#[derive(Clone, Copy, Debug, PartialEq, Eq, Structural)]
pub enum GatherNext {
    /// Accept a subscriber.
    Accept,
    /// Begin to publish.
    Publish,
    /// Give up with the error at hand.
    Fail,
}

/// What a publisher does with so many subscribers to come.
pub open spec fn gather_next(left: u32) -> GatherNext {
    if left == 0 {
        GatherNext::Publish
    } else {
        GatherNext::Accept
    }
}

/// What follows an attempt to accept a subscriber.
pub open spec fn gather_step(g: Gathering, ok: bool) -> (Gathering, GatherNext) {
    if ok {
        let left = (g.left - 1) as u32;
        (Gathering { left }, gather_next(left))
    } else {
        (g, GatherNext::Fail)
    }
}

impl Gathering {
    /// Begins to gather so many subscribers.
    pub fn begin(peers: u32) -> (r: (Gathering, GatherNext))
        ensures
            r.0 == (Gathering { left: peers }),
            r.1 == gather_next(peers),
    {
        let next = if peers == 0 {
            GatherNext::Publish
        } else {
            GatherNext::Accept
        };
        (Gathering { left: peers }, next)
    }

    /// What follows an attempt to accept a subscriber.
    pub fn on_accept(self, ok: bool) -> (r: (Gathering, GatherNext))
        requires
            self.left > 0,
        ensures
            r == gather_step(self, ok),
    {
        if !ok {
            return (self, GatherNext::Fail);
        }
        let left: u32 = self.left - 1;
        let next = if left == 0 {
            GatherNext::Publish
        } else {
            GatherNext::Accept
        };
        (Gathering { left }, next)
    }
}

/// What a publisher does after a list of attempts. It makes none once it
/// publishes or has given up.
pub open spec fn gather_after(peers: u32, attempts: Seq<bool>) -> (Gathering, GatherNext)
    decreases attempts.len(),
{
    if attempts.len() == 0 {
        (Gathering { left: peers }, gather_next(peers))
    } else {
        let before = gather_after(peers, attempts.drop_last());
        if before.1 == GatherNext::Accept {
            gather_step(before.0, attempts.last())
        } else {
            before
        }
    }
}

/// Publishing begins only once every subscriber is there: after exactly as many
/// attempts as there are peers, all of which succeeded. Before that the
/// publisher goes on accepting as long as every attempt succeeds, and it gives
/// up on the first that does not.
pub proof fn law_publish_after_every_subscriber(peers: u32, attempts: Seq<bool>)
    requires
        attempts.len() <= peers,
    ensures
        ({
            let (g, next) = gather_after(peers, attempts);
            let all = forall|i: int| 0 <= i < attempts.len() ==> #[trigger] attempts[i];
            &&& (next == GatherNext::Publish) <==> all && attempts.len() == peers
            &&& (next == GatherNext::Fail) <==> !all
            &&& all ==> g.left == peers - attempts.len()
        }),
    decreases attempts.len(),
{
    if attempts.len() > 0 {
        let rest = attempts.drop_last();
        law_publish_after_every_subscriber(peers, rest);
        if forall|i: int| 0 <= i < attempts.len() ==> #[trigger] attempts[i] {
            assert forall|i: int| 0 <= i < rest.len() implies #[trigger] rest[i] by {
                assert(attempts[i]);
            }
        } else {
            let k = choose|i: int| 0 <= i < attempts.len() && !(#[trigger] attempts[i]);
            if k < rest.len() {
                assert(!rest[k]);
            }
        }
        assert(attempts[attempts.len() - 1] == attempts.last());
    }
}

} // verus!
