//! What holds of a target's loops over everything that a socket may do.
use vstd::prelude::*;
use crate::loops::{
    Block, BlockNext, Drain, EchoNext, Echoed, Got, Intake, Next, OnError, Producer, RoundTrips,
    Seen, SendNext, Stage, Style, TakeNext, Trip, Window,
};

verus! {

/// A counting consumer starts its clock on the first message and on no other.
pub proof fn law_first_message_starts_the_clock(w: Window, e: Seen)
    ensures
        crate::loops::seen_step(w, e).1 == Next::StartClock <==> w.stage == Stage::First && e
            == Seen::Message,
{
}

/// A counting consumer reports as soon as its window is over and not before,
/// unless its peer is gone while it waits.
pub proof fn law_window_ends_on_time(w: Window, e: Seen, over: bool)
    ensures
        crate::loops::clock_step(w, over) == Next::Report <==> over,
        crate::loops::seen_step(w, e).1 == Next::Report <==> w.stage == Stage::Waiting && e
            == Seen::Gone,
        !over && w.stage != Stage::Draining ==> crate::loops::clock_step(w, over) == Next::Receive,
        !over && w.stage == Stage::Draining ==> crate::loops::clock_step(w, over)
            == Next::TryReceive,
{
}

/// A counting consumer says that nothing arrived exactly where its peer is gone
/// before the first message, and fails then where it must hear; while nothing
/// arrives it goes on waiting.
pub proof fn law_silence_is_reported(w: Window, e: Seen)
    ensures
        (crate::loops::seen_step(w, e).1 == Next::ReportNothing || crate::loops::seen_step(w, e).1
            == Next::ReportNothingAndFail) <==> w.stage == Stage::First && e == Seen::Gone,
        crate::loops::seen_step(w, e).1 == Next::ReportNothingAndFail <==> w.stage == Stage::First
            && e == Seen::Gone && w.must_hear,
        w.stage == Stage::First && e == Seen::Nothing ==> crate::loops::seen_step(w, e) == (
            w,
            Next::Receive,
        ),
{
}

/// Whether a counting consumer looks at the clock before it takes what is already
/// there: one that drains freely does not as long as messages come, the others do
/// after every message. With nothing left to drain every one looks, and waits for
/// the next message then.
pub proof fn law_drain_decides_about_the_clock(w: Window, e: Seen)
    requires
        w.stage != Stage::First,
    ensures
        ({
            let (c, next) = crate::loops::seen_step(w, e);
            &&& e == Seen::Message && w.drain == Drain::Freely ==> next == Next::TryReceive
            &&& e == Seen::Message && w.drain != Drain::Freely ==> next == Next::LookAtClock
            &&& e == Seen::Message ==> (c.stage == Stage::Draining <==> w.drain != Drain::Never)
            &&& e == Seen::Nothing ==> next == Next::LookAtClock && c.stage == Stage::Waiting
            &&& e == Seen::Gone && w.stage == Stage::Draining ==> next == Next::LookAtClock
                && c.stage == Stage::Waiting
            &&& c.drain == w.drain && c.must_hear == w.must_hear
        }),
{
}

/// What is neither a message nor the end of a stream changes no count.
pub proof fn law_only_messages_count(b: Block, g: Got)
    requires
        b.wf(),
        !b.complete(),
        g != Got::Message,
    ensures
        ({
            let c = crate::loops::got_step(b, g).0;
            &&& c.measured == b.measured
            &&& c.warmed != b.warmed ==> b.style == Style::Stream && g == Got::Broken && b.warmed
                < b.warmup && c.warmed == b.warmed + 1
        }),
{
}

/// One message more is received with every message: it counts towards the warmup
/// as long as that lasts, then towards the block; and with the last of the block,
/// and no sooner, the consumer reports.
pub proof fn law_a_message_is_one_more(b: Block)
    requires
        b.wf(),
        !b.complete(),
    ensures
        ({
            let (c, t) = crate::loops::got_step(b, Got::Message);
            &&& c.warmed + c.measured == b.warmed + b.measured + 1
            &&& b.warmed < b.warmup ==> c.measured == b.measured
            &&& b.warmed == b.warmup ==> c.warmed == b.warmed
            &&& t.next == BlockNext::Report <==> c.warmed == b.warmup && c.measured == b.messages
            &&& t.next != BlockNext::Report ==> (t.next == BlockNext::TryReceive <==> b.style
                == Style::Draining)
            &&& t.next != BlockNext::Report && b.style != Style::Draining ==> t.next
                == BlockNext::Receive
            &&& c.warmup == b.warmup && c.messages == b.messages && c.style == b.style
        }),
{
}

/// The clock of a block runs from the end of the warmup on: a message that ends
/// the warmup, or the first of a block without one, finds it running.
pub proof fn law_clock_runs_once_warm(b: Block)
    requires
        b.wf(),
        !b.complete(),
    ensures
        ({
            let (c, t) = crate::loops::got_step(b, Got::Message);
            &&& c.clocked <==> b.clocked || c.warmed == c.warmup
            &&& t.start_clock <==> c.clocked && !b.clocked
        }),
{
}

/// A block begins with nothing received. Its clock runs at once where there is no
/// warmup, unless it drains, and it is over at once where nothing is to come.
pub proof fn law_blocks_begin_empty(warmup: u64, messages: u64, style: Style)
    ensures
        ({
            let (b, t) = crate::loops::first_turn(warmup, messages, style);
            &&& b.warmed == 0 && b.measured == 0
            &&& b.warmup == warmup && b.messages == messages && b.style == style
            &&& b.clocked == t.start_clock
            &&& t.start_clock <==> warmup == 0 && style != Style::Draining
            &&& t.next == BlockNext::Report <==> b.complete()
            &&& t.next == BlockNext::Report || t.next == BlockNext::Receive
        }),
{
}

/// What ends a block early. A strict consumer fails on anything but a message. A
/// stream ends the measurement on it, or reports nothing where the warmup is not
/// over, but takes a broken item for warmup. A draining consumer fails on a broken
/// item, reports where the stream ends, and waits on where nothing is there.
pub proof fn law_styles_end_blocks(b: Block, g: Got)
    requires
        b.wf(),
        !b.complete(),
        g != Got::Message,
    ensures
        ({
            let (c, t) = crate::loops::got_step(b, g);
            let warming = b.warmed < b.warmup;
            &&& b.style == Style::Strict ==> t.next == BlockNext::Fail
            &&& b.style == Style::Stream && !warming ==> t.next == BlockNext::Report
            &&& b.style == Style::Stream && warming && g != Got::Broken ==> t.next
                == BlockNext::ReportNothing
            &&& b.style == Style::Stream && warming && g == Got::Broken ==> c.warmed == b.warmed
                + 1 && (t.next == BlockNext::Receive || c.complete())
            &&& b.style == Style::Draining && g == Got::Broken ==> t.next == BlockNext::Fail
            &&& b.style == Style::Draining && g == Got::Ended ==> t.next == BlockNext::Report
            &&& b.style == Style::Draining && g == Got::Empty ==> t.next == BlockNext::Receive && c
                == b
        }),
{
}

/// The producer after so many sends that went well.
pub open spec fn after_sends(p: Producer, n: nat) -> Producer
    decreases n,
{
    if n == 0 {
        p
    } else {
        crate::loops::sent_step(after_sends(p, (n - 1) as nat), true).0
    }
}

/// A producer counts its sends, and flushes with every so many of them as make a
/// batch and at no other time.
pub proof fn law_batches_are_flushed_whole(p: Producer, n: nat)
    requires
        p.sent == 0,
        n < u64::MAX,
    ensures
        after_sends(p, n).sent == n,
        after_sends(p, n).limit == p.limit,
        after_sends(p, n).flush_every == p.flush_every,
        after_sends(p, n).on_error == p.on_error,
        crate::loops::sent_step(after_sends(p, n), true).2 == SendNext::Finish
            || crate::loops::sent_step(after_sends(p, n), true).2 == SendNext::Send,
        crate::loops::sent_step(after_sends(p, n), true).1 <==> p.flush_every > 0 && (n + 1)
            % (p.flush_every as nat) == 0,
        p.limit matches Some(l) ==> (crate::loops::sent_step(after_sends(p, n), true).2
            == SendNext::Finish <==> n + 1 >= l),
    decreases n,
{
    if n > 0 {
        law_batches_are_flushed_whole(p, (n - 1) as nat);
    }
}

/// What a producer makes of an error: one that is to fail fails, one that is to
/// stop stops, and neither counts the message nor flushes; one that ignores errors
/// goes on as if the message was sent. A flush that failed is taken alike.
pub proof fn law_failed_sends(p: Producer, next: SendNext)
    ensures
        p.on_error == OnError::Fail ==> crate::loops::sent_step(p, false) == (
            p,
            false,
            SendNext::Fail,
        ) && crate::loops::flushed_step(p, false, next) == SendNext::Fail,
        p.on_error == OnError::Stop ==> crate::loops::sent_step(p, false) == (
            p,
            false,
            SendNext::Stop,
        ) && crate::loops::flushed_step(p, false, next) == SendNext::Stop,
        p.on_error == OnError::Ignore ==> crate::loops::sent_step(p, false)
            == crate::loops::sent_step(p, true) && crate::loops::flushed_step(p, false, next)
            == next,
        crate::loops::flushed_step(p, true, next) == next,
{
}

/// An echoing server goes on after every message that it sent back and ends with
/// the stream. An error is taken as its half of the echo is to be taken, whatever
/// holds of the other half.
pub proof fn law_echo_goes_on(on_receive: OnError, on_send: OnError, other: OnError)
    ensures
        crate::loops::echo_step(Echoed::Sent, on_receive, on_send) == EchoNext::Echo,
        crate::loops::echo_step(Echoed::Ended, on_receive, on_send) == EchoNext::Stop,
        crate::loops::echo_step(Echoed::NotReceived, on_receive, on_send)
            == crate::loops::echo_step(Echoed::NotReceived, on_receive, other),
        crate::loops::echo_step(Echoed::NotSent, on_receive, on_send) == crate::loops::echo_step(
            Echoed::NotSent,
            other,
            on_send,
        ),
        on_receive == OnError::Fail <==> crate::loops::echo_step(
            Echoed::NotReceived,
            on_receive,
            on_send,
        ) == EchoNext::Fail,
        on_receive == OnError::Stop <==> crate::loops::echo_step(
            Echoed::NotReceived,
            on_receive,
            on_send,
        ) == EchoNext::Stop,
        on_send == OnError::Fail <==> crate::loops::echo_step(Echoed::NotSent, on_receive, on_send)
            == EchoNext::Fail,
        on_send == OnError::Stop <==> crate::loops::echo_step(Echoed::NotSent, on_receive, on_send)
            == EchoNext::Stop,
{
}

/// A client after so many round trips.
pub open spec fn after_trips(warmup: u64, messages: u64, n: nat) -> RoundTrips
    decreases n,
{
    if n == 0 {
        RoundTrips { warmup, messages, warmed: 0, timed: 0 }
    } else {
        after_trips(warmup, messages, (n - 1) as nat).advanced()
    }
}

/// A client makes its warmup untimed and then times the round trips that were
/// asked for, one after the other; it reports when it has timed them all, and not
/// before.
pub proof fn law_trips_are_timed_after_the_warmup(warmup: u64, messages: u64, n: nat)
    requires
        n <= warmup + messages,
    ensures
        ({
            let c = after_trips(warmup, messages, n);
            &&& c.upcoming() == Trip::Untimed <==> n < warmup
            &&& c.upcoming() == Trip::Timed <==> warmup <= n < warmup + messages
            &&& c.upcoming() == Trip::Report <==> n == warmup + messages
            &&& c.warmed + c.timed == n
            &&& n >= warmup ==> c.timed == n - warmup
            &&& n <= warmup ==> c.timed == 0
            &&& c.warmup == warmup && c.messages == messages
        }),
    decreases n,
{
    if n > 0 {
        law_trips_are_timed_after_the_warmup(warmup, messages, (n - 1) as nat);
    }
}

/// The message that starts the clock counts, and leaves how the consumer drains as
/// it was. It is not drained after: the clock comes first, and then a wait.
pub proof fn law_first_message_counts(w: Window)
    requires
        w.stage == Stage::First,
        w.count < u64::MAX,
    ensures
        ({
            let c = crate::loops::seen_step(w, Seen::Message).0;
            &&& c.count == w.count + 1
            &&& c.drain == w.drain && c.must_hear == w.must_hear
            &&& crate::loops::clock_step(c, false) == Next::Receive
        }),
{
}

/// What is no message leaves the count of a counting consumer as it was, and how
/// it drains.
pub proof fn law_silence_counts_nothing(w: Window, e: Seen)
    requires
        e != Seen::Message,
    ensures
        crate::loops::seen_step(w, e).0.count == w.count,
        crate::loops::seen_step(w, e).0.drain == w.drain,
        crate::loops::seen_step(w, e).0.must_hear == w.must_hear,
        crate::loops::seen_step(w, e).0.stage == Stage::First <==> w.stage == Stage::First,
{
}

/// A consumer of a fixed number of messages that gets anything else fails at
/// once, with as many still to come as before.
pub proof fn law_intake_fails_early(i: Intake, g: Got)
    requires
        i.left > 0,
    ensures
        crate::loops::intake_step(i, g).1 == TakeNext::Fail <==> g != Got::Message,
        g != Got::Message ==> crate::loops::intake_step(i, g).0.left == i.left,
        g == Got::Message ==> crate::loops::intake_step(i, g).0.left == i.left - 1,
        crate::loops::intake_step(i, g).1 == TakeNext::Done <==> g == Got::Message && i.left == 1,
{
}

} // verus!
