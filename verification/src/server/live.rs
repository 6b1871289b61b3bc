//! Live frames of the link being packed: when one is sent, and how a websocket
//! follows them.

use vstd::prelude::*;

use crate::text;

verus! {

/// Minimum time between two live frames of one pack, in nanoseconds.
pub const LIVE_INTERVAL: u128 = 80000000;

/// Whether a frame is due at the time `now`, when the last one was sent at
/// `last`.
pub fn frame_due(last: Option<u128>, now: u128) -> (due: bool)
    ensures
        due == match last {
            Some(t) => now - t >= LIVE_INTERVAL,
            None => true,
        },
{
    match last {
        Some(t) => now >= t && now - t >= LIVE_INTERVAL,
        None => true,
    }
}

/// What happened while a websocket follows a session.
#[derive(Debug)]
pub enum LiveEvent {
    /// The session has a new latest frame, or none.
    Frame(Option<String>),
    /// The session's frames have ended.
    Ended,
    /// The client sent a message.
    Message,
    /// The client left: the socket closed or failed.
    Left,
    /// A frame could not be sent.
    SendFailed,
    /// A periodic check whether the session is still there.
    Check { there: bool },
}

/// What to do next.
#[derive(Debug)]
pub enum LiveAction {
    /// Send this frame.
    Send(String),
    /// Wait for the next event.
    Wait,
    /// Close the socket.
    Close,
}

/// The contents of a [`LiveEvent`].
pub enum EventView {
    Frame(Option<Seq<char>>),
    Ended,
    Message,
    Left,
    SendFailed,
    Check { there: bool },
}

/// The contents of a [`LiveAction`].
pub enum ActionView {
    Send(Seq<char>),
    Wait,
    Close,
}

impl View for LiveEvent {
    type V = EventView;

    open spec fn view(&self) -> EventView {
        match self {
            LiveEvent::Frame(t) => EventView::Frame(text::opt_text(*t)),
            LiveEvent::Ended => EventView::Ended,
            LiveEvent::Message => EventView::Message,
            LiveEvent::Left => EventView::Left,
            LiveEvent::SendFailed => EventView::SendFailed,
            LiveEvent::Check { there } => EventView::Check { there: *there },
        }
    }
}

impl View for LiveAction {
    type V = ActionView;

    open spec fn view(&self) -> ActionView {
        match self {
            LiveAction::Send(t) => ActionView::Send(t@),
            LiveAction::Wait => ActionView::Wait,
            LiveAction::Close => ActionView::Close,
        }
    }
}

/// What follows an event: new frames are sent, client messages are ignored,
/// and the socket closes when the client leaves or the session is gone.
pub open spec fn live_reaction(e: EventView) -> ActionView {
    match e {
        EventView::Frame(Some(t)) => ActionView::Send(t),
        EventView::Frame(None) => ActionView::Wait,
        EventView::Message => ActionView::Wait,
        EventView::Check { there } => if there {
            ActionView::Wait
        } else {
            ActionView::Close
        },
        EventView::Ended => ActionView::Close,
        EventView::Left => ActionView::Close,
        EventView::SendFailed => ActionView::Close,
    }
}

/// One step of following a session.
pub fn follow_live(event: LiveEvent) -> (out: LiveAction)
    ensures
        out@ == live_reaction(event@),
{
    match event {
        LiveEvent::Frame(frame) => match frame {
            Some(t) => LiveAction::Send(t),
            None => LiveAction::Wait,
        },
        LiveEvent::Message => LiveAction::Wait,
        LiveEvent::Check { there } => if there {
            LiveAction::Wait
        } else {
            LiveAction::Close
        },
        LiveEvent::Ended => LiveAction::Close,
        LiveEvent::Left => LiveAction::Close,
        LiveEvent::SendFailed => LiveAction::Close,
    }
}

/// The times at which frames are sent when iterations end at `times`, the
/// first frame at once and each later one when it is due.
pub open spec fn sent_times(times: Seq<int>) -> Seq<int>
    decreases times.len(),
{
    if times.len() == 0 {
        Seq::empty()
    } else {
        let front = sent_times(times.drop_last());
        if front.len() == 0 || times.last() - front.last() >= LIVE_INTERVAL {
            front.push(times.last())
        } else {
            front
        }
    }
}

/// Two frames of one pack are never sent closer together than the interval,
/// and the first iteration always sends one.
pub proof fn frames_keep_their_distance(times: Seq<int>)
    ensures
        forall|i: int|
            0 <= i < sent_times(times).len() - 1 ==> #[trigger] sent_times(times)[i] + LIVE_INTERVAL
                <= sent_times(times)[i + 1],
        times.len() > 0 ==> sent_times(times).len() > 0 && sent_times(times)[0] == times[0],
    decreases times.len(),
{
    if times.len() > 0 {
        let front = sent_times(times.drop_last());
        frames_keep_their_distance(times.drop_last());
        if times.len() > 1 {
            assert(times.drop_last()[0] == times[0]);
        }
        assert forall|i: int| 0 <= i < sent_times(times).len() - 1 implies #[trigger] sent_times(
            times,
        )[i] + LIVE_INTERVAL <= sent_times(times)[i + 1] by {
            assert(sent_times(times)[i] == front[i]);
            if i + 1 < front.len() {
                assert(sent_times(times)[i + 1] == front[i + 1]);
            }
        }
    }
}

/// New frames are sent as they are; the socket closes only when there is nobody to send to.
pub proof fn only_new_frames_are_sent(e: EventView, t: Seq<char>)
    ensures
        live_reaction(e) == ActionView::Send(t) <==> e == EventView::Frame(Some(t)),
        live_reaction(e) is Close <==> e is Ended || e is Left || e is SendFailed || (
        e matches EventView::Check { there } && !there),
{
}

/// No frame that is due is left out: when an iteration ends, a frame was sent less than the
/// interval before, or is sent now.
pub proof fn due_frames_are_sent(times: Seq<int>, i: int)
    requires
        0 <= i < times.len(),
    ensures
        exists|k: int|
            0 <= k < sent_times(times).len() && times[i] - (#[trigger] sent_times(times)[k])
                < LIVE_INTERVAL,
    decreases times.len(),
{
    let f = times.drop_last();
    let front = sent_times(f);
    let all = sent_times(times);
    if i < f.len() {
        due_frames_are_sent(f, i);
        let k = choose|k: int|
            0 <= k < front.len() && f[i] - (#[trigger] front[k]) < LIVE_INTERVAL;
        assert(all[k] == front[k]);
    } else if front.len() == 0 || times.last() - front.last() >= LIVE_INTERVAL {
        assert(all[front.len() as int] == times.last());
    } else {
        assert(all[front.len() - 1] == front.last());
    }
}

} // verus!
