//! The decisions of one fetch: what to do next, given what just happened.
//!
//! A fetch checks whether its destination is there, sends the request, reads
//! the body, creates the file and writes the body to it. Each of these is
//! work done elsewhere; this module only says which of them comes next, what
//! it is done with, and what is reported.
//!
//! [`step`] is the bare order of things, from a phase and an event to the
//! next phase. A [`Fetch`] ties that order to one resource: the caller does
//! the [`Work`] it names, with the address, path or bytes it names, and hands
//! the result to [`Fetch::step`], until the work is [`Work::Finish`].

use crate::notice::Notice;
use crate::resource::{Resource, ResourceView};
use vstd::prelude::*;

verus! {

/// The status of a response that needs no report.
pub const STATUS_OK: u16 = 200;

/// How a fetch ended.
#[derive(Clone, Copy, PartialEq, Eq, Structural, Debug)]
pub enum Outcome {
    /// The body was written to the destination.
    Completed,
    /// The destination was there already.
    Skipped,
    /// Some step failed; the failure was reported.
    Failed,
}

/// Where a fetch stands: the work whose result it waits for, or how it
/// ended.
#[derive(Clone, Copy, PartialEq, Eq, Structural, Debug)]
pub enum Phase {
    Checking,
    Requesting,
    Reading,
    Creating,
    Writing,
    Done(Outcome),
}

/// What happened outside: the result of the work that was asked for.
#[derive(Clone, PartialEq, Eq, Debug)]
pub enum Event {
    /// The destination was looked for.
    Destination { exists: bool },
    /// The request failed before any response came.
    RequestFailed,
    /// A response came, with this status.
    Response { status: u16 },
    /// Reading the body failed.
    BodyFailed,
    /// The body was read in full; these are its bytes.
    BodyRead { body: Vec<u8> },
    /// The destination file could not be created.
    CreateFailed,
    /// The destination file was created.
    Created,
    /// Writing the body failed.
    WriteFailed,
    /// The body was written.
    Written,
}

/// What the caller is to do next.
#[derive(Clone, Copy, PartialEq, Eq, Structural, Debug)]
pub enum Action {
    /// Test whether the resource's destination exists.
    CheckDestination,
    /// Send a GET request for the resource's address.
    SendRequest,
    /// Read the whole body of the response.
    ReadBody,
    /// Create the file at the resource's destination, emptying it if it is
    /// there.
    CreateFile,
    /// Write the body to the file just created.
    WriteBody,
    /// The fetch is over: advance the progress display by one.
    Finish(Outcome),
    /// Nothing new: the event was not the one awaited.
    Rest,
}

/// The reply to one event.
#[derive(Clone, Copy, PartialEq, Eq, Structural, Debug)]
pub struct Step {
    pub phase: Phase,
    pub notice: Option<Notice>,
    pub action: Action,
}

/// Whether `event` is a result of the work that `phase` waits for.
pub open spec fn answers(phase: Phase, event: Event) -> bool {
    match phase {
        Phase::Checking => event is Destination,
        Phase::Requesting => event is RequestFailed || event is Response,
        Phase::Reading => event is BodyFailed || event is BodyRead,
        Phase::Creating => event is CreateFailed || event is Created,
        Phase::Writing => event is WriteFailed || event is Written,
        Phase::Done(_) => false,
    }
}

/// The phase after `event` came in `phase`. An event that is not awaited
/// changes nothing. A destination that is there ends the fetch, and so does
/// every failure; a response leads on to its body whatever its status.
pub open spec fn next_phase(phase: Phase, event: Event) -> Phase {
    if !answers(phase, event) {
        phase
    } else {
        match event {
            Event::Destination { exists } => if exists {
                Phase::Done(Outcome::Skipped)
            } else {
                Phase::Requesting
            },
            Event::Response { .. } => Phase::Reading,
            Event::BodyRead { .. } => Phase::Creating,
            Event::Created => Phase::Writing,
            Event::Written => Phase::Done(Outcome::Completed),
            Event::RequestFailed
            | Event::BodyFailed
            | Event::CreateFailed
            | Event::WriteFailed => Phase::Done(Outcome::Failed),
        }
    }
}

/// What is reported when `event` comes in `phase`: a skip, each failure, and
/// a response whose status is not 200.
pub open spec fn notice_of(phase: Phase, event: Event) -> Option<Notice> {
    if !answers(phase, event) {
        None
    } else {
        match event {
            Event::Destination { exists } => if exists {
                Some(Notice::Skipping)
            } else {
                None
            },
            Event::RequestFailed => Some(Notice::RequestError),
            Event::Response { status } => if status != STATUS_OK {
                Some(Notice::Non200)
            } else {
                None
            },
            Event::BodyFailed => Some(Notice::BodyError),
            Event::CreateFailed => Some(Notice::CreateError),
            Event::WriteFailed => Some(Notice::WriteError),
            Event::BodyRead { .. } | Event::Created | Event::Written => None,
        }
    }
}

/// The work that a fetch in `phase` asks for when it enters that phase.
pub open spec fn awaited(phase: Phase) -> Action {
    match phase {
        Phase::Checking => Action::CheckDestination,
        Phase::Requesting => Action::SendRequest,
        Phase::Reading => Action::ReadBody,
        Phase::Creating => Action::CreateFile,
        Phase::Writing => Action::WriteBody,
        Phase::Done(outcome) => Action::Finish(outcome),
    }
}

/// What the caller is asked to do when `event` comes in `phase`.
pub open spec fn action_of(phase: Phase, event: Event) -> Action {
    if answers(phase, event) {
        awaited(next_phase(phase, event))
    } else {
        Action::Rest
    }
}

/// Takes the result of the work that was asked for and says where the fetch
/// stands now, what is to be reported and what is to be done next. A fetch
/// starts in [`Phase::Checking`].
pub fn step(phase: Phase, event: &Event) -> (reply: Step)
    ensures
        reply.phase == next_phase(phase, *event),
        reply.notice == notice_of(phase, *event),
        reply.action == action_of(phase, *event),
{
    match (phase, event) {
        (Phase::Checking, Event::Destination { exists }) => if *exists {
            ended(Outcome::Skipped, Some(Notice::Skipping))
        } else {
            Step { phase: Phase::Requesting, notice: None, action: Action::SendRequest }
        },
        (Phase::Requesting, Event::RequestFailed) => ended(
            Outcome::Failed,
            Some(Notice::RequestError),
        ),
        (Phase::Requesting, Event::Response { status }) => Step {
            phase: Phase::Reading,
            notice: if *status != STATUS_OK {
                Some(Notice::Non200)
            } else {
                None
            },
            action: Action::ReadBody,
        },
        (Phase::Reading, Event::BodyFailed) => ended(Outcome::Failed, Some(Notice::BodyError)),
        (Phase::Reading, Event::BodyRead { .. }) => Step {
            phase: Phase::Creating,
            notice: None,
            action: Action::CreateFile,
        },
        (Phase::Creating, Event::CreateFailed) => ended(
            Outcome::Failed,
            Some(Notice::CreateError),
        ),
        (Phase::Creating, Event::Created) => Step {
            phase: Phase::Writing,
            notice: None,
            action: Action::WriteBody,
        },
        (Phase::Writing, Event::WriteFailed) => ended(Outcome::Failed, Some(Notice::WriteError)),
        (Phase::Writing, Event::Written) => ended(Outcome::Completed, None),
        _ => Step { phase, notice: None, action: Action::Rest },
    }
}

/// The reply that ends a fetch.
fn ended(outcome: Outcome, notice: Option<Notice>) -> (reply: Step)
    ensures
        reply.phase == Phase::Done(outcome),
        reply.notice == notice,
        reply.action == Action::Finish(outcome),
{
    Step { phase: Phase::Done(outcome), notice, action: Action::Finish(outcome) }
}

/// The body that a fetch holds after `event` came in `phase`: the one just
/// read, where the event is the awaited end of reading, else the one it held.
pub open spec fn next_body(phase: Phase, body: Seq<u8>, event: Event) -> Seq<u8> {
    if phase == Phase::Reading && event is BodyRead {
        event->body@
    } else {
        body
    }
}

/// The work that a fetch waits for, with what it is to be done with.
#[derive(Debug)]
pub enum Work<'a> {
    /// Test whether anything exists at `path`.
    CheckDestination { path: &'a str },
    /// Send a GET request for `url`.
    SendRequest { url: &'a str },
    /// Read the whole body of the response.
    ReadBody,
    /// Create the file at `path`, emptying it if it is there.
    CreateFile { path: &'a str },
    /// Write all of `bytes` to the file just created.
    WriteBody { bytes: &'a [u8] },
    /// The fetch is over: advance the progress display by one.
    Finish(Outcome),
}

/// The fetch of one resource: where it stands, and the body once it is read.
pub struct Fetch<'a> {
    resource: &'a Resource,
    phase: Phase,
    body: Vec<u8>,
}

impl<'a> Fetch<'a> {
    /// The resource that is fetched.
    pub closed spec fn resource(&self) -> ResourceView {
        self.resource@
    }

    /// Where the fetch stands.
    pub closed spec fn phase(&self) -> Phase {
        self.phase
    }

    /// The body that the fetch holds; empty until one is read.
    pub closed spec fn body(&self) -> Seq<u8> {
        self.body@
    }

    /// A fetch of `resource` that has not done anything yet.
    pub fn new(resource: &'a Resource) -> (fetch: Fetch<'a>)
        ensures
            fetch.resource() == resource@,
            fetch.phase() == Phase::Checking,
            fetch.body() == Seq::<u8>::empty(),
    {
        Fetch { resource, phase: Phase::Checking, body: Vec::new() }
    }

    /// The work that the fetch waits for. The destination looked for and the
    /// file created are the resource's path, the request is for the
    /// resource's address, and the bytes to write are the body that was read.
    pub fn work(&self) -> (work: Work<'_>)
        ensures
            match work {
                Work::CheckDestination { path } => {
                    &&& self.phase() == Phase::Checking
                    &&& path@ == self.resource().fp
                },
                Work::SendRequest { url } => {
                    &&& self.phase() == Phase::Requesting
                    &&& url@ == self.resource().url
                },
                Work::ReadBody => self.phase() == Phase::Reading,
                Work::CreateFile { path } => {
                    &&& self.phase() == Phase::Creating
                    &&& path@ == self.resource().fp
                },
                Work::WriteBody { bytes } => {
                    &&& self.phase() == Phase::Writing
                    &&& bytes@ == self.body()
                },
                Work::Finish(outcome) => self.phase() == Phase::Done(outcome),
            },
    {
        match self.phase {
            Phase::Checking => Work::CheckDestination { path: self.resource.fp.as_str() },
            Phase::Requesting => Work::SendRequest { url: self.resource.url.as_str() },
            Phase::Reading => Work::ReadBody,
            Phase::Creating => Work::CreateFile { path: self.resource.fp.as_str() },
            Phase::Writing => Work::WriteBody { bytes: self.body.as_slice() },
            Phase::Done(outcome) => Work::Finish(outcome),
        }
    }

    /// Takes the result of the work that the fetch waited for. The fetch
    /// moves on as [`step`] says, and keeps the body when one was read.
    pub fn step(&mut self, event: Event) -> (reply: Step)
        ensures
            reply.phase == next_phase(old(self).phase(), event),
            reply.notice == notice_of(old(self).phase(), event),
            reply.action == action_of(old(self).phase(), event),
            final(self).phase() == reply.phase,
            final(self).resource() == old(self).resource(),
            final(self).body() == next_body(old(self).phase(), old(self).body(), event),
    {
        let reply = step(self.phase, &event);
        match (self.phase, event) {
            (Phase::Reading, Event::BodyRead { body }) => {
                self.body = body;
            },
            _ => {},
        }
        self.phase = reply.phase;
        reply
    }
}

/// The phase that a fetch in `phase` reaches after `events`, taken in order.
pub open spec fn run(phase: Phase, events: Seq<Event>) -> Phase
    decreases events.len(),
{
    if events.len() == 0 {
        phase
    } else {
        run(next_phase(phase, events.first()), events.drop_first())
    }
}

/// The actions that a fetch in `phase` asks for in reply to `events`, one for
/// each event.
pub open spec fn trace(phase: Phase, events: Seq<Event>) -> Seq<Action>
    decreases events.len(),
{
    if events.len() == 0 {
        Seq::empty()
    } else {
        seq![action_of(phase, events.first())] + trace(
            next_phase(phase, events.first()),
            events.drop_first(),
        )
    }
}

/// The body that a fetch holds after `events`, where it stood in `phase`
/// and held `body` before them.
pub open spec fn held_body(phase: Phase, body: Seq<u8>, events: Seq<Event>) -> Seq<u8>
    decreases events.len(),
{
    if events.len() == 0 {
        body
    } else {
        held_body(
            next_phase(phase, events.first()),
            next_body(phase, body, events.first()),
            events.drop_first(),
        )
    }
}

/// How often `action` stands in `actions`.
pub open spec fn occurrences(actions: Seq<Action>, action: Action) -> nat
    decreases actions.len(),
{
    if actions.len() == 0 {
        0
    } else if actions.first() == action {
        1 + occurrences(actions.drop_first(), action)
    } else {
        occurrences(actions.drop_first(), action)
    }
}

/// How often `actions` ask to advance the progress display: once for each
/// `Finish`, whatever its outcome.
pub open spec fn advances(actions: Seq<Action>) -> nat {
    occurrences(actions, Action::Finish(Outcome::Completed)) + occurrences(
        actions,
        Action::Finish(Outcome::Skipped),
    ) + occurrences(actions, Action::Finish(Outcome::Failed))
}

/// How many results a fetch in `phase` can still take before it is over.
pub open spec fn steps_left(phase: Phase) -> nat {
    match phase {
        Phase::Checking => 5,
        Phase::Requesting => 4,
        Phase::Reading => 3,
        Phase::Creating => 2,
        Phase::Writing => 1,
        Phase::Done(_) => 0,
    }
}

/// Every result that a fetch waits for brings it nearer its end, so a fetch
/// is over after five results at most, whatever they are: no failure keeps it
/// from completing.
pub proof fn lemma_answer_nears_end(phase: Phase, event: Event)
    requires
        answers(phase, event),
    ensures
        steps_left(next_phase(phase, event)) < steps_left(phase),
{
}

/// A fetch that is over stays as it is and asks for nothing more.
pub proof fn lemma_done_is_final(outcome: Outcome, events: Seq<Event>)
    ensures
        run(Phase::Done(outcome), events) == Phase::Done(outcome),
        forall|i: int|
            0 <= i < events.len() ==> (#[trigger] trace(Phase::Done(outcome), events)[i])
                == Action::Rest,
        trace(Phase::Done(outcome), events).len() == events.len(),
    decreases events.len(),
{
    if events.len() > 0 {
        lemma_done_is_final(outcome, events.drop_first());
    }
}

/// The actions in reply to a run of events: the reply to the first, then
/// the replies to the rest.
proof fn lemma_trace_unfold(phase: Phase, events: Seq<Event>, action: Action)
    requires
        events.len() > 0,
    ensures
        occurrences(trace(phase, events), action) == occurrences(
            trace(next_phase(phase, events.first()), events.drop_first()),
            action,
        ) + if action_of(phase, events.first()) == action {
            1nat
        } else {
            0nat
        },
{
    let first = action_of(phase, events.first());
    let rest = trace(next_phase(phase, events.first()), events.drop_first());
    assert((seq![first] + rest).first() == first);
    assert((seq![first] + rest).drop_first() == rest);
}

/// How often a fetch that starts in `phase` asks for the end with `outcome`:
/// once if it ends that way, else never.
proof fn lemma_finish_once(phase: Phase, events: Seq<Event>, outcome: Outcome)
    ensures
        occurrences(trace(phase, events), Action::Finish(outcome)) == if phase !is Done && run(
            phase,
            events,
        ) == Phase::Done(outcome) {
            1nat
        } else {
            0nat
        },
    decreases events.len(),
{
    if events.len() > 0 {
        let next = next_phase(phase, events.first());
        lemma_trace_unfold(phase, events, Action::Finish(outcome));
        lemma_finish_once(next, events.drop_first(), outcome);
        if next is Done {
            lemma_done_is_final(next->0, events.drop_first());
        }
    }
}

/// The progress display is advanced exactly once by a fetch that reaches its
/// end, however it ends, and not at all by one that does not.
pub proof fn lemma_advances_once(phase: Phase, events: Seq<Event>)
    ensures
        advances(trace(phase, events)) == if phase !is Done && run(phase, events) is Done {
            1nat
        } else {
            0nat
        },
{
    lemma_finish_once(phase, events, Outcome::Completed);
    lemma_finish_once(phase, events, Outcome::Skipped);
    lemma_finish_once(phase, events, Outcome::Failed);
}

/// No work is asked for twice: whatever results come in, and in whatever
/// order, a fetch sends one request at most, creates one file at most and
/// writes to it once at most. What it asks for belongs to a phase that comes
/// after the one it is in.
pub proof fn lemma_no_action_twice(phase: Phase, events: Seq<Event>, action: Action)
    requires
        action != Action::Rest,
    ensures
        occurrences(trace(phase, events), action) <= 1,
        occurrences(trace(phase, events), action) == 1 ==> exists|later: Phase|
            steps_left(later) < steps_left(phase) && awaited(later) == action,
    decreases events.len(),
{
    if events.len() > 0 {
        let first = action_of(phase, events.first());
        let next = next_phase(phase, events.first());
        let rest = trace(next, events.drop_first());
        lemma_trace_unfold(phase, events, action);
        lemma_no_action_twice(next, events.drop_first(), action);
        if first == action {
            assert(steps_left(next) < steps_left(phase) && awaited(next) == action);
            if occurrences(rest, action) == 1 {
                // Then a phase after `next` would await what `next` awaits.
                let later = choose|later: Phase|
                    steps_left(later) < steps_left(next) && awaited(later) == action;
                assert(later == next);
            }
        } else if occurrences(rest, action) == 1 {
            let later = choose|later: Phase|
                steps_left(later) < steps_left(next) && awaited(later) == action;
            assert(steps_left(later) < steps_left(phase) && awaited(later) == action);
        }
    }
}

/// Once a body is read it is kept as it is, whatever comes in.
proof fn lemma_body_is_kept(phase: Phase, body: Seq<u8>, events: Seq<Event>)
    requires
        steps_left(phase) <= 2,
    ensures
        held_body(phase, body, events) == body,
    decreases events.len(),
{
    if events.len() > 0 {
        lemma_body_is_kept(next_phase(phase, events.first()), body, events.drop_first());
    }
}

/// A fetch that has not read its body yet and comes to the point of writing
/// has read a body on the way, and holds it.
proof fn lemma_body_on_the_way(phase: Phase, body: Seq<u8>, events: Seq<Event>)
    requires
        steps_left(phase) >= 3,
        run(phase, events) == Phase::Writing,
    ensures
        exists|i: int|
            {
                &&& 0 <= i < events.len()
                &&& run(phase, events.take(i)) == Phase::Reading
                &&& (#[trigger] events[i]) is BodyRead
                &&& events[i]->body@ == held_body(phase, body, events)
            },
    decreases events.len(),
{
    let first = events.first();
    let rest = events.drop_first();
    let next = next_phase(phase, first);
    if phase == Phase::Reading && first is BodyRead {
        lemma_body_is_kept(next, first->body@, rest);
        assert(events.take(0).len() == 0);
        assert(events[0] == first);
    } else {
        if next is Done {
            lemma_done_is_final(next->0, rest);
        }
        lemma_body_on_the_way(next, body, rest);
        let i = choose|i: int|
            {
                &&& 0 <= i < rest.len()
                &&& run(next, rest.take(i)) == Phase::Reading
                &&& (#[trigger] rest[i]) is BodyRead
                &&& rest[i]->body@ == held_body(next, body, rest)
            };
        assert(events.take(i + 1).first() == first);
        assert(events.take(i + 1).drop_first() == rest.take(i));
        assert(events[i + 1] == rest[i]);
    }
}

/// What a fetch writes is what it read: when the time to write has come,
/// the bytes it holds are those of the body that came in while it was
/// reading.
pub proof fn lemma_written_is_read(events: Seq<Event>)
    requires
        run(Phase::Checking, events) == Phase::Writing,
    ensures
        exists|i: int|
            {
                &&& 0 <= i < events.len()
                &&& run(Phase::Checking, events.take(i)) == Phase::Reading
                &&& (#[trigger] events[i]) is BodyRead
                &&& events[i]->body@ == held_body(Phase::Checking, Seq::empty(), events)
            },
{
    lemma_body_on_the_way(Phase::Checking, Seq::empty(), events);
}

/// Where the destination is there already, the fetch ends at once as
/// skipped: it reports the skip, and never asks for a request, a file or a
/// write.
pub proof fn lemma_existing_destination_is_left_alone(events: Seq<Event>)
    requires
        events.len() > 0,
        events.first() == (Event::Destination { exists: true }),
    ensures
        run(Phase::Checking, events) == Phase::Done(Outcome::Skipped),
        notice_of(Phase::Checking, events.first()) == Some(Notice::Skipping),
        trace(Phase::Checking, events).first() == Action::Finish(Outcome::Skipped),
        forall|i: int|
            1 <= i < events.len() ==> (#[trigger] trace(Phase::Checking, events)[i])
                == Action::Rest,
{
    lemma_done_is_final(Outcome::Skipped, events.drop_first());
    let rest = trace(Phase::Done(Outcome::Skipped), events.drop_first());
    assert forall|i: int| 1 <= i < events.len() implies (#[trigger] trace(
        Phase::Checking,
        events,
    )[i]) == Action::Rest by {
        assert(trace(Phase::Checking, events)[i] == rest[i - 1]);
    }
}

/// A response is read and stored whatever its status: the status decides
/// only whether an error is reported.
pub proof fn lemma_status_only_reports(status: u16)
    ensures
        next_phase(Phase::Requesting, Event::Response { status }) == Phase::Reading,
        action_of(Phase::Requesting, Event::Response { status }) == Action::ReadBody,
        notice_of(Phase::Requesting, Event::Response { status }) is Some <==> status != STATUS_OK,
{
}

} // verus!
