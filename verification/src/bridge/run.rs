//! The loop of a bridge: what it does on each thing that can happen, and what ends
//! it.
use vstd::prelude::*;
use vstd::string::*;
use crate::bridge::dispatch::{
    dispatch_burst, dispatched, lemma_burst_leaves_other_streams,
    lemma_burst_never_mixes_requests, tags_in_order,
};
use crate::bridge::output::{output_views, refused, text_views, RequestBatchOutputs};
use crate::bridge::start::{
    answers_false, check_frames, child_exit_text, child_exit_verdict, frame_error_text, prepares,
    refusal, start_request, utility_result, ChildExit, EngineCoreRequest, PreparedRequest, StartOutcome,
    UtilityResult,
};
use crate::bridge::streams::{
    abort_requests, marked, marked_all, RequestStreamState, StreamTable, StreamView,
};
use crate::bridge::wire::UtilityCall;
use crate::engine::{RequestAbortReason, RequestTag, TokenEvent, TokenStreamSender};

verus! {

/// A message of the frontend, as far as it could be read.
pub enum BridgeMessage {
    /// A message with this many frames, where it is not the right number.
    Frames(usize),
    Add(EngineCoreRequest),
    Abort(Vec<String>),
    Utility(UtilityCall),
    /// The payload could not be decoded; why.
    Undecodable(String),
    /// The type frame is none of the above; how it reads.
    UnknownType(String),
}

/// What can happen to a bridge.
pub enum BridgeEvent {
    Shutdown,
    /// A child task ended.
    Child { shutting_down: bool, exit: ChildExit },
    /// Token events are ready.
    Burst(Vec<(RequestTag, TokenEvent)>),
    /// A message arrived. A request it starts sends its events on this channel, and is
    /// traced or not.
    Message { message: BridgeMessage, event_tx: TokenStreamSender, tracing: bool },
    /// The input socket failed; why.
    ReceiveFailed(String),
    /// The scheduler took a request.
    Submitted { request_id: String, stream: RequestStreamState },
    /// The scheduler is gone; why.
    SubmitFailed(String),
    /// The output channel refused the answer to a burst, or to a message.
    OutputClosed { to_burst: bool },
}

/// Why a bridge stops.
pub enum BridgeStop {
    Shutdown,
    /// A child task ended before its time.
    Child(String),
    /// Outputs could not be dispatched.
    Dispatch(String),
    /// A request could not be handled.
    Request(String),
    /// No request could be received.
    Receive(String),
}

/// What a bridge does next.
pub enum BridgeAction {
    Idle,
    Send(RequestBatchOutputs),
    Submit(PreparedRequest),
    /// Answers a utility call, under the call's own identifier.
    Answer { call_id: rmpv::Value, result: UtilityResult },
    Stop(BridgeStop),
}

pub open spec fn output_closed_text() -> Seq<char> {
    "local engine output channel closed"@
}

pub open spec fn unknown_type_text(frame: Seq<char>) -> Seq<char> {
    "unsupported local engine request type frame: "@ + frame
}

pub open spec fn submit_failed_text(error: Seq<char>) -> Seq<char> {
    "failed to submit request to scheduler: "@ + error
}

impl BridgeStop {
    /// What the bridge was doing when it failed.
    pub open spec fn context_text(self) -> Seq<char> {
        match self {
            BridgeStop::Shutdown => ""@,
            BridgeStop::Child(message) => message@,
            BridgeStop::Dispatch(_) => "failed to dispatch local engine output"@,
            BridgeStop::Request(_) => "failed to handle local engine request"@,
            BridgeStop::Receive(_) => "failed to receive local engine request"@,
        }
    }

    pub fn context(&self) -> (s: String)
        ensures
            s@ == self.context_text(),
    {
        match self {
            BridgeStop::Shutdown => String::from_str(""),
            BridgeStop::Child(message) => String::from_str(message.as_str()),
            BridgeStop::Dispatch(_) => String::from_str("failed to dispatch local engine output"),
            BridgeStop::Request(_) => String::from_str("failed to handle local engine request"),
            BridgeStop::Receive(_) => String::from_str("failed to receive local engine request"),
        }
    }
}

/// A bridge between one engine and the frontend.
pub struct Bridge {
    engine_index: u32,
    streams: StreamTable,
}

/// The streams after something happened.
pub open spec fn streams_after(
    streams: Map<Seq<char>, StreamView>,
    event: BridgeEvent,
) -> Map<Seq<char>, StreamView> {
    match event {
        BridgeEvent::Burst(burst) => dispatched(streams, burst@).streams,
        BridgeEvent::Message { message: BridgeMessage::Abort(ids), .. } => streams.remove_keys(
            ids@.map_values(|s: String| s@).to_set(),
        ),
        BridgeEvent::Submitted { request_id, stream } => streams.insert(request_id@, stream@),
        _ => streams,
    }
}

/// The message stops the bridge: it stops with this text.
pub open spec fn message_error(message: BridgeMessage) -> Option<Seq<char>> {
    match message {
        BridgeMessage::Frames(frames) => if frames == 2 {
            None
        } else {
            Some(frame_error_text(frames as nat))
        },
        BridgeMessage::Undecodable(error) => Some(error@),
        BridgeMessage::UnknownType(frame) => Some(unknown_type_text(frame@)),
        _ => None,
    }
}

/// What a bridge does on a message, with these streams live and this channel for the
/// events of a new request.
pub open spec fn answers_message(
    engine_index: u32,
    streams: Map<Seq<char>, StreamView>,
    message: BridgeMessage,
    event_tx: TokenStreamSender,
    tracing: bool,
    action: BridgeAction,
) -> bool {
    match message_error(message) {
        Some(text) => action matches BridgeAction::Stop(BridgeStop::Request(cause)) && cause@
            == text,
        None => match message {
            BridgeMessage::Add(request) => match refusal(request) {
                Some(stop_text) => {
                    &&& action matches BridgeAction::Send(outputs)
                    &&& outputs.engine_index == engine_index
                    &&& output_views(outputs.outputs@) == seq![
                        refused(request.request_id@, stop_text),
                    ]
                    &&& outputs.finished_requests matches Some(finished)
                    &&& text_views(finished@) == seq![request.request_id@]
                    &&& outputs.scheduler_stats is None
                },
                None => {
                    &&& action matches BridgeAction::Submit(prepared)
                    &&& prepares(engine_index, request, event_tx, tracing, prepared)
                    &&& prepared.request.trace_parent is Some <==> tracing
                },
            },
            BridgeMessage::Utility(call) => {
                &&& action matches BridgeAction::Answer { call_id, result }
                &&& call_id == call.call_id
                &&& result == (if answers_false(call.method@) {
                    UtilityResult::False
                } else {
                    UtilityResult::Nil
                })
            },
            BridgeMessage::Abort(ids) => action is Idle && marked_all(streams, ids@),
            _ => action is Idle,
        },
    }
}

impl Bridge {
    pub closed spec fn engine_index_spec(self) -> u32 {
        self.engine_index
    }

    pub closed spec fn table(self) -> StreamTable {
        self.streams
    }

    /// The live streams.
    pub open spec fn live(self) -> Map<Seq<char>, StreamView> {
        self.table()@
    }

    pub open spec fn well_formed(self) -> bool {
        self.table().well_formed()
    }

    pub fn new(engine_index: u32) -> (r: Self)
        ensures
            r.well_formed(),
            r.engine_index_spec() == engine_index,
            r.live() == Map::<Seq<char>, StreamView>::empty(),
    {
        Bridge { engine_index, streams: StreamTable::new() }
    }

    pub fn streams(&self) -> (r: &StreamTable)
        ensures
            *r == self.table(),
    {
        &self.streams
    }

    /// What the bridge does when something happens.
    pub fn step(&mut self, event: BridgeEvent) -> (action: BridgeAction)
        requires
            old(self).well_formed(),
        ensures
            final(self).well_formed(),
            final(self).engine_index_spec() == old(self).engine_index_spec(),
            final(self).live() == streams_after(old(self).live(), event),
            match event {
                BridgeEvent::Shutdown => action matches BridgeAction::Stop(BridgeStop::Shutdown),
                BridgeEvent::Child { shutting_down, exit } => if shutting_down {
                    action matches BridgeAction::Stop(BridgeStop::Shutdown)
                } else {
                    action matches BridgeAction::Stop(BridgeStop::Child(message)) && message@
                        == child_exit_text(exit)
                },
                BridgeEvent::Burst(burst) => {
                    let d = dispatched(old(self).live(), burst@);
                    if d.outputs.len() == 0 {
                        action is Idle
                    } else {
                        &&& action matches BridgeAction::Send(outputs)
                        &&& outputs.engine_index == old(self).engine_index_spec()
                        &&& output_views(outputs.outputs@) == d.outputs
                        &&& outputs.scheduler_stats is None
                        &&& match outputs.finished_requests {
                            Some(finished) => d.finished.len() > 0 && text_views(finished@)
                                == d.finished,
                            None => d.finished.len() == 0,
                        }
                    }
                },
                BridgeEvent::Message { message, event_tx, tracing } => answers_message(
                    old(self).engine_index_spec(),
                    old(self).live(),
                    message,
                    event_tx,
                    tracing,
                    action,
                ),
                BridgeEvent::ReceiveFailed(error) => action == BridgeAction::Stop(
                    BridgeStop::Receive(error),
                ),
                BridgeEvent::Submitted { .. } => action is Idle,
                BridgeEvent::SubmitFailed(error) => action matches BridgeAction::Stop(
                    BridgeStop::Request(cause),
                ) && cause@ == submit_failed_text(error@),
                BridgeEvent::OutputClosed { to_burst } => if to_burst {
                    action matches BridgeAction::Stop(BridgeStop::Dispatch(cause)) && cause@
                        == output_closed_text()
                } else {
                    action matches BridgeAction::Stop(BridgeStop::Request(cause)) && cause@
                        == output_closed_text()
                },
            },
    {
        match event {
            BridgeEvent::Shutdown => BridgeAction::Stop(BridgeStop::Shutdown),
            BridgeEvent::Child { shutting_down, exit } => {
                match child_exit_verdict(shutting_down, &exit) {
                    Ok(()) => BridgeAction::Stop(BridgeStop::Shutdown),
                    Err(message) => BridgeAction::Stop(BridgeStop::Child(message)),
                }
            },
            BridgeEvent::Burst(burst) => {
                match dispatch_burst(self.engine_index, burst, &mut self.streams) {
                    Some(outputs) => BridgeAction::Send(outputs),
                    None => BridgeAction::Idle,
                }
            },
            BridgeEvent::Message { message, event_tx, tracing } => {
                self.on_message(message, event_tx, tracing)
            },
            BridgeEvent::ReceiveFailed(error) => BridgeAction::Stop(BridgeStop::Receive(error)),
            BridgeEvent::Submitted { request_id, stream } => {
                self.streams.insert(request_id.as_str(), stream);
                BridgeAction::Idle
            },
            BridgeEvent::SubmitFailed(error) => {
                let mut cause = String::from_str("failed to submit request to scheduler: ");
                cause.append(error.as_str());
                BridgeAction::Stop(BridgeStop::Request(cause))
            },
            BridgeEvent::OutputClosed { to_burst } => {
                let cause = String::from_str("local engine output channel closed");
                if to_burst {
                    BridgeAction::Stop(BridgeStop::Dispatch(cause))
                } else {
                    BridgeAction::Stop(BridgeStop::Request(cause))
                }
            },
        }
    }

    fn on_message(
        &mut self,
        message: BridgeMessage,
        event_tx: TokenStreamSender,
        tracing: bool,
    ) -> (action: BridgeAction)
        requires
            old(self).well_formed(),
        ensures
            final(self).well_formed(),
            final(self).engine_index_spec() == old(self).engine_index_spec(),
            final(self).live() == streams_after(
                old(self).live(),
                BridgeEvent::Message { message, event_tx, tracing },
            ),
            answers_message(
                old(self).engine_index_spec(),
                old(self).live(),
                message,
                event_tx,
                tracing,
                action,
            ),
    {
        match message {
            BridgeMessage::Frames(frames) => match check_frames(frames) {
                Ok(()) => BridgeAction::Idle,
                Err(cause) => BridgeAction::Stop(BridgeStop::Request(cause)),
            },
            BridgeMessage::Add(request) => match start_request(
                self.engine_index,
                request,
                event_tx,
                tracing,
            ) {
                StartOutcome::Submit(prepared) => BridgeAction::Submit(prepared),
                StartOutcome::Refuse(outputs) => BridgeAction::Send(outputs),
            },
            BridgeMessage::Abort(ids) => {
                let _ = abort_requests(&mut self.streams, ids.as_slice());
                BridgeAction::Idle
            },
            BridgeMessage::Utility(call) => {
                let result = utility_result(call.method.as_str());
                BridgeAction::Answer { call_id: call.call_id, result }
            },
            BridgeMessage::Undecodable(error) => BridgeAction::Stop(BridgeStop::Request(error)),
            BridgeMessage::UnknownType(frame) => {
                let mut cause = String::from_str("unsupported local engine request type frame: ");
                cause.append(frame.as_str());
                BridgeAction::Stop(BridgeStop::Request(cause))
            },
        }
    }

    /// Cancels every live stream when the loop is over. Returns how many.
    pub fn finish(self) -> (cancelled: usize)
        requires
            self.well_formed(),
        ensures
            cancelled == self.table().count(),
            forall|id: Seq<char>| #[trigger]
                self.live().contains_key(id) ==> marked(
                    self.live()[id],
                    RequestAbortReason::Cancelled,
                ),
    {
        self.streams.cancel_all()
    }
}

/// What concerns one request: its token events, its abort, or a new request under
/// its name.
pub open spec fn concerns(event: BridgeEvent, id: Seq<char>) -> bool {
    match event {
        BridgeEvent::Burst(burst) => tags_in_order(burst@).contains(id),
        BridgeEvent::Message { message: BridgeMessage::Abort(ids), .. } => ids@.map_values(
            |s: String| s@,
        ).contains(id),
        BridgeEvent::Submitted { request_id, .. } => request_id@ == id,
        _ => false,
    }
}

/// Nothing that happens touches the stream of a request that it does not concern.
pub proof fn lemma_streams_are_independent(
    streams: Map<Seq<char>, StreamView>,
    event: BridgeEvent,
    id: Seq<char>,
)
    requires
        !concerns(event, id),
    ensures
        streams_after(streams, event).contains_key(id) == streams.contains_key(id),
        streams.contains_key(id) ==> streams_after(streams, event)[id] == streams[id],
{
    if let BridgeEvent::Burst(burst) = event {
        lemma_burst_leaves_other_streams(streams, burst@, id);
    }
}

/// A message stops the bridge exactly when it cannot be read: it has not two frames, its
/// payload could not be decoded, or its type is unknown.
pub proof fn lemma_message_verdict(message: BridgeMessage)
    ensures
        message_error(message) is Some <==> (message matches BridgeMessage::Frames(n) && n != 2)
            || message is Undecodable || message is UnknownType,
        message matches BridgeMessage::Undecodable(error) ==> message_error(message) == Some(
            error@,
        ),
{
}

/// Streams come and go with their requests alone: a submission adds the request's own
/// stream, an abort removes exactly the named ones, and a burst those of the requests that
/// it ends. Nothing else changes any.
pub proof fn lemma_streams_follow_their_requests(
    streams: Map<Seq<char>, StreamView>,
    event: BridgeEvent,
    id: Seq<char>,
)
    ensures
        ({
            let after = streams_after(streams, event);
            match event {
                BridgeEvent::Submitted { request_id, stream } => {
                    &&& after.contains_key(request_id@)
                    &&& after[request_id@] == stream@
                    &&& after.contains_key(id) <==> streams.contains_key(id) || id == request_id@
                },
                BridgeEvent::Message { message: BridgeMessage::Abort(ids), .. } =>
                    after.contains_key(id) <==> streams.contains_key(id) && forall|k: int|
                        0 <= k < ids@.len() ==> (#[trigger] ids@[k])@ != id,
                BridgeEvent::Burst(burst) => after.contains_key(id) ==> streams.contains_key(id),
                _ => after == streams,
            }
        }),
{
    match event {
        BridgeEvent::Message { message: BridgeMessage::Abort(ids), .. } => {
            let texts = ids@.map_values(|s: String| s@);
            if texts.contains(id) {
                let k = choose|k: int| 0 <= k < texts.len() && texts[k] == id;
                assert(ids@[k]@ == id);
            }
            if exists|k: int| 0 <= k < ids@.len() && (#[trigger] ids@[k])@ == id {
                let k = choose|k: int| 0 <= k < ids@.len() && (#[trigger] ids@[k])@ == id;
                assert(texts[k] == id);
            }
        },
        BridgeEvent::Burst(burst) => {
            lemma_burst_never_mixes_requests(streams, burst@);
        },
        _ => {},
    }
}

/// A request that a bridge is asked to add is answered at once with an error, or handed to
/// the scheduler; an aborted one is marked; a utility call is answered under its own
/// identifier. A message that cannot be read stops the bridge.
pub proof fn lemma_every_message_is_answered(
    engine_index: u32,
    streams: Map<Seq<char>, StreamView>,
    message: BridgeMessage,
    event_tx: TokenStreamSender,
    tracing: bool,
    action: BridgeAction,
)
    requires
        answers_message(engine_index, streams, message, event_tx, tracing, action),
    ensures
        action is Stop <==> message_error(message) is Some,
        action is Submit <==> (message matches BridgeMessage::Add(request) && refusal(request)
            is None),
        action is Send <==> (message matches BridgeMessage::Add(request) && refusal(request)
            is Some),
        action is Answer <==> message is Utility,
        message matches BridgeMessage::Utility(call) ==> action->call_id == call.call_id,
        message matches BridgeMessage::Abort(ids) ==> marked_all(streams, ids@),
        (message matches BridgeMessage::Add(request) && action matches BridgeAction::Send(outputs))
            ==> action->Send_0.outputs@.len() == 1 && action->Send_0.outputs@[0].request_id@
            == message->Add_0.request_id@,
{
    if let BridgeMessage::Add(request) = message {
        if let BridgeAction::Send(outputs) = action {
            let views = output_views(outputs.outputs@);
            assert(views.len() == 1);
            assert(views[0] == outputs.outputs@[0]@);
        }
    }
}

} // verus!
