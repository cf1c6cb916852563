use vstd::prelude::*;

verus! {

/// Where an analysis stream stands.
#[derive(Debug, PartialEq, Eq, Structural, Clone, Copy)]
pub enum StreamState {
    Running,
    /// Nothing more will be done; a new executor is needed to resume.
    Terminal,
}

/// What the executor's loop observed.
#[derive(Debug, PartialEq, Eq, Structural, Clone, Copy)]
pub enum StreamEvent {
    /// A frame arrived from the input.
    FrameRead,
    /// Reading the input failed: the device closed or the source ran dry.
    InputClosed,
    /// The consumer of results has gone away.
    ConsumerClosed,
}

/// What the executor's loop does next.
#[derive(Debug, PartialEq, Eq, Structural, Clone, Copy)]
pub enum StreamAction {
    /// Buffer the frame, analyse every completed period, send the results.
    Process,
    /// Tell the consumer that the stream has closed, then stop.
    AnnounceClosed,
    /// Stop without a word: nobody listens.
    Stop,
}

/// The executor's decision for `event` in state `state`: the next state
/// and the action to take.
pub fn on_event(state: StreamState, event: StreamEvent) -> (r: (StreamState, StreamAction))
    ensures
        state == StreamState::Running && event == StreamEvent::FrameRead
            ==> r == (StreamState::Running, StreamAction::Process),
        state == StreamState::Running && event == StreamEvent::InputClosed
            ==> r == (StreamState::Terminal, StreamAction::AnnounceClosed),
        state == StreamState::Running && event == StreamEvent::ConsumerClosed
            ==> r == (StreamState::Terminal, StreamAction::Stop),
        state == StreamState::Terminal ==> r == (StreamState::Terminal, StreamAction::Stop),
{
    match state {
        StreamState::Running => match event {
            StreamEvent::FrameRead => (StreamState::Running, StreamAction::Process),
            StreamEvent::InputClosed => (StreamState::Terminal, StreamAction::AnnounceClosed),
            StreamEvent::ConsumerClosed => (StreamState::Terminal, StreamAction::Stop),
        },
        StreamState::Terminal => (StreamState::Terminal, StreamAction::Stop),
    }
}

} // verus!
