use vstd::prelude::*;

verus! {

/// The phases of a logout, in the order a successful one passes through them.
#[derive(Debug)]
pub enum LogoutState {
    Idle,
    PreChecking,
    StoppingSyncService,
    LoggingOutFromServer,
    PointOfNoReturn,
    CleaningAppState,
    ShuttingDownTasks,
    RestartingRuntime,
    Completed,
    Failed(String),
}

/// Tracks which phase a logout is in, with the message and progress of the last step.
pub struct LogoutStateMachine {
    state: LogoutState,
    message: String,
    progress: u8,
}

impl LogoutStateMachine {
    pub closed spec fn state_view(&self) -> LogoutState {
        self.state
    }

    pub closed spec fn message_view(&self) -> Seq<char> {
        self.message@
    }

    pub closed spec fn progress_view(&self) -> u8 {
        self.progress
    }

    pub fn new() -> (r: LogoutStateMachine)
        ensures
            r.state_view() is Idle,
            r.message_view() == Seq::<char>::empty(),
            r.progress_view() == 0,
    {
        LogoutStateMachine { state: LogoutState::Idle, message: String::new(), progress: 0 }
    }

    /// Enters `new_state`, recording the step's message and its progress in percent.
    pub fn transition_to(&mut self, new_state: LogoutState, message: &str, progress: u8)
        ensures
            final(self).state_view() == new_state,
            final(self).message_view() == message@,
            final(self).progress_view() == progress,
    {
        self.state = new_state;
        self.message = message.to_owned();
        self.progress = progress;
    }

    pub fn state(&self) -> (r: &LogoutState)
        ensures
            *r == self.state_view(),
    {
        &self.state
    }

    pub fn message(&self) -> (r: &str)
        ensures
            r@ == self.message_view(),
    {
        self.message.as_str()
    }

    pub fn progress(&self) -> (r: u8)
        ensures
            r == self.progress_view(),
    {
        self.progress
    }
}

} // verus!
