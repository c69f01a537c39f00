//! Session records: lifecycle state, pending actions, metrics, and their
//! well-formedness rules.

use vstd::prelude::*;
use vstd::string::StringExecFns;

verus! {

/// Lifecycle state of one agent session.
#[derive(Debug, Clone, Copy, PartialEq, Eq, Structural)]
pub enum SessionState {
    Spawning,
    Processing,
    AwaitingInput,
    AwaitingPermission,
    Complete,
    Error,
}

impl SessionState {
    /// Display name of the state, as it appears in the decision log.
    pub open spec fn spec_name(self) -> Seq<char> {
        match self {
            SessionState::Spawning => "Spawning"@,
            SessionState::Processing => "Processing"@,
            SessionState::AwaitingInput => "AwaitingInput"@,
            SessionState::AwaitingPermission => "AwaitingPermission"@,
            SessionState::Complete => "Complete"@,
            SessionState::Error => "Error"@,
        }
    }

    /// Executable form of [`SessionState::spec_name`].
    pub fn name(&self) -> (r: String)
        ensures
            r@ == self.spec_name(),
    {
        match self {
            SessionState::Spawning => String::from_str("Spawning"),
            SessionState::Processing => String::from_str("Processing"),
            SessionState::AwaitingInput => String::from_str("AwaitingInput"),
            SessionState::AwaitingPermission => String::from_str("AwaitingPermission"),
            SessionState::Complete => String::from_str("Complete"),
            SessionState::Error => String::from_str("Error"),
        }
    }

    /// A pending action may exist only while a session waits on the user.
    pub open spec fn allows_pending_action(self) -> bool {
        self == SessionState::AwaitingInput || self == SessionState::AwaitingPermission
    }
}

/// What a session is currently blocked on.
#[derive(Debug)]
pub struct PendingAction {
    pub action_type: String,
    pub description: String,
    pub tool: Option<String>,
    pub command: Option<String>,
}

/// Mathematical image of a [`PendingAction`].
pub struct PendingActionModel {
    pub action_type: Seq<char>,
    pub description: Seq<char>,
    pub tool: Option<Seq<char>>,
    pub command: Option<Seq<char>>,
}

impl View for PendingAction {
    type V = PendingActionModel;

    open spec fn view(&self) -> PendingActionModel {
        PendingActionModel {
            action_type: self.action_type@,
            description: self.description@,
            tool: match self.tool {
                Some(t) => Some(t@),
                None => None,
            },
            command: match self.command {
                Some(c) => Some(c@),
                None => None,
            },
        }
    }
}

impl Clone for PendingAction {
    fn clone(&self) -> (r: Self)
        ensures
            r@ == self@,
    {
        PendingAction {
            action_type: self.action_type.clone(),
            description: self.description.clone(),
            tool: match &self.tool {
                Some(t) => Some(t.clone()),
                None => None,
            },
            command: match &self.command {
                Some(c) => Some(c.clone()),
                None => None,
            },
        }
    }
}

/// Usage counters attached to a session, when a client reports them.
/// Timestamps are milliseconds since the Unix epoch.
#[derive(Debug, Clone, Copy, PartialEq, Eq, Structural)]
pub struct SessionMetrics {
    pub tokens_used: Option<u64>,
    pub task_count: Option<u32>,
    pub start_time: Option<i64>,
}

/// One tracked agent session. `last_activity` is milliseconds since the
/// Unix epoch.
#[derive(Debug)]
pub struct C3Session {
    pub id: String,
    pub project_name: String,
    pub project_path: Option<String>,
    pub state: SessionState,
    pub tmux_target: Option<String>,
    pub last_activity: i64,
    pub pending_action: Option<PendingAction>,
    pub metrics: Option<SessionMetrics>,
}

/// Mathematical image of a [`C3Session`].
pub struct SessionModel {
    pub id: Seq<char>,
    pub project_name: Seq<char>,
    pub project_path: Option<Seq<char>>,
    pub state: SessionState,
    pub tmux_target: Option<Seq<char>>,
    pub last_activity: int,
    pub pending_action: Option<PendingActionModel>,
    pub metrics: Option<SessionMetrics>,
}

impl View for C3Session {
    type V = SessionModel;

    open spec fn view(&self) -> SessionModel {
        SessionModel {
            id: self.id@,
            project_name: self.project_name@,
            project_path: match self.project_path {
                Some(p) => Some(p@),
                None => None,
            },
            state: self.state,
            tmux_target: match self.tmux_target {
                Some(t) => Some(t@),
                None => None,
            },
            last_activity: self.last_activity as int,
            pending_action: match self.pending_action {
                Some(a) => Some(a@),
                None => None,
            },
            metrics: self.metrics,
        }
    }
}

impl Clone for C3Session {
    fn clone(&self) -> (r: Self)
        ensures
            r@ == self@,
    {
        C3Session {
            id: self.id.clone(),
            project_name: self.project_name.clone(),
            project_path: match &self.project_path {
                Some(p) => Some(p.clone()),
                None => None,
            },
            state: self.state,
            tmux_target: match &self.tmux_target {
                Some(t) => Some(t.clone()),
                None => None,
            },
            last_activity: self.last_activity,
            pending_action: match &self.pending_action {
                Some(a) => Some(a.clone()),
                None => None,
            },
            metrics: self.metrics,
        }
    }
}

/// A session record is well formed when a pending action is present only
/// while its state waits on the user.
pub open spec fn session_wf(s: SessionModel) -> bool {
    s.pending_action is Some ==> s.state.allows_pending_action()
}

} // verus!
