//! Client control messages and server messages: sessions register
//! themselves, report state changes, heartbeat and disconnect; the server
//! addresses action requests to a session or pings for liveness.

use vstd::prelude::*;

use crate::registry::spec_idx_of;
use crate::registry::Registry;
use crate::state::C3Session;
use crate::state::PendingAction;
use crate::state::PendingActionModel;
use crate::state::SessionModel;
use crate::state::SessionState;
use crate::state::session_wf;

verus! {

/// One inbound control message from a client, keyed by session id.
#[derive(Debug)]
pub enum ClientMessage {
    Register { session: C3Session },
    StateChange {
        session_id: String,
        state: SessionState,
        pending_action: Option<PendingAction>,
    },
    Heartbeat { session_id: String },
    Disconnect { session_id: String },
}

/// Mathematical image of a [`ClientMessage`].
pub enum ClientMessageModel {
    Register { session: SessionModel },
    StateChange {
        session_id: Seq<char>,
        state: SessionState,
        pending_action: Option<PendingActionModel>,
    },
    Heartbeat { session_id: Seq<char> },
    Disconnect { session_id: Seq<char> },
}

impl View for ClientMessage {
    type V = ClientMessageModel;

    open spec fn view(&self) -> ClientMessageModel {
        match self {
            ClientMessage::Register { session } => ClientMessageModel::Register {
                session: session@,
            },
            ClientMessage::StateChange { session_id, state, pending_action } => {
                ClientMessageModel::StateChange {
                    session_id: session_id@,
                    state: *state,
                    pending_action: match pending_action {
                        Some(p) => Some(p@),
                        None => None,
                    },
                }
            },
            ClientMessage::Heartbeat { session_id } => ClientMessageModel::Heartbeat {
                session_id: session_id@,
            },
            ClientMessage::Disconnect { session_id } => ClientMessageModel::Disconnect {
                session_id: session_id@,
            },
        }
    }
}

/// One outbound message to clients.
#[derive(Debug)]
pub enum ServerMessage {
    Action { session_id: String, action: String },
    Ping,
}

/// A pending action survives only under a state that waits on the user.
pub open spec fn spec_sanitize_pending(
    state: SessionState,
    p: Option<PendingActionModel>,
) -> Option<PendingActionModel> {
    if state.allows_pending_action() {
        p
    } else {
        None
    }
}

fn sanitize_pending(state: SessionState, p: Option<PendingAction>) -> (r: Option<PendingAction>)
    ensures
        (match r {
            Some(q) => Some(q@),
            None => None,
        }) == spec_sanitize_pending(
            state,
            match p {
                Some(q) => Some(q@),
                None => None,
            },
        ),
{
    match state {
        SessionState::AwaitingInput => p,
        SessionState::AwaitingPermission => p,
        _ => None,
    }
}

/// The record a register message writes: the reported record, with a
/// pending action kept only under a waiting state.
pub open spec fn spec_registered_session(s: SessionModel) -> SessionModel {
    SessionModel { pending_action: spec_sanitize_pending(s.state, s.pending_action), ..s }
}

/// The record a state-change message leaves for the session it addresses.
pub open spec fn spec_state_changed_session(
    s: SessionModel,
    state: SessionState,
    pending: Option<PendingActionModel>,
    now_ms: i64,
) -> SessionModel {
    SessionModel {
        state,
        pending_action: spec_sanitize_pending(state, pending),
        last_activity: now_ms as int,
        ..s
    }
}

impl Registry {
    /// Apply one client control message: register writes the record (and is
    /// the one answered with a change event), a state change rewrites state
    /// and pending action, a heartbeat refreshes activity, a disconnect
    /// removes the session. A message addressing an unknown session id is
    /// ignored.
    pub fn apply_client_message(&mut self, msg: ClientMessage, now_ms: i64) -> (out: Option<
        C3Session,
    >)
        requires
            old(self).wf(),
            now_ms >= 0,
        ensures
            final(self).wf(),
            final(self).hook_marks@ == old(self).hook_marks@,
            final(self).stop_marks@ == old(self).stop_marks@,
            final(self).notify_marks@ == old(self).notify_marks@,
            final(self).log_models() == old(self).log_models(),
            match msg@ {
                ClientMessageModel::Register { session } => {
                    let ns = spec_registered_session(session);
                    &&& (match spec_idx_of(old(self).smodels(), ns.id) {
                        Some(k) => final(self).smodels() == old(self).smodels().update(k, ns),
                        None => final(self).smodels() == old(self).smodels().push(ns),
                    })
                    &&& out is Some
                    &&& out.unwrap()@ == ns
                },
                ClientMessageModel::StateChange { session_id, state, pending_action } => {
                    &&& (match spec_idx_of(old(self).smodels(), session_id) {
                        Some(k) => {
                            let ns = spec_state_changed_session(
                                old(self).smodels()[k],
                                state,
                                pending_action,
                                now_ms,
                            );
                            final(self).smodels() == old(self).smodels().update(k, ns) && out
                                is Some && out.unwrap()@ == ns
                        },
                        None => final(self).smodels() == old(self).smodels() && out is None,
                    })
                },
                ClientMessageModel::Heartbeat { session_id } => {
                    &&& (match spec_idx_of(old(self).smodels(), session_id) {
                        Some(k) => final(self).smodels() == old(self).smodels().update(
                            k,
                            SessionModel { last_activity: now_ms as int, ..old(self).smodels()[k] },
                        ),
                        None => final(self).smodels() == old(self).smodels(),
                    })
                    &&& out is None
                },
                ClientMessageModel::Disconnect { session_id } => {
                    &&& (match spec_idx_of(old(self).smodels(), session_id) {
                        Some(k) => final(self).smodels() == old(self).smodels().remove(k),
                        None => final(self).smodels() == old(self).smodels(),
                    })
                    &&& out is None
                },
            },
    {
        match msg {
            ClientMessage::Register { session } => {
                let sanitized = C3Session {
                    pending_action: sanitize_pending(session.state, session.pending_action),
                    ..session
                };
                proof {
                    assert(session_wf(sanitized@));
                }
                let copy = sanitized.clone();
                self.upsert(sanitized);
                Some(copy)
            },
            ClientMessage::StateChange { session_id, state, pending_action } => {
                match self.find_session(session_id.as_str()) {
                    Some(k) => {
                        let prev = &self.sessions[k];
                        let ns = C3Session {
                            id: prev.id.clone(),
                            project_name: prev.project_name.clone(),
                            project_path: match &prev.project_path {
                                Some(p) => Some(p.clone()),
                                None => None,
                            },
                            state,
                            tmux_target: match &prev.tmux_target {
                                Some(t) => Some(t.clone()),
                                None => None,
                            },
                            last_activity: now_ms,
                            pending_action: sanitize_pending(state, pending_action),
                            metrics: prev.metrics,
                        };
                        proof {
                            assert(old(self).smodels()[k as int] == self.sessions@[k as int]@);
                            assert(session_wf(ns@));
                        }
                        let copy = ns.clone();
                        self.upsert(ns);
                        Some(copy)
                    },
                    None => None,
                }
            },
            ClientMessage::Heartbeat { session_id } => {
                match self.find_session(session_id.as_str()) {
                    Some(k) => {
                        let prev = &self.sessions[k];
                        let ns = C3Session {
                            id: prev.id.clone(),
                            project_name: prev.project_name.clone(),
                            project_path: match &prev.project_path {
                                Some(p) => Some(p.clone()),
                                None => None,
                            },
                            state: prev.state,
                            tmux_target: match &prev.tmux_target {
                                Some(t) => Some(t.clone()),
                                None => None,
                            },
                            last_activity: now_ms,
                            pending_action: match &prev.pending_action {
                                Some(p) => Some(p.clone()),
                                None => None,
                            },
                            metrics: prev.metrics,
                        };
                        proof {
                            assert(old(self).smodels()[k as int] == self.sessions@[k as int]@);
                            assert(session_wf(ns@));
                        }
                        self.upsert(ns);
                        None
                    },
                    None => None,
                }
            },
            ClientMessage::Disconnect { session_id } => {
                self.remove(session_id.as_str());
                None
            },
        }
    }
}

} // verus!
