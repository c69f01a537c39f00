//! The hook-event decision pipeline: mapping a pushed lifecycle event to a
//! target state, suppression rules, session matching by working directory,
//! and the notification request that may follow a write.

use vstd::prelude::*;
use vstd::string::StrSliceExecFns;
use vstd::string::StringExecFns;

use crate::registry::spec_mark_of;
use crate::registry::HookEventModel;
use crate::registry::TimeMark;
use crate::state::C3Session;
use crate::state::PendingAction;
use crate::state::PendingActionModel;
use crate::state::SessionModel;
use crate::state::SessionState;
use crate::strutil::spec_is_prefix;
use crate::strutil::spec_truncate_command;
use crate::strutil::starts_with;
use crate::strutil::str_eq;
use crate::strutil::truncate_command;
use crate::settings::view_opt;
use crate::spec_within_window;
use crate::HOOK_GRACE_PERIOD_MS;

verus! {

/// Which per-category sound a notification uses.
#[derive(Debug, Clone, Copy, PartialEq, Eq, Structural)]
pub enum SoundCategory {
    Permission,
    Input,
    Complete,
    NoCategory,
}

/// Multiplexer context shipped with a hook event.
#[derive(Debug)]
pub struct TmuxContext {
    pub session: String,
    pub window: String,
    pub pane: String,
    pub window_name: String,
}

/// Mathematical image of a [`TmuxContext`].
pub struct TmuxContextModel {
    pub session: Seq<char>,
    pub window: Seq<char>,
    pub pane: Seq<char>,
    pub window_name: Seq<char>,
}

impl View for TmuxContext {
    type V = TmuxContextModel;

    open spec fn view(&self) -> TmuxContextModel {
        TmuxContextModel {
            session: self.session@,
            window: self.window@,
            pane: self.pane@,
            window_name: self.window_name@,
        }
    }
}

impl Clone for TmuxContext {
    fn clone(&self) -> (r: Self)
        ensures
            r@ == self@,
    {
        TmuxContext {
            session: self.session.clone(),
            window: self.window.clone(),
            pane: self.pane.clone(),
            window_name: self.window_name.clone(),
        }
    }
}

/// One inbound lifecycle event, already reduced to plain values.
/// `tool_command` is the `command` field of the tool input, when present.
#[derive(Debug)]
pub struct HookInput {
    pub hook_type: String,
    pub cwd: String,
    pub session_id: Option<String>,
    pub tool_name: Option<String>,
    pub tool_command: Option<String>,
    pub skip_permissions: bool,
    pub tmux: Option<TmuxContext>,
}

/// Mathematical image of a [`HookInput`].
pub struct HookInputModel {
    pub hook_type: Seq<char>,
    pub cwd: Seq<char>,
    pub session_id: Option<Seq<char>>,
    pub tool_name: Option<Seq<char>>,
    pub tool_command: Option<Seq<char>>,
    pub skip_permissions: bool,
    pub tmux: Option<TmuxContextModel>,
}

impl View for HookInput {
    type V = HookInputModel;

    open spec fn view(&self) -> HookInputModel {
        HookInputModel {
            hook_type: self.hook_type@,
            cwd: self.cwd@,
            session_id: match self.session_id {
                Some(s) => Some(s@),
                None => None,
            },
            tool_name: match self.tool_name {
                Some(s) => Some(s@),
                None => None,
            },
            tool_command: match self.tool_command {
                Some(s) => Some(s@),
                None => None,
            },
            skip_permissions: self.skip_permissions,
            tmux: match self.tmux {
                Some(t) => Some(t@),
                None => None,
            },
        }
    }
}

/// What one hook type means: the state it drives the session to, the
/// notification it asks for (empty message: none), and the sound category.
#[derive(Debug)]
pub struct HookRule {
    pub target: SessionState,
    pub message: String,
    pub subtitle: String,
    pub category: SoundCategory,
}

/// Mathematical image of a [`HookRule`].
pub struct HookRuleModel {
    pub target: SessionState,
    pub message: Seq<char>,
    pub subtitle: Seq<char>,
    pub category: SoundCategory,
}

impl View for HookRule {
    type V = HookRuleModel;

    open spec fn view(&self) -> HookRuleModel {
        HookRuleModel {
            target: self.target,
            message: self.message@,
            subtitle: self.subtitle@,
            category: self.category,
        }
    }
}

/// The state each hook type drives a session to. An unrecognized type has
/// none.
pub open spec fn spec_hook_target(t: Seq<char>) -> Option<SessionState> {
    if t == "PermissionRequest"@ {
        Some(SessionState::AwaitingPermission)
    } else if t == "Notification"@ {
        Some(SessionState::AwaitingInput)
    } else if t == "Stop"@ {
        Some(SessionState::Complete)
    } else if t == "SessionStart"@ {
        Some(SessionState::Processing)
    } else if t == "PostToolUse"@ {
        Some(SessionState::Processing)
    } else {
        None
    }
}

/// The fixed hook-type table; `tool_name` is the tracked tool's display
/// name, spliced into the notification texts. An unrecognized type has no
/// rule.
pub open spec fn spec_hook_rule(t: Seq<char>, tool_name: Seq<char>) -> Option<HookRuleModel> {
    if t == "PermissionRequest"@ {
        Some(
            HookRuleModel {
                target: SessionState::AwaitingPermission,
                message: tool_name + " needs permission to continue"@,
                subtitle: "Permission Required"@,
                category: SoundCategory::Permission,
            },
        )
    } else if t == "Notification"@ {
        Some(
            HookRuleModel {
                target: SessionState::AwaitingInput,
                message: tool_name + " is waiting for your response"@,
                subtitle: "Input Needed"@,
                category: SoundCategory::Input,
            },
        )
    } else if t == "Stop"@ {
        Some(
            HookRuleModel {
                target: SessionState::Complete,
                message: tool_name + " has finished processing"@,
                subtitle: "Task Complete"@,
                category: SoundCategory::Complete,
            },
        )
    } else if t == "SessionStart"@ {
        Some(
            HookRuleModel {
                target: SessionState::Processing,
                message: "Session started"@,
                subtitle: "Welcome Back"@,
                category: SoundCategory::NoCategory,
            },
        )
    } else if t == "PostToolUse"@ {
        Some(
            HookRuleModel {
                target: SessionState::Processing,
                message: ""@,
                subtitle: ""@,
                category: SoundCategory::NoCategory,
            },
        )
    } else {
        None
    }
}

/// Executable form of [`spec_hook_rule`].
pub fn hook_rule(t: &str, tool_name: &str) -> (r: Option<HookRule>)
    ensures
        match r {
            Some(rule) => spec_hook_rule(t@, tool_name@) == Some(rule@) && spec_hook_target(t@)
                == Some(rule@.target),
            None => spec_hook_rule(t@, tool_name@) is None && spec_hook_target(t@) is None,
        },
{
    if str_eq(t, "PermissionRequest") {
        let mut message = String::from_str(tool_name);
        message.append(" needs permission to continue");
        Some(
            HookRule {
                target: SessionState::AwaitingPermission,
                message,
                subtitle: String::from_str("Permission Required"),
                category: SoundCategory::Permission,
            },
        )
    } else if str_eq(t, "Notification") {
        let mut message = String::from_str(tool_name);
        message.append(" is waiting for your response");
        Some(
            HookRule {
                target: SessionState::AwaitingInput,
                message,
                subtitle: String::from_str("Input Needed"),
                category: SoundCategory::Input,
            },
        )
    } else if str_eq(t, "Stop") {
        let mut message = String::from_str(tool_name);
        message.append(" has finished processing");
        Some(
            HookRule {
                target: SessionState::Complete,
                message,
                subtitle: String::from_str("Task Complete"),
                category: SoundCategory::Complete,
            },
        )
    } else if str_eq(t, "SessionStart") {
        Some(
            HookRule {
                target: SessionState::Processing,
                message: String::from_str("Session started"),
                subtitle: String::from_str("Welcome Back"),
                category: SoundCategory::NoCategory,
            },
        )
    } else if str_eq(t, "PostToolUse") {
        Some(
            HookRule {
                target: SessionState::Processing,
                message: String::from_str(""),
                subtitle: String::from_str(""),
                category: SoundCategory::NoCategory,
            },
        )
    } else {
        None
    }
}

/// A session path matches a hook working directory when either is a prefix
/// of the other (equality included).
pub open spec fn spec_path_matches(path: Option<Seq<char>>, cwd: Seq<char>) -> bool {
    match path {
        Some(p) => spec_is_prefix(p, cwd) || spec_is_prefix(cwd, p),
        None => false,
    }
}

/// How good a prefix match is: the length of the common prefix, or -1 for no
/// match. An exact match scores highest for its path.
pub open spec fn spec_match_quality(s: SessionModel, cwd: Seq<char>) -> int {
    match s.project_path {
        Some(p) => if spec_is_prefix(p, cwd) || spec_is_prefix(cwd, p) {
            if p.len() <= cwd.len() {
                p.len() as int
            } else {
                cwd.len() as int
            }
        } else {
            -1
        },
        None => -1,
    }
}

/// First session whose path equals the working directory exactly.
pub open spec fn spec_exact_idx(ss: Seq<SessionModel>, cwd: Seq<char>) -> Option<int>
    decreases ss.len(),
{
    if ss.len() == 0 {
        None
    } else if ss[0].project_path == Some(cwd) {
        Some(0int)
    } else {
        match spec_exact_idx(ss.skip(1), cwd) {
            Some(k) => Some(k + 1),
            None => None,
        }
    }
}

/// Best prefix match from position `i` on, given the best index so far:
/// higher quality wins, earlier registration breaks ties.
pub open spec fn spec_best_from(
    ss: Seq<SessionModel>,
    cwd: Seq<char>,
    i: int,
    best: Option<int>,
) -> Option<int>
    decreases ss.len() - i,
{
    if i < 0 || i >= ss.len() {
        best
    } else {
        let better = match best {
            None => spec_match_quality(ss[i], cwd) >= 0,
            Some(b) => spec_match_quality(ss[i], cwd) > spec_match_quality(ss[b], cwd),
        };
        spec_best_from(
            ss,
            cwd,
            i + 1,
            if better {
                Some(i)
            } else {
                best
            },
        )
    }
}

/// The session a hook working directory selects: the first exact path match
/// if any, else the prefix match with the longest common prefix (first one
/// on a tie), else none.
pub open spec fn spec_match_session(ss: Seq<SessionModel>, cwd: Seq<char>) -> Option<int> {
    match spec_exact_idx(ss, cwd) {
        Some(k) => Some(k),
        None => spec_best_from(ss, cwd, 0, None),
    }
}

proof fn lemma_exact_idx_at(ss: Seq<SessionModel>, cwd: Seq<char>, i: int)
    requires
        0 <= i <= ss.len(),
        forall|k: int| 0 <= k < i ==> ss[k].project_path != Some(cwd),
        i < ss.len() ==> ss[i].project_path == Some(cwd),
    ensures
        i < ss.len() ==> spec_exact_idx(ss, cwd) == Some(i),
        i == ss.len() ==> spec_exact_idx(ss, cwd) is None,
    decreases i,
{
    if i > 0 {
        lemma_exact_idx_at(ss.skip(1), cwd, i - 1);
        assert(forall|k: int| 0 <= k < ss.skip(1).len() ==> ss.skip(1)[k] == ss[k + 1]);
    }
}

/// What the exact index means when it exists.
pub proof fn lemma_exact_idx_props(ss: Seq<SessionModel>, cwd: Seq<char>)
    ensures
        match spec_exact_idx(ss, cwd) {
            Some(k) => 0 <= k < ss.len() && ss[k].project_path == Some(cwd),
            None => forall|i: int| 0 <= i < ss.len() ==> ss[i].project_path != Some(cwd),
        },
    decreases ss.len(),
{
    if ss.len() > 0 {
        lemma_exact_idx_props(ss.skip(1), cwd);
        assert(forall|i: int| 0 <= i < ss.skip(1).len() ==> ss.skip(1)[i] == ss[i + 1]);
        if ss[0].project_path == Some(cwd) {
        } else {
            match spec_exact_idx(ss.skip(1), cwd) {
                Some(k) => {},
                None => {
                    assert forall|i: int| 0 <= i < ss.len() implies ss[i].project_path != Some(
                        cwd,
                    ) by {
                        if i > 0 {
                            assert(ss.skip(1)[i - 1] == ss[i]);
                            assert(ss.skip(1)[i - 1].project_path != Some(cwd));
                        }
                    }
                },
            }
        }
    }
}

/// What the best prefix index means: it points at a matching session of
/// maximal quality; `None` means nothing from `i` on matches and no earlier
/// best was given.
pub proof fn lemma_best_from_props(ss: Seq<SessionModel>, cwd: Seq<char>, i: int, best: Option<int>)
    requires
        0 <= i,
        match best {
            Some(b) => 0 <= b < ss.len() && spec_match_quality(ss[b], cwd) >= 0,
            None => true,
        },
    ensures
        match spec_best_from(ss, cwd, i, best) {
            Some(k) => 0 <= k < ss.len() && spec_match_quality(ss[k], cwd) >= 0,
            None => best is None && forall|j: int|
                i <= j < ss.len() ==> spec_match_quality(#[trigger] ss[j], cwd) < 0,
        },
    decreases ss.len() - i,
{
    if i < ss.len() {
        let better = match best {
            None => spec_match_quality(ss[i], cwd) >= 0,
            Some(b) => spec_match_quality(ss[i], cwd) > spec_match_quality(ss[b], cwd),
        };
        if better {
            lemma_best_from_props(ss, cwd, i + 1, Some(i));
        } else {
            lemma_best_from_props(ss, cwd, i + 1, best);
        }
    }
}

/// Law: a working directory that shares a prefix with a registered session's
/// path — in either direction — always selects a session, and the selected
/// session's path matches the directory.
pub proof fn lemma_prefix_match(ss: Seq<SessionModel>, cwd: Seq<char>)
    requires
        exists|j: int|
            0 <= j < ss.len() && spec_path_matches(#[trigger] ss[j].project_path, cwd),
    ensures
        match spec_match_session(ss, cwd) {
            Some(k) => 0 <= k < ss.len() && spec_path_matches(ss[k].project_path, cwd),
            None => false,
        },
{
    lemma_exact_idx_props(ss, cwd);
    match spec_exact_idx(ss, cwd) {
        Some(k) => {
            assert(cwd.subrange(0, cwd.len() as int) =~= cwd);
            assert(spec_is_prefix(cwd, cwd));
            assert(ss[k].project_path == Some(cwd));
        },
        None => {
            lemma_best_from_props(ss, cwd, 0, None);
            let j = choose|j: int|
                0 <= j < ss.len() && spec_path_matches(#[trigger] ss[j].project_path, cwd);
            match spec_best_from(ss, cwd, 0, None) {
                Some(k) => {
                    assert(spec_match_quality(ss[k], cwd) >= 0);
                },
                None => {
                    assert(spec_match_quality(ss[j], cwd) >= 0);
                },
            }
        },
    }
}

/// Executable session matching over the registry's session row.
pub fn match_session(sessions: &Vec<C3Session>, cwd: &str) -> (r: Option<usize>)
    ensures
        match r {
            Some(k) => k < sessions@.len() && spec_match_session(
                crate::registry::smodels_of(sessions@),
                cwd@,
            ) == Some(k as int),
            None => spec_match_session(crate::registry::smodels_of(sessions@), cwd@) is None,
        },
{
    let ghost ss = crate::registry::smodels_of(sessions@);
    // exact match first
    let mut i: usize = 0;
    while i < sessions.len()
        invariant
            i <= sessions@.len(),
            ss == crate::registry::smodels_of(sessions@),
            forall|k: int| 0 <= k < i ==> ss[k].project_path != Some(cwd@),
        decreases sessions@.len() - i,
    {
        let is_exact = match &sessions[i].project_path {
            Some(p) => str_eq(p.as_str(), cwd),
            None => false,
        };
        if is_exact {
            proof {
                lemma_exact_idx_at(ss, cwd@, i as int);
            }
            return Some(i);
        }
        i = i + 1;
    }
    proof {
        lemma_exact_idx_at(ss, cwd@, i as int);
    }
    // prefix match: longest common prefix wins, first session breaks ties
    let cn = cwd.unicode_len();
    let mut best: Option<usize> = None;
    let mut best_q: usize = 0;
    let mut j: usize = 0;
    while j < sessions.len()
        invariant
            j <= sessions@.len(),
            cn == cwd@.len(),
            ss == crate::registry::smodels_of(sessions@),
            match best {
                Some(b) => b < j && best_q == spec_match_quality(ss[b as int], cwd@),
                None => true,
            },
            spec_best_from(ss, cwd@, 0, None) == spec_best_from(
                ss,
                cwd@,
                j as int,
                match best {
                    Some(b) => Some(b as int),
                    None => None,
                },
            ),
        decreases sessions@.len() - j,
    {
        let q: Option<usize> = match &sessions[j].project_path {
            Some(p) => {
                if starts_with(cwd, p.as_str()) || starts_with(p.as_str(), cwd) {
                    let pn = p.unicode_len();
                    Some(
                        if pn <= cn {
                            pn
                        } else {
                            cn
                        },
                    )
                } else {
                    None
                }
            },
            None => None,
        };
        proof {
            match q {
                Some(v) => {
                    assert(spec_match_quality(ss[j as int], cwd@) == v as int);
                },
                None => {
                    assert(spec_match_quality(ss[j as int], cwd@) == -1);
                },
            }
        }
        let better: bool = match (&q, &best) {
            (Some(v), Some(_)) => *v > best_q,
            (Some(_), None) => true,
            (None, _) => false,
        };
        if better {
            best = Some(j);
            best_q = match q {
                Some(v) => v,
                None => 0,
            };
        }
        j = j + 1;
    }
    match best {
        Some(b) => Some(b),
        None => None,
    }
}

/// The generic pending action for a session waiting on free-text input.
pub open spec fn spec_pending_input() -> PendingActionModel {
    PendingActionModel {
        action_type: "input"@,
        description: "Waiting for user input"@,
        tool: None,
        command: None,
    }
}

/// Executable form of [`spec_pending_input`].
pub fn make_input_pending() -> (r: PendingAction)
    ensures
        r@ == spec_pending_input(),
{
    PendingAction {
        action_type: String::from_str("input"),
        description: String::from_str("Waiting for user input"),
        tool: None,
        command: None,
    }
}

/// The pending action recorded for a permission request: the tool's name
/// and its command text, capped at 100 characters.
pub open spec fn spec_pending_permission(
    tool: Option<Seq<char>>,
    command: Option<Seq<char>>,
) -> PendingActionModel {
    PendingActionModel {
        action_type: "permission"@,
        description: "Wants to use "@ + (match tool {
            Some(t) => t,
            None => "a tool"@,
        }),
        tool: tool,
        command: match command {
            Some(c) => Some(spec_truncate_command(c)),
            None => None,
        },
    }
}

/// Executable form of [`spec_pending_permission`].
pub fn make_permission_pending(tool: &Option<String>, command: &Option<String>) -> (r:
    PendingAction)
    ensures
        r@ == spec_pending_permission(view_opt(tool), view_opt(command)),
{
    let mut description = String::from_str("Wants to use ");
    match tool {
        Some(t) => description.append(t.as_str()),
        None => description.append("a tool"),
    }
    PendingAction {
        action_type: String::from_str("permission"),
        description,
        tool: match tool {
            Some(t) => Some(t.clone()),
            None => None,
        },
        command: match command {
            Some(c) => Some(truncate_command(c.as_str())),
            None => None,
        },
    }
}

/// The permission-check-disabled skip: a permission request pushed while
/// permission checks are off is dropped.
pub open spec fn spec_skip_perms(ev: HookInputModel) -> bool {
    ev.skip_permissions && ev.hook_type == "PermissionRequest"@
}

/// The stop-suppression skip: a Notification whose matched session saw a
/// Stop inside the grace window is dropped — both fire on completion and
/// the second is redundant.
pub open spec fn spec_stop_suppressed(
    ss: Seq<SessionModel>,
    stops: Seq<TimeMark>,
    ev: HookInputModel,
    now: int,
) -> bool {
    ev.hook_type == "Notification"@ && match spec_match_session(ss, ev.cwd) {
        Some(k) => match spec_mark_of(stops, ss[k].id) {
            Some(m) => spec_within_window(m, now, HOOK_GRACE_PERIOD_MS as int),
            None => false,
        },
        None => false,
    }
}

/// A late Notification must not undo completion.
pub open spec fn spec_already_complete(ss: Seq<SessionModel>, k: int, target: SessionState) -> bool {
    ss[k].state == SessionState::Complete && target == SessionState::AwaitingInput
}

/// The record a hook write leaves behind: target state, refreshed activity,
/// pending action only for a permission request.
pub open spec fn spec_written_session(
    s: SessionModel,
    target: SessionState,
    ev: HookInputModel,
    now: int,
) -> SessionModel {
    SessionModel {
        state: target,
        last_activity: now,
        pending_action: if target == SessionState::AwaitingPermission {
            Some(spec_pending_permission(ev.tool_name, ev.tool_command))
        } else {
            None
        },
        ..s
    }
}

/// The session index a hook delivery writes, if it writes at all: no skip
/// rule applies, the type is known, and a session matched.
pub open spec fn spec_hook_writes(
    ss: Seq<SessionModel>,
    stops: Seq<TimeMark>,
    ev: HookInputModel,
    now: int,
) -> Option<int> {
    if spec_skip_perms(ev) || spec_stop_suppressed(ss, stops, ev, now) {
        None
    } else {
        match spec_hook_target(ev.hook_type) {
            None => None,
            Some(target) => match spec_match_session(ss, ev.cwd) {
                Some(k) => if spec_already_complete(ss, k, target) {
                    None
                } else {
                    Some(k)
                },
                None => None,
            },
        }
    }
}

/// What the session row looks like after one hook delivery.
pub open spec fn spec_hook_state_effect(
    ss: Seq<SessionModel>,
    stops: Seq<TimeMark>,
    ev: HookInputModel,
    now: int,
) -> Seq<SessionModel> {
    match spec_hook_writes(ss, stops, ev, now) {
        Some(k) => ss.update(
            k,
            spec_written_session(ss[k], spec_hook_target(ev.hook_type).unwrap(), ev, now),
        ),
        None => ss,
    }
}

/// The literal response body of one hook delivery.
pub open spec fn spec_hook_response(
    ss: Seq<SessionModel>,
    stops: Seq<TimeMark>,
    ev: HookInputModel,
    now: int,
) -> Seq<char> {
    if spec_skip_perms(ev) {
        "skipped:skip_permissions"@
    } else if spec_stop_suppressed(ss, stops, ev, now) {
        "skipped:stop_recently"@
    } else {
        match spec_hook_target(ev.hook_type) {
            None => "unknown_hook"@,
            Some(target) => match spec_match_session(ss, ev.cwd) {
                Some(k) => "matched:"@ + ss[k].id,
                None => "no_match"@,
            },
        }
    }
}

/// The decision-log entry one hook delivery appends. Every delivery is
/// observable, skipped or not, each skip with its specific reason.
pub open spec fn spec_hook_log_entry(
    ss: Seq<SessionModel>,
    stops: Seq<TimeMark>,
    ev: HookInputModel,
    now: int,
) -> HookEventModel {
    let base = HookEventModel {
        timestamp: now,
        hook_type: ev.hook_type,
        cwd: ev.cwd,
        matched_session: None,
        new_state: "n/a"@,
        skipped: true,
        skip_reason: None,
    };
    if spec_skip_perms(ev) {
        HookEventModel { skip_reason: Some("--dangerously-skip-permissions"@), ..base }
    } else if spec_stop_suppressed(ss, stops, ev, now) {
        HookEventModel { skip_reason: Some("Stop fired recently"@), ..base }
    } else {
        match spec_hook_target(ev.hook_type) {
            None => HookEventModel { skip_reason: Some("unknown hook"@), ..base },
            Some(target) => match spec_match_session(ss, ev.cwd) {
                Some(k) => if spec_already_complete(ss, k, target) {
                    HookEventModel {
                        matched_session: Some(ss[k].id),
                        new_state: target.spec_name(),
                        skip_reason: Some("session already Complete"@),
                        ..base
                    }
                } else {
                    HookEventModel {
                        matched_session: Some(ss[k].id),
                        new_state: target.spec_name(),
                        skipped: false,
                        ..base
                    }
                },
                None => HookEventModel {
                    new_state: target.spec_name(),
                    skip_reason: Some("no matching session"@),
                    ..base
                },
            },
        }
    }
}

/// One OS notification request, ready for delivery.
#[derive(Debug)]
pub struct NotificationRequest {
    pub message: String,
    pub title: String,
    pub subtitle: String,
    /// Sound name handed to the notifier, if any.
    pub notifier_sound: Option<String>,
    /// Custom sound file to play directly, if any.
    pub play_file: Option<String>,
}

/// Mathematical image of a [`NotificationRequest`].
pub struct NotificationModel {
    pub message: Seq<char>,
    pub title: Seq<char>,
    pub subtitle: Seq<char>,
    pub notifier_sound: Option<Seq<char>>,
    pub play_file: Option<Seq<char>>,
}

impl View for NotificationRequest {
    type V = NotificationModel;

    open spec fn view(&self) -> NotificationModel {
        NotificationModel {
            message: self.message@,
            title: self.title@,
            subtitle: self.subtitle@,
            notifier_sound: match self.notifier_sound {
                Some(s) => Some(s@),
                None => None,
            },
            play_file: match self.play_file {
                Some(s) => Some(s@),
                None => None,
            },
        }
    }
}

/// Notification title: the product name, with the matched project appended.
pub open spec fn spec_title(name: Option<Seq<char>>) -> Seq<char> {
    match name {
        Some(n) => "c3 — "@ + n,
        None => "c3"@,
    }
}

fn make_title(name: &Option<String>) -> (r: String)
    ensures
        r@ == spec_title(view_opt(name)),
{
    match name {
        Some(n) => {
            let mut r = String::from_str("c3 — ");
            r.append(n.as_str());
            r
        },
        None => String::from_str("c3"),
    }
}

/// Notification subtitle, enriched with multiplexer context when available:
/// `<base> | <session>:<window>.<pane> (<window name>)`.
pub open spec fn spec_subtitle(base: Seq<char>, tmux: Option<TmuxContextModel>) -> Seq<char> {
    match tmux {
        Some(t) => if t.session.len() > 0 {
            base + " | "@ + t.session + ":"@ + t.window + "."@ + t.pane + " ("@ + t.window_name
                + ")"@
        } else {
            base
        },
        None => base,
    }
}

fn make_subtitle(base: &str, tmux: &Option<TmuxContext>) -> (r: String)
    ensures
        r@ == spec_subtitle(
            base@,
            match tmux {
                Some(t) => Some(t@),
                None => None,
            },
        ),
{
    match tmux {
        Some(t) => {
            if t.session.unicode_len() > 0 {
                let mut r = String::from_str(base);
                r.append(" | ");
                r.append(t.session.as_str());
                r.append(":");
                r.append(t.window.as_str());
                r.append(".");
                r.append(t.pane.as_str());
                r.append(" (");
                r.append(t.window_name.as_str());
                r.append(")");
                r
            } else {
                String::from_str(base)
            }
        },
        None => String::from_str(base),
    }
}

/// Which sound configuration a category selects.
pub open spec fn spec_sound_for(
    settings: crate::settings::AppSettingsModel,
    cat: SoundCategory,
) -> crate::settings::SoundConfigModel {
    match cat {
        SoundCategory::Permission => settings.permission_sound,
        SoundCategory::Input => settings.input_sound,
        SoundCategory::Complete => settings.complete_sound,
        SoundCategory::NoCategory => crate::settings::SoundConfigModel {
            enabled: false,
            sound: None,
        },
    }
}

fn sound_for(settings: &crate::settings::AppSettings, cat: SoundCategory) -> (r:
    crate::settings::SoundConfig)
    ensures
        r@ == spec_sound_for(settings@, cat),
{
    match cat {
        SoundCategory::Permission => settings.permission_sound.clone(),
        SoundCategory::Input => settings.input_sound.clone(),
        SoundCategory::Complete => settings.complete_sound.clone(),
        SoundCategory::NoCategory => crate::settings::SoundConfig { enabled: false, sound: None },
    }
}

/// The sound name passed to the notifier, and the custom file played
/// directly instead: a disabled category has neither; a path starting with
/// `/` is played as a file; a bare name goes to the notifier; no choice
/// falls back to the default name.
pub open spec fn spec_notifier_sound(cfg: crate::settings::SoundConfigModel) -> (
    Option<Seq<char>>,
    Option<Seq<char>>,
) {
    if !cfg.enabled {
        (None, None)
    } else {
        match cfg.sound {
            Some(s) => if spec_is_prefix("/"@, s) {
                (None, Some(s))
            } else {
                (Some(s), None)
            },
            None => (Some("Ping"@), None),
        }
    }
}

fn select_sound(cfg: &crate::settings::SoundConfig) -> (r: (Option<String>, Option<String>))
    ensures
        view_opt(&r.0) == spec_notifier_sound(cfg@).0,
        view_opt(&r.1) == spec_notifier_sound(cfg@).1,
{
    if !cfg.enabled {
        (None, None)
    } else {
        match &cfg.sound {
            Some(s) => {
                if starts_with(s.as_str(), "/") {
                    (None, Some(s.clone()))
                } else {
                    (Some(s.clone()), None)
                }
            },
            None => (Some(String::from_str("Ping")), None),
        }
    }
}

/// The debounce guard over a marks row: open when no delivery is recorded
/// inside the window.
pub open spec fn spec_notify_ok(ms: Seq<TimeMark>, id: Seq<char>, now: int) -> bool {
    match spec_mark_of(ms, id) {
        Some(m) => !spec_within_window(m, now, crate::NOTIFY_DEBOUNCE_MS as int),
        None => true,
    }
}

/// The notification one hook delivery requests, if any: none on a skip, on
/// an unknown type, on a silenced category, with notifications off, or when
/// the matched session's debounce guard is shut.
pub open spec fn spec_hook_notification(
    ss: Seq<SessionModel>,
    stops: Seq<TimeMark>,
    notifies: Seq<TimeMark>,
    ev: HookInputModel,
    settings: crate::settings::AppSettingsModel,
    tool_name: Seq<char>,
    now: int,
) -> Option<NotificationModel> {
    if spec_skip_perms(ev) || spec_stop_suppressed(ss, stops, ev, now) {
        None
    } else {
        match spec_hook_rule(ev.hook_type, tool_name) {
            None => None,
            Some(rule) => {
                let content = NotificationModel {
                    message: rule.message,
                    title: spec_title(
                        match spec_match_session(ss, ev.cwd) {
                            Some(k) => Some(ss[k].project_name),
                            None => None,
                        },
                    ),
                    subtitle: spec_subtitle(rule.subtitle, ev.tmux),
                    notifier_sound: spec_notifier_sound(spec_sound_for(settings, rule.category)).0,
                    play_file: spec_notifier_sound(spec_sound_for(settings, rule.category)).1,
                };
                match spec_match_session(ss, ev.cwd) {
                    Some(k) => if spec_already_complete(ss, k, rule.target) {
                        None
                    } else if spec_notify_ok(notifies, ss[k].id, now)
                        && settings.notifications_enabled && rule.message.len() > 0 {
                        Some(content)
                    } else {
                        None
                    },
                    None => if settings.notifications_enabled && rule.message.len() > 0 {
                        Some(content)
                    } else {
                        None
                    },
                }
            },
        }
    }
}

/// Everything one hook delivery hands back: the literal response body, the
/// updated record to announce, and the notification to deliver.
#[derive(Debug)]
pub struct HookOutcome {
    pub response: String,
    pub updated: Option<C3Session>,
    pub notification: Option<NotificationRequest>,
}

} // verus!

use crate::registry::lemma_idx_of_at;
use crate::registry::spec_log_append;
use crate::registry::HookEvent;
use crate::registry::Registry;
use crate::state::session_wf;

verus! {

/// With unique ids, a session indexes itself.
pub proof fn lemma_idx_of_self(ss: Seq<SessionModel>, k: int)
    requires
        crate::registry::session_ids_unique(ss),
        0 <= k < ss.len(),
    ensures
        crate::registry::spec_idx_of(ss, ss[k].id) == Some(k),
{
    assert forall|j: int| 0 <= j < k implies ss[j].id != ss[k].id by {}
    lemma_idx_of_at(ss, ss[k].id, k);
}

impl Registry {
    /// Deliver one hook event: apply the suppression rules, map the type to
    /// its target state, match a session by working directory, write the
    /// record under hook protection, log the decision, and decide whether a
    /// notification goes out. `tool` names the tracked tool in the
    /// notification texts; the injected clock `now_ms` is milliseconds
    /// since the Unix epoch.
    #[verifier::rlimit(50)]
    pub fn handle_hook(
        &mut self,
        ev: &HookInput,
        settings: &crate::settings::AppSettings,
        tool: &crate::settings::ToolIdentity,
        now_ms: i64,
    ) -> (out: HookOutcome)
        requires
            old(self).wf(),
            now_ms >= 0,
        ensures
            final(self).wf(),
            final(self).smodels() == spec_hook_state_effect(
                old(self).smodels(),
                old(self).stop_marks@,
                ev@,
                now_ms as int,
            ),
            out.response@ == spec_hook_response(
                old(self).smodels(),
                old(self).stop_marks@,
                ev@,
                now_ms as int,
            ),
            final(self).log_models() == spec_log_append(
                old(self).log_models(),
                spec_hook_log_entry(
                    old(self).smodels(),
                    old(self).stop_marks@,
                    ev@,
                    now_ms as int,
                ),
            ),
            match spec_hook_writes(old(self).smodels(), old(self).stop_marks@, ev@, now_ms as int) {
                Some(k) => {
                    let sid = old(self).smodels()[k].id;
                    &&& final(self).hook_mark_of(sid) == Some(now_ms as int)
                    &&& forall|q: Seq<char>|
                        q != sid ==> final(self).hook_mark_of(q) == old(self).hook_mark_of(q)
                    &&& (ev@.hook_type == "Stop"@ ==> final(self).stop_mark_of(sid) == Some(
                        now_ms as int,
                    ) && forall|q: Seq<char>|
                        q != sid ==> final(self).stop_mark_of(q) == old(self).stop_mark_of(q))
                    &&& (ev@.hook_type != "Stop"@ ==> final(self).stop_marks@
                        == old(self).stop_marks@)
                    &&& out.updated is Some
                    &&& out.updated.unwrap()@ == final(self).smodels()[k]
                    &&& (spec_notify_ok(old(self).notify_marks@, sid, now_ms as int)
                        ==> final(self).notify_mark_of(sid) == Some(now_ms as int))
                    &&& (!spec_notify_ok(old(self).notify_marks@, sid, now_ms as int)
                        ==> final(self).notify_marks@ == old(self).notify_marks@)
                },
                None => {
                    &&& final(self).hook_marks@ == old(self).hook_marks@
                    &&& final(self).stop_marks@ == old(self).stop_marks@
                    &&& final(self).notify_marks@ == old(self).notify_marks@
                    &&& out.updated is None
                },
            },
            match out.notification {
                Some(n) => spec_hook_notification(
                    old(self).smodels(),
                    old(self).stop_marks@,
                    old(self).notify_marks@,
                    ev@,
                    settings@,
                    tool@.display_name,
                    now_ms as int,
                ) == Some(n@),
                None => spec_hook_notification(
                    old(self).smodels(),
                    old(self).stop_marks@,
                    old(self).notify_marks@,
                    ev@,
                    settings@,
                    tool@.display_name,
                    now_ms as int,
                ) is None,
            },
    {
        let ghost ss0 = self.smodels();
        let ghost stops0 = self.stop_marks@;
        let ghost now = now_ms as int;

        // A permission request pushed while permission checks are off.
        if ev.skip_permissions && str_eq(ev.hook_type.as_str(), "PermissionRequest") {
            proof {
                assert(spec_skip_perms(ev@));
            }
            self.log_hook_event(
                HookEvent {
                    timestamp: now_ms,
                    hook_type: ev.hook_type.clone(),
                    cwd: ev.cwd.clone(),
                    matched_session: None,
                    new_state: String::from_str("n/a"),
                    skipped: true,
                    skip_reason: Some(String::from_str("--dangerously-skip-permissions")),
                },
            );
            return HookOutcome {
                response: String::from_str("skipped:skip_permissions"),
                updated: None,
                notification: None,
            };
        }
        proof {
            assert(!spec_skip_perms(ev@));
        }

        let matched = match_session(&self.sessions, ev.cwd.as_str());

        // A Notification right after a Stop for the same session is
        // redundant: both fire on completion.
        let suppressed: bool = if str_eq(ev.hook_type.as_str(), "Notification") {
            match matched {
                Some(k) => {
                    proof {
                        assert(ss0[k as int].id == self.sessions@[k as int]@.id);
                    }
                    self.is_recently_stopped_at(k, now_ms)
                },
                None => false,
            }
        } else {
            false
        };
        proof {
            assert(suppressed == spec_stop_suppressed(ss0, stops0, ev@, now));
        }
        if suppressed {
            self.log_hook_event(
                HookEvent {
                    timestamp: now_ms,
                    hook_type: ev.hook_type.clone(),
                    cwd: ev.cwd.clone(),
                    matched_session: None,
                    new_state: String::from_str("n/a"),
                    skipped: true,
                    skip_reason: Some(String::from_str("Stop fired recently")),
                },
            );
            return HookOutcome {
                response: String::from_str("skipped:stop_recently"),
                updated: None,
                notification: None,
            };
        }

        // Map the hook type to its rule; an unknown type is logged and
        // answered, nothing written.
        let rule = match hook_rule(ev.hook_type.as_str(), tool.display_name.as_str()) {
            Some(r) => r,
            None => {
                self.log_hook_event(
                    HookEvent {
                        timestamp: now_ms,
                        hook_type: ev.hook_type.clone(),
                        cwd: ev.cwd.clone(),
                        matched_session: None,
                        new_state: String::from_str("n/a"),
                        skipped: true,
                        skip_reason: Some(String::from_str("unknown hook")),
                    },
                );
                return HookOutcome {
                    response: String::from_str("unknown_hook"),
                    updated: None,
                    notification: None,
                };
            },
        };

        match matched {
            Some(k) => {
                let sid = self.sessions[k].id.clone();
                let matched_name = Some(self.sessions[k].project_name.clone());
                proof {
                    assert(ss0[k as int].id == sid@);
                    assert(ss0[k as int].project_name == self.sessions@[k as int]@.project_name);
                }
                if self.sessions[k].state == SessionState::Complete && rule.target
                    == SessionState::AwaitingInput {
                    proof {
                        assert(spec_already_complete(ss0, k as int, rule@.target));
                    }
                    self.log_hook_event(
                        HookEvent {
                            timestamp: now_ms,
                            hook_type: ev.hook_type.clone(),
                            cwd: ev.cwd.clone(),
                            matched_session: Some(sid.clone()),
                            new_state: rule.target.name(),
                            skipped: true,
                            skip_reason: Some(String::from_str("session already Complete")),
                        },
                    );
                    let mut resp = String::from_str("matched:");
                    resp.append(sid.as_str());
                    return HookOutcome { response: resp, updated: None, notification: None };
                }
                proof {
                    assert(!spec_already_complete(ss0, k as int, rule@.target));
                    assert(spec_hook_writes(ss0, stops0, ev@, now) == Some(k as int));
                }

                // The write: target state, refreshed activity, pending
                // action only for a permission request.
                let pending: Option<PendingAction> = if rule.target
                    == SessionState::AwaitingPermission {
                    Some(make_permission_pending(&ev.tool_name, &ev.tool_command))
                } else {
                    None
                };
                let prev = &self.sessions[k];
                let ns = C3Session {
                    id: sid.clone(),
                    project_name: prev.project_name.clone(),
                    project_path: match &prev.project_path {
                        Some(p) => Some(p.clone()),
                        None => None,
                    },
                    state: rule.target,
                    tmux_target: match &prev.tmux_target {
                        Some(t) => Some(t.clone()),
                        None => None,
                    },
                    last_activity: now_ms,
                    pending_action: pending,
                    metrics: prev.metrics,
                };
                proof {
                    assert(ns@ == spec_written_session(ss0[k as int], rule@.target, ev@, now));
                    assert(session_wf(ns@));
                    lemma_idx_of_self(ss0, k as int);
                }
                let ns2 = ns.clone();
                self.upsert(ns);
                let ghost hm0 = self.hook_marks@;
                self.mark_hook_touched(sid.as_str(), now_ms);
                let ghost hm1 = self.hook_marks@;
                let ghost sm0 = self.stop_marks@;
                if str_eq(ev.hook_type.as_str(), "Stop") {
                    self.mark_stopped(sid.as_str(), now_ms);
                }
                let ghost sm1 = self.stop_marks@;
                self.log_hook_event(
                    HookEvent {
                        timestamp: now_ms,
                        hook_type: ev.hook_type.clone(),
                        cwd: ev.cwd.clone(),
                        matched_session: Some(sid.clone()),
                        new_state: rule.target.name(),
                        skipped: false,
                        skip_reason: None,
                    },
                );
                let ghost nm0 = self.notify_marks@;
                let allowed = self.should_notify(sid.as_str(), now_ms);
                proof {
                    let sidm = ss0[k as int].id;
                    assert(self.hook_marks@ == hm1);
                    assert forall|q: Seq<char>| q != sidm implies spec_mark_of(hm1, q)
                        == spec_mark_of(hm0, q) by {}
                    assert forall|q: Seq<char>| q != sidm implies spec_mark_of(sm1, q)
                        == spec_mark_of(sm0, q) by {}
                    if allowed {
                        assert forall|q: Seq<char>| q != sidm implies spec_mark_of(
                            self.notify_marks@,
                            q,
                        ) == spec_mark_of(nm0, q) by {}
                    }
                }
                let notification = self.assemble_notification(
                    allowed,
                    settings,
                    &rule,
                    &matched_name,
                    &ev.tmux,
                );
                let mut resp = String::from_str("matched:");
                resp.append(sid.as_str());
                HookOutcome { response: resp, updated: Some(ns2), notification }
            },
            None => {
                self.log_hook_event(
                    HookEvent {
                        timestamp: now_ms,
                        hook_type: ev.hook_type.clone(),
                        cwd: ev.cwd.clone(),
                        matched_session: None,
                        new_state: rule.target.name(),
                        skipped: true,
                        skip_reason: Some(String::from_str("no matching session")),
                    },
                );
                let notification = self.assemble_notification(
                    true,
                    settings,
                    &rule,
                    &None,
                    &ev.tmux,
                );
                HookOutcome {
                    response: String::from_str("no_match"),
                    updated: None,
                    notification,
                }
            },
        }
    }

    /// Is the session at index `k` inside the stop-suppression window?
    fn is_recently_stopped_at(&self, k: usize, now_ms: i64) -> (r: bool)
        requires
            self.wf(),
            now_ms >= 0,
            k < self.sessions@.len(),
        ensures
            r == self.spec_recently_stopped(self.smodels()[k as int].id, now_ms as int),
    {
        let sid = self.sessions[k].id.clone();
        proof {
            assert(sid@ == self.smodels()[k as int].id);
        }
        self.is_recently_stopped(sid.as_str(), now_ms)
    }

    /// Build the notification request when the guard allows it, notifications
    /// are on and the rule carries a message.
    fn assemble_notification(
        &self,
        allowed: bool,
        settings: &crate::settings::AppSettings,
        rule: &HookRule,
        matched_name: &Option<String>,
        tmux: &Option<TmuxContext>,
    ) -> (r: Option<NotificationRequest>)
        ensures
            (allowed && settings@.notifications_enabled && rule@.message.len() > 0) <==> r is Some,
            r is Some ==> r.unwrap()@ == (NotificationModel {
                message: rule@.message,
                title: spec_title(view_opt(matched_name)),
                subtitle: spec_subtitle(
                    rule@.subtitle,
                    match tmux {
                        Some(t) => Some(t@),
                        None => None,
                    },
                ),
                notifier_sound: spec_notifier_sound(spec_sound_for(settings@, rule@.category)).0,
                play_file: spec_notifier_sound(spec_sound_for(settings@, rule@.category)).1,
            }),
    {
        if allowed && settings.notifications_enabled && rule.message.unicode_len() > 0 {
            let cfg = sound_for(settings, rule.category);
            let sounds = select_sound(&cfg);
            Some(
                NotificationRequest {
                    message: rule.message.clone(),
                    title: make_title(matched_name),
                    subtitle: make_subtitle(rule.subtitle.as_str(), tmux),
                    notifier_sound: sounds.0,
                    play_file: sounds.1,
                },
            )
        } else {
            None
        }
    }
}

} // verus!

verus! {

proof fn lemma_exact_same_paths(a: Seq<SessionModel>, b: Seq<SessionModel>, cwd: Seq<char>)
    requires
        a.len() == b.len(),
        forall|i: int| 0 <= i < a.len() ==> a[i].project_path == b[i].project_path,
    ensures
        spec_exact_idx(a, cwd) == spec_exact_idx(b, cwd),
    decreases a.len(),
{
    if a.len() > 0 {
        assert(forall|i: int| 0 <= i < a.skip(1).len() ==> a.skip(1)[i] == a[i + 1]);
        assert(forall|i: int| 0 <= i < b.skip(1).len() ==> b.skip(1)[i] == b[i + 1]);
        lemma_exact_same_paths(a.skip(1), b.skip(1), cwd);
    }
}

proof fn lemma_best_same_paths(
    a: Seq<SessionModel>,
    b: Seq<SessionModel>,
    cwd: Seq<char>,
    i: int,
    best: Option<int>,
)
    requires
        a.len() == b.len(),
        forall|j: int| 0 <= j < a.len() ==> a[j].project_path == b[j].project_path,
        match best {
            Some(bb) => 0 <= bb < a.len(),
            None => true,
        },
    ensures
        spec_best_from(a, cwd, i, best) == spec_best_from(b, cwd, i, best),
    decreases a.len() - i,
{
    if 0 <= i < a.len() {
        assert forall|j: int| 0 <= j < a.len() implies spec_match_quality(a[j], cwd)
            == spec_match_quality(b[j], cwd) by {}
        let better = match best {
            None => spec_match_quality(a[i], cwd) >= 0,
            Some(bb) => spec_match_quality(a[i], cwd) > spec_match_quality(a[bb], cwd),
        };
        if better {
            lemma_best_same_paths(a, b, cwd, i + 1, Some(i));
        } else {
            lemma_best_same_paths(a, b, cwd, i + 1, best);
        }
    }
}

/// Matching reads only the project paths: two rows with the same paths
/// select the same index.
pub proof fn lemma_match_same_paths(a: Seq<SessionModel>, b: Seq<SessionModel>, cwd: Seq<char>)
    requires
        a.len() == b.len(),
        forall|i: int| 0 <= i < a.len() ==> a[i].project_path == b[i].project_path,
    ensures
        spec_match_session(a, cwd) == spec_match_session(b, cwd),
{
    lemma_exact_same_paths(a, b, cwd);
    lemma_best_same_paths(a, b, cwd, 0, None);
}

/// A hook delivery never changes which sessions exist, their ids or their
/// paths — only state, pending action and activity.
pub proof fn lemma_effect_preserves_identity(
    ss: Seq<SessionModel>,
    stops: Seq<TimeMark>,
    ev: HookInputModel,
    now: int,
)
    ensures
        spec_hook_state_effect(ss, stops, ev, now).len() == ss.len(),
        forall|i: int|
            0 <= i < ss.len() ==> #[trigger] spec_hook_state_effect(ss, stops, ev, now)[i].id
                == ss[i].id && spec_hook_state_effect(ss, stops, ev, now)[i].project_path
                == ss[i].project_path,
{
    match spec_hook_writes(ss, stops, ev, now) {
        Some(k) => {
            lemma_hook_writes_in_bounds(ss, stops, ev, now);
        },
        None => {},
    }
}

/// A write index is always in bounds.
pub proof fn lemma_hook_writes_in_bounds(
    ss: Seq<SessionModel>,
    stops: Seq<TimeMark>,
    ev: HookInputModel,
    now: int,
)
    ensures
        match spec_hook_writes(ss, stops, ev, now) {
            Some(k) => 0 <= k < ss.len(),
            None => true,
        },
{
    match spec_hook_target(ev.hook_type) {
        Some(target) => {
            lemma_exact_idx_props(ss, ev.cwd);
            lemma_best_from_props(ss, ev.cwd, 0, None);
        },
        None => {},
    }
}

/// Law (idempotence): delivering the same hook event a second time, at the
/// same instant, leaves the session row exactly where the first delivery put
/// it — the repeat is a no-op on session state, distinguishable only in the
/// decision log and timestamp tables. `stops2` is the stop table after the
/// first delivery: a Stop may have re-marked its session, any other type
/// leaves the table alone.
pub proof fn lemma_hook_idempotent(
    ss: Seq<SessionModel>,
    stops: Seq<TimeMark>,
    stops2: Seq<TimeMark>,
    ev: HookInputModel,
    now: int,
)
    requires
        ev.hook_type == "Notification"@ ==> stops2 == stops,
    ensures
        spec_hook_state_effect(
            spec_hook_state_effect(ss, stops, ev, now),
            stops2,
            ev,
            now,
        ) == spec_hook_state_effect(ss, stops, ev, now),
{
    let ss1 = spec_hook_state_effect(ss, stops, ev, now);
    if spec_skip_perms(ev) {
        assert(ss1 == ss);
    } else if spec_stop_suppressed(ss, stops, ev, now) {
        assert(ss1 == ss);
    } else {
        match spec_hook_target(ev.hook_type) {
            None => {
                assert(ss1 == ss);
            },
            Some(target) => {
                match spec_match_session(ss, ev.cwd) {
                    None => {
                        assert(ss1 == ss);
                    },
                    Some(k) => {
                        lemma_exact_idx_props(ss, ev.cwd);
                        lemma_best_from_props(ss, ev.cwd, 0, None);
                        assert(0 <= k < ss.len());
                        if spec_already_complete(ss, k, target) {
                            assert(ss1 == ss);
                        } else {
                            let w = spec_written_session(ss[k], target, ev, now);
                            assert(ss1 == ss.update(k, w));
                            lemma_effect_preserves_identity(ss, stops, ev, now);
                            assert forall|i: int|
                                0 <= i < ss.len() implies ss1[i].project_path
                                == ss[i].project_path by {}
                            lemma_match_same_paths(ss1, ss, ev.cwd);
                            assert(spec_match_session(ss1, ev.cwd) == Some(k));
                            assert(ss1[k].id == ss[k].id);
                            assert(!spec_stop_suppressed(ss1, stops2, ev, now));
                            assert(!spec_already_complete(ss1, k, target));
                            assert(spec_hook_writes(ss1, stops2, ev, now) == Some(k));
                            let w2 = spec_written_session(ss1[k], target, ev, now);
                            assert(w2 == w);
                            assert(spec_hook_state_effect(ss1, stops2, ev, now) =~= ss1);
                        }
                    },
                }
            },
        }
    }
}

/// Law (stop suppression): a Notification arriving within the grace window
/// after a Stop was recorded for its matched session is always skipped with
/// `skipped:stop_recently` and changes no session; once the window has
/// elapsed it is handled exactly as if no Stop had ever been recorded.
pub proof fn lemma_stop_suppression(
    ss: Seq<SessionModel>,
    stops: Seq<TimeMark>,
    ev: HookInputModel,
    k: int,
    m: int,
    now: int,
)
    requires
        ev.hook_type == "Notification"@,
        spec_match_session(ss, ev.cwd) == Some(k),
        0 <= k < ss.len(),
        spec_mark_of(stops, ss[k].id) == Some(m),
        0 <= m <= now,
    ensures
        now - m < HOOK_GRACE_PERIOD_MS ==> spec_hook_response(ss, stops, ev, now)
            == "skipped:stop_recently"@ && spec_hook_state_effect(ss, stops, ev, now) == ss,
        now - m >= HOOK_GRACE_PERIOD_MS ==> spec_hook_response(ss, stops, ev, now)
            == spec_hook_response(ss, Seq::<TimeMark>::empty(), ev, now)
            && spec_hook_state_effect(ss, stops, ev, now) == spec_hook_state_effect(
            ss,
            Seq::<TimeMark>::empty(),
            ev,
            now,
        ),
{
    reveal_strlit("Notification");
    reveal_strlit("PermissionRequest");
    assert("Notification"@.len() == 12);
    assert("PermissionRequest"@.len() == 17);
    assert(!spec_skip_perms(ev));
    if now - m < HOOK_GRACE_PERIOD_MS {
        assert(spec_stop_suppressed(ss, stops, ev, now));
    } else {
        assert(!spec_stop_suppressed(ss, stops, ev, now));
        assert(spec_mark_of(Seq::<TimeMark>::empty(), ss[k].id) is None);
        assert(!spec_stop_suppressed(ss, Seq::<TimeMark>::empty(), ev, now));
    }
}

} // verus!

verus! {

proof fn lemma_best_from_maximal(
    ss: Seq<SessionModel>,
    cwd: Seq<char>,
    i: int,
    best: Option<int>,
)
    requires
        0 <= i,
        match best {
            Some(b) => 0 <= b < ss.len(),
            None => true,
        },
    ensures
        match spec_best_from(ss, cwd, i, best) {
            Some(k) => (forall|j: int|
                i <= j < ss.len() ==> spec_match_quality(#[trigger] ss[j], cwd)
                    <= spec_match_quality(ss[k], cwd)) && (match best {
                Some(b) => spec_match_quality(ss[b], cwd) <= spec_match_quality(ss[k], cwd),
                None => true,
            }),
            None => true,
        },
    decreases ss.len() - i,
{
    if i < ss.len() {
        let better = match best {
            None => spec_match_quality(ss[i], cwd) >= 0,
            Some(b) => spec_match_quality(ss[i], cwd) > spec_match_quality(ss[b], cwd),
        };
        if better {
            lemma_best_from_maximal(ss, cwd, i + 1, Some(i));
        } else {
            lemma_best_from_maximal(ss, cwd, i + 1, best);
        }
    }
}

/// Law (tie-break): when no path equals the working directory exactly, the
/// selected session's common-prefix length is maximal among all registered
/// sessions.
pub proof fn lemma_match_maximal(ss: Seq<SessionModel>, cwd: Seq<char>)
    requires
        spec_exact_idx(ss, cwd) is None,
    ensures
        match spec_match_session(ss, cwd) {
            Some(k) => 0 <= k < ss.len() && forall|j: int|
                0 <= j < ss.len() ==> spec_match_quality(#[trigger] ss[j], cwd)
                    <= spec_match_quality(ss[k], cwd),
            None => true,
        },
{
    lemma_best_from_props(ss, cwd, 0, None);
    lemma_best_from_maximal(ss, cwd, 0, None);
}

} // verus!
