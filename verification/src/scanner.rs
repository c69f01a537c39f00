//! The pane scanner's decision logic: parsing multiplexer pane listings,
//! deciding which panes run the agent, deriving display names, classifying
//! a pane into a session state, and writing the result into the registry
//! under the arbitration rule — a hook-protected session keeps its state.

use vstd::prelude::*;
use vstd::string::StrSliceExecFns;
use vstd::string::StringExecFns;

use crate::hook::make_input_pending;
use crate::hook::spec_pending_input;
use crate::registry::smodels_of;
use crate::registry::spec_idx_of;
use crate::registry::Registry;
use crate::state::C3Session;
use crate::state::SessionModel;
use crate::state::SessionState;
use crate::state::session_wf;
use crate::strutil::contains_char;
use crate::strutil::contains_str;
use crate::strutil::last_nonempty;
use crate::strutil::spec_contains_char;
use crate::strutil::spec_contains_seq;
use crate::strutil::spec_is_prefix;
use crate::strutil::spec_is_suffix;
use crate::strutil::spec_last_nonempty;
use crate::strutil::spec_replace;
use crate::strutil::spec_split;
use crate::strutil::spec_trim;
use crate::strutil::spec_trim_start_char;
use crate::strutil::split_char;
use crate::strutil::starts_with;
use crate::strutil::str_eq;
use crate::strutil::ends_with;
use crate::strutil::replace_char;
use crate::strutil::trim_start_char;
use crate::strutil::trim_str;
use crate::strutil::views_of;
use crate::transcript::detect_state_from_entries;
use crate::transcript::entry_models;
use crate::transcript::latest_timestamp;
use crate::transcript::spec_conversation_state;
use crate::transcript::spec_latest_timestamp;
use crate::transcript::ConversationState;
use crate::transcript::ConversationStateModel;
use crate::transcript::TranscriptEntry;

verus! {

/// The six tab-separated fields of one pane line, as the multiplexer
/// listing prints them.
#[derive(Debug)]
pub struct PaneFields {
    pub target: String,
    pub pid: String,
    pub command: String,
    pub cwd: String,
    pub title: String,
    pub window_name: String,
}

/// Mathematical image of [`PaneFields`].
pub struct PaneFieldsModel {
    pub target: Seq<char>,
    pub pid: Seq<char>,
    pub command: Seq<char>,
    pub cwd: Seq<char>,
    pub title: Seq<char>,
    pub window_name: Seq<char>,
}

impl View for PaneFields {
    type V = PaneFieldsModel;

    open spec fn view(&self) -> PaneFieldsModel {
        PaneFieldsModel {
            target: self.target@,
            pid: self.pid@,
            command: self.command@,
            cwd: self.cwd@,
            title: self.title@,
            window_name: self.window_name@,
        }
    }
}

/// Split one pane line into its six fields; a line with fewer fields is no
/// pane line.
pub fn parse_pane_line(line: &str) -> (r: Option<PaneFields>)
    ensures
        ({
            let ps = spec_split(line@, '\t');
            match r {
                Some(f) => ps.len() >= 6 && f@.target == ps[0] && f@.pid == ps[1] && f@.command
                    == ps[2] && f@.cwd == ps[3] && f@.title == ps[4] && f@.window_name == ps[5],
                None => ps.len() < 6,
            }
        }),
{
    let parts = split_char(line, '\t');
    if parts.len() < 6 {
        return None;
    }
    proof {
        assert forall|i: int| 0 <= i < 6 implies parts@[i]@ == spec_split(line@, '\t')[i] by {
            assert(views_of(parts@)[i] == parts@[i]@);
        }
    }
    Some(
        PaneFields {
            target: parts[0].clone(),
            pid: parts[1].clone(),
            command: parts[2].clone(),
            cwd: parts[3].clone(),
            title: parts[4].clone(),
            window_name: parts[5].clone(),
        },
    )
}

/// A pane plausibly runs the tracked tool: its foreground command carries
/// the tool's command name, or it is a node process whose child does, or —
/// for a finished session — its title still carries the idle glyph or the
/// tool's title marker while the pane sits at a shell.
pub open spec fn spec_is_agent_pane(
    f: PaneFieldsModel,
    tool: crate::settings::ToolIdentityModel,
    node_child_is_agent: bool,
) -> bool {
    let active = spec_contains_seq(f.command, tool.command_name) || (f.command == "node"@
        && node_child_is_agent);
    let titled = spec_contains_char(f.title, '✳') || spec_contains_seq(f.title, tool.title_name);
    active || (titled && !active && f.command == "zsh"@)
}

/// Executable form of [`spec_is_agent_pane`]. `node_child_is_agent` answers
/// whether some child of the pane's process runs the tool; the caller
/// probes it only for node panes.
pub fn is_agent_pane(
    f: &PaneFields,
    tool: &crate::settings::ToolIdentity,
    node_child_is_agent: bool,
) -> (r: bool)
    ensures
        r == spec_is_agent_pane(f@, tool@, node_child_is_agent),
{
    let active = contains_str(f.command.as_str(), tool.command_name.as_str()) || (str_eq(
        f.command.as_str(),
        "node",
    ) && node_child_is_agent);
    let titled = contains_char(f.title.as_str(), '✳') || contains_str(
        f.title.as_str(),
        tool.title_name.as_str(),
    );
    active || (titled && !active && str_eq(f.command.as_str(), "zsh"))
}

/// The last path component of a working directory, or the tool's own name
/// when the path has none.
pub open spec fn spec_fallback_name(cwd: Seq<char>, fallback: Seq<char>) -> Seq<char> {
    match spec_last_nonempty(spec_split(cwd, '/')) {
        Some(c) => c,
        None => fallback,
    }
}

/// The display name a pane gets: its title, trimmed and stripped of the
/// agent markers, unless the title is empty or a host name; otherwise the
/// last component of the working directory.
pub open spec fn spec_project_name(title: Seq<char>, cwd: Seq<char>, fallback: Seq<char>) -> Seq<
    char,
> {
    let t = spec_trim(title);
    if t.len() > 0 && t != "MacBookPro.localdomain"@ && !spec_contains_seq(t, "localhost"@) {
        let clean = spec_trim(spec_trim_start_char(spec_trim_start_char(t, '✳'), '✴'));
        if clean.len() > 0 {
            clean
        } else {
            spec_fallback_name(cwd, fallback)
        }
    } else {
        spec_fallback_name(cwd, fallback)
    }
}

fn fallback_project_name(cwd: &str, fallback: &str) -> (r: String)
    ensures
        r@ == spec_fallback_name(cwd@, fallback@),
{
    let parts = split_char(cwd, '/');
    match last_nonempty(&parts) {
        Some(p) => p,
        None => String::from_str(fallback),
    }
}

/// Info about one pane that runs the agent.
#[derive(Debug)]
pub struct PaneInfo {
    pub target: String,
    pub cwd: String,
    pub pane_title: String,
    pub window_name: String,
    pub pane_command: String,
}

/// Mathematical image of a [`PaneInfo`].
pub struct PaneInfoModel {
    pub target: Seq<char>,
    pub cwd: Seq<char>,
    pub pane_title: Seq<char>,
    pub window_name: Seq<char>,
    pub pane_command: Seq<char>,
}

impl View for PaneInfo {
    type V = PaneInfoModel;

    open spec fn view(&self) -> PaneInfoModel {
        PaneInfoModel {
            target: self.target@,
            cwd: self.cwd@,
            pane_title: self.pane_title@,
            window_name: self.window_name@,
            pane_command: self.pane_command@,
        }
    }
}

/// Executable form of [`spec_project_name`]; the fallback is the tool's
/// command name.
pub fn derive_project_name(pane: &PaneInfo, tool: &crate::settings::ToolIdentity) -> (r: String)
    ensures
        r@ == spec_project_name(pane@.pane_title, pane@.cwd, tool@.command_name),
{
    let t = trim_str(pane.pane_title.as_str());
    if t.unicode_len() > 0 && !str_eq(t, "MacBookPro.localdomain") && !contains_str(
        t,
        "localhost",
    ) {
        let clean = trim_str(trim_start_char(trim_start_char(t, '✳'), '✴'));
        if clean.unicode_len() > 0 {
            return String::from_str(clean);
        }
        return fallback_project_name(pane.cwd.as_str(), tool.command_name.as_str());
    }
    fallback_project_name(pane.cwd.as_str(), tool.command_name.as_str())
}

/// The directory holding a working directory's transcripts:
/// `<home>/<tool transcripts dir>/<cwd with every / rewritten to ->`.
pub fn cwd_to_project_dir(home: &str, transcripts_dir: &str, cwd: &str) -> (r: String)
    ensures
        r@ == home@ + "/"@ + transcripts_dir@ + "/"@ + spec_replace(cwd@, '/', '-'),
{
    let mut r = String::from_str(home);
    r.append("/");
    r.append(transcripts_dir);
    r.append("/");
    let dir_name = replace_char(cwd, '/', '-');
    r.append(dir_name.as_str());
    r
}

/// The registry id of a pane: its multiplexer target behind a fixed prefix.
pub fn session_id_for_target(target: &str) -> (r: String)
    ensures
        r@ == "tmux:"@ + target@,
{
    let mut r = String::from_str("tmux:");
    r.append(target);
    r
}

/// A directory entry that may hold a transcript: its name and modification
/// time, milliseconds since the Unix epoch.
#[derive(Debug)]
pub struct FileStamp {
    pub name: String,
    pub mtime_ms: i64,
}

/// A transcript file carries this extension; a bare `.jsonl` name has no
/// stem and is no transcript.
pub open spec fn spec_is_jsonl(name: Seq<char>) -> bool {
    spec_is_suffix(".jsonl"@, name) && name.len() > ".jsonl"@.len()
}

/// The most recently modified transcript file among the entries: the last
/// one with the greatest modification time, or none when no entry is a
/// transcript.
pub fn find_active_jsonl(files: &Vec<FileStamp>) -> (r: Option<usize>)
    ensures
        match r {
            Some(i) => i < files@.len() && spec_is_jsonl(files@[i as int].name@) && (forall|j: int|
                0 <= j < files@.len() && spec_is_jsonl(#[trigger] files@[j].name@)
                    ==> files@[j].mtime_ms <= files@[i as int].mtime_ms) && (forall|j: int|
                i < j < files@.len() && spec_is_jsonl(#[trigger] files@[j].name@)
                    ==> files@[j].mtime_ms < files@[i as int].mtime_ms),
            None => forall|j: int| 0 <= j < files@.len() ==> !spec_is_jsonl(#[trigger] files@[j].name@),
        },
{
    let mut best: Option<usize> = None;
    let mut j: usize = 0;
    while j < files.len()
        invariant
            j <= files@.len(),
            match best {
                Some(b) => b < j && spec_is_jsonl(files@[b as int].name@) && (forall|k: int|
                    0 <= k < j && spec_is_jsonl(#[trigger] files@[k].name@) ==> files@[k].mtime_ms
                        <= files@[b as int].mtime_ms) && (forall|k: int|
                    b < k < j && spec_is_jsonl(#[trigger] files@[k].name@) ==> files@[k].mtime_ms
                        < files@[b as int].mtime_ms),
                None => forall|k: int| 0 <= k < j ==> !spec_is_jsonl(#[trigger] files@[k].name@),
            },
        decreases files@.len() - j,
    {
        if ends_with(files[j].name.as_str(), ".jsonl") && files[j].name.as_str().unicode_len()
            > ".jsonl".unicode_len() {
            let take_it = match best {
                Some(b) => files[j].mtime_ms >= files[b].mtime_ms,
                None => true,
            };
            if take_it {
                best = Some(j);
            }
        }
        j = j + 1;
    }
    best
}

/// What the scanner learned from a pane's transcript, when one exists: the
/// parsed trailing records, whether the window had any lines, the file's
/// age in seconds and its modification time in milliseconds.
#[derive(Debug)]
pub struct TranscriptData {
    pub entries: Vec<TranscriptEntry>,
    pub had_lines: bool,
    pub age_secs: u64,
    pub file_mtime_ms: Option<i64>,
}

/// One pane as the scanner sees it each cycle.
#[derive(Debug)]
pub struct PaneObservation {
    pub pane: PaneInfo,
    pub transcript: Option<TranscriptData>,
}

/// The newest transcript message time of an observation, if any.
pub open spec fn spec_obs_latest(obs: &PaneObservation) -> Option<i64> {
    match obs.transcript {
        Some(t) => spec_latest_timestamp(entry_models(t.entries@)),
        None => None,
    }
}

/// The state, pending action and message time a pane classifies to: a shell
/// foreground means the session completed; an idle-marker title delegates to
/// the transcript (waiting for input when there is none); anything else is
/// active work.
pub open spec fn spec_scan_conv(obs: &PaneObservation) -> ConversationStateModel {
    if obs.pane@.pane_command == "zsh"@ {
        ConversationStateModel {
            state: SessionState::Complete,
            pending_action: None,
            last_message_time: spec_obs_latest(obs),
        }
    } else if spec_title_idle(obs.pane@.pane_title) {
        match obs.transcript {
            Some(t) => spec_conversation_state(entry_models(t.entries@), t.age_secs, t.had_lines),
            None => ConversationStateModel {
                state: SessionState::AwaitingInput,
                pending_action: Some(spec_pending_input()),
                last_message_time: None,
            },
        }
    } else {
        ConversationStateModel {
            state: SessionState::Processing,
            pending_action: None,
            last_message_time: spec_obs_latest(obs),
        }
    }
}

/// A trimmed title starting with the idle glyph means the agent sits idle.
pub open spec fn spec_title_idle(title: Seq<char>) -> bool {
    spec_trim(title).len() > 0 && spec_trim(title)[0] == '✳'
}

fn title_idle(title: &str) -> (r: bool)
    ensures
        r == spec_title_idle(title@),
{
    let t = trim_str(title);
    t.unicode_len() > 0 && t.get_char(0) == '✳'
}

fn obs_latest(obs: &PaneObservation) -> (r: Option<i64>)
    ensures
        r == spec_obs_latest(obs),
{
    match &obs.transcript {
        Some(t) => latest_timestamp(&t.entries),
        None => None,
    }
}

/// Effective last activity, by precedence: newest transcript message time,
/// else transcript file modification time, else the current time.
pub open spec fn spec_scan_activity(obs: &PaneObservation, now_ms: i64) -> i64 {
    match spec_scan_conv(obs).last_message_time {
        Some(t) => t,
        None => match obs.transcript {
            Some(tr) => match tr.file_mtime_ms {
                Some(m) => m,
                None => now_ms,
            },
            None => now_ms,
        },
    }
}

/// The record one scan writes for an unprotected pane; `fallback` is the
/// tool's command name, used when neither title nor path yields a name.
pub open spec fn spec_scanned_session(
    obs: &PaneObservation,
    fallback: Seq<char>,
    now_ms: i64,
) -> SessionModel {
    SessionModel {
        id: "tmux:"@ + obs.pane@.target,
        project_name: spec_project_name(obs.pane@.pane_title, obs.pane@.cwd, fallback),
        project_path: Some(obs.pane@.cwd),
        state: spec_scan_conv(obs).state,
        tmux_target: Some(obs.pane@.target),
        last_activity: spec_scan_activity(obs, now_ms) as int,
        pending_action: spec_scan_conv(obs).pending_action,
        metrics: None,
    }
}

/// What one scanned pane did to the registry.
#[derive(Debug)]
pub struct ScanOutcome {
    /// The state differs from the stored one (or the session is new): a
    /// change event is due.
    pub changed: bool,
    /// The written record, present exactly when `changed`.
    pub session: Option<C3Session>,
}

} // verus!

verus! {

impl Registry {
    /// One pane's write of a scan cycle.
    ///
    /// Grace invariant: a session still hook-protected keeps its state,
    /// pending action and last activity untouched — only its path and
    /// target fields are refreshed. An unprotected pane is classified and
    /// written atomically, with a change flagged exactly when the stored
    /// state differs (a new session always counts as changed); an unchanged
    /// state is a silent write.
    pub fn apply_scan(
        &mut self,
        obs: &PaneObservation,
        tool: &crate::settings::ToolIdentity,
        now_ms: i64,
    ) -> (out: ScanOutcome)
        requires
            old(self).wf(),
            now_ms >= 0,
        ensures
            final(self).wf(),
            final(self).hook_marks@ == old(self).hook_marks@,
            final(self).stop_marks@ == old(self).stop_marks@,
            final(self).notify_marks@ == old(self).notify_marks@,
            final(self).log_models() == old(self).log_models(),
            ({
                let sid = "tmux:"@ + obs.pane@.target;
                let idx = spec_idx_of(old(self).smodels(), sid);
                if old(self).spec_hook_protected(sid, now_ms as int) && idx is Some {
                    &&& final(self).smodels() == old(self).smodels().update(
                        idx.unwrap(),
                        SessionModel {
                            project_path: Some(obs.pane@.cwd),
                            tmux_target: Some(obs.pane@.target),
                            ..old(self).smodels()[idx.unwrap()]
                        },
                    )
                    &&& !out.changed
                    &&& out.session is None
                } else {
                    let ns = spec_scanned_session(obs, tool@.command_name, now_ms);
                    &&& (match idx {
                        Some(k) => final(self).smodels() == old(self).smodels().update(k, ns)
                            && out.changed == (old(self).smodels()[k].state != ns.state),
                        None => final(self).smodels() == old(self).smodels().push(ns)
                            && out.changed,
                    })
                    &&& (out.changed ==> out.session is Some && out.session.unwrap()@ == ns)
                    &&& (!out.changed ==> out.session is None)
                }
            }),
    {
        let sid = session_id_for_target(obs.pane.target.as_str());
        let protected = self.is_hook_protected(sid.as_str(), now_ms);
        let found = self.find_session(sid.as_str());
        if protected {
            if let Some(k) = found {
                let prev = &self.sessions[k];
                let upd = C3Session {
                    id: prev.id.clone(),
                    project_name: prev.project_name.clone(),
                    project_path: Some(obs.pane.cwd.clone()),
                    state: prev.state,
                    tmux_target: Some(obs.pane.target.clone()),
                    last_activity: prev.last_activity,
                    pending_action: match &prev.pending_action {
                        Some(p) => Some(p.clone()),
                        None => None,
                    },
                    metrics: prev.metrics,
                };
                proof {
                    assert(old(self).smodels()[k as int] == self.sessions@[k as int]@);
                    assert(upd@ == SessionModel {
                        project_path: Some(obs.pane@.cwd),
                        tmux_target: Some(obs.pane@.target),
                        ..old(self).smodels()[k as int]
                    });
                    assert(session_wf(upd@));
                }
                self.upsert(upd);
                return ScanOutcome { changed: false, session: None };
            }
        }
        let conv: ConversationState = if str_eq(obs.pane.pane_command.as_str(), "zsh") {
            ConversationState {
                state: SessionState::Complete,
                pending_action: None,
                last_message_time: obs_latest(obs),
            }
        } else if title_idle(obs.pane.pane_title.as_str()) {
            match &obs.transcript {
                Some(t) => detect_state_from_entries(&t.entries, t.age_secs, t.had_lines),
                None => ConversationState {
                    state: SessionState::AwaitingInput,
                    pending_action: Some(make_input_pending()),
                    last_message_time: None,
                },
            }
        } else {
            ConversationState {
                state: SessionState::Processing,
                pending_action: None,
                last_message_time: obs_latest(obs),
            }
        };
        proof {
            assert(conv@ == spec_scan_conv(obs));
        }
        let activity: i64 = match conv.last_message_time {
            Some(t) => t,
            None => match &obs.transcript {
                Some(tr) => match tr.file_mtime_ms {
                    Some(m) => m,
                    None => now_ms,
                },
                None => now_ms,
            },
        };
        let changed = match found {
            Some(k) => !(self.sessions[k].state == conv.state),
            None => true,
        };
        let name = derive_project_name(&obs.pane, tool);
        let ns = C3Session {
            id: sid,
            project_name: name,
            project_path: Some(obs.pane.cwd.clone()),
            state: conv.state,
            tmux_target: Some(obs.pane.target.clone()),
            last_activity: activity,
            pending_action: conv.pending_action,
            metrics: None,
        };
        proof {
            assert(ns@ == spec_scanned_session(obs, tool@.command_name, now_ms));
            if obs.pane@.pane_command != "zsh"@ && spec_title_idle(obs.pane@.pane_title) {
                match &obs.transcript {
                    Some(t) => {
                        crate::transcript::lemma_detect_pending_iff_waiting(
                            entry_models(t.entries@),
                            t.age_secs,
                        );
                    },
                    None => {},
                }
            }
            assert(session_wf(ns@));
        }
        let out_session = if changed {
            Some(ns.clone())
        } else {
            None
        };
        self.upsert(ns);
        ScanOutcome { changed, session: out_session }
    }
}

/// True when some string of the row equals `x`.
pub open spec fn seq_has_str(vs: Seq<Seq<char>>, x: Seq<char>) -> bool {
    exists|j: int| 0 <= j < vs.len() && vs[j] == x
}

fn contains_string(v: &Vec<String>, x: &str) -> (r: bool)
    ensures
        r == seq_has_str(views_of(v@), x@),
{
    let mut i: usize = 0;
    while i < v.len()
        invariant
            i <= v@.len(),
            forall|k: int| 0 <= k < i ==> #[trigger] views_of(v@)[k] != x@,
        decreases v@.len() - i,
    {
        proof {
            assert(views_of(v@)[i as int] == v@[i as int]@);
        }
        if str_eq(v[i].as_str(), x) {
            proof {
                assert(views_of(v@)[i as int] == x@);
            }
            return true;
        }
        i = i + 1;
    }
    false
}

/// A session survives a scan cycle unless it came from the multiplexer and
/// its pane's target was absent this cycle.
pub open spec fn spec_keep_session(s: SessionModel, found: Seq<Seq<char>>) -> bool {
    !spec_is_prefix("tmux:"@, s.id) || seq_has_str(found, s.id.skip("tmux:"@.len() as int))
}

/// The sessions left after a prune, in order.
pub open spec fn spec_prune(ss: Seq<SessionModel>, found: Seq<Seq<char>>) -> Seq<SessionModel>
    decreases ss.len(),
{
    if ss.len() == 0 {
        ss
    } else {
        let rest = spec_prune(ss.skip(1), found);
        if spec_keep_session(ss[0], found) {
            seq![ss[0]] + rest
        } else {
            rest
        }
    }
}

/// The ids a prune removes, in order.
pub open spec fn spec_pruned_ids(ss: Seq<SessionModel>, found: Seq<Seq<char>>) -> Seq<Seq<char>>
    decreases ss.len(),
{
    if ss.len() == 0 {
        Seq::<Seq<char>>::empty()
    } else {
        let rest = spec_pruned_ids(ss.skip(1), found);
        if spec_keep_session(ss[0], found) {
            rest
        } else {
            seq![ss[0].id] + rest
        }
    }
}

proof fn lemma_prune_membership(ss: Seq<SessionModel>, found: Seq<Seq<char>>)
    ensures
        forall|i: int|
            0 <= i < spec_prune(ss, found).len() ==> exists|j: int|
                0 <= j < ss.len() && ss[j] == #[trigger] spec_prune(ss, found)[i],
    decreases ss.len(),
{
    if ss.len() > 0 {
        lemma_prune_membership(ss.skip(1), found);
        let rest = spec_prune(ss.skip(1), found);
        assert(forall|j: int| 0 <= j < ss.skip(1).len() ==> ss.skip(1)[j] == ss[j + 1]);
        if spec_keep_session(ss[0], found) {
            assert forall|i: int|
                0 <= i < spec_prune(ss, found).len() implies exists|j: int|
                0 <= j < ss.len() && ss[j] == #[trigger] spec_prune(ss, found)[i] by {
                if i == 0 {
                    assert(spec_prune(ss, found)[0] == ss[0]);
                } else {
                    assert(spec_prune(ss, found)[i] == rest[i - 1]);
                    let j = choose|j: int|
                        0 <= j < ss.skip(1).len() && ss.skip(1)[j] == #[trigger] rest[i - 1];
                    assert(ss[j + 1] == spec_prune(ss, found)[i]);
                }
            }
        } else {
            assert forall|i: int|
                0 <= i < spec_prune(ss, found).len() implies exists|j: int|
                0 <= j < ss.len() && ss[j] == #[trigger] spec_prune(ss, found)[i] by {
                assert(spec_prune(ss, found)[i] == rest[i]);
                let j = choose|j: int|
                    0 <= j < ss.skip(1).len() && ss.skip(1)[j] == #[trigger] rest[i];
                assert(ss[j + 1] == spec_prune(ss, found)[i]);
            }
        }
    }
}

proof fn lemma_prune_wf(ss: Seq<SessionModel>, found: Seq<Seq<char>>)
    requires
        crate::registry::session_ids_unique(ss),
        forall|i: int| 0 <= i < ss.len() ==> session_wf(#[trigger] ss[i]),
    ensures
        crate::registry::session_ids_unique(spec_prune(ss, found)),
        forall|i: int|
            0 <= i < spec_prune(ss, found).len() ==> session_wf(#[trigger] spec_prune(ss, found)[i]),
    decreases ss.len(),
{
    lemma_prune_membership(ss, found);
    if ss.len() > 0 {
        assert(forall|j: int| 0 <= j < ss.skip(1).len() ==> ss.skip(1)[j] == ss[j + 1]);
        lemma_prune_wf(ss.skip(1), found);
        let rest = spec_prune(ss.skip(1), found);
        lemma_prune_membership(ss.skip(1), found);
        if spec_keep_session(ss[0], found) {
            let p = spec_prune(ss, found);
            assert forall|a: int, b: int| 0 <= a < b < p.len() implies p[a].id != p[b].id by {
                if a == 0 {
                    assert(p[0] == ss[0]);
                    assert(p[b] == rest[b - 1]);
                    let j = choose|j: int|
                        0 <= j < ss.skip(1).len() && ss.skip(1)[j] == #[trigger] rest[b - 1];
                    assert(ss[j + 1] == p[b]);
                    assert(ss[0].id != ss[j + 1].id);
                } else {
                    assert(p[a] == rest[a - 1]);
                    assert(p[b] == rest[b - 1]);
                }
            }
            assert forall|i: int| 0 <= i < p.len() implies session_wf(#[trigger] p[i]) by {
                if i == 0 {
                    assert(p[0] == ss[0]);
                } else {
                    assert(p[i] == rest[i - 1]);
                }
            }
        } else {
            assert forall|i: int|
                0 <= i < spec_prune(ss, found).len() implies session_wf(
                #[trigger] spec_prune(ss, found)[i],
            ) by {
                assert(spec_prune(ss, found)[i] == rest[i]);
            }
        }
    }
}

impl Registry {
    /// After a full cycle that successfully enumerated the panes, drop
    /// every multiplexer-born session whose pane was absent; sessions from
    /// other origins stay. A failed enumeration (`listing_ok == false`) is
    /// no signal: nothing is removed and the cycle retries later. Returns
    /// the removed ids, for removal events.
    pub fn prune_missing(&mut self, found_targets: &Vec<String>, listing_ok: bool) -> (removed:
        Vec<String>)
        requires
            old(self).wf(),
        ensures
            final(self).wf(),
            listing_ok ==> final(self).smodels() == spec_prune(
                old(self).smodels(),
                views_of(found_targets@),
            ) && views_of(removed@) == spec_pruned_ids(
                old(self).smodels(),
                views_of(found_targets@),
            ),
            !listing_ok ==> final(self).smodels() == old(self).smodels() && removed@.len() == 0,
            final(self).hook_marks@ == old(self).hook_marks@,
            final(self).stop_marks@ == old(self).stop_marks@,
            final(self).notify_marks@ == old(self).notify_marks@,
            final(self).log_models() == old(self).log_models(),
    {
        if !listing_ok {
            return Vec::new();
        }
        let ghost ss0 = self.smodels();
        let ghost fnd = views_of(found_targets@);
        let mut kept: Vec<C3Session> = Vec::new();
        let mut removed: Vec<String> = Vec::new();
        let mut i: usize = 0;
        proof {
            assert(ss0.skip(0) =~= ss0);
            assert(spec_prune(ss0, fnd) =~= smodels_of(kept@) + spec_prune(ss0.skip(0), fnd));
            assert(spec_pruned_ids(ss0, fnd) =~= views_of(removed@) + spec_pruned_ids(
                ss0.skip(0),
                fnd,
            ));
        }
        while i < self.sessions.len()
            invariant
                i <= self.sessions@.len(),
                self == old(self),
                old(self).wf(),
                ss0 == self.smodels(),
                fnd == views_of(found_targets@),
                spec_prune(ss0, fnd) =~= smodels_of(kept@) + spec_prune(ss0.skip(i as int), fnd),
                spec_pruned_ids(ss0, fnd) =~= views_of(removed@) + spec_pruned_ids(
                    ss0.skip(i as int),
                    fnd,
                ),
            decreases self.sessions@.len() - i,
        {
            let s = &self.sessions[i];
            let keep: bool = if starts_with(s.id.as_str(), "tmux:") {
                let n = s.id.as_str().unicode_len();
                let p = "tmux:".unicode_len();
                let target = s.id.as_str().substring_char(p, n);
                proof {
                    assert(s.id@.subrange("tmux:"@.len() as int, s.id@.len() as int) =~= s.id@.skip(
                        "tmux:"@.len() as int,
                    ));
                }
                contains_string(found_targets, target)
            } else {
                true
            };
            proof {
                assert(ss0[i as int] == self.sessions@[i as int]@);
                assert(keep == spec_keep_session(ss0[i as int], fnd));
                assert(ss0.skip(i as int)[0] == ss0[i as int]);
                assert(ss0.skip(i as int).skip(1) =~= ss0.skip(i + 1 as int));
            }
            if keep {
                let ghost oldk = kept@;
                let c = s.clone();
                let ghost cm = c@;
                kept.push(c);
                proof {
                    assert(cm == ss0[i as int]);
                    assert forall|j: int| 0 <= j < kept@.len() implies smodels_of(kept@)[j]
                        == smodels_of(oldk).push(cm)[j] by {
                        if j < oldk.len() {
                            assert(kept@[j] == oldk[j]);
                        } else {
                            assert(kept@[j]@ == cm);
                        }
                    }
                    assert(smodels_of(kept@) =~= smodels_of(oldk).push(cm));
                    assert(spec_prune(ss0.skip(i as int), fnd) =~= seq![ss0[i as int]]
                        + spec_prune(ss0.skip(i + 1 as int), fnd));
                    assert(spec_prune(ss0, fnd) =~= smodels_of(kept@) + spec_prune(
                        ss0.skip(i + 1 as int),
                        fnd,
                    ));
                    assert(spec_pruned_ids(ss0.skip(i as int), fnd) =~= spec_pruned_ids(
                        ss0.skip(i + 1 as int),
                        fnd,
                    ));
                }
            } else {
                let ghost oldr = removed@;
                let c = s.id.clone();
                let ghost cm = c@;
                removed.push(c);
                proof {
                    assert(cm == ss0[i as int].id);
                    assert forall|j: int| 0 <= j < removed@.len() implies views_of(removed@)[j]
                        == views_of(oldr).push(cm)[j] by {
                        if j < oldr.len() {
                            assert(removed@[j] == oldr[j]);
                        } else {
                            assert(removed@[j]@ == cm);
                        }
                    }
                    assert(views_of(removed@) =~= views_of(oldr).push(cm));
                    assert(spec_pruned_ids(ss0.skip(i as int), fnd) =~= seq![ss0[i as int].id]
                        + spec_pruned_ids(ss0.skip(i + 1 as int), fnd));
                    assert(spec_pruned_ids(ss0, fnd) =~= views_of(removed@) + spec_pruned_ids(
                        ss0.skip(i + 1 as int),
                        fnd,
                    ));
                    assert(spec_prune(ss0.skip(i as int), fnd) =~= spec_prune(
                        ss0.skip(i + 1 as int),
                        fnd,
                    ));
                }
            }
            i = i + 1;
        }
        proof {
            assert(ss0.skip(i as int) =~= Seq::<SessionModel>::empty());
            assert(spec_prune(ss0.skip(i as int), fnd) =~= Seq::<SessionModel>::empty());
            assert(spec_pruned_ids(ss0.skip(i as int), fnd) =~= Seq::<Seq<char>>::empty());
            assert(spec_prune(ss0, fnd) =~= smodels_of(kept@));
            assert(spec_pruned_ids(ss0, fnd) =~= views_of(removed@));
            lemma_prune_wf(ss0, fnd);
        }
        self.sessions = kept;
        removed
    }
}

} // verus!

verus! {

/// Split a multiplexer target `session:window.pane` into its parts; the
/// window and pane default to `0` when absent, anything but exactly one
/// `:` is malformed.
pub fn parse_tmux_target(t: &str) -> (r: Option<(String, String, String)>)
    ensures
        ({
            let ps = spec_split(t@, ':');
            match r {
                Some(x) => {
                    let wp = spec_split(ps[1], '.');
                    &&& ps.len() == 2
                    &&& x.0@ == ps[0]
                    &&& x.1@ == wp[0]
                    &&& x.2@ == if wp.len() >= 2 {
                        wp[1]
                    } else {
                        "0"@
                    }
                },
                None => ps.len() != 2,
            }
        }),
{
    let parts = split_char(t, ':');
    if parts.len() != 2 {
        return None;
    }
    let wp = split_char(parts[1].as_str(), '.');
    proof {
        assert(views_of(parts@)[0] == parts@[0]@);
        assert(views_of(parts@)[1] == parts@[1]@);
        assert(views_of(wp@)[0] == wp@[0]@);
        if wp@.len() >= 2 {
            assert(views_of(wp@)[1] == wp@[1]@);
        }
    }
    let session = parts[0].clone();
    let window = wp[0].clone();
    let pane = if wp.len() >= 2 {
        wp[1].clone()
    } else {
        String::from_str("0")
    };
    Some((session, window, pane))
}

/// The name of the first attached session in a `name:attached` listing, or
/// `0` when none is attached.
pub open spec fn spec_attached_session(ls: Seq<Seq<char>>) -> Seq<char>
    decreases ls.len(),
{
    if ls.len() == 0 {
        "0"@
    } else if spec_is_suffix(":1"@, ls[0]) {
        spec_split(ls[0], ':')[0]
    } else {
        spec_attached_session(ls.skip(1))
    }
}

proof fn lemma_attached_skip(ls: Seq<Seq<char>>, i: int)
    requires
        0 <= i <= ls.len(),
        forall|k: int| 0 <= k < i ==> !spec_is_suffix(":1"@, #[trigger] ls[k]),
    ensures
        spec_attached_session(ls) == spec_attached_session(ls.skip(i)),
    decreases i,
{
    if i == 0 {
        assert(ls.skip(0) =~= ls);
    } else {
        lemma_attached_skip(ls.skip(1), i - 1);
        assert(forall|k: int| 0 <= k < ls.skip(1).len() ==> ls.skip(1)[k] == ls[k + 1]);
        assert(ls.skip(1).skip(i - 1) =~= ls.skip(i));
    }
}

/// Executable form of [`spec_attached_session`].
pub fn pick_attached_session(lines: &Vec<String>) -> (r: String)
    ensures
        r@ == spec_attached_session(views_of(lines@)),
{
    let ghost ls = views_of(lines@);
    let mut i: usize = 0;
    while i < lines.len()
        invariant
            i <= lines@.len(),
            ls == views_of(lines@),
            forall|k: int| 0 <= k < i ==> !spec_is_suffix(":1"@, #[trigger] ls[k]),
        decreases lines@.len() - i,
    {
        proof {
            assert(ls[i as int] == lines@[i as int]@);
        }
        if ends_with(lines[i].as_str(), ":1") {
            let parts = split_char(lines[i].as_str(), ':');
            proof {
                lemma_attached_skip(ls, i as int);
                assert(ls.skip(i as int)[0] == ls[i as int]);
                assert(views_of(parts@)[0] == parts@[0]@);
            }
            return parts[0].clone();
        }
        i = i + 1;
    }
    proof {
        lemma_attached_skip(ls, i as int);
        assert(ls.skip(i as int) =~= Seq::<Seq<char>>::empty());
    }
    String::from_str("0")
}

} // verus!
