//! The transcript reader: classifying the trailing records of a
//! conversation log into a best-guess session state. The log is an
//! externally-owned, semi-structured format; classification is a pure
//! function over a bounded window of already-parsed records, so ties favor
//! "still processing" except where staleness thresholds say otherwise.

use vstd::prelude::*;
use vstd::string::StrSliceExecFns;

use crate::hook::make_input_pending;
use crate::hook::make_permission_pending;
use crate::hook::spec_pending_input;
use crate::hook::spec_pending_permission;
use crate::jsonio::json_as_array;
use crate::jsonio::json_as_bool;
use crate::jsonio::json_as_str;
use crate::jsonio::json_get;
use crate::jsonio::json_parse;
use crate::jsonio::parse_timestamp_ms;
use crate::jsonio::spec_parse_timestamp_ms;
use crate::settings::view_opt;
use crate::state::PendingAction;
use crate::state::PendingActionModel;
use crate::state::SessionState;
use crate::strutil::spec_contains_seq;
use crate::strutil::spec_is_prefix;
use crate::strutil::contains_str;
use crate::strutil::starts_with;
use crate::strutil::str_eq;

verus! {

/// Seconds of file silence after which a trailing user turn or an empty
/// window means the agent is waiting for input.
pub const INPUT_STALE_SECS: u64 = 15;

/// Seconds of file silence after which a trailing tool-use turn means the
/// agent is waiting for permission.
pub const PERMISSION_STALE_SECS: u64 = 5;

/// One content block of a transcript record, reduced to what the
/// classification reads: its type tag, its text, and for a tool use its
/// tool name and command text.
#[derive(Debug)]
pub struct ContentBlock {
    pub block_type: String,
    pub text: Option<String>,
    pub tool_name: Option<String>,
    pub tool_command: Option<String>,
}

/// Mathematical image of a [`ContentBlock`].
pub struct ContentBlockModel {
    pub block_type: Seq<char>,
    pub text: Option<Seq<char>>,
    pub tool_name: Option<Seq<char>>,
    pub tool_command: Option<Seq<char>>,
}

impl View for ContentBlock {
    type V = ContentBlockModel;

    open spec fn view(&self) -> ContentBlockModel {
        ContentBlockModel {
            block_type: self.block_type@,
            text: match self.text {
                Some(t) => Some(t@),
                None => None,
            },
            tool_name: match self.tool_name {
                Some(t) => Some(t@),
                None => None,
            },
            tool_command: match self.tool_command {
                Some(t) => Some(t@),
                None => None,
            },
        }
    }
}

/// The views of a row of content blocks.
pub open spec fn block_models(bs: Seq<ContentBlock>) -> Seq<ContentBlockModel> {
    bs.map_values(|b: ContentBlock| b@)
}

/// The message content of a transcript record: absent, a bare string, or a
/// list of blocks.
#[derive(Debug)]
pub enum TranscriptContent {
    Absent,
    Text(String),
    Blocks(Vec<ContentBlock>),
}

/// Mathematical image of a [`TranscriptContent`].
pub enum TranscriptContentModel {
    Absent,
    Text(Seq<char>),
    Blocks(Seq<ContentBlockModel>),
}

impl View for TranscriptContent {
    type V = TranscriptContentModel;

    open spec fn view(&self) -> TranscriptContentModel {
        match self {
            TranscriptContent::Absent => TranscriptContentModel::Absent,
            TranscriptContent::Text(t) => TranscriptContentModel::Text(t@),
            TranscriptContent::Blocks(bs) => TranscriptContentModel::Blocks(block_models(bs@)),
        }
    }
}

/// One transcript record, reduced to what the classification reads. The
/// three timestamp fields are the texts found at the record's top level,
/// inside its message, and inside its progress payload.
#[derive(Debug)]
pub struct TranscriptEntry {
    pub entry_type: String,
    pub is_meta: bool,
    pub role: String,
    pub content: TranscriptContent,
    pub timestamp: Option<String>,
    pub message_timestamp: Option<String>,
    pub data_timestamp: Option<String>,
}

/// Mathematical image of a [`TranscriptEntry`].
pub struct TranscriptEntryModel {
    pub entry_type: Seq<char>,
    pub is_meta: bool,
    pub role: Seq<char>,
    pub content: TranscriptContentModel,
    pub timestamp: Option<Seq<char>>,
    pub message_timestamp: Option<Seq<char>>,
    pub data_timestamp: Option<Seq<char>>,
}

impl View for TranscriptEntry {
    type V = TranscriptEntryModel;

    open spec fn view(&self) -> TranscriptEntryModel {
        TranscriptEntryModel {
            entry_type: self.entry_type@,
            is_meta: self.is_meta,
            role: self.role@,
            content: self.content@,
            timestamp: match self.timestamp {
                Some(t) => Some(t@),
                None => None,
            },
            message_timestamp: match self.message_timestamp {
                Some(t) => Some(t@),
                None => None,
            },
            data_timestamp: match self.data_timestamp {
                Some(t) => Some(t@),
                None => None,
            },
        }
    }
}

/// The views of a row of transcript entries.
pub open spec fn entry_models(es: Seq<TranscriptEntry>) -> Seq<TranscriptEntryModel> {
    es.map_values(|e: TranscriptEntry| e@)
}

/// Bookkeeping record types that never carry conversation turns.
pub open spec fn spec_is_noise_type(t: Seq<char>) -> bool {
    t == "progress"@ || t == "system"@ || t == "file-history-snapshot"@ || t == "summary"@
}

/// Synthetic user text written by the tool itself, not by the user.
pub open spec fn spec_internal_user_text(s: Seq<char>) -> bool {
    spec_is_prefix("<local-command-caveat>"@, s) || spec_is_prefix("<bash-input>"@, s)
        || spec_is_prefix("<bash-stdout>"@, s) || spec_is_prefix("<bash-stderr>"@, s) || s
        == "[Request interrupted by user]"@
}

/// Some block of the row records an explicit interruption.
pub open spec fn spec_has_interrupt(bs: Seq<ContentBlockModel>) -> bool {
    exists|i: int| 0 <= i < bs.len() && spec_block_is_interrupt(#[trigger] bs[i])
}

/// A text block that records an explicit interruption.
pub open spec fn spec_block_is_interrupt(b: ContentBlockModel) -> bool {
    b.block_type == "text"@ && match b.text {
        Some(t) => spec_contains_seq(t, "[Request interrupted by user]"@),
        None => false,
    }
}

/// A real conversation turn: a user or assistant record with a matching
/// role, not bookkeeping, not metadata, not a synthetic or interrupted
/// user entry.
pub open spec fn spec_is_conversation(e: TranscriptEntryModel) -> bool {
    &&& !spec_is_noise_type(e.entry_type)
    &&& !e.is_meta
    &&& !(e.entry_type == "user"@ && match e.content {
        TranscriptContentModel::Text(t) => spec_internal_user_text(t),
        _ => false,
    })
    &&& !(e.entry_type == "user"@ && match e.content {
        TranscriptContentModel::Blocks(bs) => spec_has_interrupt(bs),
        _ => false,
    })
    &&& ((e.entry_type == "user"@ && e.role == "user"@) || (e.entry_type == "assistant"@ && e.role
        == "assistant"@))
}

/// Executable form of [`spec_is_conversation`].
pub fn is_conversation_message(e: &TranscriptEntry) -> (r: bool)
    ensures
        r == spec_is_conversation(e@),
{
    let t = e.entry_type.as_str();
    if str_eq(t, "progress") || str_eq(t, "system") || str_eq(t, "file-history-snapshot")
        || str_eq(t, "summary") {
        return false;
    }
    if e.is_meta {
        return false;
    }
    if str_eq(t, "user") {
        match &e.content {
            TranscriptContent::Text(s) => {
                if starts_with(s.as_str(), "<local-command-caveat>") || starts_with(
                    s.as_str(),
                    "<bash-input>",
                ) || starts_with(s.as_str(), "<bash-stdout>") || starts_with(
                    s.as_str(),
                    "<bash-stderr>",
                ) || str_eq(s.as_str(), "[Request interrupted by user]") {
                    return false;
                }
            },
            TranscriptContent::Blocks(bs) => {
                if has_interrupt_block(bs) {
                    return false;
                }
            },
            TranscriptContent::Absent => {},
        }
    }
    (str_eq(t, "user") && str_eq(e.role.as_str(), "user")) || (str_eq(t, "assistant") && str_eq(
        e.role.as_str(),
        "assistant",
    ))
}

fn has_interrupt_block(bs: &Vec<ContentBlock>) -> (r: bool)
    ensures
        r == spec_has_interrupt(block_models(bs@)),
{
    let mut i: usize = 0;
    while i < bs.len()
        invariant
            i <= bs@.len(),
            forall|k: int| 0 <= k < i ==> !spec_block_is_interrupt(#[trigger] block_models(bs@)[k]),
        decreases bs@.len() - i,
    {
        let b = &bs[i];
        let is_interrupt = str_eq(b.block_type.as_str(), "text") && match &b.text {
            Some(t) => contains_str(t.as_str(), "[Request interrupted by user]"),
            None => false,
        };
        proof {
            assert(block_models(bs@)[i as int] == bs@[i as int]@);
        }
        if is_interrupt {
            proof {
                assert(spec_block_is_interrupt(block_models(bs@)[i as int]));
            }
            return true;
        }
        i = i + 1;
    }
    false
}

/// True when some block carries the given type tag.
pub open spec fn spec_has_block(bs: Seq<ContentBlockModel>, t: Seq<char>) -> bool {
    exists|i: int| 0 <= i < bs.len() && #[trigger] bs[i].block_type == t
}

fn has_block_type(bs: &Vec<ContentBlock>, t: &str) -> (r: bool)
    ensures
        r == spec_has_block(block_models(bs@), t@),
{
    let mut i: usize = 0;
    while i < bs.len()
        invariant
            i <= bs@.len(),
            forall|k: int| 0 <= k < i ==> #[trigger] block_models(bs@)[k].block_type != t@,
        decreases bs@.len() - i,
    {
        proof {
            assert(block_models(bs@)[i as int] == bs@[i as int]@);
        }
        if str_eq(bs[i].block_type.as_str(), t) {
            proof {
                assert(block_models(bs@)[i as int].block_type == t@);
            }
            return true;
        }
        i = i + 1;
    }
    false
}

/// The last tool-use block of a record, whose name and command feed the
/// pending action.
pub open spec fn spec_last_tool_use(bs: Seq<ContentBlockModel>) -> Option<ContentBlockModel>
    decreases bs.len(),
{
    if bs.len() == 0 {
        None
    } else if bs[bs.len() - 1].block_type == "tool_use"@ {
        Some(bs[bs.len() - 1])
    } else {
        spec_last_tool_use(bs.take(bs.len() - 1))
    }
}

fn last_tool_use(bs: &Vec<ContentBlock>) -> (r: Option<usize>)
    ensures
        match r {
            Some(i) => i < bs@.len() && spec_last_tool_use(block_models(bs@)) == Some(
                block_models(bs@)[i as int],
            ),
            None => spec_last_tool_use(block_models(bs@)) is None,
        },
{
    let ghost bm = block_models(bs@);
    let mut k: usize = bs.len();
    proof {
        assert(bm.take(k as int) =~= bm);
    }
    while k > 0
        invariant
            k <= bs@.len(),
            bm == block_models(bs@),
            spec_last_tool_use(bm) == spec_last_tool_use(bm.take(k as int)),
        decreases k,
    {
        proof {
            assert(bm.take(k as int)[k - 1] == bm[k - 1]);
            assert(bm[k - 1] == bs@[k - 1]@);
        }
        if str_eq(bs[k - 1].block_type.as_str(), "tool_use") {
            return Some(k - 1);
        }
        proof {
            assert(bm.take(k as int).take(k - 1 as int) =~= bm.take(k - 1 as int));
        }
        k = k - 1;
    }
    proof {
        assert(bm.take(0) =~= Seq::<ContentBlockModel>::empty());
    }
    None
}

/// Parsed timestamp of one record, by priority: the top-level text, then
/// the message's, then the progress payload's; an unparseable text falls
/// through to the next location.
pub open spec fn spec_ts_of(o: Option<Seq<char>>) -> Option<i64> {
    match o {
        Some(s) => spec_parse_timestamp_ms(s),
        None => None,
    }
}

pub open spec fn spec_entry_timestamp(e: TranscriptEntryModel) -> Option<i64> {
    if spec_ts_of(e.timestamp) is Some {
        spec_ts_of(e.timestamp)
    } else if spec_ts_of(e.message_timestamp) is Some {
        spec_ts_of(e.message_timestamp)
    } else {
        spec_ts_of(e.data_timestamp)
    }
}

/// Executable form of [`spec_entry_timestamp`].
pub fn extract_message_timestamp(e: &TranscriptEntry) -> (r: Option<i64>)
    ensures
        r == spec_entry_timestamp(e@),
{
    if let Some(ts) = &e.timestamp {
        if let Some(t) = parse_timestamp_ms(ts.as_str()) {
            return Some(t);
        }
    }
    if let Some(ts) = &e.message_timestamp {
        if let Some(t) = parse_timestamp_ms(ts.as_str()) {
            return Some(t);
        }
    }
    if let Some(ts) = &e.data_timestamp {
        if let Some(t) = parse_timestamp_ms(ts.as_str()) {
            return Some(t);
        }
    }
    None
}

/// The newest timestamp found anywhere in the window: the maximum over all
/// records carrying one, `None` when none does.
pub open spec fn spec_latest_timestamp(es: Seq<TranscriptEntryModel>) -> Option<i64>
    decreases es.len(),
{
    if es.len() == 0 {
        None
    } else {
        let rest = spec_latest_timestamp(es.take(es.len() - 1));
        match spec_entry_timestamp(es[es.len() - 1]) {
            Some(t) => match rest {
                Some(r) => if r >= t {
                    Some(r)
                } else {
                    Some(t)
                },
                None => Some(t),
            },
            None => rest,
        }
    }
}

/// Executable form of [`spec_latest_timestamp`].
pub fn latest_timestamp(entries: &Vec<TranscriptEntry>) -> (r: Option<i64>)
    ensures
        r == spec_latest_timestamp(entry_models(entries@)),
{
    let ghost em = entry_models(entries@);
    let mut best: Option<i64> = None;
    let mut k: usize = 0;
    proof {
        assert(em.take(0) =~= Seq::<TranscriptEntryModel>::empty());
    }
    while k < entries.len()
        invariant
            k <= entries@.len(),
            em == entry_models(entries@),
            best == spec_latest_timestamp(em.take(k as int)),
        decreases entries@.len() - k,
    {
        proof {
            assert(em.take(k + 1 as int)[k as int] == em[k as int]);
            assert(em[k as int] == entries@[k as int]@);
            assert(em.take(k + 1 as int).take(k as int) =~= em.take(k as int));
        }
        if let Some(t) = extract_message_timestamp(&entries[k]) {
            best = match best {
                Some(b) => {
                    if b >= t {
                        Some(b)
                    } else {
                        Some(t)
                    }
                },
                None => Some(t),
            };
        }
        k = k + 1;
    }
    proof {
        assert(em.take(entries@.len() as int) =~= em);
    }
    best
}

/// What one conversation turn says about the session, or `None` when the
/// turn is inconclusive and the scan moves to the previous one.
pub open spec fn spec_entry_decision(e: TranscriptEntryModel, age_secs: u64) -> Option<
    (SessionState, Option<PendingActionModel>),
> {
    if e.entry_type == "user"@ {
        if (match e.content {
            TranscriptContentModel::Blocks(bs) => spec_has_block(bs, "tool_result"@),
            _ => false,
        }) {
            // a tool result continues an ongoing tool chain
            Some((SessionState::Processing, None))
        } else if age_secs > INPUT_STALE_SECS {
            // a stale real user message was already answered
            Some((SessionState::AwaitingInput, Some(spec_pending_input())))
        } else {
            Some((SessionState::Processing, None))
        }
    } else {
        match e.content {
            TranscriptContentModel::Blocks(bs) => {
                if spec_has_block(bs, "tool_use"@) {
                    if age_secs > PERMISSION_STALE_SECS {
                        let lt = spec_last_tool_use(bs).unwrap();
                        Some(
                            (
                                SessionState::AwaitingPermission,
                                Some(spec_pending_permission(lt.tool_name, lt.tool_command)),
                            ),
                        )
                    } else {
                        Some((SessionState::Processing, None))
                    }
                } else if spec_has_block(bs, "text"@) {
                    Some((SessionState::AwaitingInput, Some(spec_pending_input())))
                } else if spec_has_block(bs, "thinking"@) {
                    Some((SessionState::Processing, None))
                } else {
                    None
                }
            },
            TranscriptContentModel::Text(_) => Some(
                (SessionState::AwaitingInput, Some(spec_pending_input())),
            ),
            TranscriptContentModel::Absent => None,
        }
    }
}

fn classify_entry(e: &TranscriptEntry, age_secs: u64) -> (r: Option<
    (SessionState, Option<PendingAction>),
>)
    requires
        spec_is_conversation(e@),
    ensures
        match r {
            Some(d) => spec_entry_decision(e@, age_secs) == Some(
                (
                    d.0,
                    match d.1 {
                        Some(p) => Some(p@),
                        None => None,
                    },
                ),
            ),
            None => spec_entry_decision(e@, age_secs) is None,
        },
{
    if str_eq(e.entry_type.as_str(), "user") {
        let has_tool_result = match &e.content {
            TranscriptContent::Blocks(bs) => has_block_type(bs, "tool_result"),
            _ => false,
        };
        if has_tool_result {
            Some((SessionState::Processing, None))
        } else if age_secs > INPUT_STALE_SECS {
            Some((SessionState::AwaitingInput, Some(make_input_pending())))
        } else {
            Some((SessionState::Processing, None))
        }
    } else {
        match &e.content {
            TranscriptContent::Blocks(bs) => {
                if has_block_type(bs, "tool_use") {
                    if age_secs > PERMISSION_STALE_SECS {
                        let lt = last_tool_use(bs);
                        match lt {
                            Some(i) => {
                                let pending = make_permission_pending(
                                    &bs[i].tool_name,
                                    &bs[i].tool_command,
                                );
                                Some((SessionState::AwaitingPermission, Some(pending)))
                            },
                            None => {
                                // unreachable: a tool_use block exists
                                proof {
                                    lemma_last_tool_use_some(block_models(bs@));
                                }
                                Some((SessionState::Processing, None))
                            },
                        }
                    } else {
                        Some((SessionState::Processing, None))
                    }
                } else if has_block_type(bs, "text") {
                    Some((SessionState::AwaitingInput, Some(make_input_pending())))
                } else if has_block_type(bs, "thinking") {
                    Some((SessionState::Processing, None))
                } else {
                    None
                }
            },
            TranscriptContent::Text(_) => Some(
                (SessionState::AwaitingInput, Some(make_input_pending())),
            ),
            TranscriptContent::Absent => None,
        }
    }
}

proof fn lemma_last_tool_use_some(bs: Seq<ContentBlockModel>)
    requires
        spec_has_block(bs, "tool_use"@),
    ensures
        spec_last_tool_use(bs) is Some,
        spec_last_tool_use(bs).unwrap().block_type == "tool_use"@,
    decreases bs.len(),
{
    if bs.len() > 0 {
        if bs[bs.len() - 1].block_type == "tool_use"@ {
        } else {
            let i = choose|i: int| 0 <= i < bs.len() && #[trigger] bs[i].block_type == "tool_use"@;
            assert(bs.take(bs.len() - 1)[i] == bs[i]);
            assert(spec_has_block(bs.take(bs.len() - 1), "tool_use"@));
            lemma_last_tool_use_some(bs.take(bs.len() - 1));
        }
    }
}

/// State, pending action and newest message time derived from one
/// transcript window.
#[derive(Debug)]
pub struct ConversationState {
    pub state: SessionState,
    pub pending_action: Option<PendingAction>,
    pub last_message_time: Option<i64>,
}

/// Mathematical image of a [`ConversationState`].
pub struct ConversationStateModel {
    pub state: SessionState,
    pub pending_action: Option<PendingActionModel>,
    pub last_message_time: Option<i64>,
}

impl View for ConversationState {
    type V = ConversationStateModel;

    open spec fn view(&self) -> ConversationStateModel {
        ConversationStateModel {
            state: self.state,
            pending_action: match self.pending_action {
                Some(p) => Some(p@),
                None => None,
            },
            last_message_time: self.last_message_time,
        }
    }
}

/// Scanning backward for the most recent conclusive conversation turn; a
/// window without one falls back to the staleness rule.
pub open spec fn spec_detect(es: Seq<TranscriptEntryModel>, age_secs: u64) -> (
    SessionState,
    Option<PendingActionModel>,
)
    decreases es.len(),
{
    if es.len() == 0 {
        if age_secs > INPUT_STALE_SECS {
            (SessionState::AwaitingInput, Some(spec_pending_input()))
        } else {
            (SessionState::Processing, None)
        }
    } else {
        let e = es[es.len() - 1];
        if spec_is_conversation(e) {
            match spec_entry_decision(e, age_secs) {
                Some(d) => d,
                None => spec_detect(es.take(es.len() - 1), age_secs),
            }
        } else {
            spec_detect(es.take(es.len() - 1), age_secs)
        }
    }
}

/// The full result of reading one transcript window. A window read from no
/// lines at all gives no inference; the pending action accompanies exactly
/// the two waiting states.
pub open spec fn spec_conversation_state(
    es: Seq<TranscriptEntryModel>,
    age_secs: u64,
    had_lines: bool,
) -> ConversationStateModel {
    if !had_lines {
        ConversationStateModel {
            state: SessionState::Processing,
            pending_action: None,
            last_message_time: None,
        }
    } else {
        let d = spec_detect(es, age_secs);
        ConversationStateModel {
            state: d.0,
            pending_action: d.1,
            last_message_time: spec_latest_timestamp(es),
        }
    }
}

/// Classify one transcript window: `entries` are the parsed trailing
/// records in file order, `age_secs` the file's age, `had_lines` whether
/// the window had any lines at all (parsed or not).
pub fn detect_state_from_entries(
    entries: &Vec<TranscriptEntry>,
    age_secs: u64,
    had_lines: bool,
) -> (r: ConversationState)
    ensures
        r@ == spec_conversation_state(entry_models(entries@), age_secs, had_lines),
{
    if !had_lines {
        return ConversationState {
            state: SessionState::Processing,
            pending_action: None,
            last_message_time: None,
        };
    }
    let time = latest_timestamp(entries);
    let ghost em = entry_models(entries@);
    let mut k: usize = entries.len();
    proof {
        assert(em.take(k as int) =~= em);
    }
    while k > 0
        invariant
            k <= entries@.len(),
            em == entry_models(entries@),
            had_lines,
            time == spec_latest_timestamp(em),
            spec_detect(em, age_secs) == spec_detect(em.take(k as int), age_secs),
        decreases k,
    {
        proof {
            assert(em.take(k as int)[k - 1] == em[k - 1]);
            assert(em[k - 1] == entries@[k - 1]@);
            assert(em.take(k as int).take(k - 1 as int) =~= em.take(k - 1 as int));
        }
        let e = &entries[k - 1];
        if is_conversation_message(e) {
            match classify_entry(e, age_secs) {
                Some(d) => {
                    return ConversationState {
                        state: d.0,
                        pending_action: d.1,
                        last_message_time: time,
                    };
                },
                None => {},
            }
        }
        k = k - 1;
    }
    proof {
        assert(em.take(0) =~= Seq::<TranscriptEntryModel>::empty());
    }
    if age_secs > INPUT_STALE_SECS {
        ConversationState {
            state: SessionState::AwaitingInput,
            pending_action: Some(make_input_pending()),
            last_message_time: time,
        }
    } else {
        ConversationState {
            state: SessionState::Processing,
            pending_action: None,
            last_message_time: time,
        }
    }
}

/// Law: the classifier reports a pending action exactly for the two states
/// that wait on the user — whatever the window holds.
pub proof fn lemma_detect_pending_iff_waiting(es: Seq<TranscriptEntryModel>, age_secs: u64)
    ensures
        ({
            let d = spec_detect(es, age_secs);
            d.1 is Some <==> (d.0 == SessionState::AwaitingInput || d.0
                == SessionState::AwaitingPermission)
        }),
    decreases es.len(),
{
    if es.len() > 0 {
        let e = es[es.len() - 1];
        if spec_is_conversation(e) {
            match spec_entry_decision(e, age_secs) {
                Some(d) => {},
                None => {
                    lemma_detect_pending_iff_waiting(es.take(es.len() - 1), age_secs);
                },
            }
        } else {
            lemma_detect_pending_iff_waiting(es.take(es.len() - 1), age_secs);
        }
    }
}

/// Build one transcript record from a parsed JSON value; every field the
/// classifier reads is pulled out here, absent ones default to empty.
pub fn entry_of_value(v: &serde_json::Value) -> (r: TranscriptEntry) {
    let entry_type = match json_get(v, "type") {
        Some(t) => match json_as_str(t) {
            Some(s) => s,
            None => String::new(),
        },
        None => String::new(),
    };
    let is_meta = match json_get(v, "isMeta") {
        Some(m) => match json_as_bool(m) {
            Some(b) => b,
            None => false,
        },
        None => false,
    };
    let message = json_get(v, "message");
    let role = match message {
        Some(m) => match json_get(m, "role") {
            Some(rv) => match json_as_str(rv) {
                Some(s) => s,
                None => String::new(),
            },
            None => String::new(),
        },
        None => String::new(),
    };
    let content: TranscriptContent = match message {
        Some(m) => match json_get(m, "content") {
            Some(c) => {
                match json_as_str(c) {
                    Some(s) => TranscriptContent::Text(s),
                    None => match json_as_array(c) {
                        Some(arr) => {
                            let mut blocks: Vec<ContentBlock> = Vec::new();
                            let mut i: usize = 0;
                            while i < arr.len()
                                decreases arr@.len() - i,
                            {
                                blocks.push(block_of_value(&arr[i]));
                                i = i + 1;
                            }
                            TranscriptContent::Blocks(blocks)
                        },
                        None => TranscriptContent::Absent,
                    },
                }
            },
            None => TranscriptContent::Absent,
        },
        None => TranscriptContent::Absent,
    };
    let timestamp = match json_get(v, "timestamp") {
        Some(t) => json_as_str(t),
        None => None,
    };
    let message_timestamp = match message {
        Some(m) => match json_get(m, "timestamp") {
            Some(t) => json_as_str(t),
            None => None,
        },
        None => None,
    };
    let data_timestamp = match json_get(v, "data") {
        Some(d) => match json_get(d, "message") {
            Some(m) => match json_get(m, "timestamp") {
                Some(t) => json_as_str(t),
                None => None,
            },
            None => None,
        },
        None => None,
    };
    TranscriptEntry {
        entry_type,
        is_meta,
        role,
        content,
        timestamp,
        message_timestamp,
        data_timestamp,
    }
}

fn block_of_value(b: &serde_json::Value) -> (r: ContentBlock) {
    ContentBlock {
        block_type: match json_get(b, "type") {
            Some(t) => match json_as_str(t) {
                Some(s) => s,
                None => String::new(),
            },
            None => String::new(),
        },
        text: match json_get(b, "text") {
            Some(t) => json_as_str(t),
            None => None,
        },
        tool_name: match json_get(b, "name") {
            Some(n) => json_as_str(n),
            None => None,
        },
        tool_command: match json_get(b, "input") {
            Some(i) => match json_get(i, "command") {
                Some(c) => json_as_str(c),
                None => None,
            },
            None => None,
        },
    }
}

/// Parse one transcript line into a record, or nothing for a line that is
/// not JSON.
pub fn parse_transcript_line(line: &str) -> (r: Option<TranscriptEntry>) {
    match json_parse(line) {
        Some(v) => Some(entry_of_value(&v)),
        None => None,
    }
}

/// Parse a window of transcript lines, dropping the unparseable ones.
pub fn parse_transcript_lines(lines: &Vec<String>) -> (r: Vec<TranscriptEntry>) {
    let mut entries: Vec<TranscriptEntry> = Vec::new();
    let mut i: usize = 0;
    while i < lines.len()
        decreases lines@.len() - i,
    {
        match parse_transcript_line(lines[i].as_str()) {
            Some(e) => entries.push(e),
            None => {},
        }
        i = i + 1;
    }
    entries
}

/// The trailing `n` lines of a window, in order.
pub fn tail_lines(lines: Vec<String>, n: usize) -> (r: Vec<String>)
    ensures
        lines@.len() <= n ==> r@ == lines@,
        lines@.len() > n ==> r@ == lines@.skip(lines@.len() - n),
{
    if lines.len() <= n {
        proof {
            assert(lines@.skip(0) =~= lines@);
        }
        return lines;
    }
    let mut r: Vec<String> = Vec::new();
    let start = lines.len() - n;
    let mut i: usize = start;
    while i < lines.len()
        invariant
            start <= i <= lines@.len(),
            start == lines@.len() - n,
            r@ =~= lines@.subrange(start as int, i as int),
        decreases lines@.len() - i,
    {
        r.push(lines[i].clone());
        proof {
            assert(r@ =~= lines@.subrange(start as int, i + 1 as int));
        }
        i = i + 1;
    }
    proof {
        assert(lines@.subrange(start as int, lines@.len() as int) =~= lines@.skip(start as int));
    }
    r
}

} // verus!
