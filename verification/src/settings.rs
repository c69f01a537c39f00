//! Application settings, per-session metadata (tags, pins), and the pure
//! parts of environment probing: which terminal to prefer, where the
//! configuration files live, which sound file a name resolves to.

use vstd::prelude::*;
use vstd::string::StrSliceExecFns;
use vstd::string::StringExecFns;

use crate::strutil::spec_is_prefix;
use crate::strutil::starts_with;
use crate::strutil::str_eq;
use crate::strutil::views_of;

verus! {

/// Identity of the tracked agent tool, injected by the embedding
/// application: the library fixes no tool of its own. The fields name the
/// substring that marks a pane's foreground command as the tool, the marker
/// the tool writes into pane titles, the directory under the user's home
/// that holds its per-project transcripts, and the name shown to the user
/// in notifications.
#[derive(Debug)]
pub struct ToolIdentity {
    pub command_name: String,
    pub title_name: String,
    pub transcripts_dir: String,
    pub display_name: String,
}

/// Mathematical image of a [`ToolIdentity`].
pub struct ToolIdentityModel {
    pub command_name: Seq<char>,
    pub title_name: Seq<char>,
    pub transcripts_dir: Seq<char>,
    pub display_name: Seq<char>,
}

impl View for ToolIdentity {
    type V = ToolIdentityModel;

    open spec fn view(&self) -> ToolIdentityModel {
        ToolIdentityModel {
            command_name: self.command_name@,
            title_name: self.title_name@,
            transcripts_dir: self.transcripts_dir@,
            display_name: self.display_name@,
        }
    }
}

impl Clone for ToolIdentity {
    fn clone(&self) -> (r: Self)
        ensures
            r@ == self@,
    {
        ToolIdentity {
            command_name: self.command_name.clone(),
            title_name: self.title_name.clone(),
            transcripts_dir: self.transcripts_dir.clone(),
            display_name: self.display_name.clone(),
        }
    }
}

/// Sound choice for one notification category. `None` means the default
/// sound; a name is a system sound; a path starting with `/` is a file.
#[derive(Debug)]
pub struct SoundConfig {
    pub enabled: bool,
    pub sound: Option<String>,
}

/// Mathematical image of a [`SoundConfig`].
pub struct SoundConfigModel {
    pub enabled: bool,
    pub sound: Option<Seq<char>>,
}

impl View for SoundConfig {
    type V = SoundConfigModel;

    open spec fn view(&self) -> SoundConfigModel {
        SoundConfigModel {
            enabled: self.enabled,
            sound: match self.sound {
                Some(s) => Some(s@),
                None => None,
            },
        }
    }
}

impl Clone for SoundConfig {
    fn clone(&self) -> (r: Self)
        ensures
            r@ == self@,
    {
        SoundConfig {
            enabled: self.enabled,
            sound: match &self.sound {
                Some(s) => Some(s.clone()),
                None => None,
            },
        }
    }
}

impl Default for SoundConfig {
    /// Enabled, with the default sound.
    fn default() -> (r: Self)
        ensures
            r@.enabled == true,
            r@.sound is None,
    {
        SoundConfig { enabled: true, sound: None }
    }
}

pub fn default_terminal() -> (r: String)
    ensures
        r@ == "auto"@,
{
    String::from_str("auto")
}

pub fn default_true() -> (r: bool)
    ensures
        r == true,
{
    true
}

/// User-facing settings: preferred terminal application, whether
/// notifications are delivered, and a sound per notification category.
#[derive(Debug)]
pub struct AppSettings {
    pub terminal_app: String,
    pub notifications_enabled: bool,
    pub permission_sound: SoundConfig,
    pub input_sound: SoundConfig,
    pub complete_sound: SoundConfig,
}

/// Mathematical image of [`AppSettings`].
pub struct AppSettingsModel {
    pub terminal_app: Seq<char>,
    pub notifications_enabled: bool,
    pub permission_sound: SoundConfigModel,
    pub input_sound: SoundConfigModel,
    pub complete_sound: SoundConfigModel,
}

impl View for AppSettings {
    type V = AppSettingsModel;

    open spec fn view(&self) -> AppSettingsModel {
        AppSettingsModel {
            terminal_app: self.terminal_app@,
            notifications_enabled: self.notifications_enabled,
            permission_sound: self.permission_sound@,
            input_sound: self.input_sound@,
            complete_sound: self.complete_sound@,
        }
    }
}

impl Clone for AppSettings {
    fn clone(&self) -> (r: Self)
        ensures
            r@ == self@,
    {
        AppSettings {
            terminal_app: self.terminal_app.clone(),
            notifications_enabled: self.notifications_enabled,
            permission_sound: self.permission_sound.clone(),
            input_sound: self.input_sound.clone(),
            complete_sound: self.complete_sound.clone(),
        }
    }
}

impl Default for AppSettings {
    /// Auto-detected terminal, notifications on, completion sound off.
    fn default() -> (r: Self)
        ensures
            r@.terminal_app == "auto"@,
            r@.notifications_enabled == true,
            r@.permission_sound.enabled && r@.permission_sound.sound is None,
            r@.input_sound.enabled && r@.input_sound.sound is None,
            !r@.complete_sound.enabled && r@.complete_sound.sound is None,
    {
        AppSettings {
            terminal_app: default_terminal(),
            notifications_enabled: true,
            permission_sound: SoundConfig::default(),
            input_sound: SoundConfig::default(),
            complete_sound: SoundConfig { enabled: false, sound: None },
        }
    }
}

/// Tag and pin attached to one session, keyed by multiplexer target.
#[derive(Debug)]
pub struct SessionMeta {
    pub tag: Option<String>,
    pub pinned: bool,
}

/// Mathematical image of a [`SessionMeta`].
pub struct SessionMetaModel {
    pub tag: Option<Seq<char>>,
    pub pinned: bool,
}

impl View for SessionMeta {
    type V = SessionMetaModel;

    open spec fn view(&self) -> SessionMetaModel {
        SessionMetaModel {
            tag: match self.tag {
                Some(t) => Some(t@),
                None => None,
            },
            pinned: self.pinned,
        }
    }
}

impl Clone for SessionMeta {
    fn clone(&self) -> (r: Self)
        ensures
            r@ == self@,
    {
        SessionMeta {
            tag: match &self.tag {
                Some(t) => Some(t.clone()),
                None => None,
            },
            pinned: self.pinned,
        }
    }
}

impl Default for SessionMeta {
    /// No tag, not pinned.
    fn default() -> (r: Self)
        ensures
            r@.tag is None,
            r@.pinned == false,
    {
        SessionMeta { tag: None, pinned: false }
    }
}

/// One stored metadata entry.
#[derive(Debug)]
pub struct MetaEntry {
    pub id: String,
    pub meta: SessionMeta,
}

/// A metadata entry is worth keeping only while it says something.
pub open spec fn meta_nonempty(m: SessionMetaModel) -> bool {
    m.tag is Some || m.pinned
}

/// View of an optional string.
pub open spec fn view_opt(o: &Option<String>) -> Option<Seq<char>> {
    match o {
        Some(s) => Some(s@),
        None => None,
    }
}

/// The metadata stored for `id`, if any: first match wins.
pub open spec fn spec_meta_of(es: Seq<MetaEntry>, id: Seq<char>) -> Option<SessionMetaModel>
    decreases es.len(),
{
    if es.len() == 0 {
        None
    } else if es[0].id@ == id {
        Some(es[0].meta@)
    } else {
        spec_meta_of(es.skip(1), id)
    }
}

pub open spec fn meta_ids_unique(es: Seq<MetaEntry>) -> bool {
    forall|i: int, j: int| 0 <= i < j < es.len() ==> es[i].id@ != es[j].id@
}

/// All session metadata. Entries carry unique ids and are dropped as soon
/// as they hold neither a tag nor a pin.
#[derive(Debug)]
pub struct SessionMetaStore {
    pub sessions: Vec<MetaEntry>,
}

/// What an update writes for the touched entry: a new tag of `Some("")`
/// clears the tag; an absent field keeps the stored value.
pub open spec fn spec_meta_updated(
    prev: Option<SessionMetaModel>,
    tag: Option<Seq<char>>,
    pinned: Option<bool>,
) -> SessionMetaModel {
    let base = match prev {
        Some(m) => m,
        None => SessionMetaModel { tag: None, pinned: false },
    };
    SessionMetaModel {
        tag: match tag {
            Some(t) => if t.len() == 0 {
                None
            } else {
                Some(t)
            },
            None => base.tag,
        },
        pinned: match pinned {
            Some(p) => p,
            None => base.pinned,
        },
    }
}

impl SessionMetaStore {
    pub open spec fn wf(&self) -> bool {
        meta_ids_unique(self.sessions@) && forall|i: int|
            0 <= i < self.sessions@.len() ==> meta_nonempty(#[trigger] self.sessions@[i].meta@)
    }

    pub open spec fn meta_of(&self, id: Seq<char>) -> Option<SessionMetaModel> {
        spec_meta_of(self.sessions@, id)
    }

    pub fn new() -> (r: SessionMetaStore)
        ensures
            r.wf(),
            r.sessions@ =~= Seq::<MetaEntry>::empty(),
    {
        SessionMetaStore { sessions: Vec::new() }
    }

    /// The stored metadata for a session, or the default when none is kept.
    pub fn get_meta(&self, id: &str) -> (r: SessionMeta)
        ensures
            match self.meta_of(id@) {
                Some(m) => r@ == m,
                None => r@.tag is None && r@.pinned == false,
            },
    {
        let mut i: usize = 0;
        while i < self.sessions.len()
            invariant
                i <= self.sessions@.len(),
                forall|k: int| 0 <= k < i ==> self.sessions@[k].id@ != id@,
            decreases self.sessions@.len() - i,
        {
            if str_eq(self.sessions[i].id.as_str(), id) {
                proof {
                    lemma_meta_of_skip(self.sessions@, id@, i as int);
                    assert(self.sessions@.skip(i as int)[0] == self.sessions@[i as int]);
                }
                return self.sessions[i].meta.clone();
            }
            i = i + 1;
        }
        proof {
            lemma_meta_of_skip(self.sessions@, id@, i as int);
            assert(self.sessions@.skip(i as int) =~= Seq::<MetaEntry>::empty());
        }
        SessionMeta::default()
    }

    /// Apply a tag and/or pin change for one session: set the given fields,
    /// keep the others, and drop the entry entirely when nothing of
    /// substance remains.
    pub fn update_meta(&mut self, id: &str, tag: Option<String>, pinned: Option<bool>)
        requires
            old(self).wf(),
        ensures
            final(self).wf(),
            ({
                let written = spec_meta_updated(old(self).meta_of(id@), view_opt(&tag), pinned);
                &&& (meta_nonempty(written) ==> final(self).meta_of(id@) == Some(written))
                &&& (!meta_nonempty(written) ==> final(self).meta_of(id@) is None)
            }),
            forall|q: Seq<char>| q != id@ ==> final(self).meta_of(q) == old(self).meta_of(q),
    {
        let prev = self.get_meta(id);
        let new_tag: Option<String> = match &tag {
            Some(t) => {
                if t.unicode_len() == 0 {
                    None
                } else {
                    Some(t.clone())
                }
            },
            None => prev.tag,
        };
        let new_pinned: bool = match pinned {
            Some(p) => p,
            None => prev.pinned,
        };
        let keep = new_tag.is_some() || new_pinned;
        let ghost written = spec_meta_updated(old(self).meta_of(id@), view_opt(&tag), pinned);
        let new_meta = SessionMeta { tag: new_tag, pinned: new_pinned };
        proof {
            assert(new_meta@ == written);
            assert(keep == meta_nonempty(written));
        }
        let mut i: usize = 0;
        while i < self.sessions.len()
            invariant
                i <= self.sessions@.len(),
                self == old(self),
                old(self).wf(),
                written == spec_meta_updated(old(self).meta_of(id@), view_opt(&tag), pinned),
                new_meta@ == written,
                keep == meta_nonempty(written),
                forall|k: int| 0 <= k < i ==> self.sessions@[k].id@ != id@,
            decreases self.sessions@.len() - i,
        {
            if str_eq(self.sessions[i].id.as_str(), id) {
                let ghost es = self.sessions@;
                if keep {
                    let ne = MetaEntry { id: id.to_owned(), meta: new_meta };
                    proof {
                        let es2 = es.update(i as int, ne);
                        assert(ne.meta@ == written);
                        lemma_meta_of_skip(es2, id@, i as int);
                        assert(es2.skip(i as int)[0] == ne);
                        assert forall|a: int, b: int| 0 <= a < b < es2.len() implies es2[a].id@
                            != es2[b].id@ by {
                            assert(es2[a].id@ == es[a].id@);
                            assert(es2[b].id@ == es[b].id@);
                        }
                        assert forall|x: int| 0 <= x < es2.len() implies meta_nonempty(
                            #[trigger] es2[x].meta@,
                        ) by {
                            if x != i {
                                assert(es2[x] == es[x]);
                            }
                        }
                        assert forall|q: Seq<char>| q != id@ implies spec_meta_of(es2, q)
                            == spec_meta_of(es, q) by {
                            lemma_meta_of_update_other(es, i as int, ne, q);
                        }
                        assert(spec_meta_of(es2, id@) == Some(ne.meta@));
                        assert(ne.meta@ == written);
                    }
                    self.sessions[i] = ne;
                } else {
                    proof {
                        let es2 = es.remove(i as int);
                        lemma_meta_of_remove(es, i as int, id@);
                        assert forall|a: int, b: int| 0 <= a < b < es2.len() implies es2[a].id@
                            != es2[b].id@ by {
                            if b < i {
                                assert(es2[a] == es[a]);
                                assert(es2[b] == es[b]);
                            } else if a < i {
                                assert(es2[a] == es[a]);
                                assert(es2[b] == es[b + 1]);
                            } else {
                                assert(es2[a] == es[a + 1]);
                                assert(es2[b] == es[b + 1]);
                            }
                        }
                        assert forall|x: int| 0 <= x < es2.len() implies meta_nonempty(
                            #[trigger] es2[x].meta@,
                        ) by {
                            if x < i {
                                assert(es2[x] == es[x]);
                            } else {
                                assert(es2[x] == es[x + 1]);
                            }
                        }
                    }
                    self.sessions.remove(i);
                }
                return ;
            }
            i = i + 1;
        }
        proof {
            lemma_meta_of_skip(self.sessions@, id@, i as int);
            assert(self.sessions@.skip(i as int) =~= Seq::<MetaEntry>::empty());
            assert(old(self).meta_of(id@) is None);
        }
        if keep {
            let ne = MetaEntry { id: id.to_owned(), meta: new_meta };
            let ghost es = self.sessions@;
            proof {
                let es2 = es.push(ne);
                assert(ne.meta@ == written);
                lemma_meta_of_skip(es2, id@, es.len() as int);
                assert(es2.skip(es.len() as int) =~= seq![ne]);
                assert(seq![ne][0] == ne);
                assert forall|a: int, b: int| 0 <= a < b < es2.len() implies es2[a].id@
                    != es2[b].id@ by {
                    assert(es2[a] == es[a]);
                    if b < es.len() {
                        assert(es2[b] == es[b]);
                    } else {
                        assert(es2[b] == ne);
                    }
                }
                assert forall|x: int| 0 <= x < es2.len() implies meta_nonempty(
                    #[trigger] es2[x].meta@,
                ) by {
                    if x < es.len() {
                        assert(es2[x] == es[x]);
                    } else {
                        assert(es2[x] == ne);
                    }
                }
                assert forall|q: Seq<char>| q != id@ implies spec_meta_of(es2, q) == spec_meta_of(
                    es,
                    q,
                ) by {
                    lemma_meta_of_push_other(es, ne, q);
                }
            }
            self.sessions.push(ne);
        }
    }
}

proof fn lemma_meta_of_skip(es: Seq<MetaEntry>, id: Seq<char>, i: int)
    requires
        0 <= i <= es.len(),
        forall|k: int| 0 <= k < i ==> es[k].id@ != id,
    ensures
        spec_meta_of(es, id) == spec_meta_of(es.skip(i), id),
    decreases i,
{
    if i == 0 {
        assert(es.skip(0) =~= es);
    } else {
        lemma_meta_of_skip(es.skip(1), id, i - 1);
        assert(es.skip(1).skip(i - 1) =~= es.skip(i));
    }
}

proof fn lemma_meta_of_update_other(es: Seq<MetaEntry>, k: int, ne: MetaEntry, q: Seq<char>)
    requires
        0 <= k < es.len(),
        es[k].id@ != q,
        ne.id@ != q,
    ensures
        spec_meta_of(es.update(k, ne), q) == spec_meta_of(es, q),
    decreases k,
{
    if k == 0 {
        assert(es.update(0, ne).skip(1) =~= es.skip(1));
    } else {
        lemma_meta_of_update_other(es.skip(1), k - 1, ne, q);
        assert(es.update(k, ne).skip(1) =~= es.skip(1).update(k - 1, ne));
    }
}

proof fn lemma_meta_of_push_other(es: Seq<MetaEntry>, ne: MetaEntry, q: Seq<char>)
    requires
        ne.id@ != q,
    ensures
        spec_meta_of(es.push(ne), q) == spec_meta_of(es, q),
    decreases es.len(),
{
    if es.len() == 0 {
        assert(es.push(ne)[0] == ne);
        assert(es.push(ne).skip(1) =~= Seq::<MetaEntry>::empty());
        assert(spec_meta_of(Seq::<MetaEntry>::empty(), q) is None);
        assert(spec_meta_of(es, q) is None);
    } else {
        lemma_meta_of_push_other(es.skip(1), ne, q);
        assert(es.push(ne)[0] == es[0]);
        assert(es.push(ne).skip(1) =~= es.skip(1).push(ne));
        if es[0].id@ == q {
        } else {
            assert(spec_meta_of(es.push(ne), q) == spec_meta_of(es.skip(1).push(ne), q));
            assert(spec_meta_of(es, q) == spec_meta_of(es.skip(1), q));
        }
    }
}

/// Removing the (unique) entry for `id` leaves no entry for it and keeps
/// every other lookup unchanged.
proof fn lemma_meta_of_remove(es: Seq<MetaEntry>, k: int, id: Seq<char>)
    requires
        0 <= k < es.len(),
        es[k].id@ == id,
        meta_ids_unique(es),
        forall|j: int| 0 <= j < k ==> es[j].id@ != id,
    ensures
        spec_meta_of(es.remove(k), id) is None,
        forall|q: Seq<char>| q != id ==> spec_meta_of(es.remove(k), q) == spec_meta_of(es, q),
    decreases k,
{
    if k == 0 {
        assert(es.remove(0) =~= es.skip(1));
        assert forall|x: int| 0 <= x < es.skip(1).len() implies es.skip(1)[x].id@ != id by {
            assert(es.skip(1)[x] == es[x + 1]);
        }
        lemma_meta_of_none(es.skip(1), id);
        assert forall|q: Seq<char>| q != id implies spec_meta_of(es.remove(0), q) == spec_meta_of(
            es,
            q,
        ) by {
            assert(spec_meta_of(es, q) == spec_meta_of(es.skip(1), q));
        }
    } else {
        assert forall|a: int, b: int| 0 <= a < b < es.skip(1).len() implies es.skip(1)[a].id@
            != es.skip(1)[b].id@ by {
            assert(es.skip(1)[a] == es[a + 1]);
            assert(es.skip(1)[b] == es[b + 1]);
        }
        assert(es.skip(1)[k - 1] == es[k]);
        assert forall|j: int| 0 <= j < k - 1 implies es.skip(1)[j].id@ != id by {
            assert(es.skip(1)[j] == es[j + 1]);
        }
        lemma_meta_of_remove(es.skip(1), k - 1, id);
        assert(es.remove(k).skip(1) =~= es.skip(1).remove(k - 1));
        assert(es.remove(k)[0] == es[0]);
        assert(es[0].id@ != id);
        assert(es.remove(k).len() > 0);
        assert(spec_meta_of(es.remove(k), id) == spec_meta_of(es.remove(k).skip(1), id));
        assert forall|q: Seq<char>| q != id implies spec_meta_of(es.remove(k), q) == spec_meta_of(
            es,
            q,
        ) by {
            if es[0].id@ == q {
                assert(spec_meta_of(es.remove(k), q) == Some(es.remove(k)[0].meta@));
                assert(spec_meta_of(es, q) == Some(es[0].meta@));
            } else {
                assert(spec_meta_of(es.remove(k), q) == spec_meta_of(es.remove(k).skip(1), q));
                assert(spec_meta_of(es, q) == spec_meta_of(es.skip(1), q));
                assert(spec_meta_of(es.skip(1).remove(k - 1), q) == spec_meta_of(es.skip(1), q));
            }
        }
    }
}

proof fn lemma_meta_of_none(es: Seq<MetaEntry>, id: Seq<char>)
    requires
        forall|x: int| 0 <= x < es.len() ==> es[x].id@ != id,
    ensures
        spec_meta_of(es, id) is None,
    decreases es.len(),
{
    if es.len() > 0 {
        assert(forall|x: int| 0 <= x < es.skip(1).len() ==> es.skip(1)[x] == es[x + 1]);
        lemma_meta_of_none(es.skip(1), id);
    }
}

/// Configuration directory: `<home>/.config/c3`.
pub fn config_dir(home: &str) -> (r: String)
    ensures
        r@ == home@ + "/.config/c3"@,
{
    let mut r = String::from_str(home);
    r.append("/.config/c3");
    r
}

/// Settings file: `<home>/.config/c3/settings.json`.
pub fn settings_path(home: &str) -> (r: String)
    ensures
        r@ == home@ + "/.config/c3"@ + "/settings.json"@,
{
    let mut r = config_dir(home);
    r.append("/settings.json");
    r
}

/// Session metadata file: `<home>/.config/c3/session-meta.json`.
pub fn session_meta_path(home: &str) -> (r: String)
    ensures
        r@ == home@ + "/.config/c3"@ + "/session-meta.json"@,
{
    let mut r = config_dir(home);
    r.append("/session-meta.json");
    r
}

/// The display name of each known terminal application, in preference order
/// for auto-detection.
pub open spec fn spec_terminal_name(i: int) -> Seq<char> {
    if i == 0 {
        "Ghostty"@
    } else if i == 1 {
        "iTerm"@
    } else if i == 2 {
        "Alacritty"@
    } else if i == 3 {
        "kitty"@
    } else if i == 4 {
        "WezTerm"@
    } else if i == 5 {
        "Warp"@
    } else {
        "Terminal"@
    }
}

/// How many terminal applications are known.
pub const KNOWN_TERMINAL_COUNT: usize = 7;

/// The known terminal applications, in preference order.
pub fn known_terminals() -> (r: Vec<String>)
    ensures
        r@.len() == KNOWN_TERMINAL_COUNT,
        forall|i: int| 0 <= i < r@.len() ==> #[trigger] r@[i]@ == spec_terminal_name(i),
{
    let mut r: Vec<String> = Vec::new();
    r.push(String::from_str("Ghostty"));
    r.push(String::from_str("iTerm"));
    r.push(String::from_str("Alacritty"));
    r.push(String::from_str("kitty"));
    r.push(String::from_str("WezTerm"));
    r.push(String::from_str("Warp"));
    r.push(String::from_str("Terminal"));
    r
}

/// The first index that is `true`, if any.
pub open spec fn spec_first_true(v: Seq<bool>) -> Option<int>
    decreases v.len(),
{
    if v.len() == 0 {
        None
    } else if v[0] {
        Some(0int)
    } else {
        match spec_first_true(v.skip(1)) {
            Some(k) => Some(k + 1),
            None => None,
        }
    }
}

fn first_true(v: &Vec<bool>) -> (r: Option<usize>)
    ensures
        match r {
            Some(i) => 0 <= i < v@.len() && spec_first_true(v@) == Some(i as int),
            None => spec_first_true(v@) is None,
        },
{
    let mut i: usize = 0;
    while i < v.len()
        invariant
            i <= v@.len(),
            forall|k: int| 0 <= k < i ==> !v@[k],
        decreases v@.len() - i,
    {
        if v[i] {
            proof {
                lemma_first_true_at(v@, i as int);
            }
            return Some(i);
        }
        i = i + 1;
    }
    proof {
        lemma_first_true_at(v@, i as int);
    }
    None
}

proof fn lemma_first_true_at(v: Seq<bool>, i: int)
    requires
        0 <= i <= v.len(),
        forall|k: int| 0 <= k < i ==> !v[k],
        i < v.len() ==> v[i],
    ensures
        i < v.len() ==> spec_first_true(v) == Some(i),
        i == v.len() ==> spec_first_true(v) is None,
    decreases i,
{
    if i > 0 {
        lemma_first_true_at(v.skip(1), i - 1);
        assert(forall|k: int| 0 <= k < v.skip(1).len() ==> v.skip(1)[k] == v[k + 1]);
    }
}

/// Pick the terminal application to drive: the first known terminal that is
/// running, else the first that is installed, else none. `running[i]` and
/// `installed[i]` answer for the terminal [`spec_terminal_name`]`(i)`.
pub fn detect_terminal(running: &Vec<bool>, installed: &Vec<bool>) -> (r: Option<String>)
    requires
        running@.len() == KNOWN_TERMINAL_COUNT,
        installed@.len() == KNOWN_TERMINAL_COUNT,
    ensures
        match spec_first_true(running@) {
            Some(k) => r is Some && r.unwrap()@ == spec_terminal_name(k),
            None => match spec_first_true(installed@) {
                Some(k) => r is Some && r.unwrap()@ == spec_terminal_name(k),
                None => r is None,
            },
        },
{
    let names = known_terminals();
    match first_true(running) {
        Some(i) => Some(names[i].clone()),
        None => match first_true(installed) {
            Some(i) => Some(names[i].clone()),
            None => None,
        },
    }
}

/// The names offered for the terminal setting: `"auto"`, then every
/// installed terminal, in preference order, up to `i`.
pub open spec fn spec_installed_upto(installed: Seq<bool>, i: int) -> Seq<Seq<char>>
    decreases i,
{
    if i <= 0 {
        Seq::<Seq<char>>::empty()
    } else {
        spec_installed_upto(installed, i - 1) + (if installed[i - 1] {
            seq![spec_terminal_name(i - 1)]
        } else {
            Seq::<Seq<char>>::empty()
        })
    }
}

/// The choices for the terminal setting: `"auto"` first, then each installed
/// known terminal in preference order.
pub fn get_available_terminals(installed: &Vec<bool>) -> (r: Vec<String>)
    requires
        installed@.len() == KNOWN_TERMINAL_COUNT,
    ensures
        views_of(r@) == seq!["auto"@] + spec_installed_upto(
            installed@,
            KNOWN_TERMINAL_COUNT as int,
        ),
{
    let names = known_terminals();
    let mut r: Vec<String> = Vec::new();
    r.push(String::from_str("auto"));
    proof {
        assert(views_of(r@) =~= seq!["auto"@] + spec_installed_upto(installed@, 0));
    }
    let mut i: usize = 0;
    while i < KNOWN_TERMINAL_COUNT
        invariant
            i <= KNOWN_TERMINAL_COUNT,
            installed@.len() == KNOWN_TERMINAL_COUNT,
            names@.len() == KNOWN_TERMINAL_COUNT,
            forall|k: int| 0 <= k < names@.len() ==> #[trigger] names@[k]@ == spec_terminal_name(k),
            views_of(r@) =~= seq!["auto"@] + spec_installed_upto(installed@, i as int),
        decreases KNOWN_TERMINAL_COUNT - i,
    {
        if installed[i] {
            let ghost oldr = r@;
            let c = names[i].clone();
            let ghost cm = c@;
            r.push(c);
            proof {
                assert(cm == spec_terminal_name(i as int));
                assert forall|j: int| 0 <= j < r@.len() implies views_of(r@)[j] == views_of(
                    oldr,
                ).push(cm)[j] by {
                    if j < oldr.len() {
                        assert(r@[j] == oldr[j]);
                    } else {
                        assert(r@[j]@ == cm);
                    }
                }
                assert(views_of(r@) =~= views_of(oldr).push(cm));
                assert(spec_installed_upto(installed@, i + 1 as int) == spec_installed_upto(
                    installed@,
                    i as int,
                ) + seq![spec_terminal_name(i as int)]);
                assert(views_of(r@) =~= seq!["auto"@] + spec_installed_upto(
                    installed@,
                    i + 1 as int,
                ));
            }
        } else {
            proof {
                assert(spec_installed_upto(installed@, i + 1 as int) =~= spec_installed_upto(
                    installed@,
                    i as int,
                ));
                assert(views_of(r@) =~= seq!["auto"@] + spec_installed_upto(
                    installed@,
                    i + 1 as int,
                ));
            }
        }
        i = i + 1;
    }
    r
}

/// The terminal the settings ask for: the configured name, or the detected
/// one when set to `"auto"`, or `"Terminal"` as a last resort.
pub fn effective_terminal(settings: &AppSettings, detected: Option<String>) -> (r: String)
    ensures
        settings@.terminal_app == "auto"@ ==> match detected {
            Some(d) => r@ == d@,
            None => r@ == "Terminal"@,
        },
        settings@.terminal_app != "auto"@ ==> r@ == settings@.terminal_app,
{
    if str_eq(settings.terminal_app.as_str(), "auto") {
        match detected {
            Some(d) => d,
            None => String::from_str("Terminal"),
        }
    } else {
        settings.terminal_app.clone()
    }
}

/// The file a sound name resolves to: an absolute path is itself; a bare
/// name is a system sound under `/System/Library/Sounds`.
pub fn play_sound_file(sound: &str) -> (r: String)
    ensures
        spec_is_prefix("/"@, sound@) ==> r@ == sound@,
        !spec_is_prefix("/"@, sound@) ==> r@ == "/System/Library/Sounds/"@ + sound@ + ".aiff"@,
{
    if starts_with(sound, "/") {
        String::from_str(sound)
    } else {
        let mut r = String::from_str("/System/Library/Sounds/");
        r.append(sound);
        r.append(".aiff");
        r
    }
}

/// Everything the hook installer checks before and after setup.
#[derive(Debug, Clone, Copy, PartialEq, Eq, Structural)]
pub struct HookStatus {
    pub hooks_installed: bool,
    pub hook_script_exists: bool,
    pub jq_installed: bool,
    pub terminal_notifier_installed: bool,
    pub tmux_installed: bool,
}

/// Combine the probe results into the reported status: hooks count as
/// installed only when both the configuration references them and the hook
/// script is present.
pub fn check_hook_status(
    hooks_configured: bool,
    hook_script_exists: bool,
    jq_installed: bool,
    terminal_notifier_installed: bool,
    tmux_installed: bool,
) -> (r: HookStatus)
    ensures
        r.hooks_installed == (hooks_configured && hook_script_exists),
        r.hook_script_exists == hook_script_exists,
        r.jq_installed == jq_installed,
        r.terminal_notifier_installed == terminal_notifier_installed,
        r.tmux_installed == tmux_installed,
{
    HookStatus {
        hooks_installed: hooks_configured && hook_script_exists,
        hook_script_exists,
        jq_installed,
        terminal_notifier_installed,
        tmux_installed,
    }
}

/// Outcome of a hook setup attempt.
#[derive(Debug)]
pub struct SetupResult {
    pub success: bool,
    pub message: String,
    pub backup_path: Option<String>,
}

} // verus!
