//! The `servo:` shortcut pages: which page a shortcut names, who may read the
//! process list, and the JSON bodies the handler answers with.

use vstd::prelude::*;

use crate::order::views;
use crate::processes::{recorded_ticks, snapshot_rows, EmbedderTab, ProcessRow, ProcessSampler};
use crate::procfs::RawProcess;
use crate::samples::SampleKey;
use crate::tab_stats::ScriptTabStats;
use crate::text::{push_str, text_equal};

verus! {

/// What a `servo:` shortcut loads.
pub enum ServoShortcut {
    /// A bundled resource page, by its path.
    Resource(String),
    /// The JSON list of processes.
    ProcessList,
    /// The JSON list of experimental preference names.
    ExperimentalPreferences,
    /// The JSON string of the default user agent.
    DefaultUserAgent,
    /// Not a known shortcut.
    Invalid,
    /// The process list, asked for by web content: refused.
    Forbidden,
}

pub enum ShortcutView {
    Resource(Seq<char>),
    ProcessList,
    ExperimentalPreferences,
    DefaultUserAgent,
    Invalid,
    Forbidden,
}

impl View for ServoShortcut {
    type V = ShortcutView;

    open spec fn view(&self) -> ShortcutView {
        match self {
            ServoShortcut::Resource(p) => ShortcutView::Resource(p@),
            ServoShortcut::ProcessList => ShortcutView::ProcessList,
            ServoShortcut::ExperimentalPreferences => ShortcutView::ExperimentalPreferences,
            ServoShortcut::DefaultUserAgent => ShortcutView::DefaultUserAgent,
            ServoShortcut::Invalid => ShortcutView::Invalid,
            ServoShortcut::Forbidden => ShortcutView::Forbidden,
        }
    }
}

/// The page that the shortcut `path` names.
pub open spec fn shortcut_of(path: Seq<char>) -> ShortcutView {
    if path == "config"@ {
        ShortcutView::Resource("/config.html"@)
    } else if path == "newtab"@ {
        ShortcutView::Resource("/newtab.html"@)
    } else if path == "preferences"@ {
        ShortcutView::Resource("/preferences.html"@)
    } else if path == "license"@ {
        ShortcutView::Resource("/license.html"@)
    } else if path == "processes"@ {
        ShortcutView::Resource("/processes.html"@)
    } else if path == "history"@ {
        ShortcutView::Resource("/history.html"@)
    } else if path == "process-list"@ {
        ShortcutView::ProcessList
    } else if path == "experimental-preferences"@ {
        ShortcutView::ExperimentalPreferences
    } else if path == "default-user-agent"@ {
        ShortcutView::DefaultUserAgent
    } else {
        ShortcutView::Invalid
    }
}

/// The request facts that decide whether it comes from web content: the
/// scheme of its origin (`None` for an opaque or client origin) and the scheme
/// of its referrer URL (`None` when there is no referrer).
pub struct RequestSource {
    pub origin_scheme: Option<String>,
    pub referrer_scheme: Option<String>,
}

/// A scheme that web content is served from.
pub open spec fn is_web_scheme_text(scheme: Seq<char>) -> bool {
    scheme == "http"@ || scheme == "https"@ || scheme == "ftp"@ || scheme == "ws"@ || scheme
        == "wss"@
}

pub fn is_web_scheme(scheme: &str) -> (r: bool)
    ensures
        r == is_web_scheme_text(scheme@),
{
    text_equal(scheme, "http") || text_equal(scheme, "https") || text_equal(scheme, "ftp")
        || text_equal(scheme, "ws") || text_equal(scheme, "wss")
}

/// The request comes from web content: its origin or its referrer has a web scheme.
pub open spec fn from_web_content(source: RequestSource) -> bool {
    ||| (source.origin_scheme matches Some(s) && is_web_scheme_text(s@))
    ||| (source.referrer_scheme matches Some(s) && is_web_scheme_text(s@))
}

/// Whether a request comes from web content, which may not read the process list.
pub fn request_is_from_web_content(request: &RequestSource) -> (r: bool)
    ensures
        r == from_web_content(*request),
{
    if let Some(scheme) = &request.origin_scheme {
        if is_web_scheme(scheme.as_str()) {
            return true;
        }
    }
    match &request.referrer_scheme {
        Some(scheme) => is_web_scheme(scheme.as_str()),
        None => false,
    }
}

/// `"` + `s` + `"`.
pub open spec fn quoted_text(s: Seq<char>) -> Seq<char> {
    seq!['"'] + s + seq!['"']
}

/// The names of `prefs`, each in quotes, separated by commas.
pub open spec fn quoted_list(prefs: Seq<Seq<char>>) -> Seq<char>
    decreases prefs.len(),
{
    if prefs.len() == 0 {
        Seq::empty()
    } else if prefs.len() == 1 {
        quoted_text(prefs[0])
    } else {
        quoted_list(prefs.drop_last()) + seq![','] + quoted_text(prefs.last())
    }
}

/// The body of the experimental-preferences page: a JSON array of the names.
pub fn experimental_preferences_json(prefs: &[String]) -> (body: String)
    ensures
        body@ == seq!['['] + quoted_list(prefs.deep_view()) + seq![']'],
{
    proof {
        reveal_strlit("[");
        reveal_strlit("]");
        reveal_strlit(",");
        reveal_strlit("\"");
    }
    let ghost names = prefs.deep_view();
    let mut body = String::new();
    push_str(&mut body, "[");
    for i in 0..prefs.len()
        invariant
            names == prefs.deep_view(),
            body@ == seq!['['] + quoted_list(names.take(i as int)),
    {
        let ghost before = body@;
        assert(names.take(i + 1).drop_last() =~= names.take(i as int));
        assert(names.take(i + 1).last() == prefs[i as int]@);
        if i > 0 {
            push_str(&mut body, ",");
        } else {
            assert(names.take(i as int) =~= Seq::<Seq<char>>::empty());
        }
        push_str(&mut body, "\"");
        push_str(&mut body, prefs[i].as_str());
        push_str(&mut body, "\"");
        proof {
            let t1 = names.take(i + 1);
            reveal_strlit("\"");
            reveal_strlit(",");
            assert("\""@ =~= seq!['"']);
            assert(","@ =~= seq![',']);
            if i == 0 {
                assert(t1.len() == 1);
                assert(quoted_list(t1) == quoted_text(t1[0]));
                assert(t1[0] == prefs[0]@);
            } else {
                assert(quoted_list(t1) == quoted_list(t1.drop_last()) + seq![','] + quoted_text(
                    t1.last(),
                ));
            }
        }
        assert(body@ =~= seq!['['] + quoted_list(names.take(i + 1)));
    }
    assert(names.take(names.len() as int) =~= names);
    push_str(&mut body, "]");
    body
}

/// The body of the default-user-agent page: the user agent as a JSON string.
pub fn default_user_agent_json(user_agent: &str) -> (body: String)
    ensures
        body@ == quoted_text(user_agent@),
{
    proof {
        reveal_strlit("\"");
    }
    let mut body = String::new();
    push_str(&mut body, "\"");
    push_str(&mut body, user_agent);
    push_str(&mut body, "\"");
    assert(body@ =~= quoted_text(user_agent@));
    body
}

/// What loading the shortcut `path` for `request` answers with: the page the
/// shortcut names, except that web content is refused the process list.
pub open spec fn load_plan(path: Seq<char>, request: RequestSource) -> ShortcutView {
    match shortcut_of(path) {
        ShortcutView::ProcessList => if from_web_content(request) {
            ShortcutView::Forbidden
        } else {
            ShortcutView::ProcessList
        },
        other => other,
    }
}

/// Web content never reads the process list, whatever shortcut it loads.
pub proof fn law_web_content_never_reads_processes(path: Seq<char>, request: RequestSource)
    requires
        from_web_content(request),
    ensures
        load_plan(path, request) != ShortcutView::ProcessList,
{
}

/// Loads the `servo:` shortcut pages; keeps the process sampler between loads
/// of the process list.
pub struct ServoProtocolHandler {
    process_sampler: ProcessSampler,
}

impl Default for ServoProtocolHandler {
    fn default() -> (h: ServoProtocolHandler)
        ensures
            h.previous_sample() is None,
    {
        ServoProtocolHandler::new()
    }
}

impl ServoProtocolHandler {
    /// The tick counts of the last process-list sample, if any.
    pub closed spec fn previous_sample(&self) -> Option<Map<SampleKey, u64>> {
        self.process_sampler.previous()
    }

    /// A handler that has not sampled the processes yet.
    pub fn new() -> (h: ServoProtocolHandler)
        ensures
            h.previous_sample() is None,
    {
        ServoProtocolHandler { process_sampler: ProcessSampler::new() }
    }

    /// Shortcuts that only privileged pages may load.
    pub fn privileged_paths(&self) -> (paths: Vec<&'static str>)
        ensures
            paths@.len() == 2,
            paths@[0]@ == "config"@,
            paths@[1]@ == "preferences"@,
    {
        let mut paths: Vec<&'static str> = Vec::new();
        paths.push("config");
        paths.push("preferences");
        paths
    }

    /// The shortcut pages can be fetched.
    pub fn is_fetchable(&self) -> (r: bool)
        ensures
            r,
    {
        true
    }

    /// What the shortcut `path` loads.
    pub fn shortcut(&self, path: &str) -> (r: ServoShortcut)
        ensures
            r@ == shortcut_of(path@),
    {
        if text_equal(path, "config") {
            ServoShortcut::Resource("/config.html".to_owned())
        } else if text_equal(path, "newtab") {
            ServoShortcut::Resource("/newtab.html".to_owned())
        } else if text_equal(path, "preferences") {
            ServoShortcut::Resource("/preferences.html".to_owned())
        } else if text_equal(path, "license") {
            ServoShortcut::Resource("/license.html".to_owned())
        } else if text_equal(path, "processes") {
            ServoShortcut::Resource("/processes.html".to_owned())
        } else if text_equal(path, "history") {
            ServoShortcut::Resource("/history.html".to_owned())
        } else if text_equal(path, "process-list") {
            ServoShortcut::ProcessList
        } else if text_equal(path, "experimental-preferences") {
            ServoShortcut::ExperimentalPreferences
        } else if text_equal(path, "default-user-agent") {
            ServoShortcut::DefaultUserAgent
        } else {
            ServoShortcut::Invalid
        }
    }

    /// What loading the shortcut `path` for `request` answers with.
    pub fn plan_load(&self, path: &str, request: &RequestSource) -> (r: ServoShortcut)
        ensures
            r@ == load_plan(path@, *request),
    {
        match self.shortcut(path) {
            ServoShortcut::ProcessList => if request_is_from_web_content(request) {
                ServoShortcut::Forbidden
            } else {
                ServoShortcut::ProcessList
            },
            other => other,
        }
    }

    /// The rows of the process list for the sample `processes`.
    pub fn process_list(
        &mut self,
        processes: Vec<RawProcess>,
        rates_valid: bool,
        tabs: &[EmbedderTab],
        script_stats: &[ScriptTabStats],
    ) -> (rows: Vec<ProcessRow>)
        ensures
            views(rows@) == snapshot_rows(
                processes@,
                old(self).previous_sample(),
                rates_valid,
                tabs@,
                script_stats@,
            ),
            final(self).previous_sample() == Some(recorded_ticks(processes@)),
    {
        self.process_sampler.snapshot(processes, rates_valid, tabs, script_stats)
    }
}

} // verus!
