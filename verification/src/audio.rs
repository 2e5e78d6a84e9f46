//! Audio routing decisions: which PulseAudio servers to try, how `pactl`
//! replies are read, the volume and mute state shown on the status bar, and
//! the messages reported when no server can be used.

use vstd::prelude::*;
use crate::text::{
    chars_of, contains_run, decimal, has_run, lines, push_chars, push_decimal, push_str,
    split_lines, split_words, string_from_chars, trim, trim_chars, views, words,
};

verus! {

/// Volume when audio starts, in percent.
pub const DEFAULT_VOLUME_PERCENT: u32 = 100;

/// Highest volume, in percent.
pub const MAX_VOLUME_PERCENT: u32 = 200;

/// Where apps on the inner display should send their audio.
pub struct PulseAudioEnv<'a> {
    pub pulse_sink: &'a str,
    pub pulse_server: Option<&'a str>,
}

// ----------------------------------------------------------------------------
// Volume and status
// ----------------------------------------------------------------------------

/// The status text for the playback state.
pub open spec fn audio_status_text(muted: bool, volume_percent: nat) -> Seq<char> {
    if muted {
        "audio muted"@
    } else {
        "audio "@ + decimal(volume_percent) + seq!['%']
    }
}

/// The status text for the playback state.
pub fn format_audio_status(muted: bool, volume_percent: u32) -> (s: String)
    ensures
        s@ == audio_status_text(muted, volume_percent as nat),
{
    let mut v: Vec<char> = Vec::new();
    if muted {
        push_str(&mut v, "audio muted");
    } else {
        push_str(&mut v, "audio ");
        push_decimal(&mut v, volume_percent as u64);
        v.push('%');
    }
    assert(v@ =~= audio_status_text(muted, volume_percent as nat));
    string_from_chars(&v)
}

/// The volume after changing `current` by `delta` points, kept within
/// `0..=MAX_VOLUME_PERCENT`.
pub fn next_volume(current: u32, delta: i32) -> (v: u32)
    requires
        current <= MAX_VOLUME_PERCENT,
        current + delta <= i32::MAX,
    ensures
        v == if current + delta < 0 {
            0
        } else if current + delta > MAX_VOLUME_PERCENT {
            MAX_VOLUME_PERCENT as int
        } else {
            current + delta
        },
        v <= MAX_VOLUME_PERCENT,
{
    let sum: i32 = current as i32 + delta;
    if sum < 0 {
        0
    } else if sum > MAX_VOLUME_PERCENT as i32 {
        MAX_VOLUME_PERCENT
    } else {
        sum as u32
    }
}

/// The status text of the audio runtime: its error when capture stopped,
/// otherwise the playback state.
pub open spec fn runtime_status_text(available: bool, error: Option<Seq<char>>, muted: bool, volume_percent: nat) -> Seq<char> {
    if !available {
        match error {
            Some(e) => "audio unavailable: "@ + e,
            None => "audio unavailable"@,
        }
    } else {
        audio_status_text(muted, volume_percent)
    }
}

/// The status text of the audio runtime.
pub fn runtime_status(available: bool, error: Option<&str>, muted: bool, volume_percent: u32) -> (s: String)
    ensures
        s@ == runtime_status_text(
            available,
            match error {
                Some(e) => Some(e@),
                None => None,
            },
            muted,
            volume_percent as nat,
        ),
{
    if !available {
        let mut v: Vec<char> = Vec::new();
        match error {
            Some(e) => {
                push_str(&mut v, "audio unavailable: ");
                push_str(&mut v, e);
            },
            None => push_str(&mut v, "audio unavailable"),
        }
        string_from_chars(&v)
    } else {
        format_audio_status(muted, volume_percent)
    }
}

/// The volume after changing `current` by `delta` points, kept within
/// `0..=MAX_VOLUME_PERCENT`.
pub open spec fn volume_after(current: int, delta: int) -> int {
    if current + delta < 0 {
        0
    } else if current + delta > MAX_VOLUME_PERCENT {
        MAX_VOLUME_PERCENT as int
    } else {
        current + delta
    }
}

/// The playback controls the user changes: mute and volume.
#[derive(Debug, Clone, Copy, PartialEq, Eq, Structural)]
pub struct AudioControls {
    pub muted: bool,
    pub volume_percent: u32,
}

impl AudioControls {
    /// The controls with mute flipped and the volume kept.
    pub open spec fn toggled(self) -> AudioControls {
        AudioControls { muted: !self.muted, volume_percent: self.volume_percent }
    }

    /// Flips mute; the volume stays.
    pub fn toggle_mute(&mut self)
        ensures
            *final(self) == old(self).toggled(),
    {
        self.muted = !self.muted;
    }

    /// Changes the volume by `delta` points within `0..=MAX_VOLUME_PERCENT`;
    /// mute stays.
    pub fn volume_by(&mut self, delta: i32)
        requires
            old(self).volume_percent <= MAX_VOLUME_PERCENT,
            old(self).volume_percent + delta <= i32::MAX,
        ensures
            final(self).muted == old(self).muted,
            final(self).volume_percent == volume_after(old(self).volume_percent as int, delta as int),
    {
        self.volume_percent = next_volume(self.volume_percent, delta);
    }

    /// The status text for these controls on a runtime that is `available`
    /// or stopped with `error`.
    pub fn status(&self, available: bool, error: Option<&str>) -> (s: String)
        ensures
            s@ == runtime_status_text(
                available,
                match error {
                    Some(e) => Some(e@),
                    None => None,
                },
                self.muted,
                self.volume_percent as nat,
            ),
    {
        runtime_status(available, error, self.muted, self.volume_percent)
    }
}

/// Toggling mute twice gives back the controls toggled from, and a toggle
/// never moves the volume.
pub proof fn lemma_toggle_twice(c: AudioControls)
    ensures
        c.toggled().toggled() == c,
        c.toggled().volume_percent == c.volume_percent,
        c.toggled().muted != c.muted,
{
}


// ----------------------------------------------------------------------------
// Servers
// ----------------------------------------------------------------------------

/// The fixed TCP server tried after the local socket.
pub open spec fn tcp_server() -> Seq<char> {
    "127.0.0.1:4713"@
}

/// `s` with `v` appended unless `v` is already in it.
pub open spec fn push_unique(s: Seq<Option<Seq<char>>>, v: Option<Seq<char>>) -> Seq<Option<Seq<char>>> {
    if s.contains(v) {
        s
    } else {
        s.push(v)
    }
}

/// The servers to try, in order: only the override when there is one;
/// otherwise the local socket (when present), the fixed TCP server and the
/// environment's server (when set), each once.
pub open spec fn candidates_of(
    override_server: Option<Seq<char>>,
    local: Option<Seq<char>>,
    env: Option<Seq<char>>,
) -> Seq<Option<Seq<char>>> {
    match override_server {
        Some(o) => seq![Some(o)],
        None => {
            let a = match local {
                Some(l) => seq![Some(l)],
                None => Seq::empty(),
            };
            let b = push_unique(a, Some(tcp_server()));
            match env {
                Some(e) => push_unique(b, Some(e)),
                None => b,
            }
        },
    }
}

pub open spec fn opt_view(o: Option<String>) -> Option<Seq<char>> {
    match o {
        Some(s) => Some(s@),
        None => None,
    }
}

pub open spec fn opt_str_view(o: Option<&str>) -> Option<Seq<char>> {
    match o {
        Some(s) => Some(s@),
        None => None,
    }
}

fn same_server(a: &Option<String>, b: &Option<String>) -> (r: bool)
    ensures
        r == (opt_view(*a) == opt_view(*b)),
{
    match (a, b) {
        (Some(x), Some(y)) => *x == *y,
        (None, None) => true,
        _ => false,
    }
}

fn push_unique_server(out: &mut Vec<Option<String>>, v: Option<String>)
    ensures
        final(out)@.map_values(|o: Option<String>| opt_view(o)) == push_unique(
            old(out)@.map_values(|o: Option<String>| opt_view(o)),
            opt_view(v),
        ),
{
    let ghost s = old(out)@.map_values(|o: Option<String>| opt_view(o));
    let mut i: usize = 0;
    while i < out.len()
        invariant
            i <= out.len(),
            out@ == old(out)@,
            s == old(out)@.map_values(|o: Option<String>| opt_view(o)),
            forall|j: int| 0 <= j < i ==> s[j] != opt_view(v),
        decreases out.len() - i,
    {
        if same_server(&out[i], &v) {
            assert(s[i as int] == opt_view(v));
            assert(s.contains(opt_view(v)));
            return;
        }
        i = i + 1;
    }
    assert(!s.contains(opt_view(v)));
    let ghost vv = opt_view(v);
    out.push(v);
    assert(out@.map_values(|o: Option<String>| opt_view(o)) =~= s.push(vv));
}

/// The PulseAudio servers to try for capture, given an explicit override
/// and what the environment offers (`local`: the local native socket,
/// `env`: the configured server).
pub fn pulse_server_candidates(
    override_server: Option<&str>,
    local: Option<String>,
    env: Option<String>,
) -> (r: Vec<Option<String>>)
    ensures
        r@.map_values(|o: Option<String>| opt_view(o)) == candidates_of(
            opt_str_view(override_server),
            opt_view(local),
            opt_view(env),
        ),
{
    match override_server {
        Some(o) => {
            let mut out: Vec<Option<String>> = Vec::new();
            let v = chars_of(o);
            let s = string_from_chars(&v);
            let ghost sv = s@;
            out.push(Some(s));
            assert(out@.map_values(|o: Option<String>| opt_view(o)) =~= seq![Some(sv)]);
            out
        },
        None => {
            let mut out: Vec<Option<String>> = Vec::new();
            let ghost lv = opt_view(local);
            match local {
                Some(l) => {
                    let ghost x = l@;
                    out.push(Some(l));
                    assert(out@.map_values(|o: Option<String>| opt_view(o)) =~= seq![Some(x)]);
                },
                None => {
                    assert(out@.map_values(|o: Option<String>| opt_view(o)) =~= Seq::<Option<Seq<char>>>::empty());
                },
            }
            let mut t: Vec<char> = Vec::new();
            push_str(&mut t, "127.0.0.1:4713");
            push_unique_server(&mut out, Some(string_from_chars(&t)));
            match env {
                Some(e) => push_unique_server(&mut out, Some(e)),
                None => {},
            }
            out
        },
    }
}

/// The candidate list is never empty and names no server twice.
pub proof fn lemma_candidates_distinct(
    override_server: Option<Seq<char>>,
    local: Option<Seq<char>>,
    env: Option<Seq<char>>,
)
    ensures
        candidates_of(override_server, local, env).len() >= 1,
        forall|i: int, j: int|
            0 <= i < j < candidates_of(override_server, local, env).len() ==> #[trigger] candidates_of(
                override_server,
                local,
                env,
            )[i] != #[trigger] candidates_of(override_server, local, env)[j],
{
    match override_server {
        Some(o) => {},
        None => {
            let a = match local {
                Some(l) => seq![Some(l)],
                None => Seq::<Option<Seq<char>>>::empty(),
            };
            let b = push_unique(a, Some(tcp_server()));
            assert forall|i: int, j: int| 0 <= i < j < b.len() implies #[trigger] b[i] != #[trigger] b[j] by {
                if !a.contains(Some(tcp_server())) && j == a.len() {
                    assert(a[i] != Some(tcp_server()));
                }
            }
            match env {
                Some(e) => {
                    let c = push_unique(b, Some(e));
                    assert forall|i: int, j: int| 0 <= i < j < c.len() implies #[trigger] c[i] != #[trigger] c[j] by {
                        if !b.contains(Some(e)) && j == b.len() {
                            assert(b[i] != Some(e));
                        } else {
                            assert(c[i] == b[i] && c[j] == b[j]);
                        }
                    }
                },
                None => {},
            }
        },
    }
}

proof fn lemma_push_unique_keeps(s: Seq<Option<Seq<char>>>, v: Option<Seq<char>>)
    ensures
        push_unique(s, v).contains(v),
        forall|x: Option<Seq<char>>| s.contains(x) ==> push_unique(s, v).contains(x),
        forall|x: Option<Seq<char>>| #[trigger] push_unique(s, v).contains(x) ==> s.contains(x) || x == v,
        forall|i: int| 0 <= i < s.len() ==> push_unique(s, v)[i] == s[i],
{
    let t = push_unique(s, v);
    if !s.contains(v) {
        assert(t[s.len() as int] == v);
        assert forall|x: Option<Seq<char>>| s.contains(x) implies t.contains(x) by {
            let i = choose|i: int| 0 <= i < s.len() && s[i] == x;
            assert(t[i] == x);
        }
        assert forall|x: Option<Seq<char>>| #[trigger] t.contains(x) implies s.contains(x) || x == v by {
            let i = choose|i: int| 0 <= i < t.len() && t[i] == x;
            if i < s.len() {
                assert(s[i] == x);
            }
        }
    }
}

/// Without an override, every server on offer is tried: the local socket
/// when there is one (first of all), the fixed TCP server and the
/// environment's server when it is set; nothing else is tried. An override
/// is tried alone.
pub proof fn lemma_candidates_complete(
    override_server: Option<Seq<char>>,
    local: Option<Seq<char>>,
    env: Option<Seq<char>>,
)
    ensures
        override_server is Some ==> candidates_of(override_server, local, env) == seq![override_server],
        override_server is None ==> candidates_of(override_server, local, env).contains(Some(tcp_server())),
        override_server is None && local is Some ==> candidates_of(override_server, local, env).contains(local),
        override_server is None && local is Some ==> candidates_of(override_server, local, env)[0] == local,
        override_server is None && env is Some ==> candidates_of(override_server, local, env).contains(env),
        override_server is None ==> forall|i: int|
            0 <= i < candidates_of(override_server, local, env).len() ==> {
                let c = #[trigger] candidates_of(override_server, local, env)[i];
                c == Some(tcp_server()) || (local is Some && c == local) || (env is Some && c == env)
            },
{
    match override_server {
        Some(o) => {},
        None => {
            let a = match local {
                Some(l) => seq![Some(l)],
                None => Seq::<Option<Seq<char>>>::empty(),
            };
            let b = push_unique(a, Some(tcp_server()));
            lemma_push_unique_keeps(a, Some(tcp_server()));
            if local is Some {
                assert(a[0] == local);
                assert(a.contains(local));
            }
            let c = candidates_of(override_server, local, env);
            match env {
                Some(e) => {
                    lemma_push_unique_keeps(b, Some(e));
                    assert(c == push_unique(b, Some(e)));
                },
                None => {
                    assert(c == b);
                },
            }
            assert forall|i: int| 0 <= i < c.len() implies {
                let x = #[trigger] c[i];
                x == Some(tcp_server()) || (local is Some && x == local) || (env is Some && x == env)
            } by {
                assert(c.contains(c[i]));
                assert(b.contains(c[i]) || (env is Some && c[i] == env));
                if b.contains(c[i]) {
                    if a.contains(c[i]) {
                        let k = choose|k: int| 0 <= k < a.len() && a[k] == c[i];
                        assert(a[k] == local);
                    }
                }
            }
        },
    }
}

/// How a server is named in messages: its address, or `(default)`.
pub open spec fn server_label(server: Option<Seq<char>>) -> Seq<char> {
    match server {
        Some(s) => s,
        None => "(default)"@,
    }
}

/// How a server is named in messages.
pub fn describe_server(server: Option<&str>) -> (s: String)
    ensures
        s@ == server_label(opt_str_view(server)),
{
    let mut v: Vec<char> = Vec::new();
    match server {
        Some(x) => push_str(&mut v, x),
        None => push_str(&mut v, "(default)"),
    }
    string_from_chars(&v)
}

/// The configured server value, trimmed; an empty value counts as unset.
pub open spec fn env_server_of(raw: Option<Seq<char>>) -> Option<Seq<char>> {
    match raw {
        Some(r) => if trim(r).len() > 0 {
            Some(trim(r))
        } else {
            None
        },
        None => None,
    }
}

/// Normalises the configured server value.
pub fn env_pulse_server(raw: Option<String>) -> (r: Option<String>)
    ensures
        opt_view(r) == env_server_of(opt_view(raw)),
{
    match raw {
        Some(s) => {
            let v = chars_of(s.as_str());
            let t = trim_chars(&v);
            if t.len() > 0 {
                Some(string_from_chars(&t))
            } else {
                None
            }
        },
        None => None,
    }
}

// ----------------------------------------------------------------------------
// The null sink and its monitor
// ----------------------------------------------------------------------------

/// Name of this process's null sink.
pub fn sink_name(pid: u32) -> (s: String)
    ensures
        s@ == "kitwin_"@ + decimal(pid as nat),
{
    let mut v: Vec<char> = Vec::new();
    push_str(&mut v, "kitwin_");
    push_decimal(&mut v, pid as u64);
    string_from_chars(&v)
}

/// Name of the monitor source of sink `sink`.
pub fn monitor_name(sink: &str) -> (s: String)
    ensures
        s@ == sink@ + ".monitor"@,
{
    let mut v = chars_of(sink);
    push_str(&mut v, ".monitor");
    string_from_chars(&v)
}

/// `pactl` arguments that load a null sink named `sink`, described by its
/// name.
pub fn null_sink_args(sink: &str) -> (args: Vec<String>)
    ensures
        args@.map_values(|a: String| a@) == seq![
            "load-module"@,
            "module-null-sink"@,
            "sink_name="@ + sink@,
            "sink_properties=device.description="@ + sink@,
        ],
{
    let s = chars_of(sink);
    let mut a: Vec<char> = Vec::new();
    push_str(&mut a, "load-module");
    let mut b: Vec<char> = Vec::new();
    push_str(&mut b, "module-null-sink");
    let mut c: Vec<char> = Vec::new();
    push_str(&mut c, "sink_name=");
    push_chars(&mut c, &s);
    let mut d: Vec<char> = Vec::new();
    push_str(&mut d, "sink_properties=device.description=");
    push_chars(&mut d, &s);
    let mut args: Vec<String> = Vec::new();
    let sa = string_from_chars(&a);
    let sb = string_from_chars(&b);
    let sc = string_from_chars(&c);
    let sd = string_from_chars(&d);
    let ghost (va, vb, vc, vd) = (sa@, sb@, sc@, sd@);
    args.push(sa);
    args.push(sb);
    args.push(sc);
    args.push(sd);
    assert(args@.map_values(|a: String| a@) =~= seq![va, vb, vc, vd]);
    args
}

/// What loading the null sink gave: the module id (`pactl`'s trimmed
/// output), or why it failed.
pub open spec fn null_sink_outcome_of(success: bool, stdout: Seq<char>, stderr: Seq<char>) -> Result<Seq<char>, Seq<char>> {
    if !success {
        Err("could not create Pulse null sink: "@ + trim(stderr))
    } else if trim(stdout).len() == 0 {
        Err("pactl did not return a module id"@)
    } else {
        Ok(trim(stdout))
    }
}

/// Reads `pactl load-module`'s reply.
pub fn null_sink_outcome(success: bool, stdout: &str, stderr: &str) -> (r: Result<String, String>)
    ensures
        match r {
            Ok(id) => null_sink_outcome_of(success, stdout@, stderr@) == Ok::<Seq<char>, Seq<char>>(id@),
            Err(e) => null_sink_outcome_of(success, stdout@, stderr@) == Err::<Seq<char>, Seq<char>>(e@),
        },
{
    if !success {
        let mut v: Vec<char> = Vec::new();
        push_str(&mut v, "could not create Pulse null sink: ");
        let t = trim_chars(&chars_of(stderr));
        push_chars(&mut v, &t);
        return Err(string_from_chars(&v));
    }
    let id = trim_chars(&chars_of(stdout));
    if id.len() == 0 {
        let mut v: Vec<char> = Vec::new();
        push_str(&mut v, "pactl did not return a module id");
        return Err(string_from_chars(&v));
    }
    Ok(string_from_chars(&id))
}

/// Whether `pactl list short sources` output lists a source named `name`
/// (the second white-space separated field of some line).
pub open spec fn source_listed_in(listing: Seq<char>, name: Seq<char>) -> bool {
    exists|i: int|
        0 <= i < lines(listing).len() && words(#[trigger] lines(listing)[i]).len() >= 2 && words(
            lines(listing)[i],
        )[1] == name
}

/// Whether the source list names `name`.
pub fn pulse_source_listed(listing: &str, name: &str) -> (b: bool)
    ensures
        b == source_listed_in(listing@, name@),
{
    let text = chars_of(listing);
    let want = chars_of(name);
    let ls = split_lines(&text);
    let mut i: usize = 0;
    while i < ls.len()
        invariant
            i <= ls.len(),
            views(ls@) == lines(listing@),
            text@ == listing@,
            want@ == name@,
            forall|k: int| 0 <= k < i ==> !(words(#[trigger] lines(listing@)[k]).len() >= 2 && words(lines(listing@)[k])[1] == name@),
        decreases ls.len() - i,
    {
        let ws = split_words(&ls[i]);
        assert(views(ls@)[i as int] == ls@[i as int]@);
        if ws.len() >= 2 {
            let field = &ws[1];
            assert(views(ws@)[1] == ws@[1]@);
            if same_chars(field, &want) {
                return true;
            }
        }
        i = i + 1;
    }
    false
}

fn same_chars(a: &Vec<char>, b: &Vec<char>) -> (r: bool)
    ensures
        r == (a@ == b@),
{
    if a.len() != b.len() {
        return false;
    }
    let mut i: usize = 0;
    while i < a.len()
        invariant
            a.len() == b.len(),
            i <= a.len(),
            forall|j: int| 0 <= j < i ==> #[trigger] a@[j] == b@[j],
        decreases a.len() - i,
    {
        if a[i] != b[i] {
            assert(a@[i as int] != b@[i as int]);
            return false;
        }
        i = i + 1;
    }
    assert(a@ =~= b@);
    true
}

/// Whether `pactl list modules short` output shows the native protocol
/// module on a unix socket loaded (some line mentions it).
pub open spec fn unix_protocol_listed(listing: Seq<char>) -> bool {
    exists|i: int|
        0 <= i < lines(listing).len() && contains_run(
            #[trigger] lines(listing)[i],
            "module-native-protocol-unix"@,
        )
}

/// Whether the module list shows the unix-socket protocol module.
pub fn unix_protocol_loaded(listing: &str) -> (b: bool)
    ensures
        b == unix_protocol_listed(listing@),
{
    let text = chars_of(listing);
    let pat = chars_of("module-native-protocol-unix");
    let ls = split_lines(&text);
    let mut i: usize = 0;
    while i < ls.len()
        invariant
            i <= ls.len(),
            views(ls@) == lines(listing@),
            pat@ == "module-native-protocol-unix"@,
            forall|k: int| 0 <= k < i ==> !contains_run(#[trigger] lines(listing@)[k], "module-native-protocol-unix"@),
        decreases ls.len() - i,
    {
        assert(views(ls@)[i as int] == ls@[i as int]@);
        if has_run(&ls[i], &pat) {
            return true;
        }
        i = i + 1;
    }
    false
}

/// The message when loading the unix-socket protocol module failed.
pub fn unix_protocol_load_error(stderr: &str) -> (s: String)
    ensures
        s@ == "could not load module-native-protocol-unix: "@ + trim(stderr@),
{
    let mut v: Vec<char> = Vec::new();
    push_str(&mut v, "could not load module-native-protocol-unix: ");
    let t = trim_chars(&chars_of(stderr));
    push_chars(&mut v, &t);
    string_from_chars(&v)
}

// ----------------------------------------------------------------------------
// Choosing a server
// ----------------------------------------------------------------------------

/// What was learned about the server being tried.
pub enum SearchEvent {
    /// Whether the server answered.
    Probed(bool),
    /// Loading the null sink gave this module id, or failed with this error.
    Loaded(Result<String, String>),
    /// Whether the sink's monitor source appeared after `module_id` loaded.
    MonitorChecked { module_id: String, exists: bool },
}

/// What to do next in the search.
pub enum SearchAction {
    /// Load the null sink on this server.
    Load,
    /// Check that the monitor source of the sink loaded as this module
    /// appeared.
    CheckMonitor(String),
    /// Unload this module, then try the next server.
    UnloadThenNext(String),
    /// Try the next server.
    Next,
    /// Capture from this server, through the sink loaded as this module.
    Use(String),
}

/// A model of a [`SearchAction`].
pub enum SearchActionModel {
    Load,
    CheckMonitor(Seq<char>),
    UnloadThenNext(Seq<char>),
    Next,
    Use(Seq<char>),
}

impl SearchAction {
    pub open spec fn model(&self) -> SearchActionModel {
        match self {
            SearchAction::Load => SearchActionModel::Load,
            SearchAction::CheckMonitor(m) => SearchActionModel::CheckMonitor(m@),
            SearchAction::UnloadThenNext(m) => SearchActionModel::UnloadThenNext(m@),
            SearchAction::Next => SearchActionModel::Next,
            SearchAction::Use(m) => SearchActionModel::Use(m@),
        }
    }
}

/// The problems met while trying servers, in order.
pub struct SinkSearch {
    pub errors: Vec<String>,
}

/// `parts` joined with `sep` between them.
pub open spec fn join(parts: Seq<Seq<char>>, sep: Seq<char>) -> Seq<char>
    decreases parts.len(),
{
    if parts.len() == 0 {
        Seq::empty()
    } else if parts.len() == 1 {
        parts[0]
    } else {
        join(parts.drop_last(), sep) + sep + parts.last()
    }
}

impl SinkSearch {
    pub open spec fn messages(&self) -> Seq<Seq<char>> {
        self.errors@.map_values(|e: String| e@)
    }

    pub fn new() -> (s: SinkSearch)
        ensures
            s.messages() == Seq::<Seq<char>>::empty(),
    {
        let s = SinkSearch { errors: Vec::new() };
        assert(s.messages() =~= Seq::<Seq<char>>::empty());
        s
    }

    fn record(&mut self, v: &Vec<char>)
        ensures
            final(self).messages() == old(self).messages().push(v@),
    {
        let s = string_from_chars(v);
        let ghost sv = s@;
        self.errors.push(s);
        assert(self.messages() =~= old(self).messages().push(sv));
    }

    /// Records that `server` did not answer.
    pub fn server_unreachable(&mut self, server: Option<&str>)
        ensures
            final(self).messages() == old(self).messages().push(
                "Pulse server "@ + server_label(opt_str_view(server)) + " not reachable"@,
            ),
    {
        let mut v: Vec<char> = Vec::new();
        push_str(&mut v, "Pulse server ");
        let d = describe_server(server);
        push_chars(&mut v, &chars_of(d.as_str()));
        push_str(&mut v, " not reachable");
        self.record(&v);
    }

    /// Records that the sink loaded on `server` but its monitor source did
    /// not appear.
    pub fn monitor_missing(&mut self, monitor: &str, server: Option<&str>)
        ensures
            final(self).messages() == old(self).messages().push(
                "Pulse monitor source "@ + monitor@ + " was not created on "@ + server_label(opt_str_view(server)),
            ),
    {
        let mut v: Vec<char> = Vec::new();
        push_str(&mut v, "Pulse monitor source ");
        push_str(&mut v, monitor);
        push_str(&mut v, " was not created on ");
        let d = describe_server(server);
        push_chars(&mut v, &chars_of(d.as_str()));
        self.record(&v);
    }

    /// Records that loading the sink on `server` failed with `err`.
    pub fn load_failed(&mut self, err: &str, server: Option<&str>)
        ensures
            final(self).messages() == old(self).messages().push(
                err@ + " ("@ + server_label(opt_str_view(server)) + ")"@,
            ),
    {
        let mut v = chars_of(err);
        push_str(&mut v, " (");
        let d = describe_server(server);
        push_chars(&mut v, &chars_of(d.as_str()));
        push_str(&mut v, ")");
        self.record(&v);
    }

    /// One step of trying `server` for a sink whose monitor source is
    /// `monitor`: an unreachable server, a failed load and a missing monitor
    /// are recorded and the search moves on (unloading the sink when it did
    /// load); a reachable server is loaded, a loaded sink's monitor is
    /// checked, and a sink whose monitor exists is the one to use.
    pub fn step(&mut self, monitor: &str, server: Option<&str>, event: SearchEvent) -> (action: SearchAction)
        ensures
            match event {
                SearchEvent::Probed(reachable) => if reachable {
                    action.model() == SearchActionModel::Load && final(self).messages() == old(self).messages()
                } else {
                    action.model() == SearchActionModel::Next && final(self).messages() == old(self).messages().push(
                        "Pulse server "@ + server_label(opt_str_view(server)) + " not reachable"@,
                    )
                },
                SearchEvent::Loaded(Ok(id)) => action.model() == SearchActionModel::CheckMonitor(id@)
                    && final(self).messages() == old(self).messages(),
                SearchEvent::Loaded(Err(err)) => action.model() == SearchActionModel::Next
                    && final(self).messages() == old(self).messages().push(
                    err@ + " ("@ + server_label(opt_str_view(server)) + ")"@,
                ),
                SearchEvent::MonitorChecked { module_id, exists } => if exists {
                    action.model() == SearchActionModel::Use(module_id@) && final(self).messages()
                        == old(self).messages()
                } else {
                    action.model() == SearchActionModel::UnloadThenNext(module_id@) && final(self).messages()
                        == old(self).messages().push(
                        "Pulse monitor source "@ + monitor@ + " was not created on "@ + server_label(
                            opt_str_view(server),
                        ),
                    )
                },
            },
    {
        match event {
            SearchEvent::Probed(reachable) => {
                if reachable {
                    SearchAction::Load
                } else {
                    self.server_unreachable(server);
                    SearchAction::Next
                }
            },
            SearchEvent::Loaded(Ok(id)) => SearchAction::CheckMonitor(id),
            SearchEvent::Loaded(Err(err)) => {
                self.load_failed(err.as_str(), server);
                SearchAction::Next
            },
            SearchEvent::MonitorChecked { module_id, exists } => {
                if exists {
                    SearchAction::Use(module_id)
                } else {
                    self.monitor_missing(monitor, server);
                    SearchAction::UnloadThenNext(module_id)
                }
            },
        }
    }

    /// The error when no server worked: every problem met, joined by `; `,
    /// or `no Pulse server available` when there was none.
    pub fn failure_message(&self) -> (s: String)
        ensures
            s@ == if self.messages().len() == 0 {
                "no Pulse server available"@
            } else {
                join(self.messages(), "; "@)
            },
    {
        let mut v: Vec<char> = Vec::new();
        if self.errors.len() == 0 {
            push_str(&mut v, "no Pulse server available");
            return string_from_chars(&v);
        }
        let mut i: usize = 0;
        while i < self.errors.len()
            invariant
                i <= self.errors.len(),
                v@ == join(self.messages().take(i as int), "; "@),
            decreases self.errors.len() - i,
        {
            let ghost before = v@;
            if i > 0 {
                push_str(&mut v, "; ");
            }
            let e = chars_of(self.errors[i].as_str());
            push_chars(&mut v, &e);
            i = i + 1;
            let ghost t = self.messages().take(i as int);
            assert(t.drop_last() =~= self.messages().take(i - 1));
            assert(t.last() == self.messages()[i - 1]);
            if i == 1 {
                assert(self.messages().take(0) =~= Seq::<Seq<char>>::empty());
                assert(v@ =~= t[0]);
            }
        }
        assert(self.messages().take(self.errors.len() as int) =~= self.messages());
        string_from_chars(&v)
    }
}

/// The sample rate to resample a decoded frame from: the frame's own rate,
/// else the stream's; `None` (skip the frame) when neither is positive.
pub fn frame_sample_rate(frame_rate: i32, stream_rate: i32) -> (r: Option<i32>)
    ensures
        r == if frame_rate > 0 {
            Some(frame_rate)
        } else if stream_rate > 0 {
            Some(stream_rate)
        } else {
            None::<i32>
        },
{
    let rate: i32 = if frame_rate > 0 { frame_rate } else { stream_rate };
    if rate <= 0 { None } else { Some(rate) }
}

/// Room, in samples per channel, for resampling `nb_samples` decoded
/// samples from `from_rate` to `to_rate`, with 256 samples of slack, as a C
/// `int` (truncated like the cast it is).
pub fn max_resampled_samples(nb_samples: i32, to_rate: u32, from_rate: i32) -> (n: i32)
    requires
        nb_samples >= 0,
        from_rate > 0,
    ensures
        n == (((nb_samples as int) * (to_rate as int)) / (from_rate as int) + 256) as i32,
{
    assert(0 <= (nb_samples as int) * (to_rate as int) <= 2147483647int * 4294967295int) by (nonlinear_arith)
        requires
            0 <= nb_samples <= 2147483647,
            0 <= to_rate <= 4294967295u64,
    ;
    let prod: i64 = nb_samples as i64 * to_rate as i64;
    let q: i64 = prod / from_rate as i64;
    assert(0 <= q <= prod) by (nonlinear_arith)
        requires
            0 <= prod,
            from_rate >= 1,
            q == prod / (from_rate as i64),
    ;
    #[verifier::truncate]
    ((q + 256) as i32)
}

/// Ring buffer capacity for two seconds of interleaved samples (at least
/// one sample).
pub fn ring_capacity(sample_rate: u32, channels: u16) -> (n: usize)
    requires
        sample_rate * channels * 2 <= usize::MAX,
    ensures
        n == if sample_rate * channels * 2 == 0 {
            1
        } else {
            sample_rate * channels * 2
        },
{
    let n: usize = sample_rate as usize * channels as usize * 2;
    if n == 0 { 1 } else { n }
}

} // verus!
