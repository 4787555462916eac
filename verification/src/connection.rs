//! Decisions around the core process: which process handles are held, how
//! the start-up wait goes, whether a port is listening, where the binaries
//! are looked for, and which GNOME proxy settings are written.
use vstd::prelude::*;
use crate::text::{
    chars_of, contains_chars, contains_seq, decimal, decimal_chars, is_ascii_digit,
    lemma_decimal_digits, lemma_decimal_injective, string_from_range, text_from_utf8_lossy,
    text_starts_with, utf8_lossy,
};

verus! {

// ---------------------------------------------------------------------------
// Process handles
// ---------------------------------------------------------------------------

/// The running core: its process id, and its handle (of type `C`).
pub struct CoreSlots<C> {
    pub pid: Option<u32>,
    pub child: Option<C>,
}

impl<C> CoreSlots<C> {
    /// No core running.
    pub fn new() -> (res: CoreSlots<C>)
        ensures
            res.pid is None,
            res.child is None,
    {
        CoreSlots { pid: None, child: None }
    }

    /// Takes the process id whose process tree is to be killed, if any.
    pub fn kill_core(&mut self) -> (res: Option<u32>)
        ensures
            res == old(self).pid,
            final(self).pid is None,
            final(self).child == old(self).child,
    {
        self.pid.take()
    }

    /// Takes the handle of the previous core, to be killed and awaited.
    pub fn take_child(&mut self) -> (res: Option<C>)
        ensures
            res == old(self).child,
            final(self).child is None,
            final(self).pid == old(self).pid,
    {
        self.child.take()
    }

    /// Records a newly started core: first its id, then its handle.
    pub fn record_started(&mut self, pid: u32, child: C)
        ensures
            final(self).pid == Some(pid),
            final(self).child == Some(child),
    {
        self.pid = Some(pid);
        self.child = Some(child);
    }

    /// Takes everything there is to stop: first the process id (its tree is
    /// killed), then the handle (killed and awaited). Nothing stays held.
    pub fn disconnect_internal(&mut self) -> (res: (Option<u32>, Option<C>))
        ensures
            res == (old(self).pid, old(self).child),
            final(self).pid is None,
            final(self).child is None,
    {
        let pid = self.kill_core();
        let child = self.take_child();
        (pid, child)
    }
}

// ---------------------------------------------------------------------------
// Waiting for the core to listen
// ---------------------------------------------------------------------------

/// The local SOCKS port of the tunnel.
pub const SOCKS_PORT: u16 = 10808;

/// The local HTTP proxy port of the tunnel.
pub const HTTP_PORT: u16 = 10809;

/// How many times the ports are probed before giving up.
pub const STARTUP_ATTEMPTS: u32 = 30;

/// Every how many attempts a progress note is logged.
pub const PROGRESS_EVERY: u32 = 4;

/// What to do after one probe of the starting core.
pub enum StartupStep {
    /// The core process is gone: the connection fails.
    Died,
    /// A port is listening at this attempt: the connection is up.
    Ready(u32),
    /// Not yet listening; probe again, logging progress when `report`.
    Waiting { attempt: u32, report: bool },
    /// The last attempt passed without a listening port: stop the core.
    TimedOut,
}

/// The start-up wait: how many probes have been made.
pub struct StartupWatch {
    pub attempts: u32,
}

impl StartupWatch {
    pub fn new() -> (res: StartupWatch)
        ensures
            res.attempts == 0,
    {
        StartupWatch { attempts: 0 }
    }

    /// Takes the outcome of one probe: whether the core process is alive
    /// and, if so, whether one of the proxy ports is listening.
    pub fn observe(&mut self, alive: bool, listening: bool) -> (res: StartupStep)
        requires
            old(self).attempts < STARTUP_ATTEMPTS,
        ensures
            final(self).attempts == old(self).attempts + 1,
            !alive ==> res == StartupStep::Died,
            alive && listening ==> res == StartupStep::Ready(final(self).attempts),
            alive && !listening && final(self).attempts < STARTUP_ATTEMPTS ==> res
                == (StartupStep::Waiting {
                    attempt: final(self).attempts,
                    report: final(self).attempts % PROGRESS_EVERY == 0,
                }),
            alive && !listening && final(self).attempts == STARTUP_ATTEMPTS ==> res
                == StartupStep::TimedOut,
    {
        self.attempts = self.attempts + 1;
        if !alive {
            StartupStep::Died
        } else if listening {
            StartupStep::Ready(self.attempts)
        } else if self.attempts < STARTUP_ATTEMPTS {
            StartupStep::Waiting {
                attempt: self.attempts,
                report: self.attempts % PROGRESS_EVERY == 0,
            }
        } else {
            StartupStep::TimedOut
        }
    }
}

// ---------------------------------------------------------------------------
// Listening ports
// ---------------------------------------------------------------------------

/// How `netstat -ano` shows a local port: a colon, the port, then a tab
/// or a space.
pub open spec fn port_column(port: u16, end: char) -> Seq<char> {
    seq![':'] + decimal(port as nat) + seq![end]
}

/// `text` shows `port`, exactly (so `:1080` is not found in `:10808`).
pub open spec fn lists_port(text: Seq<char>, port: u16) -> bool {
    contains_seq(text, port_column(port, '\t')) || contains_seq(text, port_column(port, ' '))
}

fn port_column_chars(port: u16, end: char) -> (res: Vec<char>)
    ensures
        res@ == port_column(port, end),
{
    let mut res: Vec<char> = Vec::new();
    res.push(':');
    let digits = decimal_chars(port as u32);
    let mut i: usize = 0;
    while i < digits.len()
        invariant
            i <= digits.len(),
            res@ == seq![':'] + digits@.take(i as int),
        decreases digits.len() - i,
    {
        res.push(digits[i]);
        i += 1;
        assert(res@ =~= seq![':'] + digits@.take(i as int));
    }
    res.push(end);
    assert(digits@.take(i as int) =~= digits@);
    assert(res@ =~= port_column(port, end));
    res
}

/// Whether the output of `netstat -ano` (read as lossy UTF-8) shows
/// `port` listening.
pub fn is_port_listed(netstat_output: &[u8], port: u16) -> (res: bool)
    ensures
        res == lists_port(utf8_lossy(netstat_output@), port),
{
    let text = text_from_utf8_lossy(netstat_output);
    let v = chars_of(text.as_str());
    contains_chars(&v, &port_column_chars(port, '\t')) || contains_chars(
        &v,
        &port_column_chars(port, ' '),
    )
}

#[verifier::spinoff_prover]
proof fn lemma_column_match(q: u16, sep: char, p: u16, e: char)
    requires
        sep == ' ' || sep == '\t',
        e == ' ' || e == '\t',
        contains_seq(port_column(q, sep), port_column(p, e)),
    ensures
        p == q,
{
    let t = port_column(q, sep);
    let n = port_column(p, e);
    let dq = decimal(q as nat);
    let dp = decimal(p as nat);
    lemma_decimal_digits(q as nat);
    lemma_decimal_digits(p as nat);
    let i = choose|i: int| 0 <= i && i + n.len() <= t.len() && #[trigger] t.subrange(i, i + n.len()) == n;
    assert(t.subrange(i, i + n.len())[0] == n[0]);
    assert(n[0] == ':');
    if i > 0 {
        if i < t.len() - 1 {
            assert(t[i] == dq[i - 1]);
            assert(is_ascii_digit(dq[i - 1]));
        }
        assert(false);
    }
    let m = n.len() - 1;
    assert(n[m] == e);
    assert(t.subrange(0, n.len() as int)[m] == t[m]);
    if m < t.len() - 1 {
        assert(t[m] == dq[m - 1]);
        assert(is_ascii_digit(dq[m - 1]));
        assert(false);
    }
    assert(n.len() == t.len());
    assert(t.subrange(0, t.len() as int) =~= t);
    assert(dp =~= n.subrange(1, n.len() - 1));
    assert(dq =~= t.subrange(1, t.len() - 1));
    lemma_decimal_injective(p as nat, q as nat);
}

/// The port check is exact: a `netstat` column showing port `q` shows port
/// `p` exactly when `p` is `q` (so `:10808` does not show port 1080).
pub proof fn law_port_check_is_exact(q: u16, sep: char, p: u16)
    requires
        sep == ' ' || sep == '\t',
    ensures
        lists_port(port_column(q, sep), p) <==> p == q,
{
    let t = port_column(q, sep);
    if p == q {
        assert(port_column(p, sep) == t);
        assert(t.subrange(0int, 0int + t.len()) =~= t);
    }
    if lists_port(t, p) {
        if contains_seq(t, port_column(p, '\t')) {
            lemma_column_match(q, sep, p, '\t');
        } else {
            lemma_column_match(q, sep, p, ' ');
        }
    }
}

// ---------------------------------------------------------------------------
// Paths
// ---------------------------------------------------------------------------

/// The Windows verbatim prefix `\\?\`.
pub open spec fn verbatim_prefix() -> Seq<char> {
    seq!['\\', '\\', '?', '\\']
}

/// `path` without a leading `\\?\`.
pub open spec fn normalized(path: Seq<char>) -> Seq<char> {
    if verbatim_prefix().is_prefix_of(path) {
        path.skip(4)
    } else {
        path
    }
}

/// Drops the verbatim prefix `\\?\` that Windows puts before some paths.
pub fn normalize_path(path: &str) -> (res: String)
    ensures
        res@ == normalized(path@),
{
    proof {
        reveal_strlit("\\\\?\\");
        assert("\\\\?\\"@ =~= verbatim_prefix());
    }
    let v = chars_of(path);
    if text_starts_with(path, "\\\\?\\") {
        assert(path@.skip(4) =~= v@.subrange(4, v@.len() as int));
        string_from_range(&v, 4, v.len())
    } else {
        path.to_owned()
    }
}


/// The file name of the core binary.
pub const CORE_BINARY: &'static str = "max-strike-core.exe";

/// The file name of the Xray binary.
pub const XRAY_BINARY: &'static str = "xray.exe";

/// A path to try: `base` joined with each of `parts` in turn.
pub struct PathCandidate {
    pub base: String,
    pub parts: Vec<String>,
}

impl View for PathCandidate {
    type V = (Seq<char>, Seq<Seq<char>>);

    open spec fn view(&self) -> (Seq<char>, Seq<Seq<char>>) {
        (self.base@, self.parts@.map_values(|p: String| p@))
    }
}

/// The three places a binary may be in under `dir`: the directory itself,
/// its `core` folder, and `_up_/core` (where bundling puts resources).
pub open spec fn layouts(dir: Seq<char>, file: Seq<char>) -> Seq<(Seq<char>, Seq<Seq<char>>)> {
    seq![(dir, seq![file]), (dir, seq!["core"@, file]), (dir, seq!["_up_"@, "core"@, file])]
}

/// Where a binary is looked for, in order: under the resource directory,
/// then under the executable's directory (both without a verbatim prefix),
/// then in the `core` folder of the working directory.
pub open spec fn candidate_paths(
    resource_dir: Option<Seq<char>>,
    exe_dir: Option<Seq<char>>,
    cwd: Option<Seq<char>>,
    file: Seq<char>,
) -> Seq<(Seq<char>, Seq<Seq<char>>)> {
    (match resource_dir {
        Some(d) => layouts(normalized(d), file),
        None => seq![],
    }) + (match exe_dir {
        Some(d) => layouts(normalized(d), file),
        None => seq![],
    }) + (match cwd {
        Some(d) => seq![(d, seq!["core"@, file])],
        None => seq![],
    })
}

pub open spec fn candidate_views(c: Seq<PathCandidate>) -> Seq<(Seq<char>, Seq<Seq<char>>)> {
    c.map_values(|p: PathCandidate| p@)
}

fn candidate(base: &String, parts: Vec<String>) -> (res: PathCandidate)
    ensures
        res.base@ == base@,
        res.parts@ == parts@,
{
    PathCandidate { base: base.clone(), parts }
}

fn push_layouts(out: &mut Vec<PathCandidate>, dir: &String, file: &str)
    ensures
        candidate_views(final(out)@) == candidate_views(old(out)@) + layouts(dir@, file@),
{
    let mut p1: Vec<String> = Vec::new();
    p1.push(file.to_owned());
    let mut p2: Vec<String> = Vec::new();
    p2.push("core".to_owned());
    p2.push(file.to_owned());
    let mut p3: Vec<String> = Vec::new();
    p3.push("_up_".to_owned());
    p3.push("core".to_owned());
    p3.push(file.to_owned());
    let c1 = candidate(dir, p1);
    let c2 = candidate(dir, p2);
    let c3 = candidate(dir, p3);
    assert(c1@ == (dir@, seq![file@]));
    assert(c2@ == (dir@, seq!["core"@, file@]));
    assert(c3@ == (dir@, seq!["_up_"@, "core"@, file@]));
    let ghost before = out@;
    out.push(c1);
    out.push(c2);
    out.push(c3);
    assert(candidate_views(out@) =~= candidate_views(before) + layouts(dir@, file@));
}

/// The paths where a binary named `file` is looked for.
pub fn binary_candidates(
    resource_dir: Option<String>,
    exe_dir: Option<String>,
    cwd: Option<String>,
    file: &str,
) -> (res: Vec<PathCandidate>)
    ensures
        candidate_views(res@) == candidate_paths(
            resource_dir.deep_view(),
            exe_dir.deep_view(),
            cwd.deep_view(),
            file@,
        ),
{
    let mut out: Vec<PathCandidate> = Vec::new();
    assert(candidate_views(out@) =~= Seq::<(Seq<char>, Seq<Seq<char>>)>::empty());
    match &resource_dir {
        Some(d) => {
            let dir = normalize_path(d.as_str());
            push_layouts(&mut out, &dir, file);
        },
        None => {},
    }
    let ghost after_resources = candidate_views(out@);
    match &exe_dir {
        Some(d) => {
            let dir = normalize_path(d.as_str());
            push_layouts(&mut out, &dir, file);
        },
        None => {},
    }
    let ghost after_exe = candidate_views(out@);
    match &cwd {
        Some(d) => {
            let mut parts: Vec<String> = Vec::new();
            parts.push("core".to_owned());
            parts.push(file.to_owned());
            let c = candidate(d, parts);
            assert(c@ == (d@, seq!["core"@, file@]));
            out.push(c);
            assert(candidate_views(out@) =~= after_exe + seq![(d@, seq!["core"@, file@])]);
        },
        None => {
            assert(candidate_views(out@) =~= after_exe + Seq::<(Seq<char>, Seq<Seq<char>>)>::empty());
        },
    }
    out
}

/// The path chosen among `paths`, of which the first `found.len()` were
/// checked in order: the first one found, else the first path, else the
/// bare file name.
pub open spec fn chosen_path(paths: Seq<Seq<char>>, found: Seq<bool>, file: Seq<char>) -> Seq<
    char,
> {
    match found.index_of_first(true) {
        Some(i) => paths[i],
        None => if paths.len() > 0 {
            paths[0]
        } else {
            file
        },
    }
}

/// Picks the binary to run among the checked candidate paths.
pub fn pick_binary(paths: &Vec<String>, found: &Vec<bool>, file: &str) -> (res: String)
    requires
        found.len() <= paths.len(),
    ensures
        res@ == chosen_path(paths@.map_values(|p: String| p@), found@, file@),
{
    proof {
        found@.index_of_first_ensures(true);
    }
    let mut i: usize = 0;
    while i < found.len()
        invariant
            i <= found.len() <= paths.len(),
            forall|k: int| 0 <= k < i ==> !found@[k],
        decreases found.len() - i,
    {
        if found[i] {
            proof {
                found@.index_of_first_ensures(true);
                if found@.index_of_first(true) != Some(i as int) {
                    let j = found@.index_of_first(true).unwrap();
                    assert(found@[j]);
                }
            }
            return paths[i].clone();
        }
        i += 1;
    }
    proof {
        if found@.index_of_first(true) is Some {
            let j = found@.index_of_first(true).unwrap();
            assert(found@[j]);
        }
    }
    if paths.len() > 0 {
        paths[0].clone()
    } else {
        file.to_owned()
    }
}


// ---------------------------------------------------------------------------
// System proxy (GNOME)
// ---------------------------------------------------------------------------

/// One GNOME setting to write: `gsettings set <schema> <key> <value>`, the
/// value in GVariant text.
pub struct ProxySetting {
    pub schema: String,
    pub key: String,
    pub value: String,
}

impl View for ProxySetting {
    type V = (Seq<char>, Seq<char>, Seq<char>);

    open spec fn view(&self) -> (Seq<char>, Seq<char>, Seq<char>) {
        (self.schema@, self.key@, self.value@)
    }
}

pub open spec fn setting_views(s: Seq<ProxySetting>) -> Seq<(Seq<char>, Seq<char>, Seq<char>)> {
    s.map_values(|p: ProxySetting| p@)
}

/// The addresses the proxy is bypassed for: the machine itself and the
/// private and link-local networks.
pub open spec fn proxy_bypass_hosts() -> Seq<char> {
    "['localhost', '127.0.0.0/8', '::1', '10.0.0.0/8', '172.16.0.0/12', '192.168.0.0/16', '169.254.0.0/16']"@
}

/// Turning the GNOME system proxy on: manual mode, HTTP and HTTPS through
/// the tunnel's HTTP port on 127.0.0.1, local and LAN addresses bypassed.
pub open spec fn proxy_on_settings() -> Seq<(Seq<char>, Seq<char>, Seq<char>)> {
    seq![
        ("org.gnome.system.proxy.http"@, "host"@, "'127.0.0.1'"@),
        ("org.gnome.system.proxy.http"@, "port"@, decimal(HTTP_PORT as nat)),
        ("org.gnome.system.proxy.https"@, "host"@, "'127.0.0.1'"@),
        ("org.gnome.system.proxy.https"@, "port"@, decimal(HTTP_PORT as nat)),
        ("org.gnome.system.proxy"@, "ignore-hosts"@, proxy_bypass_hosts()),
        ("org.gnome.system.proxy"@, "mode"@, "'manual'"@),
    ]
}

/// Turning the GNOME system proxy off: mode `none`.
pub open spec fn proxy_off_settings() -> Seq<(Seq<char>, Seq<char>, Seq<char>)> {
    seq![("org.gnome.system.proxy"@, "mode"@, "'none'"@)]
}

fn setting(schema: &str, key: &str, value: String) -> (res: ProxySetting)
    ensures
        res@ == (schema@, key@, value@),
{
    ProxySetting { schema: schema.to_owned(), key: key.to_owned(), value }
}

/// The text of a number in decimal.
fn decimal_string(n: u16) -> (res: String)
    ensures
        res@ == decimal(n as nat),
{
    let v = decimal_chars(n as u32);
    assert(v@.subrange(0, v@.len() as int) =~= v@);
    string_from_range(&v, 0, v.len())
}

/// The GNOME settings, in the order they are written, that turn the system
/// proxy on or off.
pub fn system_proxy_settings(enabled: bool) -> (res: Vec<ProxySetting>)
    ensures
        setting_views(res@) == if enabled {
            proxy_on_settings()
        } else {
            proxy_off_settings()
        },
{
    let mut res: Vec<ProxySetting> = Vec::new();
    if enabled {
        res.push(setting("org.gnome.system.proxy.http", "host", "'127.0.0.1'".to_owned()));
        res.push(setting("org.gnome.system.proxy.http", "port", decimal_string(HTTP_PORT)));
        res.push(setting("org.gnome.system.proxy.https", "host", "'127.0.0.1'".to_owned()));
        res.push(setting("org.gnome.system.proxy.https", "port", decimal_string(HTTP_PORT)));
        res.push(
            setting(
                "org.gnome.system.proxy",
                "ignore-hosts",
                "['localhost', '127.0.0.0/8', '::1', '10.0.0.0/8', '172.16.0.0/12', '192.168.0.0/16', '169.254.0.0/16']".to_owned(),
            ),
        );
        res.push(setting("org.gnome.system.proxy", "mode", "'manual'".to_owned()));
        assert(setting_views(res@) =~= proxy_on_settings());
    } else {
        res.push(setting("org.gnome.system.proxy", "mode", "'none'".to_owned()));
        assert(setting_views(res@) =~= proxy_off_settings());
    }
    res
}

/// The answer to a change of the system proxy: done, or the error text of
/// the first setting that could not be written.
pub fn proxy_update_result(failure: Option<String>) -> (res: Result<String, String>)
    ensures
        match failure {
            None => res matches Ok(m) && m@ == "System proxy updated"@,
            Some(e) => res matches Err(m) && m@ == "gsettings failed: "@ + e@,
        },
{
    match failure {
        None => Ok("System proxy updated".to_owned()),
        Some(e) => {
            let mut m = "gsettings failed: ".to_owned();
            m.append(e.as_str());
            Err(m)
        },
    }
}


/// Wherever in the output the port's column stands (on any line, after
/// any text), the port is found listening.
pub proof fn law_port_found_anywhere(a: Seq<char>, b: Seq<char>, p: u16, sep: char)
    requires
        sep == ' ' || sep == '\t',
    ensures
        lists_port(a + port_column(p, sep) + b, p),
{
    let n = port_column(p, sep);
    let t = a + n + b;
    assert(t.subrange(a.len() as int, a.len() as int + n.len()) =~= n);
    assert(contains_seq(t, port_column(p, sep)));
}

} // verus!
