//! Where the desktop shell keeps user data and CLI state, as POSIX paths.
use vstd::prelude::*;
use crate::json::JsonValue;
use crate::parity::is_json_text;
use crate::service_registry::{service_name, ServiceError, ServiceId};
use crate::text::{chars_of, concat2, owned, push_char, push_str, str_eq, string_from_chars};

verus! {

/// What `PathBuf::join` gives on POSIX: an absolute `part` replaces `base`;
/// otherwise a separator is added unless `base` is empty or already ends
/// with one.
pub open spec fn join_spec(base: Seq<char>, part: Seq<char>) -> Seq<char> {
    if part.len() > 0 && part[0] == '/' {
        part
    } else if base.len() == 0 || base.last() == '/' {
        base + part
    } else {
        base + seq!['/'] + part
    }
}

/// Joins a path component onto a path.
pub fn path_join(base: &str, part: &str) -> (out: String)
    ensures
        out@ == join_spec(base@, part@),
{
    let p = chars_of(part);
    if p.len() > 0 && p[0] == '/' {
        return owned(part);
    }
    let b = chars_of(base);
    let mut out = owned(base);
    if !(b.len() == 0 || b[b.len() - 1] == '/') {
        push_char(&mut out, '/');
    }
    push_str(&mut out, part);
    out
}

/// The characters a workspace id may keep; others become `_`.
pub open spec fn keep_workspace_char(c: char) -> bool {
    ('a' <= c <= 'z') || ('A' <= c <= 'Z') || ('0' <= c <= '9') || c == '-' || c == '_' || c == '.'
}

/// A workspace id made safe for use as a directory name.
pub open spec fn sanitize_workspace_spec(w: Seq<char>) -> Seq<char> {
    if w.len() == 0 {
        "default"@
    } else {
        w.map_values(|c: char| if keep_workspace_char(c) { c } else { '_' })
    }
}

/// Sanitising a workspace id keeps its length and every ASCII letter (either
/// case), digit, `.`, `_` and `-` where it stands, and puts `_` in place of
/// every other character; only an empty id becomes `default`.
pub proof fn lemma_sanitize_workspace_chars(w: Seq<char>)
    ensures
        w.len() == 0 ==> sanitize_workspace_spec(w) == "default"@,
        w.len() > 0 ==> sanitize_workspace_spec(w).len() == w.len(),
        w.len() > 0 ==> forall|i: int| 0 <= i < w.len() ==> {
            let c = #[trigger] w[i];
            let safe = ('a' <= c <= 'z') || ('A' <= c <= 'Z') || ('0' <= c <= '9') || c == '.' || c == '_' || c == '-';
            &&& safe ==> sanitize_workspace_spec(w)[i] == c
            &&& !safe ==> sanitize_workspace_spec(w)[i] == '_'
        },
{
}

/// A non-empty id made only of ASCII letters (either case), digits, `.`,
/// `_` and `-` is its own sanitised form, so two such ids never share a
/// state directory.
pub proof fn lemma_safe_workspace_id_unchanged(w: Seq<char>, v: Seq<char>)
    requires
        w.len() > 0,
        forall|i: int| 0 <= i < w.len() ==> {
            let c = #[trigger] w[i];
            ('a' <= c <= 'z') || ('A' <= c <= 'Z') || ('0' <= c <= '9') || c == '.' || c == '_' || c == '-'
        },
    ensures
        sanitize_workspace_spec(w) == w,
        sanitize_workspace_spec(w) == sanitize_workspace_spec(v) && v.len() > 0 && (forall|i: int| 0 <= i < v.len() ==> {
            let c = #[trigger] v[i];
            ('a' <= c <= 'z') || ('A' <= c <= 'Z') || ('0' <= c <= '9') || c == '.' || c == '_' || c == '-'
        }) ==> w == v,
{
    assert(sanitize_workspace_spec(w) =~= w);
    if v.len() > 0 && (forall|i: int| 0 <= i < v.len() ==> {
        let c = #[trigger] v[i];
        ('a' <= c <= 'z') || ('A' <= c <= 'Z') || ('0' <= c <= '9') || c == '.' || c == '_' || c == '-'
    }) {
        assert(sanitize_workspace_spec(v) =~= v);
    }
}

/// Joining an absolute part gives that part; joining a relative one keeps
/// the base as a prefix and the part as a suffix, with exactly one `/`
/// between them unless the base is empty or already ends with one.
pub proof fn lemma_join_shape(base: Seq<char>, part: Seq<char>)
    ensures
        part.len() > 0 && part[0] == '/' ==> join_spec(base, part) == part,
        !(part.len() > 0 && part[0] == '/') ==> {
            let r = join_spec(base, part);
            &&& r.take(base.len() as int) == base
            &&& r.skip(r.len() - part.len()) == part
            &&& r.len() == base.len() + part.len() + (if base.len() == 0 || base.last() == '/' { 0int } else { 1int })
            &&& r.len() > base.len() + part.len() ==> r[base.len() as int] == '/'
        },
{
    if !(part.len() > 0 && part[0] == '/') {
        let r = join_spec(base, part);
        if base.len() == 0 || base.last() == '/' {
            assert(r.take(base.len() as int) =~= base);
            assert(r.skip(r.len() - part.len()) =~= part);
        } else {
            assert(r.take(base.len() as int) =~= base);
            assert(r.skip(r.len() - part.len()) =~= part);
        }
    }
}

/// A sanitised workspace id is never empty and holds no `/`.
proof fn lemma_sanitized_plain(w: Seq<char>)
    ensures
        sanitize_workspace_spec(w).len() > 0,
        forall|i: int| 0 <= i < sanitize_workspace_spec(w).len() ==> #[trigger] sanitize_workspace_spec(w)[i] != '/',
{
    reveal_strlit("default");
}

/// The state file of a workspace under a user data root is
/// `<workspace storage>/<sanitised id>/state.json`; two workspaces share a
/// state file exactly when their ids sanitise to the same name.
pub proof fn lemma_workspace_state_files_distinct(root: Seq<char>, w: Seq<char>, v: Seq<char>)
    ensures
        ({
            let home = join_spec(join_spec(root, "User"@), "workspaceStorage"@);
            let fw = join_spec(join_spec(home, sanitize_workspace_spec(w)), "state.json"@);
            let fv = join_spec(join_spec(home, sanitize_workspace_spec(v)), "state.json"@);
            &&& fw == home + "/"@ + sanitize_workspace_spec(w) + "/state.json"@
            &&& (fw == fv <==> sanitize_workspace_spec(w) == sanitize_workspace_spec(v))
        }),
{
    reveal_strlit("User");
    reveal_strlit("workspaceStorage");
    reveal_strlit("state.json");
    reveal_strlit("/");
    reveal_strlit("/state.json");
    let user = join_spec(root, "User"@);
    assert(user.len() > 0 && user.last() == 'r');
    let home = join_spec(user, "workspaceStorage"@);
    assert(home.len() > 0 && home.last() == 'e');
    let sw = sanitize_workspace_spec(w);
    let sv = sanitize_workspace_spec(v);
    lemma_sanitized_plain(w);
    lemma_sanitized_plain(v);
    assert(sw[0] != '/' && sv[0] != '/');
    let dw = join_spec(home, sw);
    let dv = join_spec(home, sv);
    assert(dw == home + seq!['/'] + sw);
    assert(dv == home + seq!['/'] + sv);
    assert(dw.last() == sw.last());
    assert(dv.last() == sv.last());
    let fw = join_spec(dw, "state.json"@);
    let fv = join_spec(dv, "state.json"@);
    assert(fw =~= home + "/"@ + sw + "/state.json"@);
    assert(fv =~= home + "/"@ + sv + "/state.json"@);
    if fw == fv {
        assert(sw.len() == sv.len());
        assert(sw =~= fw.subrange(home.len() as int + 1, home.len() as int + 1 + sw.len()));
        assert(sv =~= fv.subrange(home.len() as int + 1, home.len() as int + 1 + sv.len()));
    }
}

/// Replaces every character outside `[A-Za-z0-9._-]` by `_`; an empty id
/// becomes `default`.
pub fn sanitize_workspace_id(workspace: &str) -> (out: String)
    ensures
        out@ == sanitize_workspace_spec(workspace@),
{
    let w = chars_of(workspace);
    if w.len() == 0 {
        return owned("default");
    }
    let mut v: Vec<char> = Vec::new();
    let mut i: usize = 0;
    while i < w.len()
        invariant
            i <= w.len(),
            v@ == w@.take(i as int).map_values(|c: char| if keep_workspace_char(c) { c } else { '_' }),
        decreases w.len() - i,
    {
        let c = w[i];
        let keep = ('a' <= c && c <= 'z') || ('A' <= c && c <= 'Z') || ('0' <= c && c <= '9') || c == '-'
            || c == '_' || c == '.';
        v.push(if keep { c } else { '_' });
        proof {
            assert(w@.take(i + 1) =~= w@.take(i as int).push(c));
            assert(w@.take(i + 1).map_values(|c: char| if keep_workspace_char(c) { c } else { '_' }) =~= w@.take(
                i as int,
            ).map_values(|c: char| if keep_workspace_char(c) { c } else { '_' }).push(if keep { c } else { '_' }));
        }
        i = i + 1;
    }
    proof { assert(w@.take(w@.len() as int) =~= w@); }
    string_from_chars(&v)
}

/// The locations of the settings and state files under a user data root.
#[derive(Debug, Clone)]
pub struct UserDataPaths {
    root: String,
}

impl View for UserDataPaths {
    type V = Seq<char>;

    closed spec fn view(&self) -> Seq<char> {
        self.root@
    }
}

impl UserDataPaths {
    pub fn new(root: String) -> (p: UserDataPaths)
        ensures
            p@ == root@,
    {
        UserDataPaths { root }
    }

    /// The user data root.
    pub fn root(&self) -> (r: &str)
        ensures
            r@ == self@,
    {
        self.root.as_str()
    }

    /// `<root>/User`.
    pub fn user_dir(&self) -> (r: String)
        ensures
            r@ == join_spec(self@, "User"@),
    {
        path_join(self.root.as_str(), "User")
    }

    /// `<root>/User/settings.json`.
    pub fn settings_resource(&self) -> (r: String)
        ensures
            r@ == join_spec(join_spec(self@, "User"@), "settings.json"@),
    {
        let dir = self.user_dir();
        path_join(dir.as_str(), "settings.json")
    }

    /// `<root>/User/globalState.json`.
    pub fn global_state_resource(&self) -> (r: String)
        ensures
            r@ == join_spec(join_spec(self@, "User"@), "globalState.json"@),
    {
        let dir = self.user_dir();
        path_join(dir.as_str(), "globalState.json")
    }

    /// `<root>/User/workspaceStorage`.
    pub fn workspace_storage_home(&self) -> (r: String)
        ensures
            r@ == join_spec(join_spec(self@, "User"@), "workspaceStorage"@),
    {
        let dir = self.user_dir();
        path_join(dir.as_str(), "workspaceStorage")
    }

    /// `<root>/User/workspaceStorage/<sanitized workspace>/state.json`.
    pub fn workspace_state_resource(&self, workspace: &str) -> (r: String)
        ensures
            r@ == join_spec(
                join_spec(
                    join_spec(join_spec(self@, "User"@), "workspaceStorage"@),
                    sanitize_workspace_spec(workspace@),
                ),
                "state.json"@,
            ),
    {
        let home = self.workspace_storage_home();
        let id = sanitize_workspace_id(workspace);
        let dir = path_join(home.as_str(), id.as_str());
        path_join(dir.as_str(), "state.json")
    }
}

/// The product directory name under the per-user configuration directory.
pub open spec fn product_name_long() -> Seq<char> {
    "Code - OSS"@
}

/// The default user data root on Linux: the portable directory when given,
/// else `$XDG_CONFIG_HOME`, else `$HOME/.config`, else the temporary
/// directory, each followed by the product name.
pub open spec fn default_user_data_root_spec(
    portable: Option<Seq<char>>,
    home: Option<Seq<char>>,
    xdg_config_home: Option<Seq<char>>,
    temp_dir: Seq<char>,
) -> Seq<char> {
    match portable {
        Some(p) => join_spec(p, "user-data"@),
        None => {
            let base = match xdg_config_home {
                Some(x) => x,
                None => match home {
                    Some(h) => join_spec(h, ".config"@),
                    None => temp_dir,
                },
            };
            join_spec(base, product_name_long())
        },
    }
}

pub open spec fn opt_str_view(o: Option<&str>) -> Option<Seq<char>> {
    match o {
        Some(s) => Some(s@),
        None => None,
    }
}

/// Picks the default user data root from the environment values the caller
/// read; `temp_dir` is used when neither `XDG_CONFIG_HOME` nor `HOME` is set.
pub fn default_user_data_root_for_environment(
    portable: Option<&str>,
    home: Option<&str>,
    xdg_config_home: Option<&str>,
    temp_dir: &str,
) -> (r: String)
    ensures
        r@ == default_user_data_root_spec(
            opt_str_view(portable),
            opt_str_view(home),
            opt_str_view(xdg_config_home),
            temp_dir@,
        ),
{
    match portable {
        Some(p) => path_join(p, "user-data"),
        None => {
            let base = match xdg_config_home {
                Some(x) => owned(x),
                None => match home {
                    Some(h) => path_join(h, ".config"),
                    None => owned(temp_dir),
                },
            };
            path_join(base.as_str(), "Code - OSS")
        },
    }
}

/// Where the CLI keeps authentication and tunnel state.
#[derive(Debug, Clone)]
pub struct AuthTunnelStateConfig {
    root: String,
}

impl View for AuthTunnelStateConfig {
    type V = Seq<char>;

    closed spec fn view(&self) -> Seq<char> {
        self.root@
    }
}

impl AuthTunnelStateConfig {
    pub fn new(root: String) -> (c: AuthTunnelStateConfig)
        ensures
            c@ == root@,
    {
        AuthTunnelStateConfig { root }
    }

    /// The state root.
    pub fn root(&self) -> (r: &String)
        ensures
            r@ == self@,
    {
        &self.root
    }

    /// `<root>/token.json`.
    pub fn token_file(&self) -> (r: String)
        ensures
            r@ == join_spec(self@, "token.json"@),
    {
        path_join(self.root.as_str(), "token.json")
    }
}

/// The CLI authentication state service; it reads nothing but its paths.
#[derive(Debug, Clone)]
pub struct CliAuthStateService {
    config: AuthTunnelStateConfig,
}

impl CliAuthStateService {
    pub fn new(config: AuthTunnelStateConfig) -> (s: CliAuthStateService)
        ensures
            s.config() == config,
    {
        CliAuthStateService { config }
    }

    pub closed spec fn config(&self) -> AuthTunnelStateConfig {
        self.config
    }

    /// `<root>/token.json` of this service's state root.
    pub fn token_file(&self) -> (r: String)
        ensures
            r@ == join_spec(self.config()@, "token.json"@),
    {
        self.config.token_file()
    }
}

/// The CLI tunnel state service; it reads nothing but its paths.
#[derive(Debug, Clone)]
pub struct CliTunnelStateService {
    config: AuthTunnelStateConfig,
}

impl CliTunnelStateService {
    pub fn new(config: AuthTunnelStateConfig) -> (s: CliTunnelStateService)
        ensures
            s.config() == config,
    {
        CliTunnelStateService { config }
    }

    pub closed spec fn config(&self) -> AuthTunnelStateConfig {
        self.config
    }

    /// The state paths of the tunnel service, rooted at its state root.
    pub fn state_paths(&self) -> (p: TunnelStatePaths)
        ensures
            p@ == self.config()@,
    {
        TunnelStatePaths::new(self.config.root.clone())
    }
}

/// The files the tunnel launcher keeps under its state root.
#[derive(Debug, Clone)]
pub struct TunnelStatePaths {
    root: String,
}

impl View for TunnelStatePaths {
    type V = Seq<char>;

    closed spec fn view(&self) -> Seq<char> {
        self.root@
    }
}

impl TunnelStatePaths {
    pub fn new(root: String) -> (p: TunnelStatePaths)
        ensures
            p@ == root@,
    {
        TunnelStatePaths { root }
    }

    /// The state root.
    pub fn root(&self) -> (r: &String)
        ensures
            r@ == self@,
    {
        &self.root
    }

    /// `<root>/serve-web`.
    pub fn web_server_storage(&self) -> (r: String)
        ensures
            r@ == join_spec(self@, "serve-web"@),
    {
        path_join(self.root.as_str(), "serve-web")
    }

    /// `<root>/<name>-<quality>.lock`, with `oss` when the build names no
    /// quality.
    fn lockfile(&self, prefix: &str, quality: Option<&str>) -> (r: String)
        ensures
            r@ == join_spec(self@, prefix@ + match quality { Some(q) => q@, None => "oss"@ } + ".lock"@),
    {
        let q = match quality { Some(q) => q, None => "oss" };
        let mut file = concat2(prefix, q);
        push_str(&mut file, ".lock");
        path_join(self.root.as_str(), file.as_str())
    }

    /// The lock file of the tunnel.
    pub fn tunnel_lockfile(&self, quality: Option<&str>) -> (r: String)
        ensures
            r@ == join_spec(self@, "tunnel-"@ + match quality { Some(q) => q@, None => "oss"@ } + ".lock"@),
    {
        self.lockfile("tunnel-", quality)
    }

    /// The lock file of port forwarding.
    pub fn forwarding_lockfile(&self, quality: Option<&str>) -> (r: String)
        ensures
            r@ == join_spec(self@, "forwarding-"@ + match quality { Some(q) => q@, None => "oss"@ } + ".lock"@),
    {
        self.lockfile("forwarding-", quality)
    }

    /// The lock file of the agent host.
    pub fn agent_host_lockfile(&self, quality: Option<&str>) -> (r: String)
        ensures
            r@ == join_spec(self@, "agent-host-"@ + match quality { Some(q) => q@, None => "oss"@ } + ".lock"@),
    {
        self.lockfile("agent-host-", quality)
    }

    /// `<root>/<log file name>`.
    pub fn service_log_file(&self, log_file_name: &str) -> (r: String)
        ensures
            r@ == join_spec(self@, log_file_name@),
    {
        path_join(self.root.as_str(), log_file_name)
    }
}

/// The CLI state root: `<home>/<data parent dir>/cli`, with `~` for an
/// unknown or empty home.
pub fn default_cli_state_root_for_home(home: Option<String>, data_parent_dir: &str) -> (r: String)
    ensures
        r@ == join_spec(
            join_spec(
                match home { Some(h) => if h@.len() > 0 { h@ } else { "~"@ }, None => "~"@ },
                data_parent_dir@,
            ),
            "cli"@,
        ),
{
    let base = match home {
        Some(h) => if h.as_str().is_empty() { owned("~") } else { h },
        None => owned("~"),
    };
    let parent = path_join(base.as_str(), data_parent_dir);
    path_join(parent.as_str(), "cli")
}


/// A command of the authentication state service.
#[derive(Debug, Clone, Copy, PartialEq, Eq, Structural)]
pub enum AuthCommand {
    Defaults,
    StatePaths,
    Current,
}

pub open spec fn parse_auth_command(s: Seq<char>) -> Option<AuthCommand> {
    if s == "defaults"@ || s == "getDefaults"@ {
        Some(AuthCommand::Defaults)
    } else if s == "statePaths"@ || s == "getStatePaths"@ {
        Some(AuthCommand::StatePaths)
    } else if s == "current"@ || s == "getCurrent"@ {
        Some(AuthCommand::Current)
    } else {
        None
    }
}

impl AuthCommand {
    pub fn parse(command: &str) -> (r: Result<AuthCommand, ServiceError>)
        ensures
            match parse_auth_command(command@) {
                Some(c) => r == Ok::<AuthCommand, ServiceError>(c),
                None => r matches Err(e) && e.code@ == "service.unsupportedCommand"@
                    && e.message@ == service_name(ServiceId::Auth) + " does not implement command: "@ + command@,
            },
    {
        if str_eq(command, "defaults") || str_eq(command, "getDefaults") {
            Ok(AuthCommand::Defaults)
        } else if str_eq(command, "statePaths") || str_eq(command, "getStatePaths") {
            Ok(AuthCommand::StatePaths)
        } else if str_eq(command, "current") || str_eq(command, "getCurrent") {
            Ok(AuthCommand::Current)
        } else {
            Err(ServiceError::unsupported(ServiceId::Auth, command))
        }
    }
}

/// A command of the tunnel state service.
#[derive(Debug, Clone, Copy, PartialEq, Eq, Structural)]
pub enum TunnelCommand {
    Defaults,
    StatePaths,
    Status,
}

pub open spec fn parse_tunnel_command(s: Seq<char>) -> Option<TunnelCommand> {
    if s == "defaults"@ || s == "getDefaults"@ {
        Some(TunnelCommand::Defaults)
    } else if s == "statePaths"@ || s == "getStatePaths"@ {
        Some(TunnelCommand::StatePaths)
    } else if s == "status"@ || s == "getStatus"@ {
        Some(TunnelCommand::Status)
    } else {
        None
    }
}

impl TunnelCommand {
    pub fn parse(command: &str) -> (r: Result<TunnelCommand, ServiceError>)
        ensures
            match parse_tunnel_command(command@) {
                Some(c) => r == Ok::<TunnelCommand, ServiceError>(c),
                None => r matches Err(e) && e.code@ == "service.unsupportedCommand"@
                    && e.message@ == service_name(ServiceId::Tunnel) + " does not implement command: "@ + command@,
            },
    {
        if str_eq(command, "defaults") || str_eq(command, "getDefaults") {
            Ok(TunnelCommand::Defaults)
        } else if str_eq(command, "statePaths") || str_eq(command, "getStatePaths") {
            Ok(TunnelCommand::StatePaths)
        } else if str_eq(command, "status") || str_eq(command, "getStatus") {
            Ok(TunnelCommand::Status)
        } else {
            Err(ServiceError::unsupported(ServiceId::Tunnel, command))
        }
    }
}

fn text_entry(key: &str, value: String) -> (e: (String, JsonValue))
    ensures
        e.0@ == key@,
        is_json_text(e.1, value@),
{
    (owned(key), JsonValue::String(value))
}

/// The answer to `current`: nobody is signed in, since the adapter reads
/// no keychain.
pub open spec fn is_auth_current_reply(v: JsonValue) -> bool {
    v matches JsonValue::Object(e) && e@.len() == 4
        && e@[0].0@ == "authenticated"@ && e@[0].1 == JsonValue::Bool(false)
        && e@[1].0@ == "provider"@ && e@[1].1 == JsonValue::Null
        && e@[2].0@ == "credential"@ && e@[2].1 == JsonValue::Null
        && e@[3].0@ == "reason"@ && is_json_text(e@[3].1, "auth adapter wiring does not read keychain state"@)
}

/// The answer to `statePaths` of the authentication service rooted at `root`.
pub open spec fn is_auth_state_paths_reply(v: JsonValue, root: Seq<char>) -> bool {
    v matches JsonValue::Object(e) && e@.len() == 5
        && e@[0].0@ == "root"@ && is_json_text(e@[0].1, root)
        && e@[1].0@ == "tokenFile"@ && is_json_text(e@[1].1, join_spec(root, "token.json"@))
        && e@[2].0@ == "namespacedTokenPattern"@ && is_json_text(e@[2].1, "token-{namespace}.json"@)
        && e@[3].0@ == "keyringPrefix"@ && is_json_text(e@[3].1, "vscode-cli"@)
        && e@[4].0@ == "namespacedKeyringPrefixPattern"@ && is_json_text(e@[4].1, "vscode-cli-{namespace}"@)
}

/// The answer to `statePaths` of the tunnel service rooted at `root`, for a
/// build of quality `quality` whose service log file is `log_file_name`.
pub open spec fn is_tunnel_state_paths_reply(v: JsonValue, root: Seq<char>, quality: Seq<char>, log_file_name: Seq<char>) -> bool {
    v matches JsonValue::Object(e) && e@.len() == 6
        && e@[0].0@ == "root"@ && is_json_text(e@[0].1, root)
        && e@[1].0@ == "tunnelLockfile"@ && is_json_text(e@[1].1, join_spec(root, "tunnel-"@ + quality + ".lock"@))
        && e@[2].0@ == "forwardingLockfile"@ && is_json_text(e@[2].1, join_spec(root, "forwarding-"@ + quality + ".lock"@))
        && e@[3].0@ == "agentHostLockfile"@ && is_json_text(e@[3].1, join_spec(root, "agent-host-"@ + quality + ".lock"@))
        && e@[4].0@ == "serviceLogFile"@ && is_json_text(e@[4].1, join_spec(root, log_file_name))
        && e@[5].0@ == "webServerStorage"@ && is_json_text(e@[5].1, join_spec(root, "serve-web"@))
}

impl CliAuthStateService {
    /// What `current` answers.
    pub fn current(&self) -> (v: JsonValue)
        ensures
            is_auth_current_reply(v),
    {
        let mut e: Vec<(String, JsonValue)> = Vec::new();
        e.push((owned("authenticated"), JsonValue::Bool(false)));
        e.push((owned("provider"), JsonValue::Null));
        e.push((owned("credential"), JsonValue::Null));
        e.push(text_entry("reason", owned("auth adapter wiring does not read keychain state")));
        JsonValue::Object(e)
    }

    /// What `statePaths` answers.
    pub fn state_paths(&self) -> (v: JsonValue)
        ensures
            is_auth_state_paths_reply(v, self.config()@),
    {
        let mut e: Vec<(String, JsonValue)> = Vec::new();
        e.push(text_entry("root", self.config.root.clone()));
        e.push(text_entry("tokenFile", self.config.token_file()));
        e.push(text_entry("namespacedTokenPattern", owned("token-{namespace}.json")));
        e.push(text_entry("keyringPrefix", owned("vscode-cli")));
        e.push(text_entry("namespacedKeyringPrefixPattern", owned("vscode-cli-{namespace}")));
        JsonValue::Object(e)
    }
}

impl CliTunnelStateService {
    /// What `statePaths` answers, for a build of quality `quality` (`oss`
    /// when the build names none) whose service log file is `log_file_name`.
    pub fn state_paths_reply(&self, quality: Option<&str>, log_file_name: &str) -> (v: JsonValue)
        ensures
            is_tunnel_state_paths_reply(v, self.config()@, match quality { Some(q) => q@, None => "oss"@ }, log_file_name@),
    {
        let paths = self.state_paths();
        let mut e: Vec<(String, JsonValue)> = Vec::new();
        e.push(text_entry("root", paths.root().clone()));
        e.push(text_entry("tunnelLockfile", paths.tunnel_lockfile(quality)));
        e.push(text_entry("forwardingLockfile", paths.forwarding_lockfile(quality)));
        e.push(text_entry("agentHostLockfile", paths.agent_host_lockfile(quality)));
        e.push(text_entry("serviceLogFile", paths.service_log_file(log_file_name)));
        e.push(text_entry("webServerStorage", paths.web_server_storage()));
        JsonValue::Object(e)
    }
}


/// The answer to a configuration or storage `paths` query for the user data
/// root `root`.
pub open spec fn is_user_data_paths_reply(v: JsonValue, root: Seq<char>) -> bool {
    v matches JsonValue::Object(e) && e@.len() == 5
        && e@[0].0@ == "root"@ && is_json_text(e@[0].1, root)
        && e@[1].0@ == "userDir"@ && is_json_text(e@[1].1, join_spec(root, "User"@))
        && e@[2].0@ == "settingsResource"@ && is_json_text(e@[2].1, join_spec(join_spec(root, "User"@), "settings.json"@))
        && e@[3].0@ == "globalStateResource"@ && is_json_text(e@[3].1, join_spec(join_spec(root, "User"@), "globalState.json"@))
        && e@[4].0@ == "workspaceStorageHome"@ && is_json_text(e@[4].1, join_spec(join_spec(root, "User"@), "workspaceStorage"@))
}

impl UserDataPaths {
    /// The paths, as the `paths` query answers them.
    pub fn as_json(&self) -> (v: JsonValue)
        ensures
            is_user_data_paths_reply(v, self@),
    {
        let mut e: Vec<(String, JsonValue)> = Vec::new();
        e.push(text_entry("root", owned(self.root())));
        e.push(text_entry("userDir", self.user_dir()));
        e.push(text_entry("settingsResource", self.settings_resource()));
        e.push(text_entry("globalStateResource", self.global_state_resource()));
        e.push(text_entry("workspaceStorageHome", self.workspace_storage_home()));
        JsonValue::Object(e)
    }
}

} // verus!
