//! Self-hosting: the environment file of a deployment, its ports and
//! secrets, and the deployments recorded in the project configuration.
use rand::Rng;
use vstd::prelude::*;

use crate::cli::SelfHostInitArgs;
use crate::config::{ProjectConfig, SelfHostProjectSection, SelfHostSection};
use crate::paths::{path_join, resolve_path, resolved_path, spec_path_join};
use crate::strmap::StrMap;
use crate::text::{
    chars_of, decimal, first_index_of, lemma_push_contains, lines_of, next_line, owned, push_str,
    split_once_char, string_of, trim, trim_seq, u64_to_string,
};

verus! {

/// The characters of every value of a string map.
pub open spec fn view_map(m: StrMap<String>) -> Map<Seq<char>, Seq<char>> {
    m.map().map_values(|s: String| s@)
}

/// Stores `value` under `key`.
pub fn put(m: &mut StrMap<String>, key: &str, value: &str)
    ensures
        view_map(*final(m)) == view_map(*old(m)).insert(key@, value@),
{
    let v = owned(value);
    let ghost vv = v;
    m.insert(owned(key), v);
    proof {
        assert(view_map(*m) =~= view_map(*old(m)).insert(key@, value@)) by {
            assert(m.map() == old(m).map().insert(key@, vv));
        }
    }
}

/// The environment a deployment starts from before the values of `init`.
pub open spec fn base_defaults_map() -> Map<Seq<char>, Seq<char>> {
    Map::<Seq<char>, Seq<char>>::empty()
        .insert("NODE_ENV"@, "production"@)
        .insert("NUVIX_NAME"@, "Nuvix"@)
        .insert("NUVIX_PROJECT_ID"@, "default"@)
        .insert("NUVIX_HOST"@, "localhost"@)
        .insert("NUVIX_CONSOLE_URL"@, "http://localhost:3000"@)
        .insert("NUVIX_FORCE_HTTPS"@, "disabled"@)
        .insert("NUVIX_API_PORT"@, "4000"@)
        .insert("NUVIX_CONSOLE_API_PORT"@, "4100"@)
        .insert("NUVIX_CONSOLE_PORT"@, "3000"@)
        .insert("NUVIX_API_ENDPOINT"@, "http://localhost:4000/v1"@)
        .insert("NUVIX_CONSOLE_API_ENDPOINT"@, "http://localhost:4100"@)
        .insert("NUVIX_ADMIN_EMAIL"@, "admin@nuvix.in"@)
        .insert("NUVIX_SMTP_EMAIL_FROM"@, "noreply@nuvix.in"@)
        .insert("NUVIX_SMTP_SENDER"@, "Nuvix System"@)
        .insert("NUVIX_SMTP_REPLY_TO"@, "support@nuvix.in"@)
        .insert("NUVIX_SYSTEM_EMAIL_ADDRESS"@, "support@nuvix.in"@)
        .insert("NUVIX_EMAIL_TEAM"@, "team@localhost.test"@)
        .insert("NUVIX_EMAIL_SECURITY"@, ""@)
        .insert("NUVIX_REDIS_HOST"@, "redis"@)
        .insert("NUVIX_REDIS_PORT"@, "6379"@)
        .insert("NUVIX_REDIS_USER"@, "default"@)
        .insert("NUVIX_REDIS_DB"@, "0"@)
        .insert("NUVIX_REDIS_SECURE"@, "false"@)
        .insert("NUVIX_DATABASE_HOST"@, "localhost"@)
        .insert("NUVIX_DATABASE_PORT"@, "5432"@)
        .insert("NUVIX_DATABASE_USER"@, "postgres"@)
        .insert("NUVIX_DATABASE_SSL"@, "false"@)
        .insert("NUVIX_DATABASE_MAX_CONNECTIONS"@, "60"@)
        .insert("NUVIX_DATABASE_QUERY_TIMEOUT"@, "30000"@)
        .insert("NUVIX_DATABASE_IDLE_TIMEOUT"@, "30000"@)
        .insert("NUVIX_DATABASE_CONNECTION_TIMEOUT"@, "10000"@)
        .insert("NUVIX_DATABASE_STATEMENT_TIMEOUT"@, "30000"@)
        .insert("NUVIX_CORS_ORIGIN"@, "http://localhost:3000"@)
        .insert("NUVIX_CORS_HEADERS"@, ""@)
        .insert("NUVIX_COOKIE_DOMAIN"@, "localhost"@)
        .insert("NUVIX_COOKIE_SAMESITE"@, "lax"@)
        .insert("NUVIX_COOKIE_NAME"@, "session"@)
        .insert("NUVIX_SMTP_HOST"@, ""@)
        .insert("NUVIX_SMTP_PORT"@, "587"@)
        .insert("NUVIX_SMTP_SECURE"@, "false"@)
        .insert("NUVIX_SMTP_USER"@, ""@)
        .insert("NUVIX_SMTP_PASSWORD"@, ""@)
        .insert("NUVIX_ASSETS_ROOT"@, "assets"@)
        .insert("NUVIX_ASSETS_PUBLIC"@, "public"@)
        .insert("NUVIX_STORAGE_MAX_SIZE"@, "5000000000"@)
        .insert("NUVIX_STORAGE_LIMIT"@, "10000000000"@)
        .insert("NUVIX_LIMIT_PAGING"@, "12"@)
        .insert("NUVIX_LIMIT_USERS"@, "10000"@)
        .insert("NUVIX_LIMIT_USER_PASSWORD_HISTORY"@, "10"@)
        .insert("NUVIX_LIMIT_USER_SESSIONS_MAX"@, "100"@)
        .insert("NUVIX_LIMIT_USER_SESSIONS_DEFAULT"@, "10"@)
        .insert("NUVIX_BATCH_SIZE"@, "2000"@)
        .insert("NUVIX_BATCH_INTERVAL_MS"@, "5000"@)
        .insert("NUVIX_CACHE_UPDATE"@, "86400"@)
        .insert("NUVIX_ENABLE_API_LOGS"@, "true"@)
        .insert("NUVIX_ENABLE_STATS"@, "true"@)
        .insert("NUVIX_ENABLE_THROTTLING"@, "true"@)
        .insert("NUVIX_LOG_LEVELS"@, "log,error,warn"@)
        .insert("NUVIX_DEBUG_COLORS"@, "true"@)
        .insert("NUVIX_DEBUG_JSON"@, "false"@)
        .insert("NUVIX_DEBUG_ERRORS"@, "false"@)
        .insert("NUVIX_DEBUG_FALLBACK_COOKIES"@, "false"@)
}

/// The environment a deployment starts from before the values of `init`.
pub fn base_defaults() -> (vars: StrMap<String>)
    ensures
        view_map(vars) == base_defaults_map(),
{
    let mut vars: StrMap<String> = StrMap::new();
    proof {
        assert(view_map(vars) =~= Map::<Seq<char>, Seq<char>>::empty());
    }
    put(&mut vars, "NODE_ENV", "production");
    put(&mut vars, "NUVIX_NAME", "Nuvix");
    put(&mut vars, "NUVIX_PROJECT_ID", "default");
    put(&mut vars, "NUVIX_HOST", "localhost");
    put(&mut vars, "NUVIX_CONSOLE_URL", "http://localhost:3000");
    put(&mut vars, "NUVIX_FORCE_HTTPS", "disabled");
    put(&mut vars, "NUVIX_API_PORT", "4000");
    put(&mut vars, "NUVIX_CONSOLE_API_PORT", "4100");
    put(&mut vars, "NUVIX_CONSOLE_PORT", "3000");
    put(&mut vars, "NUVIX_API_ENDPOINT", "http://localhost:4000/v1");
    put(&mut vars, "NUVIX_CONSOLE_API_ENDPOINT", "http://localhost:4100");
    put(&mut vars, "NUVIX_ADMIN_EMAIL", "admin@nuvix.in");
    put(&mut vars, "NUVIX_SMTP_EMAIL_FROM", "noreply@nuvix.in");
    put(&mut vars, "NUVIX_SMTP_SENDER", "Nuvix System");
    put(&mut vars, "NUVIX_SMTP_REPLY_TO", "support@nuvix.in");
    put(&mut vars, "NUVIX_SYSTEM_EMAIL_ADDRESS", "support@nuvix.in");
    put(&mut vars, "NUVIX_EMAIL_TEAM", "team@localhost.test");
    put(&mut vars, "NUVIX_EMAIL_SECURITY", "");
    put(&mut vars, "NUVIX_REDIS_HOST", "redis");
    put(&mut vars, "NUVIX_REDIS_PORT", "6379");
    put(&mut vars, "NUVIX_REDIS_USER", "default");
    put(&mut vars, "NUVIX_REDIS_DB", "0");
    put(&mut vars, "NUVIX_REDIS_SECURE", "false");
    put(&mut vars, "NUVIX_DATABASE_HOST", "localhost");
    put(&mut vars, "NUVIX_DATABASE_PORT", "5432");
    put(&mut vars, "NUVIX_DATABASE_USER", "postgres");
    put(&mut vars, "NUVIX_DATABASE_SSL", "false");
    put(&mut vars, "NUVIX_DATABASE_MAX_CONNECTIONS", "60");
    put(&mut vars, "NUVIX_DATABASE_QUERY_TIMEOUT", "30000");
    put(&mut vars, "NUVIX_DATABASE_IDLE_TIMEOUT", "30000");
    put(&mut vars, "NUVIX_DATABASE_CONNECTION_TIMEOUT", "10000");
    put(&mut vars, "NUVIX_DATABASE_STATEMENT_TIMEOUT", "30000");
    put(&mut vars, "NUVIX_CORS_ORIGIN", "http://localhost:3000");
    put(&mut vars, "NUVIX_CORS_HEADERS", "");
    put(&mut vars, "NUVIX_COOKIE_DOMAIN", "localhost");
    put(&mut vars, "NUVIX_COOKIE_SAMESITE", "lax");
    put(&mut vars, "NUVIX_COOKIE_NAME", "session");
    put(&mut vars, "NUVIX_SMTP_HOST", "");
    put(&mut vars, "NUVIX_SMTP_PORT", "587");
    put(&mut vars, "NUVIX_SMTP_SECURE", "false");
    put(&mut vars, "NUVIX_SMTP_USER", "");
    put(&mut vars, "NUVIX_SMTP_PASSWORD", "");
    put(&mut vars, "NUVIX_ASSETS_ROOT", "assets");
    put(&mut vars, "NUVIX_ASSETS_PUBLIC", "public");
    put(&mut vars, "NUVIX_STORAGE_MAX_SIZE", "5000000000");
    put(&mut vars, "NUVIX_STORAGE_LIMIT", "10000000000");
    put(&mut vars, "NUVIX_LIMIT_PAGING", "12");
    put(&mut vars, "NUVIX_LIMIT_USERS", "10000");
    put(&mut vars, "NUVIX_LIMIT_USER_PASSWORD_HISTORY", "10");
    put(&mut vars, "NUVIX_LIMIT_USER_SESSIONS_MAX", "100");
    put(&mut vars, "NUVIX_LIMIT_USER_SESSIONS_DEFAULT", "10");
    put(&mut vars, "NUVIX_BATCH_SIZE", "2000");
    put(&mut vars, "NUVIX_BATCH_INTERVAL_MS", "5000");
    put(&mut vars, "NUVIX_CACHE_UPDATE", "86400");
    put(&mut vars, "NUVIX_ENABLE_API_LOGS", "true");
    put(&mut vars, "NUVIX_ENABLE_STATS", "true");
    put(&mut vars, "NUVIX_ENABLE_THROTTLING", "true");
    put(&mut vars, "NUVIX_LOG_LEVELS", "log,error,warn");
    put(&mut vars, "NUVIX_DEBUG_COLORS", "true");
    put(&mut vars, "NUVIX_DEBUG_JSON", "false");
    put(&mut vars, "NUVIX_DEBUG_ERRORS", "false");
    put(&mut vars, "NUVIX_DEBUG_FALLBACK_COOKIES", "false");
    vars
}


// ---------------------------------------------------------------------------
// Writing values into an env file
// ---------------------------------------------------------------------------

/// `s` with every `"` preceded by a backslash.
pub open spec fn escape_quotes(s: Seq<char>) -> Seq<char>
    decreases s.len(),
{
    if s.len() == 0 {
        Seq::empty()
    } else if s.last() == '"' {
        escape_quotes(s.drop_last()).push('\\').push('"')
    } else {
        escape_quotes(s.drop_last()).push(s.last())
    }
}

/// How a value is written into an env file: quoted, with its quotes escaped,
/// when it holds a space, `#` or `"`; as it is otherwise.
pub open spec fn env_value_text(v: Seq<char>) -> Seq<char> {
    if v.contains(' ') || v.contains('#') || v.contains('"') {
        Seq::empty().push('"') + escape_quotes(v) + Seq::empty().push('"')
    } else {
        v
    }
}

fn has_char(v: &Vec<char>, c: char) -> (r: bool)
    ensures
        r == v@.contains(c),
{
    let mut i: usize = 0;
    while i < v.len()
        invariant
            i <= v.len(),
            forall|k: int| 0 <= k < i ==> v@[k] != c,
        decreases v.len() - i,
    {
        if v[i] == c {
            return true;
        }
        i = i + 1;
    }
    false
}

/// How a value is written into an env file.
pub fn format_env_value(value: &str) -> (r: String)
    ensures
        r@ == env_value_text(value@),
{
    let v = chars_of(value);
    if has_char(&v, ' ') || has_char(&v, '#') || has_char(&v, '"') {
        let mut out: Vec<char> = Vec::new();
        out.push('"');
        let mut i: usize = 0;
        while i < v.len()
            invariant
                i <= v.len(),
                v@ == value@,
                out@ == Seq::empty().push('"') + escape_quotes(v@.take(i as int)),
            decreases v.len() - i,
        {
            proof {
                assert(v@.take(i + 1).drop_last() == v@.take(i as int));
                assert(v@.take(i + 1).last() == v@[i as int]);
            }
            if v[i] == '"' {
                out.push('\\');
                out.push('"');
            } else {
                out.push(v[i]);
            }
            i = i + 1;
            proof {
                assert(out@ =~= Seq::empty().push('"') + escape_quotes(v@.take(i as int)));
            }
        }
        out.push('"');
        proof {
            assert(v@.take(v@.len() as int) == v@);
        }
        string_of(out.as_slice())
    } else {
        owned(value)
    }
}

/// One `KEY=value` line.
pub open spec fn env_line(key: Seq<char>, value: Seq<char>) -> Seq<char> {
    key + "="@ + env_value_text(value)
}

/// The text of an env file listing the given entries, each on a line of its
/// own ended by a newline.
pub open spec fn plain_env_text(entries: Seq<(String, String)>) -> Seq<char>
    decreases entries.len(),
{
    if entries.len() == 0 {
        Seq::empty()
    } else {
        plain_env_text(entries.drop_last()) + env_line(entries.last().0@, entries.last().1@) + "\n"@
    }
}

/// Renders every variable as a `KEY=value` line, in ascending key order.
pub fn render_plain_env(values: &StrMap<String>) -> (r: String)
    ensures
        r@ == plain_env_text(values.entries()),
{
    let mut out = String::new();
    let mut i: usize = 0;
    while i < values.len()
        invariant
            i <= values.entries().len(),
            out@ == plain_env_text(values.entries().take(i as int)),
        decreases values.entries().len() - i,
    {
        let (k, v) = values.entry_at(i);
        proof {
            assert(values.entries().take(i + 1).drop_last() == values.entries().take(i as int));
            assert(values.entries().take(i + 1).last() == values.entries()[i as int]);
        }
        push_str(&mut out, k.as_str());
        push_str(&mut out, "=");
        let f = format_env_value(v.as_str());
        push_str(&mut out, f.as_str());
        push_str(&mut out, "\n");
        i = i + 1;
    }
    proof {
        assert(values.entries().take(values.entries().len() as int) == values.entries());
    }
    out
}

// ---------------------------------------------------------------------------
// Filling a template
// ---------------------------------------------------------------------------

/// A template line after the overrides: a line that is blank, a comment, or
/// whose key has no override stays as it is; otherwise it becomes
/// `KEY=value` with the override's value.
pub open spec fn merge_line(line: Seq<char>, overrides: StrMap<String>) -> Seq<char> {
    let t = trim_seq(line);
    if t.len() == 0 || t[0] == '#' {
        line
    } else {
        match first_index_of(line, '=') {
            Some(i) => {
                let key = trim_seq(line.take(i));
                if overrides.has_key(key) {
                    env_line(key, overrides.value_of(key)@)
                } else {
                    line
                }
            },
            None => line,
        }
    }
}

/// The merged text of the given template lines, each ended by a newline.
pub open spec fn merged_text(lines: Seq<Seq<char>>, overrides: StrMap<String>) -> Seq<char>
    decreases lines.len(),
{
    if lines.len() == 0 {
        Seq::empty()
    } else {
        merge_line(lines[0], overrides) + "\n"@ + merged_text(lines.drop_first(), overrides)
    }
}

fn merge_one_line(line: &str, overrides: &StrMap<String>) -> (r: String)
    ensures
        r@ == merge_line(line@, *overrides),
{
    let t = trim(line);
    let tv = chars_of(t.as_str());
    if tv.len() == 0 || tv[0] == '#' {
        return owned(line);
    }
    let (head, rest) = split_once_char(line, '=');
    match rest {
        Some(_) => {
            let key = trim(head.as_str());
            match overrides.get(key.as_str()) {
                Some(v) => {
                    let mut out = owned(key.as_str());
                    push_str(&mut out, "=");
                    let f = format_env_value(v.as_str());
                    push_str(&mut out, f.as_str());
                    out
                },
                None => owned(line),
            }
        },
        None => owned(line),
    }
}

/// Fills an env-file template: each line whose key has an override gets the
/// override's value; every other line is kept; each line ends with a
/// newline.
pub fn merge_template_with_overrides(template: &str, overrides: &StrMap<String>) -> (r: String)
    ensures
        r@ == merged_text(lines_of(template@), *overrides),
{
    let mut out = String::new();
    let mut rest = owned(template);
    proof {
        assert(out@ + merged_text(lines_of(rest@), *overrides) == merged_text(
            lines_of(template@),
            *overrides,
        ));
    }
    while !rest.as_str().is_empty()
        invariant
            out@ + merged_text(lines_of(rest@), *overrides) == merged_text(
                lines_of(template@),
                *overrides,
            ),
        decreases rest@.len(),
    {
        let (line, tail) = next_line(rest.as_str());
        proof {
            let l = seq![line@] + lines_of(tail@);
            assert(l[0] == line@);
            assert(l.drop_first() == lines_of(tail@));
        }
        let merged = merge_one_line(line.as_str(), overrides);
        push_str(&mut out, merged.as_str());
        push_str(&mut out, "\n");
        rest = tail;
    }
    out
}


// ---------------------------------------------------------------------------
// Ports
// ---------------------------------------------------------------------------

/// The first port of the first `n` that repeats an earlier one.
pub open spec fn first_repeated_port(ports: Seq<u16>, n: int) -> Option<u16>
    decreases n,
{
    if n <= 0 {
        None
    } else {
        match first_repeated_port(ports, n - 1) {
            Some(p) => Some(p),
            None => if ports.take(n - 1).contains(ports[n - 1]) {
                Some(ports[n - 1])
            } else {
                None
            },
        }
    }
}

/// Law: among the first `n` ports, none is repeated exactly when no port is
/// found repeated; a port found repeated occurs twice among them.
pub proof fn law_first_repeated_port(ports: Seq<u16>, n: int)
    requires
        0 <= n <= ports.len(),
    ensures
        first_repeated_port(ports, n) is None <==> forall|i: int, j: int|
            0 <= i < j < n ==> ports[i] != ports[j],
        first_repeated_port(ports, n) matches Some(p) ==> exists|i: int, j: int|
            0 <= i < j < n && ports[i] == p && ports[j] == p,
    decreases n,
{
    if n > 0 {
        law_first_repeated_port(ports, n - 1);
        let t = ports.take(n - 1);
        match first_repeated_port(ports, n - 1) {
            Some(p) => {},
            None => {
                if t.contains(ports[n - 1]) {
                    let i = choose|i: int| 0 <= i < t.len() && t[i] == ports[n - 1];
                    assert(ports[i] == ports[n - 1]);
                } else {
                    assert forall|i: int, j: int| 0 <= i < j < n implies ports[i] != ports[j] by {
                        if j == n - 1 {
                            if ports[i] == ports[j] {
                                assert(t[i] == ports[i]);
                            }
                        }
                    }
                }
            },
        }
    }
}

proof fn lemma_first_repeat_stable(ports: Seq<u16>, k: int, n: int)
    requires
        k <= n,
        first_repeated_port(ports, k) is Some,
    ensures
        first_repeated_port(ports, n) == first_repeated_port(ports, k),
    decreases n - k,
{
    if k < n {
        lemma_first_repeat_stable(ports, k, n - 1);
    }
}

/// Refuses a port that is used more than once, naming the first repeat.
pub fn validate_unique_ports(ports: &Vec<u16>) -> (r: Result<(), u16>)
    ensures
        match r {
            Ok(()) => first_repeated_port(ports@, ports@.len() as int) is None,
            Err(p) => first_repeated_port(ports@, ports@.len() as int) == Some(p),
        },
{
    let mut i: usize = 0;
    while i < ports.len()
        invariant
            i <= ports.len(),
            first_repeated_port(ports@, i as int) is None,
        decreases ports.len() - i,
    {
        let mut j: usize = 0;
        let mut seen = false;
        while j < i
            invariant
                j <= i < ports.len(),
                seen == ports@.take(j as int).contains(ports@[i as int]),
            decreases i - j,
        {
            proof {
                assert(ports@.take(j + 1) == ports@.take(j as int).push(ports@[j as int]));
                lemma_push_contains(ports@.take(j as int), ports@[j as int], ports@[i as int]);
            }
            if ports[j] == ports[i] {
                seen = true;
            }
            j = j + 1;
        }
        if seen {
            proof {
                lemma_first_repeat_stable(ports@, i + 1, ports@.len() as int);
            }
            return Err(ports[i]);
        }
        i = i + 1;
    }
    Ok(())
}

/// One step of picking a default port: take the candidate, or try another.
#[derive(PartialEq, Eq, Structural, Debug, Clone, Copy)]
pub enum PortStep {
    Take(u16),
    Try(u16),
}

/// Decides on a candidate port: take it when it is not reserved and is free;
/// otherwise try the next one. The step saturates at 65535, so at the top of
/// the range the same port is tried again.
pub fn choose_port_step(candidate: u16, reserved: &Vec<u16>, available: bool) -> (r: PortStep)
    ensures
        if !reserved@.contains(candidate) && available {
            r == PortStep::Take(candidate)
        } else if candidate == 65535 {
            r == PortStep::Try(65535)
        } else {
            r == PortStep::Try((candidate + 1) as u16)
        },
{
    let mut i: usize = 0;
    let mut reserved_hit = false;
    while i < reserved.len()
        invariant
            i <= reserved.len(),
            reserved_hit == reserved@.take(i as int).contains(candidate),
        decreases reserved.len() - i,
    {
        proof {
            assert(reserved@.take(i + 1) == reserved@.take(i as int).push(reserved@[i as int]));
            lemma_push_contains(reserved@.take(i as int), reserved@[i as int], candidate);
        }
        if reserved[i] == candidate {
            reserved_hit = true;
        }
        i = i + 1;
    }
    proof {
        assert(reserved@.take(reserved@.len() as int) == reserved@);
    }
    if !reserved_hit && available {
        return PortStep::Take(candidate);
    }
    PortStep::Try(candidate.saturating_add(1))
}

// ---------------------------------------------------------------------------
// The environment of a deployment
// ---------------------------------------------------------------------------

/// A flag that non-interactive `init` needs.
#[derive(PartialEq, Eq, Structural, Debug, Clone, Copy)]
pub enum RequiredFlag {
    Host,
    AdminEmail,
    DatabasePassword,
    AdminPassword,
    JwtSecret,
    EncryptionKey,
    RedisPassword,
}

/// The command-line flag that gives a required value.
pub fn flag_name(flag: RequiredFlag) -> (r: &'static str)
    ensures
        r@ == match flag {
            RequiredFlag::Host => "--host"@,
            RequiredFlag::AdminEmail => "--admin-email"@,
            RequiredFlag::DatabasePassword => "--database-password"@,
            RequiredFlag::AdminPassword => "--admin-password"@,
            RequiredFlag::JwtSecret => "--jwt-secret"@,
            RequiredFlag::EncryptionKey => "--encryption-key"@,
            RequiredFlag::RedisPassword => "--redis-password"@,
        },
{
    match flag {
        RequiredFlag::Host => "--host",
        RequiredFlag::AdminEmail => "--admin-email",
        RequiredFlag::DatabasePassword => "--database-password",
        RequiredFlag::AdminPassword => "--admin-password",
        RequiredFlag::JwtSecret => "--jwt-secret",
        RequiredFlag::EncryptionKey => "--encryption-key",
        RequiredFlag::RedisPassword => "--redis-password",
    }
}

/// Why a self-host command cannot go on.
pub enum SelfHostError {
    /// A value that non-interactive mode needs was not given.
    MissingRequired { flag: RequiredFlag },
    /// A port is used more than once.
    PortConflict { port: u16 },
    /// The project has no self-host section.
    NotInitialized,
    /// The requested project id has no self-host entry.
    ProjectNotConfigured { id: String },
    /// Several self-hosted projects exist and none was chosen.
    MultipleProjects,
}

/// `http://host:port`.
pub open spec fn http_url(host: Seq<char>, port: u16) -> Seq<char> {
    "http://"@ + host + ":"@ + decimal(port as nat)
}

/// The environment of a deployment: the defaults with the deployment's id,
/// host, ports, endpoints and secrets.
pub open spec fn deployment_env(
    project_id: Seq<char>,
    host: Seq<char>,
    api_port: u16,
    console_api_port: u16,
    console_port: u16,
    database_port: u16,
    admin_email: Seq<char>,
    admin_password: Seq<char>,
    database_password: Seq<char>,
    redis_password: Seq<char>,
    jwt_secret: Seq<char>,
    encryption_key: Seq<char>,
) -> Map<Seq<char>, Seq<char>> {
    base_defaults_map().insert("NUVIX_PROJECT_ID"@, project_id).insert("NUVIX_HOST"@, host).insert(
        "NUVIX_API_PORT"@,
        decimal(api_port as nat),
    ).insert("NUVIX_CONSOLE_API_PORT"@, decimal(console_api_port as nat)).insert(
        "NUVIX_CONSOLE_PORT"@,
        decimal(console_port as nat),
    ).insert("NUVIX_DATABASE_PORT"@, decimal(database_port as nat)).insert(
        "NUVIX_ADMIN_EMAIL"@,
        admin_email,
    ).insert("NUVIX_CONSOLE_URL"@, http_url(host, console_port)).insert(
        "NUVIX_API_ENDPOINT"@,
        http_url(host, api_port) + "/v1"@,
    ).insert("NUVIX_CONSOLE_API_ENDPOINT"@, http_url(host, console_api_port)).insert(
        "NUVIX_CORS_ORIGIN"@,
        http_url(host, console_port),
    ).insert("NUVIX_DATABASE_PASSWORD"@, database_password).insert(
        "NUVIX_ADMIN_PASSWORD"@,
        admin_password,
    ).insert("NUVIX_JWT_SECRET"@, jwt_secret).insert("NUVIX_ENCRYPTION_KEY"@, encryption_key).insert(
        "NUVIX_REDIS_PASSWORD"@,
        redis_password,
    )
}

/// Law: the environment of a deployment sets its id, host and admin e-mail,
/// each of its four ports as decimal text under its own key, the URLs that
/// reach it at `http://host:port` (the API endpoint with `/v1`), and its
/// secrets; every other variable keeps its default.
pub proof fn law_deployment_env_values(
    project_id: Seq<char>,
    host: Seq<char>,
    api_port: u16,
    console_api_port: u16,
    console_port: u16,
    database_port: u16,
    admin_email: Seq<char>,
    admin_password: Seq<char>,
    database_password: Seq<char>,
    redis_password: Seq<char>,
    jwt_secret: Seq<char>,
    encryption_key: Seq<char>,
)
    ensures
        ({
            let env = deployment_env(
                project_id,
                host,
                api_port,
                console_api_port,
                console_port,
                database_port,
                admin_email,
                admin_password,
                database_password,
                redis_password,
                jwt_secret,
                encryption_key,
            );
            &&& env.dom().contains("NUVIX_PROJECT_ID"@) && env["NUVIX_PROJECT_ID"@] == project_id
            &&& env.dom().contains("NUVIX_HOST"@) && env["NUVIX_HOST"@] == host
            &&& env.dom().contains("NUVIX_API_PORT"@) && env["NUVIX_API_PORT"@] == decimal(api_port as nat)
            &&& env.dom().contains("NUVIX_CONSOLE_API_PORT"@) && env["NUVIX_CONSOLE_API_PORT"@] == decimal(console_api_port as nat)
            &&& env.dom().contains("NUVIX_CONSOLE_PORT"@) && env["NUVIX_CONSOLE_PORT"@] == decimal(console_port as nat)
            &&& env.dom().contains("NUVIX_DATABASE_PORT"@) && env["NUVIX_DATABASE_PORT"@] == decimal(database_port as nat)
            &&& env.dom().contains("NUVIX_ADMIN_EMAIL"@) && env["NUVIX_ADMIN_EMAIL"@] == admin_email
            &&& env.dom().contains("NUVIX_CONSOLE_URL"@) && env["NUVIX_CONSOLE_URL"@] == "http://"@ + host + ":"@ + decimal(console_port as nat)
            &&& env.dom().contains("NUVIX_API_ENDPOINT"@) && env["NUVIX_API_ENDPOINT"@] == "http://"@ + host + ":"@ + decimal(api_port as nat) + "/v1"@
            &&& env.dom().contains("NUVIX_CONSOLE_API_ENDPOINT"@) && env["NUVIX_CONSOLE_API_ENDPOINT"@] == "http://"@ + host + ":"@ + decimal(console_api_port as nat)
            &&& env.dom().contains("NUVIX_CORS_ORIGIN"@) && env["NUVIX_CORS_ORIGIN"@] == "http://"@ + host + ":"@ + decimal(console_port as nat)
            &&& env.dom().contains("NUVIX_DATABASE_PASSWORD"@) && env["NUVIX_DATABASE_PASSWORD"@] == database_password
            &&& env.dom().contains("NUVIX_ADMIN_PASSWORD"@) && env["NUVIX_ADMIN_PASSWORD"@] == admin_password
            &&& env.dom().contains("NUVIX_JWT_SECRET"@) && env["NUVIX_JWT_SECRET"@] == jwt_secret
            &&& env.dom().contains("NUVIX_ENCRYPTION_KEY"@) && env["NUVIX_ENCRYPTION_KEY"@] == encryption_key
            &&& env.dom().contains("NUVIX_REDIS_PASSWORD"@) && env["NUVIX_REDIS_PASSWORD"@] == redis_password
            &&& forall|k: Seq<char>|
                k != "NUVIX_PROJECT_ID"@ && k != "NUVIX_HOST"@ && k != "NUVIX_API_PORT"@ && k != "NUVIX_CONSOLE_API_PORT"@ && k != "NUVIX_CONSOLE_PORT"@ && k != "NUVIX_DATABASE_PORT"@ && k != "NUVIX_ADMIN_EMAIL"@ && k != "NUVIX_CONSOLE_URL"@ && k != "NUVIX_API_ENDPOINT"@ && k != "NUVIX_CONSOLE_API_ENDPOINT"@ && k != "NUVIX_CORS_ORIGIN"@ && k != "NUVIX_DATABASE_PASSWORD"@ && k != "NUVIX_ADMIN_PASSWORD"@ && k != "NUVIX_JWT_SECRET"@ && k != "NUVIX_ENCRYPTION_KEY"@ && k != "NUVIX_REDIS_PASSWORD"@ ==> (#[trigger] env.dom().contains(k)
                    == base_defaults_map().dom().contains(k) && env[k] == base_defaults_map()[k])
        }),
{
    reveal_strlit("NUVIX_PROJECT_ID");
    reveal_strlit("NUVIX_HOST");
    reveal_strlit("NUVIX_API_PORT");
    reveal_strlit("NUVIX_CONSOLE_API_PORT");
    reveal_strlit("NUVIX_CONSOLE_PORT");
    reveal_strlit("NUVIX_DATABASE_PORT");
    reveal_strlit("NUVIX_ADMIN_EMAIL");
    reveal_strlit("NUVIX_CONSOLE_URL");
    reveal_strlit("NUVIX_API_ENDPOINT");
    reveal_strlit("NUVIX_CONSOLE_API_ENDPOINT");
    reveal_strlit("NUVIX_CORS_ORIGIN");
    reveal_strlit("NUVIX_DATABASE_PASSWORD");
    reveal_strlit("NUVIX_ADMIN_PASSWORD");
    reveal_strlit("NUVIX_JWT_SECRET");
    reveal_strlit("NUVIX_ENCRYPTION_KEY");
    reveal_strlit("NUVIX_REDIS_PASSWORD");
    assert("NUVIX_PROJECT_ID"@.len() == 16 && "NUVIX_PROJECT_ID"@[6] == 'P' && "NUVIX_PROJECT_ID"@[8] == 'O');
    assert("NUVIX_HOST"@.len() == 10 && "NUVIX_HOST"@[6] == 'H' && "NUVIX_HOST"@[8] == 'S');
    assert("NUVIX_API_PORT"@.len() == 14 && "NUVIX_API_PORT"@[6] == 'A' && "NUVIX_API_PORT"@[8] == 'I');
    assert("NUVIX_CONSOLE_API_PORT"@.len() == 22 && "NUVIX_CONSOLE_API_PORT"@[6] == 'C' && "NUVIX_CONSOLE_API_PORT"@[8] == 'N');
    assert("NUVIX_CONSOLE_PORT"@.len() == 18 && "NUVIX_CONSOLE_PORT"@[6] == 'C' && "NUVIX_CONSOLE_PORT"@[8] == 'N');
    assert("NUVIX_DATABASE_PORT"@.len() == 19 && "NUVIX_DATABASE_PORT"@[6] == 'D' && "NUVIX_DATABASE_PORT"@[8] == 'T');
    assert("NUVIX_ADMIN_EMAIL"@.len() == 17 && "NUVIX_ADMIN_EMAIL"@[6] == 'A' && "NUVIX_ADMIN_EMAIL"@[8] == 'M');
    assert("NUVIX_CONSOLE_URL"@.len() == 17 && "NUVIX_CONSOLE_URL"@[6] == 'C' && "NUVIX_CONSOLE_URL"@[8] == 'N');
    assert("NUVIX_API_ENDPOINT"@.len() == 18 && "NUVIX_API_ENDPOINT"@[6] == 'A' && "NUVIX_API_ENDPOINT"@[8] == 'I');
    assert("NUVIX_CONSOLE_API_ENDPOINT"@.len() == 26 && "NUVIX_CONSOLE_API_ENDPOINT"@[6] == 'C' && "NUVIX_CONSOLE_API_ENDPOINT"@[8] == 'N');
    assert("NUVIX_CORS_ORIGIN"@.len() == 17 && "NUVIX_CORS_ORIGIN"@[6] == 'C' && "NUVIX_CORS_ORIGIN"@[8] == 'R');
    assert("NUVIX_DATABASE_PASSWORD"@.len() == 23 && "NUVIX_DATABASE_PASSWORD"@[6] == 'D' && "NUVIX_DATABASE_PASSWORD"@[8] == 'T');
    assert("NUVIX_ADMIN_PASSWORD"@.len() == 20 && "NUVIX_ADMIN_PASSWORD"@[6] == 'A' && "NUVIX_ADMIN_PASSWORD"@[8] == 'M');
    assert("NUVIX_JWT_SECRET"@.len() == 16 && "NUVIX_JWT_SECRET"@[6] == 'J' && "NUVIX_JWT_SECRET"@[8] == 'T');
    assert("NUVIX_ENCRYPTION_KEY"@.len() == 20 && "NUVIX_ENCRYPTION_KEY"@[6] == 'E' && "NUVIX_ENCRYPTION_KEY"@[8] == 'C');
    assert("NUVIX_REDIS_PASSWORD"@.len() == 20 && "NUVIX_REDIS_PASSWORD"@[6] == 'R' && "NUVIX_REDIS_PASSWORD"@[8] == 'D');
    reveal_strlit("http://");
    reveal_strlit(":");
}

fn http_url_string(host: &str, port: u16) -> (r: String)
    ensures
        r@ == http_url(host@, port),
{
    let mut out = owned("http://");
    push_str(&mut out, host);
    push_str(&mut out, ":");
    let p = u64_to_string(port as u64);
    push_str(&mut out, p.as_str());
    out
}

/// Builds the environment of a deployment.
pub fn deployment_env_values(
    project_id: &str,
    host: &str,
    api_port: u16,
    console_api_port: u16,
    console_port: u16,
    database_port: u16,
    admin_email: &str,
    admin_password: &str,
    database_password: &str,
    redis_password: &str,
    jwt_secret: &str,
    encryption_key: &str,
) -> (vars: StrMap<String>)
    ensures
        view_map(vars) == deployment_env(
            project_id@,
            host@,
            api_port,
            console_api_port,
            console_port,
            database_port,
            admin_email@,
            admin_password@,
            database_password@,
            redis_password@,
            jwt_secret@,
            encryption_key@,
        ),
{
    let mut vars = base_defaults();
    put(&mut vars, "NUVIX_PROJECT_ID", project_id);
    put(&mut vars, "NUVIX_HOST", host);
    let p = u64_to_string(api_port as u64);
    put(&mut vars, "NUVIX_API_PORT", p.as_str());
    let p = u64_to_string(console_api_port as u64);
    put(&mut vars, "NUVIX_CONSOLE_API_PORT", p.as_str());
    let p = u64_to_string(console_port as u64);
    put(&mut vars, "NUVIX_CONSOLE_PORT", p.as_str());
    let p = u64_to_string(database_port as u64);
    put(&mut vars, "NUVIX_DATABASE_PORT", p.as_str());
    put(&mut vars, "NUVIX_ADMIN_EMAIL", admin_email);
    let console_url = http_url_string(host, console_port);
    put(&mut vars, "NUVIX_CONSOLE_URL", console_url.as_str());
    let mut api = http_url_string(host, api_port);
    push_str(&mut api, "/v1");
    put(&mut vars, "NUVIX_API_ENDPOINT", api.as_str());
    let console_api = http_url_string(host, console_api_port);
    put(&mut vars, "NUVIX_CONSOLE_API_ENDPOINT", console_api.as_str());
    put(&mut vars, "NUVIX_CORS_ORIGIN", console_url.as_str());
    put(&mut vars, "NUVIX_DATABASE_PASSWORD", database_password);
    put(&mut vars, "NUVIX_ADMIN_PASSWORD", admin_password);
    put(&mut vars, "NUVIX_JWT_SECRET", jwt_secret);
    put(&mut vars, "NUVIX_ENCRYPTION_KEY", encryption_key);
    put(&mut vars, "NUVIX_REDIS_PASSWORD", redis_password);
    vars
}

/// The port given, or the default one.
pub open spec fn port_or(p: Option<u16>, default: u16) -> u16 {
    match p {
        Some(v) => v,
        None => default,
    }
}

/// The environment that non-interactive `init` computes, or why it cannot.
pub open spec fn non_interactive_env(cfg: ProjectConfig, args: SelfHostInitArgs) -> Result<
    Map<Seq<char>, Seq<char>>,
    RequiredFlag,
> {
    let project_id = match args.project_id {
        Some(p) => p@,
        None => cfg.project.name@,
    };
    match (args.host, args.admin_email, args.database_password, args.admin_password) {
        (None, _, _, _) => Err(RequiredFlag::Host),
        (Some(_), None, _, _) => Err(RequiredFlag::AdminEmail),
        (Some(_), Some(_), None, _) => Err(RequiredFlag::DatabasePassword),
        (Some(_), Some(_), Some(_), None) => Err(RequiredFlag::AdminPassword),
        (Some(host), Some(email), Some(db), Some(admin)) => match (
            args.jwt_secret,
            args.encryption_key,
            args.redis_password,
        ) {
            (None, _, _) => Err(RequiredFlag::JwtSecret),
            (Some(_), None, _) => Err(RequiredFlag::EncryptionKey),
            (Some(_), Some(_), None) => Err(RequiredFlag::RedisPassword),
            (Some(jwt), Some(enc), Some(redis)) => Ok(
                deployment_env(
                    project_id,
                    host@,
                    port_or(args.api_port, 4000),
                    port_or(args.console_api_port, 4100),
                    port_or(args.console_port, 3000),
                    port_or(args.database_port, 5432),
                    email@,
                    admin@,
                    db@,
                    redis@,
                    jwt@,
                    enc@,
                ).insert(
                    "NUVIX_REDIS_HOST"@,
                    match args.redis_host {
                        Some(h) => h@,
                        None => "redis"@,
                    },
                ).insert("NUVIX_REDIS_PORT"@, decimal(port_or(args.redis_port, 6379) as nat)),
            ),
        },
    }
}

/// Law: when every required value is given, `init` without questions builds
/// the environment from them: the host, the project (the given one, else the
/// project's name), the admin e-mail, each port as given or its default
/// (API 4000, console API 4100, console 3000, database 5432), and the Redis
/// host and port as given or `redis` and 6379.
pub proof fn law_non_interactive_env_values(cfg: ProjectConfig, args: SelfHostInitArgs)
    requires
        args.host is Some,
        args.admin_email is Some,
        args.database_password is Some,
        args.admin_password is Some,
        args.jwt_secret is Some,
        args.encryption_key is Some,
        args.redis_password is Some,
    ensures
        non_interactive_env(cfg, args) matches Ok(env) && {
            &&& env["NUVIX_HOST"@] == args.host->Some_0@
            &&& env["NUVIX_PROJECT_ID"@] == match args.project_id {
                Some(p) => p@,
                None => cfg.project.name@,
            }
            &&& env["NUVIX_ADMIN_EMAIL"@] == args.admin_email->Some_0@
            &&& env["NUVIX_API_PORT"@] == decimal(
                match args.api_port {
                    Some(p) => p,
                    None => 4000u16,
                } as nat,
            )
            &&& env["NUVIX_CONSOLE_API_PORT"@] == decimal(
                match args.console_api_port {
                    Some(p) => p,
                    None => 4100u16,
                } as nat,
            )
            &&& env["NUVIX_CONSOLE_PORT"@] == decimal(
                match args.console_port {
                    Some(p) => p,
                    None => 3000u16,
                } as nat,
            )
            &&& env["NUVIX_DATABASE_PORT"@] == decimal(
                match args.database_port {
                    Some(p) => p,
                    None => 5432u16,
                } as nat,
            )
            &&& env["NUVIX_REDIS_HOST"@] == match args.redis_host {
                Some(h) => h@,
                None => "redis"@,
            }
            &&& env["NUVIX_REDIS_PORT"@] == decimal(
                match args.redis_port {
                    Some(p) => p,
                    None => 6379u16,
                } as nat,
            )
        },
{
    reveal_strlit("NUVIX_HOST");
    reveal_strlit("NUVIX_API_PORT");
    reveal_strlit("NUVIX_CONSOLE_API_PORT");
    reveal_strlit("NUVIX_CONSOLE_PORT");
    reveal_strlit("NUVIX_DATABASE_PORT");
    reveal_strlit("NUVIX_ADMIN_EMAIL");
    reveal_strlit("NUVIX_REDIS_HOST");
    reveal_strlit("NUVIX_REDIS_PORT");
    reveal_strlit("NUVIX_PROJECT_ID");
    assert("NUVIX_HOST"@.len() == 10 && "NUVIX_HOST"@[6] == 'H');
    assert("NUVIX_API_PORT"@.len() == 14 && "NUVIX_API_PORT"@[6] == 'A' && "NUVIX_API_PORT"@[12] == 'R');
    assert("NUVIX_CONSOLE_API_PORT"@.len() == 22 && "NUVIX_CONSOLE_API_PORT"@[6] == 'C' && "NUVIX_CONSOLE_API_PORT"@[12] == 'E');
    assert("NUVIX_CONSOLE_PORT"@.len() == 18 && "NUVIX_CONSOLE_PORT"@[6] == 'C' && "NUVIX_CONSOLE_PORT"@[12] == 'E');
    assert("NUVIX_DATABASE_PORT"@.len() == 19 && "NUVIX_DATABASE_PORT"@[6] == 'D' && "NUVIX_DATABASE_PORT"@[12] == 'S');
    assert("NUVIX_ADMIN_EMAIL"@.len() == 17 && "NUVIX_ADMIN_EMAIL"@[6] == 'A' && "NUVIX_ADMIN_EMAIL"@[12] == 'E');
    assert("NUVIX_REDIS_HOST"@.len() == 16 && "NUVIX_REDIS_HOST"@[6] == 'R' && "NUVIX_REDIS_HOST"@[12] == 'H');
    assert("NUVIX_REDIS_PORT"@.len() == 16 && "NUVIX_REDIS_PORT"@[6] == 'R' && "NUVIX_REDIS_PORT"@[12] == 'P');
    assert("NUVIX_PROJECT_ID"@.len() == 16 && "NUVIX_PROJECT_ID"@[6] == 'P' && "NUVIX_PROJECT_ID"@[12] == 'T');
    law_deployment_env_values(
        match args.project_id {
            Some(p) => p@,
            None => cfg.project.name@,
        },
        args.host->Some_0@,
        port_or(args.api_port, 4000),
        port_or(args.console_api_port, 4100),
        port_or(args.console_port, 3000),
        port_or(args.database_port, 5432),
        args.admin_email->Some_0@,
        args.admin_password->Some_0@,
        args.database_password->Some_0@,
        args.redis_password->Some_0@,
        args.jwt_secret->Some_0@,
        args.encryption_key->Some_0@,
    );
}

/// The four service ports of `init`, with their defaults.
pub open spec fn init_ports(args: SelfHostInitArgs) -> Seq<u16> {
    seq![
        port_or(args.api_port, 4000),
        port_or(args.console_api_port, 4100),
        port_or(args.console_port, 3000),
        port_or(args.database_port, 5432),
    ]
}

fn required<'a>(value: &'a Option<String>, flag: RequiredFlag) -> (r: Result<&'a String, SelfHostError>)
    ensures
        match value {
            Some(v) => r matches Ok(x) && *x == v,
            None => r matches Err(SelfHostError::MissingRequired { flag: f }) && f == flag,
        },
{
    match value {
        Some(v) => Ok(v),
        None => Err(SelfHostError::MissingRequired { flag }),
    }
}

/// The environment of a deployment from the flags of non-interactive `init`:
/// the host, admin e-mail and every secret are required, the ports default
/// to 4000, 4100, 3000 and 5432 and must differ, and the project id defaults
/// to the project's name.
pub fn env_values_from_non_interactive(cfg: &ProjectConfig, args: &SelfHostInitArgs) -> (r: Result<
    StrMap<String>,
    SelfHostError,
>)
    ensures
        match r {
            Ok(vars) => first_repeated_port(init_ports(*args), 4) is None
                && non_interactive_env(*cfg, *args) == Ok::<Map<Seq<char>, Seq<char>>, RequiredFlag>(
                view_map(vars),
            ),
            Err(SelfHostError::PortConflict { port }) => args.host is Some && first_repeated_port(
                init_ports(*args),
                4,
            ) == Some(port),
            Err(SelfHostError::MissingRequired { flag }) => {
                &&& non_interactive_env(*cfg, *args) == Err::<
                    Map<Seq<char>, Seq<char>>,
                    RequiredFlag,
                >(flag)
                &&& (flag != RequiredFlag::Host ==> first_repeated_port(init_ports(*args), 4) is None)
            },
            Err(_) => false,
        },
{
    let project_id = match &args.project_id {
        Some(p) => p,
        None => &cfg.project.name,
    };
    let host = required(&args.host, RequiredFlag::Host)?;
    let api_port = match args.api_port { Some(p) => p, None => 4000 };
    let console_api_port = match args.console_api_port { Some(p) => p, None => 4100 };
    let console_port = match args.console_port { Some(p) => p, None => 3000 };
    let database_port = match args.database_port { Some(p) => p, None => 5432 };
    let mut ports: Vec<u16> = Vec::new();
    ports.push(api_port);
    ports.push(console_api_port);
    ports.push(console_port);
    ports.push(database_port);
    proof {
        assert(ports@ =~= init_ports(*args));
    }
    match validate_unique_ports(&ports) {
        Ok(()) => {},
        Err(port) => {
            return Err(SelfHostError::PortConflict { port });
        },
    }
    let admin_email = required(&args.admin_email, RequiredFlag::AdminEmail)?;
    let db_password = required(&args.database_password, RequiredFlag::DatabasePassword)?;
    let admin_password = required(&args.admin_password, RequiredFlag::AdminPassword)?;
    let jwt_secret = required(&args.jwt_secret, RequiredFlag::JwtSecret)?;
    let encryption_key = required(&args.encryption_key, RequiredFlag::EncryptionKey)?;
    let redis_password = required(&args.redis_password, RequiredFlag::RedisPassword)?;
    let mut vars = deployment_env_values(
        project_id.as_str(),
        host.as_str(),
        api_port,
        console_api_port,
        console_port,
        database_port,
        admin_email.as_str(),
        admin_password.as_str(),
        db_password.as_str(),
        redis_password.as_str(),
        jwt_secret.as_str(),
        encryption_key.as_str(),
    );
    match &args.redis_host {
        Some(h) => put(&mut vars, "NUVIX_REDIS_HOST", h.as_str()),
        None => put(&mut vars, "NUVIX_REDIS_HOST", "redis"),
    }
    let redis_port = match args.redis_port { Some(p) => p, None => 6379 };
    let rp = u64_to_string(redis_port as u64);
    put(&mut vars, "NUVIX_REDIS_PORT", rp.as_str());
    Ok(vars)
}


/// What interactive `init` offers before asking: the project id, host and
/// admin e-mail given on the command line (else the project's name,
/// `localhost` and `admin@nuvix.in`), and the ports it starts the search
/// for free ones from.
pub struct InitDefaults {
    pub project_id: String,
    pub host: String,
    pub admin_email: String,
    pub api_port: u16,
    pub console_api_port: u16,
    pub console_port: u16,
    pub database_port: u16,
}

/// The defaults that interactive `init` offers.
pub fn interactive_defaults(cfg: &ProjectConfig, args: &SelfHostInitArgs) -> (r: InitDefaults)
    ensures
        r.project_id@ == match args.project_id {
            Some(p) => p@,
            None => cfg.project.name@,
        },
        r.host@ == match args.host {
            Some(h) => h@,
            None => "localhost"@,
        },
        r.admin_email@ == match args.admin_email {
            Some(e) => e@,
            None => "admin@nuvix.in"@,
        },
        seq![r.api_port, r.console_api_port, r.console_port, r.database_port] == init_ports(
            *args,
        ),
{
    let project_id = match &args.project_id {
        Some(p) => owned(p.as_str()),
        None => owned(cfg.project.name.as_str()),
    };
    let host = match &args.host {
        Some(h) => owned(h.as_str()),
        None => owned("localhost"),
    };
    let admin_email = match &args.admin_email {
        Some(e) => owned(e.as_str()),
        None => owned("admin@nuvix.in"),
    };
    let r = InitDefaults {
        project_id,
        host,
        admin_email,
        api_port: match args.api_port {
            Some(p) => p,
            None => 4000,
        },
        console_api_port: match args.console_api_port {
            Some(p) => p,
            None => 4100,
        },
        console_port: match args.console_port {
            Some(p) => p,
            None => 3000,
        },
        database_port: match args.database_port {
            Some(p) => p,
            None => 5432,
        },
    };
    proof {
        assert(seq![r.api_port, r.console_api_port, r.console_port, r.database_port] =~= init_ports(
            *args,
        ));
    }
    r
}

/// The answers of interactive `init`.
pub struct InitAnswers {
    pub project_id: String,
    pub host: String,
    pub api_port: u16,
    pub console_api_port: u16,
    pub console_port: u16,
    pub database_port: u16,
    pub admin_email: String,
    pub admin_password: String,
    pub database_password: String,
    pub redis_password: String,
    pub jwt_secret: String,
    pub encryption_key: String,
}

/// The four service ports of the answers.
pub open spec fn answer_ports(a: InitAnswers) -> Seq<u16> {
    seq![a.api_port, a.console_api_port, a.console_port, a.database_port]
}

/// The environment of a deployment from the answers of interactive `init`;
/// refused when a port is used twice.
pub fn env_values_from_answers(a: &InitAnswers) -> (r: Result<StrMap<String>, SelfHostError>)
    ensures
        match r {
            Ok(vars) => {
                &&& first_repeated_port(answer_ports(*a), 4) is None
                &&& view_map(vars) == deployment_env(
                    a.project_id@,
                    a.host@,
                    a.api_port,
                    a.console_api_port,
                    a.console_port,
                    a.database_port,
                    a.admin_email@,
                    a.admin_password@,
                    a.database_password@,
                    a.redis_password@,
                    a.jwt_secret@,
                    a.encryption_key@,
                )
            },
            Err(SelfHostError::PortConflict { port }) => first_repeated_port(answer_ports(*a), 4)
                == Some(port),
            Err(_) => false,
        },
{
    let mut ports: Vec<u16> = Vec::new();
    ports.push(a.api_port);
    ports.push(a.console_api_port);
    ports.push(a.console_port);
    ports.push(a.database_port);
    proof {
        assert(ports@ =~= answer_ports(*a));
    }
    match validate_unique_ports(&ports) {
        Ok(()) => {},
        Err(port) => {
            return Err(SelfHostError::PortConflict { port });
        },
    }
    Ok(
        deployment_env_values(
            a.project_id.as_str(),
            a.host.as_str(),
            a.api_port,
            a.console_api_port,
            a.console_port,
            a.database_port,
            a.admin_email.as_str(),
            a.admin_password.as_str(),
            a.database_password.as_str(),
            a.redis_password.as_str(),
            a.jwt_secret.as_str(),
            a.encryption_key.as_str(),
        ),
    )
}


// ---------------------------------------------------------------------------
// Self-hosted projects in the project configuration
// ---------------------------------------------------------------------------

impl SelfHostProjectSection {
    /// A copy with the same paths.
    pub fn duplicate(&self) -> (r: SelfHostProjectSection)
        ensures
            r.docker_dir@ == self.docker_dir@,
            r.env_file@ == self.env_file@,
    {
        SelfHostProjectSection {
            docker_dir: owned(self.docker_dir.as_str()),
            env_file: owned(self.env_file.as_str()),
        }
    }
}

/// The self-hosted project a command works on, as (id, docker directory, env
/// file): the requested one; else the default one, if configured; else the
/// only one; else the legacy single deployment under the id `default`.
pub open spec fn project_entry(cfg: ProjectConfig, requested: Option<Seq<char>>) -> Result<
    (Seq<char>, Seq<char>, Seq<char>),
    Option<Seq<char>>,
> {
    match cfg.self_host {
        None => Err(None),
        Some(sh) => match requested {
            Some(id) => if sh.projects.has_key(id) {
                let p = sh.projects.value_of(id);
                Ok((id, p.docker_dir@, p.env_file@))
            } else {
                Err(Some(id))
            },
            None => {
                let from_default = match sh.default_project_id {
                    Some(d) => sh.projects.has_key(d@),
                    None => false,
                };
                if from_default {
                    let d = sh.default_project_id->Some_0@;
                    let p = sh.projects.value_of(d);
                    Ok((d, p.docker_dir@, p.env_file@))
                } else if sh.projects.entries().len() == 1 {
                    let e = sh.projects.entries()[0];
                    Ok((e.0@, e.1.docker_dir@, e.1.env_file@))
                } else {
                    match (sh.docker_dir, sh.env_file) {
                        (Some(d), Some(e)) => Ok(("default"@, d@, e@)),
                        _ => Err(None),
                    }
                }
            },
        },
    }
}

/// Picks the self-hosted project a command works on.
pub fn resolve_project_entry(cfg: &ProjectConfig, requested: Option<&str>) -> (r: Result<
    (String, SelfHostProjectSection),
    SelfHostError,
>)
    ensures
        match r {
            Ok((id, p)) => project_entry(
                *cfg,
                match requested {
                    Some(x) => Some(x@),
                    None => None,
                },
            ) == Ok::<(Seq<char>, Seq<char>, Seq<char>), Option<Seq<char>>>(
                (id@, p.docker_dir@, p.env_file@),
            ),
            Err(SelfHostError::NotInitialized) => cfg.self_host is None,
            Err(SelfHostError::ProjectNotConfigured { id }) => requested matches Some(x) && id@
                == x@ && project_entry(*cfg, Some(x@)) == Err::<
                (Seq<char>, Seq<char>, Seq<char>),
                Option<Seq<char>>,
            >(Some(x@)),
            Err(SelfHostError::MultipleProjects) => requested is None && cfg.self_host is Some
                && project_entry(*cfg, None) == Err::<
                (Seq<char>, Seq<char>, Seq<char>),
                Option<Seq<char>>,
            >(None),
            Err(_) => false,
        },
{
    let sh = match &cfg.self_host {
        Some(sh) => sh,
        None => {
            return Err(SelfHostError::NotInitialized);
        },
    };
    if let Some(id) = requested {
        return match sh.projects.get(id) {
            Some(p) => Ok((owned(id), p.duplicate())),
            None => Err(SelfHostError::ProjectNotConfigured { id: owned(id) }),
        };
    }
    if let Some(d) = &sh.default_project_id {
        if let Some(p) = sh.projects.get(d.as_str()) {
            return Ok((owned(d.as_str()), p.duplicate()));
        }
    }
    if sh.projects.len() == 1 {
        let (k, p) = sh.projects.entry_at(0);
        return Ok((owned(k.as_str()), p.duplicate()));
    }
    match (&sh.docker_dir, &sh.env_file) {
        (Some(d), Some(e)) => Ok(
            (
                owned("default"),
                SelfHostProjectSection { docker_dir: owned(d.as_str()), env_file: owned(e.as_str()) },
            ),
        ),
        _ => Err(SelfHostError::MultipleProjects),
    }
}

/// The docker directory of a deployment, under the project directory, when
/// none is configured.
pub const DEFAULT_DOCKER_DIR: &'static str = "docker";

/// The env file's name in the docker directory.
pub const DEFAULT_ENV_FILE_NAME: &'static str = ".env";

/// The env template's name in the docker directory.
pub const DEFAULT_EXAMPLE_FILE_NAME: &'static str = ".env.example";

/// The repository the docker directory is cloned from.
pub const DEFAULT_DOCKER_REPO: &'static str = "https://github.com/Nuvix-dev/docker";

/// The docker directory `init` starts from for a project: the one recorded
/// for it, else the section's legacy one, else `docker` in the project
/// directory.
pub open spec fn base_docker_dir_spec(cfg: ProjectConfig, project_id: Seq<char>, project_dir: Seq<
    char,
>) -> Seq<char> {
    match cfg.self_host {
        Some(sh) => if sh.projects.has_key(project_id) {
            sh.projects.value_of(project_id).docker_dir@
        } else {
            match sh.docker_dir {
                Some(d) => d@,
                None => spec_path_join(project_dir, "docker"@),
            }
        },
        None => spec_path_join(project_dir, "docker"@),
    }
}

/// Finds the docker directory `init` starts from for a project.
pub fn base_docker_dir(cfg: &ProjectConfig, project_id: &str, project_dir: &str) -> (r: String)
    ensures
        r@ == base_docker_dir_spec(*cfg, project_id@, project_dir@),
{
    if let Some(sh) = &cfg.self_host {
        if let Some(p) = sh.projects.get(project_id) {
            return owned(p.docker_dir.as_str());
        }
        if let Some(d) = &sh.docker_dir {
            return owned(d.as_str());
        }
    }
    path_join(project_dir, DEFAULT_DOCKER_DIR)
}

/// The docker directory of `init`: the one given on the command line, else
/// the one recorded for the project (the one given, else the project's
/// name), taken relative to the project directory.
pub fn init_docker_dir(cfg: &ProjectConfig, args: &SelfHostInitArgs, project_dir: &str) -> (r: String)
    ensures
        r@ == resolved_path(
            project_dir@,
            match args.docker_dir {
                Some(d) => d@,
                None => base_docker_dir_spec(
                    *cfg,
                    match args.project_id {
                        Some(p) => p@,
                        None => cfg.project.name@,
                    },
                    project_dir@,
                ),
            },
        ),
{
    let chosen = match &args.docker_dir {
        Some(d) => owned(d.as_str()),
        None => {
            let id = match &args.project_id {
                Some(p) => p.as_str(),
                None => cfg.project.name.as_str(),
            };
            base_docker_dir(cfg, id, project_dir)
        },
    };
    resolve_path(project_dir, chosen)
}

/// The env file of `init`: the one given on the command line, else the one
/// recorded for the project, else `.env` in the docker directory, taken
/// relative to the project directory.
pub fn init_env_file(
    cfg: &ProjectConfig,
    args: &SelfHostInitArgs,
    project_id: &str,
    docker_dir: &str,
    project_dir: &str,
) -> (r: String)
    ensures
        r@ == resolved_path(
            project_dir@,
            match args.env_file {
                Some(e) => e@,
                None => match existing_env_file_spec(*cfg, project_id@) {
                    Some(e) => e,
                    None => spec_path_join(docker_dir@, ".env"@),
                },
            },
        ),
{
    let chosen = match &args.env_file {
        Some(e) => owned(e.as_str()),
        None => match existing_env_file(cfg, project_id) {
            Some(e) => e,
            None => path_join(docker_dir, DEFAULT_ENV_FILE_NAME),
        },
    };
    resolve_path(project_dir, chosen)
}

/// The env file already recorded for a project, or the section's legacy one.
pub open spec fn existing_env_file_spec(cfg: ProjectConfig, project_id: Seq<char>) -> Option<
    Seq<char>,
> {
    match cfg.self_host {
        Some(sh) => if sh.projects.has_key(project_id) {
            Some(sh.projects.value_of(project_id).env_file@)
        } else {
            match sh.env_file {
                Some(e) => Some(e@),
                None => None,
            }
        },
        None => None,
    }
}

/// Finds the env file already recorded for a project.
pub fn existing_env_file(cfg: &ProjectConfig, project_id: &str) -> (r: Option<String>)
    ensures
        match r {
            Some(x) => existing_env_file_spec(*cfg, project_id@) == Some(x@),
            None => existing_env_file_spec(*cfg, project_id@) is None,
        },
{
    if let Some(sh) = &cfg.self_host {
        if let Some(p) = sh.projects.get(project_id) {
            return Some(owned(p.env_file.as_str()));
        }
        if let Some(e) = &sh.env_file {
            return Some(owned(e.as_str()));
        }
    }
    None
}

/// `after` is `before` with the self-hosted project `id` recorded at
/// `docker_dir` and `env_file` and made the default; the legacy
/// single-deployment paths dropped; and nothing else changed.
pub open spec fn project_recorded(
    before: ProjectConfig,
    after: ProjectConfig,
    id: Seq<char>,
    docker_dir: Seq<char>,
    env_file: Seq<char>,
) -> bool {
    &&& after.project == before.project
    &&& after.local == before.local
    &&& after.remote == before.remote
    &&& after.self_host matches Some(sh) && {
        &&& sh.projects.wf()
        &&& sh.projects.has_key(id)
        &&& sh.projects.value_of(id).docker_dir@ == docker_dir
        &&& sh.projects.value_of(id).env_file@ == env_file
        &&& (sh.default_project_id matches Some(d) && d@ == id)
        &&& sh.docker_dir is None
        &&& sh.env_file is None
        &&& forall|k: Seq<char>|
            k != id ==> #[trigger] sh.projects.has_key(k) == match before.self_host {
                Some(o) => o.projects.has_key(k),
                None => false,
            }
        &&& forall|k: Seq<char>|
            k != id && (before.self_host matches Some(o) && o.projects.has_key(k))
                ==> #[trigger] sh.projects.value_of(k) == before.self_host->Some_0.projects.value_of(k)
    }
}

/// Records a self-hosted project in the project configuration and makes it
/// the default; the legacy single-deployment paths are dropped.
pub fn record_self_host_project(
    cfg: &mut ProjectConfig,
    project_id: &str,
    docker_dir: &str,
    env_file: &str,
)
    ensures
        project_recorded(*old(cfg), *final(cfg), project_id@, docker_dir@, env_file@),
{
    let mut section = match cfg.self_host.take() {
        Some(sh) => sh,
        None => SelfHostSection {
            default_project_id: None,
            projects: StrMap::new(),
            docker_dir: None,
            env_file: None,
        },
    };
    section.projects.insert(
        owned(project_id),
        SelfHostProjectSection { docker_dir: owned(docker_dir), env_file: owned(env_file) },
    );
    section.default_project_id = Some(owned(project_id));
    section.docker_dir = None;
    section.env_file = None;
    proof {
        use_type_invariant(&section.projects);
    }
    cfg.self_host = Some(section);
}

/// Law: once `init` records a self-hosted project, the commands that pick
/// a project find it: by its id, and as the one picked when none is asked
/// for.
pub proof fn law_recorded_project_is_picked(
    before: ProjectConfig,
    after: ProjectConfig,
    id: Seq<char>,
    docker_dir: Seq<char>,
    env_file: Seq<char>,
)
    requires
        project_recorded(before, after, id, docker_dir, env_file),
    ensures
        project_entry(after, None) == Ok::<(Seq<char>, Seq<char>, Seq<char>), Option<Seq<char>>>(
            (id, docker_dir, env_file),
        ),
        project_entry(after, Some(id)) == Ok::<(Seq<char>, Seq<char>, Seq<char>), Option<Seq<char>>>(
            (id, docker_dir, env_file),
        ),
{
}

// ---------------------------------------------------------------------------
// Running the deployment
// ---------------------------------------------------------------------------

/// What `docker compose` is asked to do.
#[derive(PartialEq, Eq, Structural, Debug, Clone, Copy)]
pub enum ComposeAction {
    Up,
    Down,
    Ps,
}

/// The arguments of `docker compose` for a deployment's env file:
/// `compose --env-file <file> <action>`, and `-d` for a detached `up`.
pub fn compose_args(env_file: &str, action: ComposeAction, detach: bool) -> (r: Vec<String>)
    ensures
        r@.len() == if action == ComposeAction::Up && detach {
            5nat
        } else {
            4nat
        },
        r@[0]@ == "compose"@,
        r@[1]@ == "--env-file"@,
        r@[2]@ == env_file@,
        r@[3]@ == match action {
            ComposeAction::Up => "up"@,
            ComposeAction::Down => "down"@,
            ComposeAction::Ps => "ps"@,
        },
        action == ComposeAction::Up && detach ==> r@[4]@ == "-d"@,
{
    let mut r: Vec<String> = Vec::new();
    r.push(owned("compose"));
    r.push(owned("--env-file"));
    r.push(owned(env_file));
    match action {
        ComposeAction::Up => r.push(owned("up")),
        ComposeAction::Down => r.push(owned("down")),
        ComposeAction::Ps => r.push(owned("ps")),
    }
    if action == ComposeAction::Up && detach {
        r.push(owned("-d"));
    }
    r
}

// ---------------------------------------------------------------------------
// Secrets
// ---------------------------------------------------------------------------

/// Calls the `rand` crate: `len` characters drawn from its `Alphanumeric`
/// distribution with the thread-local generator. Its documentation promises
/// ASCII letters and digits; which ones is chance.
#[verifier::external_body]
fn random_alphanumeric(len: usize) -> (r: String)
    ensures
        r@.len() == len,
        forall|i: int| 0 <= i < r@.len() ==> crate::text::is_ascii_alnum(#[trigger] r@[i]),
{
    rand::rng().sample_iter(&rand::distr::Alphanumeric).take(len).map(char::from).collect()
}

/// A fresh random secret of 48 ASCII letters and digits.
pub fn generate_secret() -> (r: String)
    ensures
        r@.len() == 48,
        forall|i: int| 0 <= i < r@.len() ==> crate::text::is_ascii_alnum(#[trigger] r@[i]),
{
    random_alphanumeric(48)
}

/// A fresh random secret of 32 ASCII letters and digits.
pub fn generate_secret_32() -> (r: String)
    ensures
        r@.len() == 32,
        forall|i: int| 0 <= i < r@.len() ==> crate::text::is_ascii_alnum(#[trigger] r@[i]),
{
    random_alphanumeric(32)
}

} // verus!
