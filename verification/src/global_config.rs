//! The user's global configuration: project profiles with their URLs,
//! self-host locations and login sessions.
use vstd::prelude::*;

use crate::paths::{path_join, spec_path_join};
use crate::strmap::StrMap;
use crate::text::{owned, trim, trim_seq};

verus! {

/// The directory of the global configuration under the home directory.
pub const GLOBAL_CONFIG_DIR: &'static str = ".config/nuvix";

/// The global configuration's file name.
pub const GLOBAL_CONFIG_FILE: &'static str = "config.toml";

/// The global configuration: the current project and every project profile.
pub struct GlobalConfig {
    pub current_project_id: Option<String>,
    pub projects: StrMap<GlobalProjectProfile>,
}

/// What the tool knows of one project.
pub struct GlobalProjectProfile {
    pub api_url: Option<String>,
    pub console_api_url: Option<String>,
    pub console_url: Option<String>,
    pub self_host_docker_dir: Option<String>,
    pub self_host_env_file: Option<String>,
    pub auth_email: Option<String>,
    pub nc_session: Option<String>,
}

/// Why a global-configuration operation fails.
#[derive(PartialEq, Eq, Structural, Debug, Clone, Copy)]
pub enum GlobalConfigError {
    /// No project id was given, none is current, and there is not exactly one
    /// profile.
    ProjectIdRequired,
    /// Neither `HOME` nor `USERPROFILE` is set.
    HomeNotSet,
    /// There is no profile for the project.
    ProfileNotFound,
}

impl GlobalProjectProfile {
    /// A profile with nothing set.
    pub open spec fn is_blank(self) -> bool {
        &&& self.api_url is None
        &&& self.console_api_url is None
        &&& self.console_url is None
        &&& self.self_host_docker_dir is None
        &&& self.self_host_env_file is None
        &&& self.auth_email is None
        &&& self.nc_session is None
    }
}

impl Default for GlobalProjectProfile {
    fn default() -> (p: Self)
        ensures
            p.is_blank(),
    {
        GlobalProjectProfile {
            api_url: None,
            console_api_url: None,
            console_url: None,
            self_host_docker_dir: None,
            self_host_env_file: None,
            auth_email: None,
            nc_session: None,
        }
    }
}

impl Default for GlobalConfig {
    fn default() -> (g: Self)
        ensures
            g.current_project_id is None,
            g.projects.entries().len() == 0,
    {
        GlobalConfig { current_project_id: None, projects: StrMap::new() }
    }
}

/// The session that is stored in a profile, unless it is blank.
pub open spec fn loaded_session(p: GlobalProjectProfile) -> Option<Seq<char>> {
    match p.nc_session {
        Some(s) => if trim_seq(s@).len() > 0 {
            Some(s@)
        } else {
            None
        },
        None => None,
    }
}

/// The profile of `id`, or a blank one.
pub open spec fn profile_or_blank(g: GlobalConfig, id: Seq<char>, p: GlobalProjectProfile) -> bool {
    if g.projects.has_key(id) {
        p == g.projects.value_of(id)
    } else {
        p.is_blank()
    }
}

/// `after` is `before` with the profile of `id` (created blank if missing)
/// changed to `p`, and nothing else changed.
pub open spec fn profile_replaced(
    before: GlobalConfig,
    after: GlobalConfig,
    id: Seq<char>,
    p: GlobalProjectProfile,
) -> bool {
    &&& after.projects.wf()
    &&& after.projects.has_key(id)
    &&& after.projects.value_of(id) == p
    &&& forall|k: Seq<char>|
        k != id ==> (#[trigger] after.projects.has_key(k) == before.projects.has_key(k))
    &&& forall|k: Seq<char>|
        k != id && before.projects.has_key(k) ==> #[trigger] after.projects.value_of(k)
            == before.projects.value_of(k)
}

/// Profiles differing only in their session; `new` holds `session`.
pub open spec fn same_but_session(
    old: GlobalProjectProfile,
    new: GlobalProjectProfile,
    session: Option<Seq<char>>,
) -> bool {
    &&& new.api_url == old.api_url
    &&& new.console_api_url == old.console_api_url
    &&& new.console_url == old.console_url
    &&& new.self_host_docker_dir == old.self_host_docker_dir
    &&& new.self_host_env_file == old.self_host_env_file
    &&& new.auth_email == old.auth_email
    &&& match session {
        Some(s) => new.nc_session matches Some(x) && x@ == s,
        None => new.nc_session is None,
    }
}

/// `after` is `before` where the profile of `id` (created blank if missing)
/// holds `session`.
pub open spec fn session_stored(
    before: GlobalConfig,
    after: GlobalConfig,
    id: Seq<char>,
    session: Seq<char>,
) -> bool {
    &&& after.current_project_id == before.current_project_id
    &&& exists|old_p: GlobalProjectProfile|
        #[trigger] profile_or_blank(before, id, old_p) && profile_replaced(
            before,
            after,
            id,
            after.projects.value_of(id),
        ) && same_but_session(old_p, after.projects.value_of(id), Some(session))
}

/// The project a command works on: the one requested, else the current
/// one, else the only profile there is.
pub open spec fn resolved_project_id(g: GlobalConfig, requested: Option<Seq<char>>) -> Result<
    Seq<char>,
    GlobalConfigError,
> {
    match requested {
        Some(id) => Ok(id),
        None => match g.current_project_id {
            Some(cur) => Ok(cur@),
            None => if g.projects.entries().len() == 1 {
                Ok(g.projects.keys()[0])
            } else {
                Err(GlobalConfigError::ProjectIdRequired)
            },
        },
    }
}

impl GlobalConfig {
    /// Picks the project a command works on.
    pub fn resolve_project_id(&self, requested: Option<&str>) -> (r: Result<String, GlobalConfigError>)
        ensures
            match r {
                Ok(x) => resolved_project_id(
                    *self,
                    match requested {
                        Some(id) => Some(id@),
                        None => None,
                    },
                ) == Ok::<Seq<char>, GlobalConfigError>(x@),
                Err(e) => resolved_project_id(
                    *self,
                    match requested {
                        Some(id) => Some(id@),
                        None => None,
                    },
                ) == Err::<Seq<char>, GlobalConfigError>(e),
            },
    {
        if let Some(id) = requested {
            return Ok(owned(id));
        }
        if let Some(cur) = &self.current_project_id {
            return Ok(owned(cur.as_str()));
        }
        if self.projects.len() == 1 {
            let (k, _) = self.projects.entry_at(0);
            return Ok(owned(k.as_str()));
        }
        Err(GlobalConfigError::ProjectIdRequired)
    }
}

/// Where the global configuration lives: under `$XDG_CONFIG_HOME/nuvix`
/// when that is set and not blank, otherwise under `.config/nuvix` in the
/// home directory. `xdg_config_home` and `home` are the values of those
/// variables (`home` is `HOME`, or `USERPROFILE` when `HOME` is unset).
pub fn global_config_path(xdg_config_home: Option<&str>, home: Option<&str>) -> (r: Result<
    String,
    GlobalConfigError,
>)
    ensures
        match xdg_config_home {
            Some(x) if trim_seq(x@).len() > 0 => r matches Ok(p) && p@ == spec_path_join(
                spec_path_join(x@, "nuvix"@),
                "config.toml"@,
            ),
            _ => match home {
                Some(h) => r matches Ok(p) && p@ == spec_path_join(
                    spec_path_join(h@, ".config/nuvix"@),
                    "config.toml"@,
                ),
                None => r == Err::<String, GlobalConfigError>(GlobalConfigError::HomeNotSet),
            },
        },
{
    if let Some(x) = xdg_config_home {
        let t = trim(x);
        if !t.as_str().is_empty() {
            let dir = path_join(x, "nuvix");
            return Ok(path_join(dir.as_str(), GLOBAL_CONFIG_FILE));
        }
    }
    match home {
        Some(h) => {
            let dir = path_join(h, GLOBAL_CONFIG_DIR);
            Ok(path_join(dir.as_str(), GLOBAL_CONFIG_FILE))
        },
        None => Err(GlobalConfigError::HomeNotSet),
    }
}

/// The session stored in a profile, unless it is blank.
pub fn load_session(project_id: &str, profile: &GlobalProjectProfile) -> (r: Option<String>)
    ensures
        match r {
            Some(s) => loaded_session(*profile) == Some(s@),
            None => loaded_session(*profile) is None,
        },
{
    match &profile.nc_session {
        Some(s) => {
            let t = trim(s.as_str());
            if t.as_str().is_empty() {
                None
            } else {
                Some(owned(s.as_str()))
            }
        },
        None => None,
    }
}

fn take_profile(global: &mut GlobalConfig, project_id: &str) -> (p: GlobalProjectProfile)
    ensures
        final(global).current_project_id == old(global).current_project_id,
        profile_or_blank(*old(global), project_id@, p),
        !final(global).projects.has_key(project_id@),
        forall|k: Seq<char>|
            k != project_id@ ==> (#[trigger] final(global).projects.has_key(k)
                == old(global).projects.has_key(k)),
        forall|k: Seq<char>|
            k != project_id@ && old(global).projects.has_key(k)
                ==> #[trigger] final(global).projects.value_of(k)
                == old(global).projects.value_of(k),
{
    match global.projects.remove(project_id) {
        Some(p) => p,
        None => GlobalProjectProfile::default(),
    }
}

/// Stores a login session in the profile of `project_id`, creating a blank
/// profile first when there is none.
pub fn store_session(global: &mut GlobalConfig, project_id: &str, session: &str)
    ensures
        session_stored(*old(global), *final(global), project_id@, session@),
{
    let ghost before = *global;
    let mut p = take_profile(global, project_id);
    let ghost old_p = p;
    p.nc_session = Some(owned(session));
    global.projects.insert(owned(project_id), p);
    proof {
        use_type_invariant(&global.projects);
        assert(profile_or_blank(before, project_id@, old_p));
        assert(same_but_session(old_p, global.projects.value_of(project_id@), Some(session@)));
    }
}

/// `after` is `before` where the profile of `id`, when there is one, holds
/// no session; without a profile nothing changes.
pub open spec fn session_cleared(before: GlobalConfig, after: GlobalConfig, id: Seq<char>) -> bool {
    &&& after.current_project_id == before.current_project_id
    &&& before.projects.has_key(id) ==> profile_replaced(
        before,
        after,
        id,
        after.projects.value_of(id),
    ) && same_but_session(before.projects.value_of(id), after.projects.value_of(id), None)
    &&& !before.projects.has_key(id) ==> after.projects == before.projects
}

/// Forgets the login session of `project_id`, when it has a profile.
pub fn clear_session(global: &mut GlobalConfig, project_id: &str)
    ensures
        session_cleared(*old(global), *final(global), project_id@),
{
    if global.projects.contains_key(project_id) {
        let mut p = take_profile(global, project_id);
        p.nc_session = None;
        global.projects.insert(owned(project_id), p);
    }
    proof {
        use_type_invariant(&global.projects);
    }
}


/// The characters of an optional string.
pub open spec fn opt_view(o: Option<String>) -> Option<Seq<char>> {
    match o {
        Some(s) => Some(s@),
        None => None,
    }
}

/// The characters stored under `k` in a string map, if any.
pub open spec fn lookup_view(m: StrMap<String>, k: Seq<char>) -> Option<Seq<char>> {
    if m.has_key(k) {
        Some(m.value_of(k)@)
    } else {
        None
    }
}

fn lookup_owned(m: &StrMap<String>, k: &str) -> (r: Option<String>)
    ensures
        opt_view(r) == lookup_view(*m, k@),
{
    match m.get(k) {
        Some(v) => Some(owned(v.as_str())),
        None => None,
    }
}

/// Sets the API and console URLs of a project's profile (creating it blank if
/// missing) and makes the project current when none is.
pub fn set_profile_urls(
    global: &mut GlobalConfig,
    project_id: &str,
    api_url: String,
    console_api_url: String,
    console_url: Option<String>,
)
    ensures
        ({
            let p = final(global).projects.value_of(project_id@);
            &&& profile_replaced(*old(global), *final(global), project_id@, p)
            &&& exists|old_p: GlobalProjectProfile|
                #[trigger] profile_or_blank(*old(global), project_id@, old_p) && {
                    &&& p.api_url == Some(api_url)
                    &&& p.console_api_url == Some(console_api_url)
                    &&& p.console_url == match console_url {
                        Some(u) => Some(u),
                        None => old_p.console_url,
                    }
                    &&& p.self_host_docker_dir == old_p.self_host_docker_dir
                    &&& p.self_host_env_file == old_p.self_host_env_file
                    &&& p.auth_email == old_p.auth_email
                    &&& p.nc_session == old_p.nc_session
                }
        }),
        match old(global).current_project_id {
            Some(c) => final(global).current_project_id == Some(c),
            None => final(global).current_project_id matches Some(c) && c@ == project_id@,
        },
{
    let ghost before = *global;
    let mut p = take_profile(global, project_id);
    let ghost old_p = p;
    p.api_url = Some(api_url);
    p.console_api_url = Some(console_api_url);
    if let Some(u) = console_url {
        p.console_url = Some(u);
    }
    global.projects.insert(owned(project_id), p);
    if global.current_project_id.is_none() {
        global.current_project_id = Some(owned(project_id));
    }
    proof {
        use_type_invariant(&global.projects);
        assert(profile_or_blank(before, project_id@, old_p));
    }
}

/// Makes a project with a profile the current one.
pub fn use_project(global: &mut GlobalConfig, project_id: &str) -> (r: Result<(), GlobalConfigError>)
    ensures
        final(global).projects == old(global).projects,
        match r {
            Ok(()) => old(global).projects.has_key(project_id@)
                && (final(global).current_project_id matches Some(c) && c@ == project_id@),
            Err(e) => !old(global).projects.has_key(project_id@)
                && e == GlobalConfigError::ProfileNotFound
                && final(global).current_project_id == old(global).current_project_id,
        },
{
    if !global.projects.contains_key(project_id) {
        return Err(GlobalConfigError::ProfileNotFound);
    }
    global.current_project_id = Some(owned(project_id));
    Ok(())
}

/// Records a self-hosted deployment in a project's profile (creating it blank
/// if missing): its endpoints from the deployment's environment values, its
/// docker directory and env file; the project becomes the current one.
pub fn register_self_host_profile(
    global: &mut GlobalConfig,
    project_id: &str,
    docker_dir: &str,
    env_file: &str,
    env_values: &StrMap<String>,
)
    ensures
        ({
            let p = final(global).projects.value_of(project_id@);
            &&& profile_replaced(*old(global), *final(global), project_id@, p)
            &&& exists|old_p: GlobalProjectProfile|
                #[trigger] profile_or_blank(*old(global), project_id@, old_p) && {
                    &&& opt_view(p.api_url) == lookup_view(*env_values, "NUVIX_API_ENDPOINT"@)
                    &&& opt_view(p.console_api_url) == lookup_view(
                        *env_values,
                        "NUVIX_CONSOLE_API_ENDPOINT"@,
                    )
                    &&& opt_view(p.console_url) == lookup_view(*env_values, "NUVIX_CONSOLE_URL"@)
                    &&& opt_view(p.self_host_docker_dir) == Some(docker_dir@)
                    &&& opt_view(p.self_host_env_file) == Some(env_file@)
                    &&& p.auth_email == old_p.auth_email
                    &&& p.nc_session == old_p.nc_session
                }
        }),
        final(global).current_project_id matches Some(c) && c@ == project_id@,
{
    let ghost before = *global;
    let mut p = take_profile(global, project_id);
    let ghost old_p = p;
    p.api_url = lookup_owned(env_values, "NUVIX_API_ENDPOINT");
    p.console_api_url = lookup_owned(env_values, "NUVIX_CONSOLE_API_ENDPOINT");
    p.console_url = lookup_owned(env_values, "NUVIX_CONSOLE_URL");
    p.self_host_docker_dir = Some(owned(docker_dir));
    p.self_host_env_file = Some(owned(env_file));
    global.projects.insert(owned(project_id), p);
    global.current_project_id = Some(owned(project_id));
    proof {
        use_type_invariant(&global.projects);
        assert(profile_or_blank(before, project_id@, old_p));
    }
}

/// Whether a profile holds a session (`auth status`): one that is not empty.
pub fn has_session(profile: &GlobalProjectProfile) -> (r: bool)
    ensures
        r == (profile.nc_session matches Some(s) && s@.len() > 0),
{
    match &profile.nc_session {
        Some(s) => !s.as_str().is_empty(),
        None => false,
    }
}

/// Records a login in an existing profile: its e-mail and session; the
/// project becomes the current one. Refused, with nothing changed, when the
/// project has no profile.
pub fn record_login(global: &mut GlobalConfig, project_id: &str, email: String, session: String) -> (r:
    Result<(), GlobalConfigError>)
    ensures
        !old(global).projects.has_key(project_id@) ==> r == Err::<(), GlobalConfigError>(
            GlobalConfigError::ProfileNotFound,
        ) && *final(global) == *old(global),
        old(global).projects.has_key(project_id@) ==> {
            let p = final(global).projects.value_of(project_id@);
            let o = old(global).projects.value_of(project_id@);
            &&& r is Ok
            &&& profile_replaced(*old(global), *final(global), project_id@, p)
            &&& p.auth_email == Some(email)
            &&& same_but_session(
                GlobalProjectProfile { auth_email: Some(email), ..o },
                p,
                Some(session@),
            )
            &&& (final(global).current_project_id matches Some(c) && c@ == project_id@)
        },
{
    if !global.projects.contains_key(project_id) {
        return Err(GlobalConfigError::ProfileNotFound);
    }
    let mut p = take_profile(global, project_id);
    p.auth_email = Some(email);
    p.nc_session = Some(session);
    global.projects.insert(owned(project_id), p);
    global.current_project_id = Some(owned(project_id));
    proof {
        use_type_invariant(&global.projects);
    }
    Ok(())
}

/// Why `auth logout` is refused.
#[derive(PartialEq, Eq, Structural, Debug, Clone, Copy)]
pub enum LogoutError {
    /// There is no profile for the project.
    ProfileNotFound,
    /// The profile holds no session.
    NoSession,
}

/// Forgets the session of a profile that has one (`auth logout`). Refused,
/// with nothing changed, when the project has no profile or no session.
pub fn logout(global: &mut GlobalConfig, project_id: &str) -> (r: Result<(), LogoutError>)
    ensures
        !old(global).projects.has_key(project_id@) ==> r == Err::<(), LogoutError>(
            LogoutError::ProfileNotFound,
        ) && *final(global) == *old(global),
        old(global).projects.has_key(project_id@) && old(global).projects.value_of(
            project_id@,
        ).nc_session is None ==> r == Err::<(), LogoutError>(LogoutError::NoSession)
            && *final(global) == *old(global),
        old(global).projects.has_key(project_id@) && old(global).projects.value_of(
            project_id@,
        ).nc_session is Some ==> {
            &&& r is Ok
            &&& final(global).current_project_id == old(global).current_project_id
            &&& profile_replaced(
                *old(global),
                *final(global),
                project_id@,
                final(global).projects.value_of(project_id@),
            )
            &&& same_but_session(
                old(global).projects.value_of(project_id@),
                final(global).projects.value_of(project_id@),
                None,
            )
        },
{
    match global.projects.get(project_id) {
        None => {
            return Err(LogoutError::ProfileNotFound);
        },
        Some(p) => {
            if p.nc_session.is_none() {
                return Err(LogoutError::NoSession);
            }
        },
    }
    clear_session(global, project_id);
    proof {
        use_type_invariant(&global.projects);
    }
    Ok(())
}

/// Law: once a project is made the current one, commands that are given no
/// project work on it.
pub proof fn law_used_project_is_resolved(after: GlobalConfig, id: Seq<char>)
    requires
        after.current_project_id matches Some(c) && c@ == id,
    ensures
        resolved_project_id(after, None) == Ok::<Seq<char>, GlobalConfigError>(id),
{
}

/// Law: after a login that returned a session that is not blank, loading
/// the project's session gives it back.
pub proof fn law_login_then_load_session(
    before: GlobalProjectProfile,
    after: GlobalProjectProfile,
    email: String,
    session: Seq<char>,
)
    requires
        same_but_session(
            GlobalProjectProfile { auth_email: Some(email), ..before },
            after,
            Some(session),
        ),
        trim_seq(session).len() > 0,
    ensures
        loaded_session(after) == Some(session),
{
}

/// Law: once a session is stored for a project, loading the session of that
/// project's profile gives it back, or nothing when it is blank.
pub proof fn law_store_then_load_session(
    before: GlobalConfig,
    after: GlobalConfig,
    id: Seq<char>,
    session: Seq<char>,
)
    requires
        session_stored(before, after, id, session),
    ensures
        loaded_session(after.projects.value_of(id)) == if trim_seq(session).len() > 0 {
            Some(session)
        } else {
            None
        },
{
}

/// Law: once a session is cleared, loading the session of that project's
/// profile gives nothing.
pub proof fn law_clear_then_load_session(
    before: GlobalConfig,
    after: GlobalConfig,
    id: Seq<char>,
)
    requires
        before.projects.has_key(id),
        same_but_session(before.projects.value_of(id), after.projects.value_of(id), None),
    ensures
        loaded_session(after.projects.value_of(id)) is None,
{
}

/// Law: storing a session in a profile that held none and then clearing it
/// gives back the configuration as it was, profiles and current project
/// alike; clearing once more changes nothing.
pub proof fn law_clear_undoes_store(
    g0: GlobalConfig,
    g1: GlobalConfig,
    g2: GlobalConfig,
    g3: GlobalConfig,
    id: Seq<char>,
    session: Seq<char>,
)
    requires
        g0.projects.has_key(id),
        g0.projects.value_of(id).nc_session is None,
        session_stored(g0, g1, id, session),
        session_cleared(g1, g2, id),
        session_cleared(g2, g3, id),
    ensures
        g2.current_project_id == g0.current_project_id,
        g2.projects.map() == g0.projects.map(),
        g3.current_project_id == g2.current_project_id,
        g3.projects.map() == g2.projects.map(),
{
    let old_p = choose|old_p: GlobalProjectProfile|
        #[trigger] profile_or_blank(g0, id, old_p) && profile_replaced(
            g0,
            g1,
            id,
            g1.projects.value_of(id),
        ) && same_but_session(old_p, g1.projects.value_of(id), Some(session));
    assert(old_p == g0.projects.value_of(id));
    assert(g2.projects.value_of(id) == g0.projects.value_of(id));
    assert(g2.projects.map() =~= g0.projects.map()) by {
        assert forall|k: Seq<char>| #[trigger] g2.projects.has_key(k) == g0.projects.has_key(k) by {
            if k != id {
                assert(g2.projects.has_key(k) == g1.projects.has_key(k));
                assert(g1.projects.has_key(k) == g0.projects.has_key(k));
            }
        }
        assert forall|k: Seq<char>| #[trigger] g0.projects.has_key(k) implies g2.projects.value_of(k)
            == g0.projects.value_of(k) by {
            if k != id {
                assert(g1.projects.has_key(k));
                assert(g1.projects.value_of(k) == g0.projects.value_of(k));
            }
        }
    }
    assert(g3.projects.value_of(id) == g2.projects.value_of(id));
    assert(g3.projects.map() =~= g2.projects.map()) by {
        assert forall|k: Seq<char>| #[trigger] g3.projects.has_key(k) == g2.projects.has_key(k) by {}
        assert forall|k: Seq<char>| #[trigger] g2.projects.has_key(k) implies g3.projects.value_of(k)
            == g2.projects.value_of(k) by {}
    }
}

} // verus!
