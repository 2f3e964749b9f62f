use nuvix::client::{
    client_base_url, ensure_api_url, ensure_console_api_url, ensure_console_url,
    extract_nc_session, login_url, request_url, ClientError,
};
use nuvix::global_config::{
    clear_session, global_config_path, has_session, load_session, logout, record_login,
    register_self_host_profile, set_profile_urls, store_session, use_project, GlobalConfig,
    GlobalConfigError, GlobalProjectProfile, LogoutError,
};
use nuvix::self_host::put;
use nuvix::strmap::StrMap;
use nuvix::typegen::{default_output_path, generator_endpoint, generator_target, TypegenError};

fn profile() -> GlobalProjectProfile {
    GlobalProjectProfile::default()
}

fn config_with(ids: &[&str]) -> GlobalConfig {
    let mut g = GlobalConfig::default();
    for id in ids {
        g.projects.insert(id.to_string(), profile());
    }
    g
}

#[test]
fn resolve_project_id_order() {
    let mut g = config_with(&["a", "b"]);
    assert_eq!(g.resolve_project_id(Some("x")).unwrap(), "x");
    assert_eq!(g.resolve_project_id(None), Err(GlobalConfigError::ProjectIdRequired));
    g.current_project_id = Some("b".to_string());
    assert_eq!(g.resolve_project_id(None).unwrap(), "b");
    let single = config_with(&["only"]);
    assert_eq!(single.resolve_project_id(None).unwrap(), "only");
    let empty = config_with(&[]);
    assert_eq!(empty.resolve_project_id(None), Err(GlobalConfigError::ProjectIdRequired));
}

#[test]
fn global_config_path_prefers_xdg() {
    assert_eq!(
        global_config_path(Some("/xdg"), Some("/home/u")).unwrap(),
        "/xdg/nuvix/config.toml"
    );
    assert_eq!(
        global_config_path(Some("  "), Some("/home/u")).unwrap(),
        "/home/u/.config/nuvix/config.toml"
    );
    assert_eq!(
        global_config_path(None, Some("/home/u")).unwrap(),
        "/home/u/.config/nuvix/config.toml"
    );
    assert_eq!(global_config_path(None, None), Err(GlobalConfigError::HomeNotSet));
}

#[test]
fn stored_session_loads_back_and_clears() {
    let mut g = config_with(&[]);
    store_session(&mut g, "p", "abc");
    assert_eq!(load_session("p", g.projects.get("p").unwrap()), Some("abc".to_string()));
    clear_session(&mut g, "p");
    assert_eq!(load_session("p", g.projects.get("p").unwrap()), None);
    store_session(&mut g, "p", "   ");
    assert_eq!(load_session("p", g.projects.get("p").unwrap()), None);
    clear_session(&mut g, "missing");
    assert!(!g.projects.contains_key("missing"));
}

#[test]
fn set_profile_urls_creates_and_sets_current() {
    let mut g = config_with(&[]);
    set_profile_urls(&mut g, "p", "http://api".to_string(), "http://capi".to_string(), None);
    let p = g.projects.get("p").unwrap();
    assert_eq!(p.api_url.as_deref(), Some("http://api"));
    assert_eq!(p.console_api_url.as_deref(), Some("http://capi"));
    assert_eq!(p.console_url, None);
    assert_eq!(g.current_project_id.as_deref(), Some("p"));
    set_profile_urls(&mut g, "q", "a".to_string(), "b".to_string(), Some("c".to_string()));
    assert_eq!(g.current_project_id.as_deref(), Some("p"));
    assert_eq!(g.projects.get("q").unwrap().console_url.as_deref(), Some("c"));
}

#[test]
fn use_project_needs_profile() {
    let mut g = config_with(&["a"]);
    assert_eq!(use_project(&mut g, "b"), Err(GlobalConfigError::ProfileNotFound));
    assert_eq!(g.current_project_id, None);
    assert_eq!(use_project(&mut g, "a"), Ok(()));
    assert_eq!(g.current_project_id.as_deref(), Some("a"));
}

#[test]
fn register_self_host_profile_copies_endpoints() {
    let mut g = config_with(&[]);
    let mut env = StrMap::new();
    put(&mut env, "NUVIX_API_ENDPOINT", "http://h:4000/v1");
    put(&mut env, "NUVIX_CONSOLE_URL", "http://h:3000");
    register_self_host_profile(&mut g, "p", "/d", "/d/.env", &env);
    let p = g.projects.get("p").unwrap();
    assert_eq!(p.api_url.as_deref(), Some("http://h:4000/v1"));
    assert_eq!(p.console_api_url, None);
    assert_eq!(p.console_url.as_deref(), Some("http://h:3000"));
    assert_eq!(p.self_host_env_file.as_deref(), Some("/d/.env"));
    assert_eq!(g.current_project_id.as_deref(), Some("p"));
}

#[test]
fn login_and_logout() {
    let mut g = config_with(&["p"]);
    assert_eq!(
        record_login(&mut g, "q", "e".to_string(), "s".to_string()),
        Err(GlobalConfigError::ProfileNotFound)
    );
    assert_eq!(record_login(&mut g, "p", "me@x".to_string(), "sess".to_string()), Ok(()));
    let p = g.projects.get("p").unwrap();
    assert_eq!(p.auth_email.as_deref(), Some("me@x"));
    assert!(has_session(p));
    assert_eq!(g.current_project_id.as_deref(), Some("p"));
    assert_eq!(logout(&mut g, "p"), Ok(()));
    assert!(!has_session(g.projects.get("p").unwrap()));
    assert_eq!(logout(&mut g, "p"), Err(LogoutError::NoSession));
    assert_eq!(logout(&mut g, "zz"), Err(LogoutError::ProfileNotFound));
}

#[test]
fn profile_urls_fall_back() {
    let mut p = profile();
    assert_eq!(ensure_console_api_url(&p), Err(ClientError::MissingConsoleUrls));
    assert_eq!(ensure_api_url(&p), Err(ClientError::MissingApiUrl));
    p.console_url = Some("http://console".to_string());
    assert_eq!(ensure_console_api_url(&p).unwrap(), "http://console");
    p.console_api_url = Some("http://capi".to_string());
    assert_eq!(ensure_console_api_url(&p).unwrap(), "http://capi");
    assert_eq!(ensure_console_url(&p).unwrap(), "http://console");
}

#[test]
fn urls_are_joined() {
    assert_eq!(client_base_url("http://x///"), "http://x");
    assert_eq!(request_url("http://x", "//v1/a"), "http://x/v1/a");
    assert_eq!(login_url("http://x/"), "http://x/sessions/email");
}

#[test]
fn session_cookie_is_found() {
    let headers = vec![
        Some("other=1; Path=/".to_string()),
        Some("  nc_session= tok123 ; HttpOnly".to_string()),
        Some("nc_session=later".to_string()),
    ];
    assert_eq!(extract_nc_session(&headers).unwrap(), "tok123");
    let headers = vec![Some("nc_session=; Path=/".to_string()), None];
    assert_eq!(extract_nc_session(&headers), Err(ClientError::InvalidCookieHeader));
    assert_eq!(extract_nc_session(&vec![]), Err(ClientError::SessionNotFound));
}

#[test]
fn typegen_target_and_paths() {
    let mut g = config_with(&[]);
    let mut p = profile();
    p.nc_session = Some(String::new());
    p.console_api_url = Some("http://capi".to_string());
    g.projects.insert("p".to_string(), p);
    assert_eq!(generator_target(&g, "p"), Err(TypegenError::MissingSession));
    assert_eq!(generator_target(&g, "x"), Err(TypegenError::ProfileNotFound));
    let mut p = profile();
    p.nc_session = Some("s".to_string());
    g.projects.insert("q".to_string(), p);
    assert_eq!(generator_target(&g, "q"), Err(TypegenError::MissingConsoleUrls));
    let mut p = profile();
    p.nc_session = Some("s".to_string());
    p.console_api_url = Some("http://capi".to_string());
    g.projects.insert("r".to_string(), p);
    assert_eq!(
        generator_target(&g, "r").unwrap(),
        ("http://capi".to_string(), "s".to_string())
    );
    assert_eq!(generator_endpoint("typescript"), "database/generators/typescript");
    assert_eq!(default_output_path("/p", "types.ts"), "/p/nuvix/types/types.ts");
}

fn profile_fields(p: &GlobalProjectProfile) -> Vec<Option<String>> {
    vec![
        p.api_url.clone(),
        p.console_api_url.clone(),
        p.console_url.clone(),
        p.self_host_docker_dir.clone(),
        p.self_host_env_file.clone(),
        p.auth_email.clone(),
        p.nc_session.clone(),
    ]
}

fn config_fields(g: &GlobalConfig) -> (Option<String>, Vec<(String, Vec<Option<String>>)>) {
    let keys = g.projects.key_list();
    let profiles = keys
        .iter()
        .map(|k| (k.clone(), profile_fields(g.projects.get(k).unwrap())))
        .collect();
    (g.current_project_id.clone(), profiles)
}

#[test]
fn clearing_undoes_storing_a_session() {
    let mut g = config_with(&["a", "p", "z"]);
    set_profile_urls(&mut g, "p", "http://api".to_string(), "http://capi".to_string(), None);
    let before = config_fields(&g);
    store_session(&mut g, "p", "abc");
    assert_ne!(config_fields(&g), before);
    clear_session(&mut g, "p");
    assert_eq!(config_fields(&g), before);
    clear_session(&mut g, "p");
    assert_eq!(config_fields(&g), before);
}
