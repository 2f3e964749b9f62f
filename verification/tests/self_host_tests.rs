use nuvix::cli::SelfHostInitArgs;
use nuvix::config::{ProjectConfig, SelfHostProjectSection, SelfHostSection};
use nuvix::self_host::{
    base_defaults, base_docker_dir, choose_port_step, compose_args, env_values_from_answers,
    env_values_from_non_interactive, existing_env_file, format_env_value, generate_secret,
    generate_secret_32, init_docker_dir, init_env_file, interactive_defaults, merge_template_with_overrides, put,
    record_self_host_project, render_plain_env, resolve_project_entry, validate_unique_ports,
    ComposeAction, InitAnswers, PortStep, RequiredFlag, SelfHostError,
};
use nuvix::strmap::StrMap;

fn args() -> SelfHostInitArgs {
    SelfHostInitArgs {
        non_interactive: true,
        force: false,
        pull: false,
        docker_dir: None,
        docker_repo: None,
        env_file: None,
        project_id: None,
        host: Some("example.com".to_string()),
        api_port: None,
        console_api_port: None,
        console_port: None,
        database_port: None,
        admin_email: Some("root@example.com".to_string()),
        admin_password: Some("adminpw".to_string()),
        jwt_secret: Some("jwt".to_string()),
        database_password: Some("dbpw".to_string()),
        encryption_key: Some("enc".to_string()),
        redis_host: None,
        redis_port: None,
        redis_password: Some("redispw".to_string()),
    }
}

fn get(m: &StrMap<String>, k: &str) -> String {
    m.get(k).cloned().unwrap_or_default()
}

fn section(entries: &[(&str, &str, &str)], default: Option<&str>) -> SelfHostSection {
    let mut projects = StrMap::new();
    for (id, d, e) in entries {
        projects.insert(
            id.to_string(),
            SelfHostProjectSection { docker_dir: d.to_string(), env_file: e.to_string() },
        );
    }
    SelfHostSection {
        default_project_id: default.map(|s| s.to_string()),
        projects,
        docker_dir: None,
        env_file: None,
    }
}

#[test]
fn format_env_value_quotes_when_needed() {
    assert_eq!(format_env_value("plain"), "plain");
    assert_eq!(format_env_value("two words"), "\"two words\"");
    assert_eq!(format_env_value("a#b"), "\"a#b\"");
    assert_eq!(format_env_value("say \"hi\""), "\"say \\\"hi\\\"\"");
    assert_eq!(format_env_value(""), "");
}

#[test]
fn render_plain_env_sorted_lines() {
    let mut m = StrMap::new();
    put(&mut m, "B", "2");
    put(&mut m, "A", "x y");
    assert_eq!(render_plain_env(&m), "A=\"x y\"\nB=2\n");
    assert_eq!(render_plain_env(&StrMap::new()), "");
}

#[test]
fn merge_template_overrides_known_keys() {
    let mut m = StrMap::new();
    put(&mut m, "PORT", "8080");
    put(&mut m, "NAME", "my app");
    let template = "# header\nPORT=1\n\n NAME = old \nOTHER=keep\nno equals";
    assert_eq!(
        merge_template_with_overrides(template, &m),
        "# header\nPORT=8080\n\nNAME=\"my app\"\nOTHER=keep\nno equals\n"
    );
    assert_eq!(merge_template_with_overrides("", &m), "");
}

#[test]
fn base_defaults_has_expected_values() {
    let d = base_defaults();
    assert_eq!(d.len(), 62);
    assert_eq!(get(&d, "NUVIX_API_PORT"), "4000");
    assert_eq!(get(&d, "NUVIX_DATABASE_USER"), "postgres");
    assert_eq!(get(&d, "NUVIX_LOG_LEVELS"), "log,error,warn");
}

#[test]
fn validate_unique_ports_names_first_repeat() {
    assert_eq!(validate_unique_ports(&vec![1, 2, 3]), Ok(()));
    assert_eq!(validate_unique_ports(&vec![1, 2, 2, 1]), Err(2));
    assert_eq!(validate_unique_ports(&vec![]), Ok(()));
}

#[test]
fn choose_port_step_decides() {
    assert_eq!(choose_port_step(4000, &vec![], true), PortStep::Take(4000));
    assert_eq!(choose_port_step(4000, &vec![4000], true), PortStep::Try(4001));
    assert_eq!(choose_port_step(4001, &vec![], false), PortStep::Try(4002));
    assert_eq!(choose_port_step(65535, &vec![], false), PortStep::Try(65535));
}

#[test]
fn non_interactive_env_values() {
    let cfg = ProjectConfig::new("proj".to_string());
    let vars = env_values_from_non_interactive(&cfg, &args()).ok().unwrap();
    assert_eq!(get(&vars, "NUVIX_PROJECT_ID"), "proj");
    assert_eq!(get(&vars, "NUVIX_HOST"), "example.com");
    assert_eq!(get(&vars, "NUVIX_CONSOLE_URL"), "http://example.com:3000");
    assert_eq!(get(&vars, "NUVIX_API_ENDPOINT"), "http://example.com:4000/v1");
    assert_eq!(get(&vars, "NUVIX_CONSOLE_API_ENDPOINT"), "http://example.com:4100");
    assert_eq!(get(&vars, "NUVIX_CORS_ORIGIN"), "http://example.com:3000");
    assert_eq!(get(&vars, "NUVIX_DATABASE_PASSWORD"), "dbpw");
    assert_eq!(get(&vars, "NUVIX_REDIS_HOST"), "redis");
    assert_eq!(get(&vars, "NUVIX_REDIS_PORT"), "6379");
    assert_eq!(get(&vars, "NUVIX_ADMIN_EMAIL"), "root@example.com");
}

#[test]
fn non_interactive_env_errors() {
    let cfg = ProjectConfig::new("proj".to_string());
    let mut a = args();
    a.host = None;
    assert!(matches!(
        env_values_from_non_interactive(&cfg, &a),
        Err(SelfHostError::MissingRequired { flag: RequiredFlag::Host })
    ));
    let mut a = args();
    a.console_port = Some(4000);
    assert!(matches!(
        env_values_from_non_interactive(&cfg, &a),
        Err(SelfHostError::PortConflict { port: 4000 })
    ));
    let mut a = args();
    a.redis_password = None;
    assert!(matches!(
        env_values_from_non_interactive(&cfg, &a),
        Err(SelfHostError::MissingRequired { flag: RequiredFlag::RedisPassword })
    ));
    let mut a = args();
    a.admin_email = None;
    a.jwt_secret = None;
    assert!(matches!(
        env_values_from_non_interactive(&cfg, &a),
        Err(SelfHostError::MissingRequired { flag: RequiredFlag::AdminEmail })
    ));
}

#[test]
fn interactive_defaults_and_answers() {
    let cfg = ProjectConfig::new("proj".to_string());
    let mut a = args();
    a.host = None;
    a.admin_email = None;
    a.api_port = Some(9000);
    let d = interactive_defaults(&cfg, &a);
    assert_eq!(d.project_id, "proj");
    assert_eq!(d.host, "localhost");
    assert_eq!(d.admin_email, "admin@nuvix.in");
    assert_eq!(
        (d.api_port, d.console_api_port, d.console_port, d.database_port),
        (9000, 4100, 3000, 5432)
    );
    let answers = InitAnswers {
        project_id: "p".to_string(),
        host: "h".to_string(),
        api_port: 1,
        console_api_port: 2,
        console_port: 3,
        database_port: 4,
        admin_email: "e".to_string(),
        admin_password: "ap".to_string(),
        database_password: "dp".to_string(),
        redis_password: "rp".to_string(),
        jwt_secret: "j".to_string(),
        encryption_key: "k".to_string(),
    };
    let vars = env_values_from_answers(&answers).ok().unwrap();
    assert_eq!(get(&vars, "NUVIX_API_ENDPOINT"), "http://h:1/v1");
    assert_eq!(get(&vars, "NUVIX_REDIS_HOST"), "redis");
    let conflicting = InitAnswers { database_port: 2, ..answers };
    assert!(matches!(
        env_values_from_answers(&conflicting),
        Err(SelfHostError::PortConflict { port: 2 })
    ));
}

#[test]
fn resolve_project_entry_order() {
    let mut cfg = ProjectConfig::new("p".to_string());
    assert!(matches!(
        resolve_project_entry(&cfg, None),
        Err(SelfHostError::NotInitialized)
    ));
    cfg.self_host = Some(section(&[("a", "/a", "/a/.env"), ("b", "/b", "/b/.env")], Some("b")));
    let (id, p) = resolve_project_entry(&cfg, None).ok().unwrap();
    assert_eq!((id.as_str(), p.docker_dir.as_str()), ("b", "/b"));
    let (id, _) = resolve_project_entry(&cfg, Some("a")).ok().unwrap();
    assert_eq!(id, "a");
    assert!(matches!(
        resolve_project_entry(&cfg, Some("c")),
        Err(SelfHostError::ProjectNotConfigured { .. })
    ));
    cfg.self_host = Some(section(&[("a", "/a", "/a/.env"), ("b", "/b", "/b/.env")], None));
    assert!(matches!(
        resolve_project_entry(&cfg, None),
        Err(SelfHostError::MultipleProjects)
    ));
    let mut legacy = section(&[], None);
    legacy.docker_dir = Some("/d".to_string());
    legacy.env_file = Some("/d/.env".to_string());
    cfg.self_host = Some(legacy);
    let (id, p) = resolve_project_entry(&cfg, None).ok().unwrap();
    assert_eq!((id.as_str(), p.env_file.as_str()), ("default", "/d/.env"));
}

#[test]
fn docker_dir_and_env_file_defaults() {
    let mut cfg = ProjectConfig::new("p".to_string());
    assert_eq!(base_docker_dir(&cfg, "x", "/proj"), "/proj/docker");
    assert_eq!(existing_env_file(&cfg, "x"), None);
    cfg.self_host = Some(section(&[("x", "/dx", "/dx/.env")], None));
    assert_eq!(base_docker_dir(&cfg, "x", "/proj"), "/dx");
    assert_eq!(existing_env_file(&cfg, "x"), Some("/dx/.env".to_string()));
    assert_eq!(base_docker_dir(&cfg, "y", "/proj"), "/proj/docker");
}

#[test]
fn record_self_host_project_makes_default() {
    let mut cfg = ProjectConfig::new("p".to_string());
    record_self_host_project(&mut cfg, "id1", "/d", "/d/.env");
    let sh = cfg.self_host.as_ref().unwrap();
    assert_eq!(sh.default_project_id.as_deref(), Some("id1"));
    assert_eq!(sh.projects.get("id1").unwrap().env_file, "/d/.env");
    assert!(sh.docker_dir.is_none() && sh.env_file.is_none());
}

#[test]
fn compose_args_for_each_action() {
    assert_eq!(
        compose_args("/e", ComposeAction::Up, true),
        vec!["compose", "--env-file", "/e", "up", "-d"]
    );
    assert_eq!(
        compose_args("/e", ComposeAction::Up, false),
        vec!["compose", "--env-file", "/e", "up"]
    );
    assert_eq!(
        compose_args("/e", ComposeAction::Down, true),
        vec!["compose", "--env-file", "/e", "down"]
    );
    assert_eq!(
        compose_args("/e", ComposeAction::Ps, false),
        vec!["compose", "--env-file", "/e", "ps"]
    );
}

#[test]
fn secrets_are_alphanumeric_of_fixed_length() {
    let a = generate_secret();
    let b = generate_secret_32();
    assert_eq!(a.chars().count(), 48);
    assert_eq!(b.chars().count(), 32);
    assert!(a.chars().all(|c| c.is_ascii_alphanumeric()));
    assert!(b.chars().all(|c| c.is_ascii_alphanumeric()));
}

#[test]
fn init_paths_follow_arguments_then_records() {
    let mut cfg = ProjectConfig::new("proj".to_string());
    let mut a = args();
    assert_eq!(init_docker_dir(&cfg, &a, "/p"), "/p/docker");
    assert_eq!(init_env_file(&cfg, &a, "proj", "/p/docker", "/p"), "/p/docker/.env");
    cfg.self_host = Some(section(&[("proj", "/srv/d", "/srv/d/.env.prod")], None));
    assert_eq!(init_docker_dir(&cfg, &a, "/p"), "/srv/d");
    assert_eq!(init_env_file(&cfg, &a, "proj", "/srv/d", "/p"), "/srv/d/.env.prod");
    a.docker_dir = Some("rel/docker".to_string());
    a.env_file = Some("custom.env".to_string());
    assert_eq!(init_docker_dir(&cfg, &a, "/p"), "/p/rel/docker");
    assert_eq!(init_env_file(&cfg, &a, "proj", "/p/rel/docker", "/p"), "/p/custom.env");
}
