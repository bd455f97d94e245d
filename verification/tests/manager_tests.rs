use tembo::codec::serialize_config;
use tembo::config::Config;
use tembo::deploy::{classify_deploy_status, deploy_payload, deploy_url, DeployOutcome};
use tembo::docker::{DockerError, DockerStatus};
use tembo::extension::Extension;
use tembo::instance::Instance;
use tembo::manager::{classify_install_output, create_instance, enable_extension, init_plan, instance_from_stack};
use tembo::stacks::define_stack;
use tembo::CliError;

fn config_with(names: &[&str]) -> Config {
    let mut config = Config::default();
    for n in names {
        let stack = define_stack("standard").unwrap();
        let inst = instance_from_stack(
            stack,
            &"standard".to_string(),
            &n.to_string(),
            &"5432".to_string(),
            7,
        );
        config.instances.push(inst);
    }
    config
}

#[test]
fn find_matches_names_case_insensitively() {
    let config = config_with(&["foo"]);
    let found = Instance::find(&config, "Foo").unwrap();
    assert_eq!(found.name.as_deref(), Some("foo"));
    let found2 = Instance::find(&config, "FOO").unwrap();
    assert_eq!(found2.name.as_deref(), Some("foo"));
}

#[test]
fn find_fails_on_an_empty_list_and_on_no_match() {
    let empty = Config::default();
    let r = Instance::find(&empty, "foo");
    assert_eq!(r.unwrap_err().name, "foo");
    let config = config_with(&["foo"]);
    let r2 = Instance::find(&config, "bar");
    assert_eq!(r2.unwrap_err().name, "bar");
}

#[test]
fn create_appends_the_snapshotted_instance() {
    let mut config = Config::default();
    let r = create_instance(
        &mut config,
        &"standard".to_string(),
        &"mydb".to_string(),
        &"5432".to_string(),
        DockerStatus::Ready,
        7,
    );
    assert!(r.is_ok());
    assert_eq!(config.instances.len(), 1);
    let inst = &config.instances[0];
    assert_eq!(inst.name.as_deref(), Some("mydb"));
    assert_eq!(inst.stack_type.as_deref(), Some("standard"));
    assert_eq!(inst.port.as_deref(), Some("5432"));
    assert_eq!(inst.version.as_deref(), Some("14.1"));
    assert_eq!(inst.created_at, Some(7));
    assert_eq!(inst.installed_extensions.len(), 1);
    assert_eq!(inst.installed_extensions[0].name.as_deref(), Some("pgmq"));
    assert_eq!(inst.installed_extensions[0].version.as_deref(), Some("1.0"));
    assert_eq!(inst.enabled_extensions.len(), 1);
    assert_eq!(inst.enabled_extensions[0].name.as_deref(), Some("pg_partman"));
    assert_eq!(inst.enabled_extensions[0].locations.len(), 1);
    assert_eq!(inst.enabled_extensions[0].locations[0].database, "public");
    assert!(inst.databases.is_empty());
}

#[test]
fn create_with_engine_absent_leaves_the_config_alone() {
    let mut config = Config::default();
    let before = serialize_config(&config);
    let r = create_instance(
        &mut config,
        &"standard".to_string(),
        &"mydb".to_string(),
        &"5432".to_string(),
        DockerStatus::NotInstalled,
        7,
    );
    assert_eq!(r.unwrap_err(), CliError::EngineNotInstalled);
    assert_eq!(serialize_config(&config), before);
}

#[test]
fn create_with_engine_stopped_leaves_the_config_alone() {
    let mut config = config_with(&["other"]);
    let before = serialize_config(&config);
    let r = create_instance(
        &mut config,
        &"standard".to_string(),
        &"mydb".to_string(),
        &"5432".to_string(),
        DockerStatus::NotRunning,
        7,
    );
    assert_eq!(r.unwrap_err(), CliError::EngineNotRunning);
    assert_eq!(serialize_config(&config), before);
}

#[test]
fn create_rejects_an_unknown_stack_type() {
    let mut config = Config::default();
    let before = serialize_config(&config);
    let r = create_instance(
        &mut config,
        &"nosuch".to_string(),
        &"mydb".to_string(),
        &"5432".to_string(),
        DockerStatus::Ready,
        7,
    );
    assert_eq!(r.unwrap_err(), CliError::InvalidStackType);
    assert_eq!(serialize_config(&config), before);
}

#[test]
fn enable_appends_exactly_one_record_on_success() {
    let mut config = config_with(&["mydb", "otherdb"]);
    let ext = Extension::build("pgmq", "0.28.0", "public", 9);
    let r = enable_extension(&mut config, "MyDb", &ext, Ok(()));
    assert!(r.is_ok());
    assert_eq!(config.instances[0].enabled_extensions.len(), 2);
    assert_eq!(config.instances[1].enabled_extensions.len(), 1);
    let added = config.instances[0].enabled_extensions.last().unwrap();
    assert_eq!(added.name.as_deref(), Some("pgmq"));
    assert_eq!(added.version.as_deref(), Some("0.28.0"));
    assert_eq!(added.created_at, Some(9));
    assert_eq!(added.locations.len(), 1);
    assert_eq!(added.locations[0].database, "public");
    assert_eq!(added.locations[0].enabled, "true");
}

#[test]
fn enable_leaves_the_config_alone_when_the_runtime_step_failed() {
    let mut config = config_with(&["mydb"]);
    let before = serialize_config(&config);
    let ext = Extension::build("pgmq", "0.28.0", "public", 9);
    let failure = DockerError::new("could not exec");
    let r = enable_extension(&mut config, "mydb", &ext, Err(failure));
    match r.unwrap_err() {
        CliError::ExtensionEnableFailed { stderr } => assert_eq!(stderr, "could not exec"),
        other => panic!("unexpected error: {:?}", other),
    }
    assert_eq!(serialize_config(&config), before);
}

#[test]
fn enable_reports_a_missing_instance() {
    let mut config = config_with(&["mydb"]);
    let before = serialize_config(&config);
    let ext = Extension::build("pgmq", "0.28.0", "public", 9);
    let r = enable_extension(&mut config, "nosuch", &ext, Ok(()));
    match r.unwrap_err() {
        CliError::InstanceNotFound { name } => assert_eq!(name, "nosuch"),
        other => panic!("unexpected error: {:?}", other),
    }
    assert_eq!(serialize_config(&config), before);
}

#[test]
fn init_plan_lays_out_build_install_and_enable_steps() {
    let stack = define_stack("standard").unwrap();
    let config = config_with(&["mydb"]);
    let plan = init_plan(&config.instances[0], &stack);
    assert_eq!(plan.len(), 3);
    assert_eq!(
        plan[0],
        "cd tembo && docker run -d --name mydb --publish 5432:5432 tembo-pg"
    );
    assert_eq!(plan[1], "cd tembo && docker exec mydb sh -c 'trunk install pgmq'");
    assert_eq!(
        plan[2],
        "docker exec mydb sh -c 'psql -U postgres -c create extension if not exists \"pg_partman\" schema public cascade;'"
    );
}

#[test]
fn deploy_without_credentials_fails_before_anything_is_sent() {
    let config = config_with(&["mydb"]);
    let inst = Instance::find(&config, "mydb").unwrap();
    let r = deploy_payload(&config, &inst);
    assert_eq!(r.unwrap_err(), CliError::MissingCredentials);

    let mut with_empty = config_with(&["mydb"]);
    with_empty.jwt = Some("".to_string());
    with_empty.org_id = Some("org_1".to_string());
    let inst2 = Instance::find(&with_empty, "mydb").unwrap();
    assert_eq!(
        deploy_payload(&with_empty, &inst2).unwrap_err(),
        CliError::MissingCredentials
    );
}

#[test]
fn deploy_builds_the_fixed_shape_payload() {
    let mut config = config_with(&["mydb"]);
    config.jwt = Some("tok".to_string());
    config.org_id = Some("org_1".to_string());
    let inst = Instance::find(&config, "mydb").unwrap();
    let p = deploy_payload(&config, &inst).unwrap();
    assert_eq!(p.instance_name, "mydb");
    assert_eq!(p.stack_type, "standard");
    assert_eq!(p.cpu, "1");
    assert_eq!(p.environment, "dev");
    assert_eq!(p.memory, "1Gi");
    assert_eq!(p.storage, "10Gi");
    assert_eq!(p.replicas, 1);
    assert_eq!(
        deploy_url("org_1"),
        "https://api.tembo.io/api/v1/orgs/org_1/instances"
    );
}

#[test]
fn deploy_statuses_map_to_outcomes() {
    assert_eq!(classify_deploy_status(202), DeployOutcome::Accepted);
    assert_eq!(classify_deploy_status(404), DeployOutcome::ClientError { status: 404 });
    assert_eq!(classify_deploy_status(400), DeployOutcome::ClientError { status: 400 });
    assert_eq!(classify_deploy_status(500), DeployOutcome::Failed { status: 500 });
    assert_eq!(classify_deploy_status(200), DeployOutcome::Failed { status: 200 });
}

#[test]
fn install_steps_fail_exactly_on_error_output() {
    assert!(classify_install_output("").is_ok());
    match classify_install_output("trunk: not found").unwrap_err() {
        CliError::ExtensionInstallFailed { stderr } => assert_eq!(stderr, "trunk: not found"),
        other => panic!("unexpected error: {:?}", other),
    }
}

#[test]
fn loading_a_broken_file_is_a_config_io_error() {
    let good = serialize_config(&Config::default());
    assert!(Config::load_str(&good).is_ok());
    assert_eq!(Config::load_str("###").unwrap_err(), CliError::ConfigIoError);
}
