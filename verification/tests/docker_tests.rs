use tembo::docker::{Docker, DockerError, DockerStatus};
use tembo::extension::ExtensionLocation;
use tembo::strutil::{eq_ignore_ascii_case, str_contains, strings_equal};

#[test]
fn probe_with_empty_stdout_and_an_error_means_not_installed() {
    let r = Docker::classify_info("", "sh: docker: command not found");
    assert_eq!(r, DockerStatus::NotInstalled);
}

#[test]
fn probe_with_the_daemon_marker_means_not_running() {
    let r = Docker::classify_info(
        "Client: some info",
        "Cannot connect to the Docker daemon at unix:///var/run/docker.sock",
    );
    assert_eq!(r, DockerStatus::NotRunning);
}

#[test]
fn probe_without_errors_means_ready() {
    assert_eq!(Docker::classify_info("Server: running", ""), DockerStatus::Ready);
    assert_eq!(Docker::classify_info("", ""), DockerStatus::Ready);
    assert_eq!(
        Docker::classify_info("info", "some unrelated warning"),
        DockerStatus::Ready
    );
}

#[test]
fn a_step_fails_exactly_when_its_error_stream_is_non_empty() {
    assert!(Docker::classify_output("").is_ok());
    let e = Docker::classify_output("boom").unwrap_err();
    assert_eq!(e.details, "boom");
}

#[test]
fn command_lines_are_built_verbatim() {
    assert_eq!(Docker::info_command(), "docker info");
    assert_eq!(
        Docker::build_run_command("mydb", "5432"),
        "cd tembo && docker run -d --name mydb --publish 5432:5432 tembo-pg"
    );
    assert_eq!(Docker::start_command("mydb"), "cd tembo && docker start mydb");
    assert_eq!(Docker::stop_command("mydb"), "docker stop mydb");
    assert_eq!(Docker::remove_command("tembo-pg"), "docker rm tembo-pg");
    assert_eq!(
        Docker::install_extension_command("mydb", "pgmq"),
        "cd tembo && docker exec mydb sh -c 'trunk install pgmq'"
    );
}

#[test]
fn enable_command_joins_locations_with_commas() {
    let locations = vec![
        ExtensionLocation {
            database: "public".to_string(),
            enabled: "true".to_string(),
            version: "1.0".to_string(),
        },
        ExtensionLocation {
            database: "analytics".to_string(),
            enabled: "true".to_string(),
            version: "1.0".to_string(),
        },
    ];
    assert_eq!(
        Docker::enable_extension_command("mydb", "pgmq", &locations),
        "docker exec mydb sh -c 'psql -U postgres -c create extension if not exists \"pgmq\" schema public, analytics cascade;'"
    );
    let none: Vec<ExtensionLocation> = Vec::new();
    assert_eq!(
        Docker::enable_extension_command("mydb", "pgmq", &none),
        "docker exec mydb sh -c 'psql -U postgres -c create extension if not exists \"pgmq\" schema  cascade;'"
    );
}

#[test]
fn docker_error_keeps_its_message() {
    let e = DockerError::new("no such container");
    assert_eq!(e.details, "no such container");
}

#[test]
fn string_helpers_behave_as_specified() {
    assert!(eq_ignore_ascii_case("Foo", "fOO"));
    assert!(!eq_ignore_ascii_case("foo", "bar"));
    assert!(!eq_ignore_ascii_case("foo", "fooo"));
    assert!(strings_equal("abc", "abc"));
    assert!(!strings_equal("abc", "abd"));
    assert!(str_contains("Cannot connect to the Docker daemon here", "Docker daemon"));
    assert!(!str_contains("all fine", "Docker daemon"));
    assert!(str_contains("anything", ""));
}

#[test]
fn image_listing_detection_uses_the_stack_prefix() {
    assert!(Docker::image_present("repo tembo-standard latest", "standard"));
    assert!(!Docker::image_present("repo tembo-other latest", "standard"));
    assert_eq!(Docker::images_command(), "docker images");
}

#[test]
fn compose_command_lines_are_built_verbatim() {
    assert_eq!(
        Docker::compose_build_command("standard"),
        "cd tembo&& docker-compose build standard --no-cache --quiet"
    );
    assert_eq!(
        Docker::compose_install_command("standard", "pgmq"),
        "cd tembo && docker-compose standard run bash && trunk install pgmq"
    );
    let locations = vec![ExtensionLocation {
        database: "public".to_string(),
        enabled: "true".to_string(),
        version: "1.0".to_string(),
    }];
    assert_eq!(
        Docker::compose_enable_command("standard", "pgmq", &locations),
        "docker compose run standardpsql -U postgres -c create extension if not exists \"pgmq\" schema public cascade;"
    );
    assert_eq!(
        tembo::docker::stack_config_entry("14.1"),
        "\n[stacks]\nstandard = 14.1"
    );
}
