use crate::extension::{ExtensionLocation, LocationView};
use crate::strutil::{contains_seq, str_contains};
use vstd::prelude::*;

verus! {

/// What a probe of the container engine found.
#[derive(Debug, Clone, Copy, PartialEq, Eq)]
pub enum DockerStatus {
    /// The engine answered and the daemon is reachable.
    Ready,
    /// The engine binary is absent.
    NotInstalled,
    /// The engine binary answered but the daemon is unreachable.
    NotRunning,
}

/// An error surfaced by a container-engine step; carries the message
/// shown to the operator.
#[derive(Debug, PartialEq)]
pub struct DockerError {
    pub details: String,
}

impl DockerError {
    /// Wraps a message in a `DockerError`.
    pub fn new(msg: &str) -> (r: DockerError)
        ensures
            r.details@ == msg@,
    {
        DockerError { details: msg.to_owned() }
    }
}

/// The marker the engine prints when its daemon is unreachable.
pub open spec fn daemon_marker() -> Seq<char> {
    "Cannot connect to the Docker daemon"@
}

/// The probe output shows the engine binary is absent: it printed
/// nothing, only an error.
pub open spec fn probe_not_installed(stdout: Seq<char>, stderr: Seq<char>) -> bool {
    stdout.len() == 0 && stderr.len() > 0
}

/// The probe output shows the daemon is unreachable: the binary
/// printed something, and the error stream names the daemon
/// connection failure.
pub open spec fn probe_not_running(stdout: Seq<char>, stderr: Seq<char>) -> bool {
    stdout.len() > 0 && stderr.len() > 0 && contains_seq(stderr, daemon_marker())
}

/// The build-and-run command line for an instance and port.
pub open spec fn spec_build_run_command(name: Seq<char>, port: Seq<char>) -> Seq<char> {
    "cd tembo && docker run -d --name "@ + name + " --publish "@ + port + ":"@ + port
        + " tembo-pg"@
}

/// The start command line for an instance's container.
pub open spec fn spec_start_command(name: Seq<char>) -> Seq<char> {
    "cd tembo && docker start "@ + name
}

/// The install command line for an extension inside a container.
pub open spec fn spec_install_extension_command(instance: Seq<char>, extension: Seq<char>) -> Seq<char> {
    "cd tembo && docker exec "@ + instance + " sh -c 'trunk install "@ + extension + "'"@
}

/// The enable command line for an extension inside a container,
/// scoped to the given joined location list.
pub open spec fn spec_enable_extension_command(
    instance: Seq<char>,
    extension: Seq<char>,
    locations: Seq<LocationView>,
) -> Seq<char> {
    "docker exec "@ + instance + " sh -c 'psql -U postgres -c create extension if not exists \""@
        + extension + "\" schema "@ + join_comma(databases_of(locations)) + " cascade;'"@
}

/// A stateless executor of container-engine commands.  The functions
/// here build the command lines and judge the captured output; running
/// a command is the caller's part.
pub struct Docker {}

impl Docker {
    /// The availability probe.
    pub fn info_command() -> (r: String)
        ensures
            r@ == "docker info"@,
    {
        "docker info".to_owned()
    }

    /// Classifies the captured output of the availability probe.
    pub fn classify_info(stdout: &str, stderr: &str) -> (r: DockerStatus)
        ensures
            r == DockerStatus::NotInstalled <==> probe_not_installed(stdout@, stderr@),
            r == DockerStatus::NotRunning <==> (!probe_not_installed(stdout@, stderr@)
                && probe_not_running(stdout@, stderr@)),
            r == DockerStatus::Ready <==> (!probe_not_installed(stdout@, stderr@)
                && !probe_not_running(stdout@, stderr@)),
    {
        let out_empty = stdout.unicode_len() == 0;
        let err_empty = stderr.unicode_len() == 0;
        if out_empty && !err_empty {
            DockerStatus::NotInstalled
        } else if !out_empty && !err_empty && str_contains(stderr, "Cannot connect to the Docker daemon") {
            DockerStatus::NotRunning
        } else {
            DockerStatus::Ready
        }
    }

    /// A step failed exactly when it wrote to its error stream; the
    /// stream's content becomes the reported message.
    pub fn classify_output(stderr: &str) -> (r: Result<(), DockerError>)
        ensures
            r is Ok <==> stderr@.len() == 0,
            r matches Err(e) ==> e.details@ == stderr@,
    {
        if stderr.unicode_len() == 0 {
            Ok(())
        } else {
            Err(DockerError::new(stderr))
        }
    }

    /// The command that builds and starts a new container for an
    /// instance, publishing its port.
    pub fn build_run_command(name: &str, port: &str) -> (r: String)
        ensures
            r@ == spec_build_run_command(name@, port@),
    {
        let mut out = "cd tembo && docker run -d --name ".to_owned();
        out.append(name);
        out.append(" --publish ");
        out.append(port);
        out.append(":");
        out.append(port);
        out.append(" tembo-pg");
        out
    }

    /// The command that starts the existing container of an instance.
    pub fn start_command(name: &str) -> (r: String)
        ensures
            r@ == spec_start_command(name@),
    {
        let mut out = "cd tembo && docker start ".to_owned();
        out.append(name);
        out
    }

    /// The command that stops a named container.
    pub fn stop_command(name: &str) -> (r: String)
        ensures
            r@ == "docker stop "@ + name@,
    {
        let mut out = "docker stop ".to_owned();
        out.append(name);
        out
    }

    /// The command that removes a named container.
    pub fn remove_command(name: &str) -> (r: String)
        ensures
            r@ == "docker rm "@ + name@,
    {
        let mut out = "docker rm ".to_owned();
        out.append(name);
        out
    }

    /// The command that installs an extension package inside the
    /// running container of an instance.
    pub fn install_extension_command(instance: &str, extension: &str) -> (r: String)
        ensures
            r@ == spec_install_extension_command(instance@, extension@),
    {
        let mut out = "cd tembo && docker exec ".to_owned();
        out.append(instance);
        out.append(" sh -c 'trunk install ");
        out.append(extension);
        out.append("'");
        out
    }

    /// The command that enables an extension inside the running
    /// container of an instance, scoped to the given locations.
    pub fn enable_extension_command(
        instance: &str,
        extension: &str,
        locations: &Vec<ExtensionLocation>,
    ) -> (r: String)
        ensures
            r@ == spec_enable_extension_command(instance@, extension@, locations.deep_view()),
    {
        let mut out = "docker exec ".to_owned();
        out.append(instance);
        out.append(" sh -c 'psql -U postgres -c create extension if not exists \"");
        out.append(extension);
        out.append("\" schema ");
        let joined = join_databases(locations);
        out.append(joined.as_str());
        out.append(" cascade;'");
        out
    }

    /// The listing of local images.
    pub fn images_command() -> (r: String)
        ensures
            r@ == "docker images"@,
    {
        "docker images".to_owned()
    }

    /// Whether the image listing shows the image of a stack, named
    /// by the fixed prefix and the stack's name.
    pub fn image_present(stdout: &str, stack: &str) -> (r: bool)
        ensures
            r == contains_seq(stdout@, "tembo-"@ + stack@),
    {
        let mut image_name = "tembo-".to_owned();
        image_name.append(stack);
        str_contains(stdout, image_name.as_str())
    }

    /// The command that builds a stack's image through compose.
    pub fn compose_build_command(stack: &str) -> (r: String)
        ensures
            r@ == "cd tembo&& docker-compose build "@ + stack@ + " --no-cache --quiet"@,
    {
        let mut out = "cd tembo&& docker-compose build ".to_owned();
        out.append(stack);
        out.append(" --no-cache --quiet");
        out
    }

    /// The command that installs an extension into a stack's service
    /// through compose.
    pub fn compose_install_command(stack: &str, extension: &str) -> (r: String)
        ensures
            r@ == "cd tembo && docker-compose "@ + stack@ + " run bash && trunk install "@
                + extension@,
    {
        let mut out = "cd tembo && docker-compose ".to_owned();
        out.append(stack);
        out.append(" run bash && trunk install ");
        out.append(extension);
        out
    }

    /// The command that enables an extension in a stack's service
    /// through compose, scoped to the given locations.
    pub fn compose_enable_command(
        stack: &str,
        extension: &str,
        locations: &Vec<ExtensionLocation>,
    ) -> (r: String)
        ensures
            r@ == "docker compose run "@ + stack@
                + "psql -U postgres -c create extension if not exists \""@ + extension@
                + "\" schema "@ + join_comma(databases_of(locations.deep_view()))
                + " cascade;"@,
    {
        let mut out = "docker compose run ".to_owned();
        out.append(stack);
        out.append("psql -U postgres -c create extension if not exists \"");
        out.append(extension);
        out.append("\" schema ");
        let joined = join_databases(locations);
        out.append(joined.as_str());
        out.append(" cascade;");
        out
    }
}

/// The configuration-file lines recording that the standard stack of
/// a given version was installed.
pub fn stack_config_entry(version: &str) -> (r: String)
    ensures
        r@ == "\n[stacks]\nstandard = "@ + version@,
{
    let mut out = "\n[stacks]\nstandard = ".to_owned();
    out.append(version);
    out
}

/// The database names of a location list, in order.
pub open spec fn databases_of(locs: Seq<LocationView>) -> Seq<Seq<char>> {
    locs.map_values(|l: LocationView| l.database)
}

/// The pieces joined by a comma and a space.
pub open spec fn join_comma(parts: Seq<Seq<char>>) -> Seq<char>
    decreases parts.len(),
{
    if parts.len() == 0 {
        Seq::empty()
    } else if parts.len() == 1 {
        parts[0]
    } else {
        join_comma(parts.drop_last()) + ", "@ + parts.last()
    }
}

/// Joins the database names of a location list with `", "`.
pub fn join_databases(locs: &Vec<ExtensionLocation>) -> (r: String)
    ensures
        r@ == join_comma(databases_of(locs.deep_view())),
{
    let ghost all = databases_of(locs.deep_view());
    let mut out = String::new();
    let mut k: usize = 0;
    while k < locs.len()
        invariant
            0 <= k <= locs.len(),
            all == databases_of(locs.deep_view()),
            all.len() == locs.len(),
            out@ == join_comma(all.take(k as int)),
        decreases locs.len() - k,
    {
        if k > 0 {
            out.append(", ");
        }
        out.append(locs[k].database.as_str());
        proof {
            assert(all.take(k + 1).drop_last() =~= all.take(k as int));
            assert(all.take(k + 1).last() == all[k as int]);
            assert(all[k as int] == locs.deep_view()[k as int].database);
            if k == 0 {
                assert(out@ =~= join_comma(all.take(1)));
            } else {
                assert(out@ =~= join_comma(all.take(k + 1)));
            }
        }
        k += 1;
    }
    assert(all.take(locs.len() as int) =~= all);
    out
}

} // verus!
