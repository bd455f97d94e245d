use crate::config::{Config, ConfigView};
use crate::docker::{
    spec_build_run_command, spec_enable_extension_command, spec_install_extension_command, Docker,
    DockerError, DockerStatus,
};
use crate::errors::CliError;
use crate::extension::{clone_locations, clone_opt_string, Extension, ExtensionView};
use crate::instance::{
    EnabledExtension, EnabledExtensionView, InstalledExtension, InstalledExtensionView, Instance,
    InstanceError, InstanceView,
};
use crate::stacks::{catalog, define_stack, some_stack_matches, Stack, StackView, TrunkInstallView};
use crate::strutil::{eq_ignore_ascii_case, eq_ignore_case};
use vstd::prelude::*;

verus! {

/// An instance record matches a requested name when its stored name
/// equals it up to ASCII case.
pub open spec fn instance_matches(iv: InstanceView, name: Seq<char>) -> bool {
    iv.name is Some && eq_ignore_case(iv.name.unwrap(), name)
}

/// Some instance in the configuration matches the requested name.
pub open spec fn some_instance_matches(c: ConfigView, name: Seq<char>) -> bool {
    exists|k: int| 0 <= k < c.instances.len() && instance_matches(#[trigger] c.instances[k], name)
}

/// Decides whether one instance record matches a requested name.
fn instance_name_matches(inst: &Instance, name: &str) -> (r: bool)
    requires
        inst.deep_view().name is Some,
    ensures
        r == instance_matches(inst.deep_view(), name@),
{
    match &inst.name {
        Some(iname) => eq_ignore_ascii_case(iname.as_str(), name),
        None => false,
    }
}

impl Instance {
    /// Case-insensitive lookup of an instance by name.
    ///
    /// Succeeds exactly when some instance matches; a copy of the
    /// first match is returned; otherwise the failure carries the
    /// name looked for.
    pub fn find(config: &Config, name: &str) -> (r: Result<Instance, InstanceError>)
        requires
            config.deep_view().wf(),
        ensures
            r is Ok <==> some_instance_matches(config.deep_view(), name@),
            r matches Ok(inst) ==> exists|k: int|
                0 <= k < config.deep_view().instances.len() && inst.deep_view()
                    == #[trigger] config.deep_view().instances[k] && instance_matches(
                    config.deep_view().instances[k],
                    name@,
                ) && (forall|j: int|
                    0 <= j < k ==> !instance_matches(
                        #[trigger] config.deep_view().instances[j],
                        name@,
                    )),
            r matches Err(e) ==> e.name@ == name@,
    {
        let n: usize = config.instances.len();
        let mut k: usize = 0;
        while k < n
            invariant
                0 <= k <= n,
                n == config.instances.len(),
                config.deep_view().wf(),
                forall|j: int|
                    0 <= j < k ==> !instance_matches(
                        #[trigger] config.deep_view().instances[j],
                        name@,
                    ),
            decreases n - k,
        {
            assert(config.deep_view().instances[k as int].name is Some);
            if instance_name_matches(&config.instances[k], name) {
                let found = config.instances[k].clone();
                assert(instance_matches(config.deep_view().instances[k as int], name@));
                return Ok(found);
            }
            k += 1;
        }
        assert(!some_instance_matches(config.deep_view(), name@));
        Err(InstanceError { name: name.to_owned() })
    }
}

/// The installed-extension record a stack's trunk install turns into.
pub open spec fn installed_of(t: TrunkInstallView) -> InstalledExtensionView {
    InstalledExtensionView { name: t.name, version: t.version, created_at: t.created_at }
}

/// The enabled-extension record an extension turns into.
pub open spec fn enabled_of(e: ExtensionView) -> EnabledExtensionView {
    EnabledExtensionView {
        name: e.name,
        version: e.version,
        created_at: e.created_at,
        locations: e.locations,
    }
}

/// The instance record created from a resolved stack: the requested
/// name, type and port, the stack's version, the creation moment, and
/// the stack's extension lists snapshotted.
pub open spec fn spec_instance_from_stack(
    s: StackView,
    stack_type: Seq<char>,
    name: Seq<char>,
    port: Seq<char>,
    now: u64,
) -> InstanceView {
    InstanceView {
        name: Some(name),
        stack_type: Some(stack_type),
        port: Some(port),
        version: Some(s.version),
        created_at: Some(now),
        installed_extensions: s.trunk_installs.map_values(|t: TrunkInstallView| installed_of(t)),
        enabled_extensions: s.extensions.map_values(|e: ExtensionView| enabled_of(e)),
        databases: Seq::empty(),
    }
}

/// Builds the instance record for a freshly resolved stack.
pub fn instance_from_stack(
    stack: Stack,
    stack_type: &String,
    name: &String,
    port: &String,
    now: u64,
) -> (r: Instance)
    ensures
        r.deep_view() == spec_instance_from_stack(
            stack.deep_view(),
            stack_type@,
            name@,
            port@,
            now,
        ),
{
    let mut installed: Vec<InstalledExtension> = Vec::new();
    let tn: usize = stack.trunk_installs.len();
    let mut k: usize = 0;
    while k < tn
        invariant
            0 <= k <= tn,
            tn == stack.trunk_installs.len(),
            installed.deep_view().len() == k,
            forall|i: int|
                0 <= i < k ==> #[trigger] installed.deep_view()[i] == installed_of(
                    stack.trunk_installs.deep_view()[i],
                ),
        decreases tn - k,
    {
        let t = &stack.trunk_installs[k];
        let x = InstalledExtension {
            name: clone_opt_string(&t.name),
            version: clone_opt_string(&t.version),
            created_at: t.created_at,
        };
        assert(x.deep_view() =~~= installed_of(stack.trunk_installs.deep_view()[k as int]));
        let ghost pre = installed.deep_view();
        installed.push(x);
        assert forall|i: int| 0 <= i < k + 1 implies #[trigger] installed.deep_view()[i]
            == installed_of(stack.trunk_installs.deep_view()[i]) by {
            if i < k {
                assert(installed.deep_view()[i] == pre[i]);
            } else {
                assert(installed.deep_view()[i] == x.deep_view());
            }
        }
        k += 1;
    }
    let mut enabled: Vec<EnabledExtension> = Vec::new();
    let en: usize = stack.extensions.len();
    let mut k2: usize = 0;
    while k2 < en
        invariant
            0 <= k2 <= en,
            en == stack.extensions.len(),
            enabled.deep_view().len() == k2,
            forall|i: int|
                0 <= i < k2 ==> #[trigger] enabled.deep_view()[i] == enabled_of(
                    stack.extensions.deep_view()[i],
                ),
        decreases en - k2,
    {
        let e = &stack.extensions[k2];
        let x = EnabledExtension {
            name: clone_opt_string(&e.name),
            version: clone_opt_string(&e.version),
            created_at: e.created_at,
            locations: clone_locations(&e.locations),
        };
        assert(x.deep_view() =~~= enabled_of(stack.extensions.deep_view()[k2 as int]));
        let ghost pre = enabled.deep_view();
        enabled.push(x);
        assert forall|i: int| 0 <= i < k2 + 1 implies #[trigger] enabled.deep_view()[i]
            == enabled_of(stack.extensions.deep_view()[i]) by {
            if i < k2 {
                assert(enabled.deep_view()[i] == pre[i]);
            } else {
                assert(enabled.deep_view()[i] == x.deep_view());
            }
        }
        k2 += 1;
    }
    let r = Instance {
        name: Some(name.clone()),
        stack_type: Some(stack_type.clone()),
        port: Some(port.clone()),
        version: Some(stack.version),
        created_at: Some(now),
        installed_extensions: installed,
        enabled_extensions: enabled,
        databases: Vec::new(),
    };
    assert(r.deep_view() =~~= spec_instance_from_stack(
        stack.deep_view(),
        stack_type@,
        name@,
        port@,
        now,
    ));
    r
}

/// Creates an instance: the requested stack type must resolve against
/// the catalog and the engine probe must have found the engine ready;
/// then the new record is appended to the configuration.
///
/// On any failure the configuration is left exactly as it was and the
/// error names the first check that failed, in the order: stack
/// resolution, engine probe.
pub fn create_instance(
    config: &mut Config,
    stack_type: &String,
    name: &String,
    port: &String,
    probe: DockerStatus,
    now: u64,
) -> (r: Result<(), CliError>)
    ensures
        !some_stack_matches(stack_type@) ==> r == Err::<(), CliError>(CliError::InvalidStackType)
            && final(config).deep_view() == old(config).deep_view(),
        some_stack_matches(stack_type@) && probe == DockerStatus::NotInstalled ==> r == Err::<
            (),
            CliError,
        >(CliError::EngineNotInstalled) && final(config).deep_view() == old(config).deep_view(),
        some_stack_matches(stack_type@) && probe == DockerStatus::NotRunning ==> r == Err::<
            (),
            CliError,
        >(CliError::EngineNotRunning) && final(config).deep_view() == old(config).deep_view(),
        some_stack_matches(stack_type@) && probe == DockerStatus::Ready ==> r is Ok && exists|
            k: int,
        |
            0 <= k < catalog().len() && eq_ignore_case(#[trigger] catalog()[k].name, stack_type@)
                && (forall|j: int|
                0 <= j < k ==> !eq_ignore_case(#[trigger] catalog()[j].name, stack_type@))
                && final(config).deep_view() =~= (ConfigView {
                instances: old(config).deep_view().instances.push(
                    spec_instance_from_stack(catalog()[k], stack_type@, name@, port@, now),
                ),
                ..old(config).deep_view()
            }),
        old(config).deep_view().wf() ==> final(config).deep_view().wf(),
{
    match define_stack(stack_type.as_str()) {
        Err(_) => Err(CliError::InvalidStackType),
        Ok(stack) => {
            match probe {
                DockerStatus::NotInstalled => Err(CliError::EngineNotInstalled),
                DockerStatus::NotRunning => Err(CliError::EngineNotRunning),
                DockerStatus::Ready => {
                    let inst = instance_from_stack(stack, stack_type, name, port, now);
                    let ghost iv = inst.deep_view();
                    config.instances.push(inst);
                    proof {
                        let c = config.deep_view();
                        let o = old(config).deep_view();
                        assert(c.instances =~~= o.instances.push(iv));
                        assert(c =~= (ConfigView { instances: o.instances.push(iv), ..o }));
                        if o.wf() {
                            assert forall|j: int|
                                0 <= j < c.instances.len() implies (#[trigger] c.instances[j].name)
                                is Some by {
                                if j < o.instances.len() {
                                    assert(o.instances[j].name is Some);
                                }
                            }
                        }
                    }
                    Ok(())
                },
            }
        },
    }
}

/// Relies on chrono's `Utc::now` for the present moment, as seconds
/// since the Unix epoch.  The result depends on the clock, so nothing
/// is promised of it; callers treat it as an arbitrary input.
#[verifier::external_body]
fn current_timestamp() -> (r: u64)
{
    chrono::Utc::now().timestamp() as u64
}

/// Creates an instance stamped with the present moment.
///
/// Exactly `create_instance`, with the creation moment read from the
/// clock: every failure clause is the same, and on success the
/// appended record is `spec_instance_from_stack` for some timestamp.
pub fn create_instance_now(
    config: &mut Config,
    stack_type: &String,
    name: &String,
    port: &String,
    probe: DockerStatus,
) -> (r: Result<(), CliError>)
    ensures
        !some_stack_matches(stack_type@) ==> r == Err::<(), CliError>(CliError::InvalidStackType)
            && final(config).deep_view() == old(config).deep_view(),
        some_stack_matches(stack_type@) && probe == DockerStatus::NotInstalled ==> r == Err::<
            (),
            CliError,
        >(CliError::EngineNotInstalled) && final(config).deep_view() == old(config).deep_view(),
        some_stack_matches(stack_type@) && probe == DockerStatus::NotRunning ==> r == Err::<
            (),
            CliError,
        >(CliError::EngineNotRunning) && final(config).deep_view() == old(config).deep_view(),
        some_stack_matches(stack_type@) && probe == DockerStatus::Ready ==> r is Ok && exists|
            k: int,
            now: u64,
        |
            #![trigger spec_instance_from_stack(catalog()[k], stack_type@, name@, port@, now)]
            0 <= k < catalog().len() && eq_ignore_case(catalog()[k].name, stack_type@) && (forall|
                j: int,
            |
                0 <= j < k ==> !eq_ignore_case(#[trigger] catalog()[j].name, stack_type@))
                && final(config).deep_view() =~= (ConfigView {
                instances: old(config).deep_view().instances.push(
                    spec_instance_from_stack(catalog()[k], stack_type@, name@, port@, now),
                ),
                ..old(config).deep_view()
            }),
        old(config).deep_view().wf() ==> final(config).deep_view().wf(),
{
    let now = current_timestamp();
    create_instance(config, stack_type, name, port, probe, now)
}

/// The enabled-extension record persisted for an operator-supplied
/// extension.
pub fn enabled_record(ext: &Extension) -> (r: EnabledExtension)
    ensures
        r.deep_view() == enabled_of(ext.deep_view()),
{
    let r = EnabledExtension {
        name: clone_opt_string(&ext.name),
        version: clone_opt_string(&ext.version),
        created_at: ext.created_at,
        locations: clone_locations(&ext.locations),
    };
    assert(r.deep_view() =~~= enabled_of(ext.deep_view()));
    r
}

/// Records the outcome of an enable step against the configuration.
///
/// When the runtime step failed, the configuration is untouched and
/// the failure is surfaced with the step's error stream.  When it
/// succeeded, exactly one enabled-extension record is appended to the
/// first instance matching `instance_name`; a missing instance is
/// reported with `InstanceNotFound`.
pub fn enable_extension(
    config: &mut Config,
    instance_name: &str,
    ext: &Extension,
    runtime: Result<(), DockerError>,
) -> (r: Result<(), CliError>)
    requires
        old(config).deep_view().wf(),
    ensures
        final(config).deep_view().wf(),
        runtime matches Err(de) ==> final(config).deep_view() == old(config).deep_view() && (
        r matches Err(ce) && ce matches CliError::ExtensionEnableFailed { stderr } && stderr@
            == de.details@),
        runtime is Ok && !some_instance_matches(old(config).deep_view(), instance_name@) ==> final(config).deep_view() == old(config).deep_view() && (r matches Err(ce)
            && ce matches CliError::InstanceNotFound { name } && name@ == instance_name@),
        runtime is Ok && some_instance_matches(old(config).deep_view(), instance_name@) ==> r
            is Ok && exists|k: int|
            0 <= k < old(config).deep_view().instances.len() && instance_matches(
                #[trigger] old(config).deep_view().instances[k],
                instance_name@,
            ) && (forall|j: int|
                0 <= j < k ==> !instance_matches(
                    #[trigger] old(config).deep_view().instances[j],
                    instance_name@,
                )) && final(config).deep_view() =~= (ConfigView {
                instances: old(config).deep_view().instances.update(
                    k,
                    InstanceView {
                        enabled_extensions: old(config).deep_view().instances[k].enabled_extensions.push(
                            enabled_of(ext.deep_view()),
                        ),
                        ..old(config).deep_view().instances[k]
                    },
                ),
                ..old(config).deep_view()
            }),
{
    match runtime {
        Err(de) => {
            return Err(CliError::ExtensionEnableFailed { stderr: de.details });
        },
        Ok(()) => {},
    }
    let n: usize = config.instances.len();
    let mut k: usize = 0;
    while k < n
        invariant
            0 <= k <= n,
            runtime is Ok,
            n == config.instances.len(),
            config.deep_view() == old(config).deep_view(),
            config.deep_view().wf(),
            forall|j: int|
                0 <= j < k ==> !instance_matches(
                    #[trigger] config.deep_view().instances[j],
                    instance_name@,
                ),
        decreases n - k,
    {
        if instance_name_matches(&config.instances[k], instance_name) {
            assert(instance_matches(old(config).deep_view().instances[k as int], instance_name@));
            let record = enabled_record(ext);
            let mut inst = config.instances.remove(k);
            inst.enabled_extensions.push(record);
            config.instances.insert(k, inst);
            assert(config.deep_view().instances =~~= old(config).deep_view().instances.update(
                k as int,
                InstanceView {
                    enabled_extensions: old(config).deep_view().instances[k as int].enabled_extensions.push(
                        enabled_of(ext.deep_view()),
                    ),
                    ..old(config).deep_view().instances[k as int]
                },
            ));
            return Ok(());
        }
        k += 1;
    }
    assert(!some_instance_matches(config.deep_view(), instance_name@));
    Err(CliError::InstanceNotFound { name: instance_name.to_owned() })
}

/// Judges one build-time extension install step: the step failed
/// exactly when it wrote to its error stream, and the failure
/// carries that stream.
pub fn classify_install_output(stderr: &str) -> (r: Result<(), CliError>)
    ensures
        r is Ok <==> stderr@.len() == 0,
        r matches Err(e) ==> (e matches CliError::ExtensionInstallFailed { stderr: d } && d@
            == stderr@),
{
    if stderr.is_empty() {
        Ok(())
    } else {
        Err(CliError::ExtensionInstallFailed { stderr: stderr.to_owned() })
    }
}

/// The command sequence that materializes an instance: build and run
/// its container, then install each of the stack's trunk installs,
/// then enable each of the stack's extensions, in order.
pub open spec fn spec_init_plan(inst: InstanceView, stack: StackView) -> Seq<Seq<char>> {
    seq![spec_build_run_command(inst.name.unwrap(), inst.port.unwrap())]
        + stack.trunk_installs.map_values(
        |t: TrunkInstallView| spec_install_extension_command(inst.name.unwrap(), t.name.unwrap()),
    ) + stack.extensions.map_values(
        |e: ExtensionView|
            spec_enable_extension_command(inst.name.unwrap(), e.name.unwrap(), e.locations),
    )
}

/// Reads a present optional string.
fn opt_as_str<'a>(o: &'a Option<String>) -> (r: &'a str)
    requires
        o is Some,
    ensures
        o.deep_view() matches Some(s) && r@ == s,
{
    match o {
        Some(s) => s.as_str(),
        None => "",
    }
}

/// Lays out the commands that initialize an instance from its stack.
///
/// Each step's failure is judged independently by the caller; a
/// failed step does not remove the steps after it from the plan.
pub fn init_plan(inst: &Instance, stack: &Stack) -> (r: Vec<String>)
    requires
        inst.deep_view().name is Some,
        inst.deep_view().port is Some,
        forall|i: int|
            0 <= i < stack.deep_view().trunk_installs.len()
                ==> (#[trigger] stack.deep_view().trunk_installs[i].name) is Some,
        forall|i: int|
            0 <= i < stack.deep_view().extensions.len()
                ==> (#[trigger] stack.deep_view().extensions[i].name) is Some,
    ensures
        r.deep_view() == spec_init_plan(inst.deep_view(), stack.deep_view()),
{
    let name = opt_as_str(&inst.name);
    let port = opt_as_str(&inst.port);
    let mut plan: Vec<String> = Vec::new();
    plan.push(Docker::build_run_command(name, port));
    let tn: usize = stack.trunk_installs.len();
    let mut k: usize = 0;
    while k < tn
        invariant
            0 <= k <= tn,
            tn == stack.trunk_installs.len(),
            inst.deep_view().name is Some,
            name@ == inst.deep_view().name.unwrap(),
            plan.deep_view().len() == 1 + k,
            plan.deep_view()[0] == spec_build_run_command(
                inst.deep_view().name.unwrap(),
                inst.deep_view().port.unwrap(),
            ),
            forall|i: int|
                0 <= i < stack.deep_view().trunk_installs.len()
                    ==> (#[trigger] stack.deep_view().trunk_installs[i].name) is Some,
            forall|i: int|
                0 <= i < k ==> #[trigger] plan.deep_view()[1 + i]
                    == spec_install_extension_command(
                    inst.deep_view().name.unwrap(),
                    stack.deep_view().trunk_installs[i].name.unwrap(),
                ),
        decreases tn - k,
    {
        let t = &stack.trunk_installs[k];
        assert(stack.deep_view().trunk_installs[k as int].name is Some);
        assert(t.name is Some);
        let ext_name = opt_as_str(&t.name);
        let cmd = Docker::install_extension_command(name, ext_name);
        let ghost pre = plan.deep_view();
        plan.push(cmd);
        assert(forall|i: int| 0 <= i < pre.len() ==> #[trigger] plan.deep_view()[i] == pre[i]);
        assert(plan.deep_view()[pre.len() as int] == cmd@);
        assert forall|i: int| 0 <= i < k + 1 implies #[trigger] plan.deep_view()[1 + i]
            == spec_install_extension_command(
            inst.deep_view().name.unwrap(),
            stack.deep_view().trunk_installs[i].name.unwrap(),
        ) by {
            if i < k {
                assert(plan.deep_view()[1 + i] == pre[1 + i]);
            } else {
                assert(plan.deep_view()[1 + i] == cmd@);
            }
        }
        k += 1;
    }
    let en: usize = stack.extensions.len();
    let mut k2: usize = 0;
    while k2 < en
        invariant
            0 <= k2 <= en,
            en == stack.extensions.len(),
            tn == stack.trunk_installs.len(),
            inst.deep_view().name is Some,
            name@ == inst.deep_view().name.unwrap(),
            plan.deep_view().len() == 1 + tn + k2,
            plan.deep_view()[0] == spec_build_run_command(
                inst.deep_view().name.unwrap(),
                inst.deep_view().port.unwrap(),
            ),
            forall|i: int|
                0 <= i < stack.deep_view().extensions.len()
                    ==> (#[trigger] stack.deep_view().extensions[i].name) is Some,
            forall|i: int|
                0 <= i < tn ==> #[trigger] plan.deep_view()[1 + i]
                    == spec_install_extension_command(
                    inst.deep_view().name.unwrap(),
                    stack.deep_view().trunk_installs[i].name.unwrap(),
                ),
            forall|i: int|
                0 <= i < k2 ==> #[trigger] plan.deep_view()[1 + tn + i]
                    == spec_enable_extension_command(
                    inst.deep_view().name.unwrap(),
                    stack.deep_view().extensions[i].name.unwrap(),
                    stack.deep_view().extensions[i].locations,
                ),
        decreases en - k2,
    {
        let e = &stack.extensions[k2];
        assert(stack.deep_view().extensions[k2 as int].name is Some);
        assert(e.name is Some);
        let ext_name = opt_as_str(&e.name);
        let cmd = Docker::enable_extension_command(name, ext_name, &e.locations);
        let ghost pre = plan.deep_view();
        plan.push(cmd);
        assert(forall|i: int| 0 <= i < pre.len() ==> #[trigger] plan.deep_view()[i] == pre[i]);
        assert(plan.deep_view()[pre.len() as int] == cmd@);
        assert forall|i: int| 0 <= i < tn implies #[trigger] plan.deep_view()[1 + i]
            == spec_install_extension_command(
            inst.deep_view().name.unwrap(),
            stack.deep_view().trunk_installs[i].name.unwrap(),
        ) by {
            assert(plan.deep_view()[1 + i] == pre[1 + i]);
        }
        assert forall|i: int| 0 <= i < k2 + 1 implies #[trigger] plan.deep_view()[1 + tn + i]
            == spec_enable_extension_command(
            inst.deep_view().name.unwrap(),
            stack.deep_view().extensions[i].name.unwrap(),
            stack.deep_view().extensions[i].locations,
        ) by {
            if i < k2 {
                assert(plan.deep_view()[1 + tn + i] == pre[1 + tn + i]);
            } else {
                assert(plan.deep_view()[1 + tn + i] == cmd@);
            }
        }
        k2 += 1;
    }
    proof {
        let goal = spec_init_plan(inst.deep_view(), stack.deep_view());
        assert(plan.deep_view().len() == goal.len());
        assert forall|i: int| 0 <= i < goal.len() implies plan.deep_view()[i] == goal[i] by {
            if i == 0 {
            } else if i < 1 + tn {
                assert(plan.deep_view()[1 + (i - 1)] == spec_install_extension_command(
                    inst.deep_view().name.unwrap(),
                    stack.deep_view().trunk_installs[i - 1].name.unwrap(),
                ));
            } else {
                assert(plan.deep_view()[1 + tn + (i - 1 - tn)] == spec_enable_extension_command(
                    inst.deep_view().name.unwrap(),
                    stack.deep_view().extensions[i - 1 - tn].name.unwrap(),
                    stack.deep_view().extensions[i - 1 - tn].locations,
                ));
            }
        }
        assert(plan.deep_view() =~~= goal);
    }
    plan
}

} // verus!
