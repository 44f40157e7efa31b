//! Launching and packaging: what is run, when, and where its result is.
use vstd::prelude::*;

use crate::descriptor::ProfileView;
use crate::engine::InstallationView;
use crate::health::HealthView;
use crate::laws::path::{
    law_name_is_put_below, law_only_the_empty_path_has_no_components,
    law_parent_is_without_the_last_component,
};
use crate::launch::{
    compile_fault, compiler_command, editor_launch_of, lemma_profile_named, package_manifest_of,
    package_output_of, packaging_fault, packaging_of, packaging_plan_of, player_fault,
    player_launch_of, profile_named, published_package_of, runtime_of, selected_profile,
    PackageFacts, RuntimeFacts, ToolFacts,
};
use crate::path::{
    components, is_inside, is_name, join_of, leading, lemma_join_components, lemma_no_components,
    names, parent_of, relative_path_fault,
};
use crate::process::{diagnostics_of, ProcessOutput, ProcessStatus};
use crate::recovery::SnapshotView;
use crate::text::{joined, split};

verus! {

/// The package of a profile lies in the directory that the profile's statement
/// gives, taken from the directory in which the descriptor lies, whatever the
/// profile is called and whatever its kind. A `.` that begins the statement means
/// the descriptor's directory.
pub proof fn law_package_lies_where_its_profile_says(project: Seq<char>, profile: ProfileView)
    requires
        relative_path_fault(profile.output_directory, seq![]) is None,
    ensures
        package_output_of(project, profile) is None <==> components(project).len() == 0
            || components(project) == seq![seq!['/']],
        package_output_of(project, profile) matches Some(output) ==> {
            let stated = components(profile.output_directory);
            components(output) == components(project).drop_last() + (if components(project).len()
                > 1 && stated[0] == seq!['.'] {
                stated.drop_first()
            } else {
                stated
            })
        },
        forall|other: ProfileView|
            other.output_directory == profile.output_directory ==> #[trigger] package_output_of(
                project,
                other,
            ) == package_output_of(project, profile),
{
    law_parent_is_without_the_last_component(project);
    if let Some(parent) = parent_of(project) {
        let below = profile.output_directory;
        let stated = components(below);
        if parent.len() == 0 {
            assert(parent =~= Seq::<char>::empty());
            lemma_no_components();
            assert(parent + below =~= below);
            assert(components(project).drop_last() + stated =~= stated);
        } else {
            lemma_join_components(parent, below);
            if components(project).len() <= 1 {
                law_only_the_empty_path_has_no_components(parent);
            }
            assert(components(project).len() > 1);
            law_only_the_empty_path_has_no_components(below);
            if leading(below).len() > 0 {
                assert(stated[0] == leading(below)[0]);
                assert(stated[0] == seq!['.']);
                assert(stated.drop_first() =~= names(below));
            } else {
                assert(stated =~= names(below));
                split(below, '/').lemma_filter_pred(|name: Seq<char>| is_name(name), 0);
                assert(stated[0] != seq!['.']);
            }
        }
    }
}

/// The manifest of a package lies in the package's directory, and is called
/// `package.kmanifest`.
pub proof fn law_package_manifest_lies_in_the_package(output: Seq<char>)
    requires
        output.len() > 0,
    ensures
        components(package_manifest_of(output)) == components(output).push(
            "package"@ + ".kmanifest"@,
        ),
{
    let name = "package"@ + ".kmanifest"@;
    reveal_strlit("package");
    reveal_strlit(".kmanifest");
    reveal_strlit("package.kmanifest");
    assert(name =~= "package.kmanifest"@);
    assert(!name.contains('/'));
    law_name_is_put_below(output, name);
}

/// The editor is started just if the project has no errors and a descriptor, the
/// editor is there, and the snapshot to recover, if any, has no errors. It is
/// started as it is, in no other directory and with no other environment. Else the
/// first of these is the reason.
pub proof fn law_editor_is_started(
    project: Seq<char>,
    health: HealthView,
    editor: Result<Seq<char>, Seq<char>>,
    snapshot: Option<SnapshotView>,
)
    ensures
        match editor_launch_of(project, health, editor, snapshot) {
            Ok(command) => {
                &&& health.errors.len() == 0 && health.descriptor is Some
                &&& editor == Ok::<_, Seq<char>>(command.program)
                &&& snapshot matches Some(s) ==> s.errors.len() == 0
                &&& command.arguments.len() == (if snapshot is Some {
                    4nat
                } else {
                    3nat
                })
                &&& command.environment is None && command.directory is None
            },
            Err(e) => {
                let unfit = health.errors.len() > 0 || health.descriptor is None;
                &&& unfit ==> e == "Project validation failed"@ + ": "@ + joined(
                    health.errors,
                    "; "@,
                )
                &&& !unfit && editor is Err ==> editor == Err::<Seq<char>, _>(e)
                &&& !unfit && editor is Ok ==> snapshot is Some && snapshot->0.errors.len() > 0 && e
                    == "Recovery snapshot validation failed"@ + ": "@ + joined(
                    snapshot->0.errors,
                    "; "@,
                )
            },
        },
{
    reveal_strlit("Project validation failed");
    reveal_strlit("Project validation failed: ");
    reveal_strlit("Recovery snapshot validation failed");
    reveal_strlit("Recovery snapshot validation failed: ");
    reveal_strlit(": ");
    assert("Project validation failed"@ + ": "@ =~= "Project validation failed: "@);
    assert("Recovery snapshot validation failed"@ + ": "@
        =~= "Recovery snapshot validation failed: "@);
}

/// A project can be played and packaged just if it has no errors and a descriptor,
/// asks for just the version that the engine has, and player and project compiler
/// are there: when the engine was inspected, and still. Else the first of these is
/// the reason.
pub proof fn law_player_needs(
    health: HealthView,
    engine: InstallationView,
    tools: ToolFacts,
)
    ensures
        ({
            let unfit = health.errors.len() > 0 || health.descriptor is None;
            let other = health.descriptor->0.engine_version != engine.version;
            let no_player = !engine.player_available || !tools.player;
            let no_compiler = !engine.project_compiler_available || !tools.project_compiler;
            match player_fault(health, engine, tools) {
                None => !unfit && !other && !no_player && !no_compiler,
                Some(e) => {
                    &&& unfit ==> e == "Project validation failed: "@ + joined(
                        health.errors,
                        "; "@,
                    )
                    &&& !unfit && other ==> e == "Project requires Kairo "@
                        + health.descriptor->0.engine_version
                        + ", but selected installation is Kairo "@ + engine.version
                    &&& !unfit && !other && no_player ==> e
                        == "Selected KairoPlayer build is missing: "@ + engine.player
                    &&& !unfit && !other && !no_player ==> no_compiler && e
                        == "Selected KairoProjectCompiler build is missing: "@
                        + engine.project_compiler
                },
            }
        }),
{
}

/// A project is played just if it can be, its logic was compiled, and its own
/// runtime, if it has one, is a regular file inside the project root. The player
/// is that runtime, else the engine's; it runs in the directory in which the
/// descriptor lies, with no other environment.
pub proof fn law_player_is_started(
    project: Seq<char>,
    health: HealthView,
    engine: InstallationView,
    tools: ToolFacts,
    compilation: Result<ProcessStatus, String>,
    runtime: RuntimeFacts,
)
    ensures
        ({
            let own = health.descriptor->0.runtime_executable;
            let owed = {
                &&& player_fault(health, engine, tools) is None
                &&& compilation is Ok && compilation->Ok_0.success
                &&& components(project).len() > 0 && components(project) != seq![seq!['/']]
                &&& own is None || {
                    &&& runtime.resolved is Ok && runtime.root is Ok && runtime.regular_file
                    &&& is_inside(runtime.resolved->Ok_0@, runtime.root->Ok_0@)
                }
            };
            match player_launch_of(project, health, engine, tools, compilation, runtime) {
                Err(_) => !owed,
                Ok(command) => {
                    &&& owed
                    &&& command.program == match own {
                        Some(_) => runtime.resolved->Ok_0@,
                        None => engine.player,
                    }
                    &&& command.arguments.len() == 1 && command.arguments[0] == project
                    &&& command.environment is None
                    &&& command.directory matches Some(directory) && components(directory)
                        == components(project).drop_last()
                },
            }
        }),
{
    law_parent_is_without_the_last_component(project);
}

/// Why a compiled project cannot be played: its runtime is not there, its root is
/// not known, or the runtime is not a regular file inside the root.
pub proof fn law_runtime_must_lie_inside(
    project: Seq<char>,
    d: crate::descriptor::DescriptorView,
    engine: InstallationView,
    runtime: RuntimeFacts,
)
    requires
        parent_of(project) is Some,
    ensures
        runtime_of(project, d, engine, runtime) matches Err(e) ==> {
            &&& d.runtime_executable is Some
            &&& runtime.resolved matches Err(error) ==> e
                == "Project runtime executable is missing. "@
                + "Build the Development target first: "@ + join_of(
                parent_of(project)->0,
                d.runtime_executable->0,
            ) + " ("@ + error@ + ")"@
            &&& runtime.resolved is Ok && runtime.root is Err ==> e
                == "Cannot canonicalize project root: "@ + runtime.root->Err_0@
            &&& runtime.resolved is Ok && runtime.root is Ok ==> e
                == "Project runtime executable must be "@
                + "a regular file inside the project root: "@ + runtime.resolved->Ok_0@
        },
{
    reveal_strlit("Project runtime executable is missing. ");
    reveal_strlit("Build the Development target first: ");
    reveal_strlit("Project runtime executable is missing. Build the Development target first: ");
    reveal_strlit("Project runtime executable must be ");
    reveal_strlit("a regular file inside the project root: ");
    reveal_strlit("Project runtime executable must be a regular file inside the project root: ");
    assert("Project runtime executable is missing. "@ + "Build the Development target first: "@
        =~= "Project runtime executable is missing. Build the Development target first: "@);
    assert("Project runtime executable must be "@ + "a regular file inside the project root: "@
        =~= "Project runtime executable must be a regular file inside the project root: "@);
}

/// A compilation counts just if the compiler ran and ended well.
pub proof fn law_compilation_must_succeed(compilation: Result<ProcessStatus, String>)
    ensures
        match compile_fault(compilation) {
            None => compilation matches Ok(status) && status.success,
            Some(e) => match compilation {
                Err(error) => e == "Cannot run "@ + "KairoProjectCompiler: "@ + error@,
                Ok(status) => !status.success && e == "Project logic build failed with "@
                    + "status "@ + status.text@ + ". Fix compiler diagnostics "@
                    + "before running."@,
            },
        },
{
    reveal_strlit("Cannot run ");
    reveal_strlit("KairoProjectCompiler: ");
    reveal_strlit("Cannot run KairoProjectCompiler: ");
    reveal_strlit("Project logic build failed with ");
    reveal_strlit("status ");
    reveal_strlit("Project logic build failed with status ");
    reveal_strlit(". Fix compiler diagnostics ");
    reveal_strlit("before running.");
    reveal_strlit(". Fix compiler diagnostics before running.");
    assert("Cannot run "@ + "KairoProjectCompiler: "@ =~= "Cannot run KairoProjectCompiler: "@);
    assert("Project logic build failed with "@ + "status "@
        =~= "Project logic build failed with status "@);
    if let Ok(status) = compilation {
        let text = "Project logic build failed with status "@ + status.text@;
        assert(text + ". Fix compiler diagnostics "@ + "before running."@ =~= text
            + ". Fix compiler diagnostics before running."@);
    }
}

/// The profile that is packaged is the first of that name among the descriptor's;
/// where names are distinct, it is the one.
pub proof fn law_profile_is_chosen_by_its_name(health: HealthView, name: Seq<char>, at: int)
    requires
        health.descriptor is Some,
        0 <= at < health.descriptor->0.build_profiles.len(),
        health.descriptor->0.build_profiles[at].name == name,
        forall|i: int|
            0 <= i < at ==> (#[trigger] health.descriptor->0.build_profiles[i]).name != name,
    ensures
        selected_profile(health, name) == Ok::<_, Seq<char>>(
            health.descriptor->0.build_profiles[at],
        ),
{
    lemma_first_named(health.descriptor->0.build_profiles, name, at, 0);
}

proof fn lemma_first_named(profiles: Seq<ProfileView>, name: Seq<char>, at: int, from: int)
    requires
        0 <= from <= at < profiles.len(),
        profiles[at].name == name,
        forall|i: int| 0 <= i < at ==> (#[trigger] profiles[i]).name != name,
    ensures
        profile_named(profiles, name, from) == Some(profiles[at]),
    decreases at - from,
{
    if from < at {
        assert(profiles[from].name != name);
        lemma_first_named(profiles, name, at, from + 1);
    }
}

/// A profile that the descriptor does not have is refused by its name.
pub proof fn law_unknown_profile_is_refused(health: HealthView, name: Seq<char>)
    requires
        health.descriptor matches Some(d) && forall|i: int|
            0 <= i < d.build_profiles.len() ==> (#[trigger] d.build_profiles[i]).name != name,
    ensures
        selected_profile(health, name) == Err::<ProfileView, _>(
            "Unknown project "@ + "build profile: "@ + name,
        ),
{
    reveal_strlit("Unknown project ");
    reveal_strlit("build profile: ");
    reveal_strlit("Unknown project build profile: ");
    assert("Unknown project "@ + "build profile: "@ =~= "Unknown project build profile: "@);
    let profiles = health.descriptor->0.build_profiles;
    lemma_profile_named(profiles, name, 0);
    if let Some(profile) = profile_named(profiles, name, 0) {
        let i = choose|i: int| 0 <= i < profiles.len() && profiles[i] == profile;
        assert(profiles[i].name != name);
    }
}

/// A package is made just if the project can be packaged, has the profile, and its
/// logic was compiled. The player makes it, with no other directory and no other
/// environment.
pub proof fn law_package_is_made(
    project: Seq<char>,
    health: HealthView,
    name: Seq<char>,
    replace: bool,
    engine: InstallationView,
    tools: ToolFacts,
    compilation: Result<ProcessStatus, String>,
)
    ensures
        ({
            let owed = {
                &&& player_fault(health, engine, tools) is None
                &&& exists|i: int|
                    0 <= i < health.descriptor->0.build_profiles.len() && (
                    #[trigger] health.descriptor->0.build_profiles[i]).name == name
                &&& compilation is Ok && compilation->Ok_0.success
            };
            match packaging_plan_of(
                project,
                health,
                name,
                replace,
                engine,
                tools,
                compilation,
            ) {
                Err(_) => !owed,
                Ok(command) => {
                    &&& owed
                    &&& command.program == engine.player
                    &&& command.environment is None && command.directory is None
                    &&& command.arguments.len() == (if replace {
                        4nat
                    } else {
                        3nat
                    })
                    &&& command.arguments[0] == project
                    &&& command.arguments[1] == "--package"@
                    &&& command.arguments[2] == name
                    &&& replace ==> command.arguments[3] == "--replace"@
                },
            }
        }),
{
    let profiles = health.descriptor->0.build_profiles;
    lemma_profile_named(profiles, name, 0);
    if player_fault(health, engine, tools) is None {
        if let Some(profile) = profile_named(profiles, name, 0) {
            let i = choose|i: int| 0 <= i < profiles.len() && profiles[i] == profile;
            assert(profiles[i].name == name);
        }
    }
}

/// A package that was made is published just if the player ended well, and the
/// profile's directory is there, is a directory and holds a manifest. It is told by
/// the profile's name and kind.
pub proof fn law_package_is_published(
    project: Seq<char>,
    profile: ProfileView,
    published: PackageFacts,
)
    ensures
        match published_package_of(project, profile, published) {
            Ok(artifact) => {
                &&& parent_of(project) is Some
                &&& published.output matches Ok(output) && artifact.output_directory == output@
                &&& published.directory && published.manifest
                &&& artifact.profile_name == profile.name && artifact.profile_kind == profile.kind
                &&& artifact.manifest_path == package_manifest_of(artifact.output_directory)
            },
            Err(e) => {
                &&& parent_of(project) is None ==> e
                    == "Project descriptor has no parent directory"@
                &&& parent_of(project) is Some ==> match published.output {
                    Err(error) => e == "KairoPlayer reported success but profile output "@ + (
                    package_output_of(project, profile)->0) + " is unavailable: "@ + error@,
                    Ok(output) => if !published.directory {
                        e == "KairoPlayer profile output is not a directory: "@ + output@
                    } else {
                        !published.manifest && e == "KairoPlayer package manifest is missing: "@
                            + package_manifest_of(output@)
                    },
                }
            },
        },
{
}

/// A project is packaged just if a package is made, the player ends well and the
/// package is published.
pub proof fn law_project_is_packaged(
    project: Seq<char>,
    health: HealthView,
    name: Seq<char>,
    engine: InstallationView,
    tools: ToolFacts,
    compilation: Result<ProcessStatus, String>,
    packaging: Result<ProcessOutput, String>,
    published: PackageFacts,
)
    ensures
        ({
            let made = packaging_plan_of(
                project,
                health,
                name,
                false,
                engine,
                tools,
                compilation,
            );
            let done = packaging_of(
                project,
                health,
                name,
                engine,
                tools,
                compilation,
                packaging,
                published,
            );
            let ended = packaging is Ok && packaging->Ok_0.status.success;
            &&& made matches Err(e) ==> done == Err::<crate::launch::ArtifactView, _>(e)
            &&& made is Ok && !ended ==> done is Err
            &&& made is Ok && ended ==> done == published_package_of(
                project,
                selected_profile(health, name)->Ok_0,
                published,
            )
        }),
{
}

/// When the player does not end well, what it wrote is shown: what it wrote to its
/// error output, or, if that is blank, what it wrote to its output.
pub proof fn law_packaging_failure_shows_the_output(packaging: Result<ProcessOutput, String>)
    ensures
        match packaging_fault(packaging) {
            None => packaging matches Ok(output) && output.status.success,
            Some(e) => match packaging {
                Err(error) => e == "Cannot run "@ + "KairoPlayer package operation: "@ + error@,
                Ok(output) => {
                    let plain = "KairoPlayer package operation failed "@ + "with status "@
                        + output.status.text@;
                    let errors = diagnostics_of(output.stderr@);
                    let rest = diagnostics_of(output.stdout@);
                    &&& !output.status.success
                    &&& errors.len() > 0 ==> e == plain + ": "@ + errors
                    &&& errors.len() == 0 && rest.len() > 0 ==> e == plain + ": "@ + rest
                    &&& errors.len() == 0 && rest.len() == 0 ==> e == plain
                },
            },
        },
{
    reveal_strlit("Cannot run ");
    reveal_strlit("KairoPlayer package operation: ");
    reveal_strlit("Cannot run KairoPlayer package operation: ");
    reveal_strlit("KairoPlayer package operation failed ");
    reveal_strlit("with status ");
    reveal_strlit("KairoPlayer package operation failed with status ");
    assert("Cannot run "@ + "KairoPlayer package operation: "@
        =~= "Cannot run KairoPlayer package operation: "@);
    assert("KairoPlayer package operation failed "@ + "with status "@
        =~= "KairoPlayer package operation failed with status "@);
}

/// The project's logic is compiled by the engine's project compiler, which is given
/// the project and nothing else.
pub proof fn law_compiler_is_given_the_project(engine: InstallationView, project: Seq<char>)
    ensures
        ({
            let command = compiler_command(engine, project);
            &&& command.program == engine.project_compiler
            &&& command.arguments.len() == 1 && command.arguments[0] == project
            &&& command.environment is None && command.directory is None
        }),
{
}

} // verus!
