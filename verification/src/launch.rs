//! Launching the editor and the player, and packaging.
//!
//! A project is launched only if it is valid and made for the selected engine.
//! The player and the packager come after the project compiler: nothing of them
//! runs unless it has succeeded.
use vstd::prelude::*;
use vstd::std_specs::cmp::PartialEqSpecImpl;

use crate::descriptor::{
    opt_text, profile_views, DescriptorView, ProfileView, ProjectBuildProfile,
    ProjectDescriptor,
};
use crate::engine::{EngineInstallation, InstallationView};
use crate::health::{health_of, inspect_project, HealthView, ProjectFacts, ProjectHealth};
use crate::path::{
    inside, is_inside, is_same_path, join_of, join_path, parent_of, parent_path, same_path,
};
use crate::process::{
    bounded_process_diagnostics, diagnostics_of, CommandView, PlannedCommand, ProcessOutput,
    ProcessStatus,
};
use crate::recovery::{RecoverySnapshotInfo, SnapshotView};
use crate::text::{join, joined, text_eq, texts};

verus! {

// ---------------------------------------------------------------------------
// The editor
// ---------------------------------------------------------------------------
/// Chooses the editor: the selected one, or else the one that was discovered.
pub fn select_editor(
    editor_override: &Option<String>,
    override_is_file: bool,
    discovered: &Result<String, String>,
) -> (r: Result<String, String>)
    ensures
        match *editor_override {
            Some(editor) => match r {
                Ok(path) => override_is_file && path@ == editor@,
                Err(e) => !override_is_file && e@ == "Selected KairoEditor build is missing: "@
                    + editor@,
            },
            None => r == *discovered,
        },
{
    match editor_override {
        Some(editor) => {
            if override_is_file {
                Ok(editor.clone())
            } else {
                let mut e = "Selected KairoEditor build is missing: ".to_owned();
                e.append(editor.as_str());
                Err(e)
            }
        },
        None => match discovered {
            Ok(path) => Ok(path.clone()),
            Err(e) => Err(e.clone()),
        },
    }
}

/// The call of the editor on a project, with what follows the project.
pub open spec fn editor_command(
    editor: Seq<char>,
    project: Seq<char>,
    further: Seq<Seq<char>>,
) -> CommandView {
    CommandView {
        program: editor,
        arguments: seq!["--project"@, project] + further,
        environment: None,
        directory: None,
    }
}

fn plan_editor(editor: &str, project: &str, further: Vec<String>) -> (r: PlannedCommand)
    ensures
        r@ == editor_command(editor@, project@, texts(further@)),
{
    let mut arguments: Vec<String> = Vec::new();
    arguments.push("--project".to_owned());
    arguments.push(project.to_owned());
    let ghost more = further@;
    let mut further = further;
    arguments.append(&mut further);
    assert(texts(arguments@) =~= seq!["--project"@, project@] + texts(more));
    PlannedCommand {
        program: editor.to_owned(),
        arguments,
        environment: None,
        directory: None,
    }
}

/// The message for a project that is not launched because it is not valid.
pub open spec fn invalid_project_message(health: HealthView) -> Seq<char> {
    "Project validation failed: "@ + joined(health.errors, "; "@)
}

fn invalid_project_text(health: &ProjectHealth) -> (r: String)
    ensures
        r@ == invalid_project_message(health@),
{
    let mut r = "Project validation failed: ".to_owned();
    r.append(join(&health.errors, "; ").as_str());
    r
}

pub open spec fn opt_snapshot(o: Option<RecoverySnapshotInfo>) -> Option<SnapshotView> {
    match o {
        Some(s) => Some(s@),
        None => None,
    }
}

pub open spec fn text_or_error(r: Result<String, String>) -> Result<Seq<char>, Seq<char>> {
    match r {
        Ok(s) => Ok(s@),
        Err(e) => Err(e@),
    }
}

/// The launch of the editor on the project, or why there is none: with the
/// recovery snapshot if one was selected, else without keeping the layout.
pub open spec fn editor_launch_of(
    project: Seq<char>,
    health: HealthView,
    editor: Result<Seq<char>, Seq<char>>,
    snapshot: Option<SnapshotView>,
) -> Result<CommandView, Seq<char>> {
    if !health.valid() {
        Err(invalid_project_message(health))
    } else {
        match editor {
            Err(e) => Err(e),
            Ok(path) => match snapshot {
                None => Ok(editor_command(path, project, seq!["--no-layout-persistence"@])),
                Some(s) => if s.valid() {
                    Ok(
                        editor_command(
                            path,
                            project,
                            seq!["--recovery-snapshot"@, s.directory],
                        ),
                    )
                } else {
                    Err("Recovery snapshot validation failed: "@ + joined(s.errors, "; "@))
                },
            },
        }
    }
}

/// Plans the launch of the editor. `editor` is the one to use, or why there is
/// none; `snapshot` is the recovery snapshot that was selected, if one was.
pub fn launch_editor_with(
    project: &str,
    facts: &ProjectFacts,
    editor: &Result<String, String>,
    snapshot: &Option<RecoverySnapshotInfo>,
) -> (r: Result<PlannedCommand, String>)
    ensures
        match r {
            Ok(command) => editor_launch_of(
                project@,
                health_of(project@, *facts),
                text_or_error(*editor),
                opt_snapshot(*snapshot),
            ) == Ok::<_, Seq<char>>(command@),
            Err(e) => editor_launch_of(
                project@,
                health_of(project@, *facts),
                text_or_error(*editor),
                opt_snapshot(*snapshot),
            ) == Err::<CommandView, _>(e@),
        },
{
    let health = inspect_project(project, facts);
    if !health.is_valid() {
        return Err(invalid_project_text(&health));
    }
    let path = match editor {
        Ok(path) => path,
        Err(e) => {
            return Err(e.clone());
        },
    };
    let mut further: Vec<String> = Vec::new();
    if let Some(s) = snapshot {
        if !s.is_valid() {
            let mut e = "Recovery snapshot validation failed: ".to_owned();
            e.append(join(&s.errors, "; ").as_str());
            return Err(e);
        }
        further.push("--recovery-snapshot".to_owned());
        further.push(s.directory.clone());
        assert(texts(further@) =~= seq!["--recovery-snapshot"@, s@.directory]);
    } else {
        further.push("--no-layout-persistence".to_owned());
        assert(texts(further@) =~= seq!["--no-layout-persistence"@]);
    }
    Ok(plan_editor(path.as_str(), project, further))
}

/// The message for an editor that could not be started.
pub fn editor_launch_failure(error: &str) -> (r: String)
    ensures
        r@ == "Cannot launch KairoEditor: "@ + error@,
{
    let mut r = "Cannot launch KairoEditor: ".to_owned();
    r.append(error);
    r
}

// ---------------------------------------------------------------------------
// Before the player
// ---------------------------------------------------------------------------
/// Why a project does not fit an engine, if it does not.
pub open spec fn engine_version_fault(
    health: HealthView,
    installation: InstallationView,
) -> Option<Seq<char>> {
    match health.descriptor {
        None => Some("Project descriptor is unavailable after validation"@),
        Some(d) => if d.engine_version != installation.version {
            Some(
                "Project requires Kairo "@ + d.engine_version
                    + ", but selected installation is Kairo "@ + installation.version,
            )
        } else {
            None
        },
    }
}

/// Decides whether a project was made for the selected engine.
pub fn validate_project_engine_version(
    health: &ProjectHealth,
    installation: &EngineInstallation,
) -> (r: Result<(), String>)
    ensures
        match r {
            Ok(_) => engine_version_fault(health@, installation@) is None,
            Err(e) => engine_version_fault(health@, installation@) == Some(e@),
        },
{
    match &health.descriptor {
        None => Err("Project descriptor is unavailable after validation".to_owned()),
        Some(d) => {
            if text_eq(d.engine_version.as_str(), installation.version.as_str()) {
                Ok(())
            } else {
                let mut e = "Project requires Kairo ".to_owned();
                e.append(d.engine_version.as_str());
                e.append(", but selected installation is Kairo ");
                e.append(installation.version.as_str());
                Err(e)
            }
        },
    }
}

/// Which of an installation's tools are regular files now.
#[derive(Debug, Clone, Copy)]
pub struct ToolFacts {
    pub player: bool,
    pub project_compiler: bool,
}

/// Why a project cannot be played or packaged, if it cannot. The installation
/// needs its player even for a project that has its own.
pub open spec fn player_fault(
    health: HealthView,
    installation: InstallationView,
    tools: ToolFacts,
) -> Option<Seq<char>> {
    if !health.valid() {
        Some(invalid_project_message(health))
    } else if engine_version_fault(health, installation) is Some {
        engine_version_fault(health, installation)
    } else if !(installation.player_available && tools.player) {
        Some("Selected KairoPlayer build is missing: "@ + installation.player)
    } else if !(installation.project_compiler_available && tools.project_compiler) {
        Some("Selected KairoProjectCompiler build is missing: "@ + installation.project_compiler)
    } else {
        None
    }
}

/// Decides whether a project can be played or packaged.
pub fn validate_player_operation(
    project: &str,
    facts: &ProjectFacts,
    installation: &EngineInstallation,
    tools: &ToolFacts,
) -> (r: Result<ProjectHealth, String>)
    ensures
        match r {
            Ok(health) => health@ == health_of(project@, *facts) && player_fault(
                health@,
                installation@,
                *tools,
            ) is None,
            Err(e) => player_fault(health_of(project@, *facts), installation@, *tools) == Some(e@),
        },
{
    let health = inspect_project(project, facts);
    if !health.is_valid() {
        return Err(invalid_project_text(&health));
    }
    match validate_project_engine_version(&health, installation) {
        Ok(_) => {},
        Err(e) => {
            return Err(e);
        },
    }
    if !(installation.player_available && tools.player) {
        let mut e = "Selected KairoPlayer build is missing: ".to_owned();
        e.append(installation.player.as_str());
        return Err(e);
    }
    if !(installation.project_compiler_available && tools.project_compiler) {
        let mut e = "Selected KairoProjectCompiler build is missing: ".to_owned();
        e.append(installation.project_compiler.as_str());
        return Err(e);
    }
    Ok(health)
}

/// The call of a tool on a project.
pub open spec fn compiler_command(
    installation: InstallationView,
    project: Seq<char>,
) -> CommandView {
    CommandView {
        program: installation.project_compiler,
        arguments: seq![project],
        environment: None,
        directory: None,
    }
}

/// The call that builds the project's logic.
pub fn compile_project_logic(project: &str, installation: &EngineInstallation) -> (r:
    PlannedCommand)
    ensures
        r@ == compiler_command(installation@, project@),
{
    let mut arguments: Vec<String> = Vec::new();
    arguments.push(project.to_owned());
    assert(texts(arguments@) =~= seq![project@]);
    PlannedCommand {
        program: installation.project_compiler.clone(),
        arguments,
        environment: None,
        directory: None,
    }
}

/// Why the project's logic is not built, if it is not.
pub open spec fn compile_fault(status: Result<ProcessStatus, String>) -> Option<Seq<char>> {
    match status {
        Err(error) => Some("Cannot run KairoProjectCompiler: "@ + error@),
        Ok(s) => if s.success {
            None
        } else {
            Some(
                "Project logic build failed with status "@ + s.text@
                    + ". Fix compiler diagnostics before running."@,
            )
        },
    }
}

/// Decides whether the project's logic was built.
pub fn check_compilation(status: &Result<ProcessStatus, String>) -> (r: Result<(), String>)
    ensures
        match r {
            Ok(_) => compile_fault(*status) is None,
            Err(e) => compile_fault(*status) == Some(e@),
        },
{
    match status {
        Err(error) => {
            let mut e = "Cannot run KairoProjectCompiler: ".to_owned();
            e.append(error.as_str());
            Err(e)
        },
        Ok(s) => {
            if s.success {
                Ok(())
            } else {
                let mut e = "Project logic build failed with status ".to_owned();
                e.append(s.text.as_str());
                e.append(". Fix compiler diagnostics before running.");
                Err(e)
            }
        },
    }
}

// ---------------------------------------------------------------------------
// The player
// ---------------------------------------------------------------------------
/// What stands where the project's own player should be. What does not matter is
/// left at any value.
#[derive(Debug)]
pub struct RuntimeFacts {
    /// The player with links resolved, or why it could not be resolved.
    pub resolved: Result<String, String>,
    /// The project root with links resolved, or why it could not be resolved.
    pub root: Result<String, String>,
    /// The resolved player is a regular file.
    pub regular_file: bool,
}

/// The player of a project: its own, if it has one, or else that of the
/// installation.
pub open spec fn runtime_of(
    project: Seq<char>,
    d: DescriptorView,
    installation: InstallationView,
    facts: RuntimeFacts,
) -> Result<Seq<char>, Seq<char>> {
    match d.runtime_executable {
        None => Ok(installation.player),
        Some(relative) => match parent_of(project) {
            None => Err("Project descriptor has no parent directory"@),
            Some(parent) => match facts.resolved {
                Err(error) => Err(
                    "Project runtime executable is missing. Build the Development target first: "@
                        + join_of(parent, relative) + " ("@ + error@ + ")"@,
                ),
                Ok(resolved) => match facts.root {
                    Err(error) => Err("Cannot canonicalize project root: "@ + error@),
                    Ok(root) => if is_inside(resolved@, root@) && facts.regular_file {
                        Ok(resolved@)
                    } else {
                        Err(
                            "Project runtime executable must be a regular file inside the project root: "@
                                + resolved@,
                        )
                    },
                },
            },
        },
    }
}

/// Where the project's own player should be, if it has one.
pub fn runtime_path(project: &str, health: &ProjectHealth) -> (r: Option<String>)
    ensures
        opt_text(r) == match (health@.descriptor, parent_of(project@)) {
            (Some(d), Some(parent)) => match d.runtime_executable {
                Some(relative) => Some(join_of(parent, relative)),
                None => None,
            },
            _ => None,
        },
{
    match (&health.descriptor, parent_path(project)) {
        (Some(d), Some(parent)) => match &d.runtime_executable {
            Some(relative) => Some(join_path(parent.as_str(), relative.as_str())),
            None => None,
        },
        _ => None,
    }
}

fn choose_runtime(
    project: &str,
    d: &ProjectDescriptor,
    installation: &EngineInstallation,
    facts: &RuntimeFacts,
) -> (r: Result<String, String>)
    ensures
        text_or_error(r) == runtime_of(project@, d@, installation@, *facts),
{
    let relative = match &d.runtime_executable {
        Some(relative) => relative,
        None => {
            return Ok(installation.player.clone());
        },
    };
    let parent = match parent_path(project) {
        Some(parent) => parent,
        None => {
            return Err("Project descriptor has no parent directory".to_owned());
        },
    };
    let resolved = match &facts.resolved {
        Ok(resolved) => resolved,
        Err(error) => {
            let mut e =
                "Project runtime executable is missing. Build the Development target first: ".to_owned();
            e.append(join_path(parent.as_str(), relative.as_str()).as_str());
            e.append(" (");
            e.append(error.as_str());
            e.append(")");
            return Err(e);
        },
    };
    let root = match &facts.root {
        Ok(root) => root,
        Err(error) => {
            let mut e = "Cannot canonicalize project root: ".to_owned();
            e.append(error.as_str());
            return Err(e);
        },
    };
    if inside(resolved.as_str(), root.as_str()) && facts.regular_file {
        Ok(resolved.clone())
    } else {
        let mut e =
            "Project runtime executable must be a regular file inside the project root: ".to_owned();
        e.append(resolved.as_str());
        Err(e)
    }
}

/// The call of the player on a project, from the project's directory.
pub open spec fn player_command(
    player: Seq<char>,
    project: Seq<char>,
    directory: Seq<char>,
) -> CommandView {
    CommandView {
        program: player,
        arguments: seq![project],
        environment: None,
        directory: Some(directory),
    }
}

/// The launch of the player, or why there is none.
pub open spec fn player_launch_of(
    project: Seq<char>,
    health: HealthView,
    installation: InstallationView,
    tools: ToolFacts,
    compilation: Result<ProcessStatus, String>,
    runtime: RuntimeFacts,
) -> Result<CommandView, Seq<char>> {
    if player_fault(health, installation, tools) is Some {
        Err(player_fault(health, installation, tools)->0)
    } else if compile_fault(compilation) is Some {
        Err(compile_fault(compilation)->0)
    } else {
        match runtime_of(project, health.descriptor->0, installation, runtime) {
            Err(e) => Err(e),
            Ok(player) => match parent_of(project) {
                None => Err("Project descriptor has no parent directory"@),
                Some(parent) => Ok(player_command(player, project, parent)),
            },
        }
    }
}

/// Plans the launch of the player. `compilation` is how the project compiler
/// ended, or why it could not be run; it is run only if
/// [`validate_player_operation`] allows it.
pub fn launch_player_with(
    project: &str,
    facts: &ProjectFacts,
    installation: &EngineInstallation,
    tools: &ToolFacts,
    compilation: &Result<ProcessStatus, String>,
    runtime: &RuntimeFacts,
) -> (r: Result<PlannedCommand, String>)
    ensures
        match r {
            Ok(command) => player_launch_of(
                project@,
                health_of(project@, *facts),
                installation@,
                *tools,
                *compilation,
                *runtime,
            ) == Ok::<_, Seq<char>>(command@),
            Err(e) => player_launch_of(
                project@,
                health_of(project@, *facts),
                installation@,
                *tools,
                *compilation,
                *runtime,
            ) == Err::<CommandView, _>(e@),
        },
{
    let health = match validate_player_operation(project, facts, installation, tools) {
        Ok(health) => health,
        Err(e) => {
            return Err(e);
        },
    };
    match check_compilation(compilation) {
        Ok(_) => {},
        Err(e) => {
            return Err(e);
        },
    }
    let d = match &health.descriptor {
        Some(d) => d,
        None => {
            return Err("Project descriptor is unavailable after validation".to_owned());
        },
    };
    let player = match choose_runtime(project, d, installation, runtime) {
        Ok(player) => player,
        Err(e) => {
            return Err(e);
        },
    };
    let parent = match parent_path(project) {
        Some(parent) => parent,
        None => {
            return Err("Project descriptor has no parent directory".to_owned());
        },
    };
    let mut arguments: Vec<String> = Vec::new();
    arguments.push(project.to_owned());
    assert(texts(arguments@) =~= seq![project@]);
    Ok(PlannedCommand { program: player, arguments, environment: None, directory: Some(parent) })
}

/// The message for a player that could not be started.
pub fn player_launch_failure(player: &str, error: &str) -> (r: String)
    ensures
        r@ == "Cannot launch project runtime "@ + player@ + ": "@ + error@,
{
    let mut r = "Cannot launch project runtime ".to_owned();
    r.append(player);
    r.append(": ");
    r.append(error);
    r
}

// ---------------------------------------------------------------------------
// Packaging
// ---------------------------------------------------------------------------
/// A package that was published. The paths are those of what the player wrote,
/// not merely of what was asked for.
#[derive(Debug)]
pub struct PackageArtifact {
    pub profile_name: String,
    pub profile_kind: String,
    pub output_directory: String,
    pub manifest_path: String,
}

pub struct ArtifactView {
    pub profile_name: Seq<char>,
    pub profile_kind: Seq<char>,
    pub output_directory: Seq<char>,
    pub manifest_path: Seq<char>,
}

impl View for PackageArtifact {
    type V = ArtifactView;

    open spec fn view(&self) -> ArtifactView {
        ArtifactView {
            profile_name: self.profile_name@,
            profile_kind: self.profile_kind@,
            output_directory: self.output_directory@,
            manifest_path: self.manifest_path@,
        }
    }
}

impl Clone for PackageArtifact {
    fn clone(&self) -> (r: PackageArtifact)
        ensures
            r@ == self@,
    {
        PackageArtifact {
            profile_name: self.profile_name.clone(),
            profile_kind: self.profile_kind.clone(),
            output_directory: self.output_directory.clone(),
            manifest_path: self.manifest_path.clone(),
        }
    }
}

/// The same package: paths are the same paths.
pub open spec fn is_same_artifact(a: ArtifactView, b: ArtifactView) -> bool {
    &&& a.profile_name == b.profile_name
    &&& a.profile_kind == b.profile_kind
    &&& is_same_path(a.output_directory, b.output_directory)
    &&& is_same_path(a.manifest_path, b.manifest_path)
}

impl PartialEqSpecImpl for PackageArtifact {
    open spec fn obeys_eq_spec() -> bool {
        true
    }

    open spec fn eq_spec(&self, other: &PackageArtifact) -> bool {
        is_same_artifact(self@, other@)
    }
}

impl PartialEq for PackageArtifact {
    fn eq(&self, other: &PackageArtifact) -> (r: bool) {
        text_eq(self.profile_name.as_str(), other.profile_name.as_str()) && text_eq(
            self.profile_kind.as_str(),
            other.profile_kind.as_str(),
        ) && same_path(self.output_directory.as_str(), other.output_directory.as_str())
            && same_path(self.manifest_path.as_str(), other.manifest_path.as_str())
    }
}

impl Eq for PackageArtifact {

}

/// The first profile of that name, from `at` on.
pub open spec fn profile_named(
    profiles: Seq<ProfileView>,
    name: Seq<char>,
    at: int,
) -> Option<ProfileView>
    decreases profiles.len() - at,
{
    if at < 0 || at >= profiles.len() {
        None
    } else if profiles[at].name == name {
        Some(profiles[at])
    } else {
        profile_named(profiles, name, at + 1)
    }
}

/// The profile to package, or why there is none.
pub open spec fn selected_profile(health: HealthView, name: Seq<char>) -> Result<
    ProfileView,
    Seq<char>,
> {
    match health.descriptor {
        None => Err("Project descriptor is unavailable after validation"@),
        Some(d) => match profile_named(d.build_profiles, name, 0) {
            Some(profile) => Ok(profile),
            None => Err("Unknown project build profile: "@ + name),
        },
    }
}

/// Selects the profile to package.
pub fn select_profile(health: &ProjectHealth, profile_name: &str) -> (r: Result<
    ProjectBuildProfile,
    String,
>)
    ensures
        match r {
            Ok(profile) => selected_profile(health@, profile_name@) == Ok::<_, Seq<char>>(profile@),
            Err(e) => selected_profile(health@, profile_name@) == Err::<ProfileView, _>(e@),
        },
{
    let d = match &health.descriptor {
        Some(d) => d,
        None => {
            return Err("Project descriptor is unavailable after validation".to_owned());
        },
    };
    let ghost views = profile_views(d.build_profiles@);
    let mut i: usize = 0;
    while i < d.build_profiles.len()
        invariant
            i <= d.build_profiles.len(),
            views == profile_views(d.build_profiles@),
            profile_named(views, profile_name@, 0) == profile_named(
                views,
                profile_name@,
                i as int,
            ),
            health@.descriptor == Some(d@),
            d@.build_profiles == views,
        decreases d.build_profiles.len() - i,
    {
        assert(views[i as int] == d.build_profiles@[i as int]@);
        if text_eq(d.build_profiles[i].name.as_str(), profile_name) {
            return Ok(d.build_profiles[i].clone());
        }
        i += 1;
    }
    let mut e = "Unknown project build profile: ".to_owned();
    e.append(profile_name);
    Err(e)
}

/// The call of the player that packages a profile.
pub open spec fn package_command_of(
    project: Seq<char>,
    profile: ProfileView,
    replace: bool,
    installation: InstallationView,
) -> CommandView {
    CommandView {
        program: installation.player,
        arguments: seq![project, "--package"@, profile.name] + (if replace {
            seq!["--replace"@]
        } else {
            seq![]
        }),
        environment: None,
        directory: None,
    }
}

/// The call of the player that packages a profile. An earlier package is replaced
/// only if that is asked for.
fn package_command(
    project: &str,
    profile: &ProjectBuildProfile,
    replace: bool,
    installation: &EngineInstallation,
) -> (r: PlannedCommand)
    ensures
        r@ == package_command_of(project@, profile@, replace, installation@),
{
    let mut arguments: Vec<String> = Vec::new();
    arguments.push(project.to_owned());
    arguments.push("--package".to_owned());
    arguments.push(profile.name.clone());
    if replace {
        arguments.push("--replace".to_owned());
    }
    assert(texts(arguments@) =~= package_command_of(
        project@,
        profile@,
        replace,
        installation@,
    ).arguments);
    PlannedCommand {
        program: installation.player.clone(),
        arguments,
        environment: None,
        directory: None,
    }
}

/// The packaging of a profile, or why the player is not even called. The profile
/// is selected before the compiler runs, and the compiler runs before the player.
pub open spec fn packaging_plan_of(
    project: Seq<char>,
    health: HealthView,
    profile_name: Seq<char>,
    replace: bool,
    installation: InstallationView,
    tools: ToolFacts,
    compilation: Result<ProcessStatus, String>,
) -> Result<CommandView, Seq<char>> {
    if player_fault(health, installation, tools) is Some {
        Err(player_fault(health, installation, tools)->0)
    } else {
        match selected_profile(health, profile_name) {
            Err(e) => Err(e),
            Ok(profile) => if compile_fault(compilation) is Some {
                Err(compile_fault(compilation)->0)
            } else {
                Ok(package_command_of(project, profile, replace, installation))
            },
        }
    }
}

/// Plans the call of the player that packages a profile. `compilation` is how the
/// project compiler ended, or why it could not be run.
pub fn plan_packaging(
    project: &str,
    facts: &ProjectFacts,
    profile_name: &str,
    replace: bool,
    installation: &EngineInstallation,
    tools: &ToolFacts,
    compilation: &Result<ProcessStatus, String>,
) -> (r: Result<PlannedCommand, String>)
    ensures
        match r {
            Ok(command) => packaging_plan_of(
                project@,
                health_of(project@, *facts),
                profile_name@,
                replace,
                installation@,
                *tools,
                *compilation,
            ) == Ok::<_, Seq<char>>(command@),
            Err(e) => packaging_plan_of(
                project@,
                health_of(project@, *facts),
                profile_name@,
                replace,
                installation@,
                *tools,
                *compilation,
            ) == Err::<CommandView, _>(e@),
        },
{
    let health = match validate_player_operation(project, facts, installation, tools) {
        Ok(health) => health,
        Err(e) => {
            return Err(e);
        },
    };
    let profile = match select_profile(&health, profile_name) {
        Ok(profile) => profile,
        Err(e) => {
            return Err(e);
        },
    };
    match check_compilation(compilation) {
        Ok(_) => {},
        Err(e) => {
            return Err(e);
        },
    }
    Ok(package_command(project, &profile, replace, installation))
}

/// The message for a packaging that failed: with what the player wrote as errors,
/// or else with what it wrote, if it wrote anything.
pub open spec fn packaging_failure_message(
    status: Seq<char>,
    stderr: Seq<char>,
    stdout: Seq<char>,
) -> Seq<char> {
    let diagnostics = if stderr.len() > 0 {
        stderr
    } else {
        stdout
    };
    if diagnostics.len() == 0 {
        "KairoPlayer package operation failed with status "@ + status
    } else {
        "KairoPlayer package operation failed with status "@ + status + ": "@ + diagnostics
    }
}

pub fn packaging_failure(status: &str, stderr: &str, stdout: &str) -> (r: String)
    ensures
        r@ == packaging_failure_message(status@, stderr@, stdout@),
{
    let mut r = "KairoPlayer package operation failed with status ".to_owned();
    r.append(status);
    let diagnostics = if !stderr.is_empty() {
        stderr
    } else {
        stdout
    };
    if !diagnostics.is_empty() {
        r.append(": ");
        r.append(diagnostics);
    }
    r
}

/// Why the player did not package, if it did not.
pub open spec fn packaging_fault(output: Result<ProcessOutput, String>) -> Option<Seq<char>> {
    match output {
        Err(error) => Some("Cannot run KairoPlayer package operation: "@ + error@),
        Ok(o) => if o.status.success {
            None
        } else {
            Some(
                packaging_failure_message(
                    o.status.text@,
                    diagnostics_of(o.stderr@),
                    diagnostics_of(o.stdout@),
                ),
            )
        },
    }
}

/// Decides whether the player packaged.
pub fn check_packaging(output: &Result<ProcessOutput, String>) -> (r: Result<(), String>)
    ensures
        match r {
            Ok(_) => packaging_fault(*output) is None,
            Err(e) => packaging_fault(*output) == Some(e@),
        },
{
    match output {
        Err(error) => {
            let mut e = "Cannot run KairoPlayer package operation: ".to_owned();
            e.append(error.as_str());
            Err(e)
        },
        Ok(o) => {
            if o.status.success {
                Ok(())
            } else {
                let stderr = bounded_process_diagnostics(o.stderr.as_slice());
                let stdout = bounded_process_diagnostics(o.stdout.as_slice());
                Err(packaging_failure(o.status.text.as_str(), stderr.as_str(), stdout.as_str()))
            }
        },
    }
}

/// Where the package of a profile is published, if the project stands in a
/// directory.
pub open spec fn package_output_of(project: Seq<char>, profile: ProfileView) -> Option<Seq<char>> {
    match parent_of(project) {
        Some(parent) => Some(join_of(parent, profile.output_directory)),
        None => None,
    }
}

/// The directory to look for a profile's package in.
pub fn package_output_path(project: &str, profile: &ProjectBuildProfile) -> (r: Option<String>)
    ensures
        opt_text(r) == package_output_of(project@, profile@),
{
    match parent_path(project) {
        Some(parent) => Some(join_path(parent.as_str(), profile.output_directory.as_str())),
        None => None,
    }
}

/// The manifest of the package in the directory `output`.
pub open spec fn package_manifest_of(output: Seq<char>) -> Seq<char> {
    join_of(output, "package.kmanifest"@)
}

/// The manifest to look for in a package; `output` is the directory that
/// [`package_output_path`] gives, with links resolved.
pub fn package_manifest_path(output: &str) -> (r: String)
    ensures
        r@ == package_manifest_of(output@),
{
    join_path(output, "package.kmanifest")
}

/// What stands where a package should have been published: at
/// [`package_output_path`], and in it at [`package_manifest_path`].
#[derive(Debug)]
pub struct PackageFacts {
    /// The output directory with links resolved, or why it could not be resolved.
    pub output: Result<String, String>,
    /// It is a directory.
    pub directory: bool,
    /// The package manifest in it is a regular file.
    pub manifest: bool,
}

/// The published package of a profile, or what is missing of it.
pub open spec fn published_package_of(
    project: Seq<char>,
    profile: ProfileView,
    facts: PackageFacts,
) -> Result<ArtifactView, Seq<char>> {
    match package_output_of(project, profile) {
        None => Err("Project descriptor has no parent directory"@),
        Some(requested) => match facts.output {
            Err(error) => Err(
                "KairoPlayer reported success but profile output "@ + requested
                    + " is unavailable: "@ + error@,
            ),
            Ok(output) => if !facts.directory {
                Err("KairoPlayer profile output is not a directory: "@ + output@)
            } else if !facts.manifest {
                Err("KairoPlayer package manifest is missing: "@ + package_manifest_of(output@))
            } else {
                Ok(
                    ArtifactView {
                        profile_name: profile.name,
                        profile_kind: profile.kind,
                        output_directory: output@,
                        manifest_path: package_manifest_of(output@),
                    },
                )
            },
        },
    }
}

/// Verifies what the player published for a profile.
pub fn published_package(project: &str, profile: ProjectBuildProfile, facts: &PackageFacts) -> (r:
    Result<PackageArtifact, String>)
    ensures
        match r {
            Ok(artifact) => published_package_of(project@, profile@, *facts) == Ok::<_, Seq<char>>(
                artifact@,
            ),
            Err(e) => published_package_of(project@, profile@, *facts) == Err::<ArtifactView, _>(
                e@,
            ),
        },
{
    let requested = match package_output_path(project, &profile) {
        Some(requested) => requested,
        None => {
            return Err("Project descriptor has no parent directory".to_owned());
        },
    };
    let output = match &facts.output {
        Ok(output) => output,
        Err(error) => {
            let mut e = "KairoPlayer reported success but profile output ".to_owned();
            e.append(requested.as_str());
            e.append(" is unavailable: ");
            e.append(error.as_str());
            return Err(e);
        },
    };
    if !facts.directory {
        let mut e = "KairoPlayer profile output is not a directory: ".to_owned();
        e.append(output.as_str());
        return Err(e);
    }
    let manifest_path = package_manifest_path(output.as_str());
    if !facts.manifest {
        let mut e = "KairoPlayer package manifest is missing: ".to_owned();
        e.append(manifest_path.as_str());
        return Err(e);
    }
    Ok(
        PackageArtifact {
            profile_name: profile.name,
            profile_kind: profile.kind,
            output_directory: output.clone(),
            manifest_path,
        },
    )
}

/// The packaging of a profile, or why it came to nothing. The profile is selected
/// before the compiler runs, and the compiler runs before the player.
pub open spec fn packaging_of(
    project: Seq<char>,
    health: HealthView,
    profile_name: Seq<char>,
    installation: InstallationView,
    tools: ToolFacts,
    compilation: Result<ProcessStatus, String>,
    packaging: Result<ProcessOutput, String>,
    published: PackageFacts,
) -> Result<ArtifactView, Seq<char>> {
    if player_fault(health, installation, tools) is Some {
        Err(player_fault(health, installation, tools)->0)
    } else {
        match selected_profile(health, profile_name) {
            Err(e) => Err(e),
            Ok(profile) => if compile_fault(compilation) is Some {
                Err(compile_fault(compilation)->0)
            } else if packaging_fault(packaging) is Some {
                Err(packaging_fault(packaging)->0)
            } else {
                published_package_of(project, profile, published)
            },
        }
    }
}

/// Judges the packaging of a profile. `compilation` and `packaging` are how the
/// project compiler and the player ended; `published` is what stands in the
/// profile's output directory afterwards. What was not reached does not matter.
pub fn package_project_with(
    project: &str,
    facts: &ProjectFacts,
    profile_name: &str,
    installation: &EngineInstallation,
    tools: &ToolFacts,
    compilation: &Result<ProcessStatus, String>,
    packaging: &Result<ProcessOutput, String>,
    published: &PackageFacts,
) -> (r: Result<PackageArtifact, String>)
    ensures
        match r {
            Ok(artifact) => packaging_of(
                project@,
                health_of(project@, *facts),
                profile_name@,
                installation@,
                *tools,
                *compilation,
                *packaging,
                *published,
            ) == Ok::<_, Seq<char>>(artifact@),
            Err(e) => packaging_of(
                project@,
                health_of(project@, *facts),
                profile_name@,
                installation@,
                *tools,
                *compilation,
                *packaging,
                *published,
            ) == Err::<ArtifactView, _>(e@),
        },
{
    let health = match validate_player_operation(project, facts, installation, tools) {
        Ok(health) => health,
        Err(e) => {
            return Err(e);
        },
    };
    let profile = match select_profile(&health, profile_name) {
        Ok(profile) => profile,
        Err(e) => {
            return Err(e);
        },
    };
    match check_compilation(compilation) {
        Ok(_) => {},
        Err(e) => {
            return Err(e);
        },
    }
    match check_packaging(packaging) {
        Ok(_) => {},
        Err(e) => {
            return Err(e);
        },
    }
    published_package(project, profile, published)
}

// ---------------------------------------------------------------------------
// Laws
// ---------------------------------------------------------------------------
/// The editor is launched only on a valid project, and with a recovery snapshot
/// only if one was selected and is valid. Recovery is never selected by itself:
/// without a snapshot, the editor gets the project and is told not to keep its
/// layout, and nothing else.
pub proof fn law_editor_opens_only_what_is_valid(
    project: Seq<char>,
    health: HealthView,
    editor: Result<Seq<char>, Seq<char>>,
    snapshot: Option<SnapshotView>,
)
    requires
        editor_launch_of(project, health, editor, snapshot) is Ok,
    ensures
        health.valid(),
        snapshot matches Some(s) ==> s.valid(),
        editor_launch_of(project, health, editor, snapshot)->Ok_0.arguments == match snapshot {
            None => seq!["--project"@, project, "--no-layout-persistence"@],
            Some(s) => seq!["--project"@, project, "--recovery-snapshot"@, s.directory],
        },
{
    let command = editor_launch_of(project, health, editor, snapshot)->Ok_0;
    match snapshot {
        None => {
            assert(command.arguments =~= seq![
                "--project"@,
                project,
                "--no-layout-persistence"@,
            ]);
        },
        Some(s) => {
            assert(command.arguments =~= seq![
                "--project"@,
                project,
                "--recovery-snapshot"@,
                s.directory,
            ]);
        },
    }
}

/// The player is launched only on a valid project that was made for the selected
/// engine, only with an installation whose player and project compiler are built,
/// and only after the project compiler has succeeded. A project with its own
/// player is run with it, from inside the project; any other is run with the
/// installation's.
pub proof fn law_player_follows_the_compiler(
    project: Seq<char>,
    health: HealthView,
    installation: InstallationView,
    tools: ToolFacts,
    compilation: Result<ProcessStatus, String>,
    runtime: RuntimeFacts,
)
    requires
        player_launch_of(project, health, installation, tools, compilation, runtime) is Ok,
    ensures
        health.valid(),
        health.descriptor->0.engine_version == installation.version,
        compilation matches Ok(status) && status.success,
        installation.project_compiler_available && tools.project_compiler,
        installation.player_available && tools.player,
        ({
            let command = player_launch_of(
                project,
                health,
                installation,
                tools,
                compilation,
                runtime,
            )->Ok_0;
            &&& command.arguments == seq![project]
            &&& health.descriptor->0.runtime_executable is None ==> command.program
                == installation.player
            &&& health.descriptor->0.runtime_executable is Some ==> {
                &&& runtime.resolved matches Ok(resolved)
                &&& runtime.root matches Ok(root)
                &&& command.program == resolved@
                &&& is_inside(resolved@, root@)
                &&& runtime.regular_file
            }
        }),
{
}

pub proof fn lemma_profile_named(profiles: Seq<ProfileView>, name: Seq<char>, at: int)
    requires
        0 <= at <= profiles.len(),
    ensures
        profile_named(profiles, name, at) matches Some(profile) ==> profile.name == name
            && profiles.contains(profile),
        profile_named(profiles, name, at) is None ==> forall|i: int|
            at <= i < profiles.len() ==> (#[trigger] profiles[i]).name != name,
    decreases profiles.len() - at,
{
    if at < profiles.len() {
        if profiles[at].name == name {
            assert(profiles.contains(profiles[at]));
        } else {
            lemma_profile_named(profiles, name, at + 1);
        }
    }
}

/// The player is called to package only on a valid project that was made for the
/// selected engine, only for a profile of the descriptor with exactly the name
/// that was asked for, and only after the project compiler has succeeded. It
/// replaces an earlier package only if that was asked for.
pub proof fn law_packaging_follows_the_compiler(
    project: Seq<char>,
    health: HealthView,
    profile_name: Seq<char>,
    replace: bool,
    installation: InstallationView,
    tools: ToolFacts,
    compilation: Result<ProcessStatus, String>,
)
    requires
        packaging_plan_of(
            project,
            health,
            profile_name,
            replace,
            installation,
            tools,
            compilation,
        ) is Ok,
    ensures
        health.valid(),
        health.descriptor->0.engine_version == installation.version,
        installation.player_available && tools.player,
        installation.project_compiler_available && tools.project_compiler,
        compilation matches Ok(status) && status.success,
        exists|profile: ProfileView| #[trigger]
            health.descriptor->0.build_profiles.contains(profile) && profile.name == profile_name,
        ({
            let command = packaging_plan_of(
                project,
                health,
                profile_name,
                replace,
                installation,
                tools,
                compilation,
            )->Ok_0;
            &&& command.program == installation.player
            &&& command.arguments == if replace {
                seq![project, "--package"@, profile_name, "--replace"@]
            } else {
                seq![project, "--package"@, profile_name]
            }
        }),
{
    let profiles = health.descriptor->0.build_profiles;
    lemma_profile_named(profiles, profile_name, 0);
    let profile = profile_named(profiles, profile_name, 0)->0;
    assert(profiles.contains(profile));
    let command = package_command_of(project, profile, replace, installation);
    if replace {
        assert(command.arguments =~= seq![project, "--package"@, profile_name, "--replace"@]);
    } else {
        assert(command.arguments =~= seq![project, "--package"@, profile_name]);
    }
}

/// A package is reported only for a profile of the descriptor with exactly the
/// name that was asked for, only after the compiler and then the player have
/// succeeded, and only if the package manifest is there.
pub proof fn law_package_is_verified(
    project: Seq<char>,
    health: HealthView,
    profile_name: Seq<char>,
    installation: InstallationView,
    tools: ToolFacts,
    compilation: Result<ProcessStatus, String>,
    packaging: Result<ProcessOutput, String>,
    published: PackageFacts,
)
    requires
        packaging_of(
            project,
            health,
            profile_name,
            installation,
            tools,
            compilation,
            packaging,
            published,
        ) is Ok,
    ensures
        health.valid(),
        health.descriptor->0.engine_version == installation.version,
        compilation matches Ok(status) && status.success,
        packaging matches Ok(output) && output.status.success,
        published.directory && published.manifest,
        ({
            let artifact = packaging_of(
                project,
                health,
                profile_name,
                installation,
                tools,
                compilation,
                packaging,
                published,
            )->Ok_0;
            &&& artifact.profile_name == profile_name
            &&& published.output matches Ok(output)
            &&& artifact.output_directory == output@
            &&& artifact.manifest_path == join_of(output@, "package.kmanifest"@)
            &&& exists|profile: ProfileView| #[trigger]
                health.descriptor->0.build_profiles.contains(profile) && profile.name
                    == profile_name && profile.kind == artifact.profile_kind
        }),
{
    let profiles = health.descriptor->0.build_profiles;
    lemma_profile_named(profiles, profile_name, 0);
    let profile = profile_named(profiles, profile_name, 0)->0;
    assert(profiles.contains(profile));
}

} // verus!
