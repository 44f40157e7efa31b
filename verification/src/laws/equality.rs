//! When two descriptions are the same: texts by their characters, paths by their
//! components, and nothing left out.
use vstd::prelude::*;

use crate::descriptor::{is_same_descriptor, is_same_profile, DescriptorView, ProfileView};
use crate::engine::{is_same_installation, InstallationView};
use crate::health::{is_same_health, HealthView};
use crate::launch::{is_same_artifact, ArtifactView};
use crate::path::components;
use crate::recovery::{is_same_snapshot, SnapshotView};

verus! {

/// Profiles are the same by name, kind and output directory.
pub proof fn law_same_profiles(a: ProfileView, b: ProfileView)
    ensures
        is_same_profile(a, b) <==> components(b.output_directory) == components(a.output_directory)
            && b.kind == a.kind && b.name == a.name,
{
}

/// Descriptors are the same by all that they state; profiles and plugins in their
/// order.
pub proof fn law_same_descriptors(a: DescriptorView, b: DescriptorView)
    ensures
        is_same_descriptor(a, b) <==> {
            &&& b.build_profiles.len() == a.build_profiles.len()
            &&& forall|i: int|
                0 <= i < a.build_profiles.len() ==> {
                    let p = #[trigger] a.build_profiles[i];
                    let q = b.build_profiles[i];
                    &&& components(p.output_directory) == components(q.output_directory)
                    &&& p.kind == q.kind && p.name == q.name
                }
            &&& b.enabled_plugins == a.enabled_plugins
            &&& b.runtime_executable is Some <==> a.runtime_executable is Some
            &&& a.runtime_executable matches Some(x) ==> components(b.runtime_executable->0)
                == components(x)
            &&& b.graphics_backend == a.graphics_backend
            &&& b.rendering_profile == a.rendering_profile
            &&& components(b.input_map) == components(a.input_map)
            &&& b.engine_version == a.engine_version
            &&& components(b.startup_scene) == components(a.startup_scene)
            &&& components(b.asset_manifest) == components(a.asset_manifest)
            &&& b.name == a.name
        },
{
    if is_same_descriptor(a, b) {
        assert forall|i: int| 0 <= i < a.build_profiles.len() implies {
            let p = #[trigger] a.build_profiles[i];
            let q = b.build_profiles[i];
            &&& components(p.output_directory) == components(q.output_directory)
            &&& p.kind == q.kind && p.name == q.name
        } by {
            assert(is_same_profile(a.build_profiles[i], b.build_profiles[i]));
        }
    }
}

/// Findings about a project are the same by all that was found.
pub proof fn law_same_health(a: HealthView, b: HealthView)
    ensures
        is_same_health(a, b) <==> {
            &&& b.warnings == a.warnings && b.errors == a.errors
            &&& b.descriptor is Some <==> a.descriptor is Some
            &&& a.descriptor matches Some(x) ==> is_same_descriptor(x, b.descriptor->0)
            &&& components(b.descriptor_path) == components(a.descriptor_path)
        },
{
}

/// Installations are the same by root, version, tools, and which tools are there.
pub proof fn law_same_installations(a: InstallationView, b: InstallationView)
    ensures
        is_same_installation(a, b) <==> {
            &&& b.player_available == a.player_available
            &&& b.project_compiler_available == a.project_compiler_available
            &&& b.editor_available == a.editor_available
            &&& components(b.player) == components(a.player)
            &&& components(b.project_compiler) == components(a.project_compiler)
            &&& components(b.editor) == components(a.editor)
            &&& b.version == a.version
            &&& components(b.root) == components(a.root)
        },
{
}

/// Packages are the same by profile, directory and manifest.
pub proof fn law_same_artifacts(a: ArtifactView, b: ArtifactView)
    ensures
        is_same_artifact(a, b) <==> {
            &&& components(b.manifest_path) == components(a.manifest_path)
            &&& components(b.output_directory) == components(a.output_directory)
            &&& b.profile_kind == a.profile_kind
            &&& b.profile_name == a.profile_name
        },
{
}

/// Findings about a snapshot are the same by all that was found.
pub proof fn law_same_snapshots(a: SnapshotView, b: SnapshotView)
    ensures
        is_same_snapshot(a, b) <==> {
            &&& b.errors == a.errors
            &&& b.text_draft_count == a.text_draft_count
            &&& b.dirty_file_count == a.dirty_file_count
            &&& b.file_count == a.file_count
            &&& components(b.active_scene) == components(a.active_scene)
            &&& b.created_unix_milliseconds == a.created_unix_milliseconds
            &&& components(b.directory) == components(a.directory)
        },
{
}

} // verus!
