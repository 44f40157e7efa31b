//! The health of a project: what is wrong with it, in words.
use vstd::prelude::*;

use crate::descriptor::project_of;
use crate::health::{
    descriptor_file_fault, health_of, import_fault, required_file_fault, FileMetadata, ProjectFacts,
    RequiredFile,
};
use crate::path::{components, extension_of};
use crate::text::joined;

verus! {

/// A descriptor's file is read just if it is called `.kproject`, and is a regular
/// file, no symbolic link, of at most one mebibyte. Else the first of these is the
/// reason.
pub proof fn law_descriptor_file_is_read(
    path: Seq<char>,
    metadata: Result<FileMetadata, String>,
)
    ensures
        match descriptor_file_fault(path, metadata) {
            None => {
                &&& extension_of(path) == Some("kproject"@)
                &&& metadata matches Ok(m) && !m.symbolic_link && m.regular_file && m.bytes <= 1024
                    * 1024
            },
            Some(e) => if extension_of(path) != Some("kproject"@) {
                e == "Project descriptor must use "@ + "the .kproject extension"@
            } else {
                match metadata {
                    Err(error) => e == "Cannot read project descriptor "@ + "metadata: "@ + error@,
                    Ok(m) => if m.symbolic_link {
                        e == "Project descriptor cannot be "@ + "a symbolic link"@
                    } else if !m.regular_file {
                        e == "Project descriptor must be "@ + "a regular file"@
                    } else {
                        m.bytes > 1024 * 1024 && e == "Project descriptor exceeds "@
                            + "the 1 MiB safety limit"@
                    },
                }
            },
        },
{
    reveal_strlit("Project descriptor must use ");
    reveal_strlit("the .kproject extension");
    reveal_strlit("Project descriptor must use the .kproject extension");
    reveal_strlit("Cannot read project descriptor ");
    reveal_strlit("metadata: ");
    reveal_strlit("Cannot read project descriptor metadata: ");
    reveal_strlit("Project descriptor cannot be ");
    reveal_strlit("a symbolic link");
    reveal_strlit("Project descriptor cannot be a symbolic link");
    reveal_strlit("Project descriptor must be ");
    reveal_strlit("a regular file");
    reveal_strlit("Project descriptor must be a regular file");
    reveal_strlit("Project descriptor exceeds ");
    reveal_strlit("the 1 MiB safety limit");
    reveal_strlit("Project descriptor exceeds the 1 MiB safety limit");
    assert("Project descriptor must use "@ + "the .kproject extension"@
        =~= "Project descriptor must use the .kproject extension"@);
    assert("Cannot read project descriptor "@ + "metadata: "@
        =~= "Cannot read project descriptor metadata: "@);
    assert("Project descriptor cannot be "@ + "a symbolic link"@
        =~= "Project descriptor cannot be a symbolic link"@);
    assert("Project descriptor must be "@ + "a regular file"@
        =~= "Project descriptor must be a regular file"@);
    assert("Project descriptor exceeds "@ + "the 1 MiB safety limit"@
        =~= "Project descriptor exceeds the 1 MiB safety limit"@);
}

/// A file that a project needs is there just if it is a regular file whose
/// resolved path goes on from the resolved root. The message says what it is for
/// and which file it is.
pub proof fn law_required_file_is_there(
    relative: Seq<char>,
    role: Seq<char>,
    file: RequiredFile,
)
    ensures
        match required_file_fault(relative, role, file) {
            None => {
                &&& file.regular_file && file.root is Some && file.resolved is Ok
                &&& exists|more: Seq<Seq<char>>| components(file.resolved->Ok_0@) == #[trigger] (
                components(file.root->0@) + more)
            },
            Some(e) => if !file.regular_file {
                e == "Missing "@ + role + ": "@ + relative
            } else if file.root is None {
                e == "Cannot resolve project root "@ + "while checking "@ + role
            } else {
                match file.resolved {
                    Err(error) => e == "Cannot resolve "@ + role + " "@ + relative + ": "@ + error@,
                    Ok(resolved) => {
                        &&& forall|more: Seq<Seq<char>>| components(resolved@) != #[trigger] (
                        components(file.root->0@) + more)
                        &&& e == role + " resolves outside "@ + "the project: "@ + relative
                    },
                }
            },
        },
{
    reveal_strlit("Cannot resolve project root ");
    reveal_strlit("while checking ");
    reveal_strlit("Cannot resolve project root while checking ");
    reveal_strlit(" resolves outside ");
    reveal_strlit("the project: ");
    reveal_strlit(" resolves outside the project: ");
    assert("Cannot resolve project root "@ + "while checking "@
        =~= "Cannot resolve project root while checking "@);
    assert(role + " resolves outside "@ + "the project: "@ =~= role
        + " resolves outside the project: "@);
    if file.root is Some && file.resolved is Ok {
        crate::laws::path::law_paths_are_their_components(
            file.resolved->Ok_0@,
            file.root->0@,
        );
    }
}

/// A project whose descriptor is not accepted has no descriptor and one error: why.
/// One whose descriptor is accepted has an error for each of its three files that
/// is not there, in the order assets, scene, input map; and a warning just if it is
/// not under version control.
pub proof fn law_health_tells_what_is_wrong(path: Seq<char>, facts: ProjectFacts)
    ensures
        ({
            let h = health_of(path, facts);
            let fault = descriptor_file_fault(path, facts.metadata);
            let reason = match fault {
                Some(e) => Some(e),
                None => match facts.source {
                    Err(error) => Some("Cannot read "@ + "project descriptor: "@ + error@),
                    Ok(source) => match project_of(source@) {
                        Err(e) => Some(e),
                        Ok(_) => None,
                    },
                },
            };
            &&& h.descriptor_path == path
            &&& reason matches Some(e) ==> h.descriptor is None && h.errors.len() == 1
                && h.errors[0] == e && h.warnings.len() == 0
            &&& reason is None ==> {
                let d = project_of(facts.source->Ok_0@)->Ok_0;
                let a: Seq<Seq<char>> = match required_file_fault(
                    d.asset_manifest,
                    "asset "@ + "manifest"@,
                    facts.asset_manifest,
                ) {
                    Some(e) => seq![e],
                    None => seq![],
                };
                let b: Seq<Seq<char>> = match required_file_fault(
                    d.startup_scene,
                    "startup "@ + "scene"@,
                    facts.startup_scene,
                ) {
                    Some(e) => seq![e],
                    None => seq![],
                };
                let c: Seq<Seq<char>> = match required_file_fault(
                    d.input_map,
                    "input "@ + "map"@,
                    facts.input_map,
                ) {
                    Some(e) => seq![e],
                    None => seq![],
                };
                &&& h.descriptor == Some(d)
                &&& h.errors == a + b + c
                &&& h.warnings == if facts.under_git {
                    Seq::<Seq<char>>::empty()
                } else {
                    seq!["Project is not under "@ + "local Git version control"@]
                }
            }
            &&& h.valid() <==> h.errors.len() == 0 && h.descriptor is Some
        }),
{
    reveal_strlit("Cannot read ");
    reveal_strlit("project descriptor: ");
    reveal_strlit("Cannot read project descriptor: ");
    reveal_strlit("asset ");
    reveal_strlit("manifest");
    reveal_strlit("asset manifest");
    reveal_strlit("startup ");
    reveal_strlit("scene");
    reveal_strlit("startup scene");
    reveal_strlit("input ");
    reveal_strlit("map");
    reveal_strlit("input map");
    reveal_strlit("Project is not under ");
    reveal_strlit("local Git version control");
    reveal_strlit("Project is not under local Git version control");
    assert("Cannot read "@ + "project descriptor: "@ =~= "Cannot read project descriptor: "@);
    assert("asset "@ + "manifest"@ =~= "asset manifest"@);
    assert("startup "@ + "scene"@ =~= "startup scene"@);
    assert("input "@ + "map"@ =~= "input map"@);
    assert("Project is not under "@ + "local Git version control"@
        =~= "Project is not under local Git version control"@);
}

/// A project is imported just if it has no errors and a descriptor.
pub proof fn law_import_needs_a_valid_project(path: Seq<char>, facts: ProjectFacts)
    ensures
        ({
            let h = health_of(path, facts);
            import_fault(path, facts) == if h.errors.len() == 0 && h.descriptor is Some {
                None
            } else {
                Some("Project import "@ + "failed: "@ + joined(h.errors, "; "@))
            }
        }),
{
    reveal_strlit("Project import ");
    reveal_strlit("failed: ");
    reveal_strlit("Project import failed: ");
    assert("Project import "@ + "failed: "@ =~= "Project import failed: "@);
}

} // verus!
