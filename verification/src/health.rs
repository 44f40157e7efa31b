//! The health of a project: whether it can be opened.
//!
//! Whoever looks at the disk gathers what there is to know about a project as
//! [`ProjectFacts`]; what follows from them is decided here.
use vstd::prelude::*;
use vstd::std_specs::cmp::PartialEqSpecImpl;

use crate::bootstrap::{law_new_project_is_complete, new_project_of, starter};
use crate::descriptor::{
    is_same_descriptor, law_accepted_descriptor_is_well_formed, parse_project, project_of,
    well_formed, DescriptorView, ProjectDescriptor, MAX_PROJECT_BYTES,
};
use crate::generate::descriptor_file;
use crate::path::{
    directory_of, directory_path, extension, extension_of, inside, is_inside, is_same_path,
    join_of, join_path, same_path, same_texts,
};
use crate::text::{
    byte_length, copy_list, join, joined, lemma_texts_push, text_eq, texts, trimmed,
};

verus! {

/// What was found out about a project.
#[derive(Debug)]
pub struct ProjectHealth {
    pub descriptor_path: String,
    /// What the descriptor says, if it could be read.
    pub descriptor: Option<ProjectDescriptor>,
    pub errors: Vec<String>,
    pub warnings: Vec<String>,
}

pub struct HealthView {
    pub descriptor_path: Seq<char>,
    pub descriptor: Option<DescriptorView>,
    pub errors: Seq<Seq<char>>,
    pub warnings: Seq<Seq<char>>,
}

pub open spec fn opt_descriptor(o: Option<ProjectDescriptor>) -> Option<DescriptorView> {
    match o {
        Some(d) => Some(d@),
        None => None,
    }
}

impl View for ProjectHealth {
    type V = HealthView;

    open spec fn view(&self) -> HealthView {
        HealthView {
            descriptor_path: self.descriptor_path@,
            descriptor: opt_descriptor(self.descriptor),
            errors: texts(self.errors@),
            warnings: texts(self.warnings@),
        }
    }
}

impl Clone for ProjectHealth {
    fn clone(&self) -> (r: ProjectHealth)
        ensures
            r@ == self@,
    {
        ProjectHealth {
            descriptor_path: self.descriptor_path.clone(),
            descriptor: match &self.descriptor {
                Some(d) => Some(d.clone()),
                None => None,
            },
            errors: copy_list(&self.errors),
            warnings: copy_list(&self.warnings),
        }
    }
}

/// The same findings about the same path.
pub open spec fn is_same_health(a: HealthView, b: HealthView) -> bool {
    &&& is_same_path(a.descriptor_path, b.descriptor_path)
    &&& match (a.descriptor, b.descriptor) {
        (Some(x), Some(y)) => is_same_descriptor(x, y),
        (None, None) => true,
        _ => false,
    }
    &&& a.errors == b.errors
    &&& a.warnings == b.warnings
}

impl PartialEqSpecImpl for ProjectHealth {
    open spec fn obeys_eq_spec() -> bool {
        true
    }

    open spec fn eq_spec(&self, other: &ProjectHealth) -> bool {
        is_same_health(self@, other@)
    }
}

impl PartialEq for ProjectHealth {
    fn eq(&self, other: &ProjectHealth) -> (r: bool) {
        let same_descriptor = match (&self.descriptor, &other.descriptor) {
            (Some(x), Some(y)) => *x == *y,
            (None, None) => true,
            _ => false,
        };
        same_path(self.descriptor_path.as_str(), other.descriptor_path.as_str()) && same_descriptor
            && same_texts(&self.errors, &other.errors) && same_texts(
            &self.warnings,
            &other.warnings,
        )
    }
}

impl Eq for ProjectHealth {

}

impl HealthView {
    /// Nothing is wrong with the project.
    pub open spec fn valid(self) -> bool {
        self.errors.len() == 0 && self.descriptor is Some
    }
}

impl ProjectHealth {
    /// Whether nothing is wrong with the project.
    pub fn is_valid(&self) -> (r: bool)
        ensures
            r == self@.valid(),
    {
        assert(texts(self.errors@).len() == self.errors@.len());
        self.errors.len() == 0 && self.descriptor.is_some()
    }
}

// ---------------------------------------------------------------------------
// Facts
// ---------------------------------------------------------------------------
/// What stands at the descriptor's path, links not followed.
#[derive(Debug)]
pub struct FileMetadata {
    pub symbolic_link: bool,
    pub regular_file: bool,
    pub bytes: u64,
}

/// What stands where the project needs a file.
#[derive(Debug)]
pub struct RequiredFile {
    /// A regular file, links followed.
    pub regular_file: bool,
    /// The project root with links resolved, if it could be resolved.
    pub root: Option<String>,
    /// The file with links resolved, or why it could not be resolved.
    pub resolved: Result<String, String>,
}

/// What is known of a project's files. What was not reached is left at any value:
/// the source, if the descriptor's file is at fault; the required files, if the
/// source is.
#[derive(Debug)]
pub struct ProjectFacts {
    /// The descriptor's metadata, or why there is none.
    pub metadata: Result<FileMetadata, String>,
    /// The descriptor's text, or why it could not be read.
    pub source: Result<String, String>,
    pub asset_manifest: RequiredFile,
    pub startup_scene: RequiredFile,
    pub input_map: RequiredFile,
    /// `.git` stands in the project root.
    pub under_git: bool,
}

// ---------------------------------------------------------------------------
// Inspection
// ---------------------------------------------------------------------------
/// Why the descriptor's file is not even read, if it is not.
pub open spec fn descriptor_file_fault(
    path: Seq<char>,
    metadata: Result<FileMetadata, String>,
) -> Option<Seq<char>> {
    if extension_of(path) != Some("kproject"@) {
        Some("Project descriptor must use the .kproject extension"@)
    } else {
        match metadata {
            Err(error) => Some("Cannot read project descriptor metadata: "@ + error@),
            Ok(m) => if m.symbolic_link {
                Some("Project descriptor cannot be a symbolic link"@)
            } else if !m.regular_file {
                Some("Project descriptor must be a regular file"@)
            } else if m.bytes > MAX_PROJECT_BYTES {
                Some("Project descriptor exceeds the 1 MiB safety limit"@)
            } else {
                None
            },
        }
    }
}

/// Decides whether the descriptor's file may be read.
pub fn check_descriptor_file(path: &str, metadata: &Result<FileMetadata, String>) -> (r: Result<
    (),
    String,
>)
    ensures
        match r {
            Ok(_) => descriptor_file_fault(path@, *metadata) is None,
            Err(e) => descriptor_file_fault(path@, *metadata) == Some(e@),
        },
{
    let kproject = match extension(path) {
        Some(e) => text_eq(e.as_str(), "kproject"),
        None => false,
    };
    if !kproject {
        return Err("Project descriptor must use the .kproject extension".to_owned());
    }
    match metadata {
        Err(error) => {
            let mut e = "Cannot read project descriptor metadata: ".to_owned();
            e.append(error.as_str());
            Err(e)
        },
        Ok(m) => {
            if m.symbolic_link {
                Err("Project descriptor cannot be a symbolic link".to_owned())
            } else if !m.regular_file {
                Err("Project descriptor must be a regular file".to_owned())
            } else if m.bytes > MAX_PROJECT_BYTES {
                Err("Project descriptor exceeds the 1 MiB safety limit".to_owned())
            } else {
                Ok(())
            }
        },
    }
}

/// What is wrong with a required file, if anything: it must be a regular file
/// that stays inside the project root with links resolved.
pub open spec fn required_file_fault(
    relative: Seq<char>,
    role: Seq<char>,
    file: RequiredFile,
) -> Option<Seq<char>> {
    if !file.regular_file {
        Some("Missing "@ + role + ": "@ + relative)
    } else {
        match file.root {
            None => Some("Cannot resolve project root while checking "@ + role),
            Some(root) => match file.resolved {
                Ok(resolved) => if is_inside(resolved@, root@) {
                    None
                } else {
                    Some(role + " resolves outside the project: "@ + relative)
                },
                Err(error) => Some("Cannot resolve "@ + role + " "@ + relative + ": "@ + error@),
            },
        }
    }
}

/// Decides on one required file.
pub fn inspect_required_project_file(relative: &str, role: &str, file: &RequiredFile) -> (r: Option<
    String,
>)
    ensures
        match r {
            Some(e) => required_file_fault(relative@, role@, *file) == Some(e@),
            None => required_file_fault(relative@, role@, *file) is None,
        },
{
    if !file.regular_file {
        let mut e = "Missing ".to_owned();
        e.append(role);
        e.append(": ");
        e.append(relative);
        return Some(e);
    }
    match &file.root {
        None => {
            let mut e = "Cannot resolve project root while checking ".to_owned();
            e.append(role);
            Some(e)
        },
        Some(root) => match &file.resolved {
            Ok(resolved) => {
                if inside(resolved.as_str(), root.as_str()) {
                    None
                } else {
                    let mut e = role.to_owned();
                    e.append(" resolves outside the project: ");
                    e.append(relative);
                    Some(e)
                }
            },
            Err(error) => {
                let mut e = "Cannot resolve ".to_owned();
                e.append(role);
                e.append(" ");
                e.append(relative);
                e.append(": ");
                e.append(error.as_str());
                Some(e)
            },
        },
    }
}

/// The messages with one more, if there is one.
pub open spec fn with_fault(errors: Seq<Seq<char>>, fault: Option<Seq<char>>) -> Seq<Seq<char>> {
    match fault {
        Some(e) => errors.push(e),
        None => errors,
    }
}

fn add_fault(errors: &mut Vec<String>, fault: Option<String>)
    ensures
        texts(final(errors)@) == with_fault(
            texts(old(errors)@),
            (match fault {
                Some(e) => Some(e@),
                None => None,
            }),
        ),
{
    if let Some(e) = fault {
        proof {
            lemma_texts_push(errors@, e);
        }
        errors.push(e);
    }
}

/// What is wrong with the files that a descriptor refers to.
pub open spec fn required_files_faults(d: DescriptorView, facts: ProjectFacts) -> Seq<Seq<char>> {
    let none = Seq::<Seq<char>>::empty();
    let a = with_fault(
        none,
        required_file_fault(d.asset_manifest, "asset manifest"@, facts.asset_manifest),
    );
    let b = with_fault(
        a,
        required_file_fault(d.startup_scene, "startup scene"@, facts.startup_scene),
    );
    with_fault(b, required_file_fault(d.input_map, "input map"@, facts.input_map))
}

/// A project whose descriptor could not be read.
pub open spec fn unreadable(path: Seq<char>, error: Seq<char>) -> HealthView {
    HealthView {
        descriptor_path: path,
        descriptor: None,
        errors: seq![error],
        warnings: seq![],
    }
}

/// The health of the project at `path`.
pub open spec fn health_of(path: Seq<char>, facts: ProjectFacts) -> HealthView {
    match descriptor_file_fault(path, facts.metadata) {
        Some(e) => unreadable(path, e),
        None => match facts.source {
            Err(error) => unreadable(path, "Cannot read project descriptor: "@ + error@),
            Ok(source) => match project_of(source@) {
                Err(e) => unreadable(path, e),
                Ok(d) => HealthView {
                    descriptor_path: path,
                    descriptor: Some(d),
                    errors: required_files_faults(d, facts),
                    warnings: if facts.under_git {
                        seq![]
                    } else {
                        seq!["Project is not under local Git version control"@]
                    },
                },
            },
        },
    }
}

fn unreadable_health(path: &str, error: String) -> (r: ProjectHealth)
    ensures
        r@ == unreadable(path@, error@),
{
    let mut errors: Vec<String> = Vec::new();
    errors.push(error);
    let r = ProjectHealth {
        descriptor_path: path.to_owned(),
        descriptor: None,
        errors,
        warnings: Vec::new(),
    };
    assert(r@.errors =~= seq![error@]);
    assert(r@.warnings =~= Seq::<Seq<char>>::empty());
    r
}

/// Inspects the project at `path`.
pub fn inspect_project(path: &str, facts: &ProjectFacts) -> (r: ProjectHealth)
    ensures
        r@ == health_of(path@, *facts),
{
    match check_descriptor_file(path, &facts.metadata) {
        Ok(_) => {},
        Err(e) => {
            return unreadable_health(path, e);
        },
    }
    let source = match &facts.source {
        Ok(source) => source,
        Err(error) => {
            let mut e = "Cannot read project descriptor: ".to_owned();
            e.append(error.as_str());
            return unreadable_health(path, e);
        },
    };
    let d = match parse_project(source.as_str()) {
        Ok(d) => d,
        Err(e) => {
            return unreadable_health(path, e);
        },
    };
    let mut errors: Vec<String> = Vec::new();
    assert(texts(errors@) =~= Seq::<Seq<char>>::empty());
    add_fault(
        &mut errors,
        inspect_required_project_file(
            d.asset_manifest.as_str(),
            "asset manifest",
            &facts.asset_manifest,
        ),
    );
    add_fault(
        &mut errors,
        inspect_required_project_file(
            d.startup_scene.as_str(),
            "startup scene",
            &facts.startup_scene,
        ),
    );
    add_fault(
        &mut errors,
        inspect_required_project_file(d.input_map.as_str(), "input map", &facts.input_map),
    );
    let mut warnings: Vec<String> = Vec::new();
    if !facts.under_git {
        warnings.push("Project is not under local Git version control".to_owned());
    }
    let r = ProjectHealth {
        descriptor_path: path.to_owned(),
        descriptor: Some(d),
        errors,
        warnings,
    };
    assert(r@.warnings =~= health_of(path@, *facts).warnings);
    r
}

/// The files that the project at `path` needs: asset manifest, startup scene and
/// input map.
pub fn required_paths(path: &str, d: &ProjectDescriptor) -> (r: Vec<String>)
    ensures
        texts(r@) == seq![
            join_of(directory_of(path@), d@.asset_manifest),
            join_of(directory_of(path@), d@.startup_scene),
            join_of(directory_of(path@), d@.input_map),
        ],
{
    let root = directory_path(path);
    let mut r: Vec<String> = Vec::new();
    r.push(join_path(root.as_str(), d.asset_manifest.as_str()));
    r.push(join_path(root.as_str(), d.startup_scene.as_str()));
    r.push(join_path(root.as_str(), d.input_map.as_str()));
    assert(texts(r@) =~= seq![
        join_of(directory_of(path@), d@.asset_manifest),
        join_of(directory_of(path@), d@.startup_scene),
        join_of(directory_of(path@), d@.input_map),
    ]);
    r
}

/// What stands beside the project at `path` if it is under version control.
pub fn version_control_path(path: &str) -> (r: String)
    ensures
        r@ == join_of(directory_of(path@), ".git"@),
{
    let root = directory_path(path);
    join_path(root.as_str(), ".git")
}

/// Why the project at `path` cannot be imported, if it cannot.
pub open spec fn import_fault(path: Seq<char>, facts: ProjectFacts) -> Option<Seq<char>> {
    let health = health_of(path, facts);
    if health.valid() {
        None
    } else {
        Some("Project import failed: "@ + joined(health.errors, "; "@))
    }
}

/// Imports an existing project: it must be valid.
pub fn import_project(path: &str, facts: &ProjectFacts) -> (r: Result<ProjectHealth, String>)
    ensures
        match r {
            Ok(health) => health@ == health_of(path@, *facts) && health@.valid(),
            Err(e) => import_fault(path@, *facts) == Some(e@),
        },
{
    let health = inspect_project(path, facts);
    if !health.is_valid() {
        let mut e = "Project import failed: ".to_owned();
        e.append(join(&health.errors, "; ").as_str());
        return Err(e);
    }
    Ok(health)
}

// ---------------------------------------------------------------------------
// Laws
// ---------------------------------------------------------------------------
/// A regular file that stays inside the project root.
pub open spec fn is_present(file: RequiredFile) -> bool {
    &&& file.regular_file
    &&& file.root matches Some(root) && (file.resolved matches Ok(resolved) && is_inside(
        resolved@,
        root@,
    ))
}

/// A project is valid if and only if its descriptor is a regular `.kproject`
/// file within the size limit that can be read and is accepted, and the three
/// files that it refers to are regular files inside the project root. The
/// descriptor of a valid project is well formed.
pub proof fn law_valid_project_is_complete(path: Seq<char>, facts: ProjectFacts)
    ensures
        health_of(path, facts).valid() <==> {
            &&& extension_of(path) == Some("kproject"@)
            &&& facts.metadata matches Ok(m) && !m.symbolic_link && m.regular_file && m.bytes
                <= MAX_PROJECT_BYTES
            &&& facts.source matches Ok(source) && project_of(source@) is Ok
            &&& is_present(facts.asset_manifest)
            &&& is_present(facts.startup_scene)
            &&& is_present(facts.input_map)
        },
        health_of(path, facts).valid() ==> well_formed(health_of(path, facts).descriptor->0),
{
    if health_of(path, facts).descriptor is Some {
        law_accepted_descriptor_is_well_formed(facts.source->Ok_0@);
    }
}

/// A project without errors has a descriptor: errors are empty only on a valid
/// project.
pub proof fn law_no_error_means_valid(path: Seq<char>, facts: ProjectFacts)
    ensures
        health_of(path, facts).errors.len() == 0 <==> health_of(path, facts).valid(),
        health_of(path, facts).descriptor is None ==> health_of(path, facts).errors.len() == 1,
{
}

/// A new project is healthy as soon as its files are on the disk, and has the
/// trimmed display name.
pub proof fn law_new_project_is_healthy(
    parent: Seq<char>,
    folder_name: Seq<char>,
    display_name: Seq<char>,
    facts: ProjectFacts,
)
    requires
        new_project_of(parent, folder_name, display_name) is Ok,
        byte_length(descriptor_file(starter(display_name))) <= MAX_PROJECT_BYTES,
        facts.metadata matches Ok(m) && !m.symbolic_link && m.regular_file && m.bytes
            == byte_length(descriptor_file(starter(display_name))),
        facts.source matches Ok(source) && source@ == new_project_of(
            parent,
            folder_name,
            display_name,
        )->Ok_0.files.last().contents,
        is_present(facts.asset_manifest),
        is_present(facts.startup_scene),
        is_present(facts.input_map),
    ensures
        ({
            let p = new_project_of(parent, folder_name, display_name)->Ok_0;
            let health = health_of(p.descriptor, facts);
            health.valid() && health.descriptor->0.name == trimmed(display_name)
        }),
{
    law_new_project_is_complete(parent, folder_name, display_name);
    law_valid_project_is_complete(
        new_project_of(parent, folder_name, display_name)->Ok_0.descriptor,
        facts,
    );
}

} // verus!
