//! The import of a content repository: one glTF or GLB scene becomes a Kairo
//! project, whose files are generated beside it. The scene itself is neither
//! copied nor changed.
use vstd::prelude::*;

use crate::bootstrap::{file_views, FileView, PlannedFile};
use crate::descriptor::{opt_text, project_of, MAX_PROJECT_BYTES};
use crate::generate::{
    can_be_generated, descriptor_file, descriptor_text, generated_descriptor,
    law_generated_descriptor_is_accepted, lemma_escaped_single_line, lemma_two_components,
    Generated,
};
use crate::health::{
    health_of, import_fault, import_project, is_present, law_valid_project_is_complete,
    ProjectFacts,
};
use crate::listing::{find_existing, first_existing, sort_paths, sorted_paths};
use crate::path::{
    components, directory_of, dot, extension, extension_of, file_name_of, inside, is_absolute,
    is_dot, is_inside, is_same_path, join_of, join_path, last_index, last_name,
    law_file_stands_in_its_directory, leading, lemma_components_below, lemma_join_components,
    lemma_last_index, lemma_last_index_is, lemma_no_components, lemma_single_component, names,
    path_components, relative_path_fault, root, stem_length, tail_trimmed,
    validate_relative_path,
};
use crate::search::EntryKind;
use crate::text::{
    ascii_lowercase, blank, byte_length, decimal, decimal_text, is_blank, is_single_line, join,
    joined, lemma_lines_cons, lemma_trimmed_again, lemma_trimmed_single_line, lines, single_line,
    text_eq, texts, to_ascii_lowercase, trim, trimmed,
};
use crate::token::{
    can_be_written, escaped, law_written_row_is_read_back, quote, quoted, row, tokens, word_text,
    Word,
};

verus! {

/// The scene of an imported project: an instance of the imported asset, a camera,
/// a light and an environment.
pub const IMPORTED_SCENE: &'static str = "kairo-scene 4\nentity 1 \"Imported Scene\"\nenabled true\nlayer 0\ntransform 0 0 0 0 0 0 1 1 1 1\nscene-instance 90000000-0000-4000-8000-000000000001 true true true 18446744073709551615\nend\nentity 2 \"Main Camera\"\nenabled true\nlayer 0\ntransform 0 2.5 6 0 0 0 1 1 1 1\ncamera perspective 0.87266463 10 0.1 500 0 true environment 0.02 0.025 0.035 1 18446744073709551615\nend\nentity 3 \"Sun\"\nenabled true\nlayer 0\ntransform 0 5 3 -0.38268343 0 0 0.9238795 1 1 1\nlight directional 1 0.95 0.85 60000 lux 100 0.34906585 0.52359878 1 1 soft 0.001 0.01 18446744073709551615\nend\nentity 4 \"World\"\nenabled true\nlayer 0\ntransform 0 0 0 0 0 0 1 1 1 1\nenvironment true 10 0.02 0.03 0.05 none 0.12 1 disabled 0.5 0.5 0.5 0.01 0 1000 0 aces global\nend\n";

/// The input map of an imported project.
pub const IMPORTED_INPUT_MAP: &'static str = "kairo-input 1\naction \"Quit\" button\nbind \"Quit\" key Escape 1 0 0\n";

/// The extension of a scene that can be imported, in capitals or not.
pub open spec fn is_scene_extension(extension: Option<Seq<char>>) -> bool {
    extension matches Some(e) && (ascii_lowercase(e) == "gltf"@ || ascii_lowercase(e) == "glb"@)
}

pub fn scene_extension(extension: &Option<String>) -> (r: bool)
    ensures
        r == is_scene_extension(
            (match *extension {
                Some(e) => Some(e@),
                None => None,
            }),
        ),
{
    match extension {
        Some(e) => {
            let lower = to_ascii_lowercase(e.as_str());
            text_eq(lower.as_str(), "gltf") || text_eq(lower.as_str(), "glb")
        },
        None => false,
    }
}

/// Why a path cannot be that of the scene to import, if it cannot.
pub open spec fn external_scene_fault(path: Seq<char>) -> Option<Seq<char>> {
    match relative_path_fault(path, "external scene"@) {
        Some(e) => Some(e),
        None => if is_scene_extension(extension_of(path)) {
            None
        } else {
            Some("External scene must have a .gltf or .glb extension"@)
        },
    }
}

pub fn validate_external_scene_path(path: &str) -> (r: Result<(), String>)
    ensures
        match r {
            Ok(_) => external_scene_fault(path@) is None,
            Err(e) => external_scene_fault(path@) == Some(e@),
        },
{
    match validate_relative_path(path, "external scene") {
        Ok(_) => {},
        Err(e) => {
            return Err(e);
        },
    }
    if !scene_extension(&extension(path)) {
        return Err("External scene must have a .gltf or .glb extension".to_owned());
    }
    Ok(())
}

/// A relative path with its names separated by `/`, whatever it was written with.
pub open spec fn portable_of(path: Seq<char>) -> Result<Seq<char>, Seq<char>> {
    match relative_path_fault(path, "external scene"@) {
        Some(e) => Err(e),
        None => if components(path).contains(dot()) {
            Err("External scene path contains a non-normal component"@)
        } else if components(path).len() == 0 {
            Err("External scene path cannot be empty"@)
        } else {
            Ok(joined(components(path), "/"@))
        },
    }
}

pub fn portable_relative_path(path: &str) -> (r: Result<String, String>)
    ensures
        match r {
            Ok(portable) => portable_of(path@) == Ok::<_, Seq<char>>(portable@),
            Err(e) => portable_of(path@) == Err::<Seq<char>, _>(e@),
        },
{
    match validate_relative_path(path, "external scene") {
        Ok(_) => {},
        Err(e) => {
            return Err(e);
        },
    }
    let parts = path_components(path);
    let mut i: usize = 0;
    while i < parts.len()
        invariant
            i <= parts.len(),
            texts(parts@) == components(path@),
            relative_path_fault(path@, "external scene"@) is None,
            forall|j: int| 0 <= j < i ==> parts@[j]@ != dot(),
        decreases parts.len() - i,
    {
        if is_dot(parts[i].as_str()) {
            assert(texts(parts@)[i as int] == dot());
            return Err("External scene path contains a non-normal component".to_owned());
        }
        i += 1;
    }
    assert forall|j: int| 0 <= j < texts(parts@).len() implies texts(parts@)[j] != dot() by {
        assert(texts(parts@)[j] == parts@[j]@);
    }
    assert(texts(parts@).len() == parts@.len());
    if parts.len() == 0 {
        return Err("External scene path cannot be empty".to_owned());
    }
    Ok(join(&parts, "/"))
}

// ---------------------------------------------------------------------------
// The choice of the scene
// ---------------------------------------------------------------------------
/// The scene that was asked for by name, if one was.
pub open spec fn requested_scene(requested: Option<Seq<char>>) -> Option<Seq<char>> {
    match requested {
        Some(text) => if is_blank(text) {
            None
        } else {
            Some(trimmed(text))
        },
        None => None,
    }
}

/// How a candidate is shown.
pub open spec fn shown_scene(path: Seq<char>) -> Seq<char> {
    match portable_of(path) {
        Ok(portable) => portable,
        Err(_) => path,
    }
}

pub open spec fn shown_scenes(list: Seq<Seq<char>>) -> Seq<Seq<char>> {
    list.map_values(|path: Seq<char>| shown_scene(path))
}

/// The message for more than one candidate; the first eight are shown.
pub open spec fn ambiguous_message(sorted: Seq<Seq<char>>) -> Seq<char> {
    let preview = if sorted.len() > 8 {
        sorted.take(8)
    } else {
        sorted
    };
    "External repository contains "@ + decimal(sorted.len())
        + " glTF/GLB scenes. Specify the entry scene explicitly. Candidates: "@ + joined(
        shown_scenes(preview),
        ", "@,
    ) + (if sorted.len() > 8 {
        ", ..."@
    } else {
        ""@
    })
}

/// The scene to import: the one asked for, or the only candidate.
pub open spec fn chosen_scene(
    requested: Option<Seq<char>>,
    candidates: Result<Seq<Seq<char>>, Seq<char>>,
) -> Result<Seq<char>, Seq<char>> {
    match requested_scene(requested) {
        Some(path) => match external_scene_fault(path) {
            Some(e) => Err(e),
            None => Ok(path),
        },
        None => match candidates {
            Err(e) => Err(e),
            Ok(list) => if list.len() == 0 {
                Err(
                    "External repository contains no .gltf or .glb scene. Kairo's external importer v1 supports glTF/GLB content repositories only."@,
                )
            } else if list.len() == 1 {
                Ok(list[0])
            } else {
                Err(ambiguous_message(sorted_paths(list)))
            },
        },
    }
}

pub open spec fn texts_or_error(r: Result<Vec<String>, String>) -> Result<
    Seq<Seq<char>>,
    Seq<char>,
> {
    match r {
        Ok(v) => Ok(texts(v@)),
        Err(e) => Err(e@),
    }
}

/// Whether the repository must be searched for scenes: not if one was asked for.
pub fn needs_search(requested: &Option<String>) -> (r: bool)
    ensures
        r == (requested_scene(opt_text(*requested)) is None),
{
    match requested {
        Some(text) => blank(text.as_str()),
        None => true,
    }
}

fn ambiguous_text(sorted: &Vec<String>) -> (r: String)
    ensures
        r@ == ambiguous_message(texts(sorted@)),
{
    let count = sorted.len();
    let shown: usize = if count > 8 {
        8
    } else {
        count
    };
    let ghost all = texts(sorted@);
    let ghost preview = if all.len() > 8 {
        all.take(8)
    } else {
        all
    };
    assert(all.len() == count);
    let mut names: Vec<String> = Vec::new();
    let mut i: usize = 0;
    while i < shown
        invariant
            i <= shown <= sorted.len(),
            all == texts(sorted@),
            names@.len() == i,
            forall|j: int| 0 <= j < i ==> #[trigger] names@[j]@ == shown_scene(all[j]),
        decreases shown - i,
    {
        assert(all[i as int] == sorted@[i as int]@);
        let name = match portable_relative_path(sorted[i].as_str()) {
            Ok(portable) => portable,
            Err(_) => sorted[i].clone(),
        };
        names.push(name);
        i += 1;
    }
    assert(texts(names@) =~= shown_scenes(preview));
    let mut r = "External repository contains ".to_owned();
    r.append(decimal_text(count as u64).as_str());
    r.append(" glTF/GLB scenes. Specify the entry scene explicitly. Candidates: ");
    r.append(join(&names, ", ").as_str());
    if count > 8 {
        r.append(", ...");
    } else {
        r.append("");
    }
    r
}

/// Chooses the scene to import. `candidates` are those that a search found, or
/// why it failed; they do not matter if a scene was asked for.
pub fn choose_scene(requested: &Option<String>, candidates: &Result<Vec<String>, String>) -> (r:
    Result<String, String>)
    ensures
        match r {
            Ok(path) => chosen_scene(opt_text(*requested), texts_or_error(*candidates)) == Ok::<
                _,
                Seq<char>,
            >(path@),
            Err(e) => chosen_scene(opt_text(*requested), texts_or_error(*candidates)) == Err::<
                Seq<char>,
                _,
            >(e@),
        },
{
    if let Some(text) = requested {
        if !blank(text.as_str()) {
            let path = trim(text.as_str());
            return match validate_external_scene_path(path.as_str()) {
                Ok(_) => Ok(path),
                Err(e) => Err(e),
            };
        }
    }
    match candidates {
        Err(e) => Err(e.clone()),
        Ok(list) => {
            assert(texts(list@).len() == list@.len());
            if list.len() == 0 {
                return Err(
                    "External repository contains no .gltf or .glb scene. Kairo's external importer v1 supports glTF/GLB content repositories only.".to_owned(),
                );
            }
            if list.len() == 1 {
                assert(texts(list@)[0] == list@[0]@);
                return Ok(list[0].clone());
            }
            let sorted = sort_paths(list);
            Err(ambiguous_text(&sorted))
        },
    }
}

/// What stands at the scene's path. What was not reached is left at any value.
#[derive(Debug)]
pub struct SceneFacts {
    /// What the scene is, links not followed, or why that is not known.
    pub entry: Result<EntryKind, String>,
    /// The repository with links resolved, or why it could not be resolved.
    pub root: Result<String, String>,
    /// The scene with links resolved, or why it could not be resolved.
    pub scene: Result<String, String>,
}

/// Why the scene cannot be imported from where it stands, if it cannot.
pub open spec fn scene_place_fault(relative: Seq<char>, facts: SceneFacts) -> Option<Seq<char>> {
    match facts.entry {
        Err(error) => Some("Cannot inspect external scene "@ + relative + ": "@ + error@),
        Ok(kind) => if !(kind is RegularFile) {
            Some("External scene must be a regular non-symlink file"@)
        } else {
            match facts.root {
                Err(error) => Some("Cannot resolve external repository root: "@ + error@),
                Ok(root) => match facts.scene {
                    Err(error) => Some("Cannot resolve external scene: "@ + error@),
                    Ok(scene) => if is_inside(scene@, root@) {
                        None
                    } else {
                        Some("External scene resolves outside the cloned repository"@)
                    },
                },
            }
        },
    }
}

/// Decides whether the scene can be imported from where it stands.
pub fn check_scene_place(relative: &str, facts: &SceneFacts) -> (r: Result<(), String>)
    ensures
        match r {
            Ok(_) => scene_place_fault(relative@, *facts) is None,
            Err(e) => scene_place_fault(relative@, *facts) == Some(e@),
        },
{
    match &facts.entry {
        Err(error) => {
            let mut e = "Cannot inspect external scene ".to_owned();
            e.append(relative);
            e.append(": ");
            e.append(error.as_str());
            return Err(e);
        },
        Ok(EntryKind::RegularFile) => {},
        Ok(_) => {
            return Err("External scene must be a regular non-symlink file".to_owned());
        },
    }
    let root = match &facts.root {
        Ok(root) => root,
        Err(error) => {
            let mut e = "Cannot resolve external repository root: ".to_owned();
            e.append(error.as_str());
            return Err(e);
        },
    };
    match &facts.scene {
        Err(error) => {
            let mut e = "Cannot resolve external scene: ".to_owned();
            e.append(error.as_str());
            Err(e)
        },
        Ok(scene) => {
            if inside(scene.as_str(), root.as_str()) {
                Ok(())
            } else {
                Err("External scene resolves outside the cloned repository".to_owned())
            }
        },
    }
}

/// The scene to import, once it is known to stand where it can be imported from.
pub open spec fn resolved_scene(
    requested: Option<Seq<char>>,
    candidates: Result<Seq<Seq<char>>, Seq<char>>,
    facts: SceneFacts,
) -> Result<Seq<char>, Seq<char>> {
    match chosen_scene(requested, candidates) {
        Err(e) => Err(e),
        Ok(path) => match scene_place_fault(path, facts) {
            Some(e) => Err(e),
            None => Ok(path),
        },
    }
}

/// Chooses the scene to import and checks where it stands. `facts` are about the
/// scene that [`choose_scene`] gives.
pub fn resolve_external_scene(
    requested: &Option<String>,
    candidates: &Result<Vec<String>, String>,
    facts: &SceneFacts,
) -> (r: Result<String, String>)
    ensures
        match r {
            Ok(path) => resolved_scene(opt_text(*requested), texts_or_error(*candidates), *facts)
                == Ok::<_, Seq<char>>(path@),
            Err(e) => resolved_scene(opt_text(*requested), texts_or_error(*candidates), *facts)
                == Err::<Seq<char>, _>(e@),
        },
{
    match choose_scene(requested, candidates) {
        Err(e) => Err(e),
        Ok(path) => match check_scene_place(path.as_str(), facts) {
            Ok(_) => Ok(path),
            Err(e) => Err(e),
        },
    }
}

// ---------------------------------------------------------------------------
// The generated project
// ---------------------------------------------------------------------------
/// An imported project, before anything is written.
#[derive(Debug)]
pub struct ExternalProject {
    /// The directories to make.
    pub directories: Vec<String>,
    /// The files to write, in this order.
    pub files: Vec<PlannedFile>,
    /// The descriptor's path.
    pub project: String,
    /// The files that must not be there yet.
    pub guarded: Vec<String>,
}

pub struct ExternalView {
    pub directories: Seq<Seq<char>>,
    pub files: Seq<FileView>,
    pub project: Seq<char>,
    pub guarded: Seq<Seq<char>>,
}

impl View for ExternalProject {
    type V = ExternalView;

    open spec fn view(&self) -> ExternalView {
        ExternalView {
            directories: texts(self.directories@),
            files: file_views(self.files@),
            project: self.project@,
            guarded: texts(self.guarded@),
        }
    }
}

/// The asset manifest of an imported project: the scene is its only asset.
pub open spec fn imported_assets(portable: Seq<char>) -> Seq<char> {
    "kairo-assets 1\nasset 90000000-0000-4000-8000-000000000001 scene source 1 "@ + quoted(portable)
        + " \"kairo.gltf.scene\"\nend\n"@
}

/// What the descriptor of an imported project is about.
pub open spec fn imported(display_name: Seq<char>, engine_version: Seq<char>) -> Generated {
    Generated {
        name: trimmed(display_name),
        engine_version: trimmed(engine_version),
        assets: ".kairo/Assets.kassets"@,
        startup_scene: ".kairo/Scenes/Imported.kscene"@,
        input_map: ".kairo/Config/Input.kinput"@,
    }
}

/// An imported project, or why it cannot be generated.
pub open spec fn external_project_of(
    root: Seq<char>,
    scene: Seq<char>,
    display_name: Seq<char>,
    engine_version: Seq<char>,
) -> Result<ExternalView, Seq<char>> {
    let generated_root = join_of(root, ".kairo"@);
    let scenes = join_of(generated_root, "Scenes"@);
    let config = join_of(generated_root, "Config"@);
    let project = join_of(root, "KairoImported.kproject"@);
    if external_scene_fault(scene) is Some {
        Err(external_scene_fault(scene)->0)
    } else if is_blank(display_name) || !is_single_line(display_name) {
        Err("Imported project display name must be non-empty and single-line"@)
    } else if is_blank(engine_version) || !is_single_line(engine_version) {
        Err("Imported project engine version must be non-empty and single-line"@)
    } else {
        match portable_of(scene) {
            Err(e) => Err(e),
            Ok(portable) => Ok(
                ExternalView {
                    directories: seq![scenes, config],
                    files: seq![
                        FileView {
                            path: join_of(generated_root, "Assets.kassets"@),
                            contents: imported_assets(portable),
                        },
                        FileView {
                            path: join_of(scenes, "Imported.kscene"@),
                            contents: IMPORTED_SCENE@,
                        },
                        FileView {
                            path: join_of(config, "Input.kinput"@),
                            contents: IMPORTED_INPUT_MAP@,
                        },
                        FileView {
                            path: project,
                            contents: descriptor_file(imported(display_name, engine_version)),
                        },
                    ],
                    project,
                    guarded: seq![
                        project,
                        join_of(generated_root, "Assets.kassets"@),
                        join_of(scenes, "Imported.kscene"@),
                        join_of(config, "Input.kinput"@),
                    ],
                },
            ),
        }
    }
}

/// Plans the project around the scene at `scene` below `root`.
pub fn generate_external_gltf_project(
    root: &str,
    scene: &str,
    display_name: &str,
    engine_version: &str,
) -> (r: Result<ExternalProject, String>)
    ensures
        match r {
            Ok(p) => external_project_of(root@, scene@, display_name@, engine_version@) == Ok::<
                _,
                Seq<char>,
            >(p@),
            Err(e) => external_project_of(root@, scene@, display_name@, engine_version@) == Err::<
                ExternalView,
                _,
            >(e@),
        },
{
    match validate_external_scene_path(scene) {
        Ok(_) => {},
        Err(e) => {
            return Err(e);
        },
    }
    if blank(display_name) || !single_line(display_name) {
        return Err(
            "Imported project display name must be non-empty and single-line".to_owned(),
        );
    }
    if blank(engine_version) || !single_line(engine_version) {
        return Err(
            "Imported project engine version must be non-empty and single-line".to_owned(),
        );
    }
    let portable = match portable_relative_path(scene) {
        Ok(portable) => portable,
        Err(e) => {
            return Err(e);
        },
    };
    let generated_root = join_path(root, ".kairo");
    let scenes = join_path(generated_root.as_str(), "Scenes");
    let config = join_path(generated_root.as_str(), "Config");
    let project = join_path(root, "KairoImported.kproject");
    let mut assets =
        "kairo-assets 1\nasset 90000000-0000-4000-8000-000000000001 scene source 1 ".to_owned();
    assets.append(quote(portable.as_str()).as_str());
    assets.append(" \"kairo.gltf.scene\"\nend\n");
    let name = trim(display_name);
    let version = trim(engine_version);
    let text = descriptor_text(
        name.as_str(),
        version.as_str(),
        ".kairo/Assets.kassets",
        ".kairo/Scenes/Imported.kscene",
        ".kairo/Config/Input.kinput",
    );
    let assets_path = join_path(generated_root.as_str(), "Assets.kassets");
    let scene_path = join_path(scenes.as_str(), "Imported.kscene");
    let input_path = join_path(config.as_str(), "Input.kinput");
    let mut guarded: Vec<String> = Vec::new();
    guarded.push(project.clone());
    guarded.push(assets_path.clone());
    guarded.push(scene_path.clone());
    guarded.push(input_path.clone());
    let mut files: Vec<PlannedFile> = Vec::new();
    files.push(PlannedFile { path: assets_path, contents: assets });
    files.push(PlannedFile { path: scene_path, contents: IMPORTED_SCENE.to_owned() });
    files.push(PlannedFile { path: input_path, contents: IMPORTED_INPUT_MAP.to_owned() });
    files.push(PlannedFile { path: project.clone(), contents: text });
    let mut directories: Vec<String> = Vec::new();
    directories.push(scenes);
    directories.push(config);
    let r = ExternalProject { directories, files, project, guarded };
    proof {
        let view = external_project_of(root@, scene@, display_name@, engine_version@)->Ok_0;
        assert(r@.directories =~= view.directories);
        assert(r@.files =~= view.files);
        assert(r@.guarded =~= view.guarded);
    }
    Ok(r)
}

/// Refuses an import that would overwrite a file; `existing` holds those of the
/// guarded files that are there.
pub fn check_not_overwriting(project: &ExternalProject, existing: &Vec<String>) -> (r: Result<
    (),
    String,
>)
    ensures
        match r {
            Ok(_) => first_existing(project@.guarded, texts(existing@), 0) is None,
            Err(e) => first_existing(project@.guarded, texts(existing@), 0) matches Some(path) && e@
                == "External import would overwrite an existing generated file: "@ + path,
        },
{
    match find_existing(&project.guarded, existing) {
        Some(path) => {
            let mut e = "External import would overwrite an existing generated file: ".to_owned();
            e.append(path.as_str());
            Err(e)
        },
        None => Ok(()),
    }
}

// ---------------------------------------------------------------------------
// The import as a whole
// ---------------------------------------------------------------------------
/// What is known of the directory to import from.
#[derive(Debug)]
pub struct ImportFacts {
    /// It is a directory, links followed.
    pub directory: bool,
    /// It is a symbolic link, or why that is not known.
    pub symbolic_link: Result<bool, String>,
    /// The scenes in it, or why they could not be searched for.
    pub candidates: Result<Vec<String>, String>,
    /// What is known of the chosen scene.
    pub scene: SceneFacts,
}

/// Why nothing can be imported from `root`, if nothing can.
pub open spec fn import_root_fault(root: Seq<char>, facts: ImportFacts) -> Option<Seq<char>> {
    if !facts.directory {
        Some("External import root is not a directory: "@ + root)
    } else {
        match facts.symbolic_link {
            Err(error) => Some("Cannot inspect external import root: "@ + error@),
            Ok(link) => if link {
                Some("External import root cannot be a symbolic link"@)
            } else {
                None
            },
        }
    }
}

/// Decides whether something can be imported from `root`.
pub fn check_import_root(root: &str, facts: &ImportFacts) -> (r: Result<(), String>)
    ensures
        match r {
            Ok(_) => import_root_fault(root@, *facts) is None,
            Err(e) => import_root_fault(root@, *facts) == Some(e@),
        },
{
    if !facts.directory {
        let mut e = "External import root is not a directory: ".to_owned();
        e.append(root);
        return Err(e);
    }
    match &facts.symbolic_link {
        Err(error) => {
            let mut e = "Cannot inspect external import root: ".to_owned();
            e.append(error.as_str());
            Err(e)
        },
        Ok(link) => {
            if *link {
                Err("External import root cannot be a symbolic link".to_owned())
            } else {
                Ok(())
            }
        },
    }
}

/// The project that an import from `root` makes, or why it makes none.
pub open spec fn imported_project_of(
    root: Seq<char>,
    facts: ImportFacts,
    entry_scene: Option<Seq<char>>,
    display_name: Seq<char>,
    engine_version: Seq<char>,
) -> Result<ExternalView, Seq<char>> {
    match import_root_fault(root, facts) {
        Some(e) => Err(e),
        None => match resolved_scene(entry_scene, texts_or_error(facts.candidates), facts.scene) {
            Err(e) => Err(e),
            Ok(scene) => external_project_of(root, scene, display_name, engine_version),
        },
    }
}

/// Plans the import of a scene below `root`.
pub fn import_external_gltf_directory(
    root: &str,
    facts: &ImportFacts,
    entry_scene: &Option<String>,
    display_name: &str,
    engine_version: &str,
) -> (r: Result<ExternalProject, String>)
    ensures
        match r {
            Ok(p) => imported_project_of(
                root@,
                *facts,
                opt_text(*entry_scene),
                display_name@,
                engine_version@,
            ) == Ok::<_, Seq<char>>(p@),
            Err(e) => imported_project_of(
                root@,
                *facts,
                opt_text(*entry_scene),
                display_name@,
                engine_version@,
            ) == Err::<ExternalView, _>(e@),
        },
{
    match check_import_root(root, facts) {
        Ok(_) => {},
        Err(e) => {
            return Err(e);
        },
    }
    match resolve_external_scene(entry_scene, &facts.candidates, &facts.scene) {
        Err(e) => Err(e),
        Ok(scene) => generate_external_gltf_project(
            root,
            scene.as_str(),
            display_name,
            engine_version,
        ),
    }
}

/// What an import that was written comes to: the project, if it can be imported.
pub open spec fn import_outcome_of(project: Seq<char>, facts: ProjectFacts) -> Result<
    Seq<char>,
    Seq<char>,
> {
    match import_fault(project, facts) {
        Some(e) => Err(e),
        None => Ok(project),
    }
}

/// Ends an import. `written` is whether the plan's directories and files were all
/// written, or why not; `facts` are about the plan's project thereafter.
pub fn conclude_import(
    plan: ExternalProject,
    written: Result<(), String>,
    facts: &ProjectFacts,
) -> (r: Result<String, String>)
    ensures
        match written {
            Err(error) => r == Err::<String, _>(error),
            Ok(_) => match r {
                Ok(path) => import_outcome_of(plan@.project, *facts) == Ok::<_, Seq<char>>(path@),
                Err(e) => import_outcome_of(plan@.project, *facts) == Err::<Seq<char>, _>(e@),
            },
        },
{
    match written {
        Err(e) => Err(e),
        Ok(_) => match import_project(plan.project.as_str(), facts) {
            Ok(_) => Ok(plan.project),
            Err(e) => Err(e),
        },
    }
}

// ---------------------------------------------------------------------------
// The command line
// ---------------------------------------------------------------------------
/// An import that was asked for on the command line.
#[derive(Debug)]
pub struct ImportRequest {
    pub root: String,
    pub display_name: String,
    pub engine_version: String,
    pub entry_scene: Option<String>,
}

/// Reads the arguments of an import: root, display name, engine version, and the
/// entry scene if there is one.
pub fn parse_import_arguments(arguments: &Vec<String>) -> (r: Result<ImportRequest, String>)
    ensures
        match r {
            Ok(request) => {
                &&& 3 <= arguments@.len() <= 4
                &&& request.root@ == arguments@[0]@
                &&& request.display_name@ == arguments@[1]@
                &&& request.engine_version@ == arguments@[2]@
                &&& opt_text(request.entry_scene) == if arguments@.len() == 4 {
                    Some(arguments@[3]@)
                } else {
                    None
                }
            },
            Err(e) => {
                &&& arguments@.len() < 3 || arguments@.len() > 4
                &&& e@ == if arguments@.len() == 0 {
                    "usage: kairo-hub-import <root> <display-name> <engine-version> [entry-scene]"@
                } else if arguments@.len() == 1 {
                    "missing display name"@
                } else if arguments@.len() == 2 {
                    "missing engine version"@
                } else {
                    "too many arguments"@
                }
            },
        },
{
    let count = arguments.len();
    if count == 0 {
        return Err(
            "usage: kairo-hub-import <root> <display-name> <engine-version> [entry-scene]".to_owned(),
        );
    }
    if count == 1 {
        return Err("missing display name".to_owned());
    }
    if count == 2 {
        return Err("missing engine version".to_owned());
    }
    if count > 4 {
        return Err("too many arguments".to_owned());
    }
    Ok(
        ImportRequest {
            root: arguments[0].clone(),
            display_name: arguments[1].clone(),
            engine_version: arguments[2].clone(),
            entry_scene: if count == 4 {
                Some(arguments[3].clone())
            } else {
                None
            },
        },
    )
}

// ---------------------------------------------------------------------------
// Laws
// ---------------------------------------------------------------------------
/// A chosen scene is always one that can be imported by its path, if the
/// candidates are.
pub proof fn law_chosen_scene_is_a_scene(
    requested: Option<Seq<char>>,
    candidates: Seq<Seq<char>>,
)
    requires
        forall|i: int|
            0 <= i < candidates.len() ==> external_scene_fault(#[trigger] candidates[i]) is None,
    ensures
        chosen_scene(requested, Ok(candidates)) matches Ok(path) ==> external_scene_fault(path)
            is None,
{
}

/// A scene is chosen without being asked for if and only if it is the only one.
pub proof fn law_only_scene_is_chosen(candidates: Seq<Seq<char>>)
    ensures
        chosen_scene(None, Ok(candidates)) is Ok <==> candidates.len() == 1,
        candidates.len() == 1 ==> chosen_scene(None, Ok(candidates)) == Ok::<_, Seq<char>>(
            candidates[0],
        ),
{
}

/// No file that is generated can be one that the import would overwrite: each is
/// guarded.
pub proof fn law_generated_files_are_guarded(
    root: Seq<char>,
    scene: Seq<char>,
    display_name: Seq<char>,
    engine_version: Seq<char>,
)
    requires
        external_project_of(root, scene, display_name, engine_version) is Ok,
    ensures
        ({
            let p = external_project_of(root, scene, display_name, engine_version)->Ok_0;
            forall|i: int|
                0 <= i < p.files.len() ==> p.guarded.contains((#[trigger] p.files[i]).path)
        }),
{
    let p = external_project_of(root, scene, display_name, engine_version)->Ok_0;
    assert forall|i: int| 0 <= i < p.files.len() implies p.guarded.contains(
        (#[trigger] p.files[i]).path,
    ) by {
        let k = if i == 3 {
            0
        } else {
            i + 1
        };
        assert(p.guarded[k] == p.files[i].path);
    }
}

proof fn lemma_join_relative(base: Seq<char>, path: Seq<char>, parts: Seq<Seq<char>>)
    requires
        path.len() > 0,
        components(path) == parts,
        parts.len() > 0,
        parts[0] != dot(),
        parts[0] != root(),
    ensures
        components(join_of(base, path)) == components(base) + parts,
{
    assert(leading(path).len() == 0) by {
        if leading(path).len() > 0 {
            assert(components(path)[0] == leading(path)[0]);
        }
    }
    assert(components(path) =~= names(path));
    assert(!is_absolute(path));
    if base.len() == 0 {
        assert(base =~= Seq::<char>::empty());
        lemma_no_components();
        assert(base + path =~= path);
        assert(components(base) + parts =~= parts);
    } else {
        lemma_join_components(base, path);
    }
}

#[verifier::spinoff_prover]
proof fn lemma_join_file(base: Seq<char>, name: Seq<char>)
    requires
        name.len() > 2,
        !name.contains('/'),
        name.last() != '.',
    ensures
        components(join_of(base, name)) == components(base).push(name),
        file_name_of(join_of(base, name)) == Some(name),
{
    let path = join_of(base, name);
    assert(name.contains(name[0]));
    assert(name.contains(name.last()));
    lemma_single_component(name);
    lemma_join_relative(base, name, seq![name]);
    assert(components(base) + seq![name] =~= components(base).push(name));
    let k = path.len() - name.len();
    assert forall|i: int| k <= i < path.len() implies path[i] != '/' by {
        assert(path[i] == name[i - k]);
        assert(name.contains(name[i - k]));
    }
    assert(path.last() == name.last());
    assert(tail_trimmed(path) == path);
    lemma_last_index_is(path, '/', k - 1);
    assert(last_name(path) =~= name);
}

/// A name without a separator that is neither `.` nor `..`.
spec fn is_plain(name: Seq<char>) -> bool {
    name.len() > 2 && !name.contains('/')
}

proof fn lemma_plain_names()
    ensures
        is_plain(".kairo"@),
        is_plain("Scenes"@),
        is_plain("Config"@),
        is_plain("Assets.kassets"@),
        is_plain("Imported.kscene"@),
        is_plain("Input.kinput"@),
{
    reveal_strlit(".kairo");
    reveal_strlit("Scenes");
    reveal_strlit("Config");
    reveal_strlit("Assets.kassets");
    reveal_strlit("Imported.kscene");
    reveal_strlit("Input.kinput");
    assert(".kairo"@.len() == 6);
    assert("Scenes"@.len() == 6);
    assert("Config"@.len() == 6);
    assert("Assets.kassets"@.len() == 14);
    assert("Imported.kscene"@.len() == 15);
    assert("Input.kinput"@.len() == 12);
}

proof fn lemma_generated_texts()
    ensures
        ".kairo/Assets.kassets"@ == ".kairo"@.push('/') + "Assets.kassets"@,
        ".kairo/Scenes/Imported.kscene"@ == (".kairo"@.push('/') + "Scenes"@).push('/')
            + "Imported.kscene"@,
        ".kairo/Config/Input.kinput"@ == (".kairo"@.push('/') + "Config"@).push('/')
            + "Input.kinput"@,
        is_single_line(".kairo/Assets.kassets"@),
        is_single_line(".kairo/Scenes/Imported.kscene"@),
        is_single_line(".kairo/Config/Input.kinput"@),
{
    reveal_strlit(".kairo");
    reveal_strlit("Scenes");
    reveal_strlit("Config");
    reveal_strlit("Assets.kassets");
    reveal_strlit("Imported.kscene");
    reveal_strlit("Input.kinput");
    reveal_strlit(".kairo/Assets.kassets");
    reveal_strlit(".kairo/Scenes/Imported.kscene");
    reveal_strlit(".kairo/Config/Input.kinput");
    assert(".kairo/Assets.kassets"@ =~= ".kairo"@.push('/') + "Assets.kassets"@);
    assert(".kairo/Scenes/Imported.kscene"@ =~= (".kairo"@.push('/') + "Scenes"@).push('/')
        + "Imported.kscene"@);
    assert(".kairo/Config/Input.kinput"@ =~= (".kairo"@.push('/') + "Config"@).push('/')
        + "Input.kinput"@);
}

/// A path of three names is relative, and has those three components.
proof fn lemma_three_components(
    first: Seq<char>,
    second: Seq<char>,
    third: Seq<char>,
    path: Seq<char>,
)
    requires
        path == (first.push('/') + second).push('/') + third,
        is_plain(first),
        is_plain(second),
        is_plain(third),
    ensures
        components(path) == seq![first, second, third],
        forall|field: Seq<char>| relative_path_fault(path, field) is None,
{
    let two = first.push('/') + second;
    lemma_two_components(first, second, two);
    lemma_single_component(third);
    lemma_components_below(two, third);
    assert(components(path) =~= seq![first, second, third]);
    assert(first.contains(first[0]));
    assert(path[0] == first[0]);
}

/// The generated file `name` below the directory `kairo` of the root is the one
/// that the relative path leads to from `base`.
proof fn lemma_same_two(
    root: Seq<char>,
    base: Seq<char>,
    kairo: Seq<char>,
    name: Seq<char>,
    path: Seq<char>,
)
    requires
        is_same_path(root, base),
        is_plain(kairo),
        is_plain(name),
        path == kairo.push('/') + name,
    ensures
        is_same_path(join_of(join_of(root, kairo), name), join_of(base, path)),
{
    lemma_two_components(kairo, name, path);
    lemma_single_component(kairo);
    lemma_single_component(name);
    lemma_join_relative(root, kairo, seq![kairo]);
    lemma_join_relative(join_of(root, kairo), name, seq![name]);
    lemma_join_relative(base, path, seq![kairo, name]);
    assert(components(root) + seq![kairo] + seq![name] =~= components(base) + seq![kairo, name]);
}

#[verifier::spinoff_prover]
proof fn lemma_same_three(
    root: Seq<char>,
    base: Seq<char>,
    kairo: Seq<char>,
    folder: Seq<char>,
    name: Seq<char>,
    path: Seq<char>,
)
    requires
        is_same_path(root, base),
        is_plain(kairo),
        is_plain(folder),
        is_plain(name),
        path == (kairo.push('/') + folder).push('/') + name,
    ensures
        is_same_path(join_of(join_of(join_of(root, kairo), folder), name), join_of(base, path)),
{
    lemma_three_components(kairo, folder, name, path);
    lemma_single_component(kairo);
    lemma_single_component(folder);
    lemma_single_component(name);
    let top = join_of(root, kairo);
    lemma_join_relative(root, kairo, seq![kairo]);
    lemma_join_relative(top, folder, seq![folder]);
    lemma_join_relative(join_of(top, folder), name, seq![name]);
    lemma_join_relative(base, path, seq![kairo, folder, name]);
    assert(components(root) + seq![kairo] + seq![folder] + seq![name] =~= components(base) + seq![
        kairo,
        folder,
        name,
    ]);
}

proof fn lemma_project_path(root: Seq<char>)
    ensures
        is_same_path(directory_of(join_of(root, "KairoImported.kproject"@)), root),
        extension_of(join_of(root, "KairoImported.kproject"@)) == Some("kproject"@),
{
    reveal_strlit("KairoImported.kproject");
    reveal_strlit("kproject");
    let file = "KairoImported.kproject"@;
    let project = join_of(root, file);
    lemma_join_file(root, file);
    law_file_stands_in_its_directory(project);
    assert(components(directory_of(project)) =~= components(project).drop_last());
    assert(components(root) =~= components(project).drop_last());
    lemma_last_index_is(file, '.', 13);
    assert(file.skip(14) =~= "kproject"@);
}

proof fn lemma_imported_can_be_generated(display_name: Seq<char>, engine_version: Seq<char>)
    requires
        !is_blank(display_name),
        is_single_line(display_name),
        !is_blank(engine_version),
        is_single_line(engine_version),
        byte_length(descriptor_file(imported(display_name, engine_version))) <= MAX_PROJECT_BYTES,
    ensures
        can_be_generated(imported(display_name, engine_version)),
{
    let g = imported(display_name, engine_version);
    lemma_trimmed_again(display_name);
    lemma_trimmed_single_line(display_name);
    lemma_trimmed_again(engine_version);
    lemma_trimmed_single_line(engine_version);
    lemma_plain_names();
    lemma_generated_texts();
    lemma_two_components(".kairo"@, "Assets.kassets"@, g.assets);
    lemma_three_components(".kairo"@, "Scenes"@, "Imported.kscene"@, g.startup_scene);
    lemma_three_components(".kairo"@, "Config"@, "Input.kinput"@, g.input_map);
    assert(components(g.assets).len() != components(g.startup_scene).len());
}

/// An imported project can be opened at once. Its descriptor is a `.kproject`
/// file directly in the imported directory; the descriptor is accepted and holds
/// the trimmed name and engine version; and each file that it refers to is
/// written with it. A name or version so long that the descriptor is larger than
/// a descriptor may be is the exception.
pub proof fn law_imported_project_is_complete(
    root: Seq<char>,
    scene: Seq<char>,
    display_name: Seq<char>,
    engine_version: Seq<char>,
)
    requires
        external_project_of(root, scene, display_name, engine_version) is Ok,
        byte_length(descriptor_file(imported(display_name, engine_version))) <= MAX_PROJECT_BYTES,
    ensures
        ({
            let p = external_project_of(root, scene, display_name, engine_version)->Ok_0;
            let d = generated_descriptor(imported(display_name, engine_version));
            let directory = directory_of(p.project);
            &&& is_same_path(directory, root)
            &&& extension_of(p.project) == Some("kproject"@)
            &&& d.name == trimmed(display_name)
            &&& d.engine_version == trimmed(engine_version)
            &&& p.files.last().path == p.project
            &&& project_of(p.files.last().contents) == Ok::<_, Seq<char>>(d)
            &&& is_same_path(p.files[0].path, join_of(directory, d.asset_manifest))
            &&& is_same_path(p.files[1].path, join_of(directory, d.startup_scene))
            &&& is_same_path(p.files[2].path, join_of(directory, d.input_map))
        }),
{
    let g = imported(display_name, engine_version);
    let directory = directory_of(join_of(root, "KairoImported.kproject"@));
    lemma_project_path(root);
    lemma_imported_can_be_generated(display_name, engine_version);
    law_generated_descriptor_is_accepted(g);
    lemma_plain_names();
    lemma_generated_texts();
    lemma_same_two(root, directory, ".kairo"@, "Assets.kassets"@, g.assets);
    lemma_same_three(
        root,
        directory,
        ".kairo"@,
        "Scenes"@,
        "Imported.kscene"@,
        g.startup_scene,
    );
    lemma_same_three(root, directory, ".kairo"@, "Config"@, "Input.kinput"@, g.input_map);
}

/// What stands behind the last dot of a name, if the dot does not begin it.
spec fn name_extension(name: Seq<char>) -> Option<Seq<char>> {
    if stem_length(name) < name.len() {
        Some(name.skip(stem_length(name) + 1))
    } else {
        None
    }
}

proof fn lemma_generated_extensions()
    ensures
        !is_scene_extension(name_extension("Assets.kassets"@)),
        !is_scene_extension(name_extension("Imported.kscene"@)),
        !is_scene_extension(name_extension("Input.kinput"@)),
        !is_scene_extension(name_extension("KairoImported.kproject"@)),
{
    reveal_strlit("Assets.kassets");
    reveal_strlit("Imported.kscene");
    reveal_strlit("Input.kinput");
    reveal_strlit("KairoImported.kproject");
    reveal_strlit("gltf");
    reveal_strlit("glb");
    lemma_last_index_is("Assets.kassets"@, '.', 6);
    lemma_last_index_is("Imported.kscene"@, '.', 8);
    lemma_last_index_is("Input.kinput"@, '.', 5);
    lemma_last_index_is("KairoImported.kproject"@, '.', 13);
    assert("gltf"@.len() == 4);
    assert("glb"@.len() == 3);
    assert("Assets.kassets"@.len() == 14);
    assert("Imported.kscene"@.len() == 15);
    assert("Input.kinput"@.len() == 12);
    assert("KairoImported.kproject"@.len() == 22);
}

/// The last component of a joined path is the file name of the relative one.
#[verifier::spinoff_prover]
proof fn lemma_joined_file_name(base: Seq<char>, path: Seq<char>)
    requires
        !is_absolute(path),
        file_name_of(path) is Some,
    ensures
        components(join_of(base, path)).len() > 0,
        components(join_of(base, path)).last() == file_name_of(path)->0,
{
    let name = file_name_of(path)->0;
    law_file_stands_in_its_directory(path);
    assert(components(path).last() == name);
    let t = tail_trimmed(path);
    lemma_last_index(t, '/');
    assert(name != root()) by {
        if name == root() {
            assert(name[0] == t[last_index(t, '/') + 1]);
        }
    }
    assert(names(path).len() > 0) by {
        if names(path).len() == 0 {
            assert(components(path) =~= leading(path));
        }
    }
    assert(components(path).last() == names(path).last());
    if base.len() == 0 {
        assert(base + path =~= path);
    } else {
        lemma_join_components(base, path);
    }
}

/// An import leaves the scene as it is: none of the files that it writes is the
/// scene.
pub proof fn law_scene_is_not_overwritten(
    root: Seq<char>,
    scene: Seq<char>,
    display_name: Seq<char>,
    engine_version: Seq<char>,
)
    requires
        external_project_of(root, scene, display_name, engine_version) is Ok,
    ensures
        ({
            let p = external_project_of(root, scene, display_name, engine_version)->Ok_0;
            forall|i: int|
                0 <= i < p.files.len() ==> !is_same_path(
                    (#[trigger] p.files[i]).path,
                    join_of(root, scene),
                )
        }),
{
    let p = external_project_of(root, scene, display_name, engine_version)->Ok_0;
    let name = file_name_of(scene)->0;
    lemma_generated_extensions();
    lemma_joined_file_name(root, scene);
    assert(is_scene_extension(name_extension(name)));
    lemma_plain_names();
    lemma_single_component("Assets.kassets"@);
    lemma_single_component("Imported.kscene"@);
    lemma_single_component("Input.kinput"@);
    let kairo = join_of(root, ".kairo"@);
    lemma_join_relative(kairo, "Assets.kassets"@, seq!["Assets.kassets"@]);
    lemma_join_relative(
        join_of(kairo, "Scenes"@),
        "Imported.kscene"@,
        seq!["Imported.kscene"@],
    );
    lemma_join_relative(join_of(kairo, "Config"@), "Input.kinput"@, seq!["Input.kinput"@]);
    lemma_project_name(root);
    assert(components(p.files[0].path).last() == "Assets.kassets"@);
    assert(components(p.files[1].path).last() == "Imported.kscene"@);
    assert(components(p.files[2].path).last() == "Input.kinput"@);
    assert(components(p.files[3].path).last() == "KairoImported.kproject"@);
}

proof fn lemma_project_name(root: Seq<char>)
    ensures
        components(join_of(root, "KairoImported.kproject"@)) == components(root).push(
            "KairoImported.kproject"@,
        ),
{
    reveal_strlit("KairoImported.kproject");
    lemma_join_file(root, "KairoImported.kproject"@);
}

proof fn lemma_plain_below(base: Seq<char>, top: Seq<char>, name: Seq<char>)
    requires
        is_plain(name),
        is_inside(base, top),
    ensures
        is_inside(join_of(base, name), top),
{
    lemma_single_component(name);
    lemma_join_relative(base, name, seq![name]);
    let n = components(top).len() as int;
    assert(components(join_of(base, name)).subrange(0, n) =~= components(base).subrange(0, n));
}

/// The files that an import writes lie in `.kairo` below the imported directory;
/// only the descriptor lies in the directory itself.
#[verifier::spinoff_prover]
pub proof fn law_generated_files_stay_in_place(
    root: Seq<char>,
    scene: Seq<char>,
    display_name: Seq<char>,
    engine_version: Seq<char>,
)
    requires
        external_project_of(root, scene, display_name, engine_version) is Ok,
    ensures
        ({
            let p = external_project_of(root, scene, display_name, engine_version)->Ok_0;
            &&& is_inside(p.files[0].path, join_of(root, ".kairo"@))
            &&& is_inside(p.files[1].path, join_of(root, ".kairo"@))
            &&& is_inside(p.files[2].path, join_of(root, ".kairo"@))
            &&& p.files[3].path == p.project
            &&& components(p.project) == components(root).push("KairoImported.kproject"@)
        }),
{
    let kairo = join_of(root, ".kairo"@);
    lemma_plain_names();
    lemma_project_name(root);
    assert(components(kairo).subrange(0, components(kairo).len() as int) =~= components(kairo));
    lemma_plain_below(kairo, kairo, "Assets.kassets"@);
    lemma_plain_below(kairo, kairo, "Scenes"@);
    lemma_plain_below(kairo, kairo, "Config"@);
    lemma_plain_below(join_of(kairo, "Scenes"@), kairo, "Imported.kscene"@);
    lemma_plain_below(join_of(kairo, "Config"@), kairo, "Input.kinput"@);
}

/// An imported project is healthy as soon as its files are on the disk, so that the
/// import comes to it, and has the trimmed name and engine version.
pub proof fn law_imported_project_is_healthy(
    root: Seq<char>,
    scene: Seq<char>,
    display_name: Seq<char>,
    engine_version: Seq<char>,
    facts: ProjectFacts,
)
    requires
        external_project_of(root, scene, display_name, engine_version) is Ok,
        byte_length(descriptor_file(imported(display_name, engine_version))) <= MAX_PROJECT_BYTES,
        facts.metadata matches Ok(m) && !m.symbolic_link && m.regular_file && m.bytes
            == byte_length(descriptor_file(imported(display_name, engine_version))),
        facts.source matches Ok(source) && source@ == external_project_of(
            root,
            scene,
            display_name,
            engine_version,
        )->Ok_0.files.last().contents,
        is_present(facts.asset_manifest),
        is_present(facts.startup_scene),
        is_present(facts.input_map),
    ensures
        ({
            let p = external_project_of(root, scene, display_name, engine_version)->Ok_0;
            let health = health_of(p.project, facts);
            &&& health.valid()
            &&& import_outcome_of(p.project, facts) == Ok::<_, Seq<char>>(p.project)
            &&& health.descriptor->0.name == trimmed(display_name)
            &&& health.descriptor->0.engine_version == trimmed(engine_version)
        }),
{
    let p = external_project_of(root, scene, display_name, engine_version)->Ok_0;
    law_imported_project_is_complete(root, scene, display_name, engine_version);
    law_valid_project_is_complete(p.project, facts);
}

/// The words of the asset in the manifest of an imported project.
pub open spec fn asset_row(portable: Seq<char>) -> Seq<Word> {
    seq![
        Word::Bare("asset"@),
        Word::Bare("90000000-0000-4000-8000-000000000001"@),
        Word::Bare("scene"@),
        Word::Bare("source"@),
        Word::Bare("1"@),
        Word::Quoted(portable),
        Word::Quoted("kairo.gltf.scene"@),
    ]
}

proof fn lemma_asset_row(portable: Seq<char>)
    ensures
        can_be_written(asset_row(portable)),
        imported_assets(portable) == "kairo-assets 1"@.push('\n') + row(asset_row(portable)).push(
            '\n',
        ) + "end"@.push('\n'),
{
    let words = asset_row(portable);
    let head = "kairo-assets 1\nasset 90000000-0000-4000-8000-000000000001 scene source 1 "@;
    let tail = " \"kairo.gltf.scene\"\nend\n"@;
    reveal_strlit("kairo-assets 1\nasset 90000000-0000-4000-8000-000000000001 scene source 1 ");
    reveal_strlit(" \"kairo.gltf.scene\"\nend\n");
    reveal_strlit("kairo-assets 1");
    reveal_strlit("end");
    reveal_strlit("asset");
    reveal_strlit("90000000-0000-4000-8000-000000000001");
    reveal_strlit("scene");
    reveal_strlit("source");
    reveal_strlit("1");
    reveal_strlit("kairo.gltf.scene");
    let start = "asset"@.push(' ') + ("90000000-0000-4000-8000-000000000001"@.push(' ') + (
    "scene"@.push(' ') + ("source"@.push(' ') + "1"@.push(' '))));
    let last = quoted("kairo.gltf.scene"@);
    lemma_plain_escape("kairo.gltf.scene"@);
    assert(row(words) =~= start + quoted(portable).push(' ') + last) by {
        let w1 = words.drop_first();
        let w2 = w1.drop_first();
        let w3 = w2.drop_first();
        let w4 = w3.drop_first();
        let w5 = w4.drop_first();
        let w6 = w5.drop_first();
        assert(row(w6) == last);
        assert(row(w5) == quoted(portable).push(' ') + row(w6));
        assert(row(w4) == "1"@.push(' ') + row(w5));
        assert(row(w3) == "source"@.push(' ') + row(w4));
        assert(row(w2) == "scene"@.push(' ') + row(w3));
        assert(row(w1) == "90000000-0000-4000-8000-000000000001"@.push(' ') + row(w2));
        assert(row(words) == "asset"@.push(' ') + row(w1));
    }
    assert(head =~= "kairo-assets 1"@.push('\n') + start);
    assert(tail =~= seq![' '] + last.push('\n') + "end"@.push('\n'));
    assert(imported_assets(portable) =~= "kairo-assets 1"@.push('\n') + row(words).push('\n')
        + "end"@.push('\n'));
}

/// A text without quotes and backslashes needs no escapes.
proof fn lemma_plain_escape(s: Seq<char>)
    requires
        forall|i: int| 0 <= i < s.len() ==> s[i] != '\\' && s[i] != '"',
    ensures
        escaped(s) == s,
    decreases s.len(),
{
    if s.len() > 0 {
        lemma_plain_escape(s.drop_last());
        assert(s.drop_last().push(s.last()) =~= s);
    }
}

/// Whatever the scene is called, the manifest names it: the asset line of the
/// manifest is read back with exactly the scene's portable path, quotes and
/// backslashes in it included. A path with a line break in it is the exception.
pub proof fn law_imported_scene_is_read_back(portable: Seq<char>)
    requires
        is_single_line(portable),
    ensures
        lines(imported_assets(portable)) == seq![
            "kairo-assets 1"@,
            row(asset_row(portable)),
            "end"@,
        ],
        tokens(lines(imported_assets(portable))[1], 2) == Ok::<_, Seq<char>>(
            seq![
                "asset"@,
                "90000000-0000-4000-8000-000000000001"@,
                "scene"@,
                "source"@,
                "1"@,
                portable,
                "kairo.gltf.scene"@,
            ],
        ),
{
    let words = asset_row(portable);
    let asset = row(words);
    lemma_asset_row(portable);
    lemma_asset_row_single_line(portable);
    let none = Seq::<char>::empty();
    assert("end"@.push('\n') + none =~= "end"@.push('\n'));
    assert(imported_assets(portable) =~= "kairo-assets 1"@.push('\n') + (asset.push('\n')
        + ("end"@.push('\n') + none)));
    lemma_lines_cons("end"@, none);
    lemma_lines_cons(asset, "end"@.push('\n') + none);
    lemma_lines_cons("kairo-assets 1"@, asset.push('\n') + ("end"@.push('\n') + none));
    assert(lines(none) =~= Seq::<Seq<char>>::empty());
    assert(lines(imported_assets(portable)) =~= seq!["kairo-assets 1"@, asset, "end"@]);
    law_written_row_is_read_back(words, 2);
    assert(words.map_values(|w: Word| word_text(w)) =~= seq![
        "asset"@,
        "90000000-0000-4000-8000-000000000001"@,
        "scene"@,
        "source"@,
        "1"@,
        portable,
        "kairo.gltf.scene"@,
    ]);
}

proof fn lemma_asset_row_single_line(portable: Seq<char>)
    requires
        is_single_line(portable),
    ensures
        is_single_line(row(asset_row(portable))),
        is_single_line("kairo-assets 1"@),
        is_single_line("end"@),
{
    let text = imported_assets(portable);
    let head = "kairo-assets 1\nasset 90000000-0000-4000-8000-000000000001 scene source 1 "@;
    let tail = " \"kairo.gltf.scene\"\nend\n"@;
    let asset = row(asset_row(portable));
    lemma_asset_row(portable);
    lemma_escaped_single_line(portable);
    reveal_strlit("kairo-assets 1\nasset 90000000-0000-4000-8000-000000000001 scene source 1 ");
    reveal_strlit(" \"kairo.gltf.scene\"\nend\n");
    reveal_strlit("kairo-assets 1");
    reveal_strlit("end");
    let q = quoted(portable);
    assert(text == head + q + tail);
    assert(tail.len() == 24);
    assert(text.len() == asset.len() + 20);
    assert(forall|j: int| 15 <= j < head.len() ==> head[j] != '\n' && head[j] != '\r');
    assert(forall|j: int| 0 <= j < 19 ==> tail[j] != '\n' && tail[j] != '\r');
    assert forall|i: int| 0 <= i < asset.len() implies asset[i] != '\n' && asset[i] != '\r' by {
        assert(text[15 + i] == asset[i]);
        if 15 + i < head.len() {
            assert(text[15 + i] == head[15 + i]);
        } else if 15 + i < head.len() + q.len() {
            let k = 15 + i - head.len();
            assert(text[15 + i] == q[k]);
            if 0 < k < q.len() - 1 {
                assert(q[k] == escaped(portable)[k - 1]);
                assert(escaped(portable).contains(q[k]));
            }
        } else {
            assert(text[15 + i] == tail[15 + i - head.len() - q.len()]);
        }
    }
}

} // verus!
