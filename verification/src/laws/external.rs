//! Imports: which scene is imported, and the project around it.
use vstd::prelude::*;


use crate::descriptor::{project_of, DescriptorView, ProfileView};
use crate::external::{
    ambiguous_message, chosen_scene, external_project_of, external_scene_fault, import_outcome_of,
    imported_assets, imported_project_of, law_imported_project_is_complete, portable_of,
    requested_scene, scene_place_fault, shown_scene, texts_or_error, ExternalView, ImportFacts,
    SceneFacts, IMPORTED_INPUT_MAP, IMPORTED_SCENE,
};
use crate::health::{health_of, ProjectFacts};
use crate::laws::path::{law_name_is_put_below, law_relative_paths};
use crate::laws::search::lemma_joined_names;
use crate::laws::text::law_split_parts_make_the_text;
use crate::listing::sorted_paths;
use crate::path::{
    components, extension_of, is_inside, is_name, join_of, leading, names, relative_path_fault,
};
use crate::search::EntryKind;
use crate::text::{
    ascii_lowercase, byte_length, decimal, is_blank, is_single_line, joined, split, trimmed,
};
use crate::token::quoted;

verus! {

/// A scene is imported by a relative path that ends in `.gltf` or `.glb`, in small
/// letters or capitals.
pub proof fn law_scene_paths(path: Seq<char>)
    ensures
        ({
            let scene = match extension_of(path) {
                Some(e) => ascii_lowercase(e) == "glb"@ || ascii_lowercase(e) == "gltf"@,
                None => false,
            };
            match external_scene_fault(path) {
                None => scene && relative_path_fault(path, seq![]) is None,
                Some(e) => if relative_path_fault(path, seq![]) is Some {
                    relative_path_fault(path, "external "@ + "scene"@) == Some(e)
                } else {
                    !scene && e == "External scene must have "@ + "a .gltf or .glb extension"@
                },
            }
        }),
{
    reveal_strlit("external ");
    reveal_strlit("scene");
    reveal_strlit("external scene");
    reveal_strlit("External scene must have ");
    reveal_strlit("a .gltf or .glb extension");
    reveal_strlit("External scene must have a .gltf or .glb extension");
    assert("external "@ + "scene"@ =~= "external scene"@);
    assert("External scene must have "@ + "a .gltf or .glb extension"@
        =~= "External scene must have a .gltf or .glb extension"@);
}

/// A path is portable just if it is relative and does not begin with `.`. It then
/// has the components that it had, with one `/` between them, and stays as it is.
pub proof fn law_portable_paths(path: Seq<char>)
    ensures
        match portable_of(path) {
            Ok(portable) => {
                &&& relative_path_fault(path, seq![]) is None
                &&& components(portable) == components(path)
                &&& portable == joined(components(path), seq!['/'])
                &&& forall|i: int|
                    0 <= i < components(path).len() ==> #[trigger] components(path)[i] != seq!['.']
                &&& portable_of(portable) == Ok::<_, Seq<char>>(portable)
            },
            Err(e) => if relative_path_fault(path, seq![]) is Some {
                relative_path_fault(path, "external "@ + "scene"@) == Some(e)
            } else {
                &&& components(path).len() == 0 || components(path)[0] == seq!['.']
                &&& components(path).len() > 0 ==> e == "External scene path contains "@
                    + "a non-normal component"@
            },
        },
{
    reveal_strlit("external ");
    reveal_strlit("scene");
    reveal_strlit("external scene");
    assert("external "@ + "scene"@ =~= "external scene"@);
    reveal_strlit("External scene path contains ");
    reveal_strlit("a non-normal component");
    reveal_strlit("External scene path contains a non-normal component");
    assert("External scene path contains "@ + "a non-normal component"@
        =~= "External scene path contains a non-normal component"@);
    reveal_strlit("/");
    assert("/"@ =~= seq!['/']);
    let all = components(path);
    law_split_parts_make_the_text(path, '/');
    assert forall|i: int| leading(path).len() <= i < all.len() implies !(
    #[trigger] all[i]).contains('/') && all[i].len() > 0 && all[i] != seq!['.'] by {
        let own = names(path);
        let at = i - leading(path).len();
        assert(all[i] == own[at]);
        assert(own.contains(own[at]));
        split(path, '/').lemma_filter_contains_rev(|name: Seq<char>| is_name(name), own[at]);
        split(path, '/').lemma_filter_pred(|name: Seq<char>| is_name(name), at);
        let k = choose|k: int| 0 <= k < split(path, '/').len() && split(path, '/')[k] == own[at];
        assert(!split(path, '/')[k].contains('/'));
    }
    match portable_of(path) {
        Ok(portable) => {
            assert forall|i: int| 0 <= i < all.len() implies #[trigger] all[i] != seq!['.'] by {
                assert(all.contains(all[i]));
            }
            if leading(path).len() > 0 {
                assert(all[0] == leading(path)[0]);
            }
            lemma_joined_names(all);
            lemma_relative_by_components(path, portable);
        },
        Err(_) => {
            if relative_path_fault(path, seq![]) is None && all.len() > 0 {
                let i = choose|i: int| 0 <= i < all.len() && all[i] == crate::path::dot();
                assert(i < leading(path).len());
            }
        },
    }
}

proof fn lemma_relative_by_components(a: Seq<char>, b: Seq<char>)
    requires
        relative_path_fault(a, "external scene"@) is None,
        components(a) == components(b),
        b.len() > 0,
    ensures
        relative_path_fault(b, "external scene"@) is None,
{
    law_relative_paths(a, "external scene"@);
    law_relative_paths(b, "external scene"@);
    crate::laws::path::law_paths_are_their_components(a, b);
    crate::laws::path::law_paths_are_their_components(b, a);
}

/// A scene is asked for just if a text is given that is not blank; it is the text
/// without the white space around it.
pub proof fn law_requested_scene(requested: Option<Seq<char>>)
    ensures
        requested is None ==> requested_scene(requested) is None,
        requested matches Some(text) ==> requested_scene(requested) == if trimmed(text).len() == 0 {
            None
        } else {
            Some(trimmed(text))
        },
{
}

/// A scene that was asked for is taken, whatever was found, if it can be imported
/// by its path. Else the only one that was found is; where there is none or more
/// than one, the message says so.
pub proof fn law_scene_is_chosen(
    requested: Option<Seq<char>>,
    candidates: Result<Seq<Seq<char>>, Seq<char>>,
)
    ensures
        match requested_scene(requested) {
            Some(path) => chosen_scene(requested, candidates) == match external_scene_fault(path) {
                Some(e) => Err::<Seq<char>, _>(e),
                None => Ok::<_, Seq<char>>(path),
            },
            None => match candidates {
                Err(e) => chosen_scene(requested, candidates) == Err::<Seq<char>, _>(e),
                Ok(list) => {
                    &&& list.len() == 1 ==> chosen_scene(requested, candidates) == Ok::<
                        _,
                        Seq<char>,
                    >(list[0])
                    &&& list.len() == 0 ==> chosen_scene(requested, candidates) == Err::<
                        Seq<char>,
                        _,
                    >(
                        "External repository contains no .gltf or .glb scene. "@
                            + "Kairo's external importer v1 supports "@
                            + "glTF/GLB content repositories only."@,
                    )
                    &&& list.len() > 1 ==> chosen_scene(requested, candidates) == Err::<
                        Seq<char>,
                        _,
                    >(ambiguous_message(sorted_paths(list)))
                },
            },
        },
{
    reveal_strlit("External repository contains no .gltf or .glb scene. ");
    reveal_strlit("Kairo's external importer v1 supports ");
    reveal_strlit("glTF/GLB content repositories only.");
    reveal_strlit(
        "External repository contains no .gltf or .glb scene. Kairo's external importer v1 supports glTF/GLB content repositories only.",
    );
    assert("External repository contains no .gltf or .glb scene. "@
        + "Kairo's external importer v1 supports "@ + "glTF/GLB content repositories only."@
        =~= "External repository contains no .gltf or .glb scene. Kairo's external importer v1 supports glTF/GLB content repositories only."@);
}

/// The message for more than one scene tells how many there are and names them in
/// their order, but no more than eight; where there are more, it says so.
pub proof fn law_ambiguous_scenes(sorted: Seq<Seq<char>>)
    ensures
        ({
            let begin = "External repository contains "@ + decimal(sorted.len())
                + " glTF/GLB scenes. "@ + "Specify the entry scene explicitly. Candidates: "@;
            let all = Seq::new(sorted.len(), |i: int| shown_scene(sorted[i]));
            &&& sorted.len() <= 8 ==> ambiguous_message(sorted) == begin + joined(all, ", "@)
            &&& sorted.len() > 8 ==> ambiguous_message(sorted) == begin + joined(
                all.subrange(0, 8),
                ", "@,
            ) + ", "@ + "..."@
        }),
        forall|path: Seq<char>| #[trigger]
            shown_scene(path) == match portable_of(path) {
                Ok(portable) => portable,
                Err(_) => path,
            },
{
    reveal_strlit(" glTF/GLB scenes. ");
    reveal_strlit("Specify the entry scene explicitly. Candidates: ");
    reveal_strlit(" glTF/GLB scenes. Specify the entry scene explicitly. Candidates: ");
    reveal_strlit(", ");
    reveal_strlit("...");
    reveal_strlit(", ...");
    reveal_strlit("");
    let count = "External repository contains "@ + decimal(sorted.len());
    let begin = count + " glTF/GLB scenes. Specify the entry scene explicitly. Candidates: "@;
    assert(count + " glTF/GLB scenes. "@ + "Specify the entry scene explicitly. Candidates: "@
        =~= begin);
    let all = Seq::new(sorted.len(), |i: int| shown_scene(sorted[i]));
    if sorted.len() <= 8 {
        assert(crate::external::shown_scenes(sorted) =~= all);
        assert(ambiguous_message(sorted) =~= begin + joined(all, ", "@));
    } else {
        assert(crate::external::shown_scenes(sorted.take(8)) =~= all.subrange(0, 8));
        assert(ambiguous_message(sorted) =~= begin + joined(all.subrange(0, 8), ", "@) + ", "@
            + "..."@);
    }
}

/// A scene is imported from where it stands just if it is a regular file, no
/// symbolic link, and resolves to a place inside the resolved repository.
pub proof fn law_scene_stands_inside(relative: Seq<char>, facts: SceneFacts)
    ensures
        match scene_place_fault(relative, facts) {
            None => {
                &&& facts.entry == Ok::<_, String>(EntryKind::RegularFile)
                &&& facts.root is Ok && facts.scene is Ok
                &&& is_inside(facts.scene->Ok_0@, facts.root->Ok_0@)
            },
            Some(e) => match facts.entry {
                Err(error) => e == "Cannot inspect "@ + "external scene "@ + relative + ": "@
                    + error@,
                Ok(kind) => if kind is SymbolicLink || kind is Directory || kind is Other {
                    e == "External scene must be "@ + "a regular non-symlink file"@
                } else if facts.root is Err {
                    e == "Cannot resolve "@ + "external repository root: "@ + facts.root->Err_0@
                } else if facts.scene is Err {
                    e == "Cannot resolve "@ + "external scene: "@ + facts.scene->Err_0@
                } else {
                    &&& !is_inside(facts.scene->Ok_0@, facts.root->Ok_0@)
                    &&& e == "External scene resolves outside "@ + "the cloned repository"@
                },
            },
        },
{
    reveal_strlit("Cannot inspect ");
    reveal_strlit("external scene ");
    reveal_strlit("Cannot inspect external scene ");
    reveal_strlit("External scene must be ");
    reveal_strlit("a regular non-symlink file");
    reveal_strlit("External scene must be a regular non-symlink file");
    reveal_strlit("Cannot resolve ");
    reveal_strlit("external repository root: ");
    reveal_strlit("Cannot resolve external repository root: ");
    reveal_strlit("external scene: ");
    reveal_strlit("Cannot resolve external scene: ");
    reveal_strlit("External scene resolves outside ");
    reveal_strlit("the cloned repository");
    reveal_strlit("External scene resolves outside the cloned repository");
    assert("Cannot inspect "@ + "external scene "@ =~= "Cannot inspect external scene "@);
    assert("External scene must be "@ + "a regular non-symlink file"@
        =~= "External scene must be a regular non-symlink file"@);
    assert("Cannot resolve "@ + "external repository root: "@
        =~= "Cannot resolve external repository root: "@);
    assert("Cannot resolve "@ + "external scene: "@ =~= "Cannot resolve external scene: "@);
    assert("External scene resolves outside "@ + "the cloned repository"@
        =~= "External scene resolves outside the cloned repository"@);
}

/// Something is imported just from a directory that is no symbolic link. The scene
/// that was chosen is imported, if it stands where it can be imported from.
pub proof fn law_import_goes_step_by_step(
    root: Seq<char>,
    facts: ImportFacts,
    entry_scene: Option<Seq<char>>,
    display_name: Seq<char>,
    engine_version: Seq<char>,
)
    ensures
        ({
            let candidates = texts_or_error(facts.candidates);
            let chosen = chosen_scene(entry_scene, candidates);
            let result = imported_project_of(
                root,
                facts,
                entry_scene,
                display_name,
                engine_version,
            );
            if !facts.directory {
                result == Err::<ExternalView, _>(
                    "External import root is "@ + "not a directory: "@ + root,
                )
            } else if facts.symbolic_link is Err {
                result == Err::<ExternalView, _>(
                    "Cannot inspect "@ + "external import root: "@ + facts.symbolic_link->Err_0@,
                )
            } else if facts.symbolic_link->Ok_0 {
                result == Err::<ExternalView, _>(
                    "External import root cannot be "@ + "a symbolic link"@,
                )
            } else {
                match chosen {
                    Err(e) => result == Err::<ExternalView, _>(e),
                    Ok(scene) => match scene_place_fault(scene, facts.scene) {
                        Some(e) => result == Err::<ExternalView, _>(e),
                        None => result == external_project_of(
                            root,
                            scene,
                            display_name,
                            engine_version,
                        ),
                    },
                }
            }
        }),
{
    reveal_strlit("External import root is ");
    reveal_strlit("not a directory: ");
    reveal_strlit("External import root is not a directory: ");
    reveal_strlit("Cannot inspect ");
    reveal_strlit("external import root: ");
    reveal_strlit("Cannot inspect external import root: ");
    reveal_strlit("External import root cannot be ");
    reveal_strlit("a symbolic link");
    reveal_strlit("External import root cannot be a symbolic link");
    assert("External import root is "@ + "not a directory: "@
        =~= "External import root is not a directory: "@);
    assert("Cannot inspect "@ + "external import root: "@
        =~= "Cannot inspect external import root: "@);
    assert("External import root cannot be "@ + "a symbolic link"@
        =~= "External import root cannot be a symbolic link"@);
}

/// A project is made around a scene just if the scene's path, the name and the
/// version are in order. Else the first of these is the reason.
pub proof fn law_imported_project_needs(
    root: Seq<char>,
    scene: Seq<char>,
    name: Seq<char>,
    version: Seq<char>,
)
    ensures
        match external_project_of(root, scene, name, version) {
            Ok(_) => {
                &&& external_scene_fault(scene) is None && portable_of(scene) is Ok
                &&& !is_blank(name) && is_single_line(name)
                &&& !is_blank(version) && is_single_line(version)
            },
            Err(e) => if external_scene_fault(scene) is Some {
                external_scene_fault(scene) == Some(e)
            } else if is_blank(name) || !is_single_line(name) {
                e == "Imported project display name must be "@ + "non-empty and single-line"@
            } else if is_blank(version) || !is_single_line(version) {
                e == "Imported project engine version must be "@ + "non-empty and single-line"@
            } else {
                portable_of(scene) == Err::<Seq<char>, _>(e)
            },
        },
{
    reveal_strlit("Imported project display name must be ");
    reveal_strlit("Imported project engine version must be ");
    reveal_strlit("non-empty and single-line");
    reveal_strlit("Imported project display name must be non-empty and single-line");
    reveal_strlit("Imported project engine version must be non-empty and single-line");
    assert("Imported project display name must be "@ + "non-empty and single-line"@
        =~= "Imported project display name must be non-empty and single-line"@);
    assert("Imported project engine version must be "@ + "non-empty and single-line"@
        =~= "Imported project engine version must be non-empty and single-line"@);
}

proof fn lemma_import_names()
    ensures
        !".kairo"@.contains('/') && ".kairo"@.len() == 6,
        !"Scenes"@.contains('/') && "Scenes"@.len() == 6,
        !"Config"@.contains('/') && "Config"@.len() == 6,
        !"Assets.kassets"@.contains('/') && "Assets.kassets"@.len() == 14,
        !"Imported.kscene"@.contains('/') && "Imported.kscene"@.len() == 15,
        !"Input.kinput"@.contains('/') && "Input.kinput"@.len() == 12,
        !"KairoImported.kproject"@.contains('/') && "KairoImported.kproject"@.len() == 22,
{
    reveal_strlit(".kairo");
    reveal_strlit("Scenes");
    reveal_strlit("Config");
    reveal_strlit("Assets.kassets");
    reveal_strlit("Imported.kscene");
    reveal_strlit("Input.kinput");
    reveal_strlit("KairoImported.kproject");
}

/// An imported project lies in the imported directory: the descriptor
/// `KairoImported.kproject` in it, and the rest in `.kairo`, which gets directories
/// for scenes and configuration. None of its files may be there before.
pub proof fn law_imported_project_layout(
    root: Seq<char>,
    scene: Seq<char>,
    name: Seq<char>,
    version: Seq<char>,
)
    requires
        root.len() > 0,
        external_project_of(root, scene, name, version) is Ok,
    ensures
        ({
            let p = external_project_of(root, scene, name, version)->Ok_0;
            let kairo = components(root).push(".kairo"@);
            &&& p.directories.len() == 2 && p.files.len() == 4 && p.guarded.len() == 4
            &&& components(p.directories[0]) == kairo.push("Scenes"@)
            &&& components(p.directories[1]) == kairo.push("Config"@)
            &&& components(p.files[0].path) == kairo.push("Assets.kassets"@)
            &&& components(p.files[1].path) == kairo.push("Scenes"@).push("Imported.kscene"@)
            &&& components(p.files[2].path) == kairo.push("Config"@).push("Input.kinput"@)
            &&& components(p.files[3].path) == components(root).push("KairoImported.kproject"@)
            &&& p.project == p.files[3].path
            &&& p.guarded[0] == p.files[3].path
            &&& p.guarded[1] == p.files[0].path
            &&& p.guarded[2] == p.files[1].path
            &&& p.guarded[3] == p.files[2].path
            &&& p.files[0].contents == imported_assets(portable_of(scene)->Ok_0)
            &&& p.files[1].contents == IMPORTED_SCENE@
            &&& p.files[2].contents == IMPORTED_INPUT_MAP@
        }),
{
    let p = external_project_of(root, scene, name, version)->Ok_0;
    lemma_import_names();
    law_name_is_put_below(root, ".kairo"@);
    law_name_is_put_below(root, "KairoImported.kproject"@);
    let kairo = join_of(root, ".kairo"@);
    law_name_is_put_below(kairo, "Scenes"@);
    law_name_is_put_below(kairo, "Config"@);
    law_name_is_put_below(kairo, "Assets.kassets"@);
    law_name_is_put_below(join_of(kairo, "Scenes"@), "Imported.kscene"@);
    law_name_is_put_below(join_of(kairo, "Config"@), "Input.kinput"@);
}

/// The descriptor of an imported project reads back with the trimmed name and
/// version and the files of the layout.
pub proof fn law_imported_descriptor_reads_back(
    root: Seq<char>,
    scene: Seq<char>,
    name: Seq<char>,
    version: Seq<char>,
)
    requires
        external_project_of(root, scene, name, version) is Ok,
        byte_length(external_project_of(root, scene, name, version)->Ok_0.files[3].contents)
            <= 1_048_576,
    ensures
        project_of(external_project_of(root, scene, name, version)->Ok_0.files[3].contents) == Ok::<
            _,
            Seq<char>,
        >(
            DescriptorView {
                name: trimmed(name),
                asset_manifest: ".kairo/"@ + "Assets.kassets"@,
                startup_scene: ".kairo/"@ + "Scenes/Imported.kscene"@,
                engine_version: trimmed(version),
                input_map: ".kairo/"@ + "Config/Input.kinput"@,
                rendering_profile: "desktop"@,
                graphics_backend: "auto"@,
                runtime_executable: None,
                enabled_plugins: seq![],
                build_profiles: seq![
                    ProfileView {
                        name: "Development"@,
                        kind: "development"@,
                        output_directory: "Build/Development"@,
                    },
                    ProfileView {
                        name: "Release"@,
                        kind: "release"@,
                        output_directory: "Build/Release"@,
                    },
                ],
            },
        ),
{
    reveal_strlit(".kairo/");
    reveal_strlit("Assets.kassets");
    reveal_strlit("Scenes/Imported.kscene");
    reveal_strlit("Config/Input.kinput");
    reveal_strlit(".kairo/Assets.kassets");
    reveal_strlit(".kairo/Scenes/Imported.kscene");
    reveal_strlit(".kairo/Config/Input.kinput");
    assert(".kairo/"@ + "Assets.kassets"@ =~= ".kairo/Assets.kassets"@);
    assert(".kairo/"@ + "Scenes/Imported.kscene"@ =~= ".kairo/Scenes/Imported.kscene"@);
    assert(".kairo/"@ + "Config/Input.kinput"@ =~= ".kairo/Config/Input.kinput"@);
    law_imported_project_is_complete(root, scene, name, version);
}

/// The assets of an imported project are the scene alone, by its portable path;
/// its input map has one action.
pub proof fn law_imported_texts(portable: Seq<char>)
    ensures
        imported_assets(portable) == "kairo-assets 1\n"@
            + "asset 90000000-0000-4000-8000-000000000001 "@ + "scene source 1 "@ + quoted(portable)
            + " \"kairo.gltf.scene\"\n"@ + "end\n"@,
        IMPORTED_INPUT_MAP@ == "kairo-input 1\n"@ + "action \"Quit\" button\n"@
            + "bind \"Quit\" key Escape 1 0 0\n"@,
{
    reveal_strlit("kairo-assets 1\n");
    reveal_strlit("asset 90000000-0000-4000-8000-000000000001 ");
    reveal_strlit("scene source 1 ");
    reveal_strlit("kairo-assets 1\nasset 90000000-0000-4000-8000-000000000001 scene source 1 ");
    reveal_strlit(" \"kairo.gltf.scene\"\n");
    reveal_strlit("end\n");
    reveal_strlit(" \"kairo.gltf.scene\"\nend\n");
    reveal_strlit("kairo-input 1\n");
    reveal_strlit("action \"Quit\" button\n");
    reveal_strlit("bind \"Quit\" key Escape 1 0 0\n");
    reveal_strlit("kairo-input 1\naction \"Quit\" button\nbind \"Quit\" key Escape 1 0 0\n");
    let head = "kairo-assets 1\n"@ + "asset 90000000-0000-4000-8000-000000000001 "@
        + "scene source 1 "@;
    assert(head
        =~= "kairo-assets 1\nasset 90000000-0000-4000-8000-000000000001 scene source 1 "@);
    let before = head + quoted(portable);
    assert(before + " \"kairo.gltf.scene\"\n"@ + "end\n"@ =~= before
        + " \"kairo.gltf.scene\"\nend\n"@);
    assert(IMPORTED_INPUT_MAP@ =~= "kairo-input 1\n"@ + "action \"Quit\" button\n"@
        + "bind \"Quit\" key Escape 1 0 0\n"@);
}

/// The scene of an imported project shows the imported asset as it is, from a
/// camera, in the light of a sun, in a world with an environment.
#[verifier::rlimit(100)]
#[verifier::spinoff_prover]
pub proof fn law_imported_scene_text()
    ensures
        IMPORTED_SCENE@ == "kairo-scene 4\n"@
            + "entity 1 \"Imported Scene\"\n"@
            + "enabled true\n"@
            + "layer 0\n"@
            + "transform 0 0 0 0 0 0 1 1 1 1\n"@
            + "scene-instance 90000000-0000-4000-8000-000000000001 true true true 18446744073709551615\n"@
            + "end\n"@
            + "entity 2 \"Main Camera\"\n"@
            + "enabled true\n"@
            + "layer 0\n"@
            + "transform 0 2.5 6 0 0 0 1 1 1 1\n"@
            + "camera perspective 0.87266463 10 0.1 500 0 true environment 0.02 0.025 0.035 1 18446744073709551615\n"@
            + "end\n"@
            + "entity 3 \"Sun\"\n"@
            + "enabled true\n"@
            + "layer 0\n"@
            + "transform 0 5 3 -0.38268343 0 0 0.9238795 1 1 1\n"@
            + "light directional 1 0.95 0.85 60000 lux 100 0.34906585 0.52359878 1 1 soft 0.001 0.01 18446744073709551615\n"@
            + "end\n"@
            + "entity 4 \"World\"\n"@
            + "enabled true\n"@
            + "layer 0\n"@
            + "transform 0 0 0 0 0 0 1 1 1 1\n"@
            + "environment true 10 0.02 0.03 0.05 none 0.12 1 disabled 0.5 0.5 0.5 0.01 0 1000 0 aces global\n"@
            + "end\n"@,
{
    reveal_strlit("kairo-scene 4\n");
    reveal_strlit("entity 1 \"Imported Scene\"\n");
    reveal_strlit("enabled true\n");
    reveal_strlit("layer 0\n");
    reveal_strlit("transform 0 0 0 0 0 0 1 1 1 1\n");
    reveal_strlit("scene-instance 90000000-0000-4000-8000-000000000001 true true true 18446744073709551615\n");
    reveal_strlit("end\n");
    reveal_strlit("entity 2 \"Main Camera\"\n");
    reveal_strlit("transform 0 2.5 6 0 0 0 1 1 1 1\n");
    reveal_strlit("camera perspective 0.87266463 10 0.1 500 0 true environment 0.02 0.025 0.035 1 18446744073709551615\n");
    reveal_strlit("entity 3 \"Sun\"\n");
    reveal_strlit("transform 0 5 3 -0.38268343 0 0 0.9238795 1 1 1\n");
    reveal_strlit("light directional 1 0.95 0.85 60000 lux 100 0.34906585 0.52359878 1 1 soft 0.001 0.01 18446744073709551615\n");
    reveal_strlit("entity 4 \"World\"\n");
    reveal_strlit("environment true 10 0.02 0.03 0.05 none 0.12 1 disabled 0.5 0.5 0.5 0.01 0 1000 0 aces global\n");
    reveal_strlit(
        "kairo-scene 4\nentity 1 \"Imported Scene\"\nenabled true\nlayer 0\ntransform 0 0 0 0 0 0 1 1 1 1\nscene-instance 90000000-0000-4000-8000-000000000001 true true true 18446744073709551615\nend\nentity 2 \"Main Camera\"\nenabled true\nlayer 0\ntransform 0 2.5 6 0 0 0 1 1 1 1\ncamera perspective 0.87266463 10 0.1 500 0 true environment 0.02 0.025 0.035 1 18446744073709551615\nend\nentity 3 \"Sun\"\nenabled true\nlayer 0\ntransform 0 5 3 -0.38268343 0 0 0.9238795 1 1 1\nlight directional 1 0.95 0.85 60000 lux 100 0.34906585 0.52359878 1 1 soft 0.001 0.01 18446744073709551615\nend\nentity 4 \"World\"\nenabled true\nlayer 0\ntransform 0 0 0 0 0 0 1 1 1 1\nenvironment true 10 0.02 0.03 0.05 none 0.12 1 disabled 0.5 0.5 0.5 0.01 0 1000 0 aces global\nend\n",
    );
    assert(IMPORTED_SCENE@ =~= "kairo-scene 4\n"@
            + "entity 1 \"Imported Scene\"\n"@
            + "enabled true\n"@
            + "layer 0\n"@
            + "transform 0 0 0 0 0 0 1 1 1 1\n"@
            + "scene-instance 90000000-0000-4000-8000-000000000001 true true true 18446744073709551615\n"@
            + "end\n"@
            + "entity 2 \"Main Camera\"\n"@
            + "enabled true\n"@
            + "layer 0\n"@
            + "transform 0 2.5 6 0 0 0 1 1 1 1\n"@
            + "camera perspective 0.87266463 10 0.1 500 0 true environment 0.02 0.025 0.035 1 18446744073709551615\n"@
            + "end\n"@
            + "entity 3 \"Sun\"\n"@
            + "enabled true\n"@
            + "layer 0\n"@
            + "transform 0 5 3 -0.38268343 0 0 0.9238795 1 1 1\n"@
            + "light directional 1 0.95 0.85 60000 lux 100 0.34906585 0.52359878 1 1 soft 0.001 0.01 18446744073709551615\n"@
            + "end\n"@
            + "entity 4 \"World\"\n"@
            + "enabled true\n"@
            + "layer 0\n"@
            + "transform 0 0 0 0 0 0 1 1 1 1\n"@
            + "environment true 10 0.02 0.03 0.05 none 0.12 1 disabled 0.5 0.5 0.5 0.01 0 1000 0 aces global\n"@
            + "end\n"@);
}

/// An import that was written comes to its project just if that has no errors and
/// a descriptor.
pub proof fn law_import_comes_to_a_valid_project(project: Seq<char>, facts: ProjectFacts)
    ensures
        ({
            let h = health_of(project, facts);
            import_outcome_of(project, facts) == if h.errors.len() == 0 && h.descriptor is Some {
                Ok::<_, Seq<char>>(project)
            } else {
                Err::<Seq<char>, _>("Project import "@ + "failed: "@ + joined(h.errors, "; "@))
            }
        }),
{
    crate::laws::health::law_import_needs_a_valid_project(project, facts);
}

} // verus!
