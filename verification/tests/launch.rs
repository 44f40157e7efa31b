use kairo_hub::descriptor::parse_project;
use kairo_hub::engine::EngineInstallation;
use kairo_hub::external::{
    check_scene_place, choose_scene, import_external_gltf_directory, parse_import_arguments,
    portable_relative_path, resolve_external_scene, validate_external_scene_path, ImportFacts,
    SceneFacts,
};
use kairo_hub::health::{FileMetadata, ProjectFacts, ProjectHealth, RequiredFile};
use kairo_hub::launch::{
    editor_launch_failure, launch_editor_with, launch_player_with, packaging_failure,
    plan_packaging, player_launch_failure, select_editor, validate_player_operation,
    validate_project_engine_version, PackageArtifact, RuntimeFacts, ToolFacts,
};
use kairo_hub::process::{bounded_process_diagnostics, ProcessStatus};
use kairo_hub::recovery::RecoverySnapshotInfo;
use kairo_hub::search::{EntryKind, Request, Search, SearchKind};

const PROJECT: &str = "/p/Game.kproject";

fn present() -> RequiredFile {
    RequiredFile {
        regular_file: true,
        root: Some("/p".to_string()),
        resolved: Ok("/p/x".to_string()),
    }
}

fn facts() -> ProjectFacts {
    ProjectFacts {
        metadata: Ok(FileMetadata {
            symbolic_link: false,
            regular_file: true,
            bytes: 10,
        }),
        source: Ok("kairo-project 1\nname G\nassets A\nstartup-scene S\n".to_string()),
        asset_manifest: present(),
        startup_scene: present(),
        input_map: present(),
        under_git: true,
    }
}

fn engine() -> EngineInstallation {
    EngineInstallation {
        root: "/e".to_string(),
        version: "0.1.0".to_string(),
        editor: "/e/editor".to_string(),
        editor_available: true,
        project_compiler: "/e/compiler".to_string(),
        project_compiler_available: true,
        player: "/e/player".to_string(),
        player_available: true,
    }
}

fn snapshot(errors: Vec<String>) -> Option<RecoverySnapshotInfo> {
    Some(RecoverySnapshotInfo {
        directory: "/p/.kairo/recovery/snapshot-1".to_string(),
        created_unix_milliseconds: 1,
        active_scene: "S".to_string(),
        file_count: 3,
        dirty_file_count: 0,
        text_draft_count: 0,
        errors,
    })
}

fn scene_facts() -> SceneFacts {
    SceneFacts {
        entry: Ok(EntryKind::RegularFile),
        root: Ok("/r".to_string()),
        scene: Ok("/r/a.glb".to_string()),
    }
}

#[test]
fn the_editor_is_launched_on_a_valid_project() {
    let editor = Ok("/e/editor".to_string());
    let command = launch_editor_with(PROJECT, &facts(), &editor, &None).unwrap();
    assert_eq!(command.program, "/e/editor");
    assert_eq!(
        command.arguments,
        vec!["--project", PROJECT, "--no-layout-persistence"]
    );
    assert_eq!(command.directory, None);
    assert_eq!(command.environment, None);
    let recovered = launch_editor_with(PROJECT, &facts(), &editor, &snapshot(vec![])).unwrap();
    assert_eq!(
        recovered.arguments,
        vec!["--project", PROJECT, "--recovery-snapshot", "/p/.kairo/recovery/snapshot-1"]
    );
    let damaged = snapshot(vec!["one".to_string(), "two".to_string()]);
    assert_eq!(
        launch_editor_with(PROJECT, &facts(), &editor, &damaged).unwrap_err(),
        "Recovery snapshot validation failed: one; two"
    );
    let none = Err("not found".to_string());
    assert_eq!(
        launch_editor_with(PROJECT, &facts(), &none, &None).unwrap_err(),
        "not found"
    );
    let mut broken = facts();
    broken.startup_scene.regular_file = false;
    broken.input_map.regular_file = false;
    let message = "Project validation failed: Missing startup scene: S; Missing input map: Config/Input.kinput";
    assert_eq!(
        launch_editor_with(PROJECT, &broken, &none, &damaged).unwrap_err(),
        message
    );
    assert_eq!(editor_launch_failure("x"), "Cannot launch KairoEditor: x");
}

#[test]
fn the_selected_editor_must_exist() {
    let chosen = Some("/my/editor".to_string());
    let discovered = Ok("/found".to_string());
    assert_eq!(select_editor(&chosen, true, &discovered).unwrap(), "/my/editor");
    assert_eq!(
        select_editor(&chosen, false, &discovered).unwrap_err(),
        "Selected KairoEditor build is missing: /my/editor"
    );
    assert_eq!(select_editor(&None, true, &discovered).unwrap(), "/found");
    assert_eq!(
        select_editor(&None, true, &Err("none".to_string())).unwrap_err(),
        "none"
    );
}

#[test]
fn the_player_needs_its_tools() {
    let tools = |player: bool, project_compiler: bool| ToolFacts {
        player,
        project_compiler,
    };
    let check = |engine: &EngineInstallation, player: bool, compiler: bool| {
        validate_player_operation(PROJECT, &facts(), engine, &tools(player, compiler))
    };
    assert!(check(&engine(), true, true).unwrap().is_valid());
    let missing_player = "Selected KairoPlayer build is missing: /e/player";
    let missing_compiler = "Selected KairoProjectCompiler build is missing: /e/compiler";
    assert_eq!(check(&engine(), false, false).unwrap_err(), missing_player);
    assert_eq!(check(&engine(), true, false).unwrap_err(), missing_compiler);
    let mut without = engine();
    without.player_available = false;
    assert_eq!(check(&without, true, true).unwrap_err(), missing_player);
    let mut without = engine();
    without.project_compiler_available = false;
    assert_eq!(check(&without, true, true).unwrap_err(), missing_compiler);
    let mut other = engine();
    other.version = "9.0.0".to_string();
    assert_eq!(
        check(&other, true, true).unwrap_err(),
        "Project requires Kairo 0.1.0, but selected installation is Kairo 9.0.0"
    );
    let unread = ProjectHealth {
        descriptor_path: PROJECT.to_string(),
        descriptor: None,
        errors: vec![],
        warnings: vec![],
    };
    assert!(!unread.is_valid());
    assert_eq!(
        validate_project_engine_version(&unread, &engine()).unwrap_err(),
        "Project descriptor is unavailable after validation"
    );
    let runtime = RuntimeFacts {
        resolved: Err(String::new()),
        root: Err(String::new()),
        regular_file: false,
    };
    let compiled = Ok(ProcessStatus {
        success: true,
        text: String::new(),
    });
    let command = launch_player_with(
        "Game.kproject",
        &facts(),
        &engine(),
        &tools(true, true),
        &compiled,
        &runtime,
    )
    .unwrap();
    assert_eq!(command.directory, Some(String::new()));
    assert_eq!(
        player_launch_failure("/e/player", "x"),
        "Cannot launch project runtime /e/player: x"
    );
}

#[test]
fn packaging_is_planned_behind_the_compiler() {
    let tools = |player: bool| ToolFacts {
        player,
        project_compiler: true,
    };
    let ended = |success: bool| {
        Ok(ProcessStatus {
            success,
            text: "exit status: 7".to_string(),
        })
    };
    let plan = |name: &str, replace: bool, player: bool, compiled: &Result<ProcessStatus, String>| {
        plan_packaging(PROJECT, &facts(), name, replace, &engine(), &tools(player), compiled)
    };
    let command = plan("Release", false, true, &ended(true)).unwrap();
    assert_eq!(command.program, "/e/player");
    assert_eq!(command.arguments, vec![PROJECT, "--package", "Release"]);
    assert_eq!(command.directory, None);
    assert_eq!(
        plan("Release", true, true, &ended(true)).unwrap().arguments,
        vec![PROJECT, "--package", "Release", "--replace"]
    );
    // The player's fault comes before the profile's, and that before the compiler's.
    assert_eq!(
        plan("Shipping", true, false, &ended(false)).unwrap_err(),
        "Selected KairoPlayer build is missing: /e/player"
    );
    assert_eq!(
        plan("Shipping", true, true, &ended(false)).unwrap_err(),
        "Unknown project build profile: Shipping"
    );
    assert_eq!(
        plan("Release", true, true, &ended(false)).unwrap_err(),
        "Project logic build failed with status exit status: 7. Fix compiler diagnostics before running."
    );
    assert_eq!(
        plan("Release", true, true, &Err("denied".to_string())).unwrap_err(),
        "Cannot run KairoProjectCompiler: denied"
    );
    let mut broken = facts();
    broken.startup_scene.regular_file = false;
    assert_eq!(
        plan_packaging(PROJECT, &broken, "Release", true, &engine(), &tools(true), &ended(true))
            .unwrap_err(),
        "Project validation failed: Missing startup scene: S"
    );
}

#[test]
fn a_project_with_its_own_runtime_needs_the_player_too() {
    let mut own = facts();
    own.source = Ok("kairo-project 2\nname G\nassets A\nstartup-scene S\nengine-version 0.1.0\ninput-map I\nrendering-profile desktop\nruntime-executable Build/Game\nbuild-profile R release Out\n".to_string());
    let tools = |player: bool| ToolFacts {
        player,
        project_compiler: true,
    };
    assert!(validate_player_operation(PROJECT, &own, &engine(), &tools(true)).is_ok());
    let missing = "Selected KairoPlayer build is missing: /e/player";
    assert_eq!(
        validate_player_operation(PROJECT, &own, &engine(), &tools(false)).unwrap_err(),
        missing
    );
    let mut without = engine();
    without.player_available = false;
    assert_eq!(
        validate_player_operation(PROJECT, &own, &without, &tools(true)).unwrap_err(),
        missing
    );
}

#[test]
fn diagnostics_of_any_bytes_are_bounded() {
    for bytes in [vec![0xffu8; 10000], vec![0xe2u8, 0x82].repeat(6000)] {
        let text = bounded_process_diagnostics(&bytes);
        assert!(text.chars().count() <= 8192);
        assert_eq!(text.trim(), text);
        assert_eq!(text, bounded_process_diagnostics(&bytes[..8192]));
    }
    assert_eq!(bounded_process_diagnostics(&[0xff; 10000]).chars().count(), 8192);
    // The cut falls inside a character of two bytes.
    let mut split = vec![b'x'; 8191];
    split.extend_from_slice("\u{e9}".as_bytes());
    let text = bounded_process_diagnostics(&split);
    assert_eq!(text.chars().count(), 8192);
    assert_eq!(text.chars().last(), Some('\u{fffd}'));
}

#[test]
fn diagnostics_are_bounded_and_trimmed() {
    assert_eq!(bounded_process_diagnostics(b"  text \n"), "text");
    assert_eq!(bounded_process_diagnostics("caf\u{e9}".as_bytes()), "caf\u{e9}");
    assert_eq!(bounded_process_diagnostics(b"a\xff"), "a\u{fffd}");
    assert_eq!(bounded_process_diagnostics(&[b'x'; 10000]).len(), 8192);
    assert_eq!(
        packaging_failure("s", "err", "out"),
        "KairoPlayer package operation failed with status s: err"
    );
    assert_eq!(
        packaging_failure("s", "", "out"),
        "KairoPlayer package operation failed with status s: out"
    );
    assert_eq!(
        packaging_failure("s", "", ""),
        "KairoPlayer package operation failed with status s"
    );
}

#[test]
fn scenes_are_checked_and_chosen() {
    for good in ["a.glb", "x/y.GLTF", "./a.Glb"] {
        assert!(validate_external_scene_path(good).is_ok(), "{good}");
    }
    for bad in ["a", "a.fbx", ".glb", "a.glb.bak"] {
        assert_eq!(
            validate_external_scene_path(bad).unwrap_err(),
            "External scene must have a .gltf or .glb extension",
            "{bad}"
        );
    }
    assert_eq!(portable_relative_path("a//b/./c.glb").unwrap(), "a/b/c.glb");
    assert_eq!(
        portable_relative_path("./a.glb").unwrap_err(),
        "External scene path contains a non-normal component"
    );
    assert_eq!(
        choose_scene(&None, &Ok(vec![])).unwrap_err(),
        "External repository contains no .gltf or .glb scene. Kairo's external importer v1 supports glTF/GLB content repositories only."
    );
    assert_eq!(
        choose_scene(&Some(" ".to_string()), &Ok(vec!["a.glb".to_string()])).unwrap(),
        "a.glb"
    );
    assert_eq!(
        choose_scene(&None, &Err("search failed".to_string())).unwrap_err(),
        "search failed"
    );
    assert_eq!(
        choose_scene(&Some("../a.glb".to_string()), &Ok(vec![])).unwrap_err(),
        "external scene cannot escape the project root"
    );
}

#[test]
fn every_scene_place_fault_has_its_message() {
    let fault = |change: fn(&mut SceneFacts)| {
        let mut f = scene_facts();
        change(&mut f);
        let e = check_scene_place("a.glb", &f).unwrap_err();
        let asked = Some("a.glb".to_string());
        assert_eq!(
            resolve_external_scene(&asked, &Ok(vec![]), &f).unwrap_err(),
            e
        );
        e
    };
    assert!(check_scene_place("a.glb", &scene_facts()).is_ok());
    assert_eq!(
        fault(|f| f.entry = Err("gone".to_string())),
        "Cannot inspect external scene a.glb: gone"
    );
    for kind in [EntryKind::SymbolicLink, EntryKind::Directory, EntryKind::Other] {
        let mut f = scene_facts();
        f.entry = Ok(kind);
        assert_eq!(
            check_scene_place("a.glb", &f).unwrap_err(),
            "External scene must be a regular non-symlink file"
        );
    }
    assert_eq!(
        fault(|f| f.root = Err("gone".to_string())),
        "Cannot resolve external repository root: gone"
    );
    assert_eq!(
        fault(|f| f.scene = Err("gone".to_string())),
        "Cannot resolve external scene: gone"
    );
    assert_eq!(
        fault(|f| f.scene = Ok("/rr/a.glb".to_string())),
        "External scene resolves outside the cloned repository"
    );
}

#[test]
fn the_import_root_must_be_a_directory_of_its_own() {
    let import = |directory: bool, link: Result<bool, String>| {
        let facts = ImportFacts {
            directory,
            symbolic_link: link,
            candidates: Ok(vec!["a.glb".to_string()]),
            scene: scene_facts(),
        };
        import_external_gltf_directory("/r", &facts, &None, "R", "1")
    };
    assert!(import(true, Ok(false)).is_ok());
    assert_eq!(
        import(false, Ok(false)).unwrap_err(),
        "External import root is not a directory: /r"
    );
    assert_eq!(
        import(true, Err("gone".to_string())).unwrap_err(),
        "Cannot inspect external import root: gone"
    );
    assert_eq!(
        import(true, Ok(true)).unwrap_err(),
        "External import root cannot be a symbolic link"
    );
}

#[test]
fn import_arguments_are_counted() {
    let parse = |list: &[&str]| {
        parse_import_arguments(&list.iter().map(|s| s.to_string()).collect())
    };
    assert_eq!(
        parse(&[]).unwrap_err(),
        "usage: kairo-hub-import <root> <display-name> <engine-version> [entry-scene]"
    );
    assert_eq!(parse(&["r"]).unwrap_err(), "missing display name");
    assert_eq!(parse(&["r", "n"]).unwrap_err(), "missing engine version");
    assert_eq!(parse(&["r", "n", "v", "s", "x"]).unwrap_err(), "too many arguments");
    let three = parse(&["r", "n", "v"]).unwrap();
    assert_eq!(three.root, "r");
    assert_eq!(three.display_name, "n");
    assert_eq!(three.engine_version, "v");
    assert_eq!(three.entry_scene, None);
    assert_eq!(
        parse(&["r", "n", "v", "s"]).unwrap().entry_scene,
        Some("s".to_string())
    );
}

fn asked(search: &Search) -> String {
    match search.request() {
        Request::List(path) => format!("list {path}"),
        Request::Inspect(path) => format!("inspect {path}"),
        Request::Finished => "finished".to_string(),
        Request::Failed(e) => format!("failed {e}"),
    }
}

#[test]
fn a_search_goes_depth_first_and_follows_no_links() {
    let ok = |list: &[&str]| -> Result<Vec<Result<String, String>>, String> {
        Ok(list.iter().map(|s| Ok(s.to_string())).collect())
    };
    let mut search = Search::new(SearchKind::Projects, "/r");
    assert_eq!(asked(&search), "list /r");
    search.inspected(Ok(EntryKind::Directory));
    assert_eq!(asked(&search), "list /r");
    search.listed(ok(&["/r/.git", "/r/d", "/r/link", "/r/a.kproject", "/r/pipe"]));
    assert_eq!(asked(&search), "inspect /r/d");
    search.inspected(Ok(EntryKind::Directory));
    assert_eq!(asked(&search), "list /r/d");
    search.listed(ok(&["/r/d/b.kproject"]));
    assert_eq!(asked(&search), "inspect /r/d/b.kproject");
    search.inspected(Ok(EntryKind::RegularFile));
    assert_eq!(asked(&search), "inspect /r/link");
    search.inspected(Ok(EntryKind::SymbolicLink));
    search.inspected(Ok(EntryKind::RegularFile));
    assert_eq!(asked(&search), "inspect /r/pipe");
    search.inspected(Ok(EntryKind::Other));
    assert_eq!(asked(&search), "finished");
    assert_eq!(
        search.outcome().unwrap(),
        vec!["/r/d/b.kproject", "/r/a.kproject"]
    );

    let mut search = Search::new(SearchKind::Projects, "/r");
    search.listed(Ok(vec![Err("bad entry".to_string())]));
    assert_eq!(search.outcome().unwrap_err(), "bad entry");

    let mut search = Search::new(SearchKind::Projects, "/r");
    search.listed(ok(&["/r/x"]));
    search.inspected(Err("denied".to_string()));
    assert_eq!(search.outcome().unwrap_err(), "denied");

    let mut search = Search::new(SearchKind::Scenes, "/r");
    search.listed(ok(&["/elsewhere/a.glb"]));
    search.inspected(Ok(EntryKind::RegularFile));
    assert_eq!(
        search.outcome().unwrap_err(),
        "External scene escaped the cloned repository"
    );
    let mut search = Search::new(SearchKind::Scenes, "/r/");
    search.listed(ok(&["/r/node_modules", "/r/x.GLTF", "/r/y.txt"]));
    search.inspected(Ok(EntryKind::RegularFile));
    search.inspected(Ok(EntryKind::RegularFile));
    assert_eq!(search.outcome().unwrap(), vec!["x.GLTF"]);
}

#[test]
fn findings_are_compared_by_what_their_paths_lead_to() {
    let mut other = engine();
    other.root = "/e/".to_string();
    assert!(engine() == other);
    other.version = "2".to_string();
    assert!(engine() != other);
    let s = snapshot(vec![]).unwrap();
    let mut t = s.clone();
    t.directory = "/p//.kairo/recovery/snapshot-1".to_string();
    assert!(s == t);
    t.errors.push("damaged".to_string());
    assert!(s != t);
    let health = validate_player_operation(
        PROJECT,
        &facts(),
        &engine(),
        &ToolFacts {
            player: true,
            project_compiler: true,
        },
    )
    .unwrap();
    let mut same = health.clone();
    assert!(health == same);
    same.descriptor = None;
    assert!(health != same);
    let artifact = PackageArtifact {
        profile_name: "Release".to_string(),
        profile_kind: "release".to_string(),
        output_directory: "/p/Build".to_string(),
        manifest_path: "/p/Build/package.kmanifest".to_string(),
    };
    let mut moved = artifact.clone();
    assert!(artifact == moved);
    moved.output_directory = "/q".to_string();
    assert!(artifact != moved);
}

#[test]
fn copies_hold_the_same() {
    let d = parse_project("kairo-project 1\nname G\nassets A\nstartup-scene S\n").unwrap();
    let c = d.clone();
    assert_eq!(c.name, d.name);
    assert_eq!(c.asset_manifest, d.asset_manifest);
    assert_eq!(c.build_profiles[1].output_directory, "Build/Release");
    assert_eq!(c.enabled_plugins, d.enabled_plugins);
}
