use std::collections::BTreeMap;

use kairo_hub::bootstrap::{
    check_new_root, conclude_creation, create_project, repair_project, repair_step, PlannedFile,
    EMPTY_ASSETS, EMPTY_SCENE, STARTER_ASSETS, STARTER_INPUT_MAP,
};
use kairo_hub::checksum::{recovery_checksum, PayloadChecksum};
use kairo_hub::clone::cloned_project;
use kairo_hub::descriptor::parse_project;
use kairo_hub::engine::{engine_candidates, inspect_engine, EngineInstallation};
use kairo_hub::external::{
    check_not_overwriting, conclude_import, generate_external_gltf_project, import_external_gltf_directory,
    needs_search, ImportFacts, SceneFacts,
};
use kairo_hub::health::{
    import_project, inspect_project, required_paths, version_control_path, FileMetadata,
    ProjectFacts, ProjectHealth, RequiredFile,
};
use kairo_hub::launch::{
    compile_project_logic, launch_player_with, package_manifest_path, package_output_path,
    package_project_with, plan_packaging, runtime_path, select_profile,
    validate_player_operation, validate_project_engine_version, PackageFacts, RuntimeFacts,
    ToolFacts,
};
use kairo_hub::manifest::parse_recovery_manifest;
use kairo_hub::path::{directory_path, file_name, join_path};
use kairo_hub::process::{ProcessOutput, ProcessStatus};
use kairo_hub::recovery::{
    check_snapshot, find_snapshots, payload_paths, recovery_directory, recovery_snapshots,
    snapshot_manifest_path, ManifestMetadata, RecoveryEntry, RecoverySnapshotInfo, SnapshotFacts,
    SnapshotObservation,
};
use kairo_hub::search::{EntryKind, Request, Search, SearchKind};
use kairo_hub::token::{quote, tokenize};

/// A disk in memory: files by their path, without links.
struct Disk {
    files: BTreeMap<String, String>,
}

fn missing() -> String {
    "No such file or directory (os error 2)".to_string()
}

fn unknown_file() -> RequiredFile {
    RequiredFile {
        regular_file: false,
        root: None,
        resolved: Err(String::new()),
    }
}

impl Disk {
    fn new() -> Disk {
        Disk {
            files: BTreeMap::new(),
        }
    }

    fn write(&mut self, path: &str, contents: &str) {
        self.files.insert(path.to_string(), contents.to_string());
    }

    fn write_all(&mut self, files: &[PlannedFile]) {
        for file in files {
            self.write(&file.path, &file.contents);
        }
    }

    fn read(&self, path: &str) -> Result<String, String> {
        self.files.get(path).cloned().ok_or(missing())
    }

    fn is_file(&self, path: &str) -> bool {
        self.files.contains_key(path)
    }

    fn is_directory(&self, path: &str) -> bool {
        self.files.keys().any(|p| p.starts_with(&format!("{path}/")))
    }

    fn kind(&self, path: &str) -> Result<EntryKind, String> {
        if self.is_file(path) {
            Ok(EntryKind::RegularFile)
        } else if self.is_directory(path) {
            Ok(EntryKind::Directory)
        } else {
            Err(missing())
        }
    }

    fn list(&self, path: &str) -> Result<Vec<Result<String, String>>, String> {
        if !self.is_directory(path) {
            return Err(missing());
        }
        let prefix = format!("{path}/");
        let mut names: Vec<String> = self
            .files
            .keys()
            .filter(|p| p.starts_with(&prefix))
            .map(|p| p[prefix.len()..].split('/').next().unwrap().to_string())
            .collect();
        names.dedup();
        Ok(names.into_iter().map(|n| Ok(format!("{prefix}{n}"))).collect())
    }

    fn required(&self, project: &str, path: &str) -> RequiredFile {
        RequiredFile {
            regular_file: self.is_file(path),
            root: Some(directory_path(project)),
            resolved: if self.is_file(path) {
                Ok(path.to_string())
            } else {
                Err(missing())
            },
        }
    }

    fn facts(&self, project: &str) -> ProjectFacts {
        let source = self.read(project);
        let descriptor = source.as_ref().ok().and_then(|s| parse_project(s).ok());
        let mut required = match &descriptor {
            Some(d) => required_paths(project, d)
                .iter()
                .map(|p| self.required(project, p))
                .collect(),
            None => vec![unknown_file(), unknown_file(), unknown_file()],
        };
        let input_map = required.pop().unwrap();
        let startup_scene = required.pop().unwrap();
        let asset_manifest = required.pop().unwrap();
        ProjectFacts {
            metadata: match &source {
                Ok(text) => Ok(FileMetadata {
                    symbolic_link: false,
                    regular_file: true,
                    bytes: text.len() as u64,
                }),
                Err(e) => Err(e.clone()),
            },
            source,
            asset_manifest,
            startup_scene,
            input_map,
            under_git: self.is_directory(&join_path(&directory_path(project), ".git")),
        }
    }

    fn inspect(&self, project: &str) -> ProjectHealth {
        inspect_project(project, &self.facts(project))
    }

    fn create(&mut self, parent: &str, folder: &str, name: &str) -> String {
        let plan = create_project(parent, folder, name).unwrap();
        check_new_root(&plan, self.is_directory(&plan.root)).unwrap();
        self.write_all(&plan.files);
        let outcome = conclude_creation(plan, Ok(()));
        assert!(outcome.remove.is_none());
        outcome.result.unwrap()
    }

    fn repair(&mut self, project: &str) -> Result<ProjectHealth, String> {
        for file in repair_project(project, &self.read(project))? {
            let exists = self.is_file(&file.path);
            if let Some(file) = repair_step(file, exists) {
                self.write(&file.path, &file.contents);
            }
        }
        Ok(self.inspect(project))
    }

    fn engine(&self, root: &str) -> Result<EngineInstallation, String> {
        let existing = engine_candidates(root, "")
            .into_iter()
            .filter(|p| self.is_file(p))
            .collect();
        inspect_engine(root, &self.read(&join_path(root, "CMakeLists.txt")), "", &existing)
    }

    fn search(&self, kind: SearchKind, root: &str) -> Result<Vec<String>, String> {
        let mut search = Search::new(kind, root);
        loop {
            let (listing, path) = match search.request() {
                Request::List(path) => (true, path.clone()),
                Request::Inspect(path) => (false, path.clone()),
                _ => return search.outcome(),
            };
            if listing {
                search.listed(self.list(&path));
            } else {
                search.inspected(self.kind(&path));
            }
        }
    }

    fn checksum(&self, path: &str) -> Result<(u64, u64), String> {
        let text = self.read(path)?;
        let mut sum = PayloadChecksum::new();
        for piece in text.as_bytes().chunks(7) {
            sum = recovery_checksum(path, sum, &Ok(piece.to_vec()))?.unwrap();
        }
        assert!(recovery_checksum(path, sum, &Ok(vec![])).unwrap().is_none());
        Ok((sum.bytes, sum.hash))
    }

    fn observe(&self, project: &str, directory: &str) -> SnapshotObservation {
        let manifest = snapshot_manifest_path(directory);
        let mut facts = SnapshotFacts {
            root: Some(directory_path(project)),
            directory: Ok(directory.to_string()),
            manifest: self.read(&manifest).map(|text| ManifestMetadata {
                regular_file: true,
                bytes: text.len() as u64,
            }),
            source: Err(String::new()),
        };
        let mut readings = vec![];
        if check_snapshot(&facts).is_ok() {
            facts.source = self.read(&manifest);
            let m = parse_recovery_manifest(facts.source.as_ref().unwrap());
            for path in payload_paths(directory, &m) {
                readings.push(match path {
                    Some(path) => self.checksum(&path),
                    None => Err(String::new()),
                });
            }
        }
        SnapshotObservation { facts, readings }
    }

    fn snapshots(&self, project: &str) -> Result<Vec<RecoverySnapshotInfo>, String> {
        let facts = self.facts(project);
        let exists = self.is_directory(&recovery_directory(project));
        let entries = self.list(&recovery_directory(project)).map(|list| {
            list.into_iter()
                .map(|path| {
                    let path = path?;
                    Ok(RecoveryEntry {
                        name: file_name(&path).unwrap(),
                        directory: Ok(self.is_directory(&path)),
                    })
                })
                .collect()
        });
        let seen = find_snapshots(project, &facts, exists, &entries)?
            .iter()
            .map(|directory| self.observe(project, directory))
            .collect();
        recovery_snapshots(project, &facts, exists, &entries, &seen)
    }
}

fn publish_test_snapshot(disk: &mut Disk, project: &str, timestamp: i64) -> String {
    let root = directory_path(project);
    let project_name = file_name(project).unwrap();
    let directory = join_path(&root, &format!(".kairo/recovery/snapshot-{timestamp}-test"));
    let records = [
        ("project", project_name.clone()),
        ("assets", "Assets.kassets".to_string()),
        ("scene", "Scenes/Main.kscene".to_string()),
    ];
    let mut manifest = format!(
        "kairo-recovery 1\ncreated-unix-ms {timestamp}\nproject-root {}\nproject-file {}\nactive-scene \"Scenes/Main.kscene\"\n",
        quote(&root),
        quote(&project_name)
    );
    for (role, target) in records {
        let source = disk.read(&join_path(&root, &target)).unwrap();
        let payload = join_path("payload", &target);
        let path = join_path(&directory, &payload);
        disk.write(&path, &source);
        let (bytes, checksum) = disk.checksum(&path).unwrap();
        manifest.push_str(&format!(
            "file {role} {} {} {bytes} {checksum} true false\n",
            quote(&target),
            quote(&payload)
        ));
    }
    disk.write(&join_path(&directory, "manifest.krecover"), &manifest);
    directory
}

fn installation(version: &str, compiler: &str, player: &str) -> EngineInstallation {
    EngineInstallation {
        root: "/engine".to_string(),
        version: version.to_string(),
        editor: "/engine/Editor".to_string(),
        editor_available: false,
        project_compiler: compiler.to_string(),
        project_compiler_available: true,
        player: player.to_string(),
        player_available: true,
    }
}

fn ended(code: i32) -> Result<ProcessStatus, String> {
    Ok(ProcessStatus {
        success: code == 0,
        text: format!("exit status: {code}"),
    })
}

fn no_runtime() -> RuntimeFacts {
    RuntimeFacts {
        resolved: Err(String::new()),
        root: Err(String::new()),
        regular_file: false,
    }
}

const TOOLS: ToolFacts = ToolFacts {
    player: true,
    project_compiler: true,
};

#[test]
fn project_creation_is_immediately_healthy() {
    let mut disk = Disk::new();
    let project = disk.create("/tmp", "TestGame", "Test Game");
    let health = disk.inspect(&project);
    assert!(health.is_valid(), "{:?}", health.errors);
    assert_eq!(health.descriptor.unwrap().name, "Test Game");
    let input = disk.read("/tmp/TestGame/Config/Input.kinput").unwrap();
    assert!(input.contains("action \"Move\" axis2d"));
    assert!(input.contains("action \"Quit\" button"));
    assert_eq!(project, "/tmp/TestGame/TestGame.kproject");
    assert_eq!(disk.read("/tmp/TestGame/Assets.kassets").unwrap(), STARTER_ASSETS);
    assert_eq!(
        health.warnings,
        vec!["Project is not under local Git version control"]
    );
}

#[test]
fn project_creation_checks_its_names_and_cleans_up() {
    for folder in ["", "a b", "../bad", "a.b", "\u{e9}"] {
        assert_eq!(
            create_project("/tmp", folder, "Name").unwrap_err(),
            "Project folder must contain only letters, digits, '-' or '_'"
        );
    }
    for name in ["", " \t", "a\nb", "a\rb"] {
        assert_eq!(
            create_project("/tmp", "Game", name).unwrap_err(),
            "Project display name must be non-empty and single-line"
        );
    }
    let plan = create_project("/tmp/", "Game-1_x", "  Trimmed \"Name\" ").unwrap();
    assert_eq!(plan.root, "/tmp/Game-1_x");
    assert_eq!(
        plan.directories,
        vec!["/tmp/Game-1_x/Scenes", "/tmp/Game-1_x/Config", "/tmp/Game-1_x/.kairo"]
    );
    assert_eq!(plan.files[3].path, "/tmp/Game-1_x/Game-1_x.kproject");
    assert!(plan.files[3].contents.contains("name \"Trimmed \\\"Name\\\"\"\n"));
    assert_eq!(plan.files[2].contents, STARTER_INPUT_MAP);
    assert_eq!(
        check_new_root(&plan, true).unwrap_err(),
        "Project directory already exists: /tmp/Game-1_x"
    );
    let outcome = conclude_creation(plan, Err("disk full".to_string()));
    assert_eq!(outcome.result.unwrap_err(), "disk full");
    assert_eq!(outcome.remove, Some("/tmp/Game-1_x".to_string()));
}

#[test]
fn repair_recreates_only_missing_bootstrap_files() {
    let mut disk = Disk::new();
    let descriptor = "/tmp/Broken.kproject";
    disk.write(
        descriptor,
        "kairo-project 1\nname \"Broken\"\nassets \"Data/Assets.kassets\"\nstartup-scene \"World/Main.kscene\"\n",
    );
    assert!(!disk.inspect(descriptor).is_valid());
    let repaired = disk.repair(descriptor).unwrap();
    assert!(repaired.is_valid(), "{:?}", repaired.errors);
    assert_eq!(disk.read("/tmp/Data/Assets.kassets").unwrap(), EMPTY_ASSETS);
    assert_eq!(disk.read("/tmp/World/Main.kscene").unwrap(), EMPTY_SCENE);
    disk.write("/tmp/World/Main.kscene", "user content\n");
    disk.repair(descriptor).unwrap();
    assert_eq!(disk.read("/tmp/World/Main.kscene").unwrap(), "user content\n");
    disk.write(
        "/tmp/Config/Input.kinput",
        "kairo-input 1\naction \"Custom\" button\nbind \"Custom\" key K 1 0 0\n",
    );
    disk.repair(descriptor).unwrap();
    assert!(disk.read("/tmp/Config/Input.kinput").unwrap().contains("Custom"));
    assert_eq!(
        disk.repair("/tmp/Other.kproject").unwrap_err(),
        format!("Cannot read project descriptor: {}", missing())
    );
    disk.write("/tmp/Bad.kproject", "kairo-project 9\n");
    assert_eq!(
        disk.repair("/tmp/Bad.kproject").unwrap_err(),
        "1:1: expected supported 'kairo-project 1|2' header"
    );
}

#[test]
fn local_import_requires_a_complete_runnable_kairo_project_contract() {
    let mut disk = Disk::new();
    let project = disk.create("/tmp", "Imported", "Imported Game");
    let imported = import_project(&project, &disk.facts(&project)).unwrap();
    assert_eq!(imported.descriptor.unwrap().name, "Imported Game");

    disk.files.remove("/tmp/Imported/Scenes/Main.kscene");
    let error = import_project(&project, &disk.facts(&project)).unwrap_err();
    assert!(error.contains("Missing startup scene"));
    assert_eq!(
        error,
        "Project import failed: Missing startup scene: Scenes/Main.kscene"
    );
}

#[test]
fn every_health_fault_has_its_message() {
    let mut disk = Disk::new();
    let project = disk.create("/tmp", "Game", "Game");
    let error = |facts: &ProjectFacts| inspect_project(&project, facts).errors.join("|");
    assert_eq!(
        inspect_project("/tmp/Game/Game.txt", &disk.facts(&project)).errors,
        vec!["Project descriptor must use the .kproject extension"]
    );
    let mut facts = disk.facts(&project);
    facts.metadata = Err("denied".to_string());
    assert_eq!(error(&facts), "Cannot read project descriptor metadata: denied");
    let meta = |link: bool, file: bool, bytes: u64| {
        Ok(FileMetadata {
            symbolic_link: link,
            regular_file: file,
            bytes,
        })
    };
    facts.metadata = meta(true, false, 1);
    assert_eq!(error(&facts), "Project descriptor cannot be a symbolic link");
    facts.metadata = meta(false, false, 1);
    assert_eq!(error(&facts), "Project descriptor must be a regular file");
    facts.metadata = meta(false, true, 1048577);
    assert_eq!(error(&facts), "Project descriptor exceeds the 1 MiB safety limit");
    facts.metadata = meta(false, true, 1048576);
    assert_eq!(error(&facts), "");
    facts.source = Err("gone".to_string());
    assert_eq!(error(&facts), "Cannot read project descriptor: gone");
    facts.source = Ok("kairo-project 1\n".to_string());
    assert_eq!(error(&facts), "project requires a name statement");

    let mut facts = disk.facts(&project);
    facts.asset_manifest.root = None;
    facts.startup_scene.resolved = Ok("/elsewhere/Main.kscene".to_string());
    facts.input_map.resolved = Err("loop".to_string());
    facts.under_git = true;
    let health = inspect_project(&project, &facts);
    assert_eq!(
        health.errors,
        vec![
            "Cannot resolve project root while checking asset manifest",
            "startup scene resolves outside the project: Scenes/Main.kscene",
            "Cannot resolve input map Config/Input.kinput: loop",
        ]
    );
    assert!(health.warnings.is_empty());
    assert!(health.descriptor.is_some());
    assert!(!health.is_valid());
}

#[test]
fn external_gltf_generation_creates_a_runnable_kairo_bootstrap() {
    let mut disk = Disk::new();
    let root = "/tmp/ExternalGame";
    disk.write("/tmp/ExternalGame/content/world.glb", "glb fixture placeholder");
    let existing = |disk: &Disk, guarded: &Vec<String>| -> Vec<String> {
        guarded.iter().filter(|p| disk.is_file(p)).cloned().collect()
    };

    let plan =
        generate_external_gltf_project(root, "content/world.glb", "External Game", "0.1.0").unwrap();
    check_not_overwriting(&plan, &existing(&disk, &plan.guarded)).unwrap();
    disk.write_all(&plan.files);

    let health = disk.inspect(&plan.project);
    assert!(health.is_valid(), "{:?}", health.errors);
    assert_eq!(health.descriptor.unwrap().name, "External Game");

    let manifest = disk.read("/tmp/ExternalGame/.kairo/Assets.kassets").unwrap();
    assert!(manifest.contains("content/world.glb"));
    assert!(manifest.contains("kairo.gltf.scene"));
    assert_eq!(
        manifest,
        "kairo-assets 1\nasset 90000000-0000-4000-8000-000000000001 scene source 1 \"content/world.glb\" \"kairo.gltf.scene\"\nend\n"
    );

    let scene = disk
        .read("/tmp/ExternalGame/.kairo/Scenes/Imported.kscene")
        .unwrap();
    assert!(scene.contains("scene-instance 90000000-0000-4000-8000-000000000001"));
    assert!(scene.contains("camera perspective"));
    assert!(scene.contains("light directional"));

    disk.write("/tmp/ExternalGame/.kairo/Assets.kassets", "sentinel");
    let error = check_not_overwriting(&plan, &existing(&disk, &plan.guarded)).unwrap_err();
    assert!(error.contains("overwrite"));
    assert_eq!(
        error,
        "External import would overwrite an existing generated file: /tmp/ExternalGame/KairoImported.kproject"
    );
    assert_eq!(
        disk.read("/tmp/ExternalGame/.kairo/Assets.kassets").unwrap(),
        "sentinel"
    );
}

#[test]
fn an_import_spares_every_generated_file() {
    let plan = generate_external_gltf_project("/r", "a.glb", "R", "0.1.0").unwrap();
    check_not_overwriting(&plan, &vec![]).unwrap();
    for file in &plan.guarded {
        assert_eq!(
            check_not_overwriting(&plan, &vec![file.clone()]).unwrap_err(),
            format!("External import would overwrite an existing generated file: {file}")
        );
    }
    assert!(plan.guarded.contains(&"/r/.kairo/Assets.kassets".to_string()));
}

#[test]
fn an_imported_scene_is_read_back_from_its_manifest() {
    for scene in ["a.glb", "a \"b\".glb", "x/y\\z #1.gltf"] {
        let plan = generate_external_gltf_project("/r", scene, "R", "0.1.0").unwrap();
        let manifest = plan
            .files
            .iter()
            .find(|file| file.path == "/r/.kairo/Assets.kassets")
            .unwrap();
        let row = manifest.contents.lines().nth(1).unwrap();
        assert_eq!(
            tokenize(row, 2).unwrap(),
            vec![
                "asset",
                "90000000-0000-4000-8000-000000000001",
                "scene",
                "source",
                "1",
                scene,
                "kairo.gltf.scene",
            ]
        );
    }
}

#[test]
fn a_repair_writes_a_shared_file_once() {
    let mut disk = Disk::new();
    let project = "/tmp/Game.kproject";
    disk.write(
        project,
        "kairo-project 2\nname G\nassets Both\nstartup-scene S\nengine-version 0.1.0\ninput-map Both\nrendering-profile desktop\nbuild-profile R release Out\n",
    );
    disk.repair(project).unwrap();
    assert_eq!(disk.read("/tmp/Both").unwrap(), EMPTY_ASSETS);
    disk.repair(project).unwrap();
    assert_eq!(disk.read("/tmp/Both").unwrap(), EMPTY_ASSETS);
}

#[test]
fn external_gltf_generation_rejects_escape_and_wrong_format() {
    assert!(generate_external_gltf_project("/tmp", "../outside.glb", "Bad", "0.1.0").is_err());
    assert!(generate_external_gltf_project("/tmp", "scene.fbx", "Bad", "0.1.0").is_err());
    let error = |scene: &str, name: &str, version: &str| {
        generate_external_gltf_project("/tmp", scene, name, version).unwrap_err()
    };
    assert_eq!(
        error("../outside.glb", "Bad", "0.1.0"),
        "external scene cannot escape the project root"
    );
    assert_eq!(
        error("scene.fbx", "Bad", "0.1.0"),
        "External scene must have a .gltf or .glb extension"
    );
    assert_eq!(
        error("scene.glb", " ", "0.1.0"),
        "Imported project display name must be non-empty and single-line"
    );
    assert_eq!(
        error("scene.glb", "Bad", "a\nb"),
        "Imported project engine version must be non-empty and single-line"
    );
    assert_eq!(
        error("./scene.glb", "Bad", "0.1.0"),
        "External scene path contains a non-normal component"
    );
}

#[test]
fn the_only_scene_is_imported() {
    let mut disk = Disk::new();
    let root = "/tmp/Repo";
    disk.write("/tmp/Repo/a//unused", "");
    disk.write("/tmp/Repo/content/deep/World.GLB", "x");
    disk.write("/tmp/Repo/build/skipped.glb", "x");
    disk.write("/tmp/Repo/.git/objects/skipped.gltf", "x");
    disk.write("/tmp/Repo/readme.md", "x");
    let facts = |disk: &Disk, scene: &str| ImportFacts {
        directory: disk.is_directory(root),
        symbolic_link: Ok(false),
        candidates: disk.search(SearchKind::Scenes, root),
        scene: SceneFacts {
            entry: disk.kind(&join_path(root, scene)),
            root: Ok(root.to_string()),
            scene: Ok(join_path(root, scene)),
        },
    };
    assert!(needs_search(&None) && needs_search(&Some("  ".to_string())));
    let found = facts(&disk, "content/deep/World.GLB");
    assert_eq!(found.candidates, Ok(vec!["content/deep/World.GLB".to_string()]));
    let plan = import_external_gltf_directory(root, &found, &None, "Repo", "0.1.0").unwrap();
    assert!(plan.files[0].contents.contains("\"content/deep/World.GLB\""));

    disk.write("/tmp/Repo/b.gltf", "x");
    let error =
        import_external_gltf_directory(root, &facts(&disk, "b.gltf"), &None, "Repo", "0.1.0")
            .unwrap_err();
    assert_eq!(
        error,
        "External repository contains 2 glTF/GLB scenes. Specify the entry scene explicitly. Candidates: b.gltf, content/deep/World.GLB"
    );
    let asked = Some(" b.gltf ".to_string());
    let plan =
        import_external_gltf_directory(root, &facts(&disk, "b.gltf"), &asked, "Repo", "0.1.0")
            .unwrap();
    assert_eq!(plan.project, "/tmp/Repo/KairoImported.kproject");
    for i in 0..8 {
        disk.write(&format!("/tmp/Repo/s{i}.glb"), "x");
    }
    let error =
        import_external_gltf_directory(root, &facts(&disk, "b.gltf"), &None, "Repo", "0.1.0")
            .unwrap_err();
    assert_eq!(
        error,
        "External repository contains 10 glTF/GLB scenes. Specify the entry scene explicitly. Candidates: b.gltf, content/deep/World.GLB, s0.glb, s1.glb, s2.glb, s3.glb, s4.glb, s5.glb, ..."
    );
}

#[test]
fn a_search_stops_at_its_depth_and_at_its_limit() {
    let mut disk = Disk::new();
    disk.write("/r/1/2/3/4/in.kproject", "x");
    disk.write("/r/1/2/3/4/5/out.kproject", "x");
    disk.write("/r/.git/hidden.kproject", "x");
    assert_eq!(
        disk.search(SearchKind::Projects, "/r").unwrap(),
        vec!["/r/1/2/3/4/in.kproject"]
    );
    assert_eq!(disk.search(SearchKind::Projects, "/none").unwrap_err(), missing());
    for i in 0..256 {
        disk.write(&format!("/s/{i:03}.glb"), "x");
    }
    assert_eq!(disk.search(SearchKind::Scenes, "/s").unwrap().len(), 256);
    disk.write("/s/one-more.gltf", "x");
    assert_eq!(
        disk.search(SearchKind::Scenes, "/s").unwrap_err(),
        "External repository contains more than 256 glTF/GLB scenes; specify a narrower entry scene"
    );
}

#[test]
fn engine_inspection_reports_version_and_editor_health() {
    let mut disk = Disk::new();
    disk.write(
        "/tmp/CMakeLists.txt",
        "project(KairoGameEngine VERSION 4.2.1 LANGUAGES CXX)\n",
    );
    let installation = disk.engine("/tmp").unwrap();
    assert_eq!(installation.version, "4.2.1");
    assert!(!installation.editor_available);
    assert!(!installation.project_compiler_available);
    assert!(!installation.player_available);
    assert_eq!(
        installation.editor,
        "/tmp/build/dev-clang/components/KairoEditor/KairoEditorApp"
    );
}

#[test]
fn engine_inspection_discovers_umbrella_preset_binaries() {
    let mut disk = Disk::new();
    disk.write(
        "/tmp/CMakeLists.txt",
        "project(KairoGameEngine VERSION 0.1.0 LANGUAGES CXX)\n",
    );
    let editor = "/tmp/build/dev-clang/components/KairoEditor/KairoEditorApp";
    let player = "/tmp/build/dev-clang/Runtime/KairoPlayer/KairoPlayer";
    let project_compiler = "/tmp/build/dev-clang/components/KairoEditor/KairoProjectCompiler";
    disk.write(editor, "fixture");
    disk.write(project_compiler, "fixture");
    disk.write(player, "fixture");
    let installation = disk.engine("/tmp").unwrap();
    assert!(installation.editor_available);
    assert!(installation.project_compiler_available);
    assert!(installation.player_available);
    assert_eq!(installation.editor, editor);
    assert_eq!(installation.project_compiler, project_compiler);
    assert_eq!(installation.player, player);
}

#[test]
fn project_launch_rejects_a_different_engine_version() {
    let mut disk = Disk::new();
    let project = disk.create("/tmp", "Versioned", "Versioned");
    let health = disk.inspect(&project);
    let installation = EngineInstallation {
        root: "/tmp".to_string(),
        version: "9.0.0".to_string(),
        editor: "/tmp/Editor".to_string(),
        editor_available: false,
        project_compiler: "/tmp/ProjectCompiler".to_string(),
        project_compiler_available: false,
        player: "/tmp/Player".to_string(),
        player_available: false,
    };
    let error = validate_project_engine_version(&health, &installation).unwrap_err();
    assert!(error.contains("requires Kairo 0.1.0"));
    assert!(error.contains("selected installation is Kairo 9.0.0"));
}

#[test]
fn player_launch_requires_a_successful_project_logic_build() {
    let mut disk = Disk::new();
    let project = disk.create("/tmp", "Runnable", "Runnable");
    let facts = disk.facts(&project);
    import_project(&project, &facts).expect("fresh Kairo project must import before launch");
    let engine = installation("0.1.0", "/tmp/compiler.sh", "/tmp/player.sh");
    let compile = compile_project_logic(&project, &engine);
    assert_eq!(compile.program, "/tmp/compiler.sh");
    assert_eq!(compile.arguments, vec![project.clone()]);
    let failure =
        launch_player_with(&project, &facts, &engine, &TOOLS, &ended(7), &no_runtime()).unwrap_err();
    assert!(failure.contains("Project logic build failed"));
    assert_eq!(
        failure,
        "Project logic build failed with status exit status: 7. Fix compiler diagnostics before running."
    );
    let failure = launch_player_with(
        &project,
        &facts,
        &engine,
        &TOOLS,
        &Err("denied".to_string()),
        &no_runtime(),
    )
    .unwrap_err();
    assert_eq!(failure, "Cannot run KairoProjectCompiler: denied");

    let command =
        launch_player_with(&project, &facts, &engine, &TOOLS, &ended(0), &no_runtime()).unwrap();
    assert_eq!(command.program, "/tmp/player.sh");
    assert_eq!(command.arguments, vec![project.clone()]);
    assert_eq!(command.directory, Some("/tmp/Runnable".to_string()));
}

#[test]
fn project_run_prefers_custom_runtime_over_generic_player() {
    let mut disk = Disk::new();
    let project = disk.create("/tmp", "CustomRuntime", "Custom Runtime");
    let descriptor_source = disk.read(&project).unwrap().replace(
        "graphics-backend \"auto\"\n",
        "graphics-backend \"auto\"\nruntime-executable \"Build/Development/CustomGame\"\n",
    );
    disk.write(&project, &descriptor_source);
    let runtime = "/tmp/CustomRuntime/Build/Development/CustomGame";
    disk.write(runtime, "#!/bin/sh\n");
    let facts = disk.facts(&project);
    let engine = installation("0.1.0", "/tmp/compiler.sh", "/tmp/generic-player.sh");
    let tools = TOOLS;
    let health = validate_player_operation(&project, &facts, &engine, &tools).unwrap();
    assert_eq!(runtime_path(&project, &health), Some(runtime.to_string()));
    let mut resolved = RuntimeFacts {
        resolved: Ok(runtime.to_string()),
        root: Ok("/tmp/CustomRuntime".to_string()),
        regular_file: true,
    };
    let command =
        launch_player_with(&project, &facts, &engine, &tools, &ended(0), &resolved).unwrap();
    assert_eq!(command.program, runtime);

    let mut error = |change: fn(&mut RuntimeFacts)| {
        change(&mut resolved);
        launch_player_with(&project, &facts, &engine, &tools, &ended(0), &resolved).unwrap_err()
    };
    assert_eq!(
        error(|r| r.regular_file = false),
        format!("Project runtime executable must be a regular file inside the project root: {runtime}")
    );
    assert_eq!(
        error(|r| {
            r.regular_file = true;
            r.resolved = Ok("/bin/sh".to_string());
        }),
        "Project runtime executable must be a regular file inside the project root: /bin/sh"
    );
    assert_eq!(
        error(|r| r.root = Err("gone".to_string())),
        "Cannot canonicalize project root: gone"
    );
    assert_eq!(
        error(|r| r.resolved = Err("gone".to_string())),
        format!("Project runtime executable is missing. Build the Development target first: {runtime} (gone)")
    );
}

#[test]
fn packaging_uses_exact_profile_and_verified_player_artifact() {
    let mut disk = Disk::new();
    let project = disk.create("/tmp", "Packaged", "Packaged");
    let facts = disk.facts(&project);
    let engine = installation("0.1.0", "/tmp/compiler.sh", "/tmp/player.sh");
    let health = validate_player_operation(&project, &facts, &engine, &TOOLS).unwrap();

    // An unknown profile is refused before anything is run.
    let unknown = select_profile(&health, "Shipping").unwrap_err();
    assert!(unknown.contains("Unknown project build profile"));
    let published = PackageFacts {
        output: Ok("/tmp/Packaged/Build/Release".to_string()),
        directory: true,
        manifest: true,
    };
    let packaged = Ok(ProcessOutput {
        status: ended(0).unwrap(),
        stdout: vec![],
        stderr: vec![],
    });
    let package = |name: &str, compiled: &Result<ProcessStatus, String>, facts_of: &PackageFacts| {
        package_project_with(
            &project, &facts, name, &engine, &TOOLS, compiled, &packaged, facts_of,
        )
    };
    assert_eq!(
        package("Shipping", &ended(7), &published).unwrap_err(),
        "Unknown project build profile: Shipping"
    );
    assert!(package("Release", &ended(7), &published)
        .unwrap_err()
        .contains("Project logic build failed"));

    let plan = |replace: bool| {
        plan_packaging(&project, &facts, "Release", replace, &engine, &TOOLS, &ended(0)).unwrap()
    };
    let command = plan(true);
    assert_eq!(command.program, "/tmp/player.sh");
    assert_eq!(command.arguments[0], project);
    assert_eq!(command.arguments[1..], ["--package", "Release", "--replace"]);
    assert_eq!(plan(false).arguments.len(), 3);

    let artifact = package("Release", &ended(0), &published).unwrap();
    assert_eq!(artifact.profile_name, "Release");
    assert_eq!(artifact.profile_kind, "release");
    assert_eq!(artifact.output_directory, "/tmp/Packaged/Build/Release");
    assert_eq!(
        artifact.manifest_path,
        "/tmp/Packaged/Build/Release/package.kmanifest"
    );

    let missing = PackageFacts {
        output: Err("gone".to_string()),
        directory: false,
        manifest: false,
    };
    assert_eq!(
        package("Release", &ended(0), &missing).unwrap_err(),
        "KairoPlayer reported success but profile output /tmp/Packaged/Build/Release is unavailable: gone"
    );
    let file = PackageFacts {
        output: Ok("/x".to_string()),
        directory: false,
        manifest: false,
    };
    assert_eq!(
        package("Release", &ended(0), &file).unwrap_err(),
        "KairoPlayer profile output is not a directory: /x"
    );
    let empty = PackageFacts {
        output: Ok("/x".to_string()),
        directory: true,
        manifest: false,
    };
    assert_eq!(
        package("Release", &ended(0), &empty).unwrap_err(),
        "KairoPlayer package manifest is missing: /x/package.kmanifest"
    );
}

#[test]
fn packaging_surfaces_bounded_player_diagnostics() {
    let mut disk = Disk::new();
    let project = disk.create("/tmp", "BrokenPackage", "Broken Package");
    let facts = disk.facts(&project);
    let engine = installation("0.1.0", "/tmp/compiler.sh", "/tmp/player.sh");
    let published = PackageFacts {
        output: Err(String::new()),
        directory: false,
        manifest: false,
    };
    let package = |packaged: Result<ProcessOutput, String>| {
        package_project_with(
            &project,
            &facts,
            "Development",
            &engine,
            &TOOLS,
            &ended(0),
            &packaged,
            &published,
        )
        .unwrap_err()
    };
    let failed = |stdout: &[u8], stderr: &[u8]| {
        Ok(ProcessOutput {
            status: ended(9).unwrap(),
            stdout: stdout.to_vec(),
            stderr: stderr.to_vec(),
        })
    };
    let error = package(failed(b"", b"specific package failure\n"));
    assert!(error.contains("specific package failure"));
    assert!(error.contains("status"));
    assert_eq!(
        error,
        "KairoPlayer package operation failed with status exit status: 9: specific package failure"
    );
    assert_eq!(
        package(failed(b"only output", b" \n")),
        "KairoPlayer package operation failed with status exit status: 9: only output"
    );
    assert_eq!(
        package(failed(b"", b"")),
        "KairoPlayer package operation failed with status exit status: 9"
    );
    assert_eq!(
        package(failed(b"", b"bad \xff byte")),
        "KairoPlayer package operation failed with status exit status: 9: bad \u{fffd} byte"
    );
    assert_eq!(
        package(Err("denied".to_string())),
        "Cannot run KairoPlayer package operation: denied"
    );
    let long = vec![b'x'; 9000];
    assert!(package(failed(b"", &long)).ends_with(&"x".repeat(8192)));
    assert!(!package(failed(b"", &long)).ends_with(&"x".repeat(8193)));
}

#[test]
fn recovery_discovery_validates_payloads_and_reports_corruption() {
    let mut disk = Disk::new();
    let project = disk.create("/tmp", "Recovery", "Recovery");
    assert!(disk.inspect(&project).is_valid());
    let older = publish_test_snapshot(&mut disk, &project, 1000);
    let newer = publish_test_snapshot(&mut disk, &project, 2000);
    disk.write("/tmp/Recovery/.kairo/recovery/other/file", "x");
    let snapshots = disk.snapshots(&project).unwrap();
    assert_eq!(snapshots.len(), 2);
    assert_eq!(snapshots[0].directory, newer);
    assert!(snapshots[0].is_valid(), "{:?}", snapshots[0].errors);
    assert_eq!(snapshots[0].file_count, 3);
    assert_eq!(snapshots[0].dirty_file_count, 3);
    assert_eq!(snapshots[0].text_draft_count, 0);
    assert_eq!(snapshots[0].created_unix_milliseconds, 2000);
    assert_eq!(snapshots[0].active_scene, "Scenes/Main.kscene");

    disk.write(&format!("{older}/payload/Scenes/Main.kscene"), "corrupt\n");
    let snapshots = disk.snapshots(&project).unwrap();
    let damaged = snapshots
        .iter()
        .find(|snapshot| snapshot.directory == older)
        .unwrap();
    assert!(!damaged.is_valid());
    assert!(damaged
        .errors
        .iter()
        .any(|error| error.contains("size/checksum")));
    assert_eq!(
        damaged.errors,
        vec!["Recovery payload failed size/checksum validation: Scenes/Main.kscene"]
    );

    disk.write(&project, "broken");
    assert_eq!(
        disk.snapshots(&project).unwrap_err(),
        "Cannot inspect recovery for invalid project: 1:1: expected supported 'kairo-project 1|2' header"
    );
}

#[test]
fn a_project_without_a_recovery_directory_has_no_snapshots() {
    let mut disk = Disk::new();
    let project = disk.create("/tmp", "Fresh", "Fresh");
    disk.files.retain(|path, _| !path.contains(".kairo/recovery"));
    assert!(disk.snapshots(&project).unwrap().is_empty());
    assert_eq!(
        disk.snapshots("/tmp/None.kproject").unwrap_err(),
        "Cannot inspect recovery for invalid project: Cannot read project descriptor metadata: No such file or directory (os error 2)"
    );
}

#[test]
fn every_snapshot_is_listed_once() {
    let mut disk = Disk::new();
    let project = disk.create("/tmp", "Many", "Many");
    for timestamp in [20, 40, 10, 30] {
        publish_test_snapshot(&mut disk, &project, timestamp);
    }
    let listed: Vec<i64> = disk
        .snapshots(&project)
        .unwrap()
        .iter()
        .map(|snapshot| snapshot.created_unix_milliseconds)
        .collect();
    assert_eq!(listed, vec![40, 30, 20, 10]);
}

#[test]
fn an_import_comes_to_a_valid_project_or_to_nothing() {
    let mut disk = Disk::new();
    let plan = || generate_external_gltf_project("/r", "a.glb", "R", "0.1.0").unwrap();
    assert_eq!(
        conclude_import(plan(), Err("disk full".to_string()), &disk.facts("/r/KairoImported.kproject"))
            .unwrap_err(),
        "disk full"
    );
    disk.write_all(&plan().files);
    assert_eq!(
        conclude_import(plan(), Ok(()), &disk.facts("/r/KairoImported.kproject")).unwrap(),
        "/r/KairoImported.kproject"
    );
    disk.files.remove("/r/.kairo/Assets.kassets");
    assert_eq!(
        conclude_import(plan(), Ok(()), &disk.facts("/r/KairoImported.kproject")).unwrap_err(),
        "Project import failed: Missing asset manifest: .kairo/Assets.kassets"
    );
}

#[test]
fn a_clone_is_kept_for_its_one_valid_project() {
    let mut disk = Disk::new();
    let project = disk.create("/tmp", "Cloned", "Cloned");
    let other = "/tmp/Cloned/sub/Other.kproject";
    disk.write(other, "kairo-project 1\n");
    let facts = disk.facts(&project);
    assert_eq!(cloned_project(&Ok(vec![project.clone()]), &facts).unwrap(), project);
    assert_eq!(
        cloned_project(&Ok(vec![project.clone(), other.to_string()]), &facts).unwrap_err(),
        "Cloned repository contains 2 .kproject descriptors; select one through local import instead"
    );
    assert_eq!(
        cloned_project(&Ok(vec![]), &facts).unwrap_err(),
        "Cloned repository contains no .kproject descriptor"
    );
    assert_eq!(
        cloned_project(&Err("gone".to_string()), &facts).unwrap_err(),
        "gone"
    );
    assert_eq!(
        cloned_project(&Ok(vec![other.to_string()]), &disk.facts(other)).unwrap_err(),
        "Project import failed: project requires a name statement"
    );
}

#[test]
fn a_package_is_looked_for_where_its_profile_says() {
    let d = parse_project("kairo-project 1\nname G\nassets A\nstartup-scene S\n").unwrap();
    let profile = &d.build_profiles[1];
    assert_eq!(
        package_output_path("/p/G.kproject", profile),
        Some("/p/Build/Release".to_string())
    );
    assert_eq!(
        package_output_path("G.kproject", profile),
        Some("Build/Release".to_string())
    );
    assert_eq!(package_output_path("/", profile), None);
    assert_eq!(package_manifest_path("/x"), "/x/package.kmanifest");
    assert_eq!(version_control_path("/p/G.kproject"), "/p/.git");
    assert_eq!(snapshot_manifest_path("/s"), "/s/manifest.krecover");
}
