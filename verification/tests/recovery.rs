use kairo_hub::checksum::{open_failure, recovery_checksum, PayloadChecksum};
use kairo_hub::health::{FileMetadata, ProjectFacts, RequiredFile};
use kairo_hub::manifest::{parse_recovery_manifest, RecoveryManifest};
use kairo_hub::recovery::{
    check_snapshot, find_snapshots, inspect_recovery_snapshot, payload_paths, recovery_directory,
    recovery_snapshots, snapshot_directories, sort_snapshots, ManifestMetadata, PayloadReading,
    RecoveryEntry, RecoverySnapshotInfo, SnapshotFacts, SnapshotObservation,
};

const PROJECT: &str = "/p/Game.kproject";
const DIRECTORY: &str = "/p/.kairo/recovery/snapshot-1";
const HEAD: &str = "kairo-recovery 1\ncreated-unix-ms 5\nproject-root \"/p/\"\nproject-file Game.kproject\nactive-scene S.kscene\n";
const FILES: &str = "file project Game.kproject payload/a 1 11 true true\nfile assets A payload/b 2 22 false false\nfile scene S.kscene payload/c 3 33 false true\n";

fn manifest(source: &str) -> RecoveryManifest {
    parse_recovery_manifest(source)
}

fn errors(lines: &str) -> Vec<String> {
    manifest(&format!("kairo-recovery 1\n{lines}\n")).errors
}

fn facts(source: &str) -> SnapshotFacts {
    SnapshotFacts {
        root: Some("/p".to_string()),
        directory: Ok(DIRECTORY.to_string()),
        manifest: Ok(ManifestMetadata {
            regular_file: true,
            bytes: source.len() as u64,
        }),
        source: Ok(source.to_string()),
    }
}

fn readings() -> Vec<PayloadReading> {
    vec![Ok((1, 11)), Ok((2, 22)), Ok((3, 33))]
}

fn inspect(source: &str, readings: &Vec<PayloadReading>) -> RecoverySnapshotInfo {
    inspect_recovery_snapshot(PROJECT, "/given", &facts(source), readings)
}

#[test]
fn a_whole_snapshot_is_valid() {
    let info = inspect(&format!("{HEAD}{FILES}"), &readings());
    assert!(info.is_valid(), "{:?}", info.errors);
    assert_eq!(info.directory, DIRECTORY);
    assert_eq!(info.created_unix_milliseconds, 5);
    assert_eq!(info.active_scene, "S.kscene");
    assert_eq!(info.file_count, 3);
    assert_eq!(info.dirty_file_count, 1);
    assert_eq!(info.text_draft_count, 0);
    assert_eq!(info.clone().errors, info.errors);
}

#[test]
fn lines_at_fault_are_reported_and_skipped() {
    assert_eq!(
        manifest("# c\nkairo-recovery 2\nproject-root /p\n").errors,
        vec!["2:1: expected supported 'kairo-recovery 1' header"]
    );
    assert_eq!(errors("created-unix-ms -5"), vec!["2: invalid creation timestamp"]);
    assert_eq!(
        errors("created-unix-ms 9223372036854775808"),
        vec!["2: invalid creation timestamp"]
    );
    assert_eq!(
        errors("created-unix-ms 1\ncreated-unix-ms 2"),
        vec!["3: malformed or duplicate recovery statement"]
    );
    assert!(errors("created-unix-ms x\ncreated-unix-ms +2").len() == 1);
    for (text, value) in [("0", 0), ("-0", 0), ("+7", 7), ("9223372036854775807", i64::MAX)] {
        let m = manifest(&format!("kairo-recovery 1\ncreated-unix-ms {text}\n"));
        assert_eq!(m.created, Some(value), "{text}");
        assert_eq!(m.created, text.parse::<i64>().ok().filter(|v| *v >= 0));
    }
    assert_eq!(
        errors("project-file ../x"),
        vec!["2: recovery project file cannot escape the project root"]
    );
    assert_eq!(
        errors("active-scene /x"),
        vec!["2: recovery active scene must be a non-empty project-relative path"]
    );
    assert_eq!(
        errors("file other a payload/a 1 1 true true"),
        vec!["2: unknown recovery file role"]
    );
    assert_eq!(
        errors("file scene ../a payload/a 1 1 true true"),
        vec!["2: recovery target cannot escape the project root"]
    );
    assert_eq!(
        errors("file scene a /a 1 1 true true"),
        vec!["2: recovery payload must be a non-empty project-relative path"]
    );
    assert_eq!(
        errors("file scene a ./payload/a 1 1 true true"),
        vec!["2: payload must remain inside payload/"]
    );
    assert_eq!(
        errors("file scene a payload/a -1 1 true true"),
        vec!["2: invalid payload byte count"]
    );
    assert_eq!(
        errors("file scene a payload/a 1 x true true"),
        vec!["2: invalid payload checksum"]
    );
    assert_eq!(
        errors("file scene a payload/a 1 1 yes true"),
        vec!["2: invalid dirty flag"]
    );
    assert_eq!(
        errors("file scene a payload/a 1 1 true yes"),
        vec!["2: invalid active flag"]
    );
    assert_eq!(
        errors("file scene"),
        vec!["2: malformed or duplicate recovery statement"]
    );
    assert_eq!(errors("a \"b"), vec!["2:3: unterminated quoted token"]);
    let many: String = (0..513)
        .map(|i| format!("file document d{i} payload/{i} 1 1 false false\n"))
        .collect();
    let m = manifest(&format!("kairo-recovery 1\n{many}"));
    assert_eq!(m.files.len(), 512);
    assert_eq!(
        m.errors,
        vec!["Recovery snapshot exceeds its 512-file safety limit"]
    );
}

#[test]
fn a_manifest_must_be_complete_and_about_this_project() {
    let info = inspect("", &vec![]);
    assert_eq!(
        info.errors,
        vec![
            "Recovery manifest is incomplete",
            "Recovery manifest declares another project root",
            "Recovery manifest declares another project descriptor",
            "Recovery requires exactly one project payload",
            "Recovery requires exactly one assets payload",
            "Recovery requires exactly one scene payload",
        ]
    );
    let other = HEAD.replace("\"/p/\"", "/q").replace("Game.kproject", "Other.kproject");
    assert_eq!(
        inspect(&format!("{other}{FILES}"), &readings()).errors,
        vec![
            "Recovery manifest declares another project root",
            "Recovery manifest declares another project descriptor",
        ]
    );
}

#[test]
fn payloads_are_compared_with_the_manifest() {
    let source = format!("{HEAD}{FILES}");
    let mut wrong = readings();
    wrong[0] = Ok((1, 12));
    wrong[1] = Ok((3, 22));
    wrong[2] = Err("Cannot open recovery payload x: gone".to_string());
    assert_eq!(
        inspect(&source, &wrong).errors,
        vec![
            "Recovery payload failed size/checksum validation: Game.kproject",
            "Recovery payload failed size/checksum validation: A",
            "Cannot open recovery payload x: gone",
        ]
    );
    let twice = source.replace("payload/c", "payload//a");
    assert_eq!(
        inspect(&twice, &readings()).errors,
        vec!["Duplicate recovery payload: payload//a"]
    );
    assert_eq!(
        payload_paths("/d", &manifest(&twice)),
        vec![Some("/d/payload/a".to_string()), Some("/d/payload/b".to_string()), None]
    );
}

#[test]
fn every_snapshot_fault_has_its_message() {
    let source = format!("{HEAD}{FILES}");
    let fault = |change: fn(&mut SnapshotFacts)| {
        let mut f = facts(&source);
        change(&mut f);
        let e = check_snapshot(&f).unwrap_err();
        let info = inspect_recovery_snapshot(PROJECT, "/given", &f, &vec![]);
        assert_eq!(info.errors, vec![e.clone()]);
        assert_eq!(info.file_count, 0);
        (e, info.directory)
    };
    assert_eq!(
        fault(|f| f.root = None),
        ("Cannot resolve project root".to_string(), "/given".to_string())
    );
    assert_eq!(
        fault(|f| f.directory = Err("gone".to_string())),
        (
            "Cannot resolve snapshot directory: gone".to_string(),
            "/given".to_string()
        )
    );
    assert_eq!(
        fault(|f| f.directory = Ok("/p/.kairo/snapshot-1".to_string())),
        (
            "Snapshot is outside this project's recovery directory".to_string(),
            "/p/.kairo/snapshot-1".to_string()
        )
    );
    assert_eq!(
        fault(|f| f.manifest = Err("gone".to_string())).0,
        "Cannot inspect recovery manifest: gone"
    );
    assert_eq!(
        fault(|f| f.manifest = Ok(ManifestMetadata { regular_file: false, bytes: 0 })).0,
        "Recovery manifest is not a regular file"
    );
    assert_eq!(
        fault(|f| f.manifest = Ok(ManifestMetadata { regular_file: true, bytes: 4194305 })).0,
        "Recovery manifest exceeds its 4 MiB safety limit"
    );
    let mut unreadable = facts(&source);
    unreadable.source = Err("gone".to_string());
    assert!(check_snapshot(&unreadable).is_ok());
    assert_eq!(
        inspect_recovery_snapshot(PROJECT, "/given", &unreadable, &vec![]).errors,
        vec!["Cannot read recovery manifest: gone"]
    );
}

#[test]
fn checksums_do_not_depend_on_the_pieces() {
    let sum = |pieces: &[&[u8]]| {
        let mut s = PayloadChecksum::new();
        for p in pieces {
            s = s.update(p).unwrap();
        }
        (s.bytes, s.hash)
    };
    assert_eq!(sum(&[]), (0, 14695981039346656037));
    assert_eq!(sum(&[b"a"]), (1, 0xaf63dc4c8601ec8c));
    assert_eq!(sum(&[b"foobar"]), (6, 0x85944171f73967e8));
    assert_eq!(sum(&[b"foo", b"", b"bar"]), sum(&[b"foobar"]));
    let near = PayloadChecksum {
        bytes: 536870911,
        hash: 1,
    };
    assert_eq!(near.update(b"x").unwrap().bytes, 536870912);
    assert_eq!(
        near.update(b"xy").unwrap_err(),
        "Recovery payload exceeds its 512 MiB safety limit"
    );
    let full = PayloadChecksum {
        bytes: u64::MAX,
        hash: 1,
    };
    assert_eq!(
        recovery_checksum("p", full, &Ok(vec![0])).unwrap_err(),
        "Recovery payload byte count overflowed"
    );
    assert_eq!(
        recovery_checksum("p", near, &Err("gone".to_string())).unwrap_err(),
        "Cannot read recovery payload p: gone"
    );
    assert!(recovery_checksum("p", near, &Ok(vec![])).unwrap().is_none());
    assert_eq!(open_failure("p", "gone"), "Cannot open recovery payload p: gone");
}

fn info(directory: &str, created: i64, scene: &str) -> RecoverySnapshotInfo {
    RecoverySnapshotInfo {
        directory: directory.to_string(),
        created_unix_milliseconds: created,
        active_scene: scene.to_string(),
        file_count: 0,
        dirty_file_count: 0,
        text_draft_count: 0,
        errors: vec!["damaged".to_string()],
    }
}

#[test]
fn snapshots_are_listed_newest_first() {
    let list = vec![
        info("/r/a", 1, "first"),
        info("/r/b", 3, ""),
        info("/r/c", 1, ""),
        info("/r//a", 1, "second"),
        info("/r/d", 2, ""),
    ];
    let sorted = sort_snapshots(list);
    let shown: Vec<(&str, &str)> = sorted
        .iter()
        .map(|s| (s.directory.as_str(), s.active_scene.as_str()))
        .collect();
    assert_eq!(
        shown,
        vec![("/r/b", ""), ("/r/d", ""), ("/r/c", ""), ("/r/a", "first"), ("/r//a", "second")]
    );
}

#[test]
fn snapshots_are_listed_only_of_a_project_that_can_be_read() {
    let missing = || RequiredFile {
        regular_file: false,
        root: None,
        resolved: Err(String::new()),
    };
    let project = |source: &str| ProjectFacts {
        metadata: Ok(FileMetadata {
            symbolic_link: false,
            regular_file: true,
            bytes: 1,
        }),
        source: Ok(source.to_string()),
        asset_manifest: missing(),
        startup_scene: missing(),
        input_map: missing(),
        under_git: true,
    };
    // A project that lacks files can still be recovered.
    let damaged = project("kairo-project 1\nname G\nassets A\nstartup-scene S\n");
    let unreadable = project("");
    let entries = Ok(vec![Ok(RecoveryEntry {
        name: "snapshot-1".to_string(),
        directory: Ok(true),
    })]);
    let seen = vec![SnapshotObservation {
        facts: facts(""),
        readings: vec![],
    }];
    let listed = recovery_snapshots(PROJECT, &damaged, true, &entries, &seen).unwrap();
    assert_eq!(listed.len(), 1);
    assert_eq!(listed[0].directory, DIRECTORY);
    assert!(!listed[0].is_valid());
    assert!(recovery_snapshots(PROJECT, &damaged, false, &entries, &vec![])
        .unwrap()
        .is_empty());
    assert_eq!(
        recovery_snapshots(PROJECT, &damaged, true, &Err("gone".to_string()), &vec![]).unwrap_err(),
        "Cannot read recovery directory: gone"
    );
    assert_eq!(
        recovery_snapshots(PROJECT, &unreadable, true, &entries, &vec![]).unwrap_err(),
        "Cannot inspect recovery for invalid project: 1:1: missing kairo-project header"
    );
    assert_eq!(
        find_snapshots(PROJECT, &damaged, true, &entries).unwrap(),
        vec![DIRECTORY]
    );
}

#[test]
fn snapshot_directories_are_found_by_name() {
    let entry = |name: &str, directory: bool| {
        Ok(RecoveryEntry {
            name: name.to_string(),
            directory: Ok(directory),
        })
    };
    assert_eq!(recovery_directory(PROJECT), "/p/.kairo/recovery");
    let entries = Ok(vec![
        entry("snapshot-2", true),
        entry("snapshot-file", false),
        entry("other", true),
        entry("snapshot-", true),
    ]);
    assert_eq!(
        snapshot_directories(PROJECT, &entries).unwrap(),
        vec!["/p/.kairo/recovery/snapshot-2", "/p/.kairo/recovery/snapshot-"]
    );
    assert_eq!(
        snapshot_directories(PROJECT, &Err("gone".to_string())).unwrap_err(),
        "Cannot read recovery directory: gone"
    );
    assert_eq!(
        snapshot_directories(PROJECT, &Ok(vec![Err("bad".to_string()), Err("later".to_string())]))
            .unwrap_err(),
        "Cannot read recovery entry: bad"
    );
    let unknown = RecoveryEntry {
        name: "x".to_string(),
        directory: Err("no type".to_string()),
    };
    assert_eq!(
        snapshot_directories(PROJECT, &Ok(vec![Ok(unknown)])).unwrap_err(),
        "no type"
    );
}
