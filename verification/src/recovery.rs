//! Recovery snapshots: the journals under `.kairo/recovery` from which the editor
//! can restore a project.
//!
//! A damaged snapshot is reported with what is wrong with it; it is never hidden
//! and never enabled.
use vstd::prelude::*;
use vstd::std_specs::cmp::PartialEqSpecImpl;

use crate::health::{health_of, inspect_project, ProjectFacts};
use crate::manifest::{
    law_manifest_files_are_sound, manifest_of, parse_recovery_manifest, record_views,
    sound_record, ManifestView, RecordView, RecoveryFileRecord, RecoveryManifest,
    MAX_RECOVERY_FILES,
};
use crate::path::{
    directory_of, directory_path, file_name, file_name_of, is_same_option, is_same_path, join_of,
    join_path, law_path_order_is_total, parent_of, parent_path, path_before, path_less,
    same_option, same_path, same_texts,
};
use crate::text::{
    begins_with, copy_list, join, joined, lemma_texts_push, text_eq, texts,
};

verus! {

/// The largest manifest that is read, in bytes.
pub const MAX_RECOVERY_MANIFEST_BYTES: u64 = 4_194_304;

/// What was found out about a snapshot.
#[derive(Debug)]
pub struct RecoverySnapshotInfo {
    pub directory: String,
    pub created_unix_milliseconds: i64,
    pub active_scene: String,
    pub file_count: usize,
    pub dirty_file_count: usize,
    pub text_draft_count: usize,
    pub errors: Vec<String>,
}

pub struct SnapshotView {
    pub directory: Seq<char>,
    pub created_unix_milliseconds: i64,
    pub active_scene: Seq<char>,
    pub file_count: nat,
    pub dirty_file_count: nat,
    pub text_draft_count: nat,
    pub errors: Seq<Seq<char>>,
}

impl View for RecoverySnapshotInfo {
    type V = SnapshotView;

    open spec fn view(&self) -> SnapshotView {
        SnapshotView {
            directory: self.directory@,
            created_unix_milliseconds: self.created_unix_milliseconds,
            active_scene: self.active_scene@,
            file_count: self.file_count as nat,
            dirty_file_count: self.dirty_file_count as nat,
            text_draft_count: self.text_draft_count as nat,
            errors: texts(self.errors@),
        }
    }
}

impl Clone for RecoverySnapshotInfo {
    fn clone(&self) -> (r: RecoverySnapshotInfo)
        ensures
            r@ == self@,
    {
        RecoverySnapshotInfo {
            directory: self.directory.clone(),
            created_unix_milliseconds: self.created_unix_milliseconds,
            active_scene: self.active_scene.clone(),
            file_count: self.file_count,
            dirty_file_count: self.dirty_file_count,
            text_draft_count: self.text_draft_count,
            errors: copy_list(&self.errors),
        }
    }
}

/// The same findings about the same snapshot.
pub open spec fn is_same_snapshot(a: SnapshotView, b: SnapshotView) -> bool {
    &&& is_same_path(a.directory, b.directory)
    &&& a.created_unix_milliseconds == b.created_unix_milliseconds
    &&& is_same_path(a.active_scene, b.active_scene)
    &&& a.file_count == b.file_count
    &&& a.dirty_file_count == b.dirty_file_count
    &&& a.text_draft_count == b.text_draft_count
    &&& a.errors == b.errors
}

impl PartialEqSpecImpl for RecoverySnapshotInfo {
    open spec fn obeys_eq_spec() -> bool {
        true
    }

    open spec fn eq_spec(&self, other: &RecoverySnapshotInfo) -> bool {
        is_same_snapshot(self@, other@)
    }
}

impl PartialEq for RecoverySnapshotInfo {
    fn eq(&self, other: &RecoverySnapshotInfo) -> (r: bool) {
        same_path(self.directory.as_str(), other.directory.as_str())
            && self.created_unix_milliseconds == other.created_unix_milliseconds && same_path(
            self.active_scene.as_str(),
            other.active_scene.as_str(),
        ) && self.file_count == other.file_count && self.dirty_file_count
            == other.dirty_file_count && self.text_draft_count == other.text_draft_count
            && same_texts(&self.errors, &other.errors)
    }
}

impl Eq for RecoverySnapshotInfo {

}

impl SnapshotView {
    /// Nothing is wrong with the snapshot.
    pub open spec fn valid(self) -> bool {
        self.errors.len() == 0
    }
}

impl RecoverySnapshotInfo {
    /// Whether nothing is wrong with the snapshot.
    pub fn is_valid(&self) -> (r: bool)
        ensures
            r == self@.valid(),
    {
        assert(texts(self.errors@).len() == self.errors@.len());
        self.errors.len() == 0
    }
}

// ---------------------------------------------------------------------------
// Facts
// ---------------------------------------------------------------------------
/// What stands at the manifest's path.
#[derive(Debug)]
pub struct ManifestMetadata {
    pub regular_file: bool,
    pub bytes: u64,
}

/// What is known of a snapshot's files. What was not reached is left at any
/// value.
#[derive(Debug)]
pub struct SnapshotFacts {
    /// The directory of the project's descriptor with links resolved, if it has
    /// one that could be resolved.
    pub root: Option<String>,
    /// The snapshot's directory with links resolved, or why it could not be.
    pub directory: Result<String, String>,
    /// The manifest's metadata, or why there is none.
    pub manifest: Result<ManifestMetadata, String>,
    /// The manifest's text, or why it could not be read.
    pub source: Result<String, String>,
}

/// The size and checksum of a payload, or why they could not be taken.
pub type PayloadReading = Result<(u64, u64), String>;

// ---------------------------------------------------------------------------
// Before the manifest is read
// ---------------------------------------------------------------------------
pub open spec fn recovery_directory_of(root: Seq<char>) -> Seq<char> {
    join_of(root, ".kairo/recovery"@)
}

/// The snapshot lies directly in the recovery directory.
pub open spec fn is_snapshot_place(directory: Seq<char>, root: Seq<char>) -> bool {
    parent_of(directory) matches Some(parent) && is_same_path(parent, recovery_directory_of(root))
}

/// Why the manifest is not even read, if it is not.
pub open spec fn snapshot_fault(facts: SnapshotFacts) -> Option<Seq<char>> {
    match facts.root {
        None => Some("Cannot resolve project root"@),
        Some(root) => match facts.directory {
            Err(error) => Some("Cannot resolve snapshot directory: "@ + error@),
            Ok(directory) => if !is_snapshot_place(directory@, root@) {
                Some("Snapshot is outside this project's recovery directory"@)
            } else {
                match facts.manifest {
                    Err(error) => Some("Cannot inspect recovery manifest: "@ + error@),
                    Ok(m) => if !m.regular_file {
                        Some("Recovery manifest is not a regular file"@)
                    } else if m.bytes > MAX_RECOVERY_MANIFEST_BYTES {
                        Some("Recovery manifest exceeds its 4 MiB safety limit"@)
                    } else {
                        None
                    },
                }
            },
        },
    }
}

/// Decides whether a snapshot's manifest may be read.
pub fn check_snapshot(facts: &SnapshotFacts) -> (r: Result<(), String>)
    ensures
        match r {
            Ok(_) => snapshot_fault(*facts) is None,
            Err(e) => snapshot_fault(*facts) == Some(e@),
        },
{
    let root = match &facts.root {
        Some(root) => root,
        None => {
            return Err("Cannot resolve project root".to_owned());
        },
    };
    let directory = match &facts.directory {
        Ok(directory) => directory,
        Err(error) => {
            let mut e = "Cannot resolve snapshot directory: ".to_owned();
            e.append(error.as_str());
            return Err(e);
        },
    };
    let recovery = join_path(root.as_str(), ".kairo/recovery");
    let placed = match parent_path(directory.as_str()) {
        Some(parent) => same_path(parent.as_str(), recovery.as_str()),
        None => false,
    };
    if !placed {
        return Err("Snapshot is outside this project's recovery directory".to_owned());
    }
    match &facts.manifest {
        Err(error) => {
            let mut e = "Cannot inspect recovery manifest: ".to_owned();
            e.append(error.as_str());
            Err(e)
        },
        Ok(m) => {
            if !m.regular_file {
                Err("Recovery manifest is not a regular file".to_owned())
            } else if m.bytes > MAX_RECOVERY_MANIFEST_BYTES {
                Err("Recovery manifest exceeds its 4 MiB safety limit".to_owned())
            } else {
                Ok(())
            }
        },
    }
}

// ---------------------------------------------------------------------------
// After the manifest is read
// ---------------------------------------------------------------------------
/// Something that every manifest must say is missing.
pub open spec fn is_incomplete(m: ManifestView) -> bool {
    ||| !m.header
    ||| m.created is None
    ||| m.project_root is None
    ||| m.project_file is None
    ||| m.active_scene is None
}

pub open spec fn declares_root(m: ManifestView, root: Seq<char>) -> bool {
    m.project_root matches Some(declared) && is_same_path(declared, root)
}

pub open spec fn count_role(files: Seq<RecordView>, role: Seq<char>) -> nat {
    files.filter(|f: RecordView| f.role == role).len()
}

pub open spec fn count_dirty(files: Seq<RecordView>) -> nat {
    files.filter(|f: RecordView| f.dirty).len()
}

/// The messages with one more, if something is wrong.
pub open spec fn with_error_if(
    errors: Seq<Seq<char>>,
    wrong: bool,
    message: Seq<char>,
) -> Seq<Seq<char>> {
    if wrong {
        errors.push(message)
    } else {
        errors
    }
}

pub open spec fn with_role_error(
    errors: Seq<Seq<char>>,
    files: Seq<RecordView>,
    role: Seq<char>,
) -> Seq<Seq<char>> {
    with_error_if(
        errors,
        count_role(files, role) != 1,
        "Recovery requires exactly one "@ + role + " payload"@,
    )
}

/// The messages about a manifest as a whole, behind those about its lines.
pub open spec fn manifest_errors(project: Seq<char>, root: Seq<char>, m: ManifestView) -> Seq<
    Seq<char>,
> {
    let a = with_error_if(m.errors, is_incomplete(m), "Recovery manifest is incomplete"@);
    let b = with_error_if(
        a,
        !declares_root(m, root),
        "Recovery manifest declares another project root"@,
    );
    let c = with_error_if(
        b,
        !is_same_option(m.project_file, file_name_of(project)),
        "Recovery manifest declares another project descriptor"@,
    );
    let d = with_role_error(c, m.files, "project"@);
    let e = with_role_error(d, m.files, "assets"@);
    with_role_error(e, m.files, "scene"@)
}

/// An earlier file has the same payload.
pub open spec fn payload_taken(files: Seq<RecordView>, at: int) -> bool {
    exists|j: int| 0 <= j < at && is_same_path(#[trigger] files[j].payload, files[at].payload)
}

/// What is wrong with the payload of a file, if anything.
pub open spec fn payload_fault(
    files: Seq<RecordView>,
    at: int,
    reading: PayloadReading,
) -> Option<Seq<char>> {
    let file = files[at];
    if payload_taken(files, at) {
        Some("Duplicate recovery payload: "@ + file.payload)
    } else {
        match reading {
            Ok((bytes, checksum)) => if bytes == file.byte_count && checksum == file.checksum {
                None
            } else {
                Some("Recovery payload failed size/checksum validation: "@ + file.target)
            },
            Err(error) => Some(error@),
        }
    }
}

/// The messages with those about the first `count` payloads.
pub open spec fn payload_errors(
    errors: Seq<Seq<char>>,
    files: Seq<RecordView>,
    readings: Seq<PayloadReading>,
    count: nat,
) -> Seq<Seq<char>>
    decreases count,
{
    if count == 0 {
        errors
    } else {
        let before = payload_errors(errors, files, readings, (count - 1) as nat);
        match payload_fault(files, count - 1, readings[count - 1]) {
            Some(e) => before.push(e),
            None => before,
        }
    }
}

/// A snapshot of which nothing but an error is known.
pub open spec fn unread_snapshot(directory: Seq<char>, error: Seq<char>) -> SnapshotView {
    SnapshotView {
        directory,
        created_unix_milliseconds: 0,
        active_scene: seq![],
        file_count: 0,
        dirty_file_count: 0,
        text_draft_count: 0,
        errors: seq![error],
    }
}

/// What a read manifest and its payloads say of the snapshot in `directory`.
pub open spec fn read_snapshot(
    project: Seq<char>,
    root: Seq<char>,
    directory: Seq<char>,
    m: ManifestView,
    readings: Seq<PayloadReading>,
) -> SnapshotView {
    SnapshotView {
        directory,
        created_unix_milliseconds: match m.created {
            Some(created) => created,
            None => 0,
        },
        active_scene: match m.active_scene {
            Some(scene) => scene,
            None => seq![],
        },
        file_count: m.files.len(),
        dirty_file_count: count_dirty(m.files),
        text_draft_count: count_role(m.files, "text-draft"@),
        errors: payload_errors(
            manifest_errors(project, root, m),
            m.files,
            readings,
            m.files.len(),
        ),
    }
}

/// The snapshot's directory: with links resolved, once it is known to be.
pub open spec fn shown_directory(directory: Seq<char>, facts: SnapshotFacts) -> Seq<char> {
    if facts.root is Some {
        match facts.directory {
            Ok(resolved) => resolved@,
            Err(_) => directory,
        }
    } else {
        directory
    }
}

/// What is known of the snapshot in `directory` of the project at `project`.
pub open spec fn snapshot_of(
    project: Seq<char>,
    directory: Seq<char>,
    facts: SnapshotFacts,
    readings: Seq<PayloadReading>,
) -> SnapshotView {
    let shown = shown_directory(directory, facts);
    match snapshot_fault(facts) {
        Some(e) => unread_snapshot(shown, e),
        None => match facts.source {
            Err(error) => unread_snapshot(shown, "Cannot read recovery manifest: "@ + error@),
            Ok(source) => read_snapshot(
                project,
                facts.root->0@,
                shown,
                manifest_of(source@),
                readings,
            ),
        },
    }
}

/// There is a reading for each file of the manifest.
pub open spec fn readings_fit(facts: SnapshotFacts, readings: Seq<PayloadReading>) -> bool {
    snapshot_fault(facts) is None ==> (facts.source matches Ok(source) ==> readings.len()
        == manifest_of(source@).files.len())
}

fn unread_info(directory: String, error: String) -> (r: RecoverySnapshotInfo)
    ensures
        r@ == unread_snapshot(directory@, error@),
{
    let mut errors: Vec<String> = Vec::new();
    errors.push(error);
    let r = RecoverySnapshotInfo {
        directory,
        created_unix_milliseconds: 0,
        active_scene: String::new(),
        file_count: 0,
        dirty_file_count: 0,
        text_draft_count: 0,
        errors,
    };
    assert(r@.errors =~= seq![error@]);
    assert(r@.active_scene =~= Seq::<char>::empty());
    r
}

fn role_count(files: &Vec<RecoveryFileRecord>, role: &str) -> (n: usize)
    ensures
        n == count_role(record_views(files@), role@),
{
    let ghost views = record_views(files@);
    let ghost keep = |f: RecordView| f.role == role@;
    let mut n: usize = 0;
    let mut i: usize = 0;
    reveal(Seq::filter);
    while i < files.len()
        invariant
            n <= i <= files.len(),
            views == record_views(files@),
            keep == (|f: RecordView| f.role == role@),
            n == views.take(i as int).filter(keep).len(),
        decreases files.len() - i,
    {
        proof {
            reveal(Seq::filter);
            assert(views.take(i + 1).drop_last() =~= views.take(i as int));
            assert(views.take(i + 1).last() == files@[i as int]@);
        }
        if text_eq(files[i].role.as_str(), role) {
            n += 1;
        }
        i += 1;
    }
    assert(views.take(views.len() as int) =~= views);
    n
}

fn dirty_count(files: &Vec<RecoveryFileRecord>) -> (n: usize)
    ensures
        n == count_dirty(record_views(files@)),
{
    let ghost views = record_views(files@);
    let ghost keep = |f: RecordView| f.dirty;
    let mut n: usize = 0;
    let mut i: usize = 0;
    reveal(Seq::filter);
    while i < files.len()
        invariant
            n <= i <= files.len(),
            views == record_views(files@),
            keep == (|f: RecordView| f.dirty),
            n == views.take(i as int).filter(keep).len(),
        decreases files.len() - i,
    {
        proof {
            reveal(Seq::filter);
            assert(views.take(i + 1).drop_last() =~= views.take(i as int));
            assert(views.take(i + 1).last() == files@[i as int]@);
        }
        if files[i].dirty {
            n += 1;
        }
        i += 1;
    }
    assert(views.take(views.len() as int) =~= views);
    n
}

fn add_error_if(errors: &mut Vec<String>, wrong: bool, message: &str)
    ensures
        texts(final(errors)@) == with_error_if(texts(old(errors)@), wrong, message@),
{
    if wrong {
        let e = message.to_owned();
        proof {
            lemma_texts_push(errors@, e);
        }
        errors.push(e);
    }
}

fn add_role_error(errors: &mut Vec<String>, files: &Vec<RecoveryFileRecord>, role: &str)
    ensures
        texts(final(errors)@) == with_role_error(
            texts(old(errors)@),
            record_views(files@),
            role@,
        ),
{
    let mut e = "Recovery requires exactly one ".to_owned();
    e.append(role);
    e.append(" payload");
    add_error_if(errors, role_count(files, role) != 1, e.as_str());
}

fn payload_repeated(files: &Vec<RecoveryFileRecord>, at: usize) -> (r: bool)
    requires
        at < files@.len(),
    ensures
        r == payload_taken(record_views(files@), at as int),
{
    let ghost views = record_views(files@);
    let mut j: usize = 0;
    while j < at
        invariant
            j <= at < files@.len(),
            views == record_views(files@),
            forall|k: int|
                0 <= k < j ==> !is_same_path(
                    #[trigger] views[k].payload,
                    views[at as int].payload,
                ),
        decreases at - j,
    {
        assert(views[j as int].payload == files@[j as int].payload@);
        assert(views[at as int].payload == files@[at as int].payload@);
        if same_path(files[j].payload.as_str(), files[at].payload.as_str()) {
            return true;
        }
        j += 1;
    }
    false
}

/// The manifest of the snapshot in `directory`, its links resolved.
pub fn snapshot_manifest_path(directory: &str) -> (r: String)
    ensures
        r@ == join_of(directory@, "manifest.krecover"@),
{
    join_path(directory, "manifest.krecover")
}

/// The payloads to read, one for each file of the manifest in `directory`: none
/// where an earlier file has the same payload.
pub fn payload_paths(directory: &str, m: &RecoveryManifest) -> (r: Vec<Option<String>>)
    ensures
        r@.len() == m@.files.len(),
        forall|i: int|
            0 <= i < r@.len() ==> match #[trigger] r@[i] {
                Some(path) => !payload_taken(m@.files, i) && path@ == join_of(
                    directory@,
                    m@.files[i].payload,
                ),
                None => payload_taken(m@.files, i),
            },
{
    let mut r: Vec<Option<String>> = Vec::new();
    let mut i: usize = 0;
    while i < m.files.len()
        invariant
            i <= m.files.len(),
            r@.len() == i,
            m@.files == record_views(m.files@),
            forall|k: int|
                0 <= k < i ==> match #[trigger] r@[k] {
                    Some(path) => !payload_taken(m@.files, k) && path@ == join_of(
                        directory@,
                        m@.files[k].payload,
                    ),
                    None => payload_taken(m@.files, k),
                },
        decreases m.files.len() - i,
    {
        assert(m@.files[i as int] == m.files@[i as int]@);
        if payload_repeated(&m.files, i) {
            r.push(None);
        } else {
            r.push(Some(join_path(directory, m.files[i].payload.as_str())));
        }
        i += 1;
    }
    r
}

fn payload_error(
    files: &Vec<RecoveryFileRecord>,
    at: usize,
    reading: &PayloadReading,
) -> (r: Option<String>)
    requires
        at < files@.len(),
    ensures
        match r {
            Some(e) => payload_fault(record_views(files@), at as int, *reading) == Some(e@),
            None => payload_fault(record_views(files@), at as int, *reading) is None,
        },
{
    assert(record_views(files@)[at as int] == files@[at as int]@);
    if payload_repeated(files, at) {
        let mut e = "Duplicate recovery payload: ".to_owned();
        e.append(files[at].payload.as_str());
        return Some(e);
    }
    match reading {
        Ok((bytes, checksum)) => {
            if *bytes == files[at].byte_count && *checksum == files[at].checksum {
                None
            } else {
                let mut e = "Recovery payload failed size/checksum validation: ".to_owned();
                e.append(files[at].target.as_str());
                Some(e)
            }
        },
        Err(error) => Some(error.clone()),
    }
}

/// Judges a manifest that was read, with what its payloads are.
fn judge_manifest(
    project: &str,
    root: &str,
    directory: String,
    m: RecoveryManifest,
    readings: &Vec<PayloadReading>,
) -> (r: RecoverySnapshotInfo)
    requires
        readings@.len() == m@.files.len(),
    ensures
        r@ == read_snapshot(project@, root@, directory@, m@, readings@),
{
    let ghost view = m@;
    let RecoveryManifest {
        header,
        created,
        project_root,
        project_file,
        active_scene,
        files,
        errors,
    } = m;
    let mut errors = errors;
    let incomplete = !header || created.is_none() || project_root.is_none()
        || project_file.is_none() || active_scene.is_none();
    add_error_if(&mut errors, incomplete, "Recovery manifest is incomplete");
    let same_root = match &project_root {
        Some(declared) => same_path(declared.as_str(), root),
        None => false,
    };
    add_error_if(&mut errors, !same_root, "Recovery manifest declares another project root");
    let same_file = same_option(&project_file, &file_name(project));
    add_error_if(
        &mut errors,
        !same_file,
        "Recovery manifest declares another project descriptor",
    );
    add_role_error(&mut errors, &files, "project");
    add_role_error(&mut errors, &files, "assets");
    add_role_error(&mut errors, &files, "scene");
    assert(texts(errors@) == manifest_errors(project@, root@, view));
    let mut i: usize = 0;
    while i < files.len()
        invariant
            i <= files.len(),
            view.files == record_views(files@),
            readings@.len() == files@.len(),
            texts(errors@) == payload_errors(
                manifest_errors(project@, root@, view),
                view.files,
                readings@,
                i as nat,
            ),
        decreases files.len() - i,
    {
        match payload_error(&files, i, &readings[i]) {
            Some(e) => {
                proof {
                    lemma_texts_push(errors@, e);
                }
                errors.push(e);
            },
            None => {},
        }
        i += 1;
    }
    assert(view.files.len() == files@.len());
    RecoverySnapshotInfo {
        directory,
        created_unix_milliseconds: match created {
            Some(created) => created,
            None => 0,
        },
        active_scene: match active_scene {
            Some(scene) => scene,
            None => String::new(),
        },
        file_count: files.len(),
        dirty_file_count: dirty_count(&files),
        text_draft_count: role_count(&files, "text-draft"),
        errors,
    }
}

/// Inspects the snapshot in `directory` of the project at `project`. `readings`
/// hold the size and checksum of each payload that [`payload_paths`] names.
pub fn inspect_recovery_snapshot(
    project: &str,
    directory: &str,
    facts: &SnapshotFacts,
    readings: &Vec<PayloadReading>,
) -> (r: RecoverySnapshotInfo)
    requires
        readings_fit(*facts, readings@),
    ensures
        r@ == snapshot_of(project@, directory@, *facts, readings@),
{
    let shown = match (&facts.root, &facts.directory) {
        (Some(_), Ok(resolved)) => resolved.clone(),
        _ => directory.to_owned(),
    };
    match check_snapshot(facts) {
        Ok(_) => {},
        Err(e) => {
            return unread_info(shown, e);
        },
    }
    let source = match &facts.source {
        Ok(source) => source,
        Err(error) => {
            let mut e = "Cannot read recovery manifest: ".to_owned();
            e.append(error.as_str());
            return unread_info(shown, e);
        },
    };
    let root = match &facts.root {
        Some(root) => root.as_str(),
        None => "",
    };
    let m = parse_recovery_manifest(source.as_str());
    judge_manifest(project, root, shown, m, readings)
}

// ---------------------------------------------------------------------------
// A project's snapshots
// ---------------------------------------------------------------------------
/// An entry of the recovery directory.
#[derive(Debug)]
pub struct RecoveryEntry {
    pub name: String,
    /// It is a directory, links not followed; or why that is not known.
    pub directory: Result<bool, String>,
}

/// Where the project at `project` keeps its snapshots.
pub fn recovery_directory(project: &str) -> (r: String)
    ensures
        r@ == recovery_directory_of(directory_of(project@)),
{
    let root = directory_path(project);
    join_path(root.as_str(), ".kairo/recovery")
}

/// The snapshots among the entries of the directory `recovery`, in their order,
/// or the first failure.
pub open spec fn snapshots_in(
    recovery: Seq<char>,
    entries: Seq<Result<RecoveryEntry, String>>,
) -> Result<Seq<Seq<char>>, Seq<char>>
    decreases entries.len(),
{
    if entries.len() == 0 {
        Ok(seq![])
    } else {
        match snapshots_in(recovery, entries.drop_last()) {
            Err(e) => Err(e),
            Ok(found) => match entries.last() {
                Err(error) => Err("Cannot read recovery entry: "@ + error@),
                Ok(entry) => match entry.directory {
                    Err(error) => Err(error@),
                    Ok(directory) => if directory && "snapshot-"@.is_prefix_of(entry.name@) {
                        Ok(found.push(join_of(recovery, entry.name@)))
                    } else {
                        Ok(found)
                    },
                },
            },
        }
    }
}

proof fn lemma_snapshots_in_fail(
    recovery: Seq<char>,
    entries: Seq<Result<RecoveryEntry, String>>,
    count: int,
)
    requires
        0 <= count <= entries.len(),
        snapshots_in(recovery, entries.take(count)) is Err,
    ensures
        snapshots_in(recovery, entries) == snapshots_in(recovery, entries.take(count)),
    decreases entries.len() - count,
{
    if count == entries.len() {
        assert(entries.take(count) =~= entries);
    } else {
        assert(entries.take(count + 1).drop_last() =~= entries.take(count));
        lemma_snapshots_in_fail(recovery, entries, count + 1);
    }
}

/// Finds the snapshots in the recovery directory of the project at `project`.
/// `entries` are those of the directory, or why it could not be read.
pub fn snapshot_directories(
    project: &str,
    entries: &Result<Vec<Result<RecoveryEntry, String>>, String>,
) -> (r: Result<Vec<String>, String>)
    ensures
        match *entries {
            Err(error) => r matches Err(e) && e@ == "Cannot read recovery directory: "@ + error@,
            Ok(list) => match r {
                Ok(found) => snapshots_in(recovery_directory_of(directory_of(project@)), list@)
                    == Ok::<_, Seq<char>>(texts(found@)),
                Err(e) => snapshots_in(recovery_directory_of(directory_of(project@)), list@)
                    == Err::<Seq<Seq<char>>, _>(e@),
            },
        },
{
    let recovery = recovery_directory(project);
    let list = match entries {
        Ok(list) => list,
        Err(error) => {
            let mut e = "Cannot read recovery directory: ".to_owned();
            e.append(error.as_str());
            return Err(e);
        },
    };
    let mut found: Vec<String> = Vec::new();
    let mut i: usize = 0;
    assert(texts(found@) =~= Seq::<Seq<char>>::empty());
    assert(list@.take(0) =~= Seq::<Result<RecoveryEntry, String>>::empty());
    while i < list.len()
        invariant
            i <= list.len(),
            snapshots_in(recovery@, list@.take(i as int)) == Ok::<_, Seq<char>>(texts(found@)),
            recovery@ == recovery_directory_of(directory_of(project@)),
            *entries == Ok::<Vec<Result<RecoveryEntry, String>>, String>(*list),
        decreases list.len() - i,
    {
        assert(list@.take(i + 1).drop_last() =~= list@.take(i as int));
        match &list[i] {
            Err(error) => {
                let mut e = "Cannot read recovery entry: ".to_owned();
                e.append(error.as_str());
                proof {
                    lemma_snapshots_in_fail(recovery@, list@, i + 1);
                }
                return Err(e);
            },
            Ok(entry) => match &entry.directory {
                Err(error) => {
                    proof {
                        lemma_snapshots_in_fail(recovery@, list@, i + 1);
                    }
                    return Err(error.clone());
                },
                Ok(directory) => {
                    if *directory && begins_with(entry.name.as_str(), "snapshot-") {
                        let path = join_path(recovery.as_str(), entry.name.as_str());
                        proof {
                            lemma_texts_push(found@, path);
                        }
                        found.push(path);
                    }
                },
            },
        }
        i += 1;
    }
    assert(list@.take(list@.len() as int) =~= list@);
    Ok(found)
}

/// `a` is listed before `b`: it is newer, or of the same time and its directory
/// comes later in the order of paths.
pub open spec fn is_newer(a: SnapshotView, b: SnapshotView) -> bool {
    ||| a.created_unix_milliseconds > b.created_unix_milliseconds
    ||| a.created_unix_milliseconds == b.created_unix_milliseconds && path_before(
        b.directory,
        a.directory,
    )
}

/// A list with one more snapshot, put before all that it is newer than.
pub open spec fn with_snapshot(list: Seq<SnapshotView>, x: SnapshotView) -> Seq<SnapshotView>
    decreases list.len(),
{
    if list.len() == 0 || !is_newer(x, list.last()) {
        list.push(x)
    } else {
        with_snapshot(list.drop_last(), x).push(list.last())
    }
}

/// Snapshots, the newest first; those that tie stay in their order.
pub open spec fn newest_first(list: Seq<SnapshotView>) -> Seq<SnapshotView>
    decreases list.len(),
{
    if list.len() == 0 {
        list
    } else {
        with_snapshot(newest_first(list.drop_last()), list.last())
    }
}

pub open spec fn snapshot_views(v: Seq<RecoverySnapshotInfo>) -> Seq<SnapshotView> {
    v.map_values(|s: RecoverySnapshotInfo| s@)
}

proof fn lemma_with_snapshot_is_insert(list: Seq<SnapshotView>, x: SnapshotView, at: int)
    requires
        0 <= at <= list.len(),
        forall|j: int| at <= j < list.len() ==> is_newer(x, #[trigger] list[j]),
        at > 0 ==> !is_newer(x, list[at - 1]),
    ensures
        with_snapshot(list, x) == list.insert(at, x),
    decreases list.len(),
{
    if at == list.len() {
        assert(list.insert(at, x) =~= list.push(x));
    } else {
        let less = list.drop_last();
        assert(is_newer(x, list[list.len() - 1]));
        assert forall|j: int| at <= j < less.len() implies is_newer(x, #[trigger] less[j]) by {
            assert(less[j] == list[j]);
        }
        lemma_with_snapshot_is_insert(less, x, at);
        assert(less.insert(at, x).push(list.last()) =~= list.insert(at, x));
    }
}

fn newer(a: &RecoverySnapshotInfo, b: &RecoverySnapshotInfo) -> (r: bool)
    ensures
        r == is_newer(a@, b@),
{
    a.created_unix_milliseconds > b.created_unix_milliseconds || (a.created_unix_milliseconds
        == b.created_unix_milliseconds && path_less(b.directory.as_str(), a.directory.as_str()))
}

fn insert_snapshot(list: &mut Vec<RecoverySnapshotInfo>, x: RecoverySnapshotInfo)
    ensures
        snapshot_views(final(list)@) == with_snapshot(snapshot_views(old(list)@), x@),
{
    let ghost before = list@;
    let ghost views = snapshot_views(list@);
    let mut at: usize = list.len();
    while at > 0 && newer(&x, &list[at - 1])
        invariant
            at <= list.len(),
            list@ == before,
            views == snapshot_views(before),
            forall|j: int| at <= j < views.len() ==> is_newer(x@, #[trigger] views[j]),
        decreases at,
    {
        assert(views[at - 1] == list@[at - 1]@);
        at -= 1;
    }
    proof {
        if at > 0 {
            assert(views[at - 1] == list@[at - 1]@);
        }
        lemma_with_snapshot_is_insert(views, x@, at as int);
    }
    list.insert(at, x);
    assert(snapshot_views(list@) =~= views.insert(at as int, x@));
}

/// Sorts snapshots, the newest first; those that tie stay in their order.
pub fn sort_snapshots(found: Vec<RecoverySnapshotInfo>) -> (sorted: Vec<RecoverySnapshotInfo>)
    ensures
        snapshot_views(sorted@) == newest_first(snapshot_views(found@)),
{
    let mut list = found;
    let ghost all = snapshot_views(list@);
    let count: usize = list.len();
    let mut sorted: Vec<RecoverySnapshotInfo> = Vec::new();
    let mut i: usize = 0;
    proof {
        assert(snapshot_views(sorted@) =~= Seq::<SnapshotView>::empty());
        assert(all.take(0) =~= Seq::<SnapshotView>::empty());
        assert(snapshot_views(list@) =~= all.skip(0));
    }
    while i < count
        invariant
            i <= count,
            count == all.len(),
            snapshot_views(list@) == all.skip(i as int),
            snapshot_views(sorted@) == newest_first(all.take(i as int)),
        decreases count - i,
    {
        proof {
            assert(snapshot_views(list@).len() == list@.len());
            assert(snapshot_views(list@)[0] == list@[0]@);
            assert(all.take(i + 1).drop_last() =~= all.take(i as int));
        }
        let ghost before = list@;
        let x = list.remove(0);
        assert(snapshot_views(list@) =~= snapshot_views(before).skip(1));
        assert(snapshot_views(list@) =~= all.skip(i + 1));
        insert_snapshot(&mut sorted, x);
        i += 1;
    }
    assert(all.take(count as int) =~= all);
    sorted
}

/// What was seen of a snapshot.
#[derive(Debug)]
pub struct SnapshotObservation {
    pub facts: SnapshotFacts,
    /// The size and checksum of each payload that [`payload_paths`] names.
    pub readings: Vec<PayloadReading>,
}

/// The snapshots of the project in the directories, each as it was seen.
pub open spec fn inspected(
    project: Seq<char>,
    directories: Seq<Seq<char>>,
    seen: Seq<SnapshotObservation>,
) -> Seq<SnapshotView> {
    Seq::new(
        directories.len(),
        |i: int| snapshot_of(project, directories[i], seen[i].facts, seen[i].readings@),
    )
}

/// The directories of the snapshots that a project has, or why they cannot be
/// listed. `exists` is whether it has a recovery directory; there are no snapshots
/// where there is none. `entries` are those of that directory.
pub open spec fn snapshot_places(
    project: Seq<char>,
    facts: ProjectFacts,
    exists: bool,
    entries: Result<Vec<Result<RecoveryEntry, String>>, String>,
) -> Result<Seq<Seq<char>>, Seq<char>> {
    let health = health_of(project, facts);
    if health.descriptor is None {
        Err("Cannot inspect recovery for invalid project: "@ + joined(health.errors, "; "@))
    } else if !exists {
        Ok(seq![])
    } else {
        match entries {
            Err(error) => Err("Cannot read recovery directory: "@ + error@),
            Ok(list) => snapshots_in(recovery_directory_of(directory_of(project)), list@),
        }
    }
}

/// Every snapshot was seen, once and whole.
pub open spec fn all_seen(
    places: Result<Seq<Seq<char>>, Seq<char>>,
    seen: Seq<SnapshotObservation>,
) -> bool {
    places matches Ok(directories) ==> {
        &&& seen.len() == directories.len()
        &&& forall|i: int|
            0 <= i < seen.len() ==> readings_fit(
                (#[trigger] seen[i]).facts,
                seen[i].readings@,
            )
    }
}

/// Finds the directories of the snapshots that are to be looked at, in the order
/// in which [`recovery_snapshots`] expects what was seen of them.
pub fn find_snapshots(
    project: &str,
    facts: &ProjectFacts,
    exists: bool,
    entries: &Result<Vec<Result<RecoveryEntry, String>>, String>,
) -> (r: Result<Vec<String>, String>)
    ensures
        match r {
            Ok(found) => snapshot_places(project@, *facts, exists, *entries) == Ok::<_, Seq<char>>(
                texts(found@),
            ),
            Err(e) => snapshot_places(project@, *facts, exists, *entries) == Err::<
                Seq<Seq<char>>,
                _,
            >(e@),
        },
{
    let health = inspect_project(project, facts);
    if health.descriptor.is_none() {
        let mut e = "Cannot inspect recovery for invalid project: ".to_owned();
        e.append(join(&health.errors, "; ").as_str());
        return Err(e);
    }
    if !exists {
        let none: Vec<String> = Vec::new();
        assert(texts(none@) =~= Seq::<Seq<char>>::empty());
        return Ok(none);
    }
    snapshot_directories(project, entries)
}

/// Lists the snapshots of a project, the newest first, valid or not. `exists` is
/// whether the project has a recovery directory, `entries` are those of that
/// directory, or why it could not be read, and `seen` is what was seen of each
/// snapshot that [`find_snapshots`] gives.
pub fn recovery_snapshots(
    project: &str,
    facts: &ProjectFacts,
    exists: bool,
    entries: &Result<Vec<Result<RecoveryEntry, String>>, String>,
    seen: &Vec<SnapshotObservation>,
) -> (r: Result<Vec<RecoverySnapshotInfo>, String>)
    requires
        all_seen(snapshot_places(project@, *facts, exists, *entries), seen@),
    ensures
        match snapshot_places(project@, *facts, exists, *entries) {
            Err(error) => r matches Err(e) && e@ == error,
            Ok(directories) => r matches Ok(sorted) && snapshot_views(sorted@) == newest_first(
                inspected(project@, directories, seen@),
            ),
        },
{
    let directories = match find_snapshots(project, facts, exists, entries) {
        Ok(directories) => directories,
        Err(e) => {
            return Err(e);
        },
    };
    let ghost all = inspected(project@, texts(directories@), seen@);
    let mut found: Vec<RecoverySnapshotInfo> = Vec::new();
    let mut i: usize = 0;
    assert(snapshot_views(found@) =~= all.take(0));
    while i < directories.len()
        invariant
            i <= directories.len(),
            directories@.len() == seen@.len(),
            all == inspected(project@, texts(directories@), seen@),
            forall|k: int|
                0 <= k < seen@.len() ==> readings_fit(
                    (#[trigger] seen@[k]).facts,
                    seen@[k].readings@,
                ),
            snapshot_views(found@) == all.take(i as int),
        decreases directories.len() - i,
    {
        let one = inspect_recovery_snapshot(
            project,
            directories[i].as_str(),
            &seen[i].facts,
            &seen[i].readings,
        );
        let ghost before = found@;
        found.push(one);
        proof {
            assert(texts(directories@)[i as int] == directories@[i as int]@);
            assert(all[i as int] == one@);
            assert(snapshot_views(found@) =~= snapshot_views(before).push(one@));
            assert(all.take(i + 1) =~= all.take(i as int).push(all[i as int]));
        }
        i += 1;
    }
    assert(all.take(i as int) =~= all);
    Ok(sort_snapshots(found))
}

// ---------------------------------------------------------------------------
// Laws
// ---------------------------------------------------------------------------
proof fn lemma_no_payload_error(
    errors: Seq<Seq<char>>,
    files: Seq<RecordView>,
    readings: Seq<PayloadReading>,
    count: nat,
)
    requires
        count <= files.len(),
        readings.len() == files.len(),
    ensures
        payload_errors(errors, files, readings, count).len() == 0 <==> {
            &&& errors.len() == 0
            &&& forall|i: int|
                0 <= i < count ==> payload_fault(files, i, #[trigger] readings[i]) is None
        },
    decreases count,
{
    if count > 0 {
        lemma_no_payload_error(errors, files, readings, (count - 1) as nat);
    }
}

/// The payload of each file is its own, and is what the manifest says it is.
pub open spec fn payloads_intact(
    files: Seq<RecordView>,
    readings: Seq<PayloadReading>,
) -> bool {
    forall|i: int|
        0 <= i < files.len() ==> !payload_taken(files, i) && (#[trigger] readings[i] matches Ok(
            (bytes, checksum),
        ) && bytes == files[i].byte_count && checksum == files[i].checksum)
}

/// A snapshot is valid if and only if it lies directly in the project's recovery
/// directory, its manifest is a regular file within the size limit that can be
/// read, no line of the manifest is at fault, the manifest is complete and is
/// about this project, it has exactly one project, asset and scene payload, no
/// payload twice, and each payload has the size and checksum that the manifest
/// gives. Files of a valid snapshot stay inside the project and the snapshot.
pub proof fn law_valid_snapshot_is_intact(
    project: Seq<char>,
    directory: Seq<char>,
    facts: SnapshotFacts,
    readings: Seq<PayloadReading>,
)
    requires
        readings_fit(facts, readings),
    ensures
        snapshot_of(project, directory, facts, readings).valid() <==> {
            &&& facts.root matches Some(root)
            &&& facts.directory matches Ok(resolved)
            &&& is_snapshot_place(resolved@, root@)
            &&& facts.manifest matches Ok(meta)
            &&& meta.regular_file
            &&& meta.bytes <= MAX_RECOVERY_MANIFEST_BYTES
            &&& facts.source matches Ok(source)
            &&& manifest_of(source@).errors.len() == 0
            &&& !is_incomplete(manifest_of(source@))
            &&& declares_root(manifest_of(source@), root@)
            &&& is_same_option(manifest_of(source@).project_file, file_name_of(project))
            &&& count_role(manifest_of(source@).files, "project"@) == 1
            &&& count_role(manifest_of(source@).files, "assets"@) == 1
            &&& count_role(manifest_of(source@).files, "scene"@) == 1
            &&& payloads_intact(manifest_of(source@).files, readings)
        },
        snapshot_fault(facts) is None ==> (facts.source matches Ok(source) ==> ({
            let m = manifest_of(source@);
            &&& m.files.len() <= MAX_RECOVERY_FILES
            &&& forall|i: int| 0 <= i < m.files.len() ==> sound_record(#[trigger] m.files[i])
        })),
{
    if snapshot_fault(facts) is None {
        if let Ok(source) = facts.source {
            let m = manifest_of(source@);
            law_manifest_files_are_sound(source@);
            let errors = manifest_errors(project, facts.root->0@, m);
            lemma_no_payload_error(errors, m.files, readings, m.files.len());
            assert forall|i: int| 0 <= i < m.files.len() implies (payload_fault(
                m.files,
                i,
                #[trigger] readings[i],
            ) is None <==> !payload_taken(m.files, i) && (readings[i] matches Ok((bytes, checksum))
                && bytes == m.files[i].byte_count && checksum == m.files[i].checksum)) by {}
        }
    }
}

proof fn lemma_newer_order(a: SnapshotView, b: SnapshotView, c: SnapshotView)
    ensures
        !(is_newer(a, b) && is_newer(b, a)),
        is_newer(a, b) && is_newer(b, c) ==> is_newer(a, c),
        is_newer(a, b) && !is_newer(c, b) ==> is_newer(a, c),
        !is_newer(a, b) && !is_newer(b, a) ==> (is_newer(a, c) <==> is_newer(b, c)),
{
    law_path_order_is_total(a.directory, b.directory, c.directory);
    law_path_order_is_total(b.directory, c.directory, a.directory);
    law_path_order_is_total(c.directory, b.directory, a.directory);
    law_path_order_is_total(c.directory, a.directory, b.directory);
    law_path_order_is_total(a.directory, c.directory, b.directory);
    law_path_order_is_total(b.directory, a.directory, c.directory);
}

pub open spec fn is_newest_first(list: Seq<SnapshotView>) -> bool {
    forall|i: int, j: int|
        0 <= i < j < list.len() ==> !is_newer(#[trigger] list[j], #[trigger] list[i])
}

/// Neither is listed before the other.
pub open spec fn is_tied(a: SnapshotView, b: SnapshotView) -> bool {
    !is_newer(a, b) && !is_newer(b, a)
}

proof fn lemma_with_snapshot(list: Seq<SnapshotView>, x: SnapshotView, z: SnapshotView)
    requires
        is_newest_first(list),
    ensures
        is_newest_first(with_snapshot(list, x)),
        with_snapshot(list, x).len() == list.len() + 1,
        with_snapshot(list, x).to_multiset() == list.to_multiset().insert(x),
        forall|i: int|
            0 <= i < with_snapshot(list, x).len() ==> (#[trigger] with_snapshot(list, x)[i] == x
                || list.contains(with_snapshot(list, x)[i])),
        with_snapshot(list, x).filter(|s: SnapshotView| is_tied(s, z)) == list.push(x).filter(
            |s: SnapshotView| is_tied(s, z),
        ),
    decreases list.len(),
{
    broadcast use vstd::seq_lib::group_to_multiset_ensures;

    let keep = |s: SnapshotView| is_tied(s, z);
    let r = with_snapshot(list, x);
    if list.len() == 0 || !is_newer(x, list.last()) {
        assert forall|i: int, j: int| 0 <= i < j < r.len() implies !is_newer(
            #[trigger] r[j],
            #[trigger] r[i],
        ) by {
            if j == list.len() {
                lemma_newer_order(x, list[i], list.last());
                if i < list.len() - 1 {
                    assert(!is_newer(list[list.len() - 1], list[i]));
                }
            }
        }
    } else {
        let less = list.drop_last();
        let last = list.last();
        lemma_with_snapshot(less, x, z);
        let t = with_snapshot(less, x);
        assert forall|i: int, j: int| 0 <= i < j < r.len() implies !is_newer(
            #[trigger] r[j],
            #[trigger] r[i],
        ) by {
            if j == t.len() {
                if t[i] == x {
                    lemma_newer_order(x, last, x);
                } else {
                    let k = choose|k: int| 0 <= k < less.len() && less[k] == t[i];
                    assert(list[k] == t[i]);
                    assert(!is_newer(list[list.len() - 1], list[k]));
                }
            } else {
                assert(r[j] == t[j] && r[i] == t[i]);
            }
        }
        assert forall|i: int| 0 <= i < r.len() implies (#[trigger] r[i] == x || list.contains(
            r[i],
        )) by {
            if i < t.len() {
                assert(r[i] == t[i]);
                if t[i] != x {
                    let k = choose|k: int| 0 <= k < less.len() && less[k] == t[i];
                    assert(list[k] == t[i]);
                }
            } else {
                assert(list[list.len() - 1] == r[i]);
            }
        }
        assert(less.push(last) =~= list);
        assert(r.to_multiset() =~= list.to_multiset().insert(x));
        reveal_with_fuel(Seq::filter, 3);
        assert(r.drop_last() =~= t);
        assert(list.push(x).drop_last() =~= list);
        assert(less.push(x).drop_last() =~= less);
        if keep(x) && keep(last) {
            lemma_newer_order(x, z, last);
            lemma_newer_order(z, last, x);
            lemma_newer_order(last, z, x);
        }
        assert(r.filter(keep) =~= list.push(x).filter(keep));
    }
}

/// The list is the same snapshots, the newest first; those that tie stay in
/// their order.
pub proof fn law_newest_first(list: Seq<SnapshotView>, z: SnapshotView)
    ensures
        is_newest_first(newest_first(list)),
        newest_first(list).to_multiset() == list.to_multiset(),
        newest_first(list).filter(|s: SnapshotView| is_tied(s, z)) == list.filter(
            |s: SnapshotView| is_tied(s, z),
        ),
    decreases list.len(),
{
    if list.len() > 0 {
        broadcast use vstd::seq_lib::group_to_multiset_ensures;

        let less = list.drop_last();
        let keep = |s: SnapshotView| is_tied(s, z);
        law_newest_first(less, z);
        lemma_with_snapshot(newest_first(less), list.last(), z);
        assert(less.push(list.last()) =~= list);
        reveal_with_fuel(Seq::filter, 2);
        assert(newest_first(less).push(list.last()).drop_last() =~= newest_first(less));
        assert(newest_first(list).filter(keep) =~= list.filter(keep));
    }
}

/// Each snapshot directory of a project is listed once, as it was seen, and the
/// newest come first. A project without a recovery directory has no snapshots.
pub proof fn law_every_snapshot_is_listed(
    project: Seq<char>,
    facts: ProjectFacts,
    exists: bool,
    entries: Result<Vec<Result<RecoveryEntry, String>>, String>,
    seen: Seq<SnapshotObservation>,
)
    requires
        snapshot_places(project, facts, exists, entries) is Ok,
        all_seen(snapshot_places(project, facts, exists, entries), seen),
    ensures
        ({
            let directories = snapshot_places(project, facts, exists, entries)->Ok_0;
            let all = inspected(project, directories, seen);
            let listed = newest_first(all);
            &&& listed.len() == directories.len()
            &&& listed.to_multiset() == all.to_multiset()
            &&& is_newest_first(listed)
            &&& !exists ==> listed.len() == 0
        }),
{
    broadcast use vstd::seq_lib::group_to_multiset_ensures;

    let directories = snapshot_places(project, facts, exists, entries)->Ok_0;
    let all = inspected(project, directories, seen);
    law_newest_first(all, all[0]);
    assert(newest_first(all).to_multiset().len() == all.to_multiset().len());
}

} // verus!
