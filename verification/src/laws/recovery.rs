//! Recovery snapshots: where they lie, what is wrong with them, and their order.
use vstd::prelude::*;

use crate::health::{health_of, ProjectFacts};
use crate::laws::path::{law_name_is_put_below, law_parent_is_without_the_last_component};
use crate::manifest::{manifest_of, ManifestView, RecordView};
use crate::path::{components, directory_of, file_name_of, join_of, path_before};
use crate::recovery::{
    count_dirty, count_role, is_newest_first, is_snapshot_place, law_newest_first, manifest_errors,
    newest_first, payload_errors, payload_fault, recovery_directory_of, snapshot_fault, snapshot_of,
    snapshot_places, snapshots_in, PayloadReading, RecoveryEntry, SnapshotFacts, SnapshotView,
};
use crate::text::joined;

verus! {

/// The recovery directory of a root lies in it, as `recovery` in `.kairo`; a
/// snapshot lies directly in the recovery directory.
pub proof fn law_snapshots_lie_in_the_recovery_directory(directory: Seq<char>, root: Seq<char>)
    requires
        root.len() > 0,
    ensures
        components(recovery_directory_of(root)) == components(root) + seq![
            ".kairo"@,
            "recovery"@,
        ],
        is_snapshot_place(directory, root) <==> components(directory).len() > 0 && components(
            directory,
        ).drop_last() == components(root) + seq![".kairo"@, "recovery"@],
{
    reveal_strlit(".kairo");
    reveal_strlit("recovery");
    reveal_strlit(".kairo/recovery");
    let a = ".kairo"@;
    let b = "recovery"@;
    assert(a.len() == 6 && b.len() == 8);
    assert(a[0] == '.' && a[1] == 'k' && a[2] == 'a' && a[3] == 'i' && a[4] == 'r' && a[5] == 'o');
    assert(!a.contains('/') && !b.contains('/'));
    assert(seq!['.'].len() == 1);
    law_name_is_put_below(root, a);
    law_name_is_put_below(join_of(root, a), b);
    assert(join_of(join_of(root, a), b) =~= join_of(root, ".kairo/recovery"@)) by {
        assert(join_of(root, a).last() == 'o');
    }
    assert(components(root).push(a).push(b) =~= components(root) + seq![a, b]);
    law_parent_is_without_the_last_component(directory);
}

/// A snapshot's manifest is read just if the root and the snapshot's directory are
/// known, the one lies directly in the recovery directory of the other, and the
/// manifest is a regular file of at most 4 MiB. Else the first of these is the
/// reason.
pub proof fn law_manifest_is_read(facts: SnapshotFacts)
    ensures
        match snapshot_fault(facts) {
            None => {
                &&& facts.root is Some && facts.directory is Ok && facts.manifest is Ok
                &&& is_snapshot_place(facts.directory->Ok_0@, facts.root->0@)
                &&& facts.manifest->Ok_0.regular_file
                &&& facts.manifest->Ok_0.bytes <= 4 * 1024 * 1024
            },
            Some(e) => if facts.root is None {
                e == "Cannot resolve "@ + "project root"@
            } else if facts.directory is Err {
                e == "Cannot resolve "@ + "snapshot directory: "@ + facts.directory->Err_0@
            } else if !is_snapshot_place(facts.directory->Ok_0@, facts.root->0@) {
                e == "Snapshot is outside "@ + "this project's recovery directory"@
            } else if facts.manifest is Err {
                e == "Cannot inspect "@ + "recovery manifest: "@ + facts.manifest->Err_0@
            } else if !facts.manifest->Ok_0.regular_file {
                e == "Recovery manifest "@ + "is not a regular file"@
            } else {
                facts.manifest->Ok_0.bytes > 4 * 1024 * 1024 && e == "Recovery manifest "@
                    + "exceeds its 4 MiB safety limit"@
            },
        },
{
    reveal_strlit("Cannot resolve ");
    reveal_strlit("project root");
    reveal_strlit("Cannot resolve project root");
    reveal_strlit("snapshot directory: ");
    reveal_strlit("Cannot resolve snapshot directory: ");
    reveal_strlit("Snapshot is outside ");
    reveal_strlit("this project's recovery directory");
    reveal_strlit("Snapshot is outside this project's recovery directory");
    reveal_strlit("Cannot inspect ");
    reveal_strlit("recovery manifest: ");
    reveal_strlit("Cannot inspect recovery manifest: ");
    reveal_strlit("Recovery manifest ");
    reveal_strlit("is not a regular file");
    reveal_strlit("Recovery manifest is not a regular file");
    reveal_strlit("exceeds its 4 MiB safety limit");
    reveal_strlit("Recovery manifest exceeds its 4 MiB safety limit");
    assert("Cannot resolve "@ + "project root"@ =~= "Cannot resolve project root"@);
    assert("Cannot resolve "@ + "snapshot directory: "@ =~= "Cannot resolve snapshot directory: "@);
    assert("Snapshot is outside "@ + "this project's recovery directory"@
        =~= "Snapshot is outside this project's recovery directory"@);
    assert("Cannot inspect "@ + "recovery manifest: "@ =~= "Cannot inspect recovery manifest: "@);
    assert("Recovery manifest "@ + "is not a regular file"@
        =~= "Recovery manifest is not a regular file"@);
    assert("Recovery manifest "@ + "exceeds its 4 MiB safety limit"@
        =~= "Recovery manifest exceeds its 4 MiB safety limit"@);
}

/// Counts count one by one: files with changes by their mark, files of a role by
/// their role.
pub proof fn law_files_are_counted(files: Seq<RecordView>, file: RecordView, role: Seq<char>)
    ensures
        count_dirty(Seq::empty()) == 0 && count_role(Seq::empty(), role) == 0,
        count_dirty(files.push(file)) == count_dirty(files) + (if file.dirty {
            1nat
        } else {
            0nat
        }),
        count_role(files.push(file), role) == count_role(files, role) + (if file.role == role {
            1nat
        } else {
            0nat
        }),
{
    reveal(Seq::filter);
    assert(files.push(file).drop_last() =~= files);
}

/// A snapshot whose manifest was read is told by what the manifest says: its time,
/// its scene, and how many files it has, how many of them dirty and how many text
/// drafts. One that was not read is told by the reason alone.
pub proof fn law_snapshot_is_told_by_its_manifest(
    project: Seq<char>,
    directory: Seq<char>,
    facts: SnapshotFacts,
    readings: Seq<PayloadReading>,
)
    ensures
        ({
            let s = snapshot_of(project, directory, facts, readings);
            let resolved = facts.root is Some && facts.directory is Ok;
            &&& s.directory == (if resolved {
                facts.directory->Ok_0@
            } else {
                directory
            })
            &&& snapshot_fault(facts) is Some || facts.source is Err ==> {
                &&& s.created_unix_milliseconds == 0 && s.active_scene.len() == 0
                &&& s.file_count == 0 && s.dirty_file_count == 0 && s.text_draft_count == 0
                &&& s.errors.len() == 1
                &&& s.errors[0] == match snapshot_fault(facts) {
                    Some(e) => e,
                    None => "Cannot read "@ + "recovery manifest: "@ + facts.source->Err_0@,
                }
            }
            &&& snapshot_fault(facts) is None && facts.source is Ok ==> {
                let m = manifest_of(facts.source->Ok_0@);
                &&& m.created matches Some(time) ==> s.created_unix_milliseconds == time
                &&& m.created is None ==> s.created_unix_milliseconds == 0
                &&& m.active_scene matches Some(scene) ==> s.active_scene == scene
                &&& m.active_scene is None ==> s.active_scene.len() == 0
                &&& s.file_count == m.files.len()
                &&& s.dirty_file_count == count_dirty(m.files)
                &&& s.text_draft_count == count_role(m.files, "text-"@ + "draft"@)
                &&& s.errors == payload_errors(
                    manifest_errors(project, facts.root->0@, m),
                    m.files,
                    readings,
                    m.files.len(),
                )
            }
        }),
{
    reveal_strlit("text-");
    reveal_strlit("draft");
    reveal_strlit("text-draft");
    assert("text-"@ + "draft"@ =~= "text-draft"@);
    reveal_strlit("Cannot read ");
    reveal_strlit("recovery manifest: ");
    reveal_strlit("Cannot read recovery manifest: ");
    assert("Cannot read "@ + "recovery manifest: "@ =~= "Cannot read recovery manifest: "@);
}

/// Behind the messages about its lines, a manifest gets one for each of these: a
/// header, time, root, descriptor or scene that is not stated; another root than
/// the project's; another descriptor than the project's; and not just one project,
/// one assets and one scene file.
pub proof fn law_manifest_must_be_complete(project: Seq<char>, root: Seq<char>, m: ManifestView)
    ensures
        ({
            let complete = m.header && m.created is Some && m.project_root is Some
                && m.project_file is Some && m.active_scene is Some;
            let same_root = m.project_root is Some && components(m.project_root->0) == components(
                root,
            );
            let same_file = match (m.project_file, file_name_of(project)) {
                (Some(stated), Some(name)) => components(stated) == components(name),
                (None, None) => true,
                _ => false,
            };
            let a: Seq<Seq<char>> = if complete {
                seq![]
            } else {
                seq!["Recovery manifest is incomplete"@]
            };
            let b: Seq<Seq<char>> = if same_root {
                seq![]
            } else {
                seq!["Recovery manifest declares another project root"@]
            };
            let c: Seq<Seq<char>> = if same_file {
                seq![]
            } else {
                seq!["Recovery manifest declares another project descriptor"@]
            };
            let d: Seq<Seq<char>> = if count_role(m.files, "project"@) == 1 {
                seq![]
            } else {
                seq!["Recovery requires exactly one "@ + "project"@ + " payload"@]
            };
            let e: Seq<Seq<char>> = if count_role(m.files, "assets"@) == 1 {
                seq![]
            } else {
                seq!["Recovery requires exactly one "@ + "assets"@ + " payload"@]
            };
            let f: Seq<Seq<char>> = if count_role(m.files, "scene"@) == 1 {
                seq![]
            } else {
                seq!["Recovery requires exactly one "@ + "scene"@ + " payload"@]
            };
            manifest_errors(project, root, m) == m.errors + a + b + c + d + e + f
        }),
{
}

/// Each payload must be its file's own, and have the size and the checksum that
/// its file states. The message names the payload that is there twice, else the
/// file.
pub proof fn law_payload_must_be_as_stated(
    files: Seq<RecordView>,
    at: int,
    reading: PayloadReading,
)
    requires
        0 <= at < files.len(),
    ensures
        ({
            let own = forall|j: int|
                0 <= j < at ==> components((#[trigger] files[j]).payload) != components(
                    files[at].payload,
                );
            match payload_fault(files, at, reading) {
                None => own && (reading matches Ok((bytes, checksum)) && bytes
                    == files[at].byte_count && checksum == files[at].checksum),
                Some(e) => if !own {
                    e == "Duplicate recovery "@ + "payload: "@ + files[at].payload
                } else {
                    match reading {
                        Err(error) => e == error@,
                        Ok((bytes, checksum)) => {
                            &&& bytes != files[at].byte_count || checksum != files[at].checksum
                            &&& e == "Recovery payload failed "@ + "size/checksum validation: "@
                                + files[at].target
                        },
                    }
                },
            }
        }),
{
    reveal_strlit("Duplicate recovery ");
    reveal_strlit("payload: ");
    reveal_strlit("Duplicate recovery payload: ");
    reveal_strlit("Recovery payload failed ");
    reveal_strlit("size/checksum validation: ");
    reveal_strlit("Recovery payload failed size/checksum validation: ");
    assert("Duplicate recovery "@ + "payload: "@ =~= "Duplicate recovery payload: "@);
    assert("Recovery payload failed "@ + "size/checksum validation: "@
        =~= "Recovery payload failed size/checksum validation: "@);
}

/// Every payload at fault adds its message, in the order of the files, behind the
/// other messages.
pub proof fn law_every_payload_is_judged(
    errors: Seq<Seq<char>>,
    files: Seq<RecordView>,
    readings: Seq<PayloadReading>,
    count: nat,
)
    requires
        count < files.len(),
    ensures
        payload_errors(errors, files, readings, 0) == errors,
        payload_errors(errors, files, readings, count + 1) == payload_errors(
            errors,
            files,
            readings,
            count,
        ) + (match payload_fault(files, count as int, readings[count as int]) {
            Some(e) => seq![e],
            None => seq![],
        }),
{
}

/// Snapshots are the directories whose names begin with `snapshot-`, each at its
/// name below the recovery directory, in the order of the entries. An entry that
/// cannot be read fails the whole.
pub proof fn law_snapshots_are_found_by_name(
    recovery: Seq<char>,
    entries: Seq<Result<RecoveryEntry, String>>,
    entry: Result<RecoveryEntry, String>,
)
    ensures
        snapshots_in(recovery, Seq::empty()) == Ok::<_, Seq<char>>(Seq::<Seq<char>>::empty()),
        snapshots_in(recovery, entries) matches Err(e) ==> snapshots_in(
            recovery,
            entries.push(entry),
        ) == Err::<Seq<Seq<char>>, _>(e),
        snapshots_in(recovery, entries) matches Ok(found) ==> {
            let more = snapshots_in(recovery, entries.push(entry));
            match entry {
                Err(error) => more == Err::<Seq<Seq<char>>, _>(
                    "Cannot read "@ + "recovery entry: "@ + error@,
                ),
                Ok(one) => match one.directory {
                    Err(error) => more == Err::<Seq<Seq<char>>, _>(error@),
                    Ok(directory) => {
                        let named = one.name@.len() >= 9 && one.name@.take(9) == "snap"@ + "shot-"@;
                        more == Ok::<_, Seq<char>>(
                            if directory && named {
                                found.push(join_of(recovery, one.name@))
                            } else {
                                found
                            },
                        )
                    },
                },
            }
        },
{
    assert(entries.push(entry).drop_last() =~= entries);
    reveal_strlit("snap");
    reveal_strlit("shot-");
    reveal_strlit("snapshot-");
    let prefix = "snapshot-"@;
    assert("snap"@ + "shot-"@ =~= prefix);
    assert(prefix.len() == 9);
    reveal_strlit("Cannot read ");
    reveal_strlit("recovery entry: ");
    reveal_strlit("Cannot read recovery entry: ");
    assert("Cannot read "@ + "recovery entry: "@ =~= "Cannot read recovery entry: "@);
    if let Ok(one) = entry {
        let name = one.name@;
        if name.len() >= 9 {
            assert(name.take(9) =~= name.subrange(0, 9));
        }
    }
}

/// Snapshots are listed for a project with a descriptor, and there are none where
/// there is no recovery directory beside the descriptor.
pub proof fn law_snapshots_of_a_project(
    project: Seq<char>,
    facts: ProjectFacts,
    there: bool,
    entries: Result<Vec<Result<RecoveryEntry, String>>, String>,
)
    ensures
        ({
            let places = snapshot_places(project, facts, there, entries);
            let health = health_of(project, facts);
            &&& health.descriptor is None ==> places == Err::<Seq<Seq<char>>, _>(
                "Cannot inspect recovery "@ + "for invalid project: "@ + joined(
                    health.errors,
                    "; "@,
                ),
            )
            &&& health.descriptor is Some && !there ==> places is Ok && places->Ok_0.len() == 0
            &&& health.descriptor is Some && there ==> match entries {
                Err(error) => places == Err::<Seq<Seq<char>>, _>(
                    "Cannot read "@ + "recovery directory: "@ + error@,
                ),
                Ok(list) => places == snapshots_in(
                    recovery_directory_of(directory_of(project)),
                    list@,
                ),
            }
        }),
{
    reveal_strlit("Cannot inspect recovery ");
    reveal_strlit("for invalid project: ");
    reveal_strlit("Cannot inspect recovery for invalid project: ");
    reveal_strlit("Cannot read ");
    reveal_strlit("recovery directory: ");
    reveal_strlit("Cannot read recovery directory: ");
    assert("Cannot inspect recovery "@ + "for invalid project: "@
        =~= "Cannot inspect recovery for invalid project: "@);
    assert("Cannot read "@ + "recovery directory: "@ =~= "Cannot read recovery directory: "@);
}

/// Of two listed snapshots the first was not made before the second; where both
/// were made at one time, it is not the one whose directory comes first.
pub proof fn law_later_snapshots_come_first(list: Seq<SnapshotView>, i: int, j: int)
    requires
        0 <= i < j < list.len(),
    ensures
        newest_first(list).len() == list.len(),
        newest_first(list)[i].created_unix_milliseconds
            >= newest_first(list)[j].created_unix_milliseconds,
        newest_first(list)[i].created_unix_milliseconds
            == newest_first(list)[j].created_unix_milliseconds ==> !path_before(
            newest_first(list)[i].directory,
            newest_first(list)[j].directory,
        ),
{
    broadcast use vstd::seq_lib::group_to_multiset_ensures;

    law_newest_first(list, list[0]);
    assert(newest_first(list).to_multiset().len() == list.to_multiset().len());
    assert(is_newest_first(newest_first(list)));
}

} // verus!
