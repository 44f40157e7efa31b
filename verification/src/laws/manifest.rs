//! Recovery manifests: what each statement means, and what is noted as wrong.
use vstd::prelude::*;

use crate::laws::text::law_lines_end_at_line_feeds;
use crate::layout::lemma_lines_add;
use crate::manifest::{
    file_record, manifest_of, parsed_timestamp, with_recovery_statement, ManifestView,
};
use crate::path::{components, relative_path_fault};
use crate::text::{all_digits, decimal, digits_value, lines, parsed_unsigned};
use crate::token::tokens;

verus! {

/// An empty text says nothing; and each further line adds what its words say, or,
/// where it has no words, why.
pub proof fn law_manifest_goes_line_by_line(before: Seq<char>, line: Seq<char>)
    requires
        before.len() == 0 || before.last() == '\n',
        line.len() > 0 && !line.contains('\n'),
    ensures
        ({
            let none = manifest_of(Seq::<char>::empty());
            &&& !none.header && none.created is None && none.project_root is None
            &&& none.project_file is None && none.active_scene is None
            &&& none.files.len() == 0 && none.errors.len() == 0
        }),
        ({
            let m = manifest_of(before);
            let number = lines(before).len() + 1;
            manifest_of(before + line) == match tokens(line, number) {
                Ok(words) => with_recovery_statement(m, words, number),
                Err(e) => ManifestView { errors: m.errors.push(e), ..m },
            }
        }),
{
    law_lines_end_at_line_feeds(line, Seq::empty());
    lemma_lines_add(before, line);
    let all = lines(before + line);
    assert(all =~= lines(before).push(line));
    assert(all.drop_last() =~= lines(before));
    assert(all.last() == line);
}

/// The first statement is the header, and only `kairo-recovery 1` is no fault. It
/// says nothing else.
pub proof fn law_header_of_a_manifest(m: ManifestView, words: Seq<Seq<char>>, number: nat)
    requires
        !m.header,
    ensures
        ({
            let next = with_recovery_statement(m, words, number);
            let kept = ManifestView { header: next.header, errors: next.errors, ..m };
            &&& next == kept
            &&& next.header <==> words.len() > 0
            &&& next.errors == if words.len() == 0 || words == seq!["kairo-recovery"@, "1"@] {
                m.errors
            } else {
                m.errors.push(
                    decimal(number) + ":1: expected supported "@ + "'kairo-recovery 1' header"@,
                )
            }
        }),
{
    reveal_strlit(":1: expected supported ");
    reveal_strlit("'kairo-recovery 1' header");
    reveal_strlit(":1: expected supported 'kairo-recovery 1' header");
    assert(decimal(number) + ":1: expected supported "@ + "'kairo-recovery 1' header"@
        =~= decimal(number) + ":1: expected supported 'kairo-recovery 1' header"@);
}

/// Behind the header each of the four statements sets its own value and no other,
/// the first time it stands there with one value.
pub proof fn law_statements_set_their_values(
    m: ManifestView,
    words: Seq<Seq<char>>,
    number: nat,
)
    requires
        m.header,
        words.len() > 0,
    ensures
        ({
            let next = with_recovery_statement(m, words, number);
            let key = words[0];
            let pair = words.len() == 2;
            &&& next.header
            &&& next.created == if pair && key == "created-unix-ms"@ && m.created is None {
                parsed_timestamp(words[1])
            } else {
                m.created
            }
            &&& next.project_root == if pair && key == "project-root"@ && m.project_root is None {
                Some(words[1])
            } else {
                m.project_root
            }
            &&& next.project_file == if pair && key == "project-file"@ && m.project_file is None {
                Some(words[1])
            } else {
                m.project_file
            }
            &&& next.active_scene == if pair && key == "active-scene"@ && m.active_scene is None {
                Some(words[1])
            } else {
                m.active_scene
            }
            &&& next.files == if words.len() == 8 && key == "file"@ && m.files.len() < 512
                && file_record(words) is Ok {
                m.files.push(file_record(words)->Ok_0)
            } else {
                m.files
            }
        }),
{
    lemma_statement_names();
}

proof fn lemma_statement_names()
    ensures
        "created-unix-ms"@.len() == 15 && "file"@.len() == 4,
        "project-root"@.len() == 12 && "project-file"@.len() == 12 && "active-scene"@.len() == 12,
        "project-root"@[8] == 'r' && "project-file"@[8] == 'f' && "active-scene"@[8] == 'c',
{
    reveal_strlit("created-unix-ms");
    reveal_strlit("project-root");
    reveal_strlit("project-file");
    reveal_strlit("active-scene");
    reveal_strlit("file");
}

/// A statement behind the header that is in order adds no message; any other adds
/// one, which says what is wrong with it and, but for the number of files, on which
/// line.
pub proof fn law_faulty_statements_are_noted(
    m: ManifestView,
    words: Seq<Seq<char>>,
    number: nat,
)
    requires
        m.header,
        words.len() > 0,
    ensures
        ({
            let errors = with_recovery_statement(m, words, number).errors;
            let key = words[0];
            let place = decimal(number) + ": "@;
            let known = words.len() == 2 && {
                ||| key == "created-unix-ms"@ && m.created is None
                ||| key == "project-root"@ && m.project_root is None
                ||| key == "project-file"@ && m.project_file is None
                ||| key == "active-scene"@ && m.active_scene is None
            };
            let fault = if key == "project-file"@ {
                relative_path_fault(words[1], "recovery project "@ + "file"@)
            } else if key == "active-scene"@ {
                relative_path_fault(words[1], "recovery active "@ + "scene"@)
            } else if key == "created-unix-ms"@ && parsed_timestamp(words[1]) is None {
                Some("invalid creation "@ + "timestamp"@)
            } else {
                None
            };
            errors == if known {
                match fault {
                    Some(e) => m.errors.push(place + e),
                    None => m.errors,
                }
            } else if key == "file"@ && m.files.len() >= 512 {
                m.errors.push("Recovery snapshot exceeds "@ + "its 512-file safety limit"@)
            } else if key == "file"@ && words.len() == 8 {
                match file_record(words) {
                    Ok(_) => m.errors,
                    Err(e) => m.errors.push(place + e),
                }
            } else {
                m.errors.push(place + ("malformed or duplicate "@ + "recovery statement"@))
            }
        }),
{
    lemma_statement_names();
    reveal_strlit("recovery project ");
    reveal_strlit("scene");
    reveal_strlit("file");
    reveal_strlit("recovery project file");
    reveal_strlit("recovery active ");
    reveal_strlit("recovery active scene");
    reveal_strlit("invalid creation ");
    reveal_strlit("timestamp");
    reveal_strlit("invalid creation timestamp");
    reveal_strlit("Recovery snapshot exceeds ");
    reveal_strlit("its 512-file safety limit");
    reveal_strlit("Recovery snapshot exceeds its 512-file safety limit");
    reveal_strlit("malformed or duplicate ");
    reveal_strlit("recovery statement");
    reveal_strlit("malformed or duplicate recovery statement");
    assert("recovery project "@ + "file"@ =~= "recovery project file"@);
    assert("recovery active "@ + "scene"@ =~= "recovery active scene"@);
    assert("invalid creation "@ + "timestamp"@ =~= "invalid creation timestamp"@);
    assert("Recovery snapshot exceeds "@ + "its 512-file safety limit"@
        =~= "Recovery snapshot exceeds its 512-file safety limit"@);
    assert("malformed or duplicate "@ + "recovery statement"@
        =~= "malformed or duplicate recovery statement"@);
}

/// The words of a `file` statement are role, target, payload, size, checksum, and
/// whether the file is dirty and active. It is taken just if the role is one of the
/// five, target and payload are relative paths, the payload lies in `payload`, and
/// size and checksum are 64-bit numbers.
pub proof fn law_file_statement(words: Seq<Seq<char>>)
    requires
        words.len() == 8,
    ensures
        ({
            let role = words[1];
            let known = {
                ||| role == "text-draft"@
                ||| role == "document"@
                ||| role == "scene"@
                ||| role == "assets"@
                ||| role == "project"@
            };
            let size = parsed_unsigned(words[4], 18_446_744_073_709_551_615);
            let sum = parsed_unsigned(words[5], 18_446_744_073_709_551_615);
            match file_record(words) {
                Ok(file) => {
                    &&& known && file.role == role
                    &&& file.target == words[2] && relative_path_fault(words[2], seq![]) is None
                    &&& file.payload == words[3] && relative_path_fault(words[3], seq![]) is None
                    &&& components(file.payload).len() > 0 && components(file.payload)[0]
                        == "pay"@ + "load"@
                    &&& size == Some(file.byte_count as nat)
                    &&& sum == Some(file.checksum as nat)
                    &&& words[6] == (if file.dirty {
                        "true"@
                    } else {
                        "false"@
                    })
                    &&& words[7] == "false"@ || words[7] == "true"@
                },
                Err(e) => {
                    let inside = components(words[3]).len() > 0 && components(words[3])[0]
                        == "pay"@ + "load"@;
                    if !known {
                        e == "unknown recovery "@ + "file role"@
                    } else if relative_path_fault(words[2], seq![]) is Some {
                        relative_path_fault(words[2], "recovery "@ + "target"@) == Some(e)
                    } else if relative_path_fault(words[3], seq![]) is Some {
                        relative_path_fault(words[3], "recovery "@ + "payload"@) == Some(e)
                    } else if !inside {
                        e == "payload must remain "@ + "inside payload/"@
                    } else if size is None {
                        e == "invalid payload "@ + "byte count"@
                    } else if sum is None {
                        e == "invalid payload "@ + "checksum"@
                    } else if words[6] != "true"@ && words[6] != "false"@ {
                        e == "invalid dirty "@ + "flag"@
                    } else {
                        words[7] != "true"@ && words[7] != "false"@ && e == "invalid active "@
                            + "flag"@
                    }
                },
            }
        }),
{
    lemma_file_texts();
    lemma_numbers_fit(words[4]);
    lemma_numbers_fit(words[5]);
}

proof fn lemma_numbers_fit(s: Seq<char>)
    ensures
        parsed_unsigned(s, u64::MAX as nat) matches Some(n) ==> n <= u64::MAX,
{
}

proof fn lemma_file_texts()
    ensures
        "pay"@ + "load"@ == "payload"@,
        "unknown recovery "@ + "file role"@ == "unknown recovery file role"@,
        "recovery "@ + "target"@ == "recovery target"@,
        "recovery "@ + "payload"@ == "recovery payload"@,
        "payload must remain "@ + "inside payload/"@ == "payload must remain inside payload/"@,
        "invalid payload "@ + "byte count"@ == "invalid payload byte count"@,
        "invalid payload "@ + "checksum"@ == "invalid payload checksum"@,
        "invalid dirty "@ + "flag"@ == "invalid dirty flag"@,
        "invalid active "@ + "flag"@ == "invalid active flag"@,
        "true"@ != "false"@,
{
    reveal_strlit("pay");
    reveal_strlit("load");
    reveal_strlit("payload");
    reveal_strlit("unknown recovery ");
    reveal_strlit("file role");
    reveal_strlit("unknown recovery file role");
    reveal_strlit("recovery ");
    reveal_strlit("target");
    reveal_strlit("recovery target");
    reveal_strlit("recovery payload");
    reveal_strlit("payload must remain ");
    reveal_strlit("inside payload/");
    reveal_strlit("payload must remain inside payload/");
    reveal_strlit("invalid payload ");
    reveal_strlit("byte count");
    reveal_strlit("invalid payload byte count");
    reveal_strlit("checksum");
    reveal_strlit("invalid payload checksum");
    reveal_strlit("invalid dirty ");
    reveal_strlit("flag");
    reveal_strlit("invalid dirty flag");
    reveal_strlit("invalid active ");
    reveal_strlit("invalid active flag");
    reveal_strlit("true");
    reveal_strlit("false");
    assert("pay"@ + "load"@ =~= "payload"@);
    assert("unknown recovery "@ + "file role"@ =~= "unknown recovery file role"@);
    assert("recovery "@ + "target"@ =~= "recovery target"@);
    assert("recovery "@ + "payload"@ =~= "recovery payload"@);
    assert("payload must remain "@ + "inside payload/"@ =~= "payload must remain inside payload/"@);
    assert("invalid payload "@ + "byte count"@ =~= "invalid payload byte count"@);
    assert("invalid payload "@ + "checksum"@ =~= "invalid payload checksum"@);
    assert("invalid dirty "@ + "flag"@ =~= "invalid dirty flag"@);
    assert("invalid active "@ + "flag"@ =~= "invalid active flag"@);
    assert("true"@.len() == 4 && "false"@.len() == 5);
}

/// A creation time is a number of 63 bits; behind a minus sign there is no number
/// but nought.
pub proof fn law_creation_times(s: Seq<char>)
    ensures
        (s.len() == 0 || s[0] != '-') ==> parsed_timestamp(s) == match parsed_unsigned(
            s,
            9_223_372_036_854_775_807,
        ) {
            Some(n) => Some(n as i64),
            None => None,
        },
        s.len() > 0 && s[0] == '-' ==> parsed_timestamp(s) == if all_digits(s.skip(1))
            && digits_value(s.skip(1)) == 0 {
            Some(0i64)
        } else {
            None
        },
        parsed_timestamp(s) matches Some(time) ==> time >= 0,
{
    if s.len() > 0 {
        assert(s.skip(1) =~= s.drop_first());
    }
}

} // verus!
