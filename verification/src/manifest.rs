//! The manifest of a recovery snapshot, a `manifest.krecover` file.
//!
//! A manifest is a header line, `kairo-recovery 1`, and one statement on each
//! further line. Reading never stops: what is wrong with a line is noted, and the
//! rest is read.
use vstd::prelude::*;

use crate::descriptor::opt_text;
use crate::path::{
    components, path_components, relative_path_fault, validate_relative_path,
};
use crate::text::{
    all_digits, chars_of, decimal, decimal_text, digits_value, lemma_texts_push, lines, lines_of,
    parse_unsigned, parsed_unsigned, read_digits, text_eq, texts,
};
use crate::token::{tokenize, tokens};

verus! {

/// The most files that a snapshot may hold.
pub const MAX_RECOVERY_FILES: usize = 512;

/// A file of a snapshot.
#[derive(Debug)]
pub struct RecoveryFileRecord {
    /// `project`, `assets`, `scene`, `document` or `text-draft`.
    pub role: String,
    /// What it is restored to, relative to the project root.
    pub target: String,
    /// Where its contents are, relative to the snapshot.
    pub payload: String,
    pub byte_count: u64,
    pub checksum: u64,
    /// It had changes that were not saved.
    pub dirty: bool,
}

pub struct RecordView {
    pub role: Seq<char>,
    pub target: Seq<char>,
    pub payload: Seq<char>,
    pub byte_count: u64,
    pub checksum: u64,
    pub dirty: bool,
}

impl View for RecoveryFileRecord {
    type V = RecordView;

    open spec fn view(&self) -> RecordView {
        RecordView {
            role: self.role@,
            target: self.target@,
            payload: self.payload@,
            byte_count: self.byte_count,
            checksum: self.checksum,
            dirty: self.dirty,
        }
    }
}

pub open spec fn record_views(v: Seq<RecoveryFileRecord>) -> Seq<RecordView> {
    v.map_values(|f: RecoveryFileRecord| f@)
}

/// What a manifest says, and what is wrong with it.
#[derive(Debug)]
pub struct RecoveryManifest {
    /// A header line was seen.
    pub header: bool,
    pub created: Option<i64>,
    pub project_root: Option<String>,
    pub project_file: Option<String>,
    pub active_scene: Option<String>,
    pub files: Vec<RecoveryFileRecord>,
    pub errors: Vec<String>,
}

pub struct ManifestView {
    pub header: bool,
    pub created: Option<i64>,
    pub project_root: Option<Seq<char>>,
    pub project_file: Option<Seq<char>>,
    pub active_scene: Option<Seq<char>>,
    pub files: Seq<RecordView>,
    pub errors: Seq<Seq<char>>,
}

impl View for RecoveryManifest {
    type V = ManifestView;

    open spec fn view(&self) -> ManifestView {
        ManifestView {
            header: self.header,
            created: self.created,
            project_root: opt_text(self.project_root),
            project_file: opt_text(self.project_file),
            active_scene: opt_text(self.active_scene),
            files: record_views(self.files@),
            errors: texts(self.errors@),
        }
    }
}

pub open spec fn empty_manifest() -> ManifestView {
    ManifestView {
        header: false,
        created: None,
        project_root: None,
        project_file: None,
        active_scene: None,
        files: seq![],
        errors: seq![],
    }
}

// ---------------------------------------------------------------------------
// Statements
// ---------------------------------------------------------------------------
/// The time that a text writes: a 64-bit number that is not negative, with or
/// without a sign.
pub open spec fn parsed_timestamp(s: Seq<char>) -> Option<i64> {
    if s.len() > 0 && s[0] == '-' {
        if all_digits(s.drop_first()) && digits_value(s.drop_first()) == 0 {
            Some(0i64)
        } else {
            None
        }
    } else {
        match parsed_unsigned(s, i64::MAX as nat) {
            Some(n) => Some(n as i64),
            None => None,
        }
    }
}

fn parse_timestamp(s: &str) -> (r: Option<i64>)
    ensures
        r == parsed_timestamp(s@),
{
    let v = chars_of(s);
    if v.len() > 0 && v[0] == '-' {
        assert(v@.skip(1) =~= v@.drop_first());
        match read_digits(v.as_slice(), 1, 0) {
            Some(_) => Some(0),
            None => None,
        }
    } else {
        match parse_unsigned(s, 0x7fff_ffff_ffff_ffff) {
            Some(n) => Some(n as i64),
            None => None,
        }
    }
}

pub open spec fn is_recovery_role(role: Seq<char>) -> bool {
    ||| role == "project"@
    ||| role == "assets"@
    ||| role == "scene"@
    ||| role == "document"@
    ||| role == "text-draft"@
}

pub open spec fn is_payload_path(path: Seq<char>) -> bool {
    components(path).len() > 0 && components(path)[0] == "payload"@
}

pub open spec fn is_flag(s: Seq<char>) -> bool {
    s == "true"@ || s == "false"@
}

/// The file that the eight words of a `file` statement describe, or what is wrong
/// with them.
pub open spec fn file_record(words: Seq<Seq<char>>) -> Result<RecordView, Seq<char>> {
    let target_fault = relative_path_fault(words[2], "recovery target"@);
    let payload_fault = relative_path_fault(words[3], "recovery payload"@);
    let byte_count = parsed_unsigned(words[4], u64::MAX as nat);
    let checksum = parsed_unsigned(words[5], u64::MAX as nat);
    if !is_recovery_role(words[1]) {
        Err("unknown recovery file role"@)
    } else if target_fault is Some {
        Err(target_fault->0)
    } else if payload_fault is Some {
        Err(payload_fault->0)
    } else if !is_payload_path(words[3]) {
        Err("payload must remain inside payload/"@)
    } else if byte_count is None {
        Err("invalid payload byte count"@)
    } else if checksum is None {
        Err("invalid payload checksum"@)
    } else if !is_flag(words[6]) {
        Err("invalid dirty flag"@)
    } else if !is_flag(words[7]) {
        Err("invalid active flag"@)
    } else {
        Ok(
            RecordView {
                role: words[1],
                target: words[2],
                payload: words[3],
                byte_count: byte_count->0 as u64,
                checksum: checksum->0 as u64,
                dirty: words[6] == "true"@,
            },
        )
    }
}

/// `<line>: <text>`
pub open spec fn line_message(line_number: nat, text: Seq<char>) -> Seq<char> {
    decimal(line_number) + ": "@ + text
}

/// The messages with that of a path at fault, if it is.
pub open spec fn with_line_fault(
    errors: Seq<Seq<char>>,
    line_number: nat,
    fault: Option<Seq<char>>,
) -> Seq<Seq<char>> {
    match fault {
        Some(e) => errors.push(line_message(line_number, e)),
        None => errors,
    }
}

/// The manifest with the statement on a further line. Each statement but `file`
/// may stand only once.
pub open spec fn with_recovery_statement(
    m: ManifestView,
    words: Seq<Seq<char>>,
    line_number: nat,
) -> ManifestView {
    let k = words[0];
    let value = words[1];
    let one = words.len() == 2;
    if words.len() == 0 {
        m
    } else if !m.header {
        ManifestView {
            header: true,
            errors: if words == seq!["kairo-recovery"@, "1"@] {
                m.errors
            } else {
                m.errors.push(
                    decimal(line_number) + ":1: expected supported 'kairo-recovery 1' header"@,
                )
            },
            ..m
        }
    } else if k == "created-unix-ms"@ && one && m.created is None {
        ManifestView {
            created: parsed_timestamp(value),
            errors: if parsed_timestamp(value) is None {
                m.errors.push(line_message(line_number, "invalid creation timestamp"@))
            } else {
                m.errors
            },
            ..m
        }
    } else if k == "project-root"@ && one && m.project_root is None {
        ManifestView { project_root: Some(value), ..m }
    } else if k == "project-file"@ && one && m.project_file is None {
        ManifestView {
            project_file: Some(value),
            errors: with_line_fault(
                m.errors,
                line_number,
                relative_path_fault(value, "recovery project file"@),
            ),
            ..m
        }
    } else if k == "active-scene"@ && one && m.active_scene is None {
        ManifestView {
            active_scene: Some(value),
            errors: with_line_fault(
                m.errors,
                line_number,
                relative_path_fault(value, "recovery active scene"@),
            ),
            ..m
        }
    } else if k == "file"@ && words.len() == 8 && m.files.len() < MAX_RECOVERY_FILES {
        match file_record(words) {
            Ok(file) => ManifestView { files: m.files.push(file), ..m },
            Err(e) => ManifestView { errors: m.errors.push(line_message(line_number, e)), ..m },
        }
    } else if k == "file"@ && m.files.len() >= MAX_RECOVERY_FILES {
        ManifestView {
            errors: m.errors.push("Recovery snapshot exceeds its 512-file safety limit"@),
            ..m
        }
    } else {
        ManifestView {
            errors: m.errors.push(
                line_message(line_number, "malformed or duplicate recovery statement"@),
            ),
            ..m
        }
    }
}

/// The manifest with one more line.
pub open spec fn with_line(m: ManifestView, line: Seq<char>, line_number: nat) -> ManifestView {
    match tokens(line, line_number) {
        Err(e) => ManifestView { errors: m.errors.push(e), ..m },
        Ok(words) => with_recovery_statement(m, words, line_number),
    }
}

/// The manifest that some lines make.
pub open spec fn manifest_of_lines(all: Seq<Seq<char>>) -> ManifestView
    decreases all.len(),
{
    if all.len() == 0 {
        empty_manifest()
    } else {
        with_line(manifest_of_lines(all.drop_last()), all.last(), all.len())
    }
}

/// The manifest that a text holds.
pub open spec fn manifest_of(source: Seq<char>) -> ManifestView {
    manifest_of_lines(lines(source))
}

// ---------------------------------------------------------------------------
// Reading
// ---------------------------------------------------------------------------
fn recovery_role(role: &str) -> (r: bool)
    ensures
        r == is_recovery_role(role@),
{
    text_eq(role, "project") || text_eq(role, "assets") || text_eq(role, "scene") || text_eq(
        role,
        "document",
    ) || text_eq(role, "text-draft")
}

fn payload_path(path: &str) -> (r: bool)
    ensures
        r == is_payload_path(path@),
{
    let parts = path_components(path);
    assert(texts(parts@).len() == parts@.len());
    if parts.len() == 0 {
        return false;
    }
    assert(texts(parts@)[0] == parts@[0]@);
    text_eq(parts[0].as_str(), "payload")
}

fn flag(s: &str) -> (r: Option<bool>)
    ensures
        match r {
            Some(b) => is_flag(s@) && b == (s@ == "true"@),
            None => !is_flag(s@),
        },
{
    if text_eq(s, "true") {
        Some(true)
    } else if text_eq(s, "false") {
        Some(false)
    } else {
        None
    }
}

fn read_record(words: &Vec<String>) -> (r: Result<RecoveryFileRecord, String>)
    requires
        words@.len() == 8,
    ensures
        match r {
            Ok(file) => file_record(texts(words@)) == Ok::<_, Seq<char>>(file@),
            Err(e) => file_record(texts(words@)) == Err::<RecordView, _>(e@),
        },
{
    assert forall|i: int| 0 <= i < 8 implies texts(words@)[i] == words@[i]@ by {}
    if !recovery_role(words[1].as_str()) {
        return Err("unknown recovery file role".to_owned());
    }
    match validate_relative_path(words[2].as_str(), "recovery target") {
        Ok(_) => {},
        Err(e) => {
            return Err(e);
        },
    }
    match validate_relative_path(words[3].as_str(), "recovery payload") {
        Ok(_) => {},
        Err(e) => {
            return Err(e);
        },
    }
    if !payload_path(words[3].as_str()) {
        return Err("payload must remain inside payload/".to_owned());
    }
    let byte_count = match parse_unsigned(words[4].as_str(), u64::MAX) {
        Some(n) => n,
        None => {
            return Err("invalid payload byte count".to_owned());
        },
    };
    let checksum = match parse_unsigned(words[5].as_str(), u64::MAX) {
        Some(n) => n,
        None => {
            return Err("invalid payload checksum".to_owned());
        },
    };
    let dirty = match flag(words[6].as_str()) {
        Some(b) => b,
        None => {
            return Err("invalid dirty flag".to_owned());
        },
    };
    if flag(words[7].as_str()).is_none() {
        return Err("invalid active flag".to_owned());
    }
    Ok(
        RecoveryFileRecord {
            role: words[1].clone(),
            target: words[2].clone(),
            payload: words[3].clone(),
            byte_count,
            checksum,
            dirty,
        },
    )
}

fn line_text(line_number: usize, text: &str) -> (r: String)
    ensures
        r@ == line_message(line_number as nat, text@),
{
    let mut r = decimal_text(line_number as u64);
    r.append(": ");
    r.append(text);
    r
}

impl RecoveryManifest {
    fn new() -> (m: RecoveryManifest)
        ensures
            m@ == empty_manifest(),
    {
        let m = RecoveryManifest {
            header: false,
            created: None,
            project_root: None,
            project_file: None,
            active_scene: None,
            files: Vec::new(),
            errors: Vec::new(),
        };
        assert(m@.files =~= Seq::<RecordView>::empty());
        assert(m@.errors =~= Seq::<Seq<char>>::empty());
        m
    }

    fn add_error(&mut self, e: String)
        ensures
            final(self)@ == (ManifestView { errors: old(self)@.errors.push(e@), ..old(self)@ }),
    {
        proof {
            lemma_texts_push(self.errors@, e);
        }
        self.errors.push(e);
    }

    fn add_path_fault(&mut self, line_number: usize, path: &str, field: &str)
        ensures
            final(self)@ == (ManifestView {
                errors: with_line_fault(
                    old(self)@.errors,
                    line_number as nat,
                    relative_path_fault(path@, field@),
                ),
                ..old(self)@
            }),
    {
        match validate_relative_path(path, field) {
            Ok(_) => {},
            Err(e) => {
                self.add_error(line_text(line_number, e.as_str()));
            },
        }
    }

    fn add(&mut self, words: &Vec<String>, line_number: usize)
        ensures
            final(self)@ == with_recovery_statement(
                old(self)@,
                texts(words@),
                line_number as nat,
            ),
    {
        let count = words.len();
        let ghost ws = texts(words@);
        proof {
            assert(ws.len() == count);
            assert forall|i: int| 0 <= i < count implies ws[i] == words@[i]@ by {}
            assert(self@.files.len() == self.files@.len());
        }
        if count == 0 {
            return ;
        }
        let k = words[0].as_str();
        let one = count == 2;
        if !self.header {
            let supported = one && text_eq(k, "kairo-recovery") && text_eq(
                words[1].as_str(),
                "1",
            );
            proof {
                let header = seq!["kairo-recovery"@, "1"@];
                if supported {
                    assert(ws =~= header);
                } else {
                    assert(header.len() == 2 && header[0] == "kairo-recovery"@ && header[1] == "1"@);
                }
            }
            if !supported {
                let mut e = decimal_text(line_number as u64);
                e.append(":1: expected supported 'kairo-recovery 1' header");
                self.add_error(e);
            }
            self.header = true;
        } else if one && text_eq(k, "created-unix-ms") && self.created.is_none() {
            self.created = parse_timestamp(words[1].as_str());
            if self.created.is_none() {
                self.add_error(line_text(line_number, "invalid creation timestamp"));
            }
        } else if one && text_eq(k, "project-root") && self.project_root.is_none() {
            self.project_root = Some(words[1].clone());
        } else if one && text_eq(k, "project-file") && self.project_file.is_none() {
            self.add_path_fault(line_number, words[1].as_str(), "recovery project file");
            self.project_file = Some(words[1].clone());
        } else if one && text_eq(k, "active-scene") && self.active_scene.is_none() {
            self.add_path_fault(line_number, words[1].as_str(), "recovery active scene");
            self.active_scene = Some(words[1].clone());
        } else if count == 8 && self.files.len() < MAX_RECOVERY_FILES && text_eq(k, "file") {
            match read_record(words) {
                Ok(file) => {
                    let ghost before = self.files@;
                    self.files.push(file);
                    assert(record_views(self.files@) =~= record_views(before).push(file@));
                },
                Err(e) => {
                    self.add_error(line_text(line_number, e.as_str()));
                },
            }
        } else if self.files.len() >= MAX_RECOVERY_FILES && text_eq(k, "file") {
            self.add_error("Recovery snapshot exceeds its 512-file safety limit".to_owned());
        } else {
            self.add_error(line_text(line_number, "malformed or duplicate recovery statement"));
        }
    }
}

/// Reads a recovery manifest.
pub fn parse_recovery_manifest(source: &str) -> (r: RecoveryManifest)
    ensures
        r@ == manifest_of(source@),
{
    let all = lines_of(source);
    let ghost text_lines = lines(source@);
    let mut m = RecoveryManifest::new();
    let mut i: usize = 0;
    assert(text_lines.take(0) =~= Seq::<Seq<char>>::empty());
    while i < all.len()
        invariant
            i <= all.len(),
            texts(all@) == text_lines,
            m@ == manifest_of_lines(text_lines.take(i as int)),
        decreases all.len() - i,
    {
        proof {
            assert(text_lines.len() == all@.len());
            assert(text_lines[i as int] == all@[i as int]@);
            assert(text_lines.take(i + 1).drop_last() =~= text_lines.take(i as int));
        }
        match tokenize(all[i].as_str(), i + 1) {
            Ok(words) => {
                m.add(&words, i + 1);
            },
            Err(e) => {
                m.add_error(e);
            },
        }
        i += 1;
    }
    assert(text_lines.len() == all@.len());
    assert(text_lines.take(text_lines.len() as int) =~= text_lines);
    m
}

// ---------------------------------------------------------------------------
// What every manifest keeps
// ---------------------------------------------------------------------------
/// A file that stays inside the project and its snapshot.
pub open spec fn sound_record(file: RecordView) -> bool {
    &&& is_recovery_role(file.role)
    &&& relative_path_fault(file.target, "recovery target"@) is None
    &&& relative_path_fault(file.payload, "recovery payload"@) is None
    &&& is_payload_path(file.payload)
}

proof fn lemma_manifest_of_lines(all: Seq<Seq<char>>)
    ensures
        manifest_of_lines(all).files.len() <= MAX_RECOVERY_FILES,
        forall|i: int|
            0 <= i < manifest_of_lines(all).files.len() ==> sound_record(
                #[trigger] manifest_of_lines(all).files[i],
            ),
    decreases all.len(),
{
    if all.len() > 0 {
        lemma_manifest_of_lines(all.drop_last());
    }
}

/// Whatever a manifest says, the files that are taken from it are few enough,
/// have a known role, and stay inside the project and the snapshot's payload
/// directory.
pub proof fn law_manifest_files_are_sound(source: Seq<char>)
    ensures
        manifest_of(source).files.len() <= MAX_RECOVERY_FILES,
        forall|i: int|
            0 <= i < manifest_of(source).files.len() ==> sound_record(
                #[trigger] manifest_of(source).files[i],
            ),
{
    lemma_manifest_of_lines(lines(source));
}

} // verus!
