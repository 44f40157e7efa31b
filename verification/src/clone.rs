//! Cloning a repository.
//!
//! Only HTTPS repositories on two hosts are cloned, into a directory that is not
//! there yet. A clone that does not end in a valid project is removed.
use vstd::prelude::*;

use crate::descriptor::opt_text;
use crate::external::texts_or_error;
use crate::health::{health_of, import_fault, import_project, ProjectFacts};
use crate::path::{
    dot, dot_dot, is_dot, is_dot_dot, is_inside, join_of, join_path,
    law_relative_path_stays_inside, lemma_single_component, relative_path_fault,
};
use crate::process::{CommandView, Outcome, PlannedCommand, ProcessStatus};
use crate::text::{
    ascii_word, begins_with, byte_length, chars_of, control_char, decimal, decimal_text,
    encoded_length, finishes_with, is_ascii_word, is_control_char, is_white_space, skip_chars,
    split, split_on, take_chars, texts, white_space,
};

verus! {

/// The longest repository URL, in bytes.
pub const MAX_REPOSITORY_BYTES: usize = 2048;

// ---------------------------------------------------------------------------
// What may be cloned, and where to
// ---------------------------------------------------------------------------
/// A character of a folder or repository name.
pub open spec fn is_name_char(c: char) -> bool {
    is_ascii_word(c) || c == '-' || c == '_' || c == '.'
}

pub open spec fn all_name_chars(s: Seq<char>) -> bool {
    forall|i: int| 0 <= i < s.len() ==> is_name_char(#[trigger] s[i])
}

/// A folder to clone into.
pub open spec fn is_clone_folder(s: Seq<char>) -> bool {
    s.len() > 0 && all_name_chars(s) && s != dot() && s != dot_dot()
}

fn name_chars_only(s: &str) -> (r: bool)
    ensures
        r == all_name_chars(s@),
{
    let v = chars_of(s);
    let mut i: usize = 0;
    while i < v.len()
        invariant
            i <= v.len(),
            v@ == s@,
            forall|j: int| 0 <= j < i ==> is_name_char(#[trigger] s@[j]),
        decreases v.len() - i,
    {
        let c = v[i];
        if !(ascii_word(c) || c == '-' || c == '_' || c == '.') {
            assert(!is_name_char(s@[i as int]));
            return false;
        }
        i += 1;
    }
    true
}

pub fn validate_clone_folder(folder_name: &str) -> (r: Result<(), String>)
    ensures
        match r {
            Ok(_) => is_clone_folder(folder_name@),
            Err(e) => !is_clone_folder(folder_name@) && e@
                == "Clone folder must contain only letters, digits, '-', '_' or '.'"@,
        },
{
    if folder_name.is_empty() || !name_chars_only(folder_name) || is_dot(folder_name)
        || is_dot_dot(folder_name) {
        return Err(
            "Clone folder must contain only letters, digits, '-', '_' or '.'".to_owned(),
        );
    }
    Ok(())
}

/// A character that no URL to clone may hold.
pub open spec fn is_refused_char(c: char) -> bool {
    is_control_char(c) || is_white_space(c) || c == '?' || c == '#'
}

/// A URL that could be one: not empty, not too long, no refused character.
pub open spec fn is_plain_url(s: Seq<char>) -> bool {
    &&& s.len() > 0
    &&& byte_length(s) <= MAX_REPOSITORY_BYTES
    &&& forall|i: int| 0 <= i < s.len() ==> !is_refused_char(#[trigger] s[i])
}

/// What stands behind the host, on one of the two hosts.
pub open spec fn hosted_path(s: Seq<char>) -> Option<Seq<char>> {
    if "https://github.com/"@.is_prefix_of(s) {
        Some(s.skip("https://github.com/"@.len() as int))
    } else if "https://gitlab.com/"@.is_prefix_of(s) {
        Some(s.skip("https://gitlab.com/"@.len() as int))
    } else {
        None
    }
}

/// An owner, group or project name: it cannot be taken for an option.
pub open spec fn is_repository_part(part: Seq<char>) -> bool {
    &&& part.len() > 0
    &&& part != dot()
    &&& part != dot_dot()
    &&& part[0] != '-'
    &&& all_name_chars(part)
}

/// An owner and a project, with groups between them or without.
pub open spec fn is_project_path(path: Seq<char>) -> bool {
    let parts = split(path, '/');
    parts.len() >= 2 && forall|i: int|
        0 <= i < parts.len() ==> is_repository_part(#[trigger] parts[i])
}

/// Why a repository is not cloned, if it is not.
pub open spec fn repository_fault(s: Seq<char>) -> Option<Seq<char>> {
    if !is_plain_url(s) {
        Some("Repository URL is malformed"@)
    } else {
        match hosted_path(s) {
            None => Some("Repository must use HTTPS on github.com or gitlab.com"@),
            Some(path) => if !".git"@.is_suffix_of(path) {
                Some("Repository URL must end in .git"@)
            } else if !is_project_path(path.take(path.len() - ".git"@.len())) {
                Some("Repository URL has an invalid owner/project path"@)
            } else {
                None
            },
        }
    }
}

fn plain_url(s: &str) -> (r: bool)
    ensures
        r == is_plain_url(s@),
{
    if s.is_empty() || encoded_length(s) > MAX_REPOSITORY_BYTES {
        return false;
    }
    let v = chars_of(s);
    let mut i: usize = 0;
    while i < v.len()
        invariant
            i <= v.len(),
            v@ == s@,
            forall|j: int| 0 <= j < i ==> !is_refused_char(#[trigger] s@[j]),
        decreases v.len() - i,
    {
        let c = v[i];
        if control_char(c) || white_space(c) || c == '?' || c == '#' {
            assert(is_refused_char(s@[i as int]));
            return false;
        }
        i += 1;
    }
    true
}

fn path_on_host(s: &str) -> (r: Option<String>)
    ensures
        opt_text(r) == hosted_path(s@),
{
    proof {
        reveal_strlit("https://github.com/");
        reveal_strlit("https://gitlab.com/");
        assert("https://github.com/"@.len() == 19);
        assert("https://gitlab.com/"@.len() == 19);
    }
    if begins_with(s, "https://github.com/") {
        Some(skip_chars(s, 19))
    } else if begins_with(s, "https://gitlab.com/") {
        Some(skip_chars(s, 19))
    } else {
        None
    }
}

fn repository_part(part: &str) -> (r: bool)
    ensures
        r == is_repository_part(part@),
{
    if part.is_empty() || is_dot(part) || is_dot_dot(part) {
        return false;
    }
    let v = chars_of(part);
    if v[0] == '-' {
        return false;
    }
    name_chars_only(part)
}

fn project_path(path: &str) -> (r: bool)
    ensures
        r == is_project_path(path@),
{
    let parts = split_on(path, '/');
    assert(texts(parts@).len() == parts@.len());
    if parts.len() < 2 {
        return false;
    }
    let mut i: usize = 0;
    while i < parts.len()
        invariant
            i <= parts.len(),
            parts@.len() >= 2,
            texts(parts@) == split(path@, '/'),
            forall|j: int| 0 <= j < i ==> is_repository_part(#[trigger] parts@[j]@),
        decreases parts.len() - i,
    {
        if !repository_part(parts[i].as_str()) {
            assert(!is_repository_part(texts(parts@)[i as int]));
            return false;
        }
        i += 1;
    }
    assert forall|j: int| 0 <= j < texts(parts@).len() implies is_repository_part(
        #[trigger] texts(parts@)[j],
    ) by {
        assert(is_repository_part(parts@[j]@));
    }
    true
}

pub fn validate_clone_repository(repository: &str) -> (r: Result<(), String>)
    ensures
        match r {
            Ok(_) => repository_fault(repository@) is None,
            Err(e) => repository_fault(repository@) == Some(e@),
        },
{
    if !plain_url(repository) {
        return Err("Repository URL is malformed".to_owned());
    }
    let path = match path_on_host(repository) {
        Some(path) => path,
        None => {
            return Err("Repository must use HTTPS on github.com or gitlab.com".to_owned());
        },
    };
    if !finishes_with(path.as_str(), ".git") {
        return Err("Repository URL must end in .git".to_owned());
    }
    proof {
        reveal_strlit(".git");
        assert(".git"@.len() == 4);
    }
    let length = chars_of(path.as_str()).len();
    let project = take_chars(path.as_str(), length - 4);
    if !project_path(project.as_str()) {
        return Err("Repository URL has an invalid owner/project path".to_owned());
    }
    Ok(())
}

// ---------------------------------------------------------------------------
// The clone
// ---------------------------------------------------------------------------
/// A clone, before anything is done.
#[derive(Debug)]
pub struct ClonePlan {
    /// The directory that the clone makes.
    pub destination: String,
    pub command: PlannedCommand,
}

pub struct CloneView {
    pub destination: Seq<char>,
    pub command: CommandView,
}

impl View for ClonePlan {
    type V = CloneView;

    open spec fn view(&self) -> CloneView {
        CloneView { destination: self.destination@, command: self.command@ }
    }
}

/// The call that clones: without history, without a prompt, and with the
/// repository behind the end of the options.
pub open spec fn clone_command(repository: Seq<char>, destination: Seq<char>) -> CommandView {
    CommandView {
        program: "git"@,
        arguments: seq!["clone"@, "--depth"@, "1"@, "--"@, repository, destination],
        environment: Some(("GIT_TERMINAL_PROMPT"@, "0"@)),
        directory: None,
    }
}

/// A clone into `folder_name` below `parent`, or why there is none.
pub open spec fn clone_of(
    repository: Seq<char>,
    parent: Seq<char>,
    folder_name: Seq<char>,
) -> Result<CloneView, Seq<char>> {
    let destination = join_of(parent, folder_name);
    match repository_fault(repository) {
        Some(e) => Err(e),
        None => if !is_clone_folder(folder_name) {
            Err("Clone folder must contain only letters, digits, '-', '_' or '.'"@)
        } else {
            Ok(CloneView { destination, command: clone_command(repository, destination) })
        },
    }
}

/// Plans the clone of a repository with a Kairo project.
pub fn clone_project(repository: &str, parent: &str, folder_name: &str) -> (r: Result<
    ClonePlan,
    String,
>)
    ensures
        match r {
            Ok(plan) => clone_of(repository@, parent@, folder_name@) == Ok::<_, Seq<char>>(plan@),
            Err(e) => clone_of(repository@, parent@, folder_name@) == Err::<CloneView, _>(e@),
        },
{
    match validate_clone_repository(repository) {
        Ok(_) => {},
        Err(e) => {
            return Err(e);
        },
    }
    match validate_clone_folder(folder_name) {
        Ok(_) => {},
        Err(e) => {
            return Err(e);
        },
    }
    let destination = join_path(parent, folder_name);
    let mut arguments: Vec<String> = Vec::new();
    arguments.push("clone".to_owned());
    arguments.push("--depth".to_owned());
    arguments.push("1".to_owned());
    arguments.push("--".to_owned());
    arguments.push(repository.to_owned());
    arguments.push(destination.clone());
    let command = PlannedCommand {
        program: "git".to_owned(),
        arguments,
        environment: Some(("GIT_TERMINAL_PROMPT".to_owned(), "0".to_owned())),
        directory: None,
    };
    assert(command@.arguments =~= clone_command(repository@, destination@).arguments);
    Ok(ClonePlan { destination, command })
}

/// The import that follows the clone of a content repository.
#[derive(Debug)]
pub struct ExternalClone {
    pub clone: ClonePlan,
    /// The scene to import, if one was asked for.
    pub entry_scene: Option<String>,
    /// The name of the project: that of the folder.
    pub display_name: String,
    pub engine_version: String,
}

/// Plans the clone of a content repository, from which a scene is imported.
pub fn clone_external_gltf_project(
    repository: &str,
    parent: &str,
    folder_name: &str,
    entry_scene: Option<String>,
    engine_version: &str,
) -> (r: Result<ExternalClone, String>)
    ensures
        match r {
            Ok(x) => clone_of(repository@, parent@, folder_name@) == Ok::<_, Seq<char>>(x.clone@)
                && x.entry_scene == entry_scene && x.display_name@ == folder_name@
                && x.engine_version@ == engine_version@,
            Err(e) => clone_of(repository@, parent@, folder_name@) == Err::<CloneView, _>(e@),
        },
{
    match clone_project(repository, parent, folder_name) {
        Ok(clone) => Ok(
            ExternalClone {
                clone,
                entry_scene,
                display_name: folder_name.to_owned(),
                engine_version: engine_version.to_owned(),
            },
        ),
        Err(e) => Err(e),
    }
}

/// Refuses to clone to where something stands already.
pub fn check_clone_destination(plan: &ClonePlan, exists: bool) -> (r: Result<(), String>)
    ensures
        r is Ok <==> !exists,
        r matches Err(e) ==> e@ == "Clone destination already exists: "@ + plan@.destination,
{
    if exists {
        let mut e = "Clone destination already exists: ".to_owned();
        e.append(plan.destination.as_str());
        return Err(e);
    }
    Ok(())
}

/// The project in a clone: the only descriptor that was found.
pub open spec fn only_descriptor(found: Result<Seq<Seq<char>>, Seq<char>>) -> Result<
    Seq<char>,
    Seq<char>,
> {
    match found {
        Err(e) => Err(e),
        Ok(list) => if list.len() == 1 {
            Ok(list[0])
        } else if list.len() == 0 {
            Err("Cloned repository contains no .kproject descriptor"@)
        } else {
            Err(
                "Cloned repository contains "@ + decimal(list.len())
                    + " .kproject descriptors; select one through local import instead"@,
            )
        },
    }
}

/// Chooses the project in a clone. `found` are the descriptors in it, or why they
/// could not be searched for.
pub fn choose_descriptor(found: &Result<Vec<String>, String>) -> (r: Result<String, String>)
    ensures
        match r {
            Ok(path) => only_descriptor(texts_or_error(*found)) == Ok::<_, Seq<char>>(path@),
            Err(e) => only_descriptor(texts_or_error(*found)) == Err::<Seq<char>, _>(e@),
        },
{
    match found {
        Err(e) => Err(e.clone()),
        Ok(list) => {
            assert(texts(list@).len() == list@.len());
            if list.len() == 1 {
                assert(texts(list@)[0] == list@[0]@);
                Ok(list[0].clone())
            } else if list.len() == 0 {
                Err("Cloned repository contains no .kproject descriptor".to_owned())
            } else {
                let mut e = "Cloned repository contains ".to_owned();
                e.append(decimal_text(list.len() as u64).as_str());
                e.append(" .kproject descriptors; select one through local import instead");
                Err(e)
            }
        },
    }
}

/// The project that a clone is kept for: the only descriptor in it, if that can be
/// imported.
pub open spec fn cloned_project_of(
    found: Result<Seq<Seq<char>>, Seq<char>>,
    facts: ProjectFacts,
) -> Result<Seq<char>, Seq<char>> {
    match only_descriptor(found) {
        Err(e) => Err(e),
        Ok(path) => match import_fault(path, facts) {
            Some(e) => Err(e),
            None => Ok(path),
        },
    }
}

/// Finds the project in a clone. `found` are the descriptors in it, or why they
/// could not be searched for; `facts` are about the one that
/// [`choose_descriptor`] gives, and do not matter if it gives none.
pub fn cloned_project(found: &Result<Vec<String>, String>, facts: &ProjectFacts) -> (r: Result<
    String,
    String,
>)
    ensures
        match r {
            Ok(path) => cloned_project_of(texts_or_error(*found), *facts) == Ok::<_, Seq<char>>(
                path@,
            ),
            Err(e) => cloned_project_of(texts_or_error(*found), *facts) == Err::<Seq<char>, _>(e@),
        },
{
    match choose_descriptor(found) {
        Err(e) => Err(e),
        Ok(path) => match import_project(path.as_str(), facts) {
            Ok(_) => Ok(path),
            Err(e) => Err(e),
        },
    }
}

/// How a clone that was run is judged: whether it can be used.
pub fn check_clone(status: &Result<ProcessStatus, String>) -> (r: Result<(), String>)
    ensures
        match *status {
            Err(error) => r matches Err(e) && e@ == "Cannot start git clone: "@ + error@,
            Ok(s) => match r {
                Ok(_) => s.success,
                Err(e) => !s.success && e@ == "git clone failed with status "@ + s.text@,
            },
        },
{
    match status {
        Err(error) => {
            let mut e = "Cannot start git clone: ".to_owned();
            e.append(error.as_str());
            Err(e)
        },
        Ok(s) => {
            if s.success {
                Ok(())
            } else {
                let mut e = "git clone failed with status ".to_owned();
                e.append(s.text.as_str());
                Err(e)
            }
        },
    }
}

/// Ends a clone. `status` is how git ended, or why it could not be started;
/// `project` is the project in the clone, or why there is none, if git succeeded.
/// What git made is removed, unless it holds the project.
pub fn conclude_clone(
    plan: ClonePlan,
    status: &Result<ProcessStatus, String>,
    project: Result<String, String>,
) -> (r: Outcome)
    ensures
        match *status {
            Err(error) => (r.result matches Err(e) && e@ == "Cannot start git clone: "@ + error@)
                && r.remove is None,
            Ok(s) => if !s.success {
                (r.result matches Err(e) && e@ == "git clone failed with status "@ + s.text@)
                    && opt_text(r.remove) == Some(plan@.destination)
            } else {
                r.result == project && opt_text(r.remove) == if project is Ok {
                    None
                } else {
                    Some(plan@.destination)
                }
            },
        },
{
    match check_clone(status) {
        Err(e) => Outcome {
            result: Err(e),
            remove: match status {
                Ok(_) => Some(plan.destination),
                Err(_) => None,
            },
        },
        Ok(_) => {
            let remove = match &project {
                Ok(_) => None,
                Err(_) => Some(plan.destination),
            };
            Outcome { result: project, remove }
        },
    }
}

// ---------------------------------------------------------------------------
// Laws
// ---------------------------------------------------------------------------
/// Whatever is cloned comes over HTTPS from one of the two hosts, ends in `.git`,
/// and cannot be taken for an option; it holds no white space, control
/// character, query or fragment.
pub proof fn law_cloned_repository_is_plain(repository: Seq<char>)
    requires
        repository_fault(repository) is None,
    ensures
        "https://github.com/"@.is_prefix_of(repository) || "https://gitlab.com/"@.is_prefix_of(
            repository,
        ),
        ".git"@.is_suffix_of(repository),
        repository[0] == 'h',
        byte_length(repository) <= MAX_REPOSITORY_BYTES,
        forall|i: int| 0 <= i < repository.len() ==> !is_refused_char(#[trigger] repository[i]),
{
    reveal_strlit("https://github.com/");
    reveal_strlit("https://gitlab.com/");
    reveal_strlit(".git");
    let path = hosted_path(repository)->0;
    assert(path.subrange(path.len() - 4, path.len() as int) =~= repository.subrange(
        repository.len() - 4,
        repository.len() as int,
    ));
    assert(repository[0] == repository.subrange(0, 19)[0]);
}

/// A clone stays below the directory that it was asked for: its folder is one
/// name, and git is given the repository and that folder behind the end of the
/// options.
pub proof fn law_clone_stays_in_its_folder(
    repository: Seq<char>,
    parent: Seq<char>,
    folder_name: Seq<char>,
)
    requires
        clone_of(repository, parent, folder_name) is Ok,
    ensures
        ({
            let plan = clone_of(repository, parent, folder_name)->Ok_0;
            &&& is_inside(plan.destination, parent)
            &&& !folder_name.contains('/')
            &&& plan.command.arguments[3] == "--"@
            &&& plan.command.arguments.skip(4) == seq![repository, plan.destination]
        }),
{
    let plan = clone_of(repository, parent, folder_name)->Ok_0;
    assert(plan.command.arguments.skip(4) =~= seq![repository, plan.destination]);
    assert forall|i: int| 0 <= i < folder_name.len() implies folder_name[i] != '/' by {
        assert(is_name_char(folder_name[i]));
    }
    lemma_single_component(folder_name);
    assert(relative_path_fault(folder_name, folder_name) is None) by {
        assert(folder_name.contains(folder_name[0]));
    }
    law_relative_path_stays_inside(parent, folder_name, folder_name);
}

/// A clone is kept if and only if exactly one descriptor was found in it, and the
/// project that it describes is valid. It is then kept for that project.
pub proof fn law_clone_holds_one_project(found: Seq<Seq<char>>, facts: ProjectFacts)
    ensures
        only_descriptor(Ok(found)) is Ok <==> found.len() == 1,
        cloned_project_of(Ok(found), facts) is Ok <==> found.len() == 1 && health_of(
            found[0],
            facts,
        ).valid(),
        cloned_project_of(Ok(found), facts) matches Ok(path) ==> path == found[0],
{
}

} // verus!
