//! Clones: which repositories are cloned, how, and where to.
use vstd::prelude::*;

use crate::clone::{
    all_name_chars, clone_of, hosted_path, is_clone_folder, is_name_char, is_plain_url,
    is_refused_char, is_repository_part, only_descriptor, repository_fault,
};
use crate::laws::path::law_name_is_put_below;
use crate::laws::text::{
    law_character_classes, law_joined_ends, law_joined_lists, law_split_parts_make_the_text,
    law_white_space_is_that_of_unicode,
};
use crate::path::components;
use crate::text::{
    byte_length, decimal, is_control_char, is_white_space, joined, lemma_first_index_is, split,
};

verus! {

/// Letters, digits, `-`, `_` and `.`.
pub open spec fn is_plain_name(s: Seq<char>) -> bool {
    forall|i: int|
        0 <= i < s.len() ==> {
            let c = #[trigger] s[i];
            ||| 'a' <= c <= 'z'
            ||| 'A' <= c <= 'Z'
            ||| '0' <= c <= '9'
            ||| c == '.'
            ||| c == '_'
            ||| c == '-'
        }
}

proof fn lemma_plain_char(c: char)
    ensures
        is_name_char(c) <==> 'a' <= c <= 'z' || 'A' <= c <= 'Z' || '0' <= c <= '9' || c == '.'
            || c == '_' || c == '-',
        is_name_char(c) ==> !is_refused_char(c) && c != '/',
        c == '/' || c == ':' ==> !is_refused_char(c),
{
    law_character_classes(c);
    law_white_space_is_that_of_unicode(c);
}

proof fn lemma_plain_name(s: Seq<char>)
    ensures
        all_name_chars(s) <==> is_plain_name(s),
{
    assert forall|i: int| 0 <= i < s.len() implies (is_name_char(#[trigger] s[i]) <==> 'a' <= s[i]
        <= 'z' || 'A' <= s[i] <= 'Z' || '0' <= s[i] <= '9' || s[i] == '.' || s[i] == '_' || s[i]
        == '-') by {
        lemma_plain_char(s[i]);
    }
    if all_name_chars(s) {
        assert forall|i: int| 0 <= i < s.len() implies {
            let c = #[trigger] s[i];
            ||| 'a' <= c <= 'z'
            ||| 'A' <= c <= 'Z'
            ||| '0' <= c <= '9'
            ||| c == '.'
            ||| c == '_'
            ||| c == '-'
        } by {
            assert(is_name_char(s[i]));
        }
    } else {
        let i = choose|i: int| 0 <= i < s.len() && !is_name_char(#[trigger] s[i]);
        let c = s[i];
        assert(!('a' <= c <= 'z' || 'A' <= c <= 'Z' || '0' <= c <= '9' || c == '.' || c == '_' || c
            == '-'));
    }
}

/// A clone goes into a folder whose name is of letters, digits, `-`, `_` and `.`,
/// and is not empty, `.` or `..`.
pub proof fn law_clone_folders(folder: Seq<char>)
    ensures
        is_clone_folder(folder) <==> {
            &&& folder.len() > 0
            &&& folder != seq!['.'] && folder != seq!['.', '.']
            &&& is_plain_name(folder)
        },
{
    lemma_plain_name(folder);
}

/// A name on a host: not empty, `.` or `..`, not beginning with `-`, of letters,
/// digits, `-`, `_` and `.`.
pub open spec fn is_host_name(part: Seq<char>) -> bool {
    &&& part.len() > 0 && part[0] != '-'
    &&& part != seq!['.'] && part != seq!['.', '.']
    &&& is_plain_name(part)
}

/// The names that make a repository's path: two or more.
pub open spec fn are_host_names(parts: Seq<Seq<char>>) -> bool {
    &&& parts.len() >= 2
    &&& forall|i: int| 0 <= i < parts.len() ==> is_host_name(#[trigger] parts[i])
}

/// The repository of these names on a host.
pub open spec fn repository_at(host: Seq<char>, parts: Seq<Seq<char>>) -> Seq<char> {
    "https://"@ + host + "/"@ + joined(parts, "/"@) + ".git"@
}

proof fn lemma_split_of_joined(parts: Seq<Seq<char>>)
    requires
        parts.len() > 0,
        forall|i: int| 0 <= i < parts.len() ==> !(#[trigger] parts[i]).contains('/'),
    ensures
        split(joined(parts, "/"@), '/') == parts,
    decreases parts.len(),
{
    reveal_strlit("/");
    assert("/"@ =~= seq!['/']);
    let first = parts[0];
    assert forall|i: int| 0 <= i < first.len() implies first[i] != '/' by {
        assert(first.contains(first[i]));
    }
    law_joined_ends(first, "/"@);
    if parts.len() == 1 {
        assert(parts =~= seq![first]);
        lemma_first_index_is(first, '/', first.len() as int);
        assert(split(first, '/') =~= seq![first]);
    } else {
        let rest = parts.drop_first();
        assert forall|i: int| 0 <= i < rest.len() implies !(#[trigger] rest[i]).contains('/') by {
            assert(rest[i] == parts[i + 1]);
        }
        lemma_split_of_joined(rest);
        assert(parts =~= seq![first] + rest);
        law_joined_lists(seq![first], rest, "/"@);
        let s = joined(parts, "/"@);
        let n = first.len() as int;
        assert(s =~= first + seq!['/'] + joined(rest, "/"@));
        lemma_first_index_is(s, '/', n);
        assert(s.take(n) =~= first);
        assert(s.skip(n + 1) =~= joined(rest, "/"@));
        assert(split(s, '/') =~= parts);
    }
}

proof fn lemma_host_names(parts: Seq<Seq<char>>)
    ensures
        are_host_names(parts) <==> parts.len() >= 2 && forall|i: int|
            0 <= i < parts.len() ==> is_repository_part(#[trigger] parts[i]),
{
    assert forall|i: int| 0 <= i < parts.len() implies (is_host_name(#[trigger] parts[i])
        <==> is_repository_part(parts[i])) by {
        lemma_plain_name(parts[i]);
    }
    if parts.len() >= 2 && forall|i: int|
        0 <= i < parts.len() ==> is_repository_part(#[trigger] parts[i]) {
        assert forall|i: int| 0 <= i < parts.len() implies is_host_name(#[trigger] parts[i]) by {
            assert(is_repository_part(parts[i]));
        }
    }
    if are_host_names(parts) {
        assert forall|i: int| 0 <= i < parts.len() implies is_repository_part(
            #[trigger] parts[i],
        ) by {
            assert(is_host_name(parts[i]));
        }
    }
}

proof fn lemma_joined_is_plain(parts: Seq<Seq<char>>)
    requires
        parts.len() > 0,
        forall|i: int| 0 <= i < parts.len() ==> is_repository_part(#[trigger] parts[i]),
    ensures
        forall|k: int|
            0 <= k < joined(parts, "/"@).len() ==> !is_refused_char(
                #[trigger] joined(parts, "/"@)[k],
            ),
    decreases parts.len(),
{
    reveal_strlit("/");
    assert("/"@ =~= seq!['/']);
    let first = parts[0];
    let s = joined(parts, "/"@);
    assert(is_repository_part(first));
    law_joined_ends(first, "/"@);
    if parts.len() == 1 {
        assert(parts =~= seq![first]);
        assert forall|k: int| 0 <= k < s.len() implies !is_refused_char(#[trigger] s[k]) by {
            assert(is_name_char(first[k]));
            lemma_plain_char(s[k]);
        }
    } else {
        let rest = parts.drop_first();
        assert forall|i: int| 0 <= i < rest.len() implies is_repository_part(
            #[trigger] rest[i],
        ) by {
            assert(rest[i] == parts[i + 1]);
        }
        lemma_joined_is_plain(rest);
        assert(parts =~= seq![first] + rest);
        law_joined_lists(seq![first], rest, "/"@);
        let below = joined(rest, "/"@);
        assert(s =~= first + seq!['/'] + below);
        assert forall|k: int| 0 <= k < s.len() implies !is_refused_char(#[trigger] s[k]) by {
            lemma_plain_char(s[k]);
            if k < first.len() {
                assert(is_name_char(first[k]));
            } else if k > first.len() {
                assert(s[k] == below[k - first.len() - 1]);
            }
        }
    }
}

proof fn lemma_hosts()
    ensures
        "https://"@ + "github.com"@ + "/"@ == "https://github.com/"@,
        "https://"@ + "gitlab.com"@ + "/"@ == "https://gitlab.com/"@,
        "https://github.com/"@.len() == 19 && "https://gitlab.com/"@.len() == 19,
        "https://github.com/"@[9] == 'i' && "https://github.com/"@[11] == 'h',
        "https://gitlab.com/"@[11] == 'l',
        ".git"@.len() == 4,
        forall|i: int| 0 <= i < 19 ==> !is_refused_char(#[trigger] "https://github.com/"@[i]),
        forall|i: int| 0 <= i < 19 ==> !is_refused_char(#[trigger] "https://gitlab.com/"@[i]),
        forall|i: int| 0 <= i < 4 ==> !is_refused_char(#[trigger] ".git"@[i]),
{
    reveal_strlit("https://");
    reveal_strlit("github.com");
    reveal_strlit("gitlab.com");
    reveal_strlit("/");
    reveal_strlit("https://github.com/");
    reveal_strlit("https://gitlab.com/");
    reveal_strlit(".git");
    assert("https://"@ + "github.com"@ + "/"@ =~= "https://github.com/"@);
    assert("https://"@ + "gitlab.com"@ + "/"@ =~= "https://gitlab.com/"@);
    assert forall|i: int| 0 <= i < 19 implies !is_refused_char(
        #[trigger] "https://github.com/"@[i],
    ) by {
        lemma_plain_char("https://github.com/"@[i]);
    }
    assert forall|i: int| 0 <= i < 19 implies !is_refused_char(
        #[trigger] "https://gitlab.com/"@[i],
    ) by {
        lemma_plain_char("https://gitlab.com/"@[i]);
    }
    assert forall|i: int| 0 <= i < 4 implies !is_refused_char(#[trigger] ".git"@[i]) by {
        lemma_plain_char(".git"@[i]);
    }
}

/// Every repository on `github.com` or `gitlab.com` whose path is an owner and a
/// project, with groups between them or not, is cloned, if its address has at most
/// 2048 bytes.
pub proof fn law_hosted_repositories_are_cloned(host: Seq<char>, parts: Seq<Seq<char>>)
    requires
        host == "github.com"@ || host == "gitlab.com"@,
        are_host_names(parts),
        byte_length(repository_at(host, parts)) <= 2048,
    ensures
        repository_fault(repository_at(host, parts)) is None,
{
    lemma_hosts();
    lemma_host_names(parts);
    lemma_joined_is_plain(parts);
    let s = repository_at(host, parts);
    let begin = "https://"@ + host + "/"@;
    let below = joined(parts, "/"@);
    let path = below + ".git"@;
    assert(s =~= begin + path);
    assert(s.subrange(0, 19) =~= begin);
    assert(s.skip(19) =~= path);
    assert forall|i: int| 0 <= i < s.len() implies !is_refused_char(#[trigger] s[i]) by {
        if i < 19 {
            assert(s[i] == begin[i]);
        } else if i < 19 + below.len() {
            assert(s[i] == below[i - 19]);
        } else {
            assert(s[i] == ".git"@[i - 19 - below.len()]);
        }
    }
    assert(is_plain_url(s));
    if host == "gitlab.com"@ {
        assert(!"https://github.com/"@.is_prefix_of(s)) by {
            if "https://github.com/"@.is_prefix_of(s) {
                assert(s.subrange(0, 19)[11] == 'h');
            }
        }
    }
    assert(hosted_path(s) == Some(path));
    assert(path.subrange(path.len() - 4, path.len() as int) =~= ".git"@);
    assert(path.take(path.len() - 4) =~= below);
    assert forall|i: int| 0 <= i < parts.len() implies !(#[trigger] parts[i]).contains('/') by {
        assert(is_repository_part(parts[i]));
        assert forall|k: int| 0 <= k < parts[i].len() implies parts[i][k] != '/' by {
            assert(is_name_char(parts[i][k]));
            lemma_plain_char(parts[i][k]);
        }
    }
    lemma_split_of_joined(parts);
}

/// Nothing else is cloned.
pub proof fn law_only_hosted_repositories_are_cloned(s: Seq<char>)
    requires
        repository_fault(s) is None,
    ensures
        byte_length(s) <= 2048,
        exists|host: Seq<char>, parts: Seq<Seq<char>>|
            (host == "github.com"@ || host == "gitlab.com"@) && are_host_names(parts) && s
                == #[trigger] repository_at(host, parts),
{
    lemma_hosts();
    let path = hosted_path(s)->0;
    let host = if "https://github.com/"@.is_prefix_of(s) {
        "github.com"@
    } else {
        "gitlab.com"@
    };
    let begin = "https://"@ + host + "/"@;
    let below = path.take(path.len() - 4);
    let parts = split(below, '/');
    lemma_host_names(parts);
    law_split_parts_make_the_text(below, '/');
    reveal_strlit("/");
    assert("/"@ =~= seq!['/']);
    assert(joined(parts, "/"@) == below);
    assert(s.subrange(0, 19) == begin);
    assert(path.subrange(path.len() - 4, path.len() as int) == ".git"@);
    assert(path =~= below + ".git"@);
    assert(s =~= s.subrange(0, 19) + s.skip(19));
    assert(s =~= repository_at(host, parts));
}

/// A repository that is not cloned is refused for the first of these: an address
/// that is empty, over 2048 bytes or holds a control character, white space, `?` or
/// `#`; another host or no HTTPS; an end other than `.git`; a path that is not an
/// owner and a project.
pub proof fn law_refused_repositories(s: Seq<char>)
    ensures
        repository_fault(s) matches Some(e) ==> {
            let malformed = s.len() == 0 || byte_length(s) > 2048 || exists|i: int|
                0 <= i < s.len() && (is_control_char(#[trigger] s[i]) || is_white_space(s[i])
                    || s[i] == '#' || s[i] == '?');
            let hosted = "https://github.com/"@.is_prefix_of(s)
                || "https://gitlab.com/"@.is_prefix_of(s);
            if malformed {
                e == "Repository URL "@ + "is malformed"@
            } else if !hosted {
                e == "Repository must use HTTPS "@ + "on github.com or gitlab.com"@
            } else if !".git"@.is_suffix_of(s.skip(19)) {
                e == "Repository URL "@ + "must end in .git"@
            } else {
                e == "Repository URL "@ + "has an invalid owner/project path"@
            }
        },
{
    lemma_hosts();
    reveal_strlit("Repository URL ");
    reveal_strlit("is malformed");
    reveal_strlit("Repository URL is malformed");
    reveal_strlit("Repository must use HTTPS ");
    reveal_strlit("on github.com or gitlab.com");
    reveal_strlit("Repository must use HTTPS on github.com or gitlab.com");
    reveal_strlit("must end in .git");
    reveal_strlit("Repository URL must end in .git");
    reveal_strlit("has an invalid owner/project path");
    reveal_strlit("Repository URL has an invalid owner/project path");
    assert("Repository URL "@ + "is malformed"@ =~= "Repository URL is malformed"@);
    assert("Repository must use HTTPS "@ + "on github.com or gitlab.com"@
        =~= "Repository must use HTTPS on github.com or gitlab.com"@);
    assert("Repository URL "@ + "must end in .git"@ =~= "Repository URL must end in .git"@);
    assert("Repository URL "@ + "has an invalid owner/project path"@
        =~= "Repository URL has an invalid owner/project path"@);
    if s.len() > 0 && byte_length(s) <= 2048 && !is_plain_url(s) {
        let i = choose|i: int| 0 <= i < s.len() && is_refused_char(#[trigger] s[i]);
        assert(is_control_char(s[i]) || is_white_space(s[i]) || s[i] == '#' || s[i] == '?');
    }
    if exists|i: int|
        0 <= i < s.len() && (is_control_char(#[trigger] s[i]) || is_white_space(s[i]) || s[i]
            == '#' || s[i] == '?') {
        let i = choose|i: int|
            0 <= i < s.len() && (is_control_char(#[trigger] s[i]) || is_white_space(s[i]) || s[i]
                == '#' || s[i] == '?');
        assert(is_refused_char(s[i]));
    }
}

/// A clone is planned just if the repository and the folder are in order; git is
/// called without history, without a prompt, with the repository and the
/// destination behind the end of the options; and the destination is the folder in
/// the parent.
pub proof fn law_clone_is_planned(repository: Seq<char>, parent: Seq<char>, folder: Seq<char>)
    requires
        parent.len() > 0,
    ensures
        match clone_of(repository, parent, folder) {
            Err(e) => match repository_fault(repository) {
                Some(fault) => e == fault,
                None => !is_clone_folder(folder) && e == "Clone folder must contain only "@
                    + "letters, digits, '-', '_' or '.'"@,
            },
            Ok(plan) => {
                &&& repository_fault(repository) is None && is_clone_folder(folder)
                &&& components(plan.destination) == components(parent).push(folder)
                &&& plan.command.program == "git"@
                &&& plan.command.arguments.len() == 6
                &&& plan.command.arguments[0] == "clone"@
                &&& plan.command.arguments[1] == "--depth"@
                &&& plan.command.arguments[2] == "1"@
                &&& plan.command.arguments[3] == "--"@
                &&& plan.command.arguments[4] == repository
                &&& plan.command.arguments[5] == plan.destination
                &&& plan.command.environment == Some(("GIT_TERMINAL"@ + "_PROMPT"@, "0"@))
                &&& plan.command.directory is None
            },
        },
{
    reveal_strlit("Clone folder must contain only ");
    reveal_strlit("letters, digits, '-', '_' or '.'");
    reveal_strlit("Clone folder must contain only letters, digits, '-', '_' or '.'");
    assert("Clone folder must contain only "@ + "letters, digits, '-', '_' or '.'"@
        =~= "Clone folder must contain only letters, digits, '-', '_' or '.'"@);
    reveal_strlit("GIT_TERMINAL");
    reveal_strlit("_PROMPT");
    reveal_strlit("GIT_TERMINAL_PROMPT");
    assert("GIT_TERMINAL"@ + "_PROMPT"@ =~= "GIT_TERMINAL_PROMPT"@);
    if let Ok(plan) = clone_of(repository, parent, folder) {
        assert forall|k: int| 0 <= k < folder.len() implies folder[k] != '/' by {
            assert(is_name_char(folder[k]));
            lemma_plain_char(folder[k]);
        }
        law_name_is_put_below(parent, folder);
    }
}

/// A clone with no descriptor, or with more than one, is refused: the message says
/// how many there are.
pub proof fn law_clone_needs_one_descriptor(found: Result<Seq<Seq<char>>, Seq<char>>)
    ensures
        match found {
            Err(e) => only_descriptor(found) == Err::<Seq<char>, _>(e),
            Ok(list) => {
                &&& list.len() == 1 ==> only_descriptor(found) == Ok::<_, Seq<char>>(list[0])
                &&& list.len() == 0 ==> only_descriptor(found) == Err::<Seq<char>, _>(
                    "Cloned repository contains "@ + "no .kproject descriptor"@,
                )
                &&& list.len() > 1 ==> only_descriptor(found) == Err::<Seq<char>, _>(
                    "Cloned repository contains "@ + decimal(list.len())
                        + " .kproject descriptors; "@
                        + "select one through local import instead"@,
                )
            },
        },
{
    reveal_strlit("Cloned repository contains ");
    reveal_strlit("no .kproject descriptor");
    reveal_strlit("Cloned repository contains no .kproject descriptor");
    reveal_strlit(" .kproject descriptors; ");
    reveal_strlit("select one through local import instead");
    reveal_strlit(" .kproject descriptors; select one through local import instead");
    assert("Cloned repository contains "@ + "no .kproject descriptor"@
        =~= "Cloned repository contains no .kproject descriptor"@);
    if let Ok(list) = found {
        let begin = "Cloned repository contains "@ + decimal(list.len());
        assert(begin + " .kproject descriptors; "@ + "select one through local import instead"@
            =~= begin + " .kproject descriptors; select one through local import instead"@);
    }
}

} // verus!
