//! Engine installations: the version, and where the tools are.
use vstd::prelude::*;

use crate::engine::{
    compiler_places, editor_places, editor_search, installation_of, law_tool_is_at_its_first_place,
    lemma_place_of, player_places, tool_paths, version_from, version_of, version_on, version_tail,
    without_parentheses, word_at_start,
};
use crate::laws::text::law_lines_end_at_line_feeds;
use crate::layout::lemma_lines_add;
use crate::path::join_of;
use crate::text::{is_white_space, lines, occurs, occurs_at, trim_start};

verus! {

proof fn lemma_passed_over(before: Seq<Seq<char>>, rest: Seq<Seq<char>>, at: int)
    requires
        0 <= at <= before.len(),
        forall|i: int|
            0 <= i < before.len() ==> !(occurs(#[trigger] before[i], "project(KairoGameEngine"@)
                && occurs(before[i], "VERSION"@)),
    ensures
        version_from(before + rest, at) == version_from(rest, 0),
    decreases before.len() - at,
{
    if at < before.len() {
        assert((before + rest)[at] == before[at]);
        lemma_passed_over(before, rest, at + 1);
    } else {
        lemma_same_from(before, rest, 0);
    }
}

proof fn lemma_same_from(before: Seq<Seq<char>>, rest: Seq<Seq<char>>, at: int)
    requires
        0 <= at <= rest.len(),
    ensures
        version_from(before + rest, before.len() + at) == version_from(rest, at),
    decreases rest.len() - at,
{
    if at < rest.len() {
        assert((before + rest)[before.len() + at] == rest[at]);
        lemma_same_from(before, rest, at + 1);
    }
}

/// Lines that do not hold both `project(KairoGameEngine` and `VERSION` do not
/// bear on the version: it is that of the text without them. With no other lines
/// it is `development`.
pub proof fn law_other_lines_do_not_give_the_version(before: Seq<char>, source: Seq<char>)
    requires
        before.len() == 0 || before.last() == '\n',
        forall|i: int|
            0 <= i < lines(before).len() ==> !(occurs(
                #[trigger] lines(before)[i],
                "project(KairoGameEngine"@,
            ) && occurs(lines(before)[i], "VERSION"@)),
    ensures
        version_of(before + source) == version_of(source),
        version_of(before) == "development"@,
{
    lemma_lines_add(before, source);
    lemma_passed_over(lines(before), lines(source), 0);
    lemma_passed_over(lines(before), Seq::empty(), 0);
    assert(lines(before) + Seq::<Seq<char>>::empty() =~= lines(before));
}

proof fn lemma_gap(gap: Seq<char>, rest: Seq<char>)
    requires
        forall|i: int| 0 <= i < gap.len() ==> is_white_space(#[trigger] gap[i]),
        rest.len() == 0 || !is_white_space(rest[0]),
    ensures
        trim_start(gap + rest) == rest,
    decreases gap.len(),
{
    if gap.len() == 0 {
        assert(gap + rest =~= rest);
    } else {
        assert(is_white_space(gap[0]));
        assert((gap + rest).drop_first() =~= gap.drop_first() + rest);
        assert forall|i: int| 0 <= i < gap.drop_first().len() implies is_white_space(
            #[trigger] gap.drop_first()[i],
        ) by {
            assert(gap.drop_first()[i] == gap[i + 1]);
        }
        lemma_gap(gap.drop_first(), rest);
    }
}

proof fn lemma_word(word: Seq<char>, rest: Seq<char>)
    requires
        forall|i: int| 0 <= i < word.len() ==> !is_white_space(#[trigger] word[i]),
        rest.len() == 0 || is_white_space(rest[0]),
    ensures
        word_at_start(word + rest) == word,
    decreases word.len(),
{
    if word.len() == 0 {
        assert(word + rest =~= rest);
        assert(word =~= Seq::<char>::empty());
    } else {
        assert(!is_white_space(word[0]));
        assert((word + rest).drop_first() =~= word.drop_first() + rest);
        assert forall|i: int| 0 <= i < word.drop_first().len() implies !is_white_space(
            #[trigger] word.drop_first()[i],
        ) by {
            assert(word.drop_first()[i] == word[i + 1]);
        }
        lemma_word(word.drop_first(), rest);
        assert(seq![word[0]] + word.drop_first() =~= word);
    }
}

proof fn lemma_closing(word: Seq<char>, closing: Seq<char>)
    requires
        word.len() == 0 || word.last() != ')',
        forall|i: int| 0 <= i < closing.len() ==> #[trigger] closing[i] == ')',
    ensures
        without_parentheses(word + closing) == word,
    decreases closing.len(),
{
    if closing.len() == 0 {
        assert(word + closing =~= word);
    } else {
        assert(closing[closing.len() - 1] == ')');
        assert((word + closing).drop_last() =~= word + closing.drop_last());
        lemma_closing(word, closing.drop_last());
    }
}

proof fn lemma_tail(head: Seq<char>, after: Seq<char>, cut: Seq<char>)
    requires
        !occurs(head + "VERSIO"@, "VERSION"@),
        !occurs(after + "VERSIO"@, "VERSION"@),
        cut.len() == 0 || "VERSION"@.is_prefix_of(cut),
    ensures
        version_tail(head + "VERSION"@ + after + cut) == after,
        occurs(head + "VERSION"@ + after + cut, "VERSION"@),
{
    let needle = "VERSION"@;
    reveal_strlit("VERSION");
    reveal_strlit("VERSIO");
    assert(needle.len() == 7);
    assert("VERSIO"@ =~= needle.drop_last());
    let line = head + needle + after + cut;
    let at = head.len() as int;
    assert(line.subrange(at, at + 7) =~= needle);
    assert forall|i: int| 0 <= i < at implies !occurs_at(line, needle, i) by {
        if occurs_at(line, needle, i) {
            assert((head + "VERSIO"@).subrange(i, i + 7) =~= line.subrange(i, i + 7));
            assert(occurs_at(head + "VERSIO"@, needle, i));
        }
    }
    assert(occurs_at(line, needle, at));
    lemma_place_of(line, needle, at);
    let rest = line.skip(at + 7);
    assert(rest =~= after + cut);
    let end = after.len() as int;
    if cut.len() == 0 {
        if occurs(rest, needle) {
            let i = choose|i: int| occurs_at(rest, needle, i);
            assert((after + "VERSIO"@).subrange(i, i + 7) =~= rest.subrange(i, i + 7));
            assert(occurs_at(after + "VERSIO"@, needle, i));
        }
        assert(rest =~= after);
    } else {
        assert(rest.subrange(end, end + 7) =~= needle) by {
            assert(needle == cut.subrange(0, 7));
        }
        assert forall|i: int| 0 <= i < end implies !occurs_at(rest, needle, i) by {
            if occurs_at(rest, needle, i) {
                assert((after + "VERSIO"@).subrange(i, i + 7) =~= rest.subrange(i, i + 7)) by {
                    assert(needle == cut.subrange(0, 7));
                    assert forall|j: int| i <= j < i + 7 implies #[trigger] (after
                        + "VERSIO"@)[j] == rest[j] by {
                        if j >= end {
                            assert(cut[j - end] == needle[j - end]);
                        }
                    }
                }
                assert(occurs_at(after + "VERSIO"@, needle, i));
            }
        }
        lemma_place_of(rest, needle, end);
        assert(rest.take(end) =~= after);
    }
}

/// The version is the word behind the first `VERSION` of the first line that holds
/// both `project(KairoGameEngine` and `VERSION`, whatever follows: white space may
/// stand before the word, and the parentheses that close behind it are not part of
/// it. Without a word before the next `VERSION` it is `development`.
pub proof fn law_version_is_the_word_behind(
    head: Seq<char>,
    gap: Seq<char>,
    word: Seq<char>,
    closing: Seq<char>,
    tail: Seq<char>,
    cut: Seq<char>,
    behind: Seq<char>,
)
    requires
        ({
            let after = gap + word + closing + tail;
            let line = head + "VERSION"@ + after + cut;
            &&& occurs(line, "project(KairoGameEngine"@)
            &&& !line.contains('\n') && line.last() != '\r'
            &&& !occurs(head + "VERSIO"@, "VERSION"@)
            &&& !occurs(after + "VERSIO"@, "VERSION"@)
            &&& cut.len() == 0 || "VERSION"@.is_prefix_of(cut)
        }),
        forall|i: int| 0 <= i < gap.len() ==> is_white_space(#[trigger] gap[i]),
        forall|i: int| 0 <= i < word.len() ==> !is_white_space(#[trigger] word[i]),
        word.len() == 0 || word.last() != ')',
        forall|i: int| 0 <= i < closing.len() ==> #[trigger] closing[i] == ')',
        tail.len() == 0 || is_white_space(tail[0]) && word.len() + closing.len() > 0,
    ensures
        ({
            let line = head + "VERSION"@ + (gap + word + closing + tail) + cut;
            let version = if word.len() + closing.len() == 0 {
                "development"@
            } else {
                word
            };
            version_of(line) == version && version_of(line.push('\n') + behind) == version
        }),
{
    let after = gap + word + closing + tail;
    let line = head + "VERSION"@ + after + cut;
    lemma_tail(head, after, cut);
    let whole = word + closing;
    assert(after =~= gap + (whole + tail));
    assert forall|i: int| 0 <= i < whole.len() implies !is_white_space(#[trigger] whole[i]) by {
        if i < word.len() {
            assert(whole[i] == word[i]);
        } else {
            assert(whole[i] == closing[i - word.len()]);
        }
    }
    if whole.len() > 0 {
        assert((whole + tail)[0] == whole[0]);
        assert(!is_white_space(whole[0]));
    }
    lemma_gap(gap, whole + tail);
    lemma_word(whole, tail);
    lemma_closing(word, closing);
    reveal_strlit("VERSION");
    assert(line.len() > 0);
    law_lines_end_at_line_feeds(line, behind);
    let all = lines(line.push('\n') + behind);
    assert(all[0] == line);
    assert(lines(line)[0] == line);
    assert(version_on(line) == if whole.len() == 0 {
        "development"@
    } else {
        word
    });
}

/// What the presets build in a directory: first `dev-clang`, then `dev`, then
/// `release`.
pub open spec fn built(root: Seq<char>, directory: Seq<char>, tool: Seq<char>) -> Seq<Seq<char>> {
    seq![
        join_of(root, "build/"@ + "dev-clang"@ + directory + tool),
        join_of(root, "build/"@ + "dev"@ + directory + tool),
        join_of(root, "build/"@ + "release"@ + directory + tool),
    ]
}

/// `tool` is the first of the places that exists, or the first of all where none
/// does, and it is available just if one does.
pub open spec fn is_first_there(
    tool: Seq<char>,
    available: bool,
    places: Seq<Seq<char>>,
    existing: Seq<Seq<char>>,
) -> bool {
    &&& available <==> exists|i: int|
        0 <= i < places.len() && existing.contains(#[trigger] places[i])
    &&& available ==> exists|i: int|
        0 <= i < places.len() && #[trigger] places[i] == tool && existing.contains(tool) && forall|
            j: int,
        |
            0 <= j < i ==> !existing.contains(#[trigger] places[j])
    &&& !available ==> tool == places[0]
}

proof fn lemma_editor_places(root: Seq<char>, extension: Seq<char>)
    ensures
        tool_paths(root, editor_places(), extension) == built(
            root,
            "/components/KairoEditor/"@,
            "KairoEditorApp"@ + extension,
        ) + built(root, "/KairoEditor/"@, "KairoEditorApp"@ + extension) + seq![
            join_of(root, "KairoEditor/build/"@ + "KairoEditorApp"@ + extension),
        ],
{
    reveal_strlit("build/");
    reveal_strlit("dev-clang");
    reveal_strlit("dev");
    reveal_strlit("release");
    reveal_strlit("/components/KairoEditor/");
    reveal_strlit("/KairoEditor/");
    reveal_strlit("KairoEditorApp");
    reveal_strlit("KairoEditor/build/");
    reveal_strlit("build/dev-clang/components/KairoEditor/KairoEditorApp");
    reveal_strlit("build/dev/components/KairoEditor/KairoEditorApp");
    reveal_strlit("build/release/components/KairoEditor/KairoEditorApp");
    reveal_strlit("build/dev-clang/KairoEditor/KairoEditorApp");
    reveal_strlit("build/dev/KairoEditor/KairoEditorApp");
    reveal_strlit("build/release/KairoEditor/KairoEditorApp");
    reveal_strlit("KairoEditor/build/KairoEditorApp");
    let tool = "KairoEditorApp"@ + extension;
    let p = editor_places();
    assert(p[0] + extension =~= "build/"@ + "dev-clang"@ + "/components/KairoEditor/"@ + tool);
    assert(p[1] + extension =~= "build/"@ + "dev"@ + "/components/KairoEditor/"@ + tool);
    assert(p[2] + extension =~= "build/"@ + "release"@ + "/components/KairoEditor/"@ + tool);
    assert(p[3] + extension =~= "build/"@ + "dev-clang"@ + "/KairoEditor/"@ + tool);
    assert(p[4] + extension =~= "build/"@ + "dev"@ + "/KairoEditor/"@ + tool);
    assert(p[5] + extension =~= "build/"@ + "release"@ + "/KairoEditor/"@ + tool);
    assert(p[6] + extension =~= "KairoEditor/build/"@ + "KairoEditorApp"@ + extension);
    assert(tool_paths(root, p, extension) =~= built(root, "/components/KairoEditor/"@, tool)
        + built(root, "/KairoEditor/"@, tool) + seq![
        join_of(root, "KairoEditor/build/"@ + "KairoEditorApp"@ + extension),
    ]);
}

proof fn lemma_compiler_places(root: Seq<char>, extension: Seq<char>)
    ensures
        tool_paths(root, compiler_places(), extension) == built(
            root,
            "/components/KairoEditor/"@,
            "KairoProjectCompiler"@ + extension,
        ) + built(root, "/KairoEditor/"@, "KairoProjectCompiler"@ + extension) + seq![
            join_of(root, "KairoEditor/build/"@ + "KairoProjectCompiler"@ + extension),
        ],
{
    reveal_strlit("build/");
    reveal_strlit("dev-clang");
    reveal_strlit("dev");
    reveal_strlit("release");
    reveal_strlit("/components/KairoEditor/");
    reveal_strlit("/KairoEditor/");
    reveal_strlit("KairoProjectCompiler");
    reveal_strlit("KairoEditor/build/");
    reveal_strlit("build/dev-clang/components/KairoEditor/KairoProjectCompiler");
    reveal_strlit("build/dev/components/KairoEditor/KairoProjectCompiler");
    reveal_strlit("build/release/components/KairoEditor/KairoProjectCompiler");
    reveal_strlit("build/dev-clang/KairoEditor/KairoProjectCompiler");
    reveal_strlit("build/dev/KairoEditor/KairoProjectCompiler");
    reveal_strlit("build/release/KairoEditor/KairoProjectCompiler");
    reveal_strlit("KairoEditor/build/KairoProjectCompiler");
    let tool = "KairoProjectCompiler"@ + extension;
    let p = compiler_places();
    assert(p[0] + extension =~= "build/"@ + "dev-clang"@ + "/components/KairoEditor/"@ + tool);
    assert(p[1] + extension =~= "build/"@ + "dev"@ + "/components/KairoEditor/"@ + tool);
    assert(p[2] + extension =~= "build/"@ + "release"@ + "/components/KairoEditor/"@ + tool);
    assert(p[3] + extension =~= "build/"@ + "dev-clang"@ + "/KairoEditor/"@ + tool);
    assert(p[4] + extension =~= "build/"@ + "dev"@ + "/KairoEditor/"@ + tool);
    assert(p[5] + extension =~= "build/"@ + "release"@ + "/KairoEditor/"@ + tool);
    assert(p[6] + extension =~= "KairoEditor/build/"@ + "KairoProjectCompiler"@ + extension);
    assert(tool_paths(root, p, extension) =~= built(root, "/components/KairoEditor/"@, tool)
        + built(root, "/KairoEditor/"@, tool) + seq![
        join_of(root, "KairoEditor/build/"@ + "KairoProjectCompiler"@ + extension),
    ]);
}

proof fn lemma_player_places(root: Seq<char>, extension: Seq<char>)
    ensures
        tool_paths(root, player_places(), extension) == built(
            root,
            "/Runtime/KairoPlayer/"@,
            "KairoPlayer"@ + extension,
        ),
{
    reveal_strlit("build/");
    reveal_strlit("dev-clang");
    reveal_strlit("dev");
    reveal_strlit("release");
    reveal_strlit("/Runtime/KairoPlayer/");
    reveal_strlit("KairoPlayer");
    reveal_strlit("build/dev-clang/Runtime/KairoPlayer/KairoPlayer");
    reveal_strlit("build/dev/Runtime/KairoPlayer/KairoPlayer");
    reveal_strlit("build/release/Runtime/KairoPlayer/KairoPlayer");
    let tool = "KairoPlayer"@ + extension;
    let p = player_places();
    assert(p[0] + extension =~= "build/"@ + "dev-clang"@ + "/Runtime/KairoPlayer/"@ + tool);
    assert(p[1] + extension =~= "build/"@ + "dev"@ + "/Runtime/KairoPlayer/"@ + tool);
    assert(p[2] + extension =~= "build/"@ + "release"@ + "/Runtime/KairoPlayer/"@ + tool);
    assert(tool_paths(root, p, extension) =~= built(root, "/Runtime/KairoPlayer/"@, tool));
}

/// A directory is an engine if and only if its build file names
/// `project(KairoGameEngine`. Editor and project compiler are where a preset built
/// them as components, else where it built them in the former layout, else in the
/// editor's own build directory; the player is where a preset built it.
pub proof fn law_installation_is_what_was_built(
    root: Seq<char>,
    source: Seq<char>,
    extension: Seq<char>,
    existing: Seq<Seq<char>>,
)
    ensures
        match installation_of(root, source, extension, existing) {
            Err(e) => !occurs(source, "project(KairoGameEngine"@) && e
                == "Selected directory is not a KairoGameEngine umbrella checkout"@,
            Ok(engine) => {
                &&& occurs(source, "project(KairoGameEngine"@)
                &&& engine.root == root
                &&& engine.version == version_of(source)
                &&& is_first_there(
                    engine.editor,
                    engine.editor_available,
                    built(root, "/components/KairoEditor/"@, "KairoEditorApp"@ + extension) + built(
                        root,
                        "/KairoEditor/"@,
                        "KairoEditorApp"@ + extension,
                    ) + seq![join_of(root, "KairoEditor/build/"@ + "KairoEditorApp"@ + extension)],
                    existing,
                )
                &&& is_first_there(
                    engine.project_compiler,
                    engine.project_compiler_available,
                    built(root, "/components/KairoEditor/"@, "KairoProjectCompiler"@ + extension)
                        + built(root, "/KairoEditor/"@, "KairoProjectCompiler"@ + extension)
                        + seq![
                        join_of(root, "KairoEditor/build/"@ + "KairoProjectCompiler"@ + extension),
                    ],
                    existing,
                )
                &&& is_first_there(
                    engine.player,
                    engine.player_available,
                    built(root, "/Runtime/KairoPlayer/"@, "KairoPlayer"@ + extension),
                    existing,
                )
            },
        },
{
    lemma_editor_places(root, extension);
    lemma_compiler_places(root, extension);
    lemma_player_places(root, extension);
    law_tool_is_at_its_first_place(root, editor_places(), extension, existing);
    law_tool_is_at_its_first_place(root, compiler_places(), extension, existing);
    law_tool_is_at_its_first_place(root, player_places(), extension, existing);
}

/// Without a selected engine the editor is looked for at the path that names it,
/// then in the editor's build directory below the engine root, below the working
/// directory and beside the working directory, as far as these are known.
pub proof fn law_editor_is_looked_for_in_order(
    explicit: Option<Seq<char>>,
    engine_root: Option<Seq<char>>,
    current: Option<Seq<char>>,
)
    ensures
        ({
            let places = editor_search(explicit, engine_root, current);
            let app = "KairoEditor/"@ + "build/"@ + "KairoEditorApp"@;
            let named: int = if explicit is Some {
                1
            } else {
                0
            };
            let rooted: int = if engine_root is Some {
                1
            } else {
                0
            };
            &&& places.len() == named + rooted + (if current is Some {
                2int
            } else {
                0int
            })
            &&& explicit matches Some(path) ==> places[0] == path
            &&& engine_root matches Some(root) ==> places[named] == join_of(root, app)
            &&& current matches Some(dir) ==> places[named + rooted] == join_of(dir, app)
                && places[named + rooted + 1] == join_of(dir, "../"@ + app)
        }),
{
    reveal_strlit("KairoEditor/");
    reveal_strlit("build/");
    reveal_strlit("KairoEditorApp");
    reveal_strlit("../");
    reveal_strlit("KairoEditor/build/KairoEditorApp");
    reveal_strlit("../KairoEditor/build/KairoEditorApp");
    let app = "KairoEditor/"@ + "build/"@ + "KairoEditorApp"@;
    assert(app =~= "KairoEditor/build/KairoEditorApp"@);
    assert("../"@ + app =~= "../KairoEditor/build/KairoEditorApp"@);
}

} // verus!
