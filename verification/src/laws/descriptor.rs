//! Project descriptors: what is accepted, and what it then says.
use vstd::prelude::*;

use crate::descriptor::{
    assembled, descriptor_fault, header_version, no_statements, plugins_distinct,
    profile_name_taken, profiles_fault, project_of, statements_from, with_statement, DescriptorView,
    ProfileView, Statements,
};
use crate::generate::lemma_keywords_differ;
use crate::laws::text::law_lines_end_at_line_feeds;
use crate::layout::{
    are_statements, folded, is_readable, is_statement, keyword, lemma_header_first, lemma_said,
    lemma_lines_add, lemma_source_folded, lemma_speaking_words, said, statement_lines, value_of,
    with_keyword, words,
};
use crate::path::{components, relative_path_fault};
use crate::text::{byte_length, decimal, is_blank, is_single_line, lines};
use crate::token::tokens;

verus! {

/// The rows of words of a text's statement lines, if all of them can be read.
pub open spec fn rows_in(source: Seq<char>) -> Seq<Seq<Seq<char>>> {
    statement_lines(source).map_values(|line: Seq<char>| words(line))
}

pub open spec fn all_readable(source: Seq<char>) -> bool {
    forall|i: int|
        0 <= i < statement_lines(source).len() ==> is_readable(
            #[trigger] statement_lines(source)[i],
        )
}

spec fn fold_rows(rows: Seq<Seq<Seq<char>>>) -> Option<Statements>
    decreases rows.len(),
{
    if rows.len() == 0 {
        Some(no_statements())
    } else {
        match fold_rows(rows.drop_last()) {
            None => None,
            Some(st) => match with_statement(st, rows.last(), 0) {
                Ok(next) => Some(next),
                Err(_) => None,
            },
        }
    }
}

proof fn lemma_fold_rows(all: Seq<Seq<char>>)
    requires
        forall|i: int| 0 <= i < all.len() ==> is_readable(#[trigger] all[i]),
    ensures
        folded(all) == fold_rows(all.map_values(|line: Seq<char>| words(line))),
    decreases all.len(),
{
    let f = |line: Seq<char>| words(line);
    if all.len() > 0 {
        let less = all.drop_last();
        assert forall|i: int| 0 <= i < less.len() implies is_readable(#[trigger] less[i]) by {
            assert(less[i] == all[i]);
        }
        lemma_fold_rows(less);
        assert(all.map_values(f).drop_last() =~= less.map_values(f));
        assert(is_readable(all[all.len() - 1]));
    }
}

proof fn lemma_fold_push(rows: Seq<Seq<Seq<char>>>, row: Seq<Seq<char>>)
    ensures
        fold_rows(rows.push(row)) == match fold_rows(rows) {
            None => None,
            Some(st) => match with_statement(st, row, 0) {
                Ok(next) => Some(next),
                Err(_) => None,
            },
        },
{
    assert(rows.push(row).drop_last() =~= rows);
}

proof fn lemma_fold_plugins(rows: Seq<Seq<Seq<char>>>, plugins: Seq<Seq<char>>, st: Statements)
    requires
        fold_rows(rows) == Some(st),
        st.version == Some(2u32),
    ensures
        fold_rows(rows + plugins.map_values(|p: Seq<char>| seq!["plugin"@, p])) == Some(
            Statements { plugins: st.plugins + plugins, ..st },
        ),
    decreases plugins.len(),
{
    let f = |p: Seq<char>| seq!["plugin"@, p];
    if plugins.len() == 0 {
        assert(rows + plugins.map_values(f) =~= rows);
        assert(st.plugins + plugins =~= st.plugins);
    } else {
        let less = plugins.drop_last();
        let p = plugins.last();
        lemma_fold_plugins(rows, less, st);
        assert(rows + plugins.map_values(f) =~= (rows + less.map_values(f)).push(f(p)));
        lemma_fold_push(rows + less.map_values(f), f(p));
        lemma_keywords_differ();
        assert((st.plugins + less).push(p) =~= st.plugins + plugins);
    }
}

proof fn lemma_fold_profiles(rows: Seq<Seq<Seq<char>>>, profiles: Seq<ProfileView>, st: Statements)
    requires
        fold_rows(rows) == Some(st),
        st.version == Some(2u32),
    ensures
        fold_rows(
            rows + profiles.map_values(
                |p: ProfileView| seq!["build-profile"@, p.name, p.kind, p.output_directory],
            ),
        ) == Some(Statements { profiles: st.profiles + profiles, ..st }),
    decreases profiles.len(),
{
    let f = |p: ProfileView| seq!["build-profile"@, p.name, p.kind, p.output_directory];
    if profiles.len() == 0 {
        assert(rows + profiles.map_values(f) =~= rows);
        assert(st.profiles + profiles =~= st.profiles);
    } else {
        let less = profiles.drop_last();
        let p = profiles.last();
        lemma_fold_profiles(rows, less, st);
        assert(rows + profiles.map_values(f) =~= (rows + less.map_values(f)).push(f(p)));
        lemma_fold_push(rows + less.map_values(f), f(p));
        lemma_keywords_differ();
        assert((st.profiles + less).push(p) =~= st.profiles + profiles);
    }
}

/// The statements of a descriptor in format 2, each on a row of its own. The
/// graphics backend need not be stated.
pub open spec fn rows_of(d: DescriptorView, with_backend: bool) -> Seq<Seq<Seq<char>>> {
    seq![
        seq!["kairo-project"@, "2"@],
        seq!["name"@, d.name],
        seq!["assets"@, d.asset_manifest],
        seq!["startup-scene"@, d.startup_scene],
        seq!["engine-version"@, d.engine_version],
        seq!["input-map"@, d.input_map],
        seq!["rendering-profile"@, d.rendering_profile],
    ] + (if with_backend {
        seq![seq!["graphics-backend"@, d.graphics_backend]]
    } else {
        seq![]
    }) + (match d.runtime_executable {
        Some(runtime) => seq![seq!["runtime-executable"@, runtime]],
        None => seq![],
    }) + d.enabled_plugins.map_values(|p: Seq<char>| seq!["plugin"@, p])
        + d.build_profiles.map_values(
        |p: ProfileView| seq!["build-profile"@, p.name, p.kind, p.output_directory],
    )
}

proof fn lemma_fold_head(d: DescriptorView)
    ensures
        fold_rows(
            seq![
                seq!["kairo-project"@, "2"@],
                seq!["name"@, d.name],
                seq!["assets"@, d.asset_manifest],
                seq!["startup-scene"@, d.startup_scene],
                seq!["engine-version"@, d.engine_version],
                seq!["input-map"@, d.input_map],
                seq!["rendering-profile"@, d.rendering_profile],
            ],
        ) == Some(
            Statements {
                version: Some(2u32),
                name: Some(d.name),
                assets: Some(d.asset_manifest),
                startup_scene: Some(d.startup_scene),
                engine_version: Some(d.engine_version),
                input_map: Some(d.input_map),
                rendering_profile: Some(d.rendering_profile),
                ..no_statements()
            },
        ),
{
    lemma_keywords_differ();
    let none = Seq::<Seq<Seq<char>>>::empty();
    let r0 = seq!["kairo-project"@, "2"@];
    let r1 = seq!["name"@, d.name];
    let r2 = seq!["assets"@, d.asset_manifest];
    let r3 = seq!["startup-scene"@, d.startup_scene];
    let r4 = seq!["engine-version"@, d.engine_version];
    let r5 = seq!["input-map"@, d.input_map];
    let r6 = seq!["rendering-profile"@, d.rendering_profile];
    lemma_fold_push(none, r0);
    lemma_fold_push(none.push(r0), r1);
    lemma_fold_push(none.push(r0).push(r1), r2);
    lemma_fold_push(none.push(r0).push(r1).push(r2), r3);
    lemma_fold_push(none.push(r0).push(r1).push(r2).push(r3), r4);
    lemma_fold_push(none.push(r0).push(r1).push(r2).push(r3).push(r4), r5);
    lemma_fold_push(none.push(r0).push(r1).push(r2).push(r3).push(r4).push(r5), r6);
    assert(none.push(r0).push(r1).push(r2).push(r3).push(r4).push(r5).push(r6) =~= seq![
        r0,
        r1,
        r2,
        r3,
        r4,
        r5,
        r6,
    ]);
}

proof fn lemma_fold_descriptor(d: DescriptorView, with_backend: bool)
    ensures
        fold_rows(rows_of(d, with_backend)) == Some(
            Statements {
                version: Some(2u32),
                name: Some(d.name),
                assets: Some(d.asset_manifest),
                startup_scene: Some(d.startup_scene),
                engine_version: Some(d.engine_version),
                input_map: Some(d.input_map),
                rendering_profile: Some(d.rendering_profile),
                graphics_backend: if with_backend {
                    Some(d.graphics_backend)
                } else {
                    None
                },
                runtime_executable: d.runtime_executable,
                plugins: d.enabled_plugins,
                profiles: d.build_profiles,
            },
        ),
{
    lemma_fold_head(d);
    lemma_keywords_differ();
    let head = seq![
        seq!["kairo-project"@, "2"@],
        seq!["name"@, d.name],
        seq!["assets"@, d.asset_manifest],
        seq!["startup-scene"@, d.startup_scene],
        seq!["engine-version"@, d.engine_version],
        seq!["input-map"@, d.input_map],
        seq!["rendering-profile"@, d.rendering_profile],
    ];
    let backend = seq!["graphics-backend"@, d.graphics_backend];
    let a = head + (if with_backend {
        seq![backend]
    } else {
        seq![]
    });
    lemma_fold_push(head, backend);
    if with_backend {
        assert(a =~= head.push(backend));
    } else {
        assert(a =~= head);
    }
    let b = a + (match d.runtime_executable {
        Some(runtime) => seq![seq!["runtime-executable"@, runtime]],
        None => seq![],
    });
    match d.runtime_executable {
        Some(runtime) => {
            lemma_fold_push(a, seq!["runtime-executable"@, runtime]);
            assert(b =~= a.push(seq!["runtime-executable"@, runtime]));
        },
        None => {
            assert(b =~= a);
        },
    }
    let st = fold_rows(b)->0;
    assert(fold_rows(b) is Some && st.version == Some(2u32));
    lemma_fold_plugins(b, d.enabled_plugins, st);
    assert(st.plugins + d.enabled_plugins =~= d.enabled_plugins);
    let more = Statements { plugins: d.enabled_plugins, ..st };
    lemma_fold_profiles(
        b + d.enabled_plugins.map_values(|p: Seq<char>| seq!["plugin"@, p]),
        d.build_profiles,
        more,
    );
    assert(more.profiles + d.build_profiles =~= d.build_profiles);
}

proof fn lemma_profiles_in_order(all: Seq<ProfileView>, at: int)
    requires
        0 <= at,
    ensures
        profiles_fault(all, at) is None <==> forall|i: int|
            at <= i < all.len() ==> {
                &&& !is_blank((#[trigger] all[i]).name)
                &&& all[i].kind == "release"@ || all[i].kind == "development"@
                &&& relative_path_fault(all[i].output_directory, seq![]) is None
                &&& forall|j: int| 0 <= j < i ==> (#[trigger] all[j]).name != all[i].name
            },
    decreases all.len() - at,
{
    if at < all.len() {
        lemma_profiles_in_order(all, at + 1);
        let p = all[at];
        assert(relative_path_fault(p.output_directory, seq![]) is None <==> relative_path_fault(
            p.output_directory,
            "build profile output"@,
        ) is None);
        assert(profile_name_taken(all, at) <==> !(forall|j: int|
            0 <= j < at ==> (#[trigger] all[j]).name != all[at].name));
        if profiles_fault(all, at) is None {
            assert forall|i: int| at <= i < all.len() implies {
                &&& !is_blank((#[trigger] all[i]).name)
                &&& all[i].kind == "release"@ || all[i].kind == "development"@
                &&& relative_path_fault(all[i].output_directory, seq![]) is None
                &&& forall|j: int| 0 <= j < i ==> (#[trigger] all[j]).name != all[i].name
            } by {}
        } else if forall|i: int|
            at <= i < all.len() ==> {
                &&& !is_blank((#[trigger] all[i]).name)
                &&& all[i].kind == "release"@ || all[i].kind == "development"@
                &&& relative_path_fault(all[i].output_directory, seq![]) is None
                &&& forall|j: int| 0 <= j < i ==> (#[trigger] all[j]).name != all[i].name
            } {
            assert(!is_blank(all[at].name));
        }
    }
}

proof fn lemma_plugins_in_order(plugins: Seq<Seq<char>>)
    ensures
        plugins_distinct(plugins) <==> {
            &&& forall|i: int| 0 <= i < plugins.len() ==> !is_blank(#[trigger] plugins[i])
            &&& forall|i: int, j: int|
                0 <= j < i < plugins.len() ==> #[trigger] plugins[i] != #[trigger] plugins[j]
        },
{
    if plugins_distinct(plugins) {
        assert forall|i: int, j: int| 0 <= j < i < plugins.len() implies #[trigger] plugins[i]
            != #[trigger] plugins[j] by {
            assert(!plugins.take(i).contains(plugins[i]));
            assert(plugins.take(i)[j] == plugins[j]);
        }
    } else if (forall|i: int| 0 <= i < plugins.len() ==> !is_blank(#[trigger] plugins[i]))
        && (forall|i: int, j: int|
        0 <= j < i < plugins.len() ==> #[trigger] plugins[i] != #[trigger] plugins[j]) {
        assert forall|i: int| 0 <= i < plugins.len() implies !is_blank(#[trigger] plugins[i])
            && !plugins.take(i).contains(plugins[i]) by {
            if plugins.take(i).contains(plugins[i]) {
                let j = choose|j: int|
                    0 <= j < plugins.take(i).len() && plugins.take(i)[j] == plugins[i];
                assert(plugins[j] == plugins[i]);
            }
        }
    }
}

/// What a descriptor must be like to be accepted, format aside.
pub open spec fn in_order(d: DescriptorView) -> bool {
    &&& !is_blank(d.name) && is_single_line(d.name)
    &&& relative_path_fault(d.asset_manifest, seq![]) is None
    &&& relative_path_fault(d.startup_scene, seq![]) is None
    &&& relative_path_fault(d.input_map, seq![]) is None
    &&& d.runtime_executable matches Some(runtime) ==> relative_path_fault(runtime, seq![]) is None
    &&& components(d.asset_manifest) != components(d.startup_scene)
    &&& !is_blank(d.engine_version) && !is_blank(d.rendering_profile)
    &&& {
        ||| d.graphics_backend == "opengl"@
        ||| d.graphics_backend == "d3d12"@
        ||| d.graphics_backend == "metal"@
        ||| d.graphics_backend == "vulkan"@
        ||| d.graphics_backend == "auto"@
    }
    &&& forall|i: int|
        0 <= i < d.build_profiles.len() ==> {
            &&& !is_blank((#[trigger] d.build_profiles[i]).name)
            &&& d.build_profiles[i].kind == "release"@ || d.build_profiles[i].kind
                == "development"@
            &&& relative_path_fault(d.build_profiles[i].output_directory, seq![]) is None
            &&& forall|j: int|
                0 <= j < i ==> (#[trigger] d.build_profiles[j]).name != d.build_profiles[i].name
        }
    &&& forall|i: int|
        0 <= i < d.enabled_plugins.len() ==> !is_blank(#[trigger] d.enabled_plugins[i])
    &&& forall|i: int, j: int|
        0 <= j < i < d.enabled_plugins.len() ==> #[trigger] d.enabled_plugins[i]
            != #[trigger] d.enabled_plugins[j]
}

proof fn lemma_in_order(d: DescriptorView)
    ensures
        descriptor_fault(d) is None <==> in_order(d),
{
    lemma_profiles_in_order(d.build_profiles, 0);
    lemma_plugins_in_order(d.enabled_plugins);
}

/// A descriptor of format 2 that states a project is accepted if and only if what
/// it states is in order, and is then that project: the backends are `auto`,
/// `vulkan`, `metal`, `d3d12` and `opengl`, and it is `auto` where none is stated.
/// There must be a build profile.
pub proof fn law_format_two_is_read_as_it_is_stated(
    source: Seq<char>,
    d: DescriptorView,
    with_backend: bool,
)
    requires
        byte_length(source) <= 1_048_576,
        all_readable(source),
        rows_in(source) == rows_of(d, with_backend),
        with_backend || d.graphics_backend == "auto"@,
    ensures
        project_of(source) is Ok <==> in_order(d) && d.build_profiles.len() > 0,
        project_of(source) is Ok ==> project_of(source) == Ok::<_, Seq<char>>(d),
{
    lemma_source_folded(source);
    lemma_fold_rows(statement_lines(source));
    lemma_fold_descriptor(d, with_backend);
    lemma_in_order(d);
    let st = folded(statement_lines(source))->0;
    if d.build_profiles.len() > 0 {
        assert(assembled(st) == Ok::<_, Seq<char>>(d));
    }
}

/// A descriptor of format 1 states name, assets and startup scene. It is accepted
/// if and only if these are in order, and has for all else what format 2 would
/// state.
pub proof fn law_format_one_is_read_as_it_is_stated(
    source: Seq<char>,
    name: Seq<char>,
    assets: Seq<char>,
    scene: Seq<char>,
)
    requires
        byte_length(source) <= 1_048_576,
        all_readable(source),
        rows_in(source) == seq![
            seq!["kairo-project"@, "1"@],
            seq!["name"@, name],
            seq!["assets"@, assets],
            seq!["startup-scene"@, scene],
        ],
    ensures
        ({
            let d = DescriptorView {
                name,
                asset_manifest: assets,
                startup_scene: scene,
                engine_version: "0.1.0"@,
                input_map: "Config/Input.kinput"@,
                rendering_profile: "desktop"@,
                graphics_backend: "auto"@,
                runtime_executable: None,
                enabled_plugins: seq![],
                build_profiles: seq![
                    ProfileView {
                        name: "Development"@,
                        kind: "development"@,
                        output_directory: "Build/Development"@,
                    },
                    ProfileView {
                        name: "Release"@,
                        kind: "release"@,
                        output_directory: "Build/Release"@,
                    },
                ],
            };
            &&& project_of(source) is Ok <==> in_order(d)
            &&& project_of(source) is Ok ==> project_of(source) == Ok::<_, Seq<char>>(d)
        }),
{
    lemma_source_folded(source);
    lemma_fold_rows(statement_lines(source));
    lemma_keywords_differ();
    let none = Seq::<Seq<Seq<char>>>::empty();
    let r0 = seq!["kairo-project"@, "1"@];
    let r1 = seq!["name"@, name];
    let r2 = seq!["assets"@, assets];
    let r3 = seq!["startup-scene"@, scene];
    lemma_fold_push(none, r0);
    lemma_fold_push(none.push(r0), r1);
    lemma_fold_push(none.push(r0).push(r1), r2);
    lemma_fold_push(none.push(r0).push(r1).push(r2), r3);
    assert(none.push(r0).push(r1).push(r2).push(r3) =~= seq![r0, r1, r2, r3]);
    let st = folded(statement_lines(source))->0;
    let d = assembled(st)->Ok_0;
    lemma_in_order(d);
    assert(d.enabled_plugins =~= seq![]);
}

proof fn lemma_two_lines(all: Seq<Seq<char>>, k: Seq<char>, i: int, j: int)
    requires
        0 <= i < j < all.len(),
        keyword(all[i]) == k,
        keyword(all[j]) == k,
    ensures
        with_keyword(all, k).len() >= 2,
    decreases all.len(),
{
    reveal(Seq::filter);
    let less = all.drop_last();
    if j < less.len() {
        lemma_two_lines(less, k, i, j);
    } else {
        less.lemma_filter_contains(|line: Seq<char>| keyword(line) == k, i);
        assert(less.filter(|line: Seq<char>| keyword(line) == k).contains(less[i]));
    }
}

proof fn lemma_line_with(all: Seq<Seq<char>>, k: Seq<char>)
    requires
        value_of(all, k) is Some,
    ensures
        exists|i: int|
            0 <= i < all.len() && words(#[trigger] all[i])[0] == k && value_of(all, k) == Some(
                words(all[i])[1],
            ),
{
    let p = |line: Seq<char>| keyword(line) == k;
    let some = with_keyword(all, k);
    let line = some[0];
    assert(some.contains(line));
    all.lemma_filter_contains_rev(p, line);
    all.lemma_filter_pred(p, 0);
    let i = choose|i: int| 0 <= i < all.len() && all[i] == line;
    assert(words(all[i])[0] == k);
}

/// Nothing but the known statements is accepted, each with its number of values,
/// and those of format 2 only in format 2; a statement other than `plugin` and
/// `build-profile` stands at most once; and name, assets and startup scene are
/// those that their statements give.
pub proof fn law_only_known_statements_are_accepted(source: Seq<char>)
    requires
        project_of(source) is Ok,
    ensures
        byte_length(source) <= 1_048_576,
        all_readable(source),
        ({
            let rows = rows_in(source);
            let d = project_of(source)->Ok_0;
            &&& rows.len() > 0
            &&& rows[0] == seq!["kairo-project"@, "1"@] || rows[0] == seq!["kairo-project"@, "2"@]
            &&& forall|i: int|
                1 <= i < rows.len() ==> {
                    let k = (#[trigger] rows[i])[0];
                    let second = rows[0][1] == "2"@;
                    ||| rows[i].len() == 2 && (k == "startup-scene"@ || k == "assets"@ || k
                        == "name"@)
                    ||| second && rows[i].len() == 2 && (k == "plugin"@ || k
                        == "runtime-executable"@ || k == "graphics-backend"@ || k
                        == "rendering-profile"@ || k == "input-map"@ || k == "engine-version"@)
                    ||| second && rows[i].len() == 4 && k == "build-profile"@
                }
            &&& forall|i: int, j: int|
                1 <= i < j < rows.len() && #[trigger] rows[i][0] == #[trigger] rows[j][0]
                    ==> rows[i][0] == "plugin"@ || rows[i][0] == "build-profile"@
            &&& exists|i: int|
                1 <= i < rows.len() && #[trigger] rows[i] == seq!["name"@, d.name]
            &&& exists|i: int|
                1 <= i < rows.len() && #[trigger] rows[i] == seq!["assets"@, d.asset_manifest]
            &&& exists|i: int|
                1 <= i < rows.len() && #[trigger] rows[i] == seq!["startup-scene"@, d.startup_scene]
        }),
{
    lemma_source_folded(source);
    lemma_keywords_differ();
    let all = statement_lines(source);
    let rows = rows_in(source);
    let d = project_of(source)->Ok_0;
    lemma_speaking_words(lines(source));
    assert(all.len() > 0) by {
        if all.len() == 0 {
            assert(folded(all) == Some(no_statements()));
        }
    }
    lemma_header_first(all);
    let version = header_version(words(all[0]))->0;
    let rest = all.skip(1);
    assert(all =~= seq![all[0]] + rest);
    assert(forall|i: int| 0 <= i < rest.len() ==> rest[i] == all[i + 1]);
    lemma_said(version, all[0], rest);
    let st = said(version, rest);
    assert(assembled(st) == Ok::<_, Seq<char>>(d));
    assert forall|i: int| 0 <= i < all.len() implies is_readable(#[trigger] all[i]) by {
        if i > 0 {
            assert(is_statement(version, rest[i - 1]));
        }
    }
    assert(rows[0] == words(all[0]));
    assert(rows[0] =~= seq!["kairo-project"@, "1"@] || rows[0] =~= seq!["kairo-project"@, "2"@]);
    assert forall|i: int| 1 <= i < rows.len() implies {
        let k = (#[trigger] rows[i])[0];
        let second = rows[0][1] == "2"@;
        ||| rows[i].len() == 2 && (k == "startup-scene"@ || k == "assets"@ || k == "name"@)
        ||| second && rows[i].len() == 2 && (k == "plugin"@ || k == "runtime-executable"@ || k
            == "graphics-backend"@ || k == "rendering-profile"@ || k == "input-map"@ || k
            == "engine-version"@)
        ||| second && rows[i].len() == 4 && k == "build-profile"@
    } by {
        assert(is_statement(version, rest[i - 1]));
        assert(rows[i] == words(rest[i - 1]));
    }
    assert forall|i: int, j: int|
        1 <= i < j < rows.len() && #[trigger] rows[i][0] == #[trigger] rows[j][0] implies rows[i][0]
        == "plugin"@ || rows[i][0] == "build-profile"@ by {
        assert(is_statement(version, rest[i - 1]));
        let k = rows[i][0];
        if k != "plugin"@ && k != "build-profile"@ {
            assert(with_keyword(rest, k).len() <= 1);
            lemma_two_lines(rest, k, i - 1, j - 1);
        }
    }
    lemma_row_with(rest, version, "name"@);
    lemma_row_with(rest, version, "assets"@);
    lemma_row_with(rest, version, "startup-scene"@);
    let a = choose|i: int| 0 <= i < rest.len() && #[trigger] words(rest[i]) == seq!["name"@, d.name];
    let b = choose|i: int|
        0 <= i < rest.len() && #[trigger] words(rest[i]) == seq!["assets"@, d.asset_manifest];
    let c = choose|i: int|
        0 <= i < rest.len() && #[trigger] words(rest[i]) == seq!["startup-scene"@, d.startup_scene];
    assert(rows[a + 1] == words(rest[a]));
    assert(rows[b + 1] == words(rest[b]));
    assert(rows[c + 1] == words(rest[c]));
}

proof fn lemma_row_with(rest: Seq<Seq<char>>, version: u32, k: Seq<char>)
    requires
        are_statements(version, rest),
        k == "name"@ || k == "assets"@ || k == "startup-scene"@,
        value_of(rest, k) is Some,
    ensures
        exists|i: int|
            0 <= i < rest.len() && #[trigger] words(rest[i]) == seq![k, value_of(rest, k)->0],
{
    lemma_keywords_differ();
    lemma_line_with(rest, k);
    let i = choose|i: int|
        0 <= i < rest.len() && words(#[trigger] rest[i])[0] == k && value_of(rest, k) == Some(
            words(rest[i])[1],
        );
    assert(is_statement(version, rest[i]));
    assert(words(rest[i]) =~= seq![k, value_of(rest, k)->0]);
}

/// A statement that is refused is named, with its line: one that format 1 has as
/// twice or malformed, one that format 2 adds as malformed or out of place, any
/// other as unknown.
pub proof fn law_refused_statement_is_named(st: Statements, row: Seq<Seq<char>>, n: nat)
    requires
        row.len() > 0,
        st.version is Some,
        with_statement(st, row, n) is Err,
    ensures
        with_statement(st, row, n)->Err_0 == decimal(n) + (if row[0] == "startup-scene"@ || row[0]
            == "assets"@ || row[0] == "name"@ {
            ":1: duplicate or malformed '"@ + row[0] + "' statement"@
        } else if row[0] == "build-profile"@ || row[0] == "plugin"@ || row[0]
            == "runtime-executable"@ || row[0] == "graphics-backend"@ || row[0]
            == "rendering-profile"@ || row[0] == "input-map"@ || row[0] == "engine-version"@ {
            ":1: malformed or version-incompatible '"@ + row[0] + "' statement"@
        } else {
            ":1: unknown statement '"@ + row[0] + "'"@
        }),
{
    let k = row[0];
    assert(decimal(n) + ":1: duplicate or malformed '"@ + k + "' statement"@ =~= decimal(n) + (
    ":1: duplicate or malformed '"@ + k + "' statement"@));
    assert(decimal(n) + ":1: malformed or version-incompatible '"@ + k + "' statement"@
        =~= decimal(n) + (":1: malformed or version-incompatible '"@ + k + "' statement"@));
    assert(decimal(n) + ":1: unknown statement '"@ + k + "'"@ =~= decimal(n) + (
    ":1: unknown statement '"@ + k + "'"@));
}

/// What is wrong with a descriptor that is not in order: the first of its faults,
/// those of its profiles and plugins last.
pub proof fn law_first_fault_of_a_descriptor(d: DescriptorView)
    ensures
        ({
            let runtime = match d.runtime_executable {
                Some(path) => relative_path_fault(path, "runtime-"@ + "executable"@),
                None => None,
            };
            let known = {
                ||| d.graphics_backend == "opengl"@
                ||| d.graphics_backend == "d3d12"@
                ||| d.graphics_backend == "metal"@
                ||| d.graphics_backend == "vulkan"@
                ||| d.graphics_backend == "auto"@
            };
            descriptor_fault(d) == if is_blank(d.name) || !is_single_line(d.name) {
                Some("project name must be "@ + "non-empty and single-line"@)
            } else if relative_path_fault(d.asset_manifest, seq![]) is Some {
                relative_path_fault(d.asset_manifest, "assets"@)
            } else if relative_path_fault(d.startup_scene, seq![]) is Some {
                relative_path_fault(d.startup_scene, "startup-"@ + "scene"@)
            } else if relative_path_fault(d.input_map, seq![]) is Some {
                relative_path_fault(d.input_map, "input-"@ + "map"@)
            } else if runtime is Some {
                runtime
            } else if components(d.asset_manifest) == components(d.startup_scene) {
                Some("asset manifest and startup scene "@ + "must be different"@)
            } else if is_blank(d.engine_version) || is_blank(d.rendering_profile) {
                Some("engine version and rendering profile "@ + "must be non-empty"@)
            } else if !known {
                Some("graphics backend must be "@ + "auto, vulkan, metal, d3d12, or opengl"@)
            } else if profiles_fault(d.build_profiles, 0) is Some {
                profiles_fault(d.build_profiles, 0)
            } else if !plugins_distinct(d.enabled_plugins) {
                Some("plugin identifiers must be "@ + "non-empty and unique"@)
            } else {
                None
            }
        }),
{
    reveal_strlit("runtime-");
    reveal_strlit("executable");
    reveal_strlit("runtime-executable");
    reveal_strlit("project name must be ");
    reveal_strlit("non-empty and single-line");
    reveal_strlit("project name must be non-empty and single-line");
    reveal_strlit("startup-");
    reveal_strlit("scene");
    reveal_strlit("startup-scene");
    reveal_strlit("input-");
    reveal_strlit("map");
    reveal_strlit("input-map");
    reveal_strlit("asset manifest and startup scene ");
    reveal_strlit("must be different");
    reveal_strlit("asset manifest and startup scene must be different");
    reveal_strlit("engine version and rendering profile ");
    reveal_strlit("must be non-empty");
    reveal_strlit("engine version and rendering profile must be non-empty");
    reveal_strlit("graphics backend must be ");
    reveal_strlit("auto, vulkan, metal, d3d12, or opengl");
    reveal_strlit("graphics backend must be auto, vulkan, metal, d3d12, or opengl");
    reveal_strlit("plugin identifiers must be ");
    reveal_strlit("non-empty and unique");
    reveal_strlit("plugin identifiers must be non-empty and unique");
    assert("runtime-"@ + "executable"@ =~= "runtime-executable"@);
    assert("project name must be "@ + "non-empty and single-line"@
        =~= "project name must be non-empty and single-line"@);
    assert("startup-"@ + "scene"@ =~= "startup-scene"@);
    assert("input-"@ + "map"@ =~= "input-map"@);
    assert("asset manifest and startup scene "@ + "must be different"@
        =~= "asset manifest and startup scene must be different"@);
    assert("engine version and rendering profile "@ + "must be non-empty"@
        =~= "engine version and rendering profile must be non-empty"@);
    assert("graphics backend must be "@ + "auto, vulkan, metal, d3d12, or opengl"@
        =~= "graphics backend must be auto, vulkan, metal, d3d12, or opengl"@);
    assert("plugin identifiers must be "@ + "non-empty and unique"@
        =~= "plugin identifiers must be non-empty and unique"@);
}

/// The first profile at fault is the one that is named: for its name or kind, else
/// for its output directory, else for a name that stands before it already.
pub proof fn law_first_fault_of_profiles(all: Seq<ProfileView>, at: int, from: int)
    requires
        0 <= from <= at <= all.len(),
        forall|i: int|
            0 <= i < at ==> {
                &&& !is_blank((#[trigger] all[i]).name)
                &&& all[i].kind == "release"@ || all[i].kind == "development"@
                &&& relative_path_fault(all[i].output_directory, seq![]) is None
                &&& forall|j: int| 0 <= j < i ==> (#[trigger] all[j]).name != all[i].name
            },
    ensures
        at == all.len() ==> profiles_fault(all, from) is None,
        at < all.len() ==> {
            let p = all[at];
            &&& is_blank(p.name) || p.kind != "release"@ && p.kind != "development"@
                ==> profiles_fault(all, from) == Some(
                "build profiles require a name and "@ + "development or release kind"@,
            )
            &&& !is_blank(p.name) && (p.kind == "release"@ || p.kind == "development"@) ==> {
                &&& relative_path_fault(p.output_directory, seq![]) is Some ==> profiles_fault(
                    all,
                    from,
                ) == relative_path_fault(p.output_directory, "build profile "@ + "output"@)
                &&& relative_path_fault(p.output_directory, seq![]) is None && (exists|j: int|
                    0 <= j < at && (#[trigger] all[j]).name == p.name) ==> profiles_fault(all, from)
                    == Some("build profile names "@ + "must be unique"@)
            }
        },
    decreases at - from,
{
    reveal_strlit("build profiles require a name and ");
    reveal_strlit("development or release kind");
    reveal_strlit("build profiles require a name and development or release kind");
    reveal_strlit("build profile ");
    reveal_strlit("output");
    reveal_strlit("build profile output");
    reveal_strlit("build profile names ");
    reveal_strlit("must be unique");
    reveal_strlit("build profile names must be unique");
    assert("build profiles require a name and "@ + "development or release kind"@
        =~= "build profiles require a name and development or release kind"@);
    assert("build profile "@ + "output"@ =~= "build profile output"@);
    assert("build profile names "@ + "must be unique"@ =~= "build profile names must be unique"@);
    if from < at {
        assert(!is_blank(all[from].name));
        assert(!profile_name_taken(all, from)) by {
            if profile_name_taken(all, from) {
                let j = choose|j: int| 0 <= j < from && #[trigger] all[j].name == all[from].name;
                assert(all[j].name != all[from].name);
            }
        }
        law_first_fault_of_profiles(all, at, from + 1);
    } else if at < all.len() {
        if exists|j: int| 0 <= j < at && (#[trigger] all[j]).name == all[at].name {
            let j = choose|j: int| 0 <= j < at && (#[trigger] all[j]).name == all[at].name;
            assert(profile_name_taken(all, at));
        }
    }
}

/// Statements that lack one that is needed make no descriptor: the message says
/// which is lacking, those of format 2 first.
pub proof fn law_lacking_statements(st: Statements)
    ensures
        ({
            let second = st.version == Some(2u32);
            let lacking = st.engine_version is None || st.input_map is None || st.rendering_profile
                is None || st.profiles.len() == 0;
            match assembled(st) {
                Ok(_) => {
                    &&& st.version is Some && !(second && lacking)
                    &&& st.name is Some && st.assets is Some && st.startup_scene is Some
                },
                Err(e) => if st.version is None {
                    e == "1:1: missing "@ + "kairo-project header"@
                } else if second && lacking {
                    e == "project format 2 requires engine-version, input-map, "@
                        + "rendering-profile, and build-profile statements"@
                } else if st.name is None {
                    e == "project requires "@ + "a name statement"@
                } else if st.assets is None {
                    e == "project requires "@ + "an assets statement"@
                } else {
                    st.startup_scene is None && e == "project requires "@
                        + "a startup-scene statement"@
                },
            }
        }),
{
    reveal_strlit("1:1: missing ");
    reveal_strlit("kairo-project header");
    reveal_strlit("1:1: missing kairo-project header");
    reveal_strlit("project format 2 requires engine-version, input-map, ");
    reveal_strlit("rendering-profile, and build-profile statements");
    reveal_strlit(
        "project format 2 requires engine-version, input-map, rendering-profile, and build-profile statements",
    );
    reveal_strlit("project requires ");
    reveal_strlit("a name statement");
    reveal_strlit("project requires a name statement");
    reveal_strlit("an assets statement");
    reveal_strlit("project requires an assets statement");
    reveal_strlit("a startup-scene statement");
    reveal_strlit("project requires a startup-scene statement");
    assert("1:1: missing "@ + "kairo-project header"@ =~= "1:1: missing kairo-project header"@);
    assert("project format 2 requires engine-version, input-map, "@
        + "rendering-profile, and build-profile statements"@
        =~= "project format 2 requires engine-version, input-map, rendering-profile, and build-profile statements"@);
    assert("project requires "@ + "a name statement"@ =~= "project requires a name statement"@);
    assert("project requires "@ + "an assets statement"@
        =~= "project requires an assets statement"@);
    assert("project requires "@ + "a startup-scene statement"@
        =~= "project requires a startup-scene statement"@);
}

proof fn lemma_read_up_to(all: Seq<Seq<char>>, more: Seq<Seq<char>>, at: int, st: Statements)
    requires
        0 <= at <= all.len(),
        statements_from(all, at, st) is Ok,
    ensures
        statements_from(all + more, at, st) == statements_from(
            all + more,
            all.len() as int,
            statements_from(all, at, st)->Ok_0,
        ),
    decreases all.len() - at,
{
    if at < all.len() {
        assert((all + more)[at] == all[at]);
        let words = tokens(all[at], (at + 1) as nat)->Ok_0;
        let next = with_statement(st, words, (at + 1) as nat)->Ok_0;
        lemma_read_up_to(all, more, at + 1, next);
    }
}

/// The first line that is refused is the reason, whatever follows it; lines count
/// from 1. A line is refused for its tokens, else for what it states. Before any
/// line is read, a text of more than one mebibyte is refused.
pub proof fn law_first_refused_line(before: Seq<char>, line: Seq<char>, behind: Seq<char>)
    requires
        before.len() == 0 || before.last() == '\n',
        !line.contains('\n') && (line.len() == 0 || line.last() != '\r'),
        statements_from(lines(before), 0, no_statements()) is Ok,
    ensures
        ({
            let st = statements_from(lines(before), 0, no_statements())->Ok_0;
            let number = lines(before).len() + 1;
            let source = before + (line.push('\n') + behind);
            &&& byte_length(source) > 1_048_576 ==> project_of(source) == Err::<DescriptorView, _>(
                "project descriptor exceeds "@ + "the 1 MiB safety limit"@,
            )
            &&& byte_length(source) <= 1_048_576 ==> {
                &&& tokens(line, number) matches Err(e) ==> project_of(source) == Err::<
                    DescriptorView,
                    _,
                >(e)
                &&& tokens(line, number) matches Ok(row) ==> (with_statement(
                    st,
                    row,
                    number,
                ) matches Err(e) ==> project_of(source) == Err::<DescriptorView, _>(e))
            }
        }),
{
    let source = before + (line.push('\n') + behind);
    let rest = line.push('\n') + behind;
    reveal_strlit("project descriptor exceeds ");
    reveal_strlit("the 1 MiB safety limit");
    reveal_strlit("project descriptor exceeds the 1 MiB safety limit");
    assert("project descriptor exceeds "@ + "the 1 MiB safety limit"@
        =~= "project descriptor exceeds the 1 MiB safety limit"@);
    lemma_lines_add(before, rest);
    law_lines_end_at_line_feeds(line, behind);
    let all = lines(before);
    let more = seq![line] + lines(behind);
    lemma_read_up_to(all, more, 0, no_statements());
    assert((all + more)[all.len() as int] == line);
}

/// The first statement must be the header; else it is refused, with its line.
pub proof fn law_header_of_a_descriptor(st: Statements, row: Seq<Seq<char>>, n: nat)
    requires
        row.len() > 0,
        st.version is None,
    ensures
        match with_statement(st, row, n) {
            Ok(next) => {
                &&& row.len() == 2 && row[0] == "kairo-"@ + "project"@
                &&& next == (Statements { version: next.version, ..st })
                &&& row[1] == "1"@ && next.version == Some(1u32) || row[1] == "2"@ && next.version
                    == Some(2u32)
            },
            Err(e) => {
                &&& !(row.len() == 2 && row[0] == "kairo-"@ + "project"@ && (row[1] == "1"@
                    || row[1] == "2"@))
                &&& e == decimal(n) + ":1: expected supported "@ + "'kairo-project 1|2' header"@
            },
        },
{
    reveal_strlit("kairo-");
    reveal_strlit("project");
    reveal_strlit("kairo-project");
    assert("kairo-"@ + "project"@ =~= "kairo-project"@);
    reveal_strlit(":1: expected supported ");
    reveal_strlit("'kairo-project 1|2' header");
    reveal_strlit(":1: expected supported 'kairo-project 1|2' header");
    assert(decimal(n) + ":1: expected supported "@ + "'kairo-project 1|2' header"@ =~= decimal(n)
        + ":1: expected supported 'kairo-project 1|2' header"@);
}

} // verus!
