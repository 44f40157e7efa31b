//! Descriptors that the Hub writes itself.
//!
//! A generated descriptor is a file of statements, one on each line. What is
//! written is read back: the descriptor parser accepts the text and finds in it
//! what was written.
use vstd::prelude::*;

use crate::descriptor::{
    assembled, default_profiles, descriptor_fault, is_basic_keyword, no_statements,
    profile_name_taken, profiles_fault, project_of, statements_from, with_statement, DescriptorView,
    ProfileView, Statements, MAX_PROJECT_BYTES,
};
use crate::path::{
    components, dot_dot, is_name, is_same_path, lemma_components_below, lemma_single_component,
    relative_path_fault,
};
use crate::text::{
    byte_length, is_blank, is_single_line, is_white_space, lemma_lines_cons, lines, trim_end,
    trim_start,
};
use crate::token::{
    can_be_bare, can_be_written, escaped, law_written_row_is_read_back, quote, quoted, row, tokens,
    word_text, Word,
};

verus! {

// ---------------------------------------------------------------------------
// Statement files
// ---------------------------------------------------------------------------
/// A text with one row of words on each line.
pub open spec fn statement_file(rows: Seq<Seq<Word>>) -> Seq<char>
    decreases rows.len(),
{
    if rows.len() == 0 {
        seq![]
    } else {
        row(rows[0]).push('\n') + statement_file(rows.drop_first())
    }
}

pub proof fn lemma_statement_file_push(rows: Seq<Seq<Word>>, last: Seq<Word>)
    ensures
        statement_file(rows.push(last)) == statement_file(rows) + row(last).push('\n'),
    decreases rows.len(),
{
    let all = rows.push(last);
    if rows.len() == 0 {
        reveal_with_fuel(statement_file, 2);
        assert(all.drop_first() =~= Seq::<Seq<Word>>::empty());
        assert(statement_file(all) =~= row(last).push('\n'));
        assert(statement_file(rows) + row(last).push('\n') =~= row(last).push('\n'));
    } else {
        assert(all.drop_first() =~= rows.drop_first().push(last));
        assert(all[0] == rows[0]);
        lemma_statement_file_push(rows.drop_first(), last);
        assert(row(rows[0]).push('\n') + (statement_file(rows.drop_first()) + row(last).push('\n'))
            =~= (row(rows[0]).push('\n') + statement_file(rows.drop_first())) + row(last).push(
            '\n',
        ));
    }
}

/// Every row stays on its line.
pub open spec fn rows_on_lines(rows: Seq<Seq<Word>>) -> bool {
    forall|i: int|
        0 <= i < rows.len() ==> is_single_line(row(#[trigger] rows[i])) && can_be_written(rows[i])
}

/// The lines of a statement file are its rows.
proof fn lemma_lines_of_statement_file(rows: Seq<Seq<Word>>)
    requires
        rows_on_lines(rows),
    ensures
        lines(statement_file(rows)) == rows.map_values(|r: Seq<Word>| row(r)),
    decreases rows.len(),
{
    let out = rows.map_values(|r: Seq<Word>| row(r));
    if rows.len() == 0 {
        assert(lines(statement_file(rows)) =~= Seq::<Seq<char>>::empty());
        assert(out =~= Seq::<Seq<char>>::empty());
    } else {
        let rest = rows.drop_first();
        assert forall|i: int| 0 <= i < rest.len() implies is_single_line(row(#[trigger] rest[i]))
            && can_be_written(rest[i]) by {
            assert(rest[i] == rows[i + 1]);
        }
        lemma_lines_of_statement_file(rest);
        lemma_lines_cons(row(rows[0]), statement_file(rest));
        assert(out =~= seq![row(rows[0])] + rest.map_values(|r: Seq<Word>| row(r)));
    }
}

/// The statements with those of rows of words, from `at` on.
pub open spec fn statements_of_rows(rows: Seq<Seq<Word>>, at: int, st: Statements) -> Result<
    Statements,
    Seq<char>,
>
    decreases rows.len() - at,
{
    if at >= rows.len() {
        Ok(st)
    } else {
        match with_statement(
            st,
            rows[at].map_values(|w: Word| word_text(w)),
            (at + 1) as nat,
        ) {
            Err(e) => Err(e),
            Ok(next) => statements_of_rows(rows, at + 1, next),
        }
    }
}

proof fn lemma_statements_read_back(rows: Seq<Seq<Word>>, at: int, st: Statements)
    requires
        0 <= at,
        rows_on_lines(rows),
    ensures
        statements_from(rows.map_values(|r: Seq<Word>| row(r)), at, st) == statements_of_rows(
            rows,
            at,
            st,
        ),
    decreases rows.len() - at,
{
    if at < rows.len() {
        let all = rows.map_values(|r: Seq<Word>| row(r));
        assert(is_single_line(row(rows[at])) && can_be_written(rows[at]));
        law_written_row_is_read_back(rows[at], (at + 1) as nat);
        let ts = rows[at].map_values(|w: Word| word_text(w));
        assert(tokens(all[at], (at + 1) as nat) == Ok::<_, Seq<char>>(ts));
        if let Ok(next) = with_statement(st, ts, (at + 1) as nat) {
            lemma_statements_read_back(rows, at + 1, next);
        }
    }
}

// ---------------------------------------------------------------------------
// Generated descriptors
// ---------------------------------------------------------------------------
/// What a generated descriptor is about.
pub struct Generated {
    pub name: Seq<char>,
    pub engine_version: Seq<char>,
    pub assets: Seq<char>,
    pub startup_scene: Seq<char>,
    pub input_map: Seq<char>,
}

pub open spec fn header_row() -> Seq<Word> {
    seq![Word::Bare("kairo-project"@), Word::Bare("2"@)]
}

pub open spec fn value_row(keyword: Seq<char>, value: Seq<char>) -> Seq<Word> {
    seq![Word::Bare(keyword), Word::Quoted(value)]
}

pub open spec fn profile_row(p: ProfileView) -> Seq<Word> {
    seq![
        Word::Bare("build-profile"@),
        Word::Quoted(p.name),
        Word::Bare(p.kind),
        Word::Quoted(p.output_directory),
    ]
}

/// The statements of a generated descriptor.
pub open spec fn descriptor_rows(g: Generated) -> Seq<Seq<Word>> {
    seq![
        header_row(),
        value_row("name"@, g.name),
        value_row("engine-version"@, g.engine_version),
        value_row("assets"@, g.assets),
        value_row("startup-scene"@, g.startup_scene),
        value_row("input-map"@, g.input_map),
        value_row("rendering-profile"@, "desktop"@),
        value_row("graphics-backend"@, "auto"@),
        profile_row(default_profiles()[0]),
        profile_row(default_profiles()[1]),
    ]
}

/// The text of a generated descriptor.
pub open spec fn descriptor_file(g: Generated) -> Seq<char> {
    statement_file(descriptor_rows(g))
}

/// The descriptor that a generated text is meant to write.
pub open spec fn generated_descriptor(g: Generated) -> DescriptorView {
    DescriptorView {
        name: g.name,
        asset_manifest: g.assets,
        startup_scene: g.startup_scene,
        engine_version: g.engine_version,
        input_map: g.input_map,
        rendering_profile: "desktop"@,
        graphics_backend: "auto"@,
        runtime_executable: None,
        enabled_plugins: seq![],
        build_profiles: default_profiles(),
    }
}

pub proof fn lemma_escaped_single_line(s: Seq<char>)
    requires
        is_single_line(s),
    ensures
        is_single_line(escaped(s)),
    decreases s.len(),
{
    if s.len() > 0 {
        let t = s.drop_last();
        assert forall|i: int| 0 <= i < t.len() implies t[i] != '\n' && t[i] != '\r' by {
            assert(t[i] == s[i]);
            assert(s.contains(s[i]));
        }
        lemma_escaped_single_line(t);
        assert(s.contains(s.last()));
        let e = escaped(t);
        let f = escaped(s);
        assert forall|i: int| 0 <= i < f.len() implies f[i] != '\n' && f[i] != '\r' by {
            if i < e.len() {
                assert(f[i] == e[i]);
                assert(e.contains(e[i]));
            }
        }
    }
}

pub proof fn lemma_value_row_text(keyword: Seq<char>, value: Seq<char>)
    ensures
        row(value_row(keyword, value)) == keyword.push(' ') + quoted(value),
{
    let words = value_row(keyword, value);
    reveal_with_fuel(row, 3);
    assert(words.drop_first() =~= seq![Word::Quoted(value)]);
}

proof fn lemma_value_row(keyword: Seq<char>, value: Seq<char>)
    requires
        can_be_bare(keyword),
        is_single_line(keyword),
        is_single_line(value),
    ensures
        is_single_line(row(value_row(keyword, value))),
        can_be_written(value_row(keyword, value)),
{
    let r = row(value_row(keyword, value));
    let e = escaped(value);
    lemma_value_row_text(keyword, value);
    lemma_escaped_single_line(value);
    assert forall|i: int| 0 <= i < r.len() implies r[i] != '\n' && r[i] != '\r' by {
        let k = keyword.len() as int;
        if i < k {
            assert(r[i] == keyword[i]);
            assert(keyword.contains(keyword[i]));
        } else if i > k + 1 && i < k + 2 + e.len() {
            assert(r[i] == e[i - k - 2]);
            assert(e.contains(e[i - k - 2]));
        }
    }
}

pub proof fn lemma_profile_row_text(p: ProfileView)
    ensures
        row(profile_row(p)) == "build-profile"@.push(' ') + quoted(p.name).push(' ') + p.kind.push(
            ' ',
        ) + quoted(p.output_directory),
{
    let words = profile_row(p);
    reveal_with_fuel(row, 5);
    assert(words.drop_first() =~= seq![
        Word::Quoted(p.name),
        Word::Bare(p.kind),
        Word::Quoted(p.output_directory),
    ]);
    assert(words.drop_first().drop_first() =~= seq![
        Word::Bare(p.kind),
        Word::Quoted(p.output_directory),
    ]);
    assert(words.drop_first().drop_first().drop_first() =~= seq![
        Word::Quoted(p.output_directory),
    ]);
    assert(row(words) =~= "build-profile"@.push(' ') + quoted(p.name).push(' ') + p.kind.push(' ')
        + quoted(p.output_directory));
}

proof fn lemma_profile_row(p: ProfileView)
    requires
        can_be_bare(p.kind),
        is_single_line(p.kind),
        is_single_line(p.name),
        is_single_line(p.output_directory),
    ensures
        is_single_line(row(profile_row(p))),
        can_be_written(profile_row(p)),
{
    reveal_strlit("build-profile");
    let a = "build-profile"@.push(' ');
    let b = quoted(p.name).push(' ');
    let c = p.kind.push(' ');
    let d = quoted(p.output_directory);
    let r = row(profile_row(p));
    lemma_profile_row_text(p);
    lemma_escaped_single_line(p.name);
    lemma_escaped_single_line(p.output_directory);
    assert forall|i: int| 0 <= i < r.len() implies r[i] != '\n' && r[i] != '\r' by {
        if i < a.len() {
            assert(r[i] == a[i]);
        } else if i < a.len() + b.len() {
            let j = i - a.len();
            assert(r[i] == b[j]);
            let e = escaped(p.name);
            if 1 <= j <= e.len() {
                assert(b[j] == e[j - 1]);
                assert(e.contains(e[j - 1]));
            }
        } else if i < a.len() + b.len() + c.len() {
            let j = i - a.len() - b.len();
            assert(r[i] == c[j]);
            if j < p.kind.len() {
                assert(p.kind.contains(p.kind[j]));
            }
        } else {
            let j = i - a.len() - b.len() - c.len();
            assert(r[i] == d[j]);
            let e = escaped(p.output_directory);
            if 1 <= j <= e.len() {
                assert(d[j] == e[j - 1]);
                assert(e.contains(e[j - 1]));
            }
        }
    }
}


/// What a generated descriptor needs to be accepted.
pub open spec fn can_be_generated(g: Generated) -> bool {
    &&& !is_blank(g.name) && is_single_line(g.name)
    &&& !is_blank(g.engine_version) && is_single_line(g.engine_version)
    &&& is_single_line(g.assets) && is_single_line(g.startup_scene) && is_single_line(g.input_map)
    &&& relative_path_fault(g.assets, "assets"@) is None
    &&& relative_path_fault(g.startup_scene, "startup-scene"@) is None
    &&& relative_path_fault(g.input_map, "input-map"@) is None
    &&& !is_same_path(g.assets, g.startup_scene)
    &&& byte_length(descriptor_file(g)) <= MAX_PROJECT_BYTES
}

proof fn lemma_descriptor_rows_on_lines(g: Generated)
    requires
        can_be_generated(g),
    ensures
        rows_on_lines(descriptor_rows(g)),
{
    reveal_strlit("kairo-project");
    reveal_strlit("2");
    reveal_strlit("name");
    reveal_strlit("engine-version");
    reveal_strlit("assets");
    reveal_strlit("startup-scene");
    reveal_strlit("input-map");
    reveal_strlit("rendering-profile");
    reveal_strlit("desktop");
    reveal_strlit("graphics-backend");
    reveal_strlit("auto");
    reveal_strlit("Development");
    reveal_strlit("development");
    reveal_strlit("Build/Development");
    reveal_strlit("Release");
    reveal_strlit("release");
    reveal_strlit("Build/Release");
    lemma_value_row("name"@, g.name);
    lemma_value_row("engine-version"@, g.engine_version);
    lemma_value_row("assets"@, g.assets);
    lemma_value_row("startup-scene"@, g.startup_scene);
    lemma_value_row("input-map"@, g.input_map);
    lemma_value_row("rendering-profile"@, "desktop"@);
    lemma_value_row("graphics-backend"@, "auto"@);
    lemma_profile_row(default_profiles()[0]);
    lemma_profile_row(default_profiles()[1]);
    let h = header_row();
    reveal_with_fuel(row, 3);
    assert(h.drop_first() =~= seq![Word::Bare("2"@)]);
    assert(row(h) =~= "kairo-project"@.push(' ') + "2"@);
    assert(is_single_line(row(h)) && can_be_written(h));
}

proof fn lemma_row_words(keyword: Seq<char>, value: Seq<char>)
    ensures
        value_row(keyword, value).map_values(|w: Word| word_text(w)) == seq![keyword, value],
{
    assert(value_row(keyword, value).map_values(|w: Word| word_text(w)) =~= seq![keyword, value]);
}

pub proof fn lemma_keywords_differ()
    ensures
        "assets"@ != "name"@,
        "startup-scene"@ != "name"@,
        "startup-scene"@ != "assets"@,
        !is_basic_keyword("engine-version"@),
        !is_basic_keyword("input-map"@),
        !is_basic_keyword("rendering-profile"@),
        !is_basic_keyword("graphics-backend"@),
        !is_basic_keyword("runtime-executable"@),
        !is_basic_keyword("plugin"@),
        !is_basic_keyword("build-profile"@),
        "input-map"@ != "engine-version"@,
        "rendering-profile"@ != "engine-version"@,
        "rendering-profile"@ != "input-map"@,
        "graphics-backend"@ != "engine-version"@,
        "graphics-backend"@ != "input-map"@,
        "graphics-backend"@ != "rendering-profile"@,
        "runtime-executable"@ != "engine-version"@,
        "runtime-executable"@ != "input-map"@,
        "runtime-executable"@ != "rendering-profile"@,
        "runtime-executable"@ != "graphics-backend"@,
        "plugin"@ != "engine-version"@,
        "plugin"@ != "input-map"@,
        "plugin"@ != "rendering-profile"@,
        "plugin"@ != "graphics-backend"@,
        "plugin"@ != "runtime-executable"@,
        "build-profile"@ != "engine-version"@,
        "build-profile"@ != "input-map"@,
        "build-profile"@ != "rendering-profile"@,
        "build-profile"@ != "graphics-backend"@,
        "build-profile"@ != "runtime-executable"@,
        "build-profile"@ != "plugin"@,
        "2"@ != "1"@,
{
    reveal_strlit("name");
    reveal_strlit("assets");
    reveal_strlit("startup-scene");
    reveal_strlit("engine-version");
    reveal_strlit("input-map");
    reveal_strlit("rendering-profile");
    reveal_strlit("graphics-backend");
    reveal_strlit("runtime-executable");
    reveal_strlit("plugin");
    reveal_strlit("build-profile");
    reveal_strlit("1");
    reveal_strlit("2");
    assert("name"@.len() == 4);
    assert("assets"@.len() == 6 && "assets"@[0] == 'a');
    assert("plugin"@[0] == 'p');
    assert("startup-scene"@.len() == 13);
    assert("engine-version"@.len() == 14);
    assert("input-map"@.len() == 9);
    assert("rendering-profile"@.len() == 17);
    assert("graphics-backend"@.len() == 16);
    assert("runtime-executable"@.len() == 18);
    assert("plugin"@.len() == 6);
    assert("build-profile"@.len() == 13);
    assert("startup-scene"@[0] == 's');
    assert("build-profile"@[0] == 'b');
    assert("2"@[0] == '2');
    assert("1"@[0] == '1');
}

/// What the statements of a generated descriptor say.
pub open spec fn generated_statements(g: Generated) -> Statements {
    Statements {
        version: Some(2u32),
        name: Some(g.name),
        assets: Some(g.assets),
        startup_scene: Some(g.startup_scene),
        engine_version: Some(g.engine_version),
        input_map: Some(g.input_map),
        rendering_profile: Some("desktop"@),
        graphics_backend: Some("auto"@),
        runtime_executable: None,
        plugins: seq![],
        profiles: default_profiles(),
    }
}

proof fn lemma_generated_statements(g: Generated)
    ensures
        statements_of_rows(descriptor_rows(g), 0, no_statements()) == Ok::<_, Seq<char>>(
            generated_statements(g),
        ),
{
    let rows = descriptor_rows(g);
    lemma_keywords_differ();
    lemma_row_words("name"@, g.name);
    lemma_row_words("engine-version"@, g.engine_version);
    lemma_row_words("assets"@, g.assets);
    lemma_row_words("startup-scene"@, g.startup_scene);
    lemma_row_words("input-map"@, g.input_map);
    lemma_row_words("rendering-profile"@, "desktop"@);
    lemma_row_words("graphics-backend"@, "auto"@);
    let d = default_profiles();
    assert(rows[0].map_values(|w: Word| word_text(w)) =~= seq!["kairo-project"@, "2"@]);
    assert(rows[8].map_values(|w: Word| word_text(w)) =~= seq![
        "build-profile"@,
        d[0].name,
        d[0].kind,
        d[0].output_directory,
    ]);
    assert(rows[9].map_values(|w: Word| word_text(w)) =~= seq![
        "build-profile"@,
        d[1].name,
        d[1].kind,
        d[1].output_directory,
    ]);
    let s0 = no_statements();
    let s1 = Statements { version: Some(2u32), ..s0 };
    let s2 = Statements { name: Some(g.name), ..s1 };
    let s3 = Statements { engine_version: Some(g.engine_version), ..s2 };
    let s4 = Statements { assets: Some(g.assets), ..s3 };
    let s5 = Statements { startup_scene: Some(g.startup_scene), ..s4 };
    let s6 = Statements { input_map: Some(g.input_map), ..s5 };
    let s7 = Statements { rendering_profile: Some("desktop"@), ..s6 };
    let s8 = Statements { graphics_backend: Some("auto"@), ..s7 };
    let s9 = Statements { profiles: s8.profiles.push(d[0]), ..s8 };
    let s10 = Statements { profiles: s9.profiles.push(d[1]), ..s9 };
    assert(statements_of_rows(rows, 0, s0) == statements_of_rows(rows, 1, s1));
    assert(statements_of_rows(rows, 1, s1) == statements_of_rows(rows, 2, s2));
    assert(statements_of_rows(rows, 2, s2) == statements_of_rows(rows, 3, s3));
    assert(statements_of_rows(rows, 3, s3) == statements_of_rows(rows, 4, s4));
    assert(statements_of_rows(rows, 4, s4) == statements_of_rows(rows, 5, s5));
    assert(statements_of_rows(rows, 5, s5) == statements_of_rows(rows, 6, s6));
    assert(statements_of_rows(rows, 6, s6) == statements_of_rows(rows, 7, s7));
    assert(statements_of_rows(rows, 7, s7) == statements_of_rows(rows, 8, s8));
    assert(statements_of_rows(rows, 8, s8) == statements_of_rows(rows, 9, s9));
    assert(statements_of_rows(rows, 9, s9) == statements_of_rows(rows, 10, s10));
    assert(s10.profiles =~= default_profiles());
}

proof fn lemma_default_profiles_are_sound()
    ensures
        profiles_fault(default_profiles(), 0) is None,
{
    let d = default_profiles();
    reveal_strlit("Development");
    reveal_strlit("development");
    reveal_strlit("Release");
    reveal_strlit("release");
    reveal_strlit("Build");
    reveal_strlit("Build/Development");
    reveal_strlit("Build/Release");
    lemma_not_blank("Development"@);
    lemma_not_blank("Release"@);
    assert("Build/Development"@ =~= "Build"@.push('/') + "Development"@);
    assert("Build/Release"@ =~= "Build"@.push('/') + "Release"@);
    lemma_two_components("Build"@, "Development"@, "Build/Development"@);
    lemma_two_components("Build"@, "Release"@, "Build/Release"@);
    assert(d[0].name[0] == 'D');
    assert(d[1].name[0] == 'R');
    assert(!profile_name_taken(d, 0));
    assert(!profile_name_taken(d, 1));
    assert(relative_path_fault(d[0].output_directory, "build profile output"@) is None);
    assert(relative_path_fault(d[1].output_directory, "build profile output"@) is None);
    assert(profiles_fault(d, 2) is None);
    assert(profiles_fault(d, 1) is None);
}

/// A text that begins with something visible is not blank.
pub proof fn lemma_not_blank(s: Seq<char>)
    requires
        s.len() > 0,
        !is_white_space(s[0]),
    ensures
        !is_blank(s),
{
    assert(trim_start(s) == s);
    lemma_trim_end_keeps_first(s);
}

proof fn lemma_trim_end_keeps_first(s: Seq<char>)
    requires
        s.len() > 0,
        !is_white_space(s[0]),
    ensures
        trim_end(s).len() > 0,
    decreases s.len(),
{
    if is_white_space(s.last()) {
        assert(s.drop_last()[0] == s[0]);
        lemma_trim_end_keeps_first(s.drop_last());
    }
}

/// A path of two names is relative, and has those two components.
pub proof fn lemma_two_components(first: Seq<char>, second: Seq<char>, path: Seq<char>)
    requires
        path == first.push('/') + second,
        is_name(first) && !first.contains('/') && first != dot_dot(),
        is_name(second) && !second.contains('/') && second != dot_dot(),
    ensures
        components(path) == seq![first, second],
        forall|field: Seq<char>| relative_path_fault(path, field) is None,
{
    lemma_components_below(first, second);
    lemma_single_component(first);
    lemma_single_component(second);
    assert(components(path) =~= seq![first, second]);
    assert(path[0] == first[0]);
    assert(first.contains(first[0]));
}

/// A generated descriptor is accepted, and says what it was generated for.
pub proof fn law_generated_descriptor_is_accepted(g: Generated)
    requires
        can_be_generated(g),
    ensures
        project_of(descriptor_file(g)) == Ok::<_, Seq<char>>(generated_descriptor(g)),
{
    let rows = descriptor_rows(g);
    lemma_descriptor_rows_on_lines(g);
    lemma_lines_of_statement_file(rows);
    lemma_statements_read_back(rows, 0, no_statements());
    lemma_generated_statements(g);
    lemma_default_profiles_are_sound();
    reveal_strlit("desktop");
    lemma_not_blank("desktop"@);
    let d = generated_descriptor(g);
    assert(assembled(generated_statements(g)) == Ok::<_, Seq<char>>(d));
    assert(descriptor_fault(d) is None);
}

proof fn lemma_statement_file_take(rows: Seq<Seq<Word>>, i: int)
    requires
        0 <= i < rows.len(),
    ensures
        statement_file(rows.take(i + 1)) == statement_file(rows.take(i)) + row(rows[i]).push('\n'),
{
    assert(rows.take(i + 1) =~= rows.take(i).push(rows[i]));
    lemma_statement_file_push(rows.take(i), rows[i]);
}

/// Writes `keyword "value"` on a line of its own.
fn add_value(out: &mut String, keyword: &str, value: &str)
    ensures
        final(out)@ == old(out)@ + row(value_row(keyword@, value@)).push('\n'),
{
    let ghost before = out@;
    out.append(keyword);
    out.push(' ');
    let q = quote(value);
    out.append(q.as_str());
    out.push('\n');
    proof {
        lemma_value_row_text(keyword@, value@);
    }
    assert(out@ =~= before + row(value_row(keyword@, value@)).push('\n'));
}

/// Writes `build-profile "name" kind "directory"` on a line of its own.
fn add_profile(out: &mut String, name: &str, kind: &str, directory: &str)
    ensures
        final(out)@ == old(out)@ + row(
            profile_row(ProfileView { name: name@, kind: kind@, output_directory: directory@ }),
        ).push('\n'),
{
    let ghost before = out@;
    let ghost p = ProfileView { name: name@, kind: kind@, output_directory: directory@ };
    out.append("build-profile");
    out.push(' ');
    let q = quote(name);
    out.append(q.as_str());
    out.push(' ');
    out.append(kind);
    out.push(' ');
    let d = quote(directory);
    out.append(d.as_str());
    out.push('\n');
    proof {
        lemma_profile_row_text(p);
    }
    assert(out@ =~= before + row(profile_row(p)).push('\n'));
}

/// Writes a descriptor of format 2 with the default profiles.
pub fn descriptor_text(
    name: &str,
    engine_version: &str,
    assets: &str,
    startup_scene: &str,
    input_map: &str,
) -> (r: String)
    ensures
        r@ == descriptor_file(
            Generated {
                name: name@,
                engine_version: engine_version@,
                assets: assets@,
                startup_scene: startup_scene@,
                input_map: input_map@,
            },
        ),
{
    let ghost g = Generated {
        name: name@,
        engine_version: engine_version@,
        assets: assets@,
        startup_scene: startup_scene@,
        input_map: input_map@,
    };
    let ghost rows = descriptor_rows(g);
    let ghost none = Seq::<Seq<Word>>::empty();
    let mut out = "kairo-project 2\n".to_owned();
    proof {
        reveal_strlit("kairo-project 2\n");
        reveal_strlit("kairo-project");
        reveal_strlit("2");
        reveal_with_fuel(row, 3);
        assert(header_row().drop_first() =~= seq![Word::Bare("2"@)]);
        assert(row(header_row()) =~= "kairo-project"@.push(' ') + "2"@);
        assert(out@ =~= row(header_row()).push('\n'));
        lemma_statement_file_take(rows, 0);
        assert(rows.take(0) =~= none);
        assert(statement_file(none) + row(rows[0]).push('\n') =~= out@);
    }
    add_value(&mut out, "name", name);
    proof {
        lemma_statement_file_take(rows, 1);
    }
    add_value(&mut out, "engine-version", engine_version);
    proof {
        lemma_statement_file_take(rows, 2);
    }
    add_value(&mut out, "assets", assets);
    proof {
        lemma_statement_file_take(rows, 3);
    }
    add_value(&mut out, "startup-scene", startup_scene);
    proof {
        lemma_statement_file_take(rows, 4);
    }
    add_value(&mut out, "input-map", input_map);
    proof {
        lemma_statement_file_take(rows, 5);
    }
    add_value(&mut out, "rendering-profile", "desktop");
    proof {
        lemma_statement_file_take(rows, 6);
    }
    add_value(&mut out, "graphics-backend", "auto");
    proof {
        lemma_statement_file_take(rows, 7);
    }
    add_profile(&mut out, "Development", "development", "Build/Development");
    proof {
        lemma_statement_file_take(rows, 8);
    }
    add_profile(&mut out, "Release", "release", "Build/Release");
    proof {
        lemma_statement_file_take(rows, 9);
    }
    assert(rows.take(10) =~= rows);
    out
}

} // verus!
