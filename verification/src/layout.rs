//! What the layout of a descriptor has no part in.
//!
//! A descriptor says the same with and without blank lines and comments, with
//! either line end, and whatever the order of the statements behind its header.
//! Only plugins and build profiles keep the order in which they stand.
use vstd::prelude::*;

use crate::descriptor::{
    header_version, is_basic_keyword, is_extended_keyword, no_statements, project_of,
    statements_from, with_statement, ProfileView, Statements, MAX_PROJECT_BYTES,
};
use crate::generate::lemma_keywords_differ;
use crate::text::{
    byte_length, first_index, lemma_first_index, lemma_first_index_is, lines, without_return,
};
use crate::token::{
    lemma_no_tokens, lemma_tokens_anywhere, lemma_tokens_before_return, says_nothing, tokens,
};

verus! {

// ---------------------------------------------------------------------------
// The lines that say something
// ---------------------------------------------------------------------------
/// The line without the carriage returns at its end.
pub open spec fn bare_line(line: Seq<char>) -> Seq<char>
    decreases line.len(),
{
    if line.len() > 0 && line.last() == '\r' {
        bare_line(line.drop_last())
    } else {
        line
    }
}

/// The lines that are more than white space and comments, without carriage
/// returns at their ends.
pub open spec fn speaking(all: Seq<Seq<char>>) -> Seq<Seq<char>> {
    all.map_values(|line: Seq<char>| bare_line(line)).filter(|line: Seq<char>| !says_nothing(line))
}

/// The lines of a text that hold its statements, the header among them.
pub open spec fn statement_lines(source: Seq<char>) -> Seq<Seq<char>> {
    speaking(lines(source))
}

pub open spec fn is_readable(line: Seq<char>) -> bool {
    tokens(line, 0) is Ok
}

pub open spec fn words(line: Seq<char>) -> Seq<Seq<char>> {
    tokens(line, 0)->Ok_0
}

pub open spec fn keyword(line: Seq<char>) -> Seq<char> {
    words(line)[0]
}

proof fn lemma_bare_words(line: Seq<char>)
    ensures
        is_readable(bare_line(line)) <==> is_readable(line),
        is_readable(line) ==> words(bare_line(line)) == words(line),
    decreases line.len(),
{
    if line.len() > 0 && line.last() == '\r' {
        let shorter = line.drop_last();
        lemma_bare_words(shorter);
        lemma_tokens_before_return(shorter, 0, 0);
        assert(shorter.push('\r') =~= line);
    }
}

proof fn lemma_silent(line: Seq<char>)
    ensures
        says_nothing(line) <==> is_readable(line) && words(line).len() == 0,
        says_nothing(bare_line(line)) <==> says_nothing(line),
{
    lemma_no_tokens(line, 0, 0);
    assert(line.skip(0) =~= line);
    let bare = bare_line(line);
    lemma_no_tokens(bare, 0, 0);
    assert(bare.skip(0) =~= bare);
    lemma_bare_words(line);
    if is_readable(line) && words(line).len() == 0 {
        assert(words(line) =~= Seq::<Seq<char>>::empty());
    }
    if is_readable(bare) && words(bare).len() == 0 {
        assert(words(bare) =~= Seq::<Seq<char>>::empty());
    }
}

proof fn lemma_speaking_add(a: Seq<Seq<char>>, b: Seq<Seq<char>>)
    ensures
        speaking(a + b) == speaking(a) + speaking(b),
{
    let f = |line: Seq<char>| bare_line(line);
    assert((a + b).map_values(f) =~= a.map_values(f) + b.map_values(f));
    Seq::filter_distributes_over_add(
        a.map_values(f),
        b.map_values(f),
        |line: Seq<char>| !says_nothing(line),
    );
}

proof fn lemma_speaking_one(line: Seq<char>)
    ensures
        speaking(seq![line]) == if says_nothing(line) {
            Seq::<Seq<char>>::empty()
        } else {
            seq![bare_line(line)]
        },
{
    reveal_with_fuel(Seq::filter, 2);
    lemma_silent(line);
    let all = seq![line].map_values(|line: Seq<char>| bare_line(line));
    assert(all =~= seq![bare_line(line)]);
    assert(all.drop_last() =~= Seq::<Seq<char>>::empty());
}

proof fn lemma_speaking_none()
    ensures
        speaking(seq![]) == Seq::<Seq<char>>::empty(),
{
    reveal(Seq::filter);
    assert(Seq::<Seq<char>>::empty().map_values(|line: Seq<char>| bare_line(line))
        =~= Seq::<Seq<char>>::empty());
}

/// Every line that speaks has a first word, if it can be read.
pub proof fn lemma_speaking_words(all: Seq<Seq<char>>)
    ensures
        forall|i: int|
            0 <= i < speaking(all).len() && is_readable(#[trigger] speaking(all)[i]) ==> words(
                speaking(all)[i],
            ).len() > 0,
{
    let some = speaking(all);
    assert forall|i: int| 0 <= i < some.len() && is_readable(#[trigger] some[i]) implies words(
        some[i],
    ).len() > 0 by {
        all.map_values(|line: Seq<char>| bare_line(line)).lemma_filter_pred(
            |line: Seq<char>| !says_nothing(line),
            i,
        );
        lemma_silent(some[i]);
    }
}

// ---------------------------------------------------------------------------
// What the statement lines come to
// ---------------------------------------------------------------------------
/// The statements of the lines, if all are in order.
pub open spec fn folded(all: Seq<Seq<char>>) -> Option<Statements>
    decreases all.len(),
{
    if all.len() == 0 {
        Some(no_statements())
    } else {
        match folded(all.drop_last()) {
            None => None,
            Some(st) => if !is_readable(all.last()) {
                None
            } else {
                match with_statement(st, words(all.last()), 0) {
                    Ok(next) => Some(next),
                    Err(_) => None,
                }
            },
        }
    }
}

pub proof fn lemma_folded_prefix(a: Seq<Seq<char>>, b: Seq<Seq<char>>)
    requires
        folded(a) is None,
    ensures
        folded(a + b) is None,
    decreases b.len(),
{
    if b.len() == 0 {
        assert(a + b =~= a);
    } else {
        lemma_folded_prefix(a, b.drop_last());
        assert((a + b).drop_last() =~= a + b.drop_last());
    }
}

/// Reading the lines one by one comes to what the lines that speak come to.
proof fn lemma_folded(all: Seq<Seq<char>>, at: int, st: Statements)
    requires
        0 <= at <= all.len(),
        folded(speaking(all.take(at))) == Some(st),
    ensures
        match statements_from(all, at, st) {
            Ok(r) => folded(speaking(all)) == Some(r),
            Err(_) => folded(speaking(all)) is None,
        },
    decreases all.len() - at,
{
    if at == all.len() {
        assert(all.take(at) =~= all);
    } else {
        let line = all[at];
        let bare = bare_line(line);
        let n = (at + 1) as nat;
        let before = speaking(all.take(at));
        let upto = speaking(all.take(at + 1));
        assert(all.take(at + 1) =~= all.take(at) + seq![line]);
        lemma_speaking_add(all.take(at), seq![line]);
        lemma_speaking_one(line);
        lemma_silent(line);
        lemma_bare_words(line);
        lemma_tokens_anywhere(line, 0, n, 0);
        assert(all =~= all.take(at + 1) + all.skip(at + 1));
        lemma_speaking_add(all.take(at + 1), all.skip(at + 1));
        if says_nothing(line) {
            assert(upto =~= before);
            lemma_folded(all, at + 1, st);
        } else {
            assert(upto =~= before.push(bare));
            assert(upto.drop_last() =~= before);
            if is_readable(line) && with_statement(st, words(line), 0) is Ok {
                lemma_folded(all, at + 1, with_statement(st, words(line), 0)->Ok_0);
            } else {
                lemma_folded_prefix(upto, speaking(all.skip(at + 1)));
            }
        }
    }
}

pub proof fn lemma_source_folded(source: Seq<char>)
    ensures
        match statements_from(lines(source), 0, no_statements()) {
            Ok(r) => folded(statement_lines(source)) == Some(r),
            Err(_) => folded(statement_lines(source)) is None,
        },
{
    let all = lines(source);
    assert(all.take(0) =~= seq![]);
    lemma_speaking_none();
    lemma_folded(all, 0, no_statements());
}

// ---------------------------------------------------------------------------
// The order of the statements
// ---------------------------------------------------------------------------
/// The statement may stand only once.
pub open spec fn is_single(k: Seq<char>) -> bool {
    is_basic_keyword(k) || (is_extended_keyword(k) && k != "plugin"@ && k != "build-profile"@)
}

/// The lines that begin with a keyword, in order.
pub open spec fn with_keyword(all: Seq<Seq<char>>, k: Seq<char>) -> Seq<Seq<char>> {
    all.filter(|line: Seq<char>| keyword(line) == k)
}

/// The line is a statement of the format.
pub open spec fn is_statement(version: u32, line: Seq<char>) -> bool {
    let w = words(line);
    &&& is_readable(line)
    &&& w.len() > 0
    &&& {
        ||| is_basic_keyword(w[0]) && w.len() == 2
        ||| version == 2 && is_extended_keyword(w[0]) && w[0] != "build-profile"@ && w.len() == 2
        ||| version == 2 && w[0] == "build-profile"@ && w.len() == 4
    }
}

/// The lines are statements of the format, none too often.
pub open spec fn are_statements(version: u32, all: Seq<Seq<char>>) -> bool {
    &&& forall|i: int| 0 <= i < all.len() ==> is_statement(version, #[trigger] all[i])
    &&& forall|k: Seq<char>| is_single(k) ==> (#[trigger] with_keyword(all, k)).len() <= 1
}

/// The value of a statement that stands once, if it stands at all.
pub open spec fn value_of(all: Seq<Seq<char>>, k: Seq<char>) -> Option<Seq<char>> {
    if with_keyword(all, k).len() == 0 {
        None
    } else {
        Some(words(with_keyword(all, k)[0])[1])
    }
}

pub open spec fn profile_of(line: Seq<char>) -> ProfileView {
    ProfileView {
        name: words(line)[1],
        kind: words(line)[2],
        output_directory: words(line)[3],
    }
}

/// What the lines behind the header say.
pub open spec fn said(version: u32, all: Seq<Seq<char>>) -> Statements {
    Statements {
        version: Some(version),
        name: value_of(all, "name"@),
        assets: value_of(all, "assets"@),
        startup_scene: value_of(all, "startup-scene"@),
        engine_version: value_of(all, "engine-version"@),
        input_map: value_of(all, "input-map"@),
        rendering_profile: value_of(all, "rendering-profile"@),
        graphics_backend: value_of(all, "graphics-backend"@),
        runtime_executable: value_of(all, "runtime-executable"@),
        plugins: with_keyword(all, "plugin"@).map_values(|line: Seq<char>| words(line)[1]),
        profiles: with_keyword(all, "build-profile"@).map_values(
            |line: Seq<char>| profile_of(line),
        ),
    }
}

pub proof fn lemma_with_keyword_push(all: Seq<Seq<char>>, line: Seq<char>, k: Seq<char>)
    ensures
        with_keyword(all.push(line), k) == if keyword(line) == k {
            with_keyword(all, k).push(line)
        } else {
            with_keyword(all, k)
        },
        keyword(line) != k ==> value_of(all.push(line), k) == value_of(all, k),
        keyword(line) == k && value_of(all, k) is None ==> value_of(all.push(line), k) == Some(
            words(line)[1],
        ),
{
    reveal(Seq::filter);
    assert(all.push(line).drop_last() =~= all);
}

/// When one more line leaves the lines statements of the format.
proof fn lemma_statements_push(version: u32, all: Seq<Seq<char>>, line: Seq<char>)
    ensures
        are_statements(version, all.push(line)) <==> {
            &&& are_statements(version, all)
            &&& is_statement(version, line)
            &&& is_single(keyword(line)) ==> value_of(all, keyword(line)) is None
        },
{
    let more = all.push(line);
    let k = keyword(line);
    lemma_with_keyword_push(all, line, k);
    if are_statements(version, more) {
        assert forall|i: int| 0 <= i < all.len() implies is_statement(
            version,
            #[trigger] all[i],
        ) by {
            assert(more[i] == all[i]);
        }
        assert(more[all.len() as int] == line);
        assert forall|j: Seq<char>| is_single(j) implies (#[trigger] with_keyword(all, j)).len()
            <= 1 by {
            lemma_with_keyword_push(all, line, j);
            assert(with_keyword(more, j).len() <= 1);
        }
        assert(is_single(k) ==> with_keyword(more, k).len() <= 1);
    } else if are_statements(version, all) && is_statement(version, line) && (is_single(k)
        ==> value_of(all, k) is None) {
        assert forall|j: Seq<char>| is_single(j) implies (#[trigger] with_keyword(more, j)).len()
            <= 1 by {
            lemma_with_keyword_push(all, line, j);
            assert(with_keyword(all, j).len() <= 1);
        }
    }
}

proof fn lemma_said_values(version: u32, all: Seq<Seq<char>>, line: Seq<char>)
    requires
        is_single(keyword(line)) ==> value_of(all, keyword(line)) is None,
    ensures
        ({
            let k = keyword(line);
            let value = Some(words(line)[1]);
            let a = said(version, all);
            let b = said(version, all.push(line));
            &&& b.version == a.version
            &&& b.name == if k == "name"@ { value } else { a.name }
            &&& b.assets == if k == "assets"@ { value } else { a.assets }
            &&& b.startup_scene == if k == "startup-scene"@ { value } else { a.startup_scene }
            &&& b.engine_version == if k == "engine-version"@ { value } else { a.engine_version }
            &&& b.input_map == if k == "input-map"@ { value } else { a.input_map }
            &&& b.rendering_profile == if k == "rendering-profile"@ {
                value
            } else {
                a.rendering_profile
            }
            &&& b.graphics_backend == if k == "graphics-backend"@ {
                value
            } else {
                a.graphics_backend
            }
            &&& b.runtime_executable == if k == "runtime-executable"@ {
                value
            } else {
                a.runtime_executable
            }
            &&& b.plugins == if k == "plugin"@ { a.plugins.push(words(line)[1]) } else { a.plugins }
            &&& b.profiles == if k == "build-profile"@ {
                a.profiles.push(profile_of(line))
            } else {
                a.profiles
            }
        }),
{
    lemma_keywords_differ();
    lemma_with_keyword_push(all, line, "name"@);
    lemma_with_keyword_push(all, line, "assets"@);
    lemma_with_keyword_push(all, line, "startup-scene"@);
    lemma_with_keyword_push(all, line, "engine-version"@);
    lemma_with_keyword_push(all, line, "input-map"@);
    lemma_with_keyword_push(all, line, "rendering-profile"@);
    lemma_with_keyword_push(all, line, "graphics-backend"@);
    lemma_with_keyword_push(all, line, "runtime-executable"@);
    lemma_with_keyword_push(all, line, "plugin"@);
    lemma_with_keyword_push(all, line, "build-profile"@);
    let a = said(version, all);
    let b = said(version, all.push(line));
    if keyword(line) == "plugin"@ {
        assert(b.plugins =~= a.plugins.push(words(line)[1]));
    }
    if keyword(line) == "build-profile"@ {
        assert(b.profiles =~= a.profiles.push(profile_of(line)));
    }
}

/// One more line behind the header.
proof fn lemma_said_push(version: u32, all: Seq<Seq<char>>, line: Seq<char>)
    requires
        are_statements(version, all),
        is_readable(line),
        words(line).len() > 0,
    ensures
        match with_statement(said(version, all), words(line), 0) {
            Ok(next) => are_statements(version, all.push(line)) && next == said(
                version,
                all.push(line),
            ),
            Err(_) => !are_statements(version, all.push(line)),
        },
{
    lemma_statements_push(version, all, line);
    lemma_keywords_differ();
    if is_single(keyword(line)) ==> value_of(all, keyword(line)) is None {
        lemma_said_values(version, all, line);
    }
}

/// What the lines come to, header first.
pub proof fn lemma_said(version: u32, head: Seq<char>, all: Seq<Seq<char>>)
    requires
        is_readable(head),
        header_version(words(head)) == Some(version),
        forall|i: int|
            0 <= i < all.len() && is_readable(#[trigger] all[i]) ==> words(all[i]).len() > 0,
    ensures
        folded(seq![head] + all) == if are_statements(version, all) {
            Some(said(version, all))
        } else {
            None
        },
    decreases all.len(),
{
    let full = seq![head] + all;
    if all.len() == 0 {
        reveal_with_fuel(folded, 2);
        reveal(Seq::filter);
        assert(full.drop_last() =~= seq![]);
        assert(full.last() == head);
        assert(said(version, all).plugins =~= seq![]);
        assert(said(version, all).profiles =~= seq![]);
        assert(forall|k: Seq<char>| (#[trigger] with_keyword(all, k)).len() == 0);
    } else {
        let fewer = all.drop_last();
        let line = all.last();
        assert(all =~= fewer.push(line));
        assert(full.drop_last() =~= seq![head] + fewer);
        assert(full.last() == line);
        assert(line == all[all.len() - 1]);
        assert forall|i: int| 0 <= i < fewer.len() && is_readable(
            #[trigger] fewer[i],
        ) implies words(fewer[i]).len() > 0 by {
            assert(fewer[i] == all[i]);
        }
        lemma_said(version, head, fewer);
        lemma_statements_push(version, fewer, line);
        if are_statements(version, fewer) && is_readable(line) {
            lemma_said_push(version, fewer, line);
        }
    }
}

// ---------------------------------------------------------------------------
// Laws
// ---------------------------------------------------------------------------
/// The same statements in another order: the header stays first, and plugins and
/// build profiles keep their order among themselves.
pub open spec fn is_reordered(a: Seq<Seq<char>>, b: Seq<Seq<char>>) -> bool {
    &&& a.len() > 0
    &&& b.len() > 0
    &&& a[0] == b[0]
    &&& a.skip(1).to_multiset() == b.skip(1).to_multiset()
    &&& with_keyword(a.skip(1), "plugin"@) == with_keyword(b.skip(1), "plugin"@)
    &&& with_keyword(a.skip(1), "build-profile"@) == with_keyword(b.skip(1), "build-profile"@)
}

proof fn lemma_with_keyword_count(all: Seq<Seq<char>>, k: Seq<char>, line: Seq<char>)
    ensures
        with_keyword(all, k).to_multiset().count(line) == if keyword(line) == k {
            all.to_multiset().count(line)
        } else {
            0
        },
    decreases all.len(),
{
    broadcast use vstd::seq_lib::group_to_multiset_ensures;
    broadcast use vstd::multiset::group_multiset_axioms;

    reveal(Seq::filter);
    if all.len() > 0 {
        let fewer = all.drop_last();
        lemma_with_keyword_count(fewer, k, line);
        assert(all =~= fewer.push(all.last()));
    }
}

proof fn lemma_with_keyword_reordered(a: Seq<Seq<char>>, b: Seq<Seq<char>>, k: Seq<char>)
    requires
        a.to_multiset() == b.to_multiset(),
    ensures
        with_keyword(a, k).len() == with_keyword(b, k).len(),
        with_keyword(b, k).len() == 1 ==> with_keyword(a, k) == with_keyword(b, k),
{
    broadcast use vstd::seq_lib::group_to_multiset_ensures;
    broadcast use vstd::multiset::group_multiset_axioms;

    let x = with_keyword(a, k);
    let y = with_keyword(b, k);
    assert forall|line: Seq<char>|
        #[trigger] x.to_multiset().count(line) == y.to_multiset().count(line) by {
        lemma_with_keyword_count(a, k, line);
        lemma_with_keyword_count(b, k, line);
    }
    assert(x.to_multiset() =~= y.to_multiset());
    assert(x.len() == x.to_multiset().len() && y.len() == y.to_multiset().len());
    if y.len() == 1 {
        assert(x.contains(x[0]));
        assert(y.to_multiset().count(x[0]) > 0);
        assert(y.contains(x[0]));
        assert(x =~= y);
    }
}

proof fn lemma_value_reordered(
    version: u32,
    a: Seq<Seq<char>>,
    b: Seq<Seq<char>>,
    k: Seq<char>,
)
    requires
        are_statements(version, b),
        a.to_multiset() == b.to_multiset(),
        is_single(k),
    ensures
        value_of(a, k) == value_of(b, k),
{
    lemma_with_keyword_reordered(a, b, k);
    assert(with_keyword(b, k).len() <= 1);
}

proof fn lemma_said_reordered(version: u32, a: Seq<Seq<char>>, b: Seq<Seq<char>>)
    requires
        are_statements(version, b),
        a.to_multiset() == b.to_multiset(),
        with_keyword(a, "plugin"@) == with_keyword(b, "plugin"@),
        with_keyword(a, "build-profile"@) == with_keyword(b, "build-profile"@),
    ensures
        are_statements(version, a),
        said(version, a) == said(version, b),
{
    broadcast use vstd::seq_lib::group_to_multiset_ensures;

    assert forall|i: int| 0 <= i < a.len() implies is_statement(version, #[trigger] a[i]) by {
        assert(a.contains(a[i]));
        assert(b.to_multiset().count(a[i]) > 0);
        assert(b.contains(a[i]));
    }
    assert forall|k: Seq<char>| is_single(k) implies (#[trigger] with_keyword(a, k)).len()
        <= 1 by {
        lemma_with_keyword_reordered(a, b, k);
        assert(with_keyword(b, k).len() <= 1);
    }
    lemma_keywords_differ();
    lemma_value_reordered(version, a, b, "name"@);
    lemma_value_reordered(version, a, b, "assets"@);
    lemma_value_reordered(version, a, b, "startup-scene"@);
    lemma_value_reordered(version, a, b, "engine-version"@);
    lemma_value_reordered(version, a, b, "input-map"@);
    lemma_value_reordered(version, a, b, "rendering-profile"@);
    lemma_value_reordered(version, a, b, "graphics-backend"@);
    lemma_value_reordered(version, a, b, "runtime-executable"@);
}

/// Lines that come to something begin with a header.
pub proof fn lemma_header_first(all: Seq<Seq<char>>)
    requires
        all.len() > 0,
        is_readable(all[0]) ==> words(all[0]).len() > 0,
        folded(all) is Some,
    ensures
        is_readable(all[0]),
        header_version(words(all[0])) is Some,
{
    let first = seq![all[0]];
    reveal_with_fuel(folded, 2);
    assert(first.drop_last() =~= seq![]);
    assert(all =~= first + all.skip(1));
    if folded(first) is None {
        lemma_folded_prefix(first, all.skip(1));
    }
}

proof fn lemma_reordered(s: Seq<char>, source: Seq<char>)
    requires
        is_reordered(statement_lines(source), statement_lines(s)),
        folded(statement_lines(s)) is Some,
    ensures
        folded(statement_lines(source)) == folded(statement_lines(s)),
{
    let a = statement_lines(source);
    let b = statement_lines(s);
    lemma_speaking_words(lines(source));
    lemma_speaking_words(lines(s));
    lemma_header_first(b);
    let version = header_version(words(b[0]))->0;
    assert(a =~= seq![a[0]] + a.skip(1));
    assert(b =~= seq![b[0]] + b.skip(1));
    assert(forall|i: int| 0 <= i < a.skip(1).len() ==> a.skip(1)[i] == a[i + 1]);
    assert(forall|i: int| 0 <= i < b.skip(1).len() ==> b.skip(1)[i] == b[i + 1]);
    lemma_said(version, a[0], a.skip(1));
    lemma_said(version, b[0], b.skip(1));
    lemma_said_reordered(version, a.skip(1), b.skip(1));
}

/// The layout of a descriptor does not matter: a text whose statement lines are
/// those of an accepted one, but for their order behind the header, writes the same
/// project; and of two such texts both are accepted or both are refused. (What the
/// refusal says names a line.)
pub proof fn law_layout_does_not_matter(s: Seq<char>, source: Seq<char>)
    requires
        byte_length(source) <= MAX_PROJECT_BYTES,
        is_reordered(statement_lines(source), statement_lines(s)),
    ensures
        project_of(s) is Ok ==> project_of(source) == project_of(s),
        byte_length(s) <= MAX_PROJECT_BYTES ==> (project_of(source) is Ok <==> project_of(s) is Ok),
{
    lemma_source_folded(s);
    lemma_source_folded(source);
    if folded(statement_lines(s)) is Some {
        lemma_reordered(s, source);
    } else if folded(statement_lines(source)) is Some {
        lemma_reordered(source, s);
    }
}

pub proof fn lemma_lines_add(a: Seq<char>, b: Seq<char>)
    requires
        a.len() > 0 ==> a.last() == '\n',
    ensures
        lines(a + b) == lines(a) + lines(b),
    decreases a.len(),
{
    if a.len() == 0 {
        assert(a + b =~= b);
        assert(lines(a) + lines(b) =~= lines(b));
    } else {
        let n = first_index(a, '\n');
        lemma_first_index(a, '\n');
        assert(a[a.len() - 1] == '\n');
        lemma_first_index_is(a + b, '\n', n);
        let rest = a.skip(n + 1);
        lemma_lines_add(rest, b);
        assert((a + b).skip(n + 1) =~= rest + b);
        assert((a + b).take(n) =~= a.take(n));
        assert(lines(a + b) =~= lines(a) + lines(b));
    }
}

proof fn lemma_without_return(line: Seq<char>)
    ensures
        bare_line(without_return(line)) == bare_line(line),
        says_nothing(without_return(line)) <==> says_nothing(line),
{
    lemma_silent(line);
    lemma_silent(without_return(line));
}

proof fn lemma_statement_line(line: Seq<char>)
    requires
        !line.contains('\n'),
    ensures
        statement_lines(line.push('\n')) == speaking(seq![line]),
{
    let text = line.push('\n');
    lemma_first_index_is(text, '\n', line.len() as int);
    assert(text.take(line.len() as int) =~= line);
    assert(text.skip(line.len() as int + 1) =~= seq![]);
    assert(lines(seq![]) =~= Seq::<Seq<char>>::empty());
    assert(lines(text) =~= seq![without_return(line)]);
    lemma_without_return(line);
    lemma_speaking_one(line);
    lemma_speaking_one(without_return(line));
}

/// A line that is blank or a comment says nothing: with it, wherever it stands,
/// the statements are those without it.
pub proof fn law_blank_line_says_nothing(before: Seq<char>, line: Seq<char>, after: Seq<char>)
    requires
        before.len() > 0 ==> before.last() == '\n',
        !line.contains('\n'),
        says_nothing(line),
    ensures
        statement_lines(before + line.push('\n') + after) == statement_lines(before + after),
{
    let text = line.push('\n');
    assert(before + text + after =~= before + (text + after));
    lemma_lines_add(before, text + after);
    lemma_lines_add(text, after);
    lemma_lines_add(before, after);
    lemma_speaking_add(lines(before), lines(text + after));
    lemma_speaking_add(lines(text), lines(after));
    lemma_speaking_add(lines(before), lines(after));
    lemma_statement_line(line);
    lemma_speaking_one(line);
    assert(speaking(lines(text)) + speaking(lines(after)) =~= speaking(lines(after)));
}

/// The text with a carriage return before each line feed.
pub open spec fn with_returns(s: Seq<char>) -> Seq<char>
    decreases s.len(),
{
    if s.len() == 0 {
        s
    } else if s[0] == '\n' {
        seq!['\r', '\n'] + with_returns(s.drop_first())
    } else {
        seq![s[0]] + with_returns(s.drop_first())
    }
}

proof fn lemma_with_returns(line: Seq<char>, rest: Seq<char>)
    requires
        !line.contains('\n'),
    ensures
        with_returns(line + rest) == line + with_returns(rest),
    decreases line.len(),
{
    if line.len() == 0 {
        assert(line + rest =~= rest);
        assert(line + with_returns(rest) =~= with_returns(rest));
    } else {
        let tail = line.drop_first();
        assert(!tail.contains('\n')) by {
            assert forall|i: int| 0 <= i < tail.len() implies tail[i] != '\n' by {
                assert(line.contains(line[i + 1]));
            }
        }
        assert(line.contains(line[0]));
        lemma_with_returns(tail, rest);
        assert((line + rest).drop_first() =~= tail + rest);
        assert(seq![line[0]] + (tail + with_returns(rest)) =~= line + with_returns(rest));
    }
}

/// The line ends do not matter: with a carriage return before each line feed, and
/// with one more line feed at the end, a text has the same statement lines.
pub proof fn law_line_ends_do_not_matter(s: Seq<char>)
    ensures
        statement_lines(with_returns(s)) == statement_lines(s),
        statement_lines(s.push('\n')) == statement_lines(s),
    decreases s.len(),
{
    let n = first_index(s, '\n');
    lemma_first_index(s, '\n');
    if n >= s.len() {
        assert(!s.contains('\n'));
        lemma_with_returns(s, seq![]);
        assert(s + Seq::<char>::empty() =~= s);
        lemma_statement_line(s);
        lemma_speaking_one(s);
        if s.len() == 0 {
            lemma_speaking_none();
            assert(lines(s) =~= seq![]);
        }
    } else {
        let line = s.take(n);
        let rest = s.skip(n + 1);
        assert(!line.contains('\n'));
        assert(s =~= line.push('\n') + rest);
        assert(s =~= line + s.skip(n));
        lemma_with_returns(line, s.skip(n));
        assert(s.skip(n)[0] == '\n');
        assert(s.skip(n).drop_first() =~= rest);
        let returned = line.push('\r');
        assert(!returned.contains('\n'));
        assert(with_returns(s) =~= returned.push('\n') + with_returns(rest));
        law_line_ends_do_not_matter(rest);
        lemma_lines_add(line.push('\n'), rest);
        lemma_lines_add(returned.push('\n'), with_returns(rest));
        lemma_lines_add(line.push('\n'), rest.push('\n'));
        assert(s.push('\n') =~= line.push('\n') + rest.push('\n'));
        lemma_speaking_add(lines(line.push('\n')), lines(rest));
        lemma_speaking_add(lines(returned.push('\n')), lines(with_returns(rest)));
        lemma_speaking_add(lines(line.push('\n')), lines(rest.push('\n')));
        lemma_statement_line(line);
        lemma_statement_line(returned);
        lemma_speaking_one(line);
        lemma_speaking_one(returned);
        lemma_without_return(returned);
        assert(without_return(returned) =~= line);
    }
}

} // verus!
