//! The tokens of a line.
use vstd::prelude::*;

use crate::text::{byte_length, decimal, is_white_space};
use crate::token::{
    bare_end, escaped, lemma_bare_end, lemma_bare_end_is, lemma_quoted_advances, quoted,
    quoted_from, tokens, tokens_from, QuoteFault,
};

verus! {

/// A text as it can be written between quotes: `"`, `\` and a line feed as `\"`,
/// `\\` and `\n`, all else as it is.
pub open spec fn between_quotes(text: Seq<char>) -> Seq<char> {
    text.map_values(
        |c: char|
            if c == '"' {
                seq!['\\', '"']
            } else if c == '\\' {
                seq!['\\', '\\']
            } else if c == '\n' {
                seq!['\\', 'n']
            } else {
                seq![c]
            },
    ).flatten()
}

proof fn lemma_between_quotes(text: Seq<char>)
    requires
        text.len() > 0,
    ensures
        between_quotes(text) == (if text[0] == '"' {
            seq!['\\', '"']
        } else if text[0] == '\\' {
            seq!['\\', '\\']
        } else if text[0] == '\n' {
            seq!['\\', 'n']
        } else {
            seq![text[0]]
        }) + between_quotes(text.drop_first()),
{
    let f = |c: char|
        if c == '"' {
            seq!['\\', '"']
        } else if c == '\\' {
            seq!['\\', '\\']
        } else if c == '\n' {
            seq!['\\', 'n']
        } else {
            seq![c]
        };
    let all = text.map_values(f);
    assert(all.drop_first() =~= text.drop_first().map_values(f));
    assert(all.first() == f(text[0]));
}

proof fn lemma_quoted_body(line: Seq<char>, at: int, text: Seq<char>)
    requires
        0 <= at,
        at + between_quotes(text).len() <= line.len(),
        line.subrange(at, at + between_quotes(text).len()) == between_quotes(text),
    ensures
        quoted_from(line, at) == match quoted_from(line, at + between_quotes(text).len()) {
            Ok((more, end)) => Ok::<_, QuoteFault>((text + more, end)),
            Err(fault) => Err(fault),
        },
    decreases text.len(),
{
    let e = between_quotes(text);
    if text.len() == 0 {
        assert(text.map_values(
            |c: char|
                if c == '"' {
                    seq!['\\', '"']
                } else if c == '\\' {
                    seq!['\\', '\\']
                } else if c == '\n' {
                    seq!['\\', 'n']
                } else {
                    seq![c]
                },
        ) =~= Seq::<Seq<char>>::empty());
        assert(e.len() == 0);
        if let Ok((more, end)) = quoted_from(line, at) {
            assert(text + more =~= more);
        }
    } else {
        lemma_between_quotes(text);
        let rest = text.drop_first();
        let r = between_quotes(rest);
        let k = e.len() - r.len();
        assert forall|i: int| 0 <= i < e.len() implies line[at + i] == e[i] by {
            assert(line.subrange(at, at + e.len())[i] == line[at + i]);
        }
        assert(line.subrange(at + k, at + k + r.len()) =~= r) by {
            assert forall|i: int| 0 <= i < r.len() implies line[at + k + i] == r[i] by {
                assert(e[k + i] == r[i]);
            }
        }
        lemma_quoted_body(line, at + k, rest);
        assert(line[at] == e[0]);
        if k == 2 {
            assert(line[at + 1] == e[1]);
        }
        if let Ok((more, end)) = quoted_from(line, at + e.len()) {
            assert(seq![text[0]] + (rest + more) =~= text + more);
        }
    }
}

proof fn lemma_quoted_shift(line: Seq<char>, k: int, at: int)
    requires
        0 <= k <= line.len(),
        0 <= at,
    ensures
        quoted_from(line, k + at) == match quoted_from(line.skip(k), at) {
            Ok((text, end)) => Ok::<_, QuoteFault>((text, k + end)),
            Err(fault) => Err(fault),
        },
    decreases line.len() - k - at,
{
    let rest = line.skip(k);
    if k + at < line.len() && rest[at] != '"' {
        assert(rest[at] == line[k + at]);
        if rest[at] != '\\' {
            lemma_quoted_shift(line, k, at + 1);
        } else if k + at + 1 < line.len() {
            assert(rest[at + 1] == line[k + at + 1]);
            lemma_quoted_shift(line, k, at + 2);
        }
    }
}

proof fn lemma_bare_shift(line: Seq<char>, k: int, at: int)
    requires
        0 <= k <= line.len(),
        0 <= at,
    ensures
        bare_end(line, k + at) == k + bare_end(line.skip(k), at),
    decreases line.len() - k - at,
{
    if k + at < line.len() && !is_white_space(line[k + at]) && line[k + at] != '"' {
        lemma_bare_shift(line, k, at + 1);
    }
}

proof fn lemma_tokens_shift(line: Seq<char>, n: nat, k: int, at: int)
    requires
        0 <= k <= line.len(),
        0 <= at,
    ensures
        tokens_from(line, n, k + at) is Ok <==> tokens_from(line.skip(k), n, at) is Ok,
        tokens_from(line.skip(k), n, at) is Ok ==> tokens_from(line, n, k + at) == tokens_from(
            line.skip(k),
            n,
            at,
        ),
    decreases line.len() - k - at,
{
    let rest = line.skip(k);
    if k + at < line.len() && rest[at] != '#' {
        assert(rest[at] == line[k + at]);
        if is_white_space(rest[at]) {
            lemma_tokens_shift(line, n, k, at + 1);
        } else if rest[at] == '"' {
            lemma_quoted_shift(line, k, at + 1);
            lemma_quoted_advances(rest, at + 1);
            if let Ok((_, end)) = quoted_from(rest, at + 1) {
                lemma_tokens_shift(line, n, k, end);
            }
        } else {
            let end = bare_end(rest, at);
            lemma_bare_shift(line, k, at);
            lemma_bare_end(rest, at);
            lemma_tokens_shift(line, n, k, end);
            assert(line.subrange(k + at, k + end) =~= rest.subrange(at, end));
        }
    }
}

/// White space before the rest of a line says nothing, a `#` where a token could
/// begin ends the line, and an empty line has no tokens.
pub proof fn law_blanks_and_comments(gap: char, rest: Seq<char>, n: nat)
    requires
        is_white_space(gap),
    ensures
        tokens(Seq::<char>::empty(), n) == Ok::<_, Seq<char>>(Seq::<Seq<char>>::empty()),
        tokens(seq!['#'] + rest, n) == Ok::<_, Seq<char>>(Seq::<Seq<char>>::empty()),
        tokens(seq![gap] + rest, n) is Ok <==> tokens(rest, n) is Ok,
        tokens(rest, n) is Ok ==> tokens(seq![gap] + rest, n) == tokens(rest, n),
{
    let line = seq![gap] + rest;
    assert(line.skip(1) =~= rest);
    assert(line[0] == gap);
    lemma_tokens_shift(line, n, 1, 0);
    assert(gap != '#') by {
        assert(!is_white_space('#'));
    }
}

/// A bare token runs to the next white space, a `#` behind its beginning being
/// part of it; then the line goes on.
pub proof fn law_bare_token(word: Seq<char>, gap: char, rest: Seq<char>, n: nat)
    requires
        word.len() > 0,
        word[0] != '#',
        forall|i: int| 0 <= i < word.len() ==> !is_white_space(#[trigger] word[i]) && word[i] != '"',
        is_white_space(gap),
    ensures
        tokens(word, n) == Ok::<_, Seq<char>>(seq![word]),
        tokens(word.push(gap) + rest, n) is Ok <==> tokens(rest, n) is Ok,
        tokens(rest, n) matches Ok(more) ==> tokens(word.push(gap) + rest, n) == Ok::<_, Seq<char>>(
            seq![word] + more,
        ),
{
    let k = word.len() as int;
    lemma_bare_end_is(word, 0, k);
    assert(word.subrange(0, k) =~= word);
    assert(tokens_from(word, n, k) == Ok::<_, Seq<char>>(Seq::<Seq<char>>::empty()));
    assert(seq![word] + Seq::<Seq<char>>::empty() =~= seq![word]);
    let line = word.push(gap) + rest;
    assert forall|i: int| 0 <= i < k implies !is_white_space(#[trigger] line[i]) && line[i]
        != '"' by {
        assert(line[i] == word[i]);
    }
    assert(line[k] == gap);
    assert(line[0] == word[0]);
    lemma_bare_end_is(line, 0, k);
    assert(line.subrange(0, k) =~= word);
    assert(line.skip(k + 1) =~= rest);
    lemma_tokens_shift(line, n, k + 1, 0);
    assert(gap != '#' && gap != '"') by {
        assert(!is_white_space('#') && !is_white_space('"'));
    }
    assert(tokens_from(line, n, k) == tokens_from(line, n, k + 1));
}

/// A quoted token is what stands between the quotes with its escapes resolved;
/// behind it stands the end of the line, white space, or a comment.
pub proof fn law_quoted_token(text: Seq<char>, gap: char, rest: Seq<char>, n: nat)
    requires
        is_white_space(gap),
    ensures
        ({
            let quoted = seq!['"'] + between_quotes(text).push('"');
            &&& tokens(quoted, n) == Ok::<_, Seq<char>>(seq![text])
            &&& tokens(quoted.push('#') + rest, n) == Ok::<_, Seq<char>>(seq![text])
            &&& tokens(quoted.push(gap) + rest, n) is Ok <==> tokens(rest, n) is Ok
            &&& tokens(rest, n) matches Ok(more) ==> tokens(quoted.push(gap) + rest, n) == Ok::<
                _,
                Seq<char>,
            >(seq![text] + more)
        }),
{
    let quoted = seq!['"'] + between_quotes(text).push('"');
    let none = Seq::<char>::empty();
    let k = quoted.len() as int;
    assert(!is_white_space('#') && !is_white_space('"'));
    lemma_quoted_whole(quoted, text, none);
    assert(quoted + none =~= quoted);
    assert(tokens_from(quoted, n, k) == Ok::<_, Seq<char>>(Seq::<Seq<char>>::empty()));
    assert(seq![text] + Seq::<Seq<char>>::empty() =~= seq![text]);
    let noted = quoted.push('#') + rest;
    assert(noted =~= quoted + (seq!['#'] + rest));
    lemma_quoted_whole(noted, text, seq!['#'] + rest);
    assert(noted[k] == '#');
    assert(tokens_from(noted, n, k) == Ok::<_, Seq<char>>(Seq::<Seq<char>>::empty()));
    let line = quoted.push(gap) + rest;
    assert(line =~= quoted + (seq![gap] + rest));
    lemma_quoted_whole(line, text, seq![gap] + rest);
    assert(line[k] == gap);
    assert(line.skip(k + 1) =~= rest);
    lemma_tokens_shift(line, n, k + 1, 0);
    assert(tokens_from(line, n, k) == tokens_from(line, n, k + 1));
}

proof fn lemma_quoted_whole(line: Seq<char>, text: Seq<char>, rest: Seq<char>)
    requires
        line == seq!['"'] + between_quotes(text).push('"') + rest,
    ensures
        line[0] == '"',
        quoted_from(line, 1) == Ok::<_, QuoteFault>((text, between_quotes(text).len() as int + 2)),
{
    let e = between_quotes(text);
    assert(line.subrange(1, e.len() as int + 1) =~= e);
    lemma_quoted_body(line, 1, text);
    assert(line[1 + e.len() as int] == '"');
    assert(text + Seq::<char>::empty() =~= text);
}

proof fn lemma_lead(line: Seq<char>, n: nat, at: int, to: int)
    requires
        0 <= at <= to <= line.len(),
        forall|i: int| at <= i < to ==> is_white_space(#[trigger] line[i]),
    ensures
        tokens_from(line, n, at) == tokens_from(line, n, to),
    decreases to - at,
{
    if at < to {
        assert(!is_white_space('#'));
        lemma_lead(line, n, at + 1, to);
    }
}

/// A quoted token that is not closed, that ends in a backslash, that has an escape
/// other than `\"`, `\\` and `\n`, or that something follows at once is refused,
/// with the line and the column of its quote; columns count bytes from 1.
pub proof fn law_faulty_quotes_are_refused(
    lead: Seq<char>,
    text: Seq<char>,
    c: char,
    rest: Seq<char>,
    n: nat,
)
    requires
        forall|i: int| 0 <= i < lead.len() ==> is_white_space(#[trigger] lead[i]),
    ensures
        ({
            let open = lead + seq!['"'] + between_quotes(text);
            let place = decimal(n) + seq![':'] + decimal(byte_length(lead) + 1);
            &&& tokens(open, n) == Err::<Seq<Seq<char>>, _>(place + ": unterminated quoted token"@)
            &&& tokens(open.push('\\'), n) == Err::<Seq<Seq<char>>, _>(
                place + ": incomplete escape"@,
            )
            &&& c != '"' && c != '\\' && c != 'n' ==> tokens(open.push('\\').push(c) + rest, n)
                == Err::<Seq<Seq<char>>, _>(place + ": unsupported escape \\"@ + seq![c])
            &&& !is_white_space(c) && c != '#' ==> tokens(open.push('"').push(c) + rest, n)
                == Err::<Seq<Seq<char>>, _>(place + ": expected whitespace after quote"@)
        }),
{
    reveal_strlit(":");
    assert(":"@ =~= seq![':']);
    assert(!is_white_space('"'));
    let k = lead.len() as int;
    let open = lead + seq!['"'] + between_quotes(text);
    let e = between_quotes(text);
    let m = open.len() as int;
    let place = decimal(n) + seq![':'] + decimal(byte_length(lead) + 1);
    let a = open.push('\\');
    let b = open.push('\\').push(c) + rest;
    let d = open.push('"').push(c) + rest;
    lemma_opened(open, lead, text, n);
    assert(open + Seq::<char>::empty() =~= open);
    assert(open.take(k) =~= lead);
    lemma_opened(a, lead, text, n);
    assert(a.take(k) =~= lead);
    lemma_opened(b, lead, text, n);
    assert(b.take(k) =~= lead);
    assert(b[m] == '\\' && b[m + 1] == c);
    lemma_opened(d, lead, text, n);
    assert(d.take(k) =~= lead);
    assert(d[m] == '"' && d[m + 1] == c);
    assert(place + (": unsupported escape \\"@.push(c)) =~= place + ": unsupported escape \\"@
        + seq![c]);
}

proof fn lemma_opened(line: Seq<char>, lead: Seq<char>, text: Seq<char>, n: nat)
    requires
        forall|i: int| 0 <= i < lead.len() ==> is_white_space(#[trigger] lead[i]),
        (lead + seq!['"'] + between_quotes(text)).is_prefix_of(line),
    ensures
        ({
            let k = lead.len() as int;
            let m = k + 1 + between_quotes(text).len();
            &&& tokens(line, n) == tokens_from(line, n, k)
            &&& line[k] == '"'
            &&& quoted_from(line, k + 1) == match quoted_from(line, m) {
                Ok((more, end)) => Ok::<_, QuoteFault>((text + more, end)),
                Err(fault) => Err(fault),
            }
        }),
{
    let open = lead + seq!['"'] + between_quotes(text);
    let k = lead.len() as int;
    let e = between_quotes(text);
    assert forall|i: int| 0 <= i < open.len() implies line[i] == open[i] by {
        assert(line.subrange(0, open.len() as int)[i] == line[i]);
    }
    assert forall|i: int| 0 <= i < k implies is_white_space(#[trigger] line[i]) by {
        assert(line[i] == lead[i]);
    }
    lemma_lead(line, n, 0, k);
    assert(line[k] == open[k]);
    assert(line.subrange(k + 1, k + 1 + e.len()) =~= e) by {
        assert forall|i: int| 0 <= i < e.len() implies line[k + 1 + i] == e[i] by {
            assert(line[k + 1 + i] == open[k + 1 + i]);
        }
    }
    lemma_quoted_body(line, k + 1, text);
}

/// A quote inside a bare token is refused, with its line and column.
pub proof fn law_quote_inside_a_token_is_refused(
    lead: Seq<char>,
    word: Seq<char>,
    rest: Seq<char>,
    n: nat,
)
    requires
        forall|i: int| 0 <= i < lead.len() ==> is_white_space(#[trigger] lead[i]),
        word.len() > 0,
        word[0] != '#',
        forall|i: int| 0 <= i < word.len() ==> !is_white_space(#[trigger] word[i]) && word[i] != '"',
    ensures
        tokens(lead + word.push('"') + rest, n) == Err::<Seq<Seq<char>>, _>(
            decimal(n) + seq![':'] + decimal(byte_length(lead + word) + 1)
                + ": quote must begin a token"@,
        ),
{
    reveal_strlit(":");
    assert(":"@ =~= seq![':']);
    let line = lead + word.push('"') + rest;
    let k = lead.len() as int;
    let m = k + word.len();
    assert forall|i: int| 0 <= i < k implies is_white_space(#[trigger] line[i]) by {
        assert(line[i] == lead[i]);
    }
    lemma_lead(line, n, 0, k);
    assert forall|i: int| k <= i < m implies !is_white_space(#[trigger] line[i]) && line[i]
        != '"' by {
        assert(line[i] == word[i - k]);
    }
    assert(line[k] == word[0] && line[m] == '"');
    lemma_bare_end_is(line, k, m);
    assert(line.take(m) =~= lead + word);
}

/// What is written between quotes has a backslash before each backslash and each
/// quote, and is otherwise the text.
pub proof fn law_written_quotes(text: Seq<char>)
    ensures
        quoted(text) == seq!['"'] + text.map_values(
            |c: char|
                if c == '"' || c == '\\' {
                    seq!['\\', c]
                } else {
                    seq![c]
                },
        ).flatten() + seq!['"'],
{
    lemma_escaped_is_flat(text);
    assert(seq!['"'] + escaped(text).push('"') =~= seq!['"'] + escaped(text) + seq!['"']);
}

proof fn lemma_escaped_is_flat(text: Seq<char>)
    ensures
        escaped(text) == text.map_values(
            |c: char|
                if c == '"' || c == '\\' {
                    seq!['\\', c]
                } else {
                    seq![c]
                },
        ).flatten(),
    decreases text.len(),
{
    let f = |c: char|
        if c == '"' || c == '\\' {
            seq!['\\', c]
        } else {
            seq![c]
        };
    let all = text.map_values(f);
    if text.len() > 0 {
        let less = text.drop_last();
        lemma_escaped_is_flat(less);
        assert(all =~= less.map_values(f).push(f(text.last())));
        less.map_values(f).lemma_flatten_push(f(text.last()));
        assert(escaped(text) =~= escaped(less) + f(text.last()));
    } else {
        assert(all =~= Seq::<Seq<char>>::empty());
    }
}

} // verus!
