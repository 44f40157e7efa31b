//! The tokens of one line.
//!
//! A line is a row of tokens with white space between them. A bare token runs to
//! the next white space; a quoted token stands between double quotes, in which
//! `\"`, `\\` and `\n` are escapes. A `#` where a token could begin starts a
//! comment. All of Kairo's text formats share these rules.
use vstd::prelude::*;
use vstd::slice::slice_subrange;

use crate::text::{
    byte_length, chars_of, decimal, decimal_text, encoded_length, is_white_space,
    lemma_byte_length_part, lemma_byte_length_push, lemma_texts_push, string_of, texts, trim_start,
    white_space, width_of,
};

verus! {

/// What can be wrong between the quotes of a token.
#[derive(Clone, Copy, Debug)]
pub enum QuoteFault {
    /// The line ends before the closing quote.
    Unterminated,
    /// The line ends behind a backslash.
    IncompleteEscape,
    /// A backslash stands before a character that has no escape.
    UnsupportedEscape(char),
}

/// The character that an escape stands for.
pub open spec fn unescaped(c: char) -> Option<char> {
    if c == '"' {
        Some('"')
    } else if c == '\\' {
        Some('\\')
    } else if c == 'n' {
        Some('\n')
    } else {
        None
    }
}

/// The text between the quotes, read from `at`, and where the line goes on
/// behind the closing quote.
pub open spec fn quoted_from(line: Seq<char>, at: int) -> Result<(Seq<char>, int), QuoteFault>
    decreases line.len() - at,
{
    if at >= line.len() {
        Err(QuoteFault::Unterminated)
    } else if line[at] == '"' {
        Ok((seq![], at + 1))
    } else if line[at] != '\\' {
        with_char(line[at], quoted_from(line, at + 1))
    } else if at + 1 >= line.len() {
        Err(QuoteFault::IncompleteEscape)
    } else {
        match unescaped(line[at + 1]) {
            Some(c) => with_char(c, quoted_from(line, at + 2)),
            None => Err(QuoteFault::UnsupportedEscape(line[at + 1])),
        }
    }
}

/// A quoted text with one more character before it.
pub open spec fn with_char(
    c: char,
    rest: Result<(Seq<char>, int), QuoteFault>,
) -> Result<(Seq<char>, int), QuoteFault> {
    match rest {
        Ok((text, end)) => Ok((seq![c] + text, end)),
        Err(fault) => Err(fault),
    }
}

/// Where a bare token that begins at or before `at` ends: at the next white space
/// or quote.
pub open spec fn bare_end(line: Seq<char>, at: int) -> int
    decreases line.len() - at,
{
    if at >= line.len() || is_white_space(line[at]) || line[at] == '"' {
        at
    } else {
        bare_end(line, at + 1)
    }
}

/// `<line>:<column>`, where the column counts bytes from 1.
pub open spec fn position(line: Seq<char>, line_number: nat, at: int) -> Seq<char> {
    decimal(line_number) + ":"@ + decimal(byte_length(line.take(at)) + 1)
}

pub open spec fn fault_message(fault: QuoteFault) -> Seq<char> {
    match fault {
        QuoteFault::Unterminated => ": unterminated quoted token"@,
        QuoteFault::IncompleteEscape => ": incomplete escape"@,
        QuoteFault::UnsupportedEscape(c) => ": unsupported escape \\"@.push(c),
    }
}

/// The tokens from `at` on, or the message that refuses the line.
pub open spec fn tokens_from(line: Seq<char>, line_number: nat, at: int) -> Result<
    Seq<Seq<char>>,
    Seq<char>,
>
    decreases line.len() - at,
    via tokens_from_decreases
{
    if at >= line.len() || line[at] == '#' {
        Ok(seq![])
    } else if is_white_space(line[at]) {
        tokens_from(line, line_number, at + 1)
    } else if line[at] == '"' {
        match quoted_from(line, at + 1) {
            Err(fault) => Err(position(line, line_number, at) + fault_message(fault)),
            Ok((text, end)) => if end < line.len() && !is_white_space(line[end]) && line[end]
                != '#' {
                Err(position(line, line_number, at) + ": expected whitespace after quote"@)
            } else {
                with_tokens(seq![text], tokens_from(line, line_number, end))
            },
        }
    } else {
        let end = bare_end(line, at);
        if end < line.len() && line[end] == '"' {
            Err(position(line, line_number, end) + ": quote must begin a token"@)
        } else {
            with_tokens(seq![line.subrange(at, end)], tokens_from(line, line_number, end))
        }
    }
}

#[via_fn]
proof fn tokens_from_decreases(line: Seq<char>, line_number: nat, at: int) {
    lemma_quoted_advances(line, at + 1);
    lemma_bare_end(line, at);
}

/// A result with more tokens before it.
pub open spec fn with_tokens(
    tokens: Seq<Seq<char>>,
    rest: Result<Seq<Seq<char>>, Seq<char>>,
) -> Result<Seq<Seq<char>>, Seq<char>> {
    match rest {
        Ok(more) => Ok(tokens + more),
        Err(e) => Err(e),
    }
}

/// The tokens of a line, or the message that refuses it.
pub open spec fn tokens(line: Seq<char>, line_number: nat) -> Result<Seq<Seq<char>>, Seq<char>> {
    tokens_from(line, line_number, 0)
}

pub proof fn lemma_quoted_advances(line: Seq<char>, at: int)
    ensures
        quoted_from(line, at) matches Ok((_, end)) ==> at < end <= line.len(),
    decreases line.len() - at,
{
    if at < line.len() && line[at] != '"' {
        if line[at] != '\\' {
            lemma_quoted_advances(line, at + 1);
        } else if at + 1 < line.len() {
            lemma_quoted_advances(line, at + 2);
        }
    }
}

pub proof fn lemma_bare_end(line: Seq<char>, at: int)
    ensures
        at <= bare_end(line, at),
        at <= line.len() ==> bare_end(line, at) <= line.len(),
        at < line.len() && !is_white_space(line[at]) && line[at] != '"' ==> at < bare_end(line, at),
        forall|i: int|
            at <= i < bare_end(line, at) ==> !is_white_space(#[trigger] line[i]) && line[i] != '"',
    decreases line.len() - at,
{
    if at < line.len() && !is_white_space(line[at]) && line[at] != '"' {
        lemma_bare_end(line, at + 1);
    }
}

fn scan_quoted(v: &[char], from: usize) -> (r: Result<(String, usize), QuoteFault>)
    requires
        from <= v.len(),
    ensures
        match r {
            Ok((text, end)) => quoted_from(v@, from as int) == Ok::<_, QuoteFault>(
                (text@, end as int),
            ) && from < end <= v.len(),
            Err(fault) => quoted_from(v@, from as int) == Err::<(Seq<char>, int), _>(fault),
        },
{
    let mut text = String::new();
    let mut at: usize = from;
    proof {
        lemma_quoted_advances(v@, from as int);
        if let Ok((t, end)) = quoted_from(v@, from as int) {
            assert(text@ + t =~= t);
        }
    }
    loop
        invariant
            from <= at <= v.len(),
            quoted_from(v@, from as int) == (match quoted_from(v@, at as int) {
                Ok((t, end)) => Ok::<_, QuoteFault>((text@ + t, end)),
                Err(fault) => Err(fault),
            }),
        decreases v.len() - at,
    {
        if at == v.len() {
            return Err(QuoteFault::Unterminated);
        }
        let c = v[at];
        let ghost before = text@;
        if c == '"' {
            assert(text@ + Seq::<char>::empty() =~= text@);
            return Ok((text, at + 1));
        } else if c != '\\' {
            text.push(c);
            proof {
                if let Ok((t, end)) = quoted_from(v@, at + 1) {
                    assert(before + (seq![c] + t) =~= before.push(c) + t);
                }
            }
            at += 1;
        } else {
            if v.len() - at < 2 {
                return Err(QuoteFault::IncompleteEscape);
            }
            let e = v[at + 1];
            let meant = if e == '"' {
                '"'
            } else if e == '\\' {
                '\\'
            } else if e == 'n' {
                '\n'
            } else {
                return Err(QuoteFault::UnsupportedEscape(e));
            };
            text.push(meant);
            proof {
                if let Ok((t, end)) = quoted_from(v@, at + 2) {
                    assert(before + (seq![meant] + t) =~= before.push(meant) + t);
                }
            }
            at += 2;
        }
    }
}

/// The byte length of the first `to` characters, from that of the first `from`.
fn advance(v: &[char], from: usize, to: usize, offset: usize) -> (r: usize)
    requires
        from <= to <= v.len(),
        offset == byte_length(v@.take(from as int)),
        byte_length(v@) <= usize::MAX,
    ensures
        r == byte_length(v@.take(to as int)),
{
    let mut r: usize = offset;
    let mut i: usize = from;
    while i < to
        invariant
            from <= i <= to <= v.len(),
            r == byte_length(v@.take(i as int)),
            byte_length(v@) <= usize::MAX,
        decreases to - i,
    {
        proof {
            assert(v@.take(i + 1) =~= v@.take(i as int).push(v@[i as int]));
            lemma_byte_length_push(v@.take(i as int), v@[i as int]);
            assert(v@.take(i + 1) =~= v@.subrange(0, i + 1));
            lemma_byte_length_part(v@, 0, i + 1);
        }
        r += width_of(v[i]);
        i += 1;
    }
    r
}

/// The text of [`position`], for a place where the line still goes on.
fn position_text(v: &[char], line_number: usize, at: usize, offset: usize) -> (r: String)
    requires
        at < v.len(),
        offset == byte_length(v@.take(at as int)),
        byte_length(v@) <= usize::MAX,
    ensures
        r@ == position(v@, line_number as nat, at as int),
{
    proof {
        assert(v@.take(at + 1) =~= v@.take(at as int).push(v@[at as int]));
        lemma_byte_length_push(v@.take(at as int), v@[at as int]);
        assert(v@.take(at + 1) =~= v@.subrange(0, at + 1));
        lemma_byte_length_part(v@, 0, at + 1);
    }
    let mut r = decimal_text(line_number as u64);
    r.append(":");
    let column = decimal_text((offset + 1) as u64);
    r.append(column.as_str());
    r
}

fn fault_text(fault: QuoteFault) -> (r: String)
    ensures
        r@ == fault_message(fault),
{
    match fault {
        QuoteFault::Unterminated => ": unterminated quoted token".to_owned(),
        QuoteFault::IncompleteEscape => ": incomplete escape".to_owned(),
        QuoteFault::UnsupportedEscape(c) => {
            let mut r = ": unsupported escape \\".to_owned();
            r.push(c);
            r
        },
    }
}

/// Reads the tokens of a line, or says where and why it has none. The column of
/// a message counts the bytes before the place, from 1.
pub fn tokenize(line: &str, line_number: usize) -> (r: Result<Vec<String>, String>)
    ensures
        match r {
            Ok(v) => tokens(line@, line_number as nat) == Ok::<_, Seq<char>>(texts(v@)),
            Err(e) => tokens(line@, line_number as nat) == Err::<Seq<Seq<char>>, _>(e@),
        },
{
    let length = encoded_length(line);
    let v = chars_of(line);
    let mut out: Vec<String> = Vec::new();
    let mut at: usize = 0;
    let mut offset: usize = 0;
    let ghost n = line_number as nat;
    proof {
        assert(line@.take(0) =~= Seq::<char>::empty());
        if let Ok(more) = tokens(line@, n) {
            assert(texts(out@) + more =~= more);
        }
    }
    while at < v.len() && v[at] != '#'
        invariant
            at <= v.len(),
            v@ == line@,
            n == line_number as nat,
            length == byte_length(line@),
            offset == byte_length(line@.take(at as int)),
            tokens(line@, n) == with_tokens(texts(out@), tokens_from(line@, n, at as int)),
        decreases v.len() - at,
    {
        let ghost before = out@;
        if white_space(v[at]) {
            offset = advance(v.as_slice(), at, at + 1, offset);
            at += 1;
        } else if v[at] == '"' {
            match scan_quoted(v.as_slice(), at + 1) {
                Err(fault) => {
                    let mut e = position_text(v.as_slice(), line_number, at, offset);
                    let m = fault_text(fault);
                    e.append(m.as_str());
                    return Err(e);
                },
                Ok((text, end)) => {
                    if end < v.len() && !white_space(v[end]) && v[end] != '#' {
                        let mut e = position_text(v.as_slice(), line_number, at, offset);
                        e.append(": expected whitespace after quote");
                        return Err(e);
                    }
                    out.push(text);
                    proof {
                        lemma_texts_push(before, text);
                        if let Ok(more) = tokens_from(line@, n, end as int) {
                            assert(texts(before) + (seq![text@] + more) =~= texts(out@) + more);
                        }
                    }
                    offset = advance(v.as_slice(), at, end, offset);
                    at = end;
                },
            }
        } else {
            let mut end: usize = at;
            while end < v.len() && !white_space(v[end]) && v[end] != '"'
                invariant
                    at <= end <= v.len(),
                    v@ == line@,
                    bare_end(line@, at as int) == bare_end(line@, end as int),
                decreases v.len() - end,
            {
                end += 1;
            }
            if end < v.len() && v[end] == '"' {
                offset = advance(v.as_slice(), at, end, offset);
                let mut e = position_text(v.as_slice(), line_number, end, offset);
                e.append(": quote must begin a token");
                return Err(e);
            }
            let text = string_of(slice_subrange(v.as_slice(), at, end));
            out.push(text);
            proof {
                lemma_bare_end(line@, at as int);
                lemma_texts_push(before, text);
                if let Ok(more) = tokens_from(line@, n, end as int) {
                    assert(texts(before) + (seq![text@] + more) =~= texts(out@) + more);
                }
            }
            offset = advance(v.as_slice(), at, end, offset);
            at = end;
        }
    }
    assert(texts(out@) + Seq::<Seq<char>>::empty() =~= texts(out@));
    Ok(out)
}

// ---------------------------------------------------------------------------
// Writing tokens
// ---------------------------------------------------------------------------
/// A text with a backslash before each of its backslashes and quotes.
pub open spec fn escaped(s: Seq<char>) -> Seq<char>
    decreases s.len(),
{
    if s.len() == 0 {
        seq![]
    } else if s.last() == '\\' || s.last() == '"' {
        escaped(s.drop_last()).push('\\').push(s.last())
    } else {
        escaped(s.drop_last()).push(s.last())
    }
}

/// A text as a quoted token.
pub open spec fn quoted(s: Seq<char>) -> Seq<char> {
    seq!['"'] + escaped(s).push('"')
}

/// Writes a text as a quoted token.
pub fn quote(value: &str) -> (r: String)
    ensures
        r@ == quoted(value@),
{
    let v = chars_of(value);
    let mut r = String::new();
    r.push('"');
    let mut i: usize = 0;
    assert(value@.take(0) =~= Seq::<char>::empty());
    assert(r@ =~= seq!['"'] + escaped(value@.take(0)));
    while i < v.len()
        invariant
            i <= v.len(),
            v@ == value@,
            r@ == seq!['"'] + escaped(value@.take(i as int)),
        decreases v.len() - i,
    {
        assert(value@.take(i + 1).drop_last() =~= value@.take(i as int));
        if v[i] == '\\' || v[i] == '"' {
            r.push('\\');
        }
        r.push(v[i]);
        assert(r@ =~= seq!['"'] + escaped(value@.take(i + 1)));
        i += 1;
    }
    assert(value@.take(value@.len() as int) =~= value@);
    r.push('"');
    assert(r@ =~= quoted(value@));
    r
}

/// A token and how it is written.
pub enum Word {
    /// As it stands.
    Bare(Seq<char>),
    /// Between quotes.
    Quoted(Seq<char>),
}

/// The token itself.
pub open spec fn word_text(w: Word) -> Seq<char> {
    match w {
        Word::Bare(text) => text,
        Word::Quoted(text) => text,
    }
}

/// The token as it is written.
pub open spec fn written(w: Word) -> Seq<char> {
    match w {
        Word::Bare(text) => text,
        Word::Quoted(text) => quoted(text),
    }
}

/// A text that can be a token without quotes.
pub open spec fn can_be_bare(text: Seq<char>) -> bool {
    &&& text.len() > 0
    &&& text[0] != '#'
    &&& forall|i: int| 0 <= i < text.len() ==> !is_white_space(#[trigger] text[i]) && text[i] != '"'
}

/// Every token that is written bare can be.
pub open spec fn can_be_written(words: Seq<Word>) -> bool {
    forall|i: int|
        0 <= i < words.len() ==> (#[trigger] words[i] matches Word::Bare(text) ==> can_be_bare(
            text,
        ))
}

/// A row of tokens with one blank between each two.
pub open spec fn row(words: Seq<Word>) -> Seq<char>
    decreases words.len(),
{
    if words.len() == 0 {
        seq![]
    } else if words.len() == 1 {
        written(words[0])
    } else {
        written(words[0]).push(' ') + row(words.drop_first())
    }
}

proof fn lemma_escaped_first(s: Seq<char>)
    requires
        s.len() > 0,
    ensures
        escaped(s) == (if s[0] == '\\' || s[0] == '"' {
            seq!['\\', s[0]]
        } else {
            seq![s[0]]
        }) + escaped(s.drop_first()),
    decreases s.len(),
{
    if s.len() == 1 {
        assert(s.drop_last() =~= Seq::<char>::empty());
        assert(s.drop_first() =~= Seq::<char>::empty());
        assert(escaped(s) =~= (if s[0] == '\\' || s[0] == '"' {
            seq!['\\', s[0]]
        } else {
            seq![s[0]]
        }) + escaped(s.drop_first()));
    } else {
        lemma_escaped_first(s.drop_last());
        assert(s.drop_last().drop_first() =~= s.drop_first().drop_last());
        assert(escaped(s) =~= (if s[0] == '\\' || s[0] == '"' {
            seq!['\\', s[0]]
        } else {
            seq![s[0]]
        }) + escaped(s.drop_first()));
    }
}

/// What is written between quotes is read back.
proof fn lemma_quoted_read_back(line: Seq<char>, at: int, text: Seq<char>)
    requires
        0 <= at,
        at + escaped(text).len() < line.len(),
        line.subrange(at, at + escaped(text).len()) == escaped(text),
        line[at + escaped(text).len()] == '"',
    ensures
        quoted_from(line, at) == Ok::<_, QuoteFault>((text, at + escaped(text).len() + 1)),
    decreases text.len(),
{
    let e = escaped(text);
    if text.len() == 0 {
        assert(text =~= Seq::<char>::empty());
    } else {
        lemma_escaped_first(text);
        let rest = text.drop_first();
        let r = escaped(rest);
        let k = e.len() - r.len();
        assert forall|i: int| 0 <= i < e.len() implies line[at + i] == e[i] by {
            assert(line.subrange(at, at + e.len())[i] == line[at + i]);
        }
        assert(line.subrange(at + k, at + k + r.len()) =~= r) by {
            assert forall|i: int| 0 <= i < r.len() implies line[at + k + i] == r[i] by {
                assert(e[k + i] == r[i]);
            }
        }
        lemma_quoted_read_back(line, at + k, rest);
        assert(line[at] == e[0]);
        if k == 2 {
            assert(line[at + 1] == e[1]);
        }
        assert(seq![text[0]] + rest =~= text);
    }
}

/// A row of tokens that ends a line is read back as those tokens.
proof fn lemma_row_read_back(line: Seq<char>, line_number: nat, at: int, words: Seq<Word>)
    requires
        0 <= at <= line.len(),
        line.skip(at) == row(words),
        can_be_written(words),
    ensures
        tokens_from(line, line_number, at) == Ok::<_, Seq<char>>(
            words.map_values(|w: Word| word_text(w)),
        ),
    decreases words.len(),
{
    let out = words.map_values(|w: Word| word_text(w));
    if words.len() == 0 {
        assert(line.skip(at).len() == 0);
        assert(out =~= Seq::<Seq<char>>::empty());
    } else {
        let w = words[0];
        let piece = written(w);
        let rest = words.drop_first();
        let rest_out = rest.map_values(|w: Word| word_text(w));
        assert(out =~= seq![word_text(w)] + rest_out);
        let tail = row(words);
        let end = at + piece.len();
        assert(tail == if words.len() == 1 {
            piece
        } else {
            piece.push(' ') + row(rest)
        });
        assert forall|i: int| 0 <= i < piece.len() implies line[at + i] == piece[i] by {
            assert(tail[i] == piece[i]);
            assert(line.skip(at)[i] == tail[i]);
        }
        if words.len() > 1 {
            assert(line.skip(at)[piece.len() as int] == tail[piece.len() as int]);
            assert(line[end] == ' ');
            assert(line.skip(end + 1) =~= row(rest)) by {
                assert forall|i: int| 0 <= i < row(rest).len() implies line[end + 1 + i]
                    == row(rest)[i] by {
                    assert(line.skip(at)[piece.len() + 1 + i] == tail[piece.len() + 1 + i]);
                }
                assert(line.skip(at).len() == tail.len());
            }
            assert forall|i: int| 0 <= i < rest.len() implies (
            #[trigger] rest[i] matches Word::Bare(text) ==> can_be_bare(text)) by {
                assert(rest[i] == words[i + 1]);
            }
            lemma_row_read_back(line, line_number, end + 1, rest);
            assert(tokens_from(line, line_number, end) == tokens_from(line, line_number, end + 1));
        } else {
            assert(line.skip(at).len() == piece.len());
            assert(rest =~= Seq::<Word>::empty());
            assert(rest_out =~= Seq::<Seq<char>>::empty());
            assert(tokens_from(line, line_number, end) == Ok::<_, Seq<char>>(
                Seq::<Seq<char>>::empty(),
            ));
        }
        match w {
            Word::Quoted(text) => {
                let e = escaped(text);
                assert(line[at] == piece[0]);
                assert(line.subrange(at + 1, at + 1 + e.len()) =~= e) by {
                    assert forall|i: int| 0 <= i < e.len() implies line[at + 1 + i] == e[i] by {
                        assert(piece[1 + i] == e[i]);
                    }
                }
                assert(line[at + 1 + e.len()] == piece[1 + e.len() as int]);
                lemma_quoted_read_back(line, at + 1, text);
            },
            Word::Bare(text) => {
                assert(can_be_bare(words[0]->Bare_0));
                assert(line[at] == text[0]);
                assert forall|i: int| at <= i < end implies !is_white_space(#[trigger] line[i])
                    && line[i] != '"' by {
                    assert(line[i] == text[i - at]);
                }
                lemma_bare_end_is(line, at, end);
                assert(line.subrange(at, end) =~= text);
            },
        }
        assert(!is_white_space('"'));
    }
}

pub proof fn lemma_bare_end_is(line: Seq<char>, at: int, end: int)
    requires
        0 <= at <= end <= line.len(),
        forall|i: int| at <= i < end ==> !is_white_space(#[trigger] line[i]) && line[i] != '"',
        end == line.len() || is_white_space(line[end]) || line[end] == '"',
    ensures
        bare_end(line, at) == end,
    decreases end - at,
{
    if at < end {
        lemma_bare_end_is(line, at + 1, end);
    }
}

/// Reading is the inverse of writing: the tokens of a row of written words are
/// those words.
pub proof fn law_written_row_is_read_back(words: Seq<Word>, line_number: nat)
    requires
        can_be_written(words),
    ensures
        tokens(row(words), line_number) == Ok::<_, Seq<char>>(
            words.map_values(|w: Word| word_text(w)),
        ),
{
    assert(row(words).skip(0) =~= row(words));
    lemma_row_read_back(row(words), line_number, 0, words);
}

// ---------------------------------------------------------------------------
// What does not matter
// ---------------------------------------------------------------------------
/// A line that has tokens has the same tokens wherever it stands.
pub proof fn lemma_tokens_anywhere(line: Seq<char>, n: nat, m: nat, at: int)
    requires
        0 <= at,
    ensures
        tokens_from(line, n, at) is Ok <==> tokens_from(line, m, at) is Ok,
        tokens_from(line, n, at) is Ok ==> tokens_from(line, m, at) == tokens_from(line, n, at),
    decreases line.len() - at,
{
    if at < line.len() && line[at] != '#' {
        if is_white_space(line[at]) {
            lemma_tokens_anywhere(line, n, m, at + 1);
        } else if line[at] == '"' {
            lemma_quoted_advances(line, at + 1);
            if let Ok((_, end)) = quoted_from(line, at + 1) {
                lemma_tokens_anywhere(line, n, m, end);
            }
        } else {
            lemma_bare_end(line, at);
            lemma_tokens_anywhere(line, n, m, bare_end(line, at));
        }
    }
}

proof fn lemma_quoted_before_return(line: Seq<char>, at: int)
    requires
        0 <= at <= line.len(),
    ensures
        quoted_from(line, at) is Ok <==> quoted_from(line.push('\r'), at) is Ok,
        quoted_from(line, at) is Ok ==> quoted_from(line.push('\r'), at) == quoted_from(line, at),
    decreases line.len() - at,
{
    reveal_with_fuel(quoted_from, 2);
    let longer = line.push('\r');
    if at < line.len() && line[at] != '"' {
        if line[at] != '\\' {
            lemma_quoted_before_return(line, at + 1);
        } else if at + 1 < line.len() {
            lemma_quoted_before_return(line, at + 2);
        }
    }
}

proof fn lemma_bare_before_return(line: Seq<char>, at: int)
    requires
        0 <= at <= line.len(),
    ensures
        bare_end(line.push('\r'), at) == bare_end(line, at),
    decreases line.len() - at,
{
    if at < line.len() && !is_white_space(line[at]) && line[at] != '"' {
        lemma_bare_before_return(line, at + 1);
    }
}

/// A carriage return behind a line does not change its tokens.
pub proof fn lemma_tokens_before_return(line: Seq<char>, n: nat, at: int)
    requires
        0 <= at <= line.len(),
    ensures
        tokens_from(line, n, at) is Ok <==> tokens_from(line.push('\r'), n, at) is Ok,
        tokens_from(line, n, at) is Ok ==> tokens_from(line.push('\r'), n, at) == tokens_from(
            line,
            n,
            at,
        ),
    decreases line.len() - at,
{
    let longer = line.push('\r');
    if at == line.len() {
        assert(longer[at] == '\r');
        assert(tokens_from(longer, n, at + 1) == Ok::<_, Seq<char>>(Seq::<Seq<char>>::empty()));
    } else if line[at] != '#' {
        assert(longer[at] == line[at]);
        if is_white_space(line[at]) {
            lemma_tokens_before_return(line, n, at + 1);
        } else if line[at] == '"' {
            lemma_quoted_advances(line, at + 1);
            lemma_quoted_before_return(line, at + 1);
            if let Ok((_, end)) = quoted_from(line, at + 1) {
                lemma_tokens_before_return(line, n, end);
            }
        } else {
            let end = bare_end(line, at);
            lemma_bare_end(line, at);
            lemma_bare_before_return(line, at);
            lemma_tokens_before_return(line, n, end);
            assert(longer.subrange(at, end) =~= line.subrange(at, end));
        }
    }
}

/// A line without anything but white space and a comment.
pub open spec fn says_nothing(line: Seq<char>) -> bool {
    trim_start(line).len() == 0 || trim_start(line)[0] == '#'
}

/// A line has no tokens if and only if it says nothing.
pub proof fn lemma_no_tokens(line: Seq<char>, n: nat, at: int)
    requires
        0 <= at <= line.len(),
    ensures
        says_nothing(line.skip(at)) <==> tokens_from(line, n, at) == Ok::<_, Seq<char>>(
            Seq::<Seq<char>>::empty(),
        ),
    decreases line.len() - at,
{
    if at < line.len() && is_white_space(line[at]) {
        lemma_no_tokens(line, n, at + 1);
        assert(line.skip(at).drop_first() =~= line.skip(at + 1));
    } else if at < line.len() {
        assert(line.skip(at)[0] == line[at]);
        assert(trim_start(line.skip(at)) == line.skip(at));
    }
}

} // verus!
