//! Texts: white space, lines, separators and numbers.
use vstd::prelude::*;

use crate::text::{
    all_digits, ascii_lower, ascii_lowercase, byte_length, decimal, digit, digits_value,
    first_index, is_ascii_word, is_blank, is_control_char, is_digit, is_single_line, is_white_space,
    joined, lemma_byte_length_push, lemma_first_index, lemma_first_index_is, lemma_trim_end_prefix,
    lemma_trim_start_suffix, lines, occurs, occurs_at, parsed_unsigned, split, trim_end, trim_start,
    trimmed,
};

verus! {

/// White space is what Unicode calls so, by the numbers of its characters.
pub proof fn law_white_space_is_that_of_unicode(c: char)
    ensures
        is_white_space(c) <==> set![
            9u32, 10, 11, 12, 13, 32, 133, 160, 5760, 8192, 8193, 8194, 8195, 8196, 8197, 8198,
            8199, 8200, 8201, 8202, 8232, 8233, 8239, 8287, 12288,
        ].contains(c as u32),
{
}

/// Control characters and ASCII letters and digits are those of their ranges.
pub proof fn law_character_classes(c: char)
    ensures
        is_control_char(c) <==> (c as u32) < 32 || 127 <= (c as u32) < 160,
        is_ascii_word(c) <==> ('0' <= c && c <= '9') || ('A' <= c && c <= 'Z') || ('a' <= c && c
            <= 'z'),
        is_digit(c) <==> '0' <= c && c <= '9',
{
}

/// Lower case differs only where a capital of ASCII stands, which is then the
/// small letter 32 places on; a text in lower case stays as it is.
pub proof fn law_lower_case(s: Seq<char>)
    ensures
        ascii_lowercase(s).len() == s.len(),
        forall|i: int|
            0 <= i < s.len() ==> (#[trigger] ascii_lowercase(s)[i]) as u32 == if 'A' <= s[i]
                && s[i] <= 'Z' {
                (s[i] as u32 + 32) as u32
            } else {
                s[i] as u32
            },
{
    assert forall|i: int| 0 <= i < s.len() implies (#[trigger] ascii_lowercase(s)[i]) as u32
        == if 'A' <= s[i] && s[i] <= 'Z' {
        (s[i] as u32 + 32) as u32
    } else {
        s[i] as u32
    } by {
        lemma_lower(s[i]);
    }
}

proof fn lemma_lower(c: char)
    ensures
        ascii_lower(c) as u32 == if 'A' <= c && c <= 'Z' {
            (c as u32 + 32) as u32
        } else {
            c as u32
        },
{
}

/// A text is single-line if none of its characters is a line feed or a carriage
/// return.
pub proof fn law_single_line(s: Seq<char>)
    ensures
        is_single_line(s) <==> forall|i: int|
            0 <= i < s.len() ==> (#[trigger] s[i]) as u32 != 10 && s[i] as u32 != 13,
{
    if !is_single_line(s) {
        if s.contains('\n') {
            let i = choose|i: int| 0 <= i < s.len() && s[i] == '\n';
            assert(s[i] as u32 == 10);
        } else {
            let i = choose|i: int| 0 <= i < s.len() && s[i] == '\r';
            assert(s[i] as u32 == 13);
        }
    } else {
        assert forall|i: int| 0 <= i < s.len() implies (#[trigger] s[i]) as u32 != 10 && s[i] as u32
            != 13 by {
            assert(s.contains(s[i]));
            vstd::utf8::char_u32_cast(s[i], s[i] as u32);
        }
    }
}

proof fn lemma_trimmed_off_start(s: Seq<char>)
    ensures
        forall|i: int| 0 <= i < s.len() - trim_start(s).len() ==> is_white_space(#[trigger] s[i]),
    decreases s.len(),
{
    if s.len() > 0 && is_white_space(s[0]) {
        let t = s.drop_first();
        lemma_trimmed_off_start(t);
        assert forall|i: int| 0 <= i < s.len() - trim_start(s).len() implies is_white_space(
            #[trigger] s[i],
        ) by {
            if i > 0 {
                assert(s[i] == t[i - 1]);
            }
        }
    }
}

proof fn lemma_trimmed_off_end(s: Seq<char>)
    ensures
        forall|i: int| trim_end(s).len() <= i < s.len() ==> is_white_space(#[trigger] s[i]),
    decreases s.len(),
{
    if s.len() > 0 && is_white_space(s.last()) {
        let t = s.drop_last();
        lemma_trimmed_off_end(t);
        assert forall|i: int| trim_end(s).len() <= i < s.len() implies is_white_space(
            #[trigger] s[i],
        ) by {
            if i < t.len() {
                assert(s[i] == t[i]);
            }
        }
    }
}

/// A trimmed text is the part of the text between the white space at its ends:
/// all that is taken off is white space, and what is left neither begins nor ends
/// with any. A blank text is nothing but white space.
pub proof fn law_trimmed_text_is_what_stands_between(s: Seq<char>)
    ensures
        exists|from: int, to: int|
            {
                &&& 0 <= from <= to <= s.len()
                &&& trimmed(s) == #[trigger] s.subrange(from, to)
                &&& forall|i: int|
                    0 <= i < s.len() && !(from <= i < to) ==> is_white_space(#[trigger] s[i])
                &&& from < to ==> !is_white_space(s[from]) && !is_white_space(s[to - 1])
            },
        is_blank(s) <==> forall|i: int| 0 <= i < s.len() ==> is_white_space(#[trigger] s[i]),
{
    let a = trim_start(s);
    let b = trim_end(a);
    lemma_trim_start_suffix(s);
    lemma_trim_end_prefix(a);
    lemma_trimmed_off_start(s);
    lemma_trimmed_off_end(a);
    let from = s.len() - a.len();
    let to = from + b.len();
    assert(s.subrange(from, to) =~= b);
    assert forall|i: int| 0 <= i < s.len() && !(from <= i < to) implies is_white_space(
        #[trigger] s[i],
    ) by {
        if i >= to {
            assert(a[i - from] == s[i]);
        }
    }
    if from < to {
        assert(b[0] == s[from] && b.last() == s[to - 1]);
        assert(a[0] == s[from]);
    }
}

/// Joined lists: the parts stand in their order, with the glue between each two.
pub proof fn law_joined_lists(a: Seq<Seq<char>>, b: Seq<Seq<char>>, glue: Seq<char>)
    requires
        a.len() > 0,
        b.len() > 0,
    ensures
        joined(a + b, glue) == joined(a, glue) + glue + joined(b, glue),
    decreases b.len(),
{
    let all = a + b;
    if b.len() == 1 {
        assert(all.drop_last() =~= a);
        assert(all.last() == b[0]);
    } else {
        law_joined_lists(a, b.drop_last(), glue);
        assert(all.drop_last() =~= a + b.drop_last());
        assert(joined(a, glue) + glue + joined(b.drop_last(), glue) + glue + b.last()
            =~= joined(a, glue) + glue + (joined(b.drop_last(), glue) + glue + b.last()));
    }
}

/// A list of one text is joined to that text, and an empty list to nothing.
pub proof fn law_joined_ends(part: Seq<char>, glue: Seq<char>)
    ensures
        joined(seq![part], glue) == part,
        joined(Seq::<Seq<char>>::empty(), glue).len() == 0,
{
}

/// Splitting is undone by joining, and no part holds the separator.
pub proof fn law_split_parts_make_the_text(s: Seq<char>, c: char)
    ensures
        split(s, c).len() > 0,
        joined(split(s, c), seq![c]) == s,
        forall|i: int| 0 <= i < split(s, c).len() ==> !(#[trigger] split(s, c)[i]).contains(c),
    decreases s.len(),
{
    let n = first_index(s, c);
    lemma_first_index(s, c);
    let parts = split(s, c);
    if n >= s.len() {
        assert(parts =~= seq![s]);
        assert(!s.contains(c));
    } else {
        let rest = s.skip(n + 1);
        law_split_parts_make_the_text(rest, c);
        assert(parts =~= seq![s.take(n)] + split(rest, c));
        law_joined_lists(seq![s.take(n)], split(rest, c), seq![c]);
        assert(s =~= s.take(n) + seq![c] + rest);
        assert forall|i: int| 0 <= i < parts.len() implies !(#[trigger] parts[i]).contains(c) by {
            if i == 0 {
                assert(parts[0] == s.take(n));
            } else {
                assert(parts[i] == split(rest, c)[i - 1]);
            }
        }
    }
}

/// A line is what stands before a line feed, less one carriage return that ends
/// it; what follows the last line feed is a line too, unless it is empty.
pub proof fn law_lines_end_at_line_feeds(line: Seq<char>, rest: Seq<char>)
    requires
        !line.contains('\n'),
    ensures
        lines(Seq::<char>::empty()).len() == 0,
        line.len() > 0 ==> lines(line) == seq![line],
        line.len() == 0 || line.last() != '\r' ==> lines(line.push('\n') + rest) == seq![line]
            + lines(rest),
        lines(line.push('\r').push('\n') + rest) == seq![line] + lines(rest),
{
    let s = line.push('\n') + rest;
    assert forall|i: int| 0 <= i < line.len() implies line[i] != '\n' by {
        assert(line.contains(line[i]));
    }
    lemma_first_index_is(line, '\n', line.len() as int);
    lemma_first_index_is(s, '\n', line.len() as int);
    assert(s.take(line.len() as int) =~= line);
    assert(s.skip(line.len() as int + 1) =~= rest);
    let t = line.push('\r').push('\n') + rest;
    lemma_first_index_is(t, '\n', line.len() as int + 1);
    assert(t.take(line.len() as int + 1) =~= line.push('\r'));
    assert(line.push('\r').drop_last() =~= line);
    assert(t.skip(line.len() as int + 2) =~= rest);
}

/// A text occurs in another if that is it with something before and behind it.
pub proof fn law_occurrence(s: Seq<char>, needle: Seq<char>)
    ensures
        occurs(s, needle) <==> exists|before: Seq<char>, behind: Seq<char>|
            s == #[trigger] (before + needle + behind),
{
    if occurs(s, needle) {
        let at = choose|at: int| occurs_at(s, needle, at);
        let before = s.take(at);
        let behind = s.skip(at + needle.len());
        assert(s =~= before + needle + behind) by {
            let whole = before + needle + behind;
            assert forall|i: int| 0 <= i < s.len() implies s[i] == whole[i] by {
                if at <= i < at + needle.len() {
                    assert(s.subrange(at, at + needle.len())[i - at] == s[i]);
                }
            }
        }
    }
    if exists|before: Seq<char>, behind: Seq<char>| s == #[trigger] (before + needle + behind) {
        let (before, behind) = choose|before: Seq<char>, behind: Seq<char>|
            s == #[trigger] (before + needle + behind);
        let at = before.len() as int;
        assert(s.subrange(at, at + needle.len()) =~= needle);
        assert(occurs_at(s, needle, at));
    }
}

proof fn lemma_decimal_digits(n: nat)
    ensures
        all_digits(decimal(n)),
        n > 0 ==> decimal(n)[0] != '0',
        digits_value(decimal(n)) == n,
    decreases n,
{
    let d = (n % 10) as u8;
    if n < 10 {
        let s = decimal(n);
        assert(s.drop_last() =~= Seq::<char>::empty());
        assert(digits_value(s.drop_last()) == 0);
        assert(digit(n) as u32 == 48 + n);
        assert('0' as u32 == 48);
    } else {
        lemma_decimal_digits(n / 10);
        let s = decimal(n);
        assert(s.drop_last() =~= decimal(n / 10));
        assert(s.last() as u32 == 48 + n % 10);
        assert forall|i: int| 0 <= i < s.len() implies is_digit(#[trigger] s[i]) by {
            if i < s.len() - 1 {
                assert(s[i] == decimal(n / 10)[i]);
            }
        }
        assert(s[0] == decimal(n / 10)[0]);
    }
}

/// A number is written with decimal digits alone and no needless zero before
/// them, and reading gives it back, with or without a plus sign or further zeros,
/// if and only if it is within the limit.
pub proof fn law_numbers_are_read_back(n: nat, max: nat)
    ensures
        forall|i: int|
            0 <= i < decimal(n).len() ==> '0' <= (#[trigger] decimal(n)[i]) && decimal(n)[i] <= '9',
        decimal(n).len() > 0,
        n > 0 ==> decimal(n)[0] != '0',
        parsed_unsigned(decimal(n), max) == (if n <= max {
            Some(n)
        } else {
            None
        }),
        parsed_unsigned(seq!['+'] + decimal(n), max) == parsed_unsigned(decimal(n), max),
        parsed_unsigned(seq!['0'] + decimal(n), max) == parsed_unsigned(decimal(n), max),
{
    lemma_decimal_digits(n);
    let s = decimal(n);
    assert(is_digit(s[0]));
    let plus = seq!['+'] + s;
    assert(plus.drop_first() =~= s);
    let zero = seq!['0'] + s;
    lemma_leading_zero(s);
    assert forall|i: int| 0 <= i < zero.len() implies is_digit(#[trigger] zero[i]) by {
        if i > 0 {
            assert(zero[i] == s[i - 1]);
        }
    }
    assert forall|i: int| 0 <= i < s.len() implies '0' <= (#[trigger] s[i]) && s[i] <= '9' by {
        assert(is_digit(s[i]));
        law_character_classes(s[i]);
    }
}

proof fn lemma_leading_zero(s: Seq<char>)
    ensures
        digits_value(seq!['0'] + s) == digits_value(s),
    decreases s.len(),
{
    let z = seq!['0'] + s;
    if s.len() == 0 {
        reveal_with_fuel(digits_value, 2);
        assert(z.drop_last() =~= Seq::<char>::empty());
    } else {
        lemma_leading_zero(s.drop_last());
        assert(z.drop_last() =~= seq!['0'] + s.drop_last());
    }
}

/// The digits of a number count by tens, and a text with anything but digits, or
/// without any, is no number.
pub proof fn law_numbers_count_by_tens(s: Seq<char>, c: char, max: nat)
    ensures
        '0' <= c && c <= '9' ==> digits_value(s.push(c)) == 10 * digits_value(s) + (c as u32
            - '0' as u32),
        digits_value(Seq::<char>::empty()) == 0,
        parsed_unsigned(s, max) matches Some(n) ==> {
            &&& n <= max
            &&& s.len() > 0
            &&& forall|i: int| 1 <= i < s.len() ==> '0' <= #[trigger] s[i] && s[i] <= '9'
            &&& s[0] == '+' && s.len() > 1 || '0' <= s[0] && s[0] <= '9'
            &&& n == digits_value(if s[0] == '+' {
                s.skip(1)
            } else {
                s
            })
        },
        s.len() > 0 && (forall|i: int|
            0 <= i < s.len() ==> '0' <= #[trigger] s[i] && s[i] <= '9') && digits_value(s) <= max
            ==> parsed_unsigned(s, max) == Some(digits_value(s)) && parsed_unsigned(
            seq!['+'] + s,
            max,
        ) == Some(digits_value(s)),
{
    assert((seq!['+'] + s).drop_first() =~= s);
    assert(s.push(c).drop_last() =~= s);
    if parsed_unsigned(s, max) is Some {
        let d = if s.len() > 0 && s[0] == '+' {
            s.drop_first()
        } else {
            s
        };
        assert(s.len() > 0 ==> s.skip(1) =~= s.drop_first());
        assert(is_digit(d[0]));
        law_character_classes(d[0]);
        assert forall|i: int| 1 <= i < s.len() implies '0' <= #[trigger] s[i] && s[i] <= '9' by {
            if s[0] == '+' {
                assert(is_digit(d[i - 1]));
            } else {
                assert(is_digit(d[i]));
            }
            law_character_classes(s[i]);
        }
    }
}

/// A text is as long as its characters are in UTF-8: one byte up to 0x7f, two up
/// to 0x7ff, three up to 0xffff, and four above.
pub proof fn law_byte_length(s: Seq<char>, c: char)
    ensures
        byte_length(Seq::<char>::empty()) == 0,
        byte_length(s.push(c)) == byte_length(s) + (if (c as u32) < 0x80 {
            1nat
        } else if (c as u32) < 0x800 {
            2nat
        } else if (c as u32) < 0x10000 {
            3nat
        } else {
            4nat
        }),
{
    lemma_byte_length_push(s, c);
}

} // verus!
