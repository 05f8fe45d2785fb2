//! What the operations on texts do: finding, cutting, splitting, trimming, numbers in digits, and
//! the order of texts.

use crate::roundtrip::{law_joined_parts_make_up_the_text, lemma_join_front};
use crate::text::{all_digits, ascii_lower, bytes_less, cut, decimal, digits, find, find_from,
    has_prefix, has_suffix, includes, is_digit, is_space, join, last_end, less, lower_char, natural,
    number_of, replaced, skip_spaces, split, split_from, stands_at, trim, trim_start, word_end,
    words, words_from, lemma_find_from, Str};
use vstd::prelude::*;
use vstd::utf8::encode_utf8;

verus! {

// ---------------------------------------------------------------------------
// Numbers in digits
// ---------------------------------------------------------------------------

/// The digits of a number denote the number, and there is no zero in front of them.
pub proof fn law_digits_denote_their_number(n: nat)
    ensures
        digits(n).len() > 0,
        all_digits(digits(n)),
        number_of(digits(n)) == n,
        n > 0 ==> digits(n)[0] != '0',
    decreases n,
{
    if n < 10 {
        assert(digits(n).drop_last() =~= Seq::<char>::empty());
        assert(number_of(digits(n).drop_last()) == 0);
    } else {
        law_digits_denote_their_number(n / 10);
        let front = digits(n / 10);
        assert(digits(n).drop_last() =~= front);
        assert(digits(n)[0] == front[0]);
    }
}

/// A number in decimal notation is read as the number again.
pub proof fn law_decimals_are_read_back(n: int)
    ensures
        n >= 0 ==> decimal(n) == digits(n as nat),
        n >= 0 ==> natural(decimal(n), n as nat) == Some(n as nat),
        n < 0 ==> decimal(n).len() > 1 && decimal(n)[0] == '-' && natural(
            decimal(n).skip(1),
            (-n) as nat,
        ) == Some((-n) as nat),
{
    if n >= 0 {
        law_digits_denote_their_number(n as nat);
    } else {
        law_digits_denote_their_number((-n) as nat);
        assert(decimal(n).skip(1) =~= digits((-n) as nat));
    }
}

/// Different numbers have different notations.
pub proof fn law_decimals_differ(m: int, n: int)
    ensures
        decimal(m) == decimal(n) ==> m == n,
{
    law_digits_denote_their_number(if m >= 0 { m as nat } else { (-m) as nat });
    law_digits_denote_their_number(if n >= 0 { n as nat } else { (-n) as nat });
    law_decimals_are_read_back(m);
    law_decimals_are_read_back(n);
    if decimal(m) == decimal(n) {
        assert(decimal(m).skip(1) == decimal(n).skip(1));
        if m >= 0 && n < 0 {
            assert(is_digit(decimal(m)[0]));
        }
        if m < 0 && n >= 0 {
            assert(is_digit(decimal(n)[0]));
        }
    }
}

// ---------------------------------------------------------------------------
// Finding
// ---------------------------------------------------------------------------

proof fn lemma_find_first(s: Str, part: Str, i: int, k: int)
    requires
        0 <= i,
    ensures
        find_from(s, part, i) == Some(k) <==> i <= k && stands_at(s, part, k) && (forall|j: int|
            i <= j < k ==> !#[trigger] stands_at(s, part, j)),
        find_from(s, part, i) is None <==> (forall|j: int|
            i <= j ==> !#[trigger] stands_at(s, part, j)),
    decreases s.len() - i + 1,
{
    if i + part.len() <= s.len() && !stands_at(s, part, i) {
        lemma_find_first(s, part, i + 1, k);
    }
}

/// What is found is the first place where a part stands, if it stands anywhere.
pub proof fn law_the_first_place_is_found(s: Str, part: Str, k: int)
    ensures
        find(s, part) == Some(k) <==> 0 <= k && k + part.len() <= s.len() && s.subrange(
            k,
            k + part.len(),
        ) == part && (forall|j: int|
            0 <= j < k ==> s.subrange(j, j + part.len()) != part || !#[trigger] stands_at(
                s,
                part,
                j,
            )),
{
    lemma_find_first(s, part, 0, k);
}

/// A text holds a part if and only if something before the part, the part and something behind it
/// make up the text.
pub proof fn law_parts_stand_between_the_rest(s: Str, part: Str)
    ensures
        includes(s, part) <==> exists|before: Str, behind: Str|
            s == #[trigger] (before + part + behind),
{
    lemma_find_from(s, part, 0);
    if includes(s, part) {
        let i = find(s, part)->0;
        assert(s.subrange(i, i + part.len()) == part);
        assert(s =~= s.take(i) + part + s.skip(i + part.len()));
    }
    if exists|before: Str, behind: Str| s == #[trigger] (before + part + behind) {
        let (before, behind) = choose|before: Str, behind: Str|
            s == #[trigger] (before + part + behind);
        assert(s.subrange(before.len() as int, (before.len() + part.len()) as int) =~= part);
        assert(stands_at(s, part, before.len() as int));
        lemma_find_first(s, part, 0, 0);
    }
}

/// A text begins with a part if something behind the part completes it, and ends with a part if
/// something before the part does.
pub proof fn law_beginnings_and_ends(s: Str, part: Str)
    ensures
        has_prefix(s, part) <==> exists|rest: Str| s == #[trigger] (part + rest),
        has_suffix(s, part) <==> exists|rest: Str| s == #[trigger] (rest + part),
{
    if has_prefix(s, part) {
        assert(s =~= part + s.skip(part.len() as int)) by {
            assert(s.subrange(0, part.len() as int) == part);
            assert(s =~= s.subrange(0, part.len() as int) + s.skip(part.len() as int));
        }
    }
    if exists|rest: Str| s == #[trigger] (part + rest) {
        let rest = choose|rest: Str| s == #[trigger] (part + rest);
        assert(s.subrange(0, part.len() as int) =~= part);
    }
    if has_suffix(s, part) {
        let n = s.len() - part.len();
        assert(s =~= s.take(n) + part) by {
            assert(s.subrange(n, n + part.len()) == part);
            assert(s =~= s.take(n) + s.subrange(n, n + part.len()));
        }
    }
    if exists|rest: Str| s == #[trigger] (rest + part) {
        let rest = choose|rest: Str| s == #[trigger] (rest + part);
        assert(s.subrange(rest.len() as int, (rest.len() + part.len()) as int) =~= part);
    }
}

/// A cut divides a text at the first place of a mark: what stands before it, the mark and what
/// stands behind it make up the text, and the mark does not stand in what is before it.
pub proof fn law_cuts_are_made_at_the_first_mark(s: Str, mark: Str)
    requires
        mark.len() > 0,
    ensures
        cut(s, mark) is Some <==> includes(s, mark),
        cut(s, mark) is Some ==> {
            &&& s == (cut(s, mark)->0).0 + mark + (cut(s, mark)->0).1
            &&& !includes((cut(s, mark)->0).0, mark)
        },
{
    if let Some(i) = find(s, mark) {
        lemma_find_first(s, mark, 0, i);
        assert(s.subrange(i, i + mark.len()) == mark);
        assert(s =~= s.take(i) + mark + s.skip(i + mark.len()));
        lemma_find_first(s.take(i), mark, 0, 0);
        assert forall|j: int| 0 <= j implies !#[trigger] stands_at(s.take(i), mark, j) by {
            if stands_at(s.take(i), mark, j) {
                assert(s.take(i).subrange(j, j + mark.len()) =~= s.subrange(j, j + mark.len()));
                assert(stands_at(s, mark, j));
            }
        }
    }
}

// ---------------------------------------------------------------------------
// Splitting and replacing
// ---------------------------------------------------------------------------

proof fn lemma_parts_without(s: Str, separator: Str, from: int, k: int)
    requires
        separator.len() > 0,
        0 <= from <= s.len(),
        0 <= k < split_from(s, separator, from).len(),
    ensures
        !includes(split_from(s, separator, from)[k], separator),
    decreases s.len() - from,
{
    let found = find_from(s, separator, from);
    lemma_find_from(s, separator, from);
    let end = match found {
        Some(i) => i,
        None => s.len() as int,
    };
    let part = s.subrange(from, end);
    lemma_find_first(s, separator, from, end);
    assert forall|j: int| 0 <= j implies !#[trigger] stands_at(part, separator, j) by {
        if stands_at(part, separator, j) {
            assert(part.subrange(j, j + separator.len()) =~= s.subrange(
                from + j,
                from + j + separator.len(),
            ));
            assert(stands_at(s, separator, from + j));
        }
    }
    lemma_find_first(part, separator, 0, 0);
    if k > 0 {
        lemma_parts_without(s, separator, end + separator.len(), k - 1);
    }
}

/// The parts of a text between the separators hold no separator, and with the separators between
/// them they make up the text.
pub proof fn law_parts_hold_no_separator(s: Str, separator: Str, k: int)
    requires
        separator.len() > 0,
        0 <= k < split(s, separator).len(),
    ensures
        !includes(split(s, separator)[k], separator),
        join(split(s, separator), separator) == s,
{
    lemma_parts_without(s, separator, 0, k);
    law_joined_parts_make_up_the_text(s, separator);
}

proof fn lemma_find_shift(s: Str, part: Str, k: int, i: int)
    requires
        0 <= k <= s.len(),
        0 <= i,
    ensures
        find_from(s, part, k + i) == (match find_from(s.skip(k), part, i) {
            Some(j) => Some(k + j),
            None => None,
        }),
    decreases s.len() - k - i + 1,
{
    if k + i + part.len() <= s.len() {
        assert(s.skip(k).subrange(i, i + part.len()) =~= s.subrange(k + i, k + i + part.len()));
        if !stands_at(s, part, k + i) {
            lemma_find_shift(s, part, k, i + 1);
        }
    }
}

proof fn lemma_split_shift(s: Str, separator: Str, k: int, from: int)
    requires
        separator.len() > 0,
        0 <= k,
        0 <= from,
        k + from <= s.len(),
    ensures
        split_from(s, separator, k + from) == split_from(s.skip(k), separator, from),
    decreases s.len() - k - from,
{
    lemma_find_shift(s, separator, k, from);
    lemma_find_from(s.skip(k), separator, from);
    match find_from(s.skip(k), separator, from) {
        Some(j) => {
            assert(s.skip(k).subrange(from, j) =~= s.subrange(k + from, k + j));
            lemma_split_shift(s, separator, k, j + separator.len());
        },
        None => {
            assert(s.skip(k).subrange(from, s.skip(k).len() as int) =~= s.subrange(
                k + from,
                s.len() as int,
            ));
        },
    }
}

/// Replacing goes from one place of the old part to the next: a text without it stays, and
/// otherwise what stands before its first place stays, the new part comes in its stead, and the
/// rest is treated alike.
pub proof fn law_replacing(s: Str, old_part: Str, new_part: Str)
    requires
        old_part.len() > 0,
    ensures
        !includes(s, old_part) ==> replaced(s, old_part, new_part) == s,
        includes(s, old_part) ==> replaced(s, old_part, new_part) == (cut(s, old_part)->0).0
            + new_part + replaced((cut(s, old_part)->0).1, old_part, new_part),
        replaced(s, old_part, old_part) == s,
{
    law_joined_parts_make_up_the_text(s, old_part);
    lemma_find_from(s, old_part, 0);
    match find(s, old_part) {
        None => {
            assert(split(s, old_part) =~= seq![s.subrange(0, s.len() as int)]);
            assert(s.subrange(0, s.len() as int) =~= s);
        },
        Some(i) => {
            let next = i + old_part.len();
            let rest = s.skip(next);
            lemma_split_shift(s, old_part, next, 0);
            let parts = split(s, old_part);
            let more = split(rest, old_part);
            assert(s.subrange(0, i) =~= s.take(i));
            assert(parts =~= seq![s.take(i)] + more);
            crate::web::lemma_split_some(rest, old_part);
            lemma_join_front(parts, new_part);
            assert(parts.skip(1) =~= more);
        },
    }
}

// ---------------------------------------------------------------------------
// White space
// ---------------------------------------------------------------------------

/// Whether a text is nothing but white space.
pub open spec fn blank(s: Str) -> bool {
    forall|i: int| 0 <= i < s.len() ==> is_space(#[trigger] s[i])
}

proof fn lemma_skipped(s: Str, i: int)
    requires
        0 <= i <= s.len(),
    ensures
        i <= skip_spaces(s, i) <= s.len(),
        forall|k: int| i <= k < skip_spaces(s, i) ==> is_space(#[trigger] s[k]),
        skip_spaces(s, i) < s.len() ==> !is_space(s[skip_spaces(s, i)]),
    decreases s.len() - i,
{
    if i < s.len() && is_space(s[i]) {
        lemma_skipped(s, i + 1);
    }
}

proof fn lemma_left(s: Str, i: int)
    requires
        0 <= i <= s.len(),
    ensures
        0 <= last_end(s, i) <= i,
        forall|k: int| last_end(s, i) <= k < i ==> is_space(#[trigger] s[k]),
        last_end(s, i) > 0 ==> !is_space(s[last_end(s, i) - 1]),
    decreases i,
{
    if 0 < i && is_space(s[i - 1]) {
        lemma_left(s, i - 1);
    }
}

/// Trimming takes white space away, at the beginning and at the end, and all of it there.
pub proof fn law_trimming(s: Str)
    ensures
        exists|before: Str, behind: Str|
            {
                &&& s == #[trigger] (before + trim(s) + behind)
                &&& blank(before)
                &&& blank(behind)
            },
        trim(s).len() > 0 ==> !is_space(trim(s)[0]) && !is_space(trim(s).last()),
{
    lemma_skipped(s, 0);
    let k = skip_spaces(s, 0);
    let t = trim_start(s);
    lemma_left(t, t.len() as int);
    let e = last_end(t, t.len() as int);
    assert(s =~= s.take(k) + trim(s) + t.skip(e));
    assert(blank(s.take(k)));
    assert(blank(t.skip(e)));
    if e > 0 {
        assert(trim(s)[0] == s[k]);
    }
}

proof fn lemma_word_end(s: Str, i: int)
    requires
        0 <= i <= s.len(),
    ensures
        i <= word_end(s, i) <= s.len(),
        forall|k: int| i <= k < word_end(s, i) ==> !is_space(#[trigger] s[k]),
        i < s.len() && !is_space(s[i]) ==> i < word_end(s, i),
        word_end(s, i) < s.len() ==> is_space(s[word_end(s, i)]),
    decreases s.len() - i,
{
    if i < s.len() && !is_space(s[i]) {
        lemma_word_end(s, i + 1);
    }
}

proof fn lemma_words(s: Str, i: int, k: int)
    requires
        0 <= i <= s.len(),
        0 <= k < words_from(s, i).len(),
    ensures
        words_from(s, i)[k].len() > 0,
        forall|j: int|
            0 <= j < words_from(s, i)[k].len() ==> !is_space(#[trigger] words_from(s, i)[k][j]),
    decreases s.len() - i,
{
    if is_space(s[i]) {
        lemma_words(s, i + 1, k);
    } else {
        lemma_word_end(s, i);
        let e = word_end(s, i);
        if k > 0 {
            lemma_words(s, e, k - 1);
        }
    }
}

/// Words are not empty and hold no white space, and a text without white space is one word.
pub proof fn law_words_hold_no_space(s: Str, k: int)
    ensures
        0 <= k < words(s).len() ==> words(s)[k].len() > 0 && forall|j: int|
            0 <= j < words(s)[k].len() ==> !is_space(#[trigger] words(s)[k][j]),
        s.len() > 0 && (forall|j: int| 0 <= j < s.len() ==> !is_space(#[trigger] s[j])) ==> words(s)
            == seq![s],
        blank(s) ==> words(s).len() == 0,
{
    if 0 <= k < words(s).len() {
        lemma_words(s, 0, k);
    }
    if s.len() > 0 && (forall|j: int| 0 <= j < s.len() ==> !is_space(#[trigger] s[j])) {
        lemma_word_end(s, 0);
        assert(word_end(s, 0) == s.len());
        assert(s.subrange(0, s.len() as int) =~= s);
        assert(words_from(s, s.len() as int) =~= Seq::<Str>::empty());
        assert(words(s) =~= seq![s]);
    }
    if blank(s) {
        lemma_no_words(s, 0);
    }
}

proof fn lemma_no_words(s: Str, i: int)
    requires
        0 <= i <= s.len(),
        blank(s),
    ensures
        words_from(s, i).len() == 0,
    decreases s.len() - i,
{
    if i < s.len() {
        lemma_no_words(s, i + 1);
    }
}

/// Words on both sides of white space are the words of the two sides.
pub proof fn law_words_are_divided_by_space(a: Str, space: char, b: Str)
    requires
        is_space(space),
    ensures
        words(a + seq![space] + b) == words(a) + words(b),
{
    let s = a + seq![space] + b;
    lemma_words_divided(a, space, b, 0);
}

proof fn lemma_words_divided(a: Str, space: char, b: Str, i: int)
    requires
        is_space(space),
        0 <= i <= a.len(),
    ensures
        words_from(a + seq![space] + b, i) == words_from(a, i) + words(b),
    decreases a.len() - i,
{
    let s = a + seq![space] + b;
    if i == a.len() {
        assert(s[i] == space);
        assert(s.skip((a.len() + 1) as int) =~= b);
        lemma_words_shift(s, b, (a.len() + 1) as int, 0);
        assert(words_from(a, i) =~= Seq::<Str>::empty());
        assert(words_from(s, i) == words_from(s, i + 1));
        assert(words_from(a, i) + words(b) =~= words(b));
    } else {
        assert(s[i] == a[i]);
        if is_space(a[i]) {
            lemma_words_divided(a, space, b, i + 1);
        } else {
            lemma_word_end(a, i);
            lemma_word_end(s, i);
            let e = word_end(a, i);
            lemma_same_end(a, space, b, i);
            assert(s.subrange(i, e) =~= a.subrange(i, e));
            lemma_words_divided(a, space, b, e);
            assert(words_from(s, i) =~= words_from(a, i) + words(b));
        }
    }
}

proof fn lemma_same_end(a: Str, space: char, b: Str, i: int)
    requires
        is_space(space),
        0 <= i <= a.len(),
    ensures
        word_end(a + seq![space] + b, i) == word_end(a, i),
    decreases a.len() - i,
{
    let s = a + seq![space] + b;
    if i < a.len() {
        assert(s[i] == a[i]);
        if !is_space(a[i]) {
            lemma_same_end(a, space, b, i + 1);
        }
    } else {
        assert(s[i] == space);
    }
}

proof fn lemma_words_shift(s: Str, b: Str, k: int, i: int)
    requires
        0 <= k <= s.len(),
        s.skip(k) == b,
        0 <= i <= b.len(),
    ensures
        words_from(s, k + i) == words_from(b, i),
    decreases b.len() - i,
{
    assert(b.len() == s.len() - k);
    if i < b.len() {
        assert(b[i] == s[k + i]);
        if is_space(b[i]) {
            lemma_words_shift(s, b, k, i + 1);
        } else {
            lemma_end_shift(s, b, k, i);
            lemma_word_end(b, i);
            let e = word_end(b, i);
            assert(b.subrange(i, e) =~= s.subrange(k + i, k + e));
            lemma_words_shift(s, b, k, e);
        }
    }
}

proof fn lemma_end_shift(s: Str, b: Str, k: int, i: int)
    requires
        0 <= k <= s.len(),
        s.skip(k) == b,
        0 <= i <= b.len(),
    ensures
        word_end(s, k + i) == k + word_end(b, i),
    decreases b.len() - i,
{
    assert(b.len() == s.len() - k);
    if i < b.len() {
        assert(b[i] == s[k + i]);
        if !is_space(b[i]) {
            lemma_end_shift(s, b, k, i + 1);
        }
    }
}

// ---------------------------------------------------------------------------
// Letters and order
// ---------------------------------------------------------------------------

/// Making letters small keeps the length, changes capital letters alone, and leaves none.
pub proof fn law_small_letters(s: Str, i: int)
    requires
        0 <= i < s.len(),
    ensures
        ascii_lower(s).len() == s.len(),
        !('A' <= s[i] <= 'Z') ==> ascii_lower(s)[i] == s[i],
        'A' <= s[i] <= 'Z' ==> ascii_lower(s)[i] as int == s[i] as int + 32,
        !('A' <= ascii_lower(s)[i] <= 'Z'),
        ascii_lower(ascii_lower(s)) == ascii_lower(s),
{
    assert(ascii_lower(s)[i] == lower_char(s[i]));
    assert forall|k: int| 0 <= k < s.len() implies lower_char(lower_char(#[trigger] s[k]))
        == lower_char(s[k]) by {}
    assert(ascii_lower(ascii_lower(s)) =~= ascii_lower(s));
}

proof fn lemma_first_difference(a: Seq<u8>, b: Seq<u8>, k: int)
    requires
        0 <= k <= a.len(),
        k < b.len(),
        a.take(k) == b.take(k),
        k < a.len() ==> a[k] < b[k],
    ensures
        bytes_less(a, b),
        !bytes_less(b, a),
    decreases k,
{
    if k > 0 {
        assert(a[0] == a.take(k)[0]);
        assert(b[0] == b.take(k)[0]);
        assert(a.skip(1).take(k - 1) =~= a.take(k).skip(1));
        assert(b.skip(1).take(k - 1) =~= b.take(k).skip(1));
        lemma_first_difference(a.skip(1), b.skip(1), k - 1);
    }
}

/// A text stands before another if, at the first byte in which they differ, it has the smaller
/// one, or if it is a part in front of the other.
pub proof fn law_texts_are_ordered_by_their_first_difference(a: Str, b: Str, k: int)
    requires
        0 <= k <= encode_utf8(a).len(),
        k < encode_utf8(b).len(),
        encode_utf8(a).take(k) == encode_utf8(b).take(k),
        k < encode_utf8(a).len() ==> encode_utf8(a)[k] < encode_utf8(b)[k],
    ensures
        less(a, b),
        !less(b, a),
{
    lemma_first_difference(encode_utf8(a), encode_utf8(b), k);
}

/// Blanks, tabs and line breaks are white space; letters, digits and signs are not.
pub proof fn law_white_space(c: char)
    ensures
        c == ' ' || c == '\t' || c == '\n' || c == '\r' ==> is_space(c),
        '!' <= c <= '~' ==> !is_space(c),
{
}

/// Digits are those from 0 to 9, each with its value.
pub proof fn law_digits(c: char)
    ensures
        is_digit(c) <==> '0' <= c <= '9',
        is_digit(c) ==> number_of(seq![c]) == c as int - '0' as int,
{
    reveal_with_fuel(number_of, 2);
    assert(seq![c].drop_last() =~= Seq::<char>::empty());
}

} // verus!
