//! What is written in another notation is read back as it was.

use crate::builtins::text_values;
use crate::host::{file_text, file_written, lines_joined, read_lines_call, write_lines_call};
use crate::json::{decode_inside, decode_items, decode_rows, encode, encode_items, encode_rows,
    from_json, plain_json, tag_only, tagged, JsonM};
use crate::layout::lines_of;
use crate::table::{get, lemma_get_at, lemma_get_found, lemma_get_put_other, lemma_get_put_same,
    lemma_put_ordered, lemma_slot, ordered, put, slot, Rows};
use crate::text::{find_from, join, lemma_find_from, less, split, split_from, Str};
use crate::url::{escape, escape_all, hex_digit, is_unreserved, percent_decoded, percent_encoded,
    unescape};
use crate::value::{Val, MAX_RUNTIME_COLLECTION_ITEMS};
use crate::world::World;
use vstd::prelude::*;
use vstd::utf8::{encode_utf8, encode_utf8_decode_utf8, encode_utf8_valid_utf8, is_ascii_chars,
    is_ascii_chars_encode_utf8};

verus! {

// ---------------------------------------------------------------------------
// Pieces of texts
// ---------------------------------------------------------------------------

pub proof fn lemma_join_front(parts: Seq<Str>, separator: Str)
    requires
        parts.len() >= 2,
    ensures
        join(parts, separator) == parts[0] + separator + join(parts.skip(1), separator),
    decreases parts.len(),
{
    let rest = parts.skip(1);
    if parts.len() == 2 {
        assert(parts.drop_last() =~= seq![parts[0]]);
        assert(rest =~= seq![parts[1]]);
        assert(join(parts.drop_last(), separator) == parts[0]);
    } else {
        lemma_join_front(parts.drop_last(), separator);
        assert(parts.drop_last().skip(1) =~= rest.drop_last());
        assert(rest.last() == parts.last());
        assert(join(parts, separator) =~= parts[0] + separator + (join(
            rest.drop_last(),
            separator,
        ) + separator + rest.last()));
    }
}

proof fn lemma_split_from(s: Str, separator: Str, from: int)
    requires
        separator.len() > 0,
        0 <= from <= s.len(),
    ensures
        split_from(s, separator, from).len() >= 1,
        join(split_from(s, separator, from), separator) == s.skip(from),
    decreases s.len() - from,
{
    lemma_find_from(s, separator, from);
    let parts = split_from(s, separator, from);
    match find_from(s, separator, from) {
        None => {
            assert(s.subrange(from, s.len() as int) =~= s.skip(from));
        },
        Some(i) => {
            let next = i + separator.len();
            lemma_split_from(s, separator, next);
            let rest = split_from(s, separator, next);
            assert(parts.skip(1) =~= rest);
            lemma_join_front(parts, separator);
            assert(s.skip(from) =~= s.subrange(from, i) + separator + s.skip(next)) by {
                assert(s.subrange(i, next) == separator);
                assert(s.skip(from) =~= s.subrange(from, i) + s.subrange(i, next) + s.skip(next));
            }
        },
    }
}

proof fn lemma_join_characters(s: Str, n: nat)
    requires
        n <= s.len(),
    ensures
        ({
            let parts = seq![Seq::<char>::empty()] + Seq::new(n, |i: int| seq![s[i]]);
            join(parts, Seq::empty()) == s.take(n as int)
        }),
    decreases n,
{
    let parts = seq![Seq::<char>::empty()] + Seq::new(n, |i: int| seq![s[i]]);
    if n == 0 {
        assert(parts =~= seq![Seq::<char>::empty()]);
        assert(s.take(0) =~= Seq::<char>::empty());
    } else {
        let before = (n - 1) as nat;
        lemma_join_characters(s, before);
        assert(parts.drop_last() =~= seq![Seq::<char>::empty()] + Seq::new(
            before,
            |i: int| seq![s[i]],
        ));
        assert(parts.last() =~= seq![s[n - 1]]);
        assert(s.take(n as int) =~= s.take(n - 1) + Seq::<char>::empty() + seq![s[n - 1]]);
    }
}

/// Joining the parts of a split with the same separator gives the text back.
pub proof fn law_joined_parts_make_up_the_text(s: Str, separator: Str)
    ensures
        join(split(s, separator), separator) == s,
{
    if separator.len() > 0 {
        lemma_split_from(s, separator, 0);
        assert(s.skip(0) =~= s);
    } else {
        lemma_join_characters(s, s.len());
        let parts = split(s, separator);
        assert(separator =~= Seq::<char>::empty());
        assert(parts.drop_last() =~= seq![Seq::<char>::empty()] + Seq::new(
            s.len(),
            |i: int| seq![s[i]],
        ));
        assert(parts.last() =~= Seq::<char>::empty());
        assert(s.take(s.len() as int) =~= s);
        assert(join(parts, separator) =~= s);
    }
}

// ---------------------------------------------------------------------------
// Lines of files
// ---------------------------------------------------------------------------

/// A line that reading gives back as it was written: it holds no line feed and does not end with
/// a carriage return.
pub open spec fn plain_line(line: Str) -> bool {
    !line.contains('\n') && (line.len() > 0 ==> line.last() != '\r')
}

proof fn lemma_lines_joined(lines: Seq<Str>, i: nat, done: Str, length: nat)
    requires
        i <= lines.len(),
        done == join(lines.take(i as int), "\n"@),
        lines_joined(text_values(lines), i, done, length) is Ok,
    ensures
        lines_joined(text_values(lines), i, done, length) == Ok::<Str, Str>(join(lines, "\n"@)),
    decreases lines.len() - i,
{
    reveal_strlit("\n");
    if i < lines.len() {
        let next = if i > 0 {
            done.push('\n') + lines[i as int]
        } else {
            done + lines[i as int]
        };
        let taken = lines.take(i as int + 1);
        assert(taken.drop_last() =~= lines.take(i as int));
        assert(taken.last() == lines[i as int]);
        if i > 0 {
            assert(next =~= done + "\n"@ + lines[i as int]);
        } else {
            assert(done =~= Seq::<char>::empty());
            assert(next =~= lines[0]);
        }
        let more = length + (if i > 0 {
            1nat
        } else {
            0nat
        }) + crate::text::size(lines[i as int]);
        lemma_lines_joined(lines, i + 1, next, more);
    } else {
        assert(lines.take(i as int) =~= lines);
    }
}

proof fn lemma_find_line_feed(s: Str, from: int, k: int)
    requires
        0 <= from <= k <= s.len(),
        forall|j: int| from <= j < k ==> #[trigger] s[j] != '\n',
        k < s.len() ==> s[k] == '\n',
    ensures
        find_from(s, "\n"@, from) == (if k < s.len() {
            Some(k)
        } else {
            None
        }),
    decreases k - from,
{
    reveal_strlit("\n");
    if from < k {
        assert(s.subrange(from, from + 1)[0] == s[from]);
        lemma_find_line_feed(s, from + 1, k);
    } else if k < s.len() {
        assert(s.subrange(k, k + 1) =~= "\n"@);
    }
}

proof fn lemma_split_lines(s: Str, from: int, lines: Seq<Str>)
    requires
        lines.len() >= 1,
        forall|i: int| 0 <= i < lines.len() ==> !(#[trigger] lines[i]).contains('\n'),
        0 <= from <= s.len(),
        s.skip(from) == join(lines, "\n"@),
    ensures
        split_from(s, "\n"@, from) == lines,
    decreases lines.len(),
{
    reveal_strlit("\n");
    let first = lines[0];
    let k = from + first.len();
    let rest = s.skip(from);
    if lines.len() == 1 {
        assert(rest == first);
        assert(s.len() == k);
        assert forall|j: int| from <= j < k implies #[trigger] s[j] != '\n' by {
            assert(s[j] == rest[j - from]);
            assert(first.contains(first[j - from]));
        }
        lemma_find_line_feed(s, from, k);
        assert(s.subrange(from, s.len() as int) =~= first);
        assert(lines =~= seq![first]);
    } else {
        lemma_join_front(lines, "\n"@);
        let after = lines.skip(1);
        assert(rest == first + "\n"@ + join(after, "\n"@));
        assert forall|j: int| from <= j < k implies #[trigger] s[j] != '\n' by {
            assert(s[j] == rest[j - from]);
            assert(rest[j - from] == first[j - from]);
            assert(first.contains(first[j - from]));
        }
        assert(s[k] == rest[first.len() as int]);
        assert(rest[first.len() as int] == '\n');
        lemma_find_line_feed(s, from, k);
        assert(s.skip(k + 1) =~= join(after, "\n"@)) by {
            assert(s.skip(k + 1) =~= rest.skip(first.len() as int + 1));
            assert(rest.skip(first.len() as int + 1) =~= join(after, "\n"@));
        }
        assert forall|i: int| 0 <= i < after.len() implies !(#[trigger] after[i]).contains(
            '\n',
        ) by {
            assert(after[i] == lines[i + 1]);
        }
        lemma_split_lines(s, k + 1, after);
        assert(s.subrange(from, k) =~= first) by {
            assert(s.subrange(from, k) =~= rest.take(first.len() as int));
        }
        assert(seq![first] + after =~= lines);
    }
}

/// The text of lines is divided into the same lines again.
pub proof fn law_lines_are_read_back(lines: Seq<Str>)
    requires
        forall|i: int| 0 <= i < lines.len() ==> plain_line(#[trigger] lines[i]),
        lines.len() > 0 ==> lines.last().len() > 0,
    ensures
        lines_of(join(lines, "\n"@)) == lines,
{
    reveal_strlit("\n");
    let s = join(lines, "\n"@);
    if lines.len() == 0 {
        assert(s =~= Seq::<char>::empty());
        assert(find_from(s, "\n"@, 0) is None);
        assert(s.subrange(0, s.len() as int) =~= Seq::<char>::empty());
        assert(split(s, "\n"@) =~= seq![Seq::<char>::empty()]);
        assert(lines_of(s) =~= lines);
    } else {
        assert(s.skip(0) =~= s);
        lemma_split_lines(s, 0, lines);
        assert(lines_of(s) =~= lines);
    }
}

/// `read_lines` gives back what `write_lines` wrote: what is handed to the host is the text of the
/// lines, and where the host hands that text back, the lines are the same.
pub proof fn law_written_lines_are_read_back(path: Str, lines: Seq<Str>, content: Str, w: World)
    requires
        forall|i: int| 0 <= i < lines.len() ==> plain_line(#[trigger] lines[i]),
        lines.len() > 0 ==> lines.last().len() > 0,
        lines.len() <= MAX_RUNTIME_COLLECTION_ITEMS,
        lines_joined(text_values(lines), 0, Seq::empty(), 0) == Ok::<Str, Str>(content),
    ensures
        write_lines_call(seq![Val::Text(path), Val::List(text_values(lines))], w) == file_written(
            path,
            content,
            "write_lines"@,
            w,
        ),
        file_text(path, "read_lines"@, w).0 == Ok::<Str, Str>(content) ==> read_lines_call(
            seq![Val::Text(path)],
            w,
        ).0 == Ok::<Val, Str>(Val::List(text_values(lines))),
{
    assert(lines.take(0) =~= Seq::<Str>::empty());
    lemma_lines_joined(lines, 0, Seq::empty(), 0);
    law_lines_are_read_back(lines);
}

// ---------------------------------------------------------------------------
// Percent escapes
// ---------------------------------------------------------------------------

proof fn lemma_escape_all(bytes: Seq<u8>, k: nat, n: nat)
    requires
        k <= n <= bytes.len(),
    ensures
        escape_all(bytes, k).len() <= escape_all(bytes, n).len(),
        escape_all(bytes, n).take(escape_all(bytes, k).len() as int) == escape_all(bytes, k),
        is_ascii_chars(escape_all(bytes, n)),
    decreases n,
{
    if n > 0 {
        let rest = escape_all(bytes, (n - 1) as nat);
        let whole = escape_all(bytes, n);
        assert(whole == rest + escape(bytes[n - 1]));
        lemma_escape_all(bytes, (if k < n { k } else { (n - 1) as nat }), (n - 1) as nat);
        assert forall|i: int| 0 <= i < whole.len() implies '\0' <= #[trigger] whole[i]
            <= '\u{7f}' by {
            if i < rest.len() {
                assert(whole[i] == rest[i]);
            } else {
                assert(whole[i] == escape(bytes[n - 1])[i - rest.len()]);
            }
        }
        if k < n {
            assert(whole.take(escape_all(bytes, k).len() as int) =~= rest.take(
                escape_all(bytes, k).len() as int,
            ));
        } else {
            assert(whole.take(whole.len() as int) =~= whole);
        }
    } else {
        assert(escape_all(bytes, 0).take(0) =~= escape_all(bytes, 0));
    }
}

proof fn lemma_unescape(bytes: Seq<u8>, k: nat)
    requires
        k <= bytes.len(),
    ensures
        unescape(
            encode_utf8(escape_all(bytes, bytes.len())),
            escape_all(bytes, k).len() as int,
        ) == Ok::<Seq<u8>, Str>(bytes.skip(k as int)),
    decreases bytes.len() - k,
{
    let whole = escape_all(bytes, bytes.len());
    let written = encode_utf8(whole);
    let i = escape_all(bytes, k).len() as int;
    lemma_escape_all(bytes, k, bytes.len());
    is_ascii_chars_encode_utf8(whole);
    if k < bytes.len() {
        let b = bytes[k as int];
        let next = escape_all(bytes, k + 1);
        lemma_escape_all(bytes, k + 1, bytes.len());
        lemma_unescape(bytes, k + 1);
        assert(next == escape_all(bytes, k) + escape(b));
        assert forall|j: int| 0 <= j < escape(b).len() implies whole[i + j] == #[trigger] escape(
            b,
        )[j] by {
            assert(whole[i + j] == whole.take(next.len() as int)[i + j]);
            assert(next[i + j] == escape(b)[j]);
        }
        assert(seq![b] + bytes.skip((k + 1) as int) =~= bytes.skip(k as int));
        if is_unreserved(b) {
            assert(whole[i + 0] == escape(b)[0]);
            assert(written[i] == b);
        } else {
            assert(whole[i + 0] == escape(b)[0]);
            assert(whole[i + 1] == escape(b)[1]);
            assert(whole[i + 2] == escape(b)[2]);
            assert(written[i] == 37);
            assert(written[i + 1] == hex_digit(b / 16) as u8);
            assert(written[i + 2] == hex_digit(b % 16) as u8);
        }
    } else {
        assert(bytes.skip(k as int) =~= Seq::empty());
    }
}

/// Decoding the percent escapes of an encoded text gives the text back.
pub proof fn law_url_escapes_are_undone(s: Str)
    ensures
        percent_decoded(percent_encoded(s)) == Ok::<Str, Str>(s),
{
    let bytes = encode_utf8(s);
    lemma_unescape(bytes, 0);
    assert(bytes.skip(0) =~= bytes);
    encode_utf8_valid_utf8(s);
    encode_utf8_decode_utf8(s);
}

// ---------------------------------------------------------------------------
// JSON
// ---------------------------------------------------------------------------

/// The values that a document can carry, nested at most `depth` deep: all but objects, functions
/// and scheduled tasks, and but for maps with the key that marks a variant.
pub open spec fn carried(v: Val, depth: nat) -> bool
    decreases v,
{
    match v {
        Val::Nil => true,
        Val::Bool(_) => true,
        Val::Number(_) => true,
        Val::Text(_) => true,
        Val::List(items) => depth > 0 && forall|i: int|
            0 <= i < items.len() ==> carried(#[trigger] items[i], (depth - 1) as nat),
        Val::Dict(rows) => depth > 0 && ordered(rows) && get(rows, "__zap_variant"@) is None
            && forall|i: int|
            0 <= i < rows.len() ==> carried((#[trigger] rows[i]).1, (depth - 1) as nat),
        Val::ResultOk(inner) => depth > 0 && carried(*inner, (depth - 1) as nat),
        Val::ResultErr(inner) => depth > 0 && carried(*inner, (depth - 1) as nat),
        Val::OptionSome(inner) => depth > 0 && carried(*inner, (depth - 1) as nat),
        Val::OptionNone => depth > 0,
        Val::Future(inner) => depth > 0 && carried(*inner, (depth - 1) as nat),
        _ => false,
    }
}

proof fn lemma_put_last<W>(d: Rows<W>, key: Str, value: W)
    requires
        forall|k: int| 0 <= k < d.len() ==> less((#[trigger] d[k]).0, key),
    ensures
        put(d, key, value) == d.push((key, value)),
{
    lemma_slot(d, key, 0);
    assert(put(d, key, value) =~= d.push((key, value)));
}

proof fn lemma_decode_items(documents: Seq<JsonM>, items: Seq<Val>, n: nat)
    requires
        n <= documents.len() == items.len(),
        forall|k: int|
            0 <= k < items.len() ==> from_json(#[trigger] documents[k]) == Ok::<Val, Str>(items[k]),
    ensures
        decode_items(documents, n) == Ok::<Seq<Val>, Str>(items.take(n as int)),
    decreases n,
{
    if n > 0 {
        lemma_decode_items(documents, items, (n - 1) as nat);
        assert(from_json(documents[n - 1]) == Ok::<Val, Str>(items[n - 1]));
        assert(items.take(n as int) =~= items.take(n - 1).push(items[n - 1]));
    } else {
        assert(items.take(0) =~= Seq::empty());
    }
}

proof fn lemma_decode_rows(documents: Rows<JsonM>, rows: Rows<Val>, n: nat)
    requires
        n <= documents.len() == rows.len(),
        ordered(rows),
        forall|k: int|
            0 <= k < rows.len() ==> (#[trigger] documents[k]).0 == rows[k].0 && from_json(
                documents[k].1,
            ) == Ok::<Val, Str>(rows[k].1),
    ensures
        decode_rows(documents, n) == Ok::<Rows<Val>, Str>(rows.take(n as int)),
    decreases n,
{
    if n > 0 {
        lemma_decode_rows(documents, rows, (n - 1) as nat);
        assert(documents[n - 1].0 == rows[n - 1].0);
        lemma_put_last(rows.take(n - 1), rows[n - 1].0, rows[n - 1].1);
        assert(rows.take(n as int) =~= rows.take(n - 1).push(rows[n - 1]));
    } else {
        assert(rows.take(0) =~= Seq::empty());
    }
}

/// The document of a tagged value holds the tag and the value, and nothing else.
proof fn lemma_tagged(tag: Str, inside: JsonM, depth: nat)
    requires
        plain_json(inside, depth),
    ensures
        plain_json(tagged(tag, inside), depth + 1),
        ({
            let rows = tagged(tag, inside)->Object_0;
            &&& get(rows, "__zap_variant"@) == Some(JsonM::Text(tag))
            &&& get(rows, "state"@) is None
            &&& decode_inside(rows) == Some(from_json(inside))
        }),
{
    reveal_strlit("__zap_variant");
    reveal_strlit("value");
    reveal_strlit("state");
    let none: Rows<JsonM> = Seq::empty();
    let one = put(none, "__zap_variant"@, JsonM::Text(tag));
    let rows = put(one, "value"@, inside);
    assert("state"@[0] != "value"@[0]);
    assert("state"@.len() != "__zap_variant"@.len());
    assert("value"@.len() != "__zap_variant"@.len());
    lemma_put_ordered(none, "__zap_variant"@, JsonM::Text(tag));
    lemma_put_ordered(one, "value"@, inside);
    lemma_get_put_same(none, "__zap_variant"@, JsonM::Text(tag));
    lemma_get_put_same(one, "value"@, inside);
    lemma_get_put_other(one, "value"@, inside, "__zap_variant"@);
    lemma_get_put_other(one, "value"@, inside, "state"@);
    lemma_get_put_other(none, "__zap_variant"@, JsonM::Text(tag), "state"@);
    lemma_get_found(none, "state"@);
    lemma_get_found(rows, "value"@);
    assert forall|i: int| 0 <= i < rows.len() implies plain_json((#[trigger] rows[i]).1, depth) by {
        lemma_get_at(rows, i);
        let key = rows[i].0;
        if key != "value"@ {
            lemma_get_put_other(one, "value"@, inside, key);
            if key != "__zap_variant"@ {
                lemma_get_put_other(none, "__zap_variant"@, JsonM::Text(tag), key);
                lemma_get_found(none, key);
            }
        }
    }
}

proof fn lemma_tag_only(tag: Str, depth: nat)
    ensures
        plain_json(tag_only(tag), depth + 1),
        get(tag_only(tag)->Object_0, "__zap_variant"@) == Some(JsonM::Text(tag)),
{
    let none: Rows<JsonM> = Seq::empty();
    let rows = put(none, "__zap_variant"@, JsonM::Text(tag));
    lemma_put_ordered(none, "__zap_variant"@, JsonM::Text(tag));
    lemma_get_put_same(none, "__zap_variant"@, JsonM::Text(tag));
    lemma_slot(none, "__zap_variant"@, 0);
    assert(rows =~= seq![("__zap_variant"@, JsonM::Text(tag))]);
    assert(plain_json(JsonM::Text(tag), depth));
}

proof fn lemma_tags()
    ensures
        "ok"@ != "err"@,
        "ok"@ != "some"@,
        "err"@ != "some"@,
        "none"@ != "ok"@,
        "none"@ != "err"@,
        "none"@ != "some"@,
        "future"@ != "ok"@,
        "future"@ != "err"@,
        "future"@ != "some"@,
        "future"@ != "none"@,
        "future"@ != "callable"@,
{
    reveal_strlit("ok");
    reveal_strlit("err");
    reveal_strlit("some");
    reveal_strlit("none");
    reveal_strlit("future");
    reveal_strlit("callable");
    assert("ok"@.len() == 2 && "err"@.len() == 3 && "some"@.len() == 4 && "none"@.len() == 4);
    assert("future"@.len() == 6 && "callable"@.len() == 8);
    assert("none"@[0] != "some"@[0]);
}

proof fn lemma_carried_inside(tag: Str, inside: JsonM, v: Val, depth: nat)
    requires
        tag == "ok"@ || tag == "err"@ || tag == "some"@ || tag == "future"@,
        plain_json(inside, depth),
        from_json(inside) == Ok::<Val, Str>(v),
    ensures
        plain_json(tagged(tag, inside), depth + 1),
        from_json(tagged(tag, inside)) == Ok::<Val, Str>(
            if tag == "ok"@ {
                Val::ResultOk(Box::new(v))
            } else if tag == "err"@ {
                Val::ResultErr(Box::new(v))
            } else if tag == "some"@ {
                Val::OptionSome(Box::new(v))
            } else {
                Val::Future(Box::new(v))
            },
        ),
{
    lemma_tagged(tag, inside, depth);
    lemma_tags();
}

/// A value that documents can carry comes back from its document.
pub proof fn law_documents_carry_values(
    v: Val,
    limit: nat,
    depth: nat,
    nodes: nat,
    active: Seq<usize>,
    w: World,
)
    requires
        carried(v, limit),
        encode(v, depth, nodes, active, w) is Ok,
    ensures
        ({
            let document = (encode(v, depth, nodes, active, w)->Ok_0).0;
            plain_json(document, limit) && from_json(document) == Ok::<Val, Str>(v)
        }),
    decreases v, 0nat,
{
    let n = nodes + 1;
    match v {
        Val::List(items) => {
            lemma_carried_items(
                items,
                0,
                Seq::empty(),
                (limit - 1) as nat,
                depth + 1,
                n,
                active,
                w,
            );
            let documents = (encode_items(
                items,
                0,
                Seq::empty(),
                depth + 1,
                n,
                active,
                w,
            )->Ok_0).0;
            lemma_decode_items(documents, items, items.len());
            assert(items.take(items.len() as int) =~= items);
        },
        Val::Dict(rows) => {
            lemma_carried_rows(
                rows,
                0,
                Seq::empty(),
                (limit - 1) as nat,
                depth + 1,
                n,
                active,
                w,
            );
            let documents = (encode_rows(
                rows,
                0,
                Seq::empty(),
                depth + 1,
                n,
                active,
                w,
            )->Ok_0).0;
            lemma_decode_rows(documents, rows, rows.len());
            assert(rows.take(rows.len() as int) =~= rows);
            assert(ordered(documents)) by {
                assert forall|i: int, j: int| 0 <= i < j < documents.len() implies less(
                    #[trigger] documents[i].0,
                    #[trigger] documents[j].0,
                ) by {
                    assert(documents[i].0 == rows[i].0 && documents[j].0 == rows[j].0);
                }
            }
            lemma_get_found(documents, "__zap_variant"@);
            if get(documents, "__zap_variant"@) is Some {
                let i = slot(documents, "__zap_variant"@);
                assert(documents[i].0 == rows[i].0);
                lemma_get_at(rows, i);
            }
        },
        Val::ResultOk(inner) => {
            law_documents_carry_values(*inner, (limit - 1) as nat, depth + 1, n, active, w);
            let inside = (encode(*inner, depth + 1, n, active, w)->Ok_0).0;
            lemma_carried_inside("ok"@, inside, *inner, (limit - 1) as nat);
        },
        Val::ResultErr(inner) => {
            law_documents_carry_values(*inner, (limit - 1) as nat, depth + 1, n, active, w);
            let inside = (encode(*inner, depth + 1, n, active, w)->Ok_0).0;
            lemma_carried_inside("err"@, inside, *inner, (limit - 1) as nat);
            lemma_tags();
        },
        Val::OptionSome(inner) => {
            law_documents_carry_values(*inner, (limit - 1) as nat, depth + 1, n, active, w);
            let inside = (encode(*inner, depth + 1, n, active, w)->Ok_0).0;
            lemma_carried_inside("some"@, inside, *inner, (limit - 1) as nat);
            lemma_tags();
        },
        Val::Future(inner) => {
            law_documents_carry_values(*inner, (limit - 1) as nat, depth + 1, n, active, w);
            let inside = (encode(*inner, depth + 1, n, active, w)->Ok_0).0;
            lemma_carried_inside("future"@, inside, *inner, (limit - 1) as nat);
            lemma_tags();
        },
        Val::OptionNone => {
            lemma_tag_only("none"@, (limit - 1) as nat);
            lemma_tags();
        },
        _ => {},
    }
}

proof fn lemma_carried_items(
    items: Seq<Val>,
    i: nat,
    done: Seq<JsonM>,
    limit: nat,
    depth: nat,
    nodes: nat,
    active: Seq<usize>,
    w: World,
)
    requires
        i <= items.len(),
        done.len() == i,
        forall|k: int| 0 <= k < items.len() ==> carried(#[trigger] items[k], limit),
        forall|k: int|
            0 <= k < i ==> plain_json(#[trigger] done[k], limit) && from_json(done[k]) == Ok::<
                Val,
                Str,
            >(items[k]),
        encode_items(items, i, done, depth, nodes, active, w) is Ok,
    ensures
        ({
            let documents = (encode_items(items, i, done, depth, nodes, active, w)->Ok_0).0;
            &&& documents.len() == items.len()
            &&& forall|k: int|
                0 <= k < items.len() ==> plain_json(#[trigger] documents[k], limit) && from_json(
                    documents[k],
                ) == Ok::<Val, Str>(items[k])
        }),
    decreases items, items.len() - i + 1,
{
    if i < items.len() {
        law_documents_carry_values(items[i as int], limit, depth, nodes, active, w);
        let one = encode(items[i as int], depth, nodes, active, w)->Ok_0;
        lemma_carried_items(items, i + 1, done.push(one.0), limit, depth, one.1, active, w);
    }
}

proof fn lemma_carried_rows(
    rows: Rows<Val>,
    i: nat,
    done: Rows<JsonM>,
    limit: nat,
    depth: nat,
    nodes: nat,
    active: Seq<usize>,
    w: World,
)
    requires
        i <= rows.len(),
        ordered(rows),
        done.len() == i,
        forall|k: int| 0 <= k < rows.len() ==> carried((#[trigger] rows[k]).1, limit),
        forall|k: int|
            0 <= k < i ==> (#[trigger] done[k]).0 == rows[k].0 && plain_json(done[k].1, limit)
                && from_json(done[k].1) == Ok::<Val, Str>(rows[k].1),
        encode_rows(rows, i, done, depth, nodes, active, w) is Ok,
    ensures
        ({
            let documents = (encode_rows(rows, i, done, depth, nodes, active, w)->Ok_0).0;
            &&& documents.len() == rows.len()
            &&& forall|k: int|
                0 <= k < rows.len() ==> (#[trigger] documents[k]).0 == rows[k].0 && plain_json(
                    documents[k].1,
                    limit,
                ) && from_json(documents[k].1) == Ok::<Val, Str>(rows[k].1)
        }),
    decreases rows, rows.len() - i + 1,
{
    if i < rows.len() {
        law_documents_carry_values(rows[i as int].1, limit, depth, nodes, active, w);
        let one = encode(rows[i as int].1, depth, nodes, active, w)->Ok_0;
        lemma_put_last(done, rows[i as int].0, one.0);
        lemma_carried_rows(
            rows,
            i + 1,
            done.push((rows[i as int].0, one.0)),
            limit,
            depth,
            one.1,
            active,
            w,
        );
    }
}

} // verus!
