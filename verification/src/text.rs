//! Text as sequences of characters: searching, splitting, trimming and rendering.

use vstd::prelude::*;
use vstd::utf8::*;

verus! {

/// The mathematical model of a text value.
pub type Str = Seq<char>;

/// `String::push` appends one character at the end of the string.
pub assume_specification[ String::push ](s: &mut String, c: char)
    ensures
        final(s)@ == old(s)@.push(c),
;

/// The number of bytes that a text takes in UTF-8.
pub open spec fn size(s: Str) -> nat {
    encode_utf8(s).len()
}

/// Lexicographic order on bytes.
pub open spec fn bytes_less(a: Seq<u8>, b: Seq<u8>) -> bool
    decreases a.len(),
{
    if b.len() == 0 {
        false
    } else if a.len() == 0 {
        true
    } else if a[0] != b[0] {
        a[0] < b[0]
    } else {
        bytes_less(a.skip(1), b.skip(1))
    }
}

/// The order of texts: that of their UTF-8 bytes.
pub open spec fn less(a: Str, b: Str) -> bool {
    bytes_less(encode_utf8(a), encode_utf8(b))
}

pub proof fn lemma_bytes_less_irreflexive(a: Seq<u8>)
    ensures
        !bytes_less(a, a),
    decreases a.len(),
{
    if a.len() > 0 {
        lemma_bytes_less_irreflexive(a.skip(1));
    }
}

pub proof fn lemma_bytes_less_transitive(a: Seq<u8>, b: Seq<u8>, c: Seq<u8>)
    requires
        bytes_less(a, b),
        bytes_less(b, c),
    ensures
        bytes_less(a, c),
    decreases a.len(),
{
    if a.len() > 0 && b.len() > 0 && c.len() > 0 && a[0] == b[0] && b[0] == c[0] {
        lemma_bytes_less_transitive(a.skip(1), b.skip(1), c.skip(1));
    }
}

pub proof fn lemma_bytes_less_total(a: Seq<u8>, b: Seq<u8>)
    ensures
        bytes_less(a, b) || bytes_less(b, a) || a == b,
    decreases a.len(),
{
    if a.len() > 0 && b.len() > 0 {
        if a[0] == b[0] {
            lemma_bytes_less_total(a.skip(1), b.skip(1));
            if a.skip(1) == b.skip(1) {
                assert(a =~= seq![a[0]] + a.skip(1));
                assert(b =~= seq![b[0]] + b.skip(1));
            }
        }
    } else if a.len() == 0 && b.len() == 0 {
        assert(a =~= b);
    }
}

/// Two texts with the same bytes are the same text.
pub proof fn lemma_same_bytes(a: Str, b: Str)
    requires
        encode_utf8(a) == encode_utf8(b),
    ensures
        a == b,
{
    broadcast use encode_utf8_decode_utf8;

    assert(decode_utf8(encode_utf8(a)) == a);
    assert(decode_utf8(encode_utf8(b)) == b);
}

/// The order of texts is a strict total order.
pub proof fn lemma_less_total(a: Str, b: Str)
    ensures
        !less(a, a),
        less(a, b) || less(b, a) || a == b,
{
    lemma_bytes_less_irreflexive(encode_utf8(a));
    lemma_bytes_less_total(encode_utf8(a), encode_utf8(b));
    if encode_utf8(a) == encode_utf8(b) {
        lemma_same_bytes(a, b);
    }
}

/// The number of bytes of `s`.
pub fn byte_len(s: &str) -> (r: usize)
    ensures
        r == size(s@),
{
    s.as_bytes().len()
}

proof fn lemma_bytes_less_prefix(a: Seq<u8>, b: Seq<u8>, n: int)
    requires
        0 <= n <= a.len(),
        n <= b.len(),
        a.take(n) == b.take(n),
    ensures
        bytes_less(a, b) == bytes_less(a.skip(n), b.skip(n)),
    decreases n,
{
    if n > 0 {
        assert(a[0] == a.take(n)[0]);
        assert(b[0] == b.take(n)[0]);
        assert(a.skip(1).take(n - 1) =~= a.take(n).skip(1));
        assert(b.skip(1).take(n - 1) =~= b.take(n).skip(1));
        lemma_bytes_less_prefix(a.skip(1), b.skip(1), n - 1);
        assert(a.skip(1).skip(n - 1) =~= a.skip(n));
        assert(b.skip(1).skip(n - 1) =~= b.skip(n));
    } else {
        assert(a.skip(0) =~= a);
        assert(b.skip(0) =~= b);
    }
}

/// How one text stands to another in the order of texts.
#[derive(Clone, Copy, PartialEq, Eq, Structural)]
pub enum Order {
    Before,
    Equal,
    After,
}

pub open spec fn order(a: Str, b: Str) -> Order {
    if a == b {
        Order::Equal
    } else if less(a, b) {
        Order::Before
    } else {
        Order::After
    }
}

pub fn text_order(a: &str, b: &str) -> (r: Order)
    ensures
        r == order(a@, b@),
{
    let x = a.as_bytes();
    let y = b.as_bytes();
    let mut i: usize = 0;
    assert(x@.take(0) =~= y@.take(0));
    while i < x.len() && i < y.len() && x[i] == y[i]
        invariant
            i <= x@.len(),
            i <= y@.len(),
            x@.take(i as int) == y@.take(i as int),
        decreases x.len() - i,
    {
        assert(x@.take(i + 1) =~= x@.take(i as int).push(x@[i as int]));
        assert(y@.take(i + 1) =~= y@.take(i as int).push(y@[i as int]));
        i += 1;
    }
    proof {
        lemma_bytes_less_prefix(x@, y@, i as int);
        lemma_less_total(a@, b@);
    }
    if i == x.len() && i == y.len() {
        assert(x@.take(i as int) =~= x@);
        assert(y@.take(i as int) =~= y@);
        proof {
            lemma_same_bytes(a@, b@);
        }
        Order::Equal
    } else if i == x.len() {
        Order::Before
    } else if i == y.len() {
        Order::After
    } else if x[i] < y[i] {
        assert(x@ != y@);
        Order::Before
    } else {
        Order::After
    }
}

/// Whether two texts are equal.
pub fn same(a: &str, b: &str) -> (r: bool)
    ensures
        r == (a@ == b@),
{
    text_order(a, b) == Order::Equal
}

/// The characters of `s`.
pub fn chars_of(s: &str) -> (r: Vec<char>)
    ensures
        r@ == s@,
{
    let mut out: Vec<char> = Vec::new();
    for c in it: s.chars()
        invariant
            out@ == it.seq().take(it.index() as int),
            it.seq() == s@,
    {
        out.push(c);
    }
    out
}

/// The text made of `v[from..to]`.
pub fn text_of(v: &Vec<char>, from: usize, to: usize) -> (r: String)
    requires
        from <= to <= v@.len(),
    ensures
        r@ == v@.subrange(from as int, to as int),
{
    let mut out: String = String::new();
    let mut i: usize = from;
    while i < to
        invariant
            from <= i <= to <= v@.len(),
            out@ == v@.subrange(from as int, i as int),
        decreases to - i,
    {
        out.push(v[i]);
        assert(v@.subrange(from as int, i + 1) =~= v@.subrange(from as int, i as int).push(v@[i as int]));
        i += 1;
    }
    out
}

/// The text made of all of `v`.
pub fn whole(v: &Vec<char>) -> (r: String)
    ensures
        r@ == v@,
{
    let r = text_of(v, 0, v.len());
    assert(v@.subrange(0, v@.len() as int) =~= v@);
    r
}

pub fn join2(a: &str, b: &str) -> (r: String)
    ensures
        r@ == a@ + b@,
{
    let mut s: String = a.to_owned();
    s.append(b);
    s
}

pub fn join3(a: &str, b: &str, c: &str) -> (r: String)
    ensures
        r@ == a@ + b@ + c@,
{
    let mut s: String = join2(a, b);
    s.append(c);
    s
}

pub fn join4(a: &str, b: &str, c: &str, d: &str) -> (r: String)
    ensures
        r@ == a@ + b@ + c@ + d@,
{
    let mut s: String = join3(a, b, c);
    s.append(d);
    s
}

pub fn join5(a: &str, b: &str, c: &str, d: &str, e: &str) -> (r: String)
    ensures
        r@ == a@ + b@ + c@ + d@ + e@,
{
    let mut s: String = join4(a, b, c, d);
    s.append(e);
    s
}

pub fn join6(a: &str, b: &str, c: &str, d: &str, e: &str, f: &str) -> (r: String)
    ensures
        r@ == a@ + b@ + c@ + d@ + e@ + f@,
{
    let mut s: String = join5(a, b, c, d, e);
    s.append(f);
    s
}

// ---------------------------------------------------------------------------
// Decimal numbers
// ---------------------------------------------------------------------------

pub open spec fn digit_char(d: nat) -> char {
    if d == 0 {
        '0'
    } else if d == 1 {
        '1'
    } else if d == 2 {
        '2'
    } else if d == 3 {
        '3'
    } else if d == 4 {
        '4'
    } else if d == 5 {
        '5'
    } else if d == 6 {
        '6'
    } else if d == 7 {
        '7'
    } else if d == 8 {
        '8'
    } else {
        '9'
    }
}

/// The decimal digits of `n`, without leading zeros.
pub open spec fn digits(n: nat) -> Str
    decreases n,
{
    if n < 10 {
        seq![digit_char(n)]
    } else {
        digits(n / 10).push(digit_char(n % 10))
    }
}

/// The decimal notation of `n`.
pub open spec fn decimal(n: int) -> Str {
    if n < 0 {
        seq!['-'] + digits((-n) as nat)
    } else {
        digits(n as nat)
    }
}

fn digit_of(d: u64) -> (c: char)
    requires
        d < 10,
    ensures
        c == digit_char(d as nat),
{
    if d == 0 {
        '0'
    } else if d == 1 {
        '1'
    } else if d == 2 {
        '2'
    } else if d == 3 {
        '3'
    } else if d == 4 {
        '4'
    } else if d == 5 {
        '5'
    } else if d == 6 {
        '6'
    } else if d == 7 {
        '7'
    } else if d == 8 {
        '8'
    } else {
        '9'
    }
}

fn push_digits(out: &mut String, n: u64)
    ensures
        final(out)@ == old(out)@ + digits(n as nat),
    decreases n,
{
    if n < 10 {
        out.push(digit_of(n));
        assert(out@ =~= old(out)@ + digits(n as nat));
    } else {
        push_digits(out, n / 10);
        out.push(digit_of(n % 10));
        assert(out@ =~= old(out)@ + digits(n as nat));
    }
}

/// The decimal notation of an unsigned number.
pub fn count_text(n: u64) -> (r: String)
    ensures
        r@ == decimal(n as int),
{
    let mut out: String = String::new();
    push_digits(&mut out, n);
    assert(out@ =~= digits(n as nat));
    out
}

/// The decimal notation of a length.
pub fn length_text(n: usize) -> (r: String)
    ensures
        r@ == decimal(n as int),
{
    count_text(n as u64)
}

/// The decimal notation of a signed number.
pub fn number_text(n: i64) -> (r: String)
    ensures
        r@ == decimal(n as int),
{
    let mut out: String = String::new();
    if n < 0 {
        out.push('-');
        let wide: i128 = -(n as i128);
        push_digits(&mut out, wide as u64);
        assert(out@ =~= seq!['-'] + digits((-n) as nat));
    } else {
        push_digits(&mut out, n as u64);
        assert(out@ =~= digits(n as nat));
    }
    out
}

pub open spec fn is_digit(c: char) -> bool {
    '0' <= c <= '9'
}

pub open spec fn digit_value(c: char) -> nat {
    (c as int - '0' as int) as nat
}

pub open spec fn all_digits(s: Str) -> bool {
    forall|i: int| 0 <= i < s.len() ==> is_digit(#[trigger] s[i])
}

/// The number that a row of decimal digits denotes.
pub open spec fn number_of(s: Str) -> nat
    decreases s.len(),
{
    if s.len() == 0 {
        0
    } else {
        number_of(s.drop_last()) * 10 + digit_value(s.last())
    }
}

/// What a non-empty row of decimal digits no greater than `max` denotes.
pub open spec fn natural(s: Str, max: nat) -> Option<nat> {
    if s.len() > 0 && all_digits(s) && number_of(s) <= max {
        Some(number_of(s))
    } else {
        None
    }
}

proof fn lemma_number_of_monotone(s: Str, n: int)
    requires
        0 <= n <= s.len(),
    ensures
        number_of(s.take(n)) <= number_of(s),
    decreases s.len() - n,
{
    if n < s.len() {
        lemma_number_of_monotone(s, n + 1);
        assert(s.take(n + 1).drop_last() =~= s.take(n));
    } else {
        assert(s.take(n) =~= s);
    }
}

/// Reads a row of decimal digits no greater than `max`.
pub fn read_natural(v: &Vec<char>, max: u64) -> (r: Option<u64>)
    ensures
        match r {
            Some(n) => natural(v@, max as nat) == Some(n as nat),
            None => natural(v@, max as nat) is None,
        },
{
    if v.len() == 0 {
        return None;
    }
    let mut total: u64 = 0;
    let mut i: usize = 0;
    assert(v@.take(0) =~= Seq::<char>::empty());
    while i < v.len()
        invariant
            i <= v@.len(),
            total == number_of(v@.take(i as int)),
            total <= max,
            forall|j: int| 0 <= j < i ==> is_digit(#[trigger] v@[j]),
        decreases v.len() - i,
    {
        let c: char = v[i];
        if !('0' <= c && c <= '9') {
            assert(!is_digit(v@[i as int]));
            return None;
        }
        let digit: u64 = (c as u32 - '0' as u32) as u64;
        assert(v@.take(i + 1).drop_last() =~= v@.take(i as int));
        let wide: u128 = total as u128 * 10 + digit as u128;
        assert(wide == number_of(v@.take(i + 1)));
        if wide > max as u128 {
            proof {
                lemma_number_of_monotone(v@, i + 1);
            }
            return None;
        }
        total = wide as u64;
        i += 1;
    }
    assert(v@.take(i as int) =~= v@);
    Some(total)
}

// ---------------------------------------------------------------------------
// Character classes
// ---------------------------------------------------------------------------

/// The characters with the Unicode property White_Space.
pub open spec fn is_space(c: char) -> bool {
    ||| '\u{9}' <= c <= '\u{d}'
    ||| c == ' '
    ||| c == '\u{85}'
    ||| c == '\u{a0}'
    ||| c == '\u{1680}'
    ||| '\u{2000}' <= c <= '\u{200a}'
    ||| c == '\u{2028}'
    ||| c == '\u{2029}'
    ||| c == '\u{202f}'
    ||| c == '\u{205f}'
    ||| c == '\u{3000}'
}

pub fn space(c: char) -> (r: bool)
    ensures
        r == is_space(c),
{
    ('\u{9}' <= c && c <= '\u{d}') || c == ' ' || c == '\u{85}' || c == '\u{a0}' || c == '\u{1680}'
        || ('\u{2000}' <= c && c <= '\u{200a}') || c == '\u{2028}' || c == '\u{2029}' || c
        == '\u{202f}' || c == '\u{205f}' || c == '\u{3000}'
}

pub open spec fn is_alnum(c: char) -> bool {
    ('0' <= c <= '9') || ('a' <= c <= 'z') || ('A' <= c <= 'Z')
}

pub fn alnum(c: char) -> (r: bool)
    ensures
        r == is_alnum(c),
{
    ('0' <= c && c <= '9') || ('a' <= c && c <= 'z') || ('A' <= c && c <= 'Z')
}

/// An ASCII capital letter becomes its small letter, any other character stays.
pub open spec fn lower_char(c: char) -> char {
    if 'A' <= c <= 'Z' {
        (c as u8 + 32) as char
    } else {
        c
    }
}

pub open spec fn ascii_lower(s: Str) -> Str {
    s.map_values(|c: char| lower_char(c))
}

pub fn to_ascii_lower(s: &str) -> (r: String)
    ensures
        r@ == ascii_lower(s@),
{
    let v = chars_of(s);
    let mut out: String = String::new();
    let mut i: usize = 0;
    while i < v.len()
        invariant
            i <= v@.len(),
            out@ == ascii_lower(v@).take(i as int),
        decreases v.len() - i,
    {
        let c: char = v[i];
        if 'A' <= c && c <= 'Z' {
            out.push((c as u8 + 32) as char);
        } else {
            out.push(c);
        }
        assert(ascii_lower(v@).take(i + 1) =~= ascii_lower(v@).take(i as int).push(
            lower_char(v@[i as int]),
        ));
        i += 1;
    }
    assert(ascii_lower(v@).take(i as int) =~= ascii_lower(v@));
    out
}

// ---------------------------------------------------------------------------
// Searching
// ---------------------------------------------------------------------------

/// Whether `part` stands in `s` at position `i`.
pub open spec fn stands_at(s: Str, part: Str, i: int) -> bool {
    0 <= i && i + part.len() <= s.len() && s.subrange(i, i + part.len()) == part
}

/// The first position at or after `i` where `part` stands in `s`.
pub open spec fn find_from(s: Str, part: Str, i: int) -> Option<int>
    decreases s.len() - i + 1,
{
    if i < 0 || i + part.len() > s.len() {
        None
    } else if stands_at(s, part, i) {
        Some(i)
    } else {
        find_from(s, part, i + 1)
    }
}

pub open spec fn find(s: Str, part: Str) -> Option<int> {
    find_from(s, part, 0)
}

pub open spec fn includes(s: Str, part: Str) -> bool {
    find(s, part) is Some
}

pub open spec fn has_prefix(s: Str, part: Str) -> bool {
    stands_at(s, part, 0)
}

pub open spec fn has_suffix(s: Str, part: Str) -> bool {
    stands_at(s, part, s.len() - part.len())
}

pub proof fn lemma_find_from(s: Str, part: Str, i: int)
    requires
        0 <= i,
    ensures
        match find_from(s, part, i) {
            Some(k) => i <= k && stands_at(s, part, k),
            None => true,
        },
    decreases s.len() - i + 1,
{
    if i + part.len() <= s.len() && !stands_at(s, part, i) {
        lemma_find_from(s, part, i + 1);
    }
}

pub fn is_at(v: &Vec<char>, part: &Vec<char>, i: usize) -> (r: bool)
    ensures
        r == stands_at(v@, part@, i as int),
{
    if part.len() > v.len() || i > v.len() - part.len() {
        return false;
    }
    let mut k: usize = 0;
    while k < part.len()
        invariant
            k <= part.len(),
            i + part.len() <= v.len(),
            forall|j: int| 0 <= j < k ==> v@[i + j] == #[trigger] part@[j],
        decreases part.len() - k,
    {
        if v[i + k] != part[k] {
            assert(v@.subrange(i as int, i + part@.len())[k as int] != part@[k as int]);
            return false;
        }
        k += 1;
    }
    assert(v@.subrange(i as int, i + part@.len()) =~= part@);
    true
}

pub fn search(v: &Vec<char>, part: &Vec<char>, from: usize) -> (r: Option<usize>)
    ensures
        match r {
            Some(i) => find_from(v@, part@, from as int) == Some(i as int) && from <= i && i
                + part.len() <= v.len() && stands_at(v@, part@, i as int),
            None => find_from(v@, part@, from as int) is None,
        },
{
    let mut i: usize = from;
    while part.len() <= v.len() && i <= v.len() - part.len()
        invariant
            from <= i,
            find_from(v@, part@, from as int) == find_from(v@, part@, i as int),
            i <= v@.len() + 1 || i == from,
        decreases v.len() + 1 - i,
    {
        if is_at(v, part, i) {
            return Some(i);
        }
        if i == v.len() {
            assert(find_from(v@, part@, i + 1) is None);
            return None;
        }
        i += 1;
    }
    None
}

pub fn position(s: &str, part: &str) -> (r: Option<usize>)
    ensures
        match r {
            Some(i) => find(s@, part@) == Some(i as int) && i + part@.len() <= s@.len(),
            None => find(s@, part@) is None,
        },
{
    search(&chars_of(s), &chars_of(part), 0)
}

pub fn contains(s: &str, part: &str) -> (r: bool)
    ensures
        r == includes(s@, part@),
{
    position(s, part).is_some()
}

pub fn starts_with(s: &str, part: &str) -> (r: bool)
    ensures
        r == has_prefix(s@, part@),
{
    is_at(&chars_of(s), &chars_of(part), 0)
}

pub fn ends_with(s: &str, part: &str) -> (r: bool)
    ensures
        r == has_suffix(s@, part@),
{
    let v = chars_of(s);
    let p = chars_of(part);
    if p.len() > v.len() {
        return false;
    }
    is_at(&v, &p, v.len() - p.len())
}

/// The text from character `from` to the end.
pub fn after(s: &str, from: usize) -> (r: String)
    requires
        from <= s@.len(),
    ensures
        r@ == s@.skip(from as int),
{
    let v = chars_of(s);
    let r = text_of(&v, from, v.len());
    assert(v@.subrange(from as int, v@.len() as int) =~= v@.skip(from as int));
    r
}

/// The first `to` characters of the text.
pub fn before(s: &str, to: usize) -> (r: String)
    requires
        to <= s@.len(),
    ensures
        r@ == s@.take(to as int),
{
    let v = chars_of(s);
    let r = text_of(&v, 0, to);
    assert(v@.subrange(0, to as int) =~= v@.take(to as int));
    r
}

/// What stands before and after the first occurrence of `part`.
pub open spec fn cut(s: Str, part: Str) -> Option<(Str, Str)> {
    match find(s, part) {
        Some(i) => Some((s.take(i), s.skip(i + part.len()))),
        None => None,
    }
}

pub open spec fn pair_view(r: Option<(String, String)>) -> Option<(Str, Str)> {
    match r {
        Some(p) => Some((p.0@, p.1@)),
        None => None,
    }
}

pub fn split_once(s: &str, part: &str) -> (r: Option<(String, String)>)
    ensures
        pair_view(r) == cut(s@, part@),
{
    let v = chars_of(s);
    let p = chars_of(part);
    match search(&v, &p, 0) {
        Some(i) => {
            let left = text_of(&v, 0, i);
            let right = text_of(&v, i + p.len(), v.len());
            assert(v@.subrange(0, i as int) =~= v@.take(i as int));
            assert(v@.subrange(i + p@.len(), v@.len() as int) =~= v@.skip(i + p@.len()));
            Some((left, right))
        },
        None => None,
    }
}

// ---------------------------------------------------------------------------
// Splitting and joining
// ---------------------------------------------------------------------------

/// The views of a vector of strings.
pub open spec fn texts(v: Seq<String>) -> Seq<Str> {
    v.map_values(|s: String| s@)
}

pub proof fn lemma_texts_push(v: Seq<String>, s: String)
    ensures
        texts(v.push(s)) == texts(v).push(s@),
{
    assert(texts(v.push(s)) =~= texts(v).push(s@));
}

/// The pieces of `s` from position `from` on, between the occurrences of a non-empty `separator`.
pub open spec fn split_from(s: Str, separator: Str, from: int) -> Seq<Str>
    decreases s.len() - from,
{
    match find_from(s, separator, from) {
        Some(i) => if from <= i && i + separator.len() > from && i + separator.len() <= s.len() {
            seq![s.subrange(from, i)] + split_from(s, separator, i + separator.len())
        } else {
            seq![s.subrange(from, s.len() as int)]
        },
        None => seq![s.subrange(from, s.len() as int)],
    }
}

/// The pieces of `s` between the occurrences of `separator`. An empty separator stands before
/// and after every character.
pub open spec fn split(s: Str, separator: Str) -> Seq<Str> {
    if separator.len() == 0 {
        seq![Seq::<char>::empty()] + Seq::new(s.len(), |i: int| seq![s[i]]) + seq![
            Seq::<char>::empty(),
        ]
    } else {
        split_from(s, separator, 0)
    }
}

/// All of `parts`, with `separator` between each two.
pub open spec fn join(parts: Seq<Str>, separator: Str) -> Str
    decreases parts.len(),
{
    if parts.len() == 0 {
        Seq::empty()
    } else if parts.len() == 1 {
        parts[0]
    } else {
        join(parts.drop_last(), separator) + separator + parts.last()
    }
}

/// `s` with every occurrence of `old_part`, taken from the left, replaced by `new_part`.
pub open spec fn replaced(s: Str, old_part: Str, new_part: Str) -> Str {
    join(split(s, old_part), new_part)
}

pub fn split_text(s: &str, separator: &str) -> (r: Vec<String>)
    ensures
        texts(r@) == split(s@, separator@),
{
    let v = chars_of(s);
    let p = chars_of(separator);
    let mut out: Vec<String> = Vec::new();
    if p.len() == 0 {
        out.push(String::new());
        let ghost whole_split = split(s@, separator@);
        assert(texts(out@) =~= whole_split.take(1));
        let mut i: usize = 0;
        while i < v.len()
            invariant
                i <= v@.len(),
                whole_split == seq![Seq::<char>::empty()] + Seq::new(v@.len(), |i: int| seq![v@[i]])
                    + seq![Seq::<char>::empty()],
                texts(out@) =~= whole_split.take(i + 1),
            decreases v.len() - i,
        {
            let mut one: String = String::new();
            one.push(v[i]);
            assert(one@ =~= seq![v@[i as int]]);
            let ghost earlier = out@;
            out.push(one);
            proof {
                lemma_texts_push(earlier, one);
            }
            assert(whole_split.take(i + 2) =~= whole_split.take(i + 1).push(seq![v@[i as int]]));
            i += 1;
        }
        let ghost earlier = out@;
        let last: String = String::new();
        assert(last@ =~= Seq::<char>::empty());
        out.push(last);
        proof {
            lemma_texts_push(earlier, last);
        }
        assert(whole_split =~= whole_split.take(v@.len() as int + 1).push(Seq::<char>::empty()));
        return out;
    }
    let mut from: usize = 0;
    let mut next: Option<usize> = search(&v, &p, 0);
    assert(texts(out@) =~= Seq::<Str>::empty());
    while next.is_some()
        invariant
            p@.len() > 0,
            from <= v@.len(),
            texts(out@) + split_from(v@, p@, from as int) == split_from(v@, p@, 0),
            match next {
                Some(i) => find_from(v@, p@, from as int) == Some(i as int) && from <= i && i
                    + p.len() <= v.len(),
                None => find_from(v@, p@, from as int) is None,
            },
        decreases v.len() - from + (if next is Some { 1int } else { 0int }),
    {
        let i: usize = next.unwrap();
        let piece = text_of(&v, from, i);
        let ghost earlier = out@;
        out.push(piece);
        proof {
            lemma_texts_push(earlier, piece);
            assert(texts(earlier) + (seq![piece@] + split_from(v@, p@, i + p@.len())) =~= texts(
                earlier,
            ).push(piece@) + split_from(v@, p@, i + p@.len()));
        }
        from = i + p.len();
        next = search(&v, &p, from);
    }
    let piece = text_of(&v, from, v.len());
    let ghost earlier = out@;
    out.push(piece);
    proof {
        lemma_texts_push(earlier, piece);
        assert(texts(earlier) + seq![piece@] =~= texts(earlier).push(piece@));
    }
    out
}

pub fn join_texts(parts: &Vec<String>, separator: &str) -> (r: String)
    ensures
        r@ == join(texts(parts@), separator@),
{
    let mut out: String = String::new();
    if parts.len() == 0 {
        return out;
    }
    out.append(parts[0].as_str());
    let mut i: usize = 1;
    assert(texts(parts@).take(1) =~= seq![parts@[0]@]);
    assert(out@ =~= parts@[0]@);
    while i < parts.len()
        invariant
            1 <= i <= parts@.len(),
            out@ == join(texts(parts@).take(i as int), separator@),
        decreases parts.len() - i,
    {
        out.append(separator);
        out.append(parts[i].as_str());
        assert(texts(parts@).take(i + 1).drop_last() =~= texts(parts@).take(i as int));
        i += 1;
    }
    assert(texts(parts@).take(i as int) =~= texts(parts@));
    out
}

pub fn replace_text(s: &str, old_part: &str, new_part: &str) -> (r: String)
    ensures
        r@ == replaced(s@, old_part@, new_part@),
{
    join_texts(&split_text(s, old_part), new_part)
}

// ---------------------------------------------------------------------------
// Trimming
// ---------------------------------------------------------------------------

/// The first position at or after `i` that holds no white space, or the end.
pub open spec fn skip_spaces(s: Str, i: int) -> int
    decreases s.len() - i,
{
    if 0 <= i < s.len() && is_space(s[i]) {
        skip_spaces(s, i + 1)
    } else {
        i
    }
}

/// The end of what is left of `s[..i]` without the white space at its end.
pub open spec fn last_end(s: Str, i: int) -> int
    decreases i,
{
    if 0 < i <= s.len() && is_space(s[i - 1]) {
        last_end(s, i - 1)
    } else {
        i
    }
}

pub open spec fn trim_start(s: Str) -> Str {
    s.skip(skip_spaces(s, 0))
}

pub open spec fn trim_end(s: Str) -> Str {
    s.take(last_end(s, s.len() as int))
}

pub open spec fn trim(s: Str) -> Str {
    trim_end(trim_start(s))
}

pub proof fn lemma_skip_spaces(s: Str, i: int)
    requires
        0 <= i <= s.len(),
    ensures
        i <= skip_spaces(s, i) <= s.len(),
    decreases s.len() - i,
{
    if i < s.len() && is_space(s[i]) {
        lemma_skip_spaces(s, i + 1);
    }
}

pub fn spaces_end(v: &Vec<char>, from: usize) -> (r: usize)
    requires
        from <= v@.len(),
    ensures
        r == skip_spaces(v@, from as int),
        from <= r <= v@.len(),
{
    let mut i: usize = from;
    while i < v.len() && space(v[i])
        invariant
            from <= i <= v@.len(),
            skip_spaces(v@, from as int) == skip_spaces(v@, i as int),
        decreases v.len() - i,
    {
        i += 1;
    }
    i
}

pub fn without_leading_spaces(s: &str) -> (r: String)
    ensures
        r@ == trim_start(s@),
{
    let v = chars_of(s);
    let from = spaces_end(&v, 0);
    let r = text_of(&v, from, v.len());
    assert(r@ =~= v@.skip(from as int));
    r
}

pub fn without_trailing_spaces(s: &str) -> (r: String)
    ensures
        r@ == trim_end(s@),
{
    let v = chars_of(s);
    let mut i: usize = v.len();
    while 0 < i && space(v[i - 1])
        invariant
            i <= v@.len(),
            last_end(v@, v@.len() as int) == last_end(v@, i as int),
        decreases i,
    {
        i -= 1;
    }
    let r = text_of(&v, 0, i);
    assert(r@ =~= v@.take(i as int));
    r
}

pub fn trimmed(s: &str) -> (r: String)
    ensures
        r@ == trim(s@),
{
    without_trailing_spaces(without_leading_spaces(s).as_str())
}

/// The end of the run of characters that are no white space, from `i` on.
pub open spec fn word_end(s: Str, i: int) -> int
    decreases s.len() - i,
{
    if 0 <= i < s.len() && !is_space(s[i]) {
        word_end(s, i + 1)
    } else {
        i
    }
}

/// The words of a text from position `i` on, white space between them.
pub open spec fn words_from(s: Str, i: int) -> Seq<Str>
    decreases s.len() - i,
{
    if i < 0 || i >= s.len() {
        Seq::empty()
    } else if is_space(s[i]) {
        words_from(s, i + 1)
    } else {
        let e = word_end(s, i);
        if e <= i || e > s.len() {
            Seq::empty()
        } else {
            seq![s.subrange(i, e)] + words_from(s, e)
        }
    }
}

pub open spec fn words(s: Str) -> Seq<Str> {
    words_from(s, 0)
}

pub fn split_words(s: &str) -> (r: Vec<String>)
    ensures
        texts(r@) == words(s@),
{
    let v = chars_of(s);
    let mut out: Vec<String> = Vec::new();
    let mut i: usize = 0;
    assert(texts(out@) =~= Seq::<Str>::empty());
    assert(texts(out@) + words(v@) =~= words(v@));
    while i < v.len()
        invariant
            i <= v@.len(),
            texts(out@) + words_from(v@, i as int) == words(v@),
        decreases v.len() - i,
    {
        if space(v[i]) {
            i += 1;
        } else {
            let mut e: usize = i;
            while e < v.len() && !space(v[e])
                invariant
                    i <= e <= v@.len(),
                    word_end(v@, i as int) == word_end(v@, e as int),
                decreases v.len() - e,
            {
                e += 1;
            }
            let ghost earlier = out@;
            let ghost rest = words_from(v@, e as int);
            assert(e > i);
            let word = text_of(&v, i, e);
            out.push(word);
            proof {
                lemma_texts_push(earlier, word);
                assert(texts(earlier) + (seq![word@] + rest) =~= texts(out@) + rest);
            }
            i = e;
        }
    }
    assert(texts(out@) + Seq::<Str>::empty() =~= texts(out@));
    out
}

/// The bytes of a text.
pub fn bytes_of(s: &str) -> (r: Vec<u8>)
    ensures
        r@ == encode_utf8(s@),
{
    let bytes = s.as_bytes();
    let mut out: Vec<u8> = Vec::new();
    let mut i: usize = 0;
    while i < bytes.len()
        invariant
            i <= bytes@.len(),
            out@ == bytes@.take(i as int),
        decreases bytes.len() - i,
    {
        out.push(bytes[i]);
        assert(bytes@.take(i + 1) =~= bytes@.take(i as int).push(bytes@[i as int]));
        i += 1;
    }
    assert(bytes@.take(i as int) =~= bytes@);
    out
}

/// Whether every character is a letter or digit or one of `extra`.
pub open spec fn made_of(s: Str, extra: Str) -> bool {
    forall|i: int| 0 <= i < s.len() ==> is_alnum(#[trigger] s[i]) || extra.contains(s[i])
}

pub fn is_made_of(s: &str, extra: &str) -> (r: bool)
    ensures
        r == made_of(s@, extra@),
{
    let v = chars_of(s);
    let others = chars_of(extra);
    let mut i: usize = 0;
    while i < v.len()
        invariant
            i <= v@.len(),
            v@ == s@,
            others@ == extra@,
            forall|k: int| 0 <= k < i ==> is_alnum(#[trigger] v@[k]) || extra@.contains(v@[k]),
        decreases v.len() - i,
    {
        if !alnum(v[i]) && !holds_char(&others, v[i]) {
            return false;
        }
        i += 1;
    }
    true
}

pub fn holds_char(v: &Vec<char>, c: char) -> (r: bool)
    ensures
        r == v@.contains(c),
{
    let mut i: usize = 0;
    while i < v.len()
        invariant
            i <= v@.len(),
            forall|k: int| 0 <= k < i ==> #[trigger] v@[k] != c,
        decreases v.len() - i,
    {
        if v[i] == c {
            return true;
        }
        i += 1;
    }
    false
}

pub fn text_holds(s: &str, c: char) -> (r: bool)
    ensures
        r == s@.contains(c),
{
    holds_char(&chars_of(s), c)
}

pub fn is_blank_text(s: &str) -> (r: bool)
    ensures
        r == (s@.len() == 0),
{
    chars_of(s).len() == 0
}

} // verus!
