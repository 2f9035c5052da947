//! Text and byte-string operations, stated over sequences of characters and bytes.
use vstd::prelude::*;

verus! {

/// Whether `c` has the Unicode property `White_Space`.
pub open spec fn is_white(c: char) -> bool {
    ||| '\u{9}' <= c <= '\u{d}'
    ||| c == ' '
    ||| c == '\u{85}'
    ||| c == '\u{a0}'
    ||| c == '\u{1680}'
    ||| '\u{2000}' <= c <= '\u{200a}'
    ||| c == '\u{2028}'
    ||| c == '\u{2029}'
    ||| c == '\u{202f}'
    ||| c == '\u{205f}'
    ||| c == '\u{3000}'
}

/// `s` without its leading white space.
pub open spec fn trim_start(s: Seq<char>) -> Seq<char>
    decreases s.len(),
{
    if s.len() > 0 && is_white(s[0]) {
        trim_start(s.skip(1))
    } else {
        s
    }
}

/// `s` without its trailing white space.
pub open spec fn trim_end(s: Seq<char>) -> Seq<char>
    decreases s.len(),
{
    if s.len() > 0 && is_white(s.last()) {
        trim_end(s.drop_last())
    } else {
        s
    }
}

/// `s` without leading and trailing white space.
pub open spec fn trimmed(s: Seq<char>) -> Seq<char> {
    trim_end(trim_start(s))
}

/// `s` without the characters `c` at its end.
pub open spec fn trim_end_char(s: Seq<char>, c: char) -> Seq<char>
    decreases s.len(),
{
    if s.len() > 0 && s.last() == c {
        trim_end_char(s.drop_last(), c)
    } else {
        s
    }
}

/// `s` without the characters `c` at its start.
pub open spec fn trim_start_char(s: Seq<char>, c: char) -> Seq<char>
    decreases s.len(),
{
    if s.len() > 0 && s[0] == c {
        trim_start_char(s.skip(1), c)
    } else {
        s
    }
}

/// The number of characters before the first `c` in `s`: all of them where `c` does not occur.
pub open spec fn span(s: Seq<char>, c: char) -> nat
    decreases s.len(),
{
    if s.len() == 0 || s[0] == c {
        0
    } else {
        1 + span(s.skip(1), c)
    }
}

/// The pieces of `s` between the occurrences of `c`, in order: at least one.
pub open spec fn split_on(s: Seq<char>, c: char) -> Seq<Seq<char>>
    decreases s.len(),
{
    if span(s, c) >= s.len() {
        seq![s]
    } else {
        seq![s.take(span(s, c) as int)] + split_on(s.skip(span(s, c) as int + 1), c)
    }
}

/// What stands before and after the first `c` in `s`.
pub open spec fn split_once(s: Seq<char>, c: char) -> Option<(Seq<char>, Seq<char>)> {
    if span(s, c) >= s.len() {
        None
    } else {
        Some((s.take(span(s, c) as int), s.skip(span(s, c) as int + 1)))
    }
}

/// What follows `prefix` in `s`, where `s` starts with it.
pub open spec fn after_prefix(s: Seq<char>, prefix: Seq<char>) -> Option<Seq<char>> {
    if prefix.is_prefix_of(s) {
        Some(s.skip(prefix.len() as int))
    } else {
        None
    }
}

/// `line` without a carriage return at its end.
pub open spec fn without_return(line: Seq<char>) -> Seq<char> {
    if line.len() > 0 && line.last() == '\r' {
        line.drop_last()
    } else {
        line
    }
}

/// The lines of `s`: each ends in a line feed, or in a carriage return and a line feed, which are
/// not part of it; the last one may go without.
pub open spec fn lines_of(s: Seq<char>) -> Seq<Seq<char>>
    decreases s.len(),
{
    if s.len() == 0 {
        Seq::empty()
    } else if span(s, '\n') >= s.len() {
        seq![s]
    } else {
        seq![without_return(s.take(span(s, '\n') as int))] + lines_of(
            s.skip(span(s, '\n') as int + 1),
        )
    }
}

/// `c` in lower case, where it is an ASCII letter.
pub open spec fn ascii_lower(c: char) -> char {
    if 'A' <= c <= 'Z' {
        ((c as u32) + 32) as char
    } else {
        c
    }
}

/// `s` with its ASCII letters in lower case.
pub open spec fn lowercase(s: Seq<char>) -> Seq<char> {
    Seq::new(s.len(), |i: int| ascii_lower(s[i]))
}

/// Whether `a` and `b` differ at most in the case of ASCII letters.
pub open spec fn same_ignoring_case(a: Seq<char>, b: Seq<char>) -> bool {
    lowercase(a) == lowercase(b)
}

/// Whether `a` comes before `b` in the order of code points.
pub open spec fn text_less(a: Seq<char>, b: Seq<char>) -> bool
    decreases a.len(),
{
    if b.len() == 0 {
        false
    } else if a.len() == 0 {
        true
    } else {
        a[0] < b[0] || (a[0] == b[0] && text_less(a.skip(1), b.skip(1)))
    }
}

/// The decimal digits of `n`.
pub open spec fn decimal(n: nat) -> Seq<char>
    decreases n,
{
    if n < 10 {
        seq![(('0' as u32) + n) as char]
    } else {
        decimal(n / 10).push((('0' as u32) + n % 10) as char)
    }
}

/// The bytes of `s` in UTF-8.
pub open spec fn utf8(s: Seq<char>) -> Seq<u8> {
    vstd::utf8::encode_utf8(s)
}

/// The contents of a list of strings.
pub open spec fn texts(list: Seq<String>) -> Seq<Seq<char>> {
    list.map_values(|s: String| s@)
}

/// The content of an optional string.
pub open spec fn opt_text(s: Option<String>) -> Option<Seq<char>> {
    match s {
        Some(s) => Some(s@),
        None => None,
    }
}

/// The content of an optional string slice.
pub open spec fn opt_str(s: Option<&str>) -> Option<Seq<char>> {
    match s {
        Some(s) => Some(s@),
        None => None,
    }
}

/// The order of texts is total: of two different texts one comes first.
pub proof fn text_less_total(a: Seq<char>, b: Seq<char>)
    ensures
        a == b || text_less(a, b) || text_less(b, a),
    decreases a.len(),
{
    if a.len() > 0 && b.len() > 0 {
        text_less_total(a.skip(1), b.skip(1));
        if a[0] == b[0] && a.skip(1) == b.skip(1) {
            assert(a == seq![a[0]] + a.skip(1));
            assert(b == seq![b[0]] + b.skip(1));
        }
    } else {
        assert(a.len() == 0 && b.len() == 0 ==> a == b);
    }
}

/// The order of texts is transitive.
pub proof fn text_less_transitive(a: Seq<char>, b: Seq<char>, c: Seq<char>)
    requires
        text_less(a, b),
        text_less(b, c),
    ensures
        text_less(a, c),
    decreases a.len(),
{
    if a.len() > 0 && a[0] == b[0] && b[0] == c[0] {
        text_less_transitive(a.skip(1), b.skip(1), c.skip(1));
    }
}

/// No text comes before itself.
pub proof fn text_less_irreflexive(a: Seq<char>)
    ensures
        !text_less(a, a),
    decreases a.len(),
{
    if a.len() > 0 {
        text_less_irreflexive(a.skip(1));
    }
}

/// Where `a` is free of `c`, it is what stands before the first `c` in `a`, `c`, `rest`.
pub proof fn span_of_free_prefix(a: Seq<char>, c: char, rest: Seq<char>)
    requires
        !a.contains(c),
    ensures
        span(a + seq![c] + rest, c) == a.len(),
        split_once(a + seq![c] + rest, c) == Some((a, rest)),
    decreases a.len(),
{
    let s = a + seq![c] + rest;
    if a.len() > 0 {
        assert(a.contains(a[0]));
        assert forall|x: char| a.skip(1).contains(x) implies a.contains(x) by {
            let i = choose|i: int| 0 <= i < a.skip(1).len() && a.skip(1)[i] == x;
            assert(a[i + 1] == x);
        }
        span_of_free_prefix(a.skip(1), c, rest);
        assert(s.skip(1) == a.skip(1) + seq![c] + rest);
    }
    assert(s.take(a.len() as int) == a);
    assert(s.skip(a.len() as int + 1) == rest);
}

/// Where `c` does not occur in `a`, all of `a` stands before the first `c`.
pub proof fn span_of_free(a: Seq<char>, c: char)
    requires
        !a.contains(c),
    ensures
        span(a, c) == a.len(),
    decreases a.len(),
{
    if a.len() > 0 {
        assert(a.contains(a[0]));
        assert forall|x: char| a.skip(1).contains(x) implies a.contains(x) by {
            let i = choose|i: int| 0 <= i < a.skip(1).len() && a.skip(1)[i] == x;
            assert(a[i + 1] == x);
        }
        span_of_free(a.skip(1), c);
    }
}

/// At most all characters stand before the first `c`.
pub proof fn span_at_most(s: Seq<char>, c: char)
    ensures
        span(s, c) <= s.len(),
    decreases s.len(),
{
    if s.len() > 0 {
        span_at_most(s.skip(1), c);
    }
}

/// A text that is not empty has bytes.
pub proof fn utf8_nonempty(s: Seq<char>)
    requires
        s.len() > 0,
    ensures
        utf8(s).len() > 0,
{
    vstd::utf8::encode_utf8_decode_utf8(s);
    if utf8(s).len() == 0 {
        assert(vstd::utf8::decode_utf8(utf8(s)).len() == 0);
    }
}

/// A character is one byte of its own where it is ASCII, and bytes beyond ASCII where it is not.
proof fn lemma_scalar_bytes(c: u32, i: int)
    requires
        0 <= i < vstd::utf8::encode_scalar(c).len(),
    ensures
        c < 128 ==> vstd::utf8::encode_scalar(c) == seq![c as u8],
        c >= 128 ==> vstd::utf8::encode_scalar(c)[i] >= 128,
{
    assert(c < 128 ==> (c & 0x7F) as u8 == c as u8) by (bit_vector);
    let a = ((c >> 6) & 0x1F) as u8;
    let b = ((c >> 12) & 0x0F) as u8;
    let d = ((c >> 18) & 0x7) as u8;
    let x = (c & 0x3F) as u8;
    let y = ((c >> 6) & 0x3F) as u8;
    let z = ((c >> 12) & 0x3F) as u8;
    assert(0xC0u8 | a >= 128) by (bit_vector);
    assert(0xE0u8 | b >= 128) by (bit_vector);
    assert(0xF0u8 | d >= 128) by (bit_vector);
    assert(0x80u8 | x >= 128) by (bit_vector);
    assert(0x80u8 | y >= 128) by (bit_vector);
    assert(0x80u8 | z >= 128) by (bit_vector);
}

/// The bytes of a text without an ASCII character are without its byte.
pub proof fn utf8_of_free(s: Seq<char>, c: char)
    requires
        (c as u32) < 128,
        forall|i: int| 0 <= i < s.len() ==> #[trigger] s[i] != c,
    ensures
        forall|i: int| 0 <= i < utf8(s).len() ==> #[trigger] utf8(s)[i] != c as u8,
    decreases s.len(),
{
    if s.len() > 0 {
        let rest = s.drop_first();
        let first = vstd::utf8::encode_scalar(s[0] as u32);
        assert forall|i: int| 0 <= i < rest.len() implies #[trigger] rest[i] != c by {
            assert(rest[i] == s[i + 1]);
        }
        utf8_of_free(rest, c);
        assert forall|i: int| 0 <= i < utf8(s).len() implies #[trigger] utf8(s)[i] != c as u8 by {
            if i < first.len() {
                lemma_scalar_bytes(s[0] as u32, i);
                assert(utf8(s)[i] == first[i]);
                assert(s[0] != c);
                let u = s[0] as u32;
                let v = c as u32;
                vstd::utf8::char_u32_cast(s[0], u);
                vstd::utf8::char_u32_cast(c, v);
                assert(u != v);
            } else {
                assert(utf8(s)[i] == utf8(rest)[i - first.len()]);
            }
        }
    }
}

/// The UTF-8 of two texts, one after the other, is that of the one and then that of the other.
pub proof fn utf8_joined(a: Seq<char>, b: Seq<char>)
    ensures
        utf8(a + b) == utf8(a) + utf8(b),
    decreases a.len(),
{
    if a.len() == 0 {
        assert(a + b == b);
        assert(utf8(a) + utf8(b) == utf8(b));
    } else {
        let rest = a.drop_first();
        utf8_joined(rest, b);
        assert((a + b).drop_first() == rest + b);
        assert((a + b)[0] == a[0]);
        let first = vstd::utf8::encode_scalar(a[0] as u32);
        assert(utf8(a) == first + utf8(rest));
        assert(utf8(a + b) == first + utf8(rest + b));
        assert((first + utf8(rest)) + utf8(b) == first + (utf8(rest) + utf8(b)));
    }
}

/// What `trim_end` leaves is a start of the text, and all of it up to a character that is no white
/// space.
pub proof fn trim_end_keeps(s: Seq<char>, n: int)
    requires
        0 < n <= s.len(),
        !is_white(s[n - 1]),
    ensures
        n <= trim_end(s).len() <= s.len(),
        trim_end(s) == s.take(trim_end(s).len() as int),
    decreases s.len(),
{
    if is_white(s.last()) {
        trim_end_keeps(s.drop_last(), n);
        assert(s.drop_last().take(trim_end(s).len() as int) == s.take(trim_end(s).len() as int));
    } else {
        assert(s.take(s.len() as int) == s);
    }
}

/// The first `c` stands behind a start of the text in which it does not occur.
pub proof fn span_at_least(s: Seq<char>, c: char, n: int)
    requires
        0 <= n <= s.len(),
        forall|i: int| 0 <= i < n ==> #[trigger] s[i] != c,
    ensures
        n <= span(s, c),
    decreases n,
{
    if n > 0 {
        let rest = s.skip(1);
        assert forall|i: int| 0 <= i < n - 1 implies #[trigger] rest[i] != c by {
            assert(rest[i] == s[i + 1]);
        }
        span_at_least(rest, c, n - 1);
        assert(s[0] != c);
    }
}

/// The bytes of a text that starts with an ASCII character start with its byte.
pub proof fn utf8_starts(c: char, rest: Seq<char>)
    requires
        (c as u32) < 128,
    ensures
        utf8(seq![c] + rest) == seq![c as u8] + utf8(rest),
{
    let s = seq![c] + rest;
    assert(s.drop_first() == rest);
    lemma_scalar_bytes(c as u32, 0);
}

/// `String::push` appends the character to the string.
pub assume_specification[ String::push ](s: &mut String, c: char)
    ensures
        final(s)@ == old(s)@.push(c),
;

/// The characters of `s`.
pub fn chars_of(s: &str) -> (r: Vec<char>)
    ensures
        r@ == s@,
{
    let mut r: Vec<char> = Vec::new();
    for c in it: s.chars()
        invariant
            it.seq() == s@,
            r@ == s@.take(it.index() as int),
    {
        r.push(c);
    }
    r
}

/// The string of the characters `from..to` of `v`.
pub fn string_of(v: &Vec<char>, from: usize, to: usize) -> (r: String)
    requires
        from <= to <= v@.len(),
    ensures
        r@ == v@.subrange(from as int, to as int),
{
    let mut r: String = String::new();
    let mut i: usize = from;
    while i < to
        invariant
            from <= i <= to <= v@.len(),
            r@ == v@.subrange(from as int, i as int),
        decreases to - i,
    {
        r.push(v[i]);
        i += 1;
    }
    r
}

/// Whether `a` and `b` are the same bytes.
pub fn same_bytes(a: &[u8], b: &[u8]) -> (r: bool)
    ensures
        r == (a@ == b@),
{
    if a.len() != b.len() {
        return false;
    }
    let mut i: usize = 0;
    while i < a.len()
        invariant
            i <= a@.len() == b@.len(),
            a@.take(i as int) == b@.take(i as int),
        decreases a.len() - i,
    {
        if a[i] != b[i] {
            return false;
        }
        assert(a@.take(i + 1) == a@.take(i as int).push(a@[i as int]));
        assert(b@.take(i + 1) == b@.take(i as int).push(b@[i as int]));
        i += 1;
    }
    assert(a@.take(i as int) == a@);
    assert(b@.take(i as int) == b@);
    true
}

/// Whether `a` and `b` hold the same characters.
pub fn same_text(a: &str, b: &str) -> (r: bool)
    ensures
        r == (a@ == b@),
{
    proof {
        vstd::utf8::encode_utf8_decode_utf8(a@);
        vstd::utf8::encode_utf8_decode_utf8(b@);
    }
    same_bytes(a.as_bytes(), b.as_bytes())
}

/// Whether `s` starts with `prefix`.
pub fn starts_with(s: &str, prefix: &str) -> (r: bool)
    ensures
        r == prefix@.is_prefix_of(s@),
{
    let mut left = s.chars();
    let mut right = prefix.chars();
    let ghost mut n: int = 0;
    loop
        invariant
            0 <= n <= prefix@.len(),
            n <= s@.len(),
            vstd::std_specs::iter::IteratorSpec::remaining(&left) == s@.skip(n),
            vstd::std_specs::iter::IteratorSpec::remaining(&right) == prefix@.skip(n),
            s@.take(n) == prefix@.take(n),
        decreases prefix@.len() - n,
    {
        match right.next() {
            None => {
                assert(prefix@ == prefix@.take(n));
                assert(s@.subrange(0, n) == s@.take(n));
                return true;
            },
            Some(y) => match left.next() {
                None => {
                    return false;
                },
                Some(x) => {
                    if x != y {
                        assert(s@[n] != prefix@[n]);
                        return false;
                    }
                    proof {
                        assert(s@.take(n + 1) == s@.take(n).push(x));
                        assert(prefix@.take(n + 1) == prefix@.take(n).push(y));
                        n = n + 1;
                    }
                },
            },
        }
    }
}

/// Whether `c` has the Unicode property `White_Space`.
pub fn is_white_char(c: char) -> (r: bool)
    ensures
        r == is_white(c),
{
    ('\u{9}' <= c && c <= '\u{d}') || c == ' ' || c == '\u{85}' || c == '\u{a0}' || c == '\u{1680}'
        || ('\u{2000}' <= c && c <= '\u{200a}') || c == '\u{2028}' || c == '\u{2029}' || c
        == '\u{202f}' || c == '\u{205f}' || c == '\u{3000}'
}

/// `s` without leading and trailing white space.
pub fn trim(s: &str) -> (r: String)
    ensures
        r@ == trimmed(s@),
{
    let v: Vec<char> = chars_of(s);
    let mut from: usize = 0;
    assert(v@.skip(0) == v@);
    while from < v.len() && is_white_char(v[from])
        invariant
            from <= v@.len(),
            trim_start(v@.skip(from as int)) == trim_start(v@),
        decreases v@.len() - from,
    {
        assert(v@.skip(from as int).skip(1) == v@.skip(from + 1));
        from += 1;
    }
    let mut to: usize = v.len();
    assert(v@.subrange(from as int, to as int) == v@.skip(from as int));
    while from < to && is_white_char(v[to - 1])
        invariant
            from <= to <= v@.len(),
            trim_end(v@.subrange(from as int, to as int)) == trimmed(v@),
        decreases to - from,
    {
        assert(v@.subrange(from as int, to as int).drop_last() == v@.subrange(
            from as int,
            to - 1,
        ));
        to -= 1;
    }
    string_of(&v, from, to)
}

/// `s` without the characters `c` at its end.
pub fn trim_end_of(s: &str, c: char) -> (r: String)
    ensures
        r@ == trim_end_char(s@, c),
{
    let v: Vec<char> = chars_of(s);
    let mut to: usize = v.len();
    assert(v@.take(to as int) == v@);
    while 0 < to && v[to - 1] == c
        invariant
            to <= v@.len(),
            trim_end_char(v@.take(to as int), c) == trim_end_char(v@, c),
        decreases to,
    {
        assert(v@.take(to as int).drop_last() == v@.take(to - 1));
        to -= 1;
    }
    assert(v@.subrange(0, to as int) == v@.take(to as int));
    string_of(&v, 0, to)
}

/// `s` without the characters `c` at its start and at its end.
pub fn trim_of(s: &str, c: char) -> (r: String)
    ensures
        r@ == trim_end_char(trim_start_char(s@, c), c),
{
    let v: Vec<char> = chars_of(s);
    let mut from: usize = 0;
    assert(v@.skip(0) == v@);
    while from < v.len() && v[from] == c
        invariant
            from <= v@.len(),
            trim_start_char(v@.skip(from as int), c) == trim_start_char(v@, c),
        decreases v@.len() - from,
    {
        assert(v@.skip(from as int).skip(1) == v@.skip(from + 1));
        from += 1;
    }
    assert(v@.subrange(from as int, v@.len() as int) == v@.skip(from as int));
    let rest: String = string_of(&v, from, v.len());
    trim_end_of(rest.as_str(), c)
}

/// What follows `prefix` in `s`, where `s` starts with it.
pub fn strip_prefix(s: &str, prefix: &str) -> (r: Option<String>)
    ensures
        opt_text(r) == after_prefix(s@, prefix@),
{
    if starts_with(s, prefix) {
        let v: Vec<char> = chars_of(s);
        let p: Vec<char> = chars_of(prefix);
        assert(v@.subrange(p@.len() as int, v@.len() as int) == s@.skip(prefix@.len() as int));
        Some(string_of(&v, p.len(), v.len()))
    } else {
        None
    }
}

/// The first occurrence of `c` in `v` at or after `from`, or the length of `v`.
fn find_char(v: &Vec<char>, from: usize, c: char) -> (r: usize)
    requires
        from <= v@.len(),
    ensures
        from <= r <= v@.len(),
        r - from == span(v@.skip(from as int), c),
        r < v@.len() ==> v@[r as int] == c,
{
    let mut i: usize = from;
    while i < v.len() && v[i] != c
        invariant
            from <= i <= v@.len(),
            span(v@.skip(from as int), c) == i - from + span(v@.skip(i as int), c),
        decreases v@.len() - i,
    {
        assert(v@.skip(i as int).skip(1) == v@.skip(i + 1));
        i += 1;
    }
    i
}

/// The pieces of `s` between the occurrences of `c`.
pub fn split(s: &str, c: char) -> (r: Vec<String>)
    ensures
        texts(r@) == split_on(s@, c),
{
    let v: Vec<char> = chars_of(s);
    let mut r: Vec<String> = Vec::new();
    let mut from: usize = 0;
    assert(v@.skip(0) == v@);
    assert(texts(r@) + split_on(s@, c) == split_on(s@, c));
    loop
        invariant
            from <= v@.len(),
            v@ == s@,
            split_on(s@, c) == texts(r@) + split_on(v@.skip(from as int), c),
        decreases v@.len() - from,
    {
        let to: usize = find_char(&v, from, c);
        let piece: String = string_of(&v, from, to);
        let ghost before = r@;
        let ghost rest = v@.skip(from as int);
        assert(piece@ == rest.take(span(rest, c) as int));
        r.push(piece);
        assert(texts(r@) == texts(before).push(piece@));
        if to == v.len() {
            assert(piece@ == rest);
            assert(split_on(rest, c) == seq![rest]);
            assert(texts(r@) == texts(before) + seq![rest]);
            return r;
        }
        assert(rest.skip(span(rest, c) as int + 1) == v@.skip(to + 1));
        from = to + 1;
        assert(texts(before) + (seq![piece@] + split_on(v@.skip(from as int), c)) == texts(r@)
            + split_on(v@.skip(from as int), c));
    }
}

/// What stands before and after the first `c` in `s`.
pub fn split_at_first(s: &str, c: char) -> (r: Option<(String, String)>)
    ensures
        match r {
            Some((a, b)) => split_once(s@, c) == Some((a@, b@)),
            None => split_once(s@, c) is None,
        },
{
    let v: Vec<char> = chars_of(s);
    assert(v@.skip(0) == v@);
    let to: usize = find_char(&v, 0, c);
    if to == v.len() {
        None
    } else {
        assert(v@.subrange(0, to as int) == v@.take(to as int));
        assert(v@.subrange(to + 1, v@.len() as int) == v@.skip(to + 1));
        Some((string_of(&v, 0, to), string_of(&v, to + 1, v.len())))
    }
}

/// The lines of `s`.
pub fn lines(s: &str) -> (r: Vec<String>)
    ensures
        texts(r@) == lines_of(s@),
{
    let v: Vec<char> = chars_of(s);
    let mut r: Vec<String> = Vec::new();
    let mut from: usize = 0;
    assert(v@.skip(0) == v@);
    assert(texts(r@) + lines_of(s@) == lines_of(s@));
    while from < v.len()
        invariant
            from <= v@.len(),
            v@ == s@,
            lines_of(s@) == texts(r@) + lines_of(v@.skip(from as int)),
        decreases v@.len() - from,
    {
        let to: usize = find_char(&v, from, '\n');
        let ghost before = r@;
        let ghost rest = v@.skip(from as int);
        if to == v.len() {
            let piece: String = string_of(&v, from, to);
            assert(piece@ == rest);
            r.push(piece);
            assert(texts(r@) == texts(before).push(piece@));
            assert(texts(r@) == texts(before) + seq![rest]);
            return r;
        }
        assert(v@.subrange(from as int, to as int) == rest.take(span(rest, '\n') as int));
        let end: usize = if from < to && v[to - 1] == '\r' {
            to - 1
        } else {
            to
        };
        let piece: String = string_of(&v, from, end);
        assert(piece@ == without_return(rest.take(span(rest, '\n') as int)));
        r.push(piece);
        assert(texts(r@) == texts(before).push(piece@));
        assert(rest.skip(span(rest, '\n') as int + 1) == v@.skip(to + 1));
        from = to + 1;
        assert(texts(before) + (seq![piece@] + lines_of(v@.skip(from as int))) == texts(r@)
            + lines_of(v@.skip(from as int)));
    }
    assert(texts(r@) + Seq::<Seq<char>>::empty() == texts(r@));
    r
}

/// `c` in lower case, where it is an ASCII letter.
pub fn lower_char(c: char) -> (r: char)
    ensures
        r == ascii_lower(c),
{
    if 'A' <= c && c <= 'Z' {
        ((c as u8) + 32) as char
    } else {
        c
    }
}

/// `s` with its ASCII letters in lower case.
pub fn to_lowercase(s: &str) -> (r: String)
    ensures
        r@ == lowercase(s@),
{
    let v: Vec<char> = chars_of(s);
    let mut r: String = String::new();
    let mut i: usize = 0;
    while i < v.len()
        invariant
            i <= v@.len(),
            r@ == lowercase(v@).take(i as int),
        decreases v@.len() - i,
    {
        r.push(lower_char(v[i]));
        i += 1;
    }
    r
}

/// Whether `a` and `b` differ at most in the case of ASCII letters.
pub fn equal_ignoring_case(a: &str, b: &str) -> (r: bool)
    ensures
        r == same_ignoring_case(a@, b@),
{
    let x: String = to_lowercase(a);
    let y: String = to_lowercase(b);
    x == y
}

/// Whether `a` comes before `b` in the order of code points.
pub fn is_before(a: &str, b: &str) -> (r: bool)
    ensures
        r == text_less(a@, b@),
{
    let x: Vec<char> = chars_of(a);
    let y: Vec<char> = chars_of(b);
    let mut i: usize = 0;
    assert(x@.skip(0) == x@);
    assert(y@.skip(0) == y@);
    while i < x.len() && i < y.len() && x[i] == y[i]
        invariant
            i <= x@.len(),
            i <= y@.len(),
            text_less(x@, y@) == text_less(x@.skip(i as int), y@.skip(i as int)),
        decreases x@.len() - i,
    {
        assert(x@.skip(i as int).skip(1) == x@.skip(i + 1));
        assert(y@.skip(i as int).skip(1) == y@.skip(i + 1));
        i += 1;
    }
    if i == y.len() {
        false
    } else if i == x.len() {
        true
    } else {
        x[i] < y[i]
    }
}

/// `s` followed by `t`.
pub fn joined(s: &str, t: &str) -> (r: String)
    ensures
        r@ == s@ + t@,
{
    let mut r: String = s.to_owned();
    r.append(t);
    r
}

/// The decimal digits of `n`.
pub fn decimal_text(n: u64) -> (r: String)
    ensures
        r@ == decimal(n as nat),
    decreases n,
{
    let digit: char = (48u8 + (n % 10) as u8) as char;
    let mut r: String = if n < 10 {
        String::new()
    } else {
        decimal_text(n / 10)
    };
    r.push(digit);
    assert(n < 10 ==> r@ == seq![digit]);
    r
}

} // verus!
