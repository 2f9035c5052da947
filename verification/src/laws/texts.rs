//! What holds of texts.
use crate::gateway::multipart;
use crate::text;
use vstd::prelude::*;

verus! {

/// Whether `s` is nothing but white space.
pub open spec fn is_blank(s: Seq<char>) -> bool {
    forall|i: int| 0 <= i < s.len() ==> text::is_white(#[trigger] s[i])
}

/// What `trim_start` takes away is white space.
proof fn lemma_trim_start(s: Seq<char>)
    ensures
        ({
            let kept = text::trim_start(s);
            let n = s.len() - kept.len();
            &&& 0 <= n
            &&& s == s.take(n) + kept
            &&& is_blank(s.take(n))
            &&& kept.len() > 0 ==> !text::is_white(kept[0])
        }),
    decreases s.len(),
{
    let kept = text::trim_start(s);
    if s.len() > 0 && text::is_white(s[0]) {
        let rest = s.skip(1);
        lemma_trim_start(rest);
        let n = s.len() - kept.len();
        assert(s.take(n) =~= seq![s[0]] + rest.take(n - 1));
        assert(s =~= seq![s[0]] + rest);
        assert(s =~= s.take(n) + kept);
        assert forall|i: int| 0 <= i < s.take(n).len() implies text::is_white(
            #[trigger] s.take(n)[i],
        ) by {
            if i > 0 {
                assert(s.take(n)[i] == rest.take(n - 1)[i - 1]);
            }
        }
    } else {
        assert(s =~= s.take(0) + s);
    }
}

/// What `trim_end` takes away is white space.
proof fn lemma_trim_end(s: Seq<char>)
    ensures
        ({
            let kept = text::trim_end(s);
            &&& kept.len() <= s.len()
            &&& s == kept + s.skip(kept.len() as int)
            &&& is_blank(s.skip(kept.len() as int))
            &&& kept.len() > 0 ==> !text::is_white(kept.last())
        }),
    decreases s.len(),
{
    let kept = text::trim_end(s);
    let n = kept.len() as int;
    if s.len() > 0 && text::is_white(s.last()) {
        let rest = s.drop_last();
        lemma_trim_end(rest);
        assert(s =~= rest.push(s.last()));
        assert(s.skip(n) =~= rest.skip(n).push(s.last()));
        assert(s =~= kept + s.skip(n));
        assert forall|i: int| 0 <= i < s.skip(n).len() implies text::is_white(
            #[trigger] s.skip(n)[i],
        ) by {
            if i < rest.skip(n).len() {
                assert(s.skip(n)[i] == rest.skip(n)[i]);
            }
        }
    } else {
        assert(s.skip(n) =~= Seq::<char>::empty());
        assert(s =~= s + s.skip(n));
    }
}

/// Trimming takes white space from both ends, all of it and nothing else.
pub proof fn trimming_takes_white_space_only(s: Seq<char>)
    ensures
        exists|before: Seq<char>, after: Seq<char>|
            is_blank(before) && is_blank(after) && s == #[trigger] (before + text::trimmed(s)
                + after),
        text::trimmed(s).len() > 0 ==> !text::is_white(text::trimmed(s)[0]) && !text::is_white(
            text::trimmed(s).last(),
        ),
{
    let mid = text::trim_start(s);
    lemma_trim_start(s);
    lemma_trim_end(mid);
    let kept = text::trimmed(s);
    let before = s.take(s.len() - mid.len());
    let after = mid.skip(kept.len() as int);
    assert(s =~= before + kept + after);
    if kept.len() > 0 {
        assert(kept[0] == mid[0]);
    }
}

/// Which characters of ASCII are white space: the space, the tab and the ends of lines and pages.
pub proof fn printable_characters_are_no_white_space(c: char)
    ensures
        '!' <= c <= '~' ==> !text::is_white(c),
        c == ' ' || c == '\t' || c == '\n' || c == '\r' ==> text::is_white(c),
{
}

/// The pieces with `c` between them.
pub open spec fn joined(pieces: Seq<Seq<char>>, c: char) -> Seq<char>
    decreases pieces.len(),
{
    if pieces.len() == 0 {
        Seq::empty()
    } else if pieces.len() == 1 {
        pieces[0]
    } else {
        pieces[0] + seq![c] + joined(pieces.skip(1), c)
    }
}

/// The characters before the first `c`.
proof fn lemma_span(s: Seq<char>, c: char)
    ensures
        text::span(s, c) <= s.len(),
        forall|i: int| 0 <= i < text::span(s, c) ==> #[trigger] s[i] != c,
        text::span(s, c) < s.len() ==> s[text::span(s, c) as int] == c,
    decreases s.len(),
{
    if s.len() > 0 && s[0] != c {
        let rest = s.skip(1);
        lemma_span(rest, c);
        assert forall|i: int| 0 <= i < text::span(s, c) implies #[trigger] s[i] != c by {
            if i > 0 {
                assert(s[i] == rest[i - 1]);
            }
        }
    }
}

/// The pieces of a text hold the character that it is split at nowhere, and with it between them
/// they make the text again.
pub proof fn pieces_make_the_text_again(s: Seq<char>, c: char)
    ensures
        text::split_on(s, c).len() > 0,
        joined(text::split_on(s, c), c) == s,
        forall|i: int|
            0 <= i < text::split_on(s, c).len() ==> !(#[trigger] text::split_on(s, c)[i]).contains(
                c,
            ),
    decreases s.len(),
{
    let pieces = text::split_on(s, c);
    let n = text::span(s, c) as int;
    lemma_span(s, c);
    if n >= s.len() {
        assert(pieces == seq![s]);
        assert(!s.contains(c)) by {
            if s.contains(c) {
                let i = choose|i: int| 0 <= i < s.len() && s[i] == c;
                assert(s[i] != c);
            }
        }
    } else {
        let rest = s.skip(n + 1);
        pieces_make_the_text_again(rest, c);
        let others = text::split_on(rest, c);
        assert(pieces =~= seq![s.take(n)] + others);
        assert(pieces.skip(1) =~= others);
        assert(s =~= s.take(n) + seq![c] + rest);
        assert(!s.take(n).contains(c)) by {
            if s.take(n).contains(c) {
                let i = choose|i: int| 0 <= i < n && s.take(n)[i] == c;
                assert(s[i] != c);
            }
        }
        assert forall|i: int| 0 <= i < pieces.len() implies !(#[trigger] pieces[i]).contains(c) by {
            if i > 0 {
                assert(pieces[i] == others[i - 1]);
            }
        }
    }
}

/// The order of texts is that of the first character in which they differ; a text comes before one
/// that goes on where it ends.
pub proof fn first_difference_decides(
    start: Seq<char>,
    a: char,
    b: char,
    a_rest: Seq<char>,
    b_rest: Seq<char>,
)
    ensures
        a < b ==> text::text_less(start + seq![a] + a_rest, start + seq![b] + b_rest),
        text::text_less(start, start + seq![b] + b_rest),
    decreases start.len(),
{
    let x = start + seq![a] + a_rest;
    let y = start + seq![b] + b_rest;
    if start.len() > 0 {
        let less = start.skip(1);
        first_difference_decides(less, a, b, a_rest, b_rest);
        assert(x.skip(1) =~= less + seq![a] + a_rest);
        assert(y.skip(1) =~= less + seq![b] + b_rest);
        assert(x[0] == start[0] && y[0] == start[0]);
    } else {
        assert(x[0] == a && y[0] == b);
    }
}

/// The number that digits stand for.
pub open spec fn number(digits: Seq<char>) -> int
    decreases digits.len(),
{
    if digits.len() == 0 {
        0
    } else {
        10 * number(digits.drop_last()) + (digits.last() as int - '0' as int)
    }
}

/// A number is written in the digits that stand for it, with none too many.
pub proof fn number_is_written_in_its_digits(n: nat)
    ensures
        number(text::decimal(n)) == n,
        text::decimal(n).len() > 0,
        forall|i: int| 0 <= i < text::decimal(n).len() ==> '0' <= #[trigger] text::decimal(n)[i] <= '9',
        n > 0 ==> text::decimal(n)[0] != '0',
    decreases n,
{
    let digits = text::decimal(n);
    let last = n % 10;
    let c = (('0' as u32) + last) as char;
    assert(48 <= ('0' as u32) + last <= 57);
    assert(c as int == 48 + last);
    if n < 10 {
        assert(digits.drop_last() =~= Seq::<char>::empty());
        assert(number(Seq::<char>::empty()) == 0);
    } else {
        number_is_written_in_its_digits(n / 10);
        assert(digits.drop_last() =~= text::decimal(n / 10));
        assert(n == 10 * (n / 10) + n % 10);
        assert forall|i: int| 0 <= i < digits.len() implies '0' <= #[trigger] digits[i] <= '9' by {
            if i < digits.len() - 1 {
                assert(digits[i] == text::decimal(n / 10)[i]);
            }
        }
        assert(digits[0] == text::decimal(n / 10)[0]);
    }
}

/// In lower case, a text has the small letters for the large ones of ASCII, and is the same
/// otherwise.
pub proof fn only_large_letters_change(s: Seq<char>, i: int)
    requires
        0 <= i < s.len(),
    ensures
        text::lowercase(s).len() == s.len(),
        'A' <= s[i] <= 'Z' ==> text::lowercase(s)[i] as int == s[i] as int + 32,
        !('A' <= s[i] <= 'Z') ==> text::lowercase(s)[i] == s[i],
{
}

/// A line ends where a line feed stands, and a carriage return before it belongs to the end.
pub proof fn lines_end_at_line_feeds(line: Seq<char>, rest: Seq<char>)
    requires
        !line.contains('\n'),
    ensures
        text::lines_of(line + seq!['\r', '\n'] + rest) == seq![line] + text::lines_of(rest),
        line.len() == 0 || line.last() != '\r' ==> text::lines_of(line + seq!['\n'] + rest) == seq![
            line,
        ] + text::lines_of(rest),
        line.len() > 0 ==> text::lines_of(line) == seq![line],
{
    let before = line + seq!['\r'];
    assert(!before.contains('\n')) by {
        if before.contains('\n') {
            let j = choose|j: int| 0 <= j < before.len() && before[j] == '\n';
            assert(line[j] == '\n');
        }
    }
    let all = before + seq!['\n'] + rest;
    assert(line + seq!['\r', '\n'] + rest =~= all);
    text::span_of_free_prefix(before, '\n', rest);
    assert(all.take(before.len() as int) =~= before);
    assert(all.skip(before.len() as int + 1) =~= rest);
    assert(text::without_return(before) =~= line);
    let short = line + seq!['\n'] + rest;
    text::span_of_free_prefix(line, '\n', rest);
    assert(short.take(line.len() as int) =~= line);
    assert(short.skip(line.len() as int + 1) =~= rest);
    text::span_of_free(line, '\n');
}

/// The type of an image is the one that its first bytes show, and unknown where they show none.
pub proof fn image_type_is_shown_by_the_first_bytes(data: Seq<u8>)
    ensures
        ({
            let starts = |bytes: Seq<u8>| data.len() >= bytes.len() && data.take(bytes.len() as int)
                == bytes;
            let png = starts(seq![0x89u8, 0x50, 0x4e, 0x47, 0x0d, 0x0a, 0x1a, 0x0a]);
            let jpeg = starts(seq![0xffu8, 0xd8, 0xff]);
            let gif = starts(seq![71u8, 73, 70, 56, 55, 97]) || starts(
                seq![71u8, 73, 70, 56, 57, 97],
            );
            let webp = starts(seq![82u8, 73, 70, 70]) && data.len() >= 12 && data.subrange(8, 12)
                == seq![87u8, 69, 66, 80];
            &&& png ==> multipart::image_mime(data) == "image/png"@
            &&& jpeg ==> multipart::image_mime(data) == "image/jpeg"@
            &&& gif ==> multipart::image_mime(data) == "image/gif"@
            &&& webp ==> multipart::image_mime(data) == "image/webp"@
            &&& !png && !jpeg && !gif && !webp ==> multipart::image_mime(data)
                == "application/octet-stream"@
        }),
{
    reveal_strlit("GIF87a");
    reveal_strlit("GIF89a");
    reveal_strlit("RIFF");
    reveal_strlit("WEBP");
    assert("GIF87a"@ =~= seq!['G', 'I', 'F', '8', '7', 'a']);
    assert("GIF89a"@ =~= seq!['G', 'I', 'F', '8', '9', 'a']);
    assert("RIFF"@ =~= seq!['R', 'I', 'F', 'F']);
    assert("WEBP"@ =~= seq!['W', 'E', 'B', 'P']);
    lemma_ascii6("GIF87a"@, 'G', 'I', 'F', '8', '7', 'a');
    lemma_ascii6("GIF89a"@, 'G', 'I', 'F', '8', '9', 'a');
    lemma_ascii4("RIFF"@, 'R', 'I', 'F', 'F');
    lemma_ascii4("WEBP"@, 'W', 'E', 'B', 'P');
    let png = seq![0x89u8, 0x50, 0x4e, 0x47, 0x0d, 0x0a, 0x1a, 0x0a];
    let jpeg = seq![0xffu8, 0xd8, 0xff];
    let a = seq![71u8, 73, 70, 56, 55, 97];
    let b = seq![71u8, 73, 70, 56, 57, 97];
    let c = seq![82u8, 73, 70, 70];
    assert(multipart::png_start() =~= png);
    assert(multipart::jpeg_start() =~= jpeg);
    assert(text::utf8("GIF87a"@) =~= a);
    assert(text::utf8("GIF89a"@) =~= b);
    assert(text::utf8("RIFF"@) =~= c);
    assert(text::utf8("WEBP"@) =~= seq![87u8, 69, 66, 80]);
    lemma_start(data, png);
    lemma_start(data, jpeg);
    lemma_start(data, a);
    lemma_start(data, b);
    lemma_start(data, c);
}

/// What data start with.
proof fn lemma_start(data: Seq<u8>, bytes: Seq<u8>)
    requires
        bytes.len() > 0,
    ensures
        bytes.is_prefix_of(data) == (data.len() >= bytes.len() && data.take(bytes.len() as int)
            == bytes),
        bytes.is_prefix_of(data) ==> data[0] == bytes[0],
{
    if data.len() >= bytes.len() && data.take(bytes.len() as int) == bytes {
        assert(data.take(bytes.len() as int)[0] == bytes[0]);
    }
    if bytes.is_prefix_of(data) {
        assert(data.take(bytes.len() as int) =~= bytes);
        assert(data.take(bytes.len() as int)[0] == bytes[0]);
    }
}

/// The bytes of six characters of ASCII.
proof fn lemma_ascii6(s: Seq<char>, a: char, b: char, c: char, d: char, e: char, f: char)
    requires
        s == seq![a, b, c, d, e, f],
        a <= '~' && b <= '~' && c <= '~' && d <= '~' && e <= '~' && f <= '~',
    ensures
        text::utf8(s) == seq![a as u8, b as u8, c as u8, d as u8, e as u8, f as u8],
{
    assert(s.skip(2) =~= seq![c, d, e, f]);
    lemma_ascii4(s.skip(2), c, d, e, f);
    assert(s.skip(1) =~= seq![b] + s.skip(2));
    assert(s =~= seq![a] + s.skip(1));
    text::utf8_starts(b, s.skip(2));
    text::utf8_starts(a, s.skip(1));
}

/// The bytes of four characters of ASCII.
proof fn lemma_ascii4(s: Seq<char>, a: char, b: char, c: char, d: char)
    requires
        s == seq![a, b, c, d],
        a <= '~' && b <= '~' && c <= '~' && d <= '~',
    ensures
        text::utf8(s) == seq![a as u8, b as u8, c as u8, d as u8],
{
    let none = Seq::<char>::empty();
    assert(s =~= seq![a] + (seq![b] + (seq![c] + (seq![d] + none))));
    text::utf8_starts(d, none);
    text::utf8_starts(c, seq![d] + none);
    text::utf8_starts(b, seq![c] + (seq![d] + none));
    text::utf8_starts(a, seq![b] + (seq![c] + (seq![d] + none)));
    assert(text::utf8(none) == Seq::<u8>::empty());
}

/// A text in quotes without them.
proof fn lemma_unquoted(boundary: Seq<char>)
    requires
        boundary.len() > 0,
        boundary[0] != '"',
        boundary.last() != '"',
    ensures
        text::trim_end_char(
            text::trim_start_char(seq!['"'] + boundary + seq!['"'], '"'),
            '"',
        ) == boundary,
{
    let given = seq!['"'] + boundary + seq!['"'];
    let mid = boundary + seq!['"'];
    assert(given.skip(1) =~= mid);
    assert(mid[0] == boundary[0]);
    assert(text::trim_start_char(mid, '"') == mid);
    assert(given[0] == '"');
    assert(text::trim_start_char(given, '"') == mid);
    assert(mid.drop_last() =~= boundary);
    assert(text::trim_end_char(boundary, '"') == boundary);
    assert(mid.last() == '"');
    assert(text::trim_end_char(mid, '"') == boundary);
}

/// A boundary in quotes is read without them.
pub proof fn quotes_are_no_part_of_a_boundary(boundary: Seq<char>)
    requires
        !boundary.contains(';'),
        boundary.len() > 0,
        boundary[0] != '"',
        boundary.last() != '"',
    ensures
        multipart::boundary_in("multipart/form-data; boundary=\""@ + boundary + seq!['"']) == Some(
            boundary,
        ),
{
    reveal_strlit("multipart/form-data; boundary=\"");
    reveal_strlit("multipart/form-data");
    reveal_strlit("boundary=");
    let a = "multipart/form-data"@;
    let prefix = "boundary="@;
    let given = seq!['"'] + boundary + seq!['"'];
    let rest = seq![' '] + prefix + given;
    let s = "multipart/form-data; boundary=\""@ + boundary + seq!['"'];
    assert(s =~= a + seq![';'] + rest);
    assert(!a.contains(';')) by {
        if a.contains(';') {
            let j = choose|j: int| 0 <= j < a.len() && a[j] == ';';
            assert(j == 0 || j == 1 || j == 2 || j == 3 || j == 4 || j == 5 || j == 6 || j == 7 || j
                == 8 || j == 9 || j == 10 || j == 11 || j == 12 || j == 13 || j == 14 || j == 15
                || j == 16 || j == 17 || j == 18);
        }
    }
    assert(!rest.contains(';')) by {
        if rest.contains(';') {
            let j = choose|j: int| 0 <= j < rest.len() && rest[j] == ';';
            if 11 <= j < rest.len() - 1 {
                assert(boundary[j - 11] == ';');
            } else if j <= 10 {
                assert(j == 0 || j == 1 || j == 2 || j == 3 || j == 4 || j == 5 || j == 6 || j == 7
                    || j == 8 || j == 9 || j == 10);
            }
        }
    }
    text::span_of_free_prefix(a, ';', rest);
    text::span_of_free(rest, ';');
    let pieces = text::split_on(s, ';');
    assert(text::split_on(rest, ';') == seq![rest]);
    assert(pieces == seq![a] + seq![rest]);
    assert(!text::is_white('m') && !text::is_white('a') && !text::is_white('b')
        && !text::is_white('"') && text::is_white(' '));
    assert(a[0] == 'm' && a.last() == 'a');
    assert(text::trimmed(a) == a);
    if prefix.is_prefix_of(a) {
        assert(a.subrange(0, 9)[0] == a[0]);
    }
    let value = prefix + given;
    assert(rest.skip(1) =~= value);
    assert(value[0] == 'b');
    assert(value.last() == '"');
    assert(text::trim_start(value) == value);
    assert(text::trimmed(rest) == value);
    assert(value.subrange(0, 9) =~= prefix);
    assert(value.skip(9) =~= given);
    assert(pieces.skip(1)[0] == rest);
    assert(multipart::first_after_prefix(pieces.skip(1), prefix) == Some(given));
    assert(multipart::first_after_prefix(pieces, prefix) == Some(given));
    lemma_unquoted(boundary);
}

/// A text is parted at the first separator, and not at all where there is none.
pub proof fn text_is_parted_at_the_first_separator(s: Seq<char>, c: char)
    ensures
        match text::split_once(s, c) {
            Some((before, after)) => !before.contains(c) && s == before + seq![c] + after,
            None => !s.contains(c),
        },
{
    lemma_span(s, c);
    let n = text::span(s, c) as int;
    if n < s.len() {
        let before = s.take(n);
        assert(s =~= before + seq![c] + s.skip(n + 1));
        if before.contains(c) {
            let i = choose|i: int| 0 <= i < before.len() && before[i] == c;
            assert(s[i] != c);
        }
    } else if s.contains(c) {
        let i = choose|i: int| 0 <= i < s.len() && s[i] == c;
        assert(s[i] != c);
    }
}

/// What follows a prefix is what stands behind it, where the text starts with it.
pub proof fn rest_stands_behind_the_prefix(s: Seq<char>, prefix: Seq<char>, rest: Seq<char>)
    ensures
        (text::after_prefix(s, prefix) == Some(rest)) == (s == prefix + rest),
{
    let n = prefix.len() as int;
    if s == prefix + rest {
        assert(s.take(n) =~= prefix);
        assert(s.skip(n) =~= rest);
    }
    if prefix.is_prefix_of(s) {
        assert(s =~= prefix + s.skip(n));
    }
}

/// A character is taken from the end of a text as often as it stands there, and nothing else is.
pub proof fn only_the_character_is_taken_from_the_end(s: Seq<char>, c: char)
    ensures
        ({
            let kept = text::trim_end_char(s, c);
            &&& kept.len() <= s.len()
            &&& kept == s.take(kept.len() as int)
            &&& forall|i: int| kept.len() <= i < s.len() ==> #[trigger] s[i] == c
            &&& kept.len() > 0 ==> kept.last() != c
        }),
    decreases s.len(),
{
    let kept = text::trim_end_char(s, c);
    if s.len() > 0 && s.last() == c {
        let rest = s.drop_last();
        only_the_character_is_taken_from_the_end(rest, c);
        assert(kept =~= s.take(kept.len() as int));
        assert forall|i: int| kept.len() <= i < s.len() implies #[trigger] s[i] == c by {
            if i < rest.len() {
                assert(rest[i] == s[i]);
            }
        }
    } else {
        assert(s =~= s.take(s.len() as int));
    }
}

/// A character is taken from the start of a text as often as it stands there, and nothing else is.
pub proof fn only_the_character_is_taken_from_the_start(s: Seq<char>, c: char)
    ensures
        ({
            let kept = text::trim_start_char(s, c);
            let n = s.len() - kept.len();
            &&& 0 <= n
            &&& kept == s.skip(n)
            &&& forall|i: int| 0 <= i < n ==> #[trigger] s[i] == c
            &&& kept.len() > 0 ==> kept[0] != c
        }),
    decreases s.len(),
{
    let kept = text::trim_start_char(s, c);
    if s.len() > 0 && s[0] == c {
        let rest = s.skip(1);
        only_the_character_is_taken_from_the_start(rest, c);
        let n = s.len() - kept.len();
        assert(kept =~= s.skip(n));
        assert forall|i: int| 0 <= i < n implies #[trigger] s[i] == c by {
            if i > 0 {
                assert(rest[i - 1] == s[i]);
            }
        }
    } else {
        assert(s =~= s.skip(0));
    }
}

} // verus!
