//! What a form that a client writes is made into.
use crate::gateway::http;
use crate::gateway::http::HeaderView;
use crate::gateway::images;
use crate::gateway::multipart;
use crate::gateway::multipart::{PartView, WrittenPart};
use crate::json;
use crate::json::Tree;
use crate::outside;
use crate::text;
use vstd::prelude::*;

verus! {

/// A part of a form: its name, what else a client says of it in the same header, the media type
/// that it gives, where it gives one, and the value.
pub struct FormItem {
    pub name: Seq<char>,
    pub extra: Seq<char>,
    pub mime: Option<Seq<char>>,
    pub value: Seq<u8>,
}

/// The headers of a part.
pub open spec fn item_headers(item: FormItem) -> Seq<char> {
    first_line(item) + (match item.mime {
        Some(mime) => "\r\nContent-Type: "@ + mime,
        None => Seq::empty(),
    })
}

/// The header with the name of a part.
pub open spec fn first_line(item: FormItem) -> Seq<char> {
    "Content-Disposition: form-data; name=\""@ + item.name + seq!['"'] + item.extra
}

/// A part as a client writes it.
pub open spec fn item_written(item: FormItem) -> WrittenPart {
    WrittenPart { headers: text::utf8(item_headers(item)), value: item.value }
}

/// The parts of a form as a client writes them.
pub open spec fn items_written(items: Seq<FormItem>) -> Seq<WrittenPart> {
    Seq::new(items.len(), |i: int| item_written(items[i]))
}

/// Whether `s` holds no end of a line.
pub open spec fn is_line(s: Seq<char>) -> bool {
    !s.contains('\r') && !s.contains('\n')
}

/// Whether a client can write a part so behind the given marker: its headers are lines, its name
/// holds neither a quote nor a semicolon, the marker stands in neither the headers nor the value,
/// and the value does not end in two hyphens.
pub open spec fn is_writable(item: FormItem, marker: Seq<u8>) -> bool {
    &&& is_line(item.name) && !item.name.contains('"') && !item.name.contains(';')
    &&& is_line(item.extra)
    &&& item.mime matches Some(mime) ==> is_line(mime)
    &&& forall|i: int| !#[trigger] multipart::occurs_at(text::utf8(item_headers(item)), marker, i)
    &&& forall|i: int| !#[trigger] multipart::occurs_at(item.value, marker, i)
    &&& !seq![45u8, 45].is_suffix_of(item.value)
}

/// Whether a boundary can be given as it is.
pub open spec fn is_boundary(boundary: Seq<char>) -> bool {
    &&& !boundary.contains(';')
    &&& forall|i: int|
        0 <= i < boundary.len() ==> #[trigger] boundary[i] != '\r' && boundary[i] != '\n'
    &&& boundary.len() > 0 ==> {
        &&& !text::is_white(boundary.last())
        &&& boundary[0] != '"'
        &&& boundary.last() != '"'
    }
}

/// Whether a part is an image.
pub open spec fn is_image(item: FormItem) -> bool {
    item.name == "image"@ || item.name == "images"@
}

/// The data URL of an image part: of the media type that is given, and else of the one that its
/// bytes show, with all its bytes.
pub open spec fn image_url(item: FormItem) -> Seq<char> {
    let mime = match item.mime {
        Some(mime) => text::trimmed(mime),
        None => multipart::image_mime(item.value),
    };
    "data:"@ + mime + ";base64,"@ + outside::base64(item.value, false)
}

/// The text of a field.
pub open spec fn field_text(item: FormItem) -> Seq<char> {
    text::trimmed(outside::text_in(item.value))
}

/// Whether `at` are the places of all the images among the parts, in order.
pub open spec fn are_images_at(items: Seq<FormItem>, at: Seq<int>) -> bool {
    &&& forall|k: int|
        0 <= k < at.len() ==> 0 <= #[trigger] at[k] < items.len() && is_image(items[at[k]])
    &&& forall|k: int, l: int| 0 <= k < l < at.len() ==> #[trigger] at[k] < #[trigger] at[l]
    &&& forall|i: int|
        0 <= i < items.len() && is_image(#[trigger] items[i]) ==> at.contains(i)
}

/// Whether the field `name` stands last at `p`.
pub open spec fn is_last_field(items: Seq<FormItem>, name: Seq<char>, p: int) -> bool {
    &&& 0 <= p < items.len()
    &&& items[p].name == name
    &&& forall|i: int| p < i < items.len() ==> (#[trigger] items[i]).name != name
}

/// Whether a request to the upstream shows the prompt and then the images, and nothing else.
pub open spec fn shows_images(request: Tree, prompt: Seq<char>, urls: Seq<Seq<char>>) -> bool {
    &&& request.get("input"@) matches Some(Tree::Array(input))
    &&& input.len() == 1
    &&& input[0].get_text("role"@) == Some("user"@)
    &&& input[0].get("content"@) matches Some(Tree::Array(content))
    &&& content.len() == urls.len() + 1
    &&& content[0].get_text("type"@) == Some("input_text"@)
    &&& content[0].get_text("text"@) == Some(prompt)
    &&& forall|k: int|
        0 <= k < urls.len() ==> (#[trigger] content[k + 1]).get_text("type"@) == Some(
            "input_image"@,
        ) && content[k + 1].get_text("image_url"@) == Some(urls[k])
}

/// The header of a part and how it starts.
proof fn lemma_start()
    ensures
        ({
            let start = "Content-Disposition: form-data; name=\""@;
            let a = "Content-Disposition: form-data"@;
            &&& start.len() == 38 && a.len() == 30
            &&& start == a + seq![';', ' '] + "name=\""@
            &&& "name=\""@.len() == 6 && "name=\""@[0] == 'n'
            &&& a[0] == 'C' && a[29] == 'a' && a[19] == ':'
            &&& !a.contains(';') && is_line(start) && !"name=\""@.contains(';')
            &&& !a.take(19).contains(':')
        }),
{
    reveal_strlit("Content-Disposition: form-data; name=\"");
    reveal_strlit("Content-Disposition: form-data");
    reveal_strlit("name=\"");
    let start = "Content-Disposition: form-data; name=\""@;
    let a = "Content-Disposition: form-data"@;
    assert(start =~= a + seq![';', ' '] + "name=\""@);
    assert forall|j: int| 0 <= j < 38 implies #[trigger] start[j] != '\r' && start[j] != '\n' by {
        assert(j == 0 || j == 1 || j == 2 || j == 3 || j == 4 || j == 5 || j == 6 || j == 7 || j
            == 8 || j == 9 || j == 10 || j == 11 || j == 12 || j == 13 || j == 14 || j == 15 || j
            == 16 || j == 17 || j == 18 || j == 19 || j == 20 || j == 21 || j == 22 || j == 23 || j
            == 24 || j == 25 || j == 26 || j == 27 || j == 28 || j == 29 || j == 30 || j == 31 || j
            == 32 || j == 33 || j == 34 || j == 35 || j == 36 || j == 37);
    }
    assert forall|j: int| 0 <= j < 30 implies #[trigger] a[j] != ';' && (j < 19 ==> a[j] != ':') by {
        assert(j == 0 || j == 1 || j == 2 || j == 3 || j == 4 || j == 5 || j == 6 || j == 7 || j
            == 8 || j == 9 || j == 10 || j == 11 || j == 12 || j == 13 || j == 14 || j == 15 || j
            == 16 || j == 17 || j == 18 || j == 19 || j == 20 || j == 21 || j == 22 || j == 23 || j
            == 24 || j == 25 || j == 26 || j == 27 || j == 28 || j == 29);
    }
    assert(!a.take(19).contains(':')) by {
        if a.take(19).contains(':') {
            let j = choose|j: int| 0 <= j < 19 && a.take(19)[j] == ':';
            assert(a[j] == ':');
        }
    }
}

/// A text that starts and ends with something else than white space is not trimmed.
proof fn lemma_trimmed_whole(s: Seq<char>)
    requires
        s.len() > 0,
        !text::is_white(s[0]),
        !text::is_white(s.last()),
    ensures
        text::trimmed(s) == s,
{
}

/// The name of a part is read back.
proof fn lemma_name(item: FormItem, tail: Seq<char>)
    requires
        !item.name.contains('"'),
        !item.name.contains(';'),
    ensures
        multipart::field_name_in(first_line(item) + tail) == Some(item.name),
{
    lemma_start();
    let a = "Content-Disposition: form-data"@;
    let key = "name=\""@;
    let h = first_line(item) + tail;
    let known = seq![' '] + key + item.name + seq!['"'];
    let rest = known + item.extra + tail;
    assert(h =~= a + seq![';'] + rest);
    text::span_of_free_prefix(a, ';', rest);
    let pieces = text::split_on(h, ';');
    assert(pieces == seq![a] + text::split_on(rest, ';'));
    assert(!text::is_white('C') && !text::is_white('a') && !text::is_white('n')
        && !text::is_white('"') && text::is_white(' '));
    lemma_trimmed_whole(a);
    assert(!key.is_prefix_of(a)) by {
        if key.is_prefix_of(a) {
            assert(key[0] == a[0]);
        }
    }
    let n = known.len() as int;
    assert forall|i: int| 0 <= i < n implies #[trigger] rest[i] != ';' by {
        assert(rest[i] == known[i]);
        if 1 <= i < 7 {
            assert(known[i] == key[i - 1]);
        } else if 7 <= i < n - 1 {
            assert(known[i] == item.name[i - 7]);
        }
    }
    text::span_at_least(rest, ';', n);
    text::span_at_most(rest, ';');
    let k = text::span(rest, ';') as int;
    let piece = rest.take(k);
    assert(text::split_on(rest, ';')[0] == piece) by {
        if k >= rest.len() {
            assert(rest.take(k) == rest);
        }
    }
    let cut = piece.skip(1);
    assert(piece[0] == ' ');
    assert(cut[0] == key[0]);
    assert(text::trim_start(piece) == cut) by {
        reveal_with_fuel(text::trim_start, 2);
    }
    assert(cut[n - 2] == '"');
    text::trim_end_keeps(cut, n - 1);
    let kept = text::trim_end(cut);
    assert(text::trimmed(piece) == kept);
    assert(key.is_prefix_of(kept)) by {
        assert(kept.take(6) =~= key);
    }
    let value = kept.skip(6);
    let more = kept.skip(n - 1);
    assert(value =~= item.name + seq!['"'] + more);
    text::span_of_free_prefix(item.name, '"', more);
    assert(value.take(item.name.len() as int) =~= item.name);
    assert(pieces[0] == a && pieces[1] == piece);
    assert(pieces.skip(1)[0] == piece);
    reveal_with_fuel(multipart::first_after_prefix, 3);
}

/// A line that starts as that with the name of a part does gives no content type.
proof fn lemma_no_type(line: Seq<char>)
    requires
        "Content-Disposition: form-data; name=\""@.is_prefix_of(line),
    ensures
        multipart::content_type_of(line) is None,
{
    lemma_start();
    let start = "Content-Disposition: form-data; name=\""@;
    let a = "Content-Disposition: form-data"@;
    let name = a.take(19);
    assert(line.take(38) == start);
    assert forall|i: int| 0 <= i < 20 implies #[trigger] line[i] == a[i] by {
        assert(line.take(38)[i] == start[i]);
    }
    assert(line =~= name + seq![':'] + line.skip(20));
    text::span_of_free_prefix(name, ':', line.skip(20));
    assert(line.take(19) =~= name);
    reveal_strlit("Content-Disposition: form-data");
    assert(name[18] == 'n' && name[0] == 'C');
    assert(!text::is_white('C') && !text::is_white('n'));
    lemma_trimmed_whole(name);
    reveal_strlit("content-type");
    assert(text::lowercase(name).len() == 19);
    assert(text::lowercase("content-type"@).len() == 12);
}

/// The content type of a part is read back.
proof fn lemma_type(item: FormItem)
    requires
        is_line(item.name),
        is_line(item.extra),
        item.mime matches Some(mime) ==> is_line(mime),
    ensures
        multipart::content_type_in(text::lines_of(item_headers(item))) == match item.mime {
            Some(mime) => Some(text::trimmed(mime)),
            None => None,
        },
{
    lemma_start();
    let start = "Content-Disposition: form-data; name=\""@;
    let line = first_line(item);
    assert(is_line(line)) by {
        lemma_joined_lines(start, item.name);
        lemma_joined_lines(start + item.name, seq!['"']);
        lemma_joined_lines(start + item.name + seq!['"'], item.extra);
    }
    assert(line.take(38) =~= start);
    assert(start.is_prefix_of(line));
    lemma_no_type(line);
    match item.mime {
        None => {
            assert(item_headers(item) =~= line);
            text::span_of_free(line, '\n');
            assert(text::lines_of(line) == seq![line]);
            reveal_with_fuel(multipart::content_type_in, 3);
            assert(seq![line].skip(1) =~= Seq::<Seq<char>>::empty());
        },
        Some(mime) => {
            reveal_strlit("\r\nContent-Type: ");
            reveal_strlit("Content-Type");
            reveal_strlit("content-type");
            let key = "Content-Type"@;
            let second = key + seq![':', ' '] + mime;
            let h = item_headers(item);
            assert("\r\nContent-Type: "@ =~= seq!['\r', '\n'] + key + seq![':', ' ']);
            let before = line + seq!['\r'];
            assert(h =~= before + seq!['\n'] + second);
            assert(!before.contains('\n')) by {
                if before.contains('\n') {
                    let j = choose|j: int| 0 <= j < before.len() && before[j] == '\n';
                    assert(line[j] == '\n');
                }
            }
            text::span_of_free_prefix(before, '\n', second);
            assert(h.take(before.len() as int) =~= before);
            assert(h.skip(before.len() as int + 1) =~= second);
            assert(text::without_return(before) =~= line);
            assert(!second.contains('\n')) by {
                if second.contains('\n') {
                    let j = choose|j: int| 0 <= j < second.len() && second[j] == '\n';
                    if j >= 14 {
                        assert(mime[j - 14] == '\n');
                    } else {
                        assert(j == 0 || j == 1 || j == 2 || j == 3 || j == 4 || j == 5 || j == 6
                            || j == 7 || j == 8 || j == 9 || j == 10 || j == 11 || j == 12 || j
                            == 13);
                    }
                }
            }
            text::span_of_free(second, '\n');
            assert(text::lines_of(second) == seq![second]);
            let lines = seq![line] + seq![second];
            assert(text::lines_of(h) == lines);
            assert(lines.skip(1) =~= seq![second]);
            assert(seq![second].skip(1) =~= Seq::<Seq<char>>::empty());
            let value = seq![' '] + mime;
            assert(second =~= key + seq![':'] + value);
            assert(!key.contains(':')) by {
                if key.contains(':') {
                    let j = choose|j: int| 0 <= j < key.len() && key[j] == ':';
                    assert(j == 0 || j == 1 || j == 2 || j == 3 || j == 4 || j == 5 || j == 6 || j
                        == 7 || j == 8 || j == 9 || j == 10 || j == 11);
                }
            }
            text::span_of_free_prefix(key, ':', value);
            assert(second.take(12) =~= key);
            assert(second.skip(13) =~= value);
            assert(!text::is_white('C') && !text::is_white('e') && text::is_white(' '));
            lemma_trimmed_whole(key);
            lemma_same_type();
            assert(value.skip(1) =~= mime);
            assert(text::trim_start(value) == text::trim_start(mime));
            assert(multipart::content_type_of(second) == Some(text::trimmed(mime)));
            reveal_with_fuel(multipart::content_type_in, 3);
        },
    }
}

/// The name of the header for the content type, in both cases.
proof fn lemma_same_type()
    ensures
        text::same_ignoring_case("Content-Type"@, "content-type"@),
{
    reveal_strlit("Content-Type");
    reveal_strlit("content-type");
    let a = "Content-Type"@;
    let b = "content-type"@;
    assert(('C' as u32) + 32 == 'c' as u32 && ('T' as u32) + 32 == 't' as u32);
    assert(text::ascii_lower('C') == 'c' && text::ascii_lower('T') == 't');
    assert forall|j: int| 0 <= j < 12 implies #[trigger] text::lowercase(a)[j] == text::lowercase(
        b,
    )[j] by {
        assert(j == 0 || j == 1 || j == 2 || j == 3 || j == 4 || j == 5 || j == 6 || j == 7 || j
            == 8 || j == 9 || j == 10 || j == 11);
    }
    assert(text::lowercase(a) =~= text::lowercase(b));
}

/// Two texts without an end of a line make one.
proof fn lemma_joined_lines(a: Seq<char>, b: Seq<char>)
    requires
        is_line(a),
        is_line(b),
    ensures
        is_line(a + b),
{
    let s = a + b;
    assert forall|j: int| 0 <= j < s.len() implies #[trigger] s[j] != '\r' && s[j] != '\n' by {
        if j < a.len() {
            assert(a[j] == s[j]);
        } else {
            assert(b[j - a.len()] == s[j]);
        }
    }
}

/// The UTF-8 of a line is a line.
proof fn lemma_line_bytes(s: Seq<char>)
    requires
        is_line(s),
    ensures
        forall|i: int|
            0 <= i < text::utf8(s).len() ==> #[trigger] text::utf8(s)[i] != 13 && text::utf8(s)[i]
                != 10,
{
    assert forall|i: int| 0 <= i < s.len() implies #[trigger] s[i] != '\r' && s[i] != '\n' by {
        if s[i] == '\r' || s[i] == '\n' {
            assert(s.contains(s[i]));
        }
    }
    text::utf8_of_free(s, '\r');
    text::utf8_of_free(s, '\n');
}

/// A part that can be written can be told from what stands around it.
proof fn lemma_distinct(item: FormItem, marker: Seq<u8>)
    requires
        is_writable(item, marker),
    ensures
        multipart::is_distinct(item_written(item), marker),
{
    lemma_start();
    let start = "Content-Disposition: form-data; name=\""@;
    let line = first_line(item);
    assert(is_line(line)) by {
        lemma_joined_lines(start, item.name);
        lemma_joined_lines(start + item.name, seq!['"']);
        lemma_joined_lines(start + item.name + seq!['"'], item.extra);
    }
    let bytes = text::utf8(item_headers(item));
    let a = text::utf8(line);
    lemma_line_bytes(line);
    assert(line =~= seq!['C'] + line.skip(1)) by {
        assert(line[0] == start[0]);
    }
    text::utf8_starts('C', line.skip(1));
    assert(a[0] == 67);
    match item.mime {
        None => {
            assert(item_headers(item) =~= line);
            assert(bytes.last() == a[a.len() - 1]);
        },
        Some(mime) => {
            reveal_strlit("\r\nContent-Type: ");
            reveal_strlit("Content-Type: ");
            let end = "Content-Type: "@ + mime;
            assert(is_line(end)) by {
                let s = "Content-Type: "@;
                assert forall|j: int| 0 <= j < 14 implies #[trigger] s[j] != '\r' && s[j] != '\n' by {
                    assert(j == 0 || j == 1 || j == 2 || j == 3 || j == 4 || j == 5 || j == 6 || j
                        == 7 || j == 8 || j == 9 || j == 10 || j == 11 || j == 12 || j == 13);
                }
                lemma_joined_lines(s, mime);
            }
            lemma_line_bytes(end);
            let tail = seq!['\r'] + (seq!['\n'] + end);
            assert(item_headers(item) =~= line + tail);
            text::utf8_joined(line, tail);
            text::utf8_starts('\r', seq!['\n'] + end);
            text::utf8_starts('\n', end);
            let c = text::utf8(end);
            assert(bytes =~= a + seq![13u8, 10] + c);
            text::utf8_nonempty(end);
            assert(bytes.last() == c[c.len() - 1]);
            assert forall|i: int| 0 <= i < bytes.len() && #[trigger] bytes[i] == 13 implies i
                == a.len() by {
                if i < a.len() {
                    assert(bytes[i] == a[i]);
                } else if i >= a.len() + 2 {
                    assert(bytes[i] == c[i - a.len() - 2]);
                }
            }
        },
    }
    let end = multipart::header_end();
    assert forall|i: int| !#[trigger] multipart::occurs_at(bytes, end, i) by {
        if multipart::occurs_at(bytes, end, i) {
            let found = bytes.subrange(i, i + 4);
            assert(found[0] == 13 && found[2] == 13);
            assert(bytes[i] == 13 && bytes[i + 2] == 13);
        }
    }
    assert(!seq![45u8, 45].is_prefix_of(bytes)) by {
        assert(bytes[0] == 67) by {
            if item.mime is Some {
                assert(bytes[0] == a[0]);
            }
        }
        if seq![45u8, 45].is_prefix_of(bytes) {
            assert(seq![45u8, 45][0] == bytes[0]);
        }
    }
}

/// What a written part holds.
proof fn lemma_item_content(item: FormItem, marker: Seq<u8>)
    requires
        is_writable(item, marker),
    ensures
        multipart::content_of(outside::text_in(item_written(item).headers), item.value) == (
        if is_image(item) {
            PartView::Image(image_url(item))
        } else {
            PartView::Field(item.name, field_text(item))
        }),
{
    outside::text_in_utf8(item_headers(item));
    lemma_name(
        item,
        match item.mime {
            Some(mime) => "\r\nContent-Type: "@ + mime,
            None => Seq::empty(),
        },
    );
    lemma_type(item);
}

/// What the parts but for the last hold.
proof fn lemma_fewer(items: Seq<FormItem>, marker: Seq<u8>)
    requires
        items.len() > 0,
        forall|i: int| 0 <= i < items.len() ==> is_writable(#[trigger] items[i], marker),
    ensures
        items_written(items).drop_last() == items_written(items.drop_last()),
        items_written(items).last() == item_written(items.last()),
        forall|i: int|
            0 <= i < items.drop_last().len() ==> is_writable(#[trigger] items.drop_last()[i], marker),
{
    assert(items_written(items).drop_last() =~= items_written(items.drop_last()));
    assert forall|i: int| 0 <= i < items.drop_last().len() implies is_writable(
        #[trigger] items.drop_last()[i],
        marker,
    ) by {
        assert(items.drop_last()[i] == items[i]);
    }
}

/// The images of a form, in order.
pub(crate) proof fn lemma_images(items: Seq<FormItem>, marker: Seq<u8>, at: Seq<int>)
    requires
        forall|i: int| 0 <= i < items.len() ==> is_writable(#[trigger] items[i], marker),
        are_images_at(items, at),
    ensures
        multipart::written_content(items_written(items)).images == Seq::new(
            at.len(),
            |k: int| image_url(items[at[k]]),
        ),
    decreases items.len(),
{
    let urls = Seq::new(at.len(), |k: int| image_url(items[at[k]]));
    if items.len() == 0 {
        if at.len() > 0 {
            assert(0 <= at[0] < items.len());
        }
        assert(urls =~= Seq::<Seq<char>>::empty());
    } else {
        let n = items.len() - 1;
        let fewer = items.drop_last();
        lemma_fewer(items, marker);
        assert(is_writable(items[n], marker));
        lemma_item_content(items[n], marker);
        if is_image(items[n]) {
            assert(at.contains(n));
            let k = choose|k: int| 0 <= k < at.len() && at[k] == n;
            if k < at.len() - 1 {
                assert(at[k] < at[at.len() - 1]);
            }
            let less = at.drop_last();
            assert(are_images_at(fewer, less)) by {
                assert forall|k: int| 0 <= k < less.len() implies 0 <= #[trigger] less[k]
                    < fewer.len() && is_image(fewer[less[k]]) by {
                    assert(less[k] == at[k]);
                    assert(at[k] < at[at.len() - 1]);
                }
                assert forall|i: int| 0 <= i < fewer.len() && is_image(
                    #[trigger] fewer[i],
                ) implies less.contains(i) by {
                    assert(items[i] == fewer[i]);
                    let k = choose|k: int| 0 <= k < at.len() && at[k] == i;
                    assert(less[k] == i);
                }
            }
            lemma_images(fewer, marker, less);
            assert(urls =~= Seq::new(less.len(), |k: int| image_url(fewer[less[k]])).push(
                image_url(items[n]),
            ));
        } else {
            assert(are_images_at(fewer, at)) by {
                assert forall|k: int| 0 <= k < at.len() implies 0 <= #[trigger] at[k] < fewer.len()
                    && is_image(fewer[at[k]]) by {
                    assert(is_image(items[at[k]]));
                }
                assert forall|i: int| 0 <= i < fewer.len() && is_image(
                    #[trigger] fewer[i],
                ) implies at.contains(i) by {
                    assert(items[i] == fewer[i]);
                }
            }
            lemma_images(fewer, marker, at);
            assert(urls =~= Seq::new(at.len(), |k: int| image_url(fewer[at[k]])));
        }
    }
}

/// A field of a form: the last with its name.
pub(crate) proof fn lemma_field(items: Seq<FormItem>, marker: Seq<u8>, name: Seq<char>)
    requires
        forall|i: int| 0 <= i < items.len() ==> is_writable(#[trigger] items[i], marker),
        name != "image"@,
        name != "images"@,
    ensures
        forall|p: int| #[trigger]
            is_last_field(items, name, p) ==> json::lookup(
                multipart::written_content(items_written(items)).fields,
                name,
            ) == Some(Tree::Text(field_text(items[p]))),
        (forall|i: int| 0 <= i < items.len() ==> (#[trigger] items[i]).name != name)
            ==> json::lookup(multipart::written_content(items_written(items)).fields, name) is None,
    decreases items.len(),
{
    if items.len() > 0 {
        let n = items.len() - 1;
        let fewer = items.drop_last();
        lemma_fewer(items, marker);
        assert(is_writable(items[n], marker));
        lemma_item_content(items[n], marker);
        lemma_field(fewer, marker, name);
        let before = multipart::written_content(items_written(fewer)).fields;
        if !is_image(items[n]) {
            json::lookup_after_with_entry(
                before,
                items[n].name,
                Tree::Text(field_text(items[n])),
                name,
            );
        }
        assert forall|p: int| #[trigger] is_last_field(items, name, p) implies json::lookup(
            multipart::written_content(items_written(items)).fields,
            name,
        ) == Some(Tree::Text(field_text(items[p]))) by {
            if p < n {
                assert(items[n].name != name);
                assert(fewer[p] == items[p]);
                assert forall|i: int| p < i < fewer.len() implies (#[trigger] fewer[i]).name
                    != name by {
                    assert(fewer[i] == items[i]);
                }
                assert(is_last_field(fewer, name, p));
            }
        }
        if forall|i: int| 0 <= i < items.len() ==> (#[trigger] items[i]).name != name {
            assert(items[n].name != name);
            assert forall|i: int| 0 <= i < fewer.len() implies (#[trigger] fewer[i]).name
                != name by {
                assert(fewer[i] == items[i]);
            }
        }
    }
}

/// What a written form is read as.
pub(crate) proof fn lemma_form(
    headers: Seq<HeaderView>,
    boundary: Seq<char>,
    items: Seq<FormItem>,
)
    requires
        is_boundary(boundary),
        http::header_text(headers, "content-type"@) == Some(
            "multipart/form-data; boundary="@ + boundary,
        ),
        forall|i: int|
            0 <= i < items.len() ==> is_writable(
                #[trigger] items[i],
                multipart::marker_of(boundary),
            ),
    ensures
        images::edit_outcome(
            headers,
            multipart::written_form(multipart::marker_of(boundary), items_written(items)),
        ) == images::form_edit(multipart::written_content(items_written(items))),
{
    let marker = multipart::marker_of(boundary);
    let parts = items_written(items);
    multipart::boundary_is_read_back(boundary);
    multipart::lemma_marker(boundary);
    assert forall|i: int| 0 <= i < parts.len() implies multipart::is_distinct(
        #[trigger] parts[i],
        marker,
    ) by {
        assert(is_writable(items[i], marker));
        lemma_distinct(items[i], marker);
    }
    multipart::written_form_is_read_back(marker, parts);
    lemma_form_type(boundary);
}

/// The content type of a form says that it is one.
proof fn lemma_form_type(boundary: Seq<char>)
    ensures
        images::is_form("multipart/form-data; boundary="@ + boundary),
{
    reveal_strlit("multipart/form-data; boundary=");
    reveal_strlit("multipart/form-data");
    let s = "multipart/form-data; boundary="@ + boundary;
    let lower = text::lowercase(s);
    let p = "multipart/form-data"@;
    assert forall|j: int| 0 <= j < 19 implies #[trigger] lower[j] == p[j] by {
        assert(s[j] == "multipart/form-data; boundary="@[j]);
        assert(j == 0 || j == 1 || j == 2 || j == 3 || j == 4 || j == 5 || j == 6 || j == 7 || j
            == 8 || j == 9 || j == 10 || j == 11 || j == 12 || j == 13 || j == 14 || j == 15 || j
            == 16 || j == 17 || j == 18);
    }
    assert(lower.take(19) =~= p);
    assert(p.is_prefix_of(lower));
}

/// What a request to edit shows.
pub(crate) proof fn lemma_shows_images(prompt: Seq<char>, urls: Seq<Seq<char>>, tool: Tree)
    ensures
        shows_images(images::edit_request(prompt, urls, tool), prompt, urls),
{
    let message = images::user_message(prompt, urls);
    images::image_request_asks_for_the_input(Tree::Array(seq![message]), tool);
    let content = seq![images::text_part(prompt)] + Seq::new(
        urls.len(),
        |i: int| images::image_part(urls[i]),
    );
    reveal_strlit("role");
    reveal_strlit("content");
    reveal_strlit("type");
    reveal_strlit("text");
    reveal_strlit("image_url");
    assert("role"@.len() == 4 && "content"@.len() == 7 && "image_url"@.len() == 9);
    assert("type"@.len() == 4 && "text"@.len() == 4 && "type"@[1] == 'y' && "text"@[1] == 'e');
    let pairs = seq![("role"@, Tree::Text("user"@)), ("content"@, Tree::Array(content))];
    json::member_of_object(pairs, 0);
    json::member_of_object(pairs, 1);
    let words = seq![("type"@, Tree::Text("input_text"@)), ("text"@, Tree::Text(prompt))];
    json::member_of_object(words, 0);
    json::member_of_object(words, 1);
    assert forall|k: int| 0 <= k < urls.len() implies (#[trigger] content[k + 1]).get_text("type"@)
        == Some("input_image"@) && content[k + 1].get_text("image_url"@) == Some(urls[k]) by {
        let image = seq![
            ("type"@, Tree::Text("input_image"@)),
            ("image_url"@, Tree::Text(urls[k])),
        ];
        json::member_of_object(image, 0);
        json::member_of_object(image, 1);
        assert(content[k + 1] == images::image_part(urls[k]));
    }
}

/// A form to edit images, as clients write it, with a prompt and at least one image among its
/// parts, in any order, is accepted; the request to the upstream then shows the prompt and behind it
/// every image of the form, in the order of the form, each as the data URL of all its bytes.
pub proof fn form_edit_sends_every_image(
    headers: Seq<HeaderView>,
    boundary: Seq<char>,
    items: Seq<FormItem>,
    at: Seq<int>,
    p: int,
)
    requires
        is_boundary(boundary),
        http::header_text(headers, "content-type"@) == Some(
            "multipart/form-data; boundary="@ + boundary,
        ),
        forall|i: int|
            0 <= i < items.len() ==> is_writable(
                #[trigger] items[i],
                multipart::marker_of(boundary),
            ),
        are_images_at(items, at),
        at.len() > 0,
        is_last_field(items, "prompt"@, p),
    ensures
        images::edit_outcome(
            headers,
            multipart::written_form(multipart::marker_of(boundary), items_written(items)),
        ) matches Ok(edit) && shows_images(
            edit.request,
            field_text(items[p]),
            Seq::new(at.len(), |k: int| image_url(items[at[k]])),
        ),
{
    let marker = multipart::marker_of(boundary);
    lemma_form(headers, boundary, items);
    lemma_images(items, marker, at);
    lemma_prompt_is_no_image();
    lemma_field(items, marker, "prompt"@);
    let form = multipart::written_content(items_written(items));
    lemma_shows_images(
        field_text(items[p]),
        form.images,
        images::image_tool(Tree::Object(form.fields)),
    );
}

/// The prompt is no image.
proof fn lemma_prompt_is_no_image()
    ensures
        "prompt"@ != "image"@,
        "prompt"@ != "images"@,
{
    reveal_strlit("prompt");
    reveal_strlit("image");
    reveal_strlit("images");
    assert("prompt"@[0] == 'p' && "image"@[0] == 'i' && "images"@[0] == 'i');
}

/// A form to edit images without a prompt is refused for that, and one with a prompt and no image
/// for that.
pub proof fn incomplete_form_is_refused(
    headers: Seq<HeaderView>,
    boundary: Seq<char>,
    items: Seq<FormItem>,
)
    requires
        is_boundary(boundary),
        http::header_text(headers, "content-type"@) == Some(
            "multipart/form-data; boundary="@ + boundary,
        ),
        forall|i: int|
            0 <= i < items.len() ==> is_writable(
                #[trigger] items[i],
                multipart::marker_of(boundary),
            ),
    ensures
        ({
            let outcome = images::edit_outcome(
                headers,
                multipart::written_form(multipart::marker_of(boundary), items_written(items)),
            );
            let no_prompt = forall|i: int|
                0 <= i < items.len() ==> (#[trigger] items[i]).name != "prompt"@;
            let no_image = forall|i: int| 0 <= i < items.len() ==> !is_image(#[trigger] items[i]);
            &&& no_prompt ==> (outcome matches Err(message) && message
                == "images/edits multipart missing prompt"@)
            &&& no_image && (exists|p: int| is_last_field(items, "prompt"@, p)) ==> (
            outcome matches Err(message) && message == "images/edits multipart missing image"@)
        }),
{
    let marker = multipart::marker_of(boundary);
    lemma_form(headers, boundary, items);
    lemma_prompt_is_no_image();
    lemma_field(items, marker, "prompt"@);
    if forall|i: int| 0 <= i < items.len() ==> !is_image(#[trigger] items[i]) {
        lemma_images(items, marker, Seq::empty());
    }
}

/// A parameter is read from the first piece that starts with its name, wherever that stands and
/// whatever white space is round it; there is none where no piece does.
pub proof fn first_piece_with_the_name_counts(
    pieces: Seq<Seq<char>>,
    prefix: Seq<char>,
    i: int,
    rest: Seq<char>,
)
    requires
        0 <= i <= pieces.len(),
        forall|j: int|
            0 <= j < i ==> !prefix.is_prefix_of(text::trimmed(#[trigger] pieces[j])),
        i < pieces.len() ==> text::trimmed(pieces[i]) == prefix + rest,
    ensures
        multipart::first_after_prefix(pieces, prefix) == (if i < pieces.len() {
            Some(rest)
        } else {
            None
        }),
    decreases pieces.len(),
{
    if pieces.len() > 0 {
        if i == 0 {
            let piece = text::trimmed(pieces[0]);
            assert(piece.take(prefix.len() as int) =~= prefix);
            assert(piece.skip(prefix.len() as int) =~= rest);
        } else {
            let others = pieces.skip(1);
            assert(!prefix.is_prefix_of(text::trimmed(pieces[0])));
            assert forall|j: int| 0 <= j < i - 1 implies !prefix.is_prefix_of(
                text::trimmed(#[trigger] others[j]),
            ) by {
                assert(others[j] == pieces[j + 1]);
            }
            first_piece_with_the_name_counts(others, prefix, i - 1, rest);
        }
    }
}

/// The boundary and the name of a field are such parameters, and end where their quotes do.
pub proof fn boundary_and_name_are_parameters(s: Seq<char>)
    ensures
        multipart::boundary_in(s) is Some == multipart::first_after_prefix(
            text::split_on(s, ';'),
            "boundary="@,
        ) is Some,
        multipart::first_after_prefix(text::split_on(s, ';'), "boundary="@) matches Some(value)
            ==> (!value.contains('"') ==> multipart::boundary_in(s) == Some(value)),
        multipart::field_name_in(s) is Some == multipart::first_after_prefix(
            text::split_on(s, ';'),
            "name=\""@,
        ) is Some,
        multipart::field_name_in(s) matches Some(name) ==> !name.contains('"'),
{
    if let Some(value) = multipart::first_after_prefix(text::split_on(s, ';'), "boundary="@) {
        if !value.contains('"') {
            if value.len() > 0 {
                assert(value.contains(value[0]));
                assert(value.contains(value.last()));
            }
        }
    }
    if let Some(value) = multipart::first_after_prefix(text::split_on(s, ';'), "name=\""@) {
        let name = value.take(text::span(value, '"') as int);
        lemma_before_quote(value);
        assert(multipart::field_name_in(s) == Some(name));
    }
}

/// What stands before the first quote holds none.
proof fn lemma_before_quote(value: Seq<char>)
    ensures
        text::span(value, '"') <= value.len(),
        !value.take(text::span(value, '"') as int).contains('"'),
    decreases value.len(),
{
    if value.len() > 0 && value[0] != '"' {
        let rest = value.skip(1);
        lemma_before_quote(rest);
        let n = text::span(value, '"') as int;
        let start = value.take(n);
        if start.contains('"') {
            let j = choose|j: int| 0 <= j < start.len() && start[j] == '"';
            assert(rest.take(n - 1)[j - 1] == '"');
            assert(rest.take(n - 1).contains('"'));
        }
    }
}

/// A form is told by its content type, in whatever case that is, and one that names no boundary is
/// refused, whatever its body is.
pub proof fn form_without_a_boundary_is_refused(
    headers: Seq<HeaderView>,
    content_type: Seq<char>,
    body: Seq<u8>,
)
    requires
        http::header_text(headers, "content-type"@) == Some(content_type),
        "multipart/form-data"@.is_prefix_of(text::lowercase(content_type)),
        multipart::boundary_in(content_type) is None,
    ensures
        images::edit_outcome(headers, body) matches Err(message) && message
            == "multipart missing boundary"@,
{
}

/// A form that is told by its content type, in whatever case, is read with the boundary that it
/// names: the same body is then the same form.
pub proof fn form_is_read_with_its_boundary(
    headers: Seq<HeaderView>,
    others: Seq<HeaderView>,
    content_type: Seq<char>,
    boundary: Seq<char>,
    body: Seq<u8>,
)
    requires
        http::header_text(headers, "content-type"@) == Some(content_type),
        "multipart/form-data"@.is_prefix_of(text::lowercase(content_type)),
        multipart::boundary_in(content_type) == Some(boundary),
        is_boundary(boundary),
        http::header_text(others, "content-type"@) == Some(
            "multipart/form-data; boundary="@ + boundary,
        ),
    ensures
        images::edit_outcome(headers, body) == images::edit_outcome(others, body),
{
    multipart::boundary_is_read_back(boundary);
    lemma_form_type(boundary);
}

/// The value of a part ends before the line break in front of the next marker, and two hyphens
/// there are no part of it.
pub proof fn value_ends_before_the_line_break(value: Seq<u8>)
    requires
        !seq![45u8, 45].is_suffix_of(value),
    ensures
        multipart::without_break_after(value + seq![13u8, 10]) == value,
        multipart::without_break_after(value + seq![45u8, 45] + seq![13u8, 10]) == value,
        multipart::without_break_after(value + seq![45u8, 45]) == value,
        !seq![13u8, 10].is_suffix_of(value) ==> multipart::without_break_after(value) == value,
{
    let n = value.len() as int;
    let a = value + seq![13u8, 10];
    let b = value + seq![45u8, 45];
    let c = b + seq![13u8, 10];
    assert(a.take(n) =~= value);
    assert(b.take(n) =~= value);
    assert(c.take(n + 2) =~= b);
    if n >= 2 && value[n - 2] == 45 && value[n - 1] == 45 {
        assert(value.skip(n - 2) =~= seq![45u8, 45]);
    }
    if n >= 2 && value[n - 2] == 13 && value[n - 1] == 10 {
        assert(value.skip(n - 2) =~= seq![13u8, 10]);
    }
}

} // verus!
