//! Multipart forms: their parts, and the fields and images in them.
use crate::json;
use crate::json::{Json, JsonMap, Tree};
use crate::outside;
use crate::text;
use vstd::prelude::*;
use vstd::slice::slice_subrange;

verus! {

/// Whether `needle` stands in `haystack` at `i`.
pub open spec fn occurs_at(haystack: Seq<u8>, needle: Seq<u8>, i: int) -> bool {
    0 <= i && i + needle.len() <= haystack.len() && haystack.subrange(i, i + needle.len())
        == needle
}

/// Where `needle` first stands in `haystack`.
pub open spec fn first_at(haystack: Seq<u8>, needle: Seq<u8>) -> Option<int>
    decreases haystack.len(),
{
    if occurs_at(haystack, needle, 0) {
        Some(0)
    } else if haystack.len() == 0 {
        None
    } else {
        match first_at(haystack.skip(1), needle) {
            Some(i) => Some(i + 1),
            None => None,
        }
    }
}

/// `first_at` is the first place where `needle` stands.
pub proof fn first_at_is_first(haystack: Seq<u8>, needle: Seq<u8>)
    ensures
        match first_at(haystack, needle) {
            Some(i) => occurs_at(haystack, needle, i) && forall|j: int|
                0 <= j < i ==> !#[trigger] occurs_at(haystack, needle, j),
            None => forall|j: int| !#[trigger] occurs_at(haystack, needle, j),
        },
    decreases haystack.len(),
{
    if !occurs_at(haystack, needle, 0) && haystack.len() > 0 {
        let rest = haystack.skip(1);
        first_at_is_first(rest, needle);
        assert forall|j: int| 0 <= j implies #[trigger] occurs_at(haystack, needle, j + 1)
            == occurs_at(rest, needle, j) by {
            if j + 1 + needle.len() <= haystack.len() {
                assert(haystack.subrange(j + 1, j + 1 + needle.len()) == rest.subrange(
                    j,
                    j + needle.len(),
                ));
            }
        }
        match first_at(rest, needle) {
            Some(i) => {
                assert(occurs_at(haystack, needle, i + 1));
                assert forall|j: int| 0 <= j < i + 1 implies !#[trigger] occurs_at(
                    haystack,
                    needle,
                    j,
                ) by {
                    if j > 0 {
                        assert(occurs_at(haystack, needle, (j - 1) + 1) == occurs_at(
                            rest,
                            needle,
                            j - 1,
                        ));
                    }
                }
            },
            None => {
                assert forall|j: int| !#[trigger] occurs_at(haystack, needle, j) by {
                    if j > 0 {
                        assert(occurs_at(haystack, needle, (j - 1) + 1) == occurs_at(
                            rest,
                            needle,
                            j - 1,
                        ));
                    }
                }
            },
        }
    } else if haystack.len() == 0 && !occurs_at(haystack, needle, 0) {
        assert forall|j: int| !#[trigger] occurs_at(haystack, needle, j) by {
            if j == 0 {
            }
        }
    }
}

/// The first place where `needle` stands, and no other, is `first_at`.
pub proof fn first_at_unique(haystack: Seq<u8>, needle: Seq<u8>, i: int)
    requires
        occurs_at(haystack, needle, i),
        forall|j: int| 0 <= j < i ==> !#[trigger] occurs_at(haystack, needle, j),
    ensures
        first_at(haystack, needle) == Some(i),
{
    first_at_is_first(haystack, needle);
}

/// Where `needle` first stands in `haystack`.
pub fn find_subslice(haystack: &[u8], needle: &[u8]) -> (r: Option<usize>)
    ensures
        match r {
            Some(i) => {
                &&& first_at(haystack@, needle@) == Some(i as int)
                &&& i + needle@.len() <= haystack@.len()
            },
            None => first_at(haystack@, needle@) is None,
        },
{
    proof {
        first_at_is_first(haystack@, needle@);
    }
    if needle.len() > haystack.len() {
        return None;
    }
    let last: usize = haystack.len() - needle.len();
    let mut i: usize = 0;
    loop
        invariant
            i <= last,
            last == haystack@.len() - needle@.len(),
            haystack@.len() <= usize::MAX,
            forall|j: int| 0 <= j < i ==> !#[trigger] occurs_at(haystack@, needle@, j),
            match first_at(haystack@, needle@) {
                Some(i) => occurs_at(haystack@, needle@, i) && forall|j: int|
                    0 <= j < i ==> !#[trigger] occurs_at(haystack@, needle@, j),
                None => forall|j: int| !#[trigger] occurs_at(haystack@, needle@, j),
            },
        decreases last - i,
    {
        if text::same_bytes(slice_subrange(haystack, i, i + needle.len()), needle) {
            assert(occurs_at(haystack@, needle@, i as int));
            return Some(i);
        }
        assert(!occurs_at(haystack@, needle@, i as int));
        if i == last {
            return None;
        }
        i += 1;
    }
}

/// Whether `data` starts with `prefix`.
fn starts_with_bytes(data: &[u8], prefix: &[u8]) -> (r: bool)
    ensures
        r == prefix@.is_prefix_of(data@),
{
    if prefix.len() > data.len() {
        return false;
    }
    text::same_bytes(slice_subrange(data, 0, prefix.len()), prefix)
}

/// `part` without a line break at its start.
pub open spec fn without_break_before(part: Seq<u8>) -> Seq<u8> {
    if part.len() >= 2 && part[0] == 13 && part[1] == 10 {
        part.skip(2)
    } else {
        part
    }
}

/// `value` without a line break at its end, and then without two hyphens at its end.
pub open spec fn without_break_after(value: Seq<u8>) -> Seq<u8> {
    let n = value.len() as int;
    let v = if n >= 2 && value[n - 2] == 13 && value[n - 1] == 10 {
        value.take(n - 2)
    } else {
        value
    };
    let m = v.len() as int;
    if m >= 2 && v[m - 2] == 45 && v[m - 1] == 45 {
        v.take(m - 2)
    } else {
        v
    }
}

/// `part` without a line break at its start.
pub fn trim_part_prefix<'a>(value: &'a [u8]) -> (r: &'a [u8])
    ensures
        r@ == without_break_before(value@),
{
    if value.len() >= 2 && value[0] == 13 && value[1] == 10 {
        assert(value@.subrange(2, value@.len() as int) == value@.skip(2));
        slice_subrange(value, 2, value.len())
    } else {
        value
    }
}

/// `value` without a line break at its end, and then without two hyphens at its end.
pub fn trim_part_suffix<'a>(value: &'a [u8]) -> (r: &'a [u8])
    ensures
        r@ == without_break_after(value@),
{
    let mut n: usize = value.len();
    if n >= 2 && value[n - 2] == 13 && value[n - 1] == 10 {
        n -= 2;
    }
    let ghost v = value@.take(n as int);
    assert(value@.take(value@.len() as int) == value@);
    if n >= 2 && value[n - 2] == 45 && value[n - 1] == 45 {
        n -= 2;
        assert(v.take(n as int) == value@.take(n as int));
    }
    assert(value@.subrange(0, n as int) == value@.take(n as int));
    slice_subrange(value, 0, n)
}

/// The parts of a form: what stands behind each marker, up to the next one.
pub open spec fn parts_of(body: Seq<u8>, marker: Seq<u8>) -> Seq<Seq<u8>>
    decreases body.len(),
    when marker.len() > 0
{
    match first_at(body, marker) {
        None => Seq::empty(),
        Some(start) => {
            let rest = body.skip(start + marker.len());
            match first_at(rest, marker) {
                None => seq![without_break_before(rest)],
                Some(next) => {
                    proof {
                        first_at_is_first(body, marker);
                        first_at_is_first(rest, marker);
                    }
                    seq![without_break_before(rest.take(next))] + parts_of(rest.skip(next), marker)
                },
            }
        },
    }
}

/// What a list of byte strings holds.
pub open spec fn byte_strings(list: Seq<&[u8]>) -> Seq<Seq<u8>> {
    Seq::new(list.len(), |i: int| list[i]@)
}

/// The parts of a form with the marker `marker`.
pub fn split_multipart_parts<'a>(body: &'a [u8], marker: &[u8]) -> (r: Vec<&'a [u8]>)
    requires
        marker@.len() > 0,
    ensures
        byte_strings(r@) == parts_of(body@, marker@),
{
    let mut parts: Vec<&'a [u8]> = Vec::new();
    let mut cursor: usize = 0;
    assert(body@.skip(0) == body@);
    assert(byte_strings(parts@) + parts_of(body@, marker@) == parts_of(body@, marker@));
    loop
        invariant
            marker@.len() > 0,
            cursor <= body@.len(),
            parts_of(body@, marker@) == byte_strings(parts@) + parts_of(
                body@.skip(cursor as int),
                marker@,
            ),
        decreases body@.len() - cursor,
    {
        let ghost before = parts@;
        let ghost tail = body@.skip(cursor as int);
        assert(body@.subrange(cursor as int, body@.len() as int) == tail);
        match find_subslice(slice_subrange(body, cursor, body.len()), marker) {
            None => {
                assert(byte_strings(parts@) + Seq::<Seq<u8>>::empty() == byte_strings(parts@));
                return parts;
            },
            Some(start) => {
                let part_start: usize = cursor + start + marker.len();
                let ghost rest = tail.skip(start + marker@.len());
                assert(body@.subrange(part_start as int, body@.len() as int) == rest);
                match find_subslice(slice_subrange(body, part_start, body.len()), marker) {
                    None => {
                        let part: &'a [u8] = trim_part_prefix(
                            slice_subrange(body, part_start, body.len()),
                        );
                        parts.push(part);
                        assert(byte_strings(parts@) == byte_strings(before) + seq![part@]);
                        return parts;
                    },
                    Some(offset) => {
                        let next: usize = part_start + offset;
                        assert(body@.subrange(part_start as int, next as int) == rest.take(
                            offset as int,
                        ));
                        let part: &'a [u8] = trim_part_prefix(
                            slice_subrange(body, part_start, next),
                        );
                        parts.push(part);
                        cursor = next;
                        assert(rest.skip(offset as int) == body@.skip(cursor as int));
                        assert(byte_strings(parts@) == byte_strings(before).push(part@));
                        assert(byte_strings(before) + (seq![part@] + parts_of(
                            body@.skip(cursor as int),
                            marker@,
                        )) == byte_strings(parts@) + parts_of(
                            body@.skip(cursor as int),
                            marker@,
                        ));
                    },
                }
            },
        }
    }
}

/// What follows `prefix` in the first of the pieces that starts with it, white space aside.
pub open spec fn first_after_prefix(pieces: Seq<Seq<char>>, prefix: Seq<char>) -> Option<Seq<char>>
    decreases pieces.len(),
{
    if pieces.len() == 0 {
        None
    } else {
        match text::after_prefix(text::trimmed(pieces[0]), prefix) {
            Some(rest) => Some(rest),
            None => first_after_prefix(pieces.skip(1), prefix),
        }
    }
}

/// What follows `prefix` in the first piece of `s`, between semicolons, that starts with it.
fn parameter(s: &str, prefix: &str) -> (r: Option<String>)
    ensures
        text::opt_text(r) == first_after_prefix(text::split_on(s@, ';'), prefix@),
{
    let pieces: Vec<String> = text::split(s, ';');
    let ghost all = text::texts(pieces@);
    let mut i: usize = 0;
    assert(all.skip(0) == all);
    while i < pieces.len()
        invariant
            i <= pieces@.len(),
            all == text::texts(pieces@),
            all == text::split_on(s@, ';'),
            first_after_prefix(all, prefix@) == first_after_prefix(all.skip(i as int), prefix@),
        decreases pieces@.len() - i,
    {
        let piece: String = text::trim(pieces[i].as_str());
        assert(all.skip(i as int)[0] == pieces@[i as int]@);
        if let Some(rest) = text::strip_prefix(piece.as_str(), prefix) {
            return Some(rest);
        }
        assert(all.skip(i as int).skip(1) == all.skip(i + 1));
        i += 1;
    }
    None
}

/// The boundary that a content type names.
pub open spec fn boundary_in(content_type: Seq<char>) -> Option<Seq<char>> {
    match first_after_prefix(text::split_on(content_type, ';'), "boundary="@) {
        Some(value) => Some(text::trim_end_char(text::trim_start_char(value, '"'), '"')),
        None => None,
    }
}

/// The name of a field, from the headers of its part.
pub open spec fn field_name_in(headers: Seq<char>) -> Option<Seq<char>> {
    match first_after_prefix(text::split_on(headers, ';'), "name=\""@) {
        Some(value) => Some(value.take(text::span(value, '"') as int)),
        None => None,
    }
}

/// The name of a field, from the headers of its part.
pub fn multipart_name(headers: &str) -> (r: Option<String>)
    ensures
        text::opt_text(r) == field_name_in(headers@),
{
    match parameter(headers, "name=\"") {
        Some(value) => match text::split_at_first(value.as_str(), '"') {
            Some((name, _)) => Some(name),
            None => {
                proof {
                    text::span_at_most(value@, '"');
                    assert(value@.take(value@.len() as int) == value@);
                }
                Some(value)
            },
        },
        None => None,
    }
}

/// The value of the header `content-type` in a line, where the line is one.
pub open spec fn content_type_of(line: Seq<char>) -> Option<Seq<char>> {
    match text::split_once(line, ':') {
        Some((name, value)) => if text::same_ignoring_case(text::trimmed(name), "content-type"@) {
            Some(text::trimmed(value))
        } else {
            None
        },
        None => None,
    }
}

/// The value of the first header `content-type` in the lines.
pub open spec fn content_type_in(lines: Seq<Seq<char>>) -> Option<Seq<char>>
    decreases lines.len(),
{
    if lines.len() == 0 {
        None
    } else {
        match content_type_of(lines[0]) {
            Some(value) => Some(value),
            None => content_type_in(lines.skip(1)),
        }
    }
}

/// The content type of a part, from its headers.
pub fn multipart_content_type(headers: &str) -> (r: Option<String>)
    ensures
        text::opt_text(r) == content_type_in(text::lines_of(headers@)),
{
    let lines: Vec<String> = text::lines(headers);
    let ghost all = text::texts(lines@);
    let mut i: usize = 0;
    assert(all.skip(0) == all);
    while i < lines.len()
        invariant
            i <= lines@.len(),
            all == text::texts(lines@),
            all == text::lines_of(headers@),
            content_type_in(all) == content_type_in(all.skip(i as int)),
        decreases lines@.len() - i,
    {
        assert(all.skip(i as int)[0] == lines@[i as int]@);
        if let Some((name, value)) = text::split_at_first(lines[i].as_str(), ':') {
            let name: String = text::trim(name.as_str());
            if text::equal_ignoring_case(name.as_str(), "content-type") {
                return Some(text::trim(value.as_str()));
            }
        }
        assert(all.skip(i as int).skip(1) == all.skip(i + 1));
        i += 1;
    }
    None
}

/// The start of a PNG image.
pub open spec fn png_start() -> Seq<u8> {
    seq![0x89, 0x50, 0x4e, 0x47, 0x0d, 0x0a, 0x1a, 0x0a]
}

/// The start of a JPEG image.
pub open spec fn jpeg_start() -> Seq<u8> {
    seq![0xff, 0xd8, 0xff]
}

/// The media type of an image, by how its data start.
pub open spec fn image_mime(data: Seq<u8>) -> Seq<char> {
    if png_start().is_prefix_of(data) {
        "image/png"@
    } else if jpeg_start().is_prefix_of(data) {
        "image/jpeg"@
    } else if text::utf8("GIF87a"@).is_prefix_of(data) || text::utf8("GIF89a"@).is_prefix_of(data) {
        "image/gif"@
    } else if text::utf8("RIFF"@).is_prefix_of(data) && data.len() >= 12 && data.subrange(8, 12)
        == text::utf8("WEBP"@) {
        "image/webp"@
    } else {
        "application/octet-stream"@
    }
}

/// The media type of an image, by how its data start.
pub fn detect_image_mime(data: &[u8]) -> (r: String)
    ensures
        r@ == image_mime(data@),
{
    let png: Vec<u8> = vec![0x89, 0x50, 0x4e, 0x47, 0x0d, 0x0a, 0x1a, 0x0a];
    let jpeg: Vec<u8> = vec![0xff, 0xd8, 0xff];
    assert(png@ == png_start());
    assert(jpeg@ == jpeg_start());
    if starts_with_bytes(data, png.as_slice()) {
        "image/png".to_owned()
    } else if starts_with_bytes(data, jpeg.as_slice()) {
        "image/jpeg".to_owned()
    } else if starts_with_bytes(data, "GIF87a".as_bytes()) || starts_with_bytes(
        data,
        "GIF89a".as_bytes(),
    ) {
        "image/gif".to_owned()
    } else if starts_with_bytes(data, "RIFF".as_bytes()) && data.len() >= 12 && text::same_bytes(
        slice_subrange(data, 8, 12),
        "WEBP".as_bytes(),
    ) {
        "image/webp".to_owned()
    } else {
        "application/octet-stream".to_owned()
    }
}

/// What a part of a form is.
pub enum PartView {
    /// Nothing that is read.
    Nothing,
    /// An image, as a data URL.
    Image(Seq<char>),
    /// A field, by its name, and its text.
    Field(Seq<char>, Seq<char>),
}

/// The line break and the empty line that end the headers of a part.
pub open spec fn header_end() -> Seq<u8> {
    seq![13, 10, 13, 10]
}

/// The data URL of an image.
pub open spec fn data_url(mime: Seq<char>, data: Seq<u8>) -> Seq<char> {
    "data:"@ + mime + ";base64,"@ + outside::base64(data, false)
}

/// What a part with the given headers and content is.
pub open spec fn content_of(headers: Seq<char>, value: Seq<u8>) -> PartView {
    match field_name_in(headers) {
        None => PartView::Nothing,
        Some(name) => if name == "image"@ || name == "images"@ {
            let mime = match content_type_in(text::lines_of(headers)) {
                Some(mime) => mime,
                None => image_mime(value),
            };
            PartView::Image(data_url(mime, value))
        } else {
            PartView::Field(name, text::trimmed(outside::text_in(value)))
        },
    }
}

/// What a part of a form is.
pub open spec fn part_content(part: Seq<u8>) -> PartView {
    if part.len() == 0 || (part.len() >= 2 && part[0] == 45 && part[1] == 45) {
        PartView::Nothing
    } else {
        match first_at(part, header_end()) {
            None => PartView::Nothing,
            Some(end) => content_of(
                outside::text_in(part.take(end)),
                without_break_after(part.skip(end + 4)),
            ),
        }
    }
}

/// What a form holds: its fields, of those with one name the last, and its images in their order.
pub struct FormView {
    pub fields: Seq<(Seq<char>, Tree)>,
    pub images: Seq<Seq<char>>,
}

/// What a form with the given parts holds.
pub open spec fn form_of(parts: Seq<Seq<u8>>) -> FormView
    decreases parts.len(),
{
    if parts.len() == 0 {
        FormView { fields: Seq::empty(), images: Seq::empty() }
    } else {
        let before = form_of(parts.drop_last());
        match part_content(parts.last()) {
            PartView::Nothing => before,
            PartView::Image(url) => FormView { images: before.images.push(url), ..before },
            PartView::Field(name, value) => FormView {
                fields: json::with_entry(before.fields, name, Tree::Text(value)),
                ..before
            },
        }
    }
}

/// What stands before each part of a form with the given boundary.
pub open spec fn marker_of(boundary: Seq<char>) -> Seq<u8> {
    text::utf8("--"@ + boundary)
}

/// A form.
pub struct ParsedMultipart {
    pub raw_fields: JsonMap,
    pub images: Vec<String>,
}

impl View for ParsedMultipart {
    type V = FormView;

    open spec fn view(&self) -> FormView {
        FormView { fields: self.raw_fields@, images: text::texts(self.images@) }
    }
}

/// A part of a form.
enum Part {
    Nothing,
    Image(String),
    Field(String, String),
}

/// What a part of a form is.
spec fn part_view(part: Part) -> PartView {
    match part {
        Part::Nothing => PartView::Nothing,
        Part::Image(url) => PartView::Image(url@),
        Part::Field(name, value) => PartView::Field(name@, value@),
    }
}

/// Reads a part of a form.
fn read_part(part: &[u8]) -> (r: Part)
    ensures
        part_view(r) == part_content(part@),
{
    if part.len() == 0 || (part.len() >= 2 && part[0] == 45 && part[1] == 45) {
        return Part::Nothing;
    }
    let end_mark: Vec<u8> = vec![13, 10, 13, 10];
    assert(end_mark@ == header_end());
    let end: usize = match find_subslice(part, end_mark.as_slice()) {
        Some(end) => end,
        None => {
            return Part::Nothing;
        },
    };
    assert(part@.subrange(0, end as int) == part@.take(end as int));
    assert(part@.subrange(end + 4, part@.len() as int) == part@.skip(end + 4));
    let headers: String = outside::lossy_text(slice_subrange(part, 0, end));
    let value: &[u8] = trim_part_suffix(slice_subrange(part, end + 4, part.len()));
    let name: String = match multipart_name(headers.as_str()) {
        Some(name) => name,
        None => {
            return Part::Nothing;
        },
    };
    if text::same_text(name.as_str(), "image") || text::same_text(name.as_str(), "images") {
        let mime: String = match multipart_content_type(headers.as_str()) {
            Some(mime) => mime,
            None => detect_image_mime(value),
        };
        let mut url: String = text::joined("data:", mime.as_str());
        url.append(";base64,");
        let data: String = outside::base64_standard(value);
        url.append(data.as_str());
        Part::Image(url)
    } else {
        let lossy: String = outside::lossy_text(value);
        let value: String = text::trim(lossy.as_str());
        Part::Field(name, value)
    }
}

/// Reads a form with the given content type. There is none where the content type names no
/// boundary.
pub fn parse_multipart_form(content_type: &str, body: &[u8]) -> (r: Option<ParsedMultipart>)
    ensures
        match r {
            Some(form) => boundary_in(content_type@) matches Some(boundary) && form@ == form_of(
                parts_of(body@, marker_of(boundary)),
            ),
            None => boundary_in(content_type@) is None,
        },
{
    let boundary: String = match parameter(content_type, "boundary=") {
        Some(value) => text::trim_of(value.as_str(), '"'),
        None => {
            return None;
        },
    };
    let marker: String = text::joined("--", boundary.as_str());
    proof {
        reveal_strlit("--");
        text::utf8_nonempty("--"@ + boundary@);
    }
    let parts: Vec<&[u8]> = split_multipart_parts(body, marker.as_str().as_bytes());
    let ghost all = byte_strings(parts@);
    let mut raw_fields: JsonMap = JsonMap::new();
    let mut images: Vec<String> = Vec::new();
    let mut i: usize = 0;
    assert(text::texts(images@) == Seq::<Seq<char>>::empty());
    while i < parts.len()
        invariant
            i <= parts@.len(),
            all == byte_strings(parts@),
            form_of(all.take(i as int)) == (FormView {
                fields: raw_fields@,
                images: text::texts(images@),
            }),
        decreases parts@.len() - i,
    {
        let ghost before = images@;
        proof {
            assert(all.take(i + 1).drop_last() == all.take(i as int));
            assert(all.take(i + 1).last() == parts@[i as int]@);
        }
        match read_part(parts[i]) {
            Part::Nothing => {},
            Part::Image(url) => {
                images.push(url);
                assert(text::texts(images@) == text::texts(before).push(url@));
            },
            Part::Field(name, value) => {
                raw_fields.insert(name, Json::Text(value));
            },
        }
        i += 1;
    }
    assert(all.take(i as int) == all);
    Some(ParsedMultipart { raw_fields, images })
}

/// A part of a form as a client writes it: its headers and its value.
pub struct WrittenPart {
    pub headers: Seq<u8>,
    pub value: Seq<u8>,
}

/// The line break that a form is written with.
pub open spec fn line_break() -> Seq<u8> {
    seq![13, 10]
}

/// What a client writes behind the marker of a part.
pub open spec fn written_part(part: WrittenPart) -> Seq<u8> {
    line_break() + part.headers + header_end() + part.value + line_break()
}

/// A form as a client writes it: each part behind a marker, and a last marker with two hyphens.
pub open spec fn written_form(marker: Seq<u8>, parts: Seq<WrittenPart>) -> Seq<u8>
    decreases parts.len(),
{
    if parts.len() == 0 {
        marker + seq![45u8, 45] + line_break()
    } else {
        marker + written_part(parts[0]) + written_form(marker, parts.skip(1))
    }
}

/// Whether `bytes` hold no end of a line.
pub open spec fn is_one_line(bytes: Seq<u8>) -> bool {
    forall|i: int| 0 <= i < bytes.len() ==> #[trigger] bytes[i] != 13 && bytes[i] != 10
}

/// Whether a part can be told from what stands around it: the marker is not in it, its headers are
/// there, hold no empty line and do not look like the end of the form, and its value does not end
/// in two hyphens.
pub open spec fn is_distinct(part: WrittenPart, marker: Seq<u8>) -> bool {
    &&& forall|i: int| !#[trigger] occurs_at(part.headers, marker, i)
    &&& forall|i: int| !#[trigger] occurs_at(part.value, marker, i)
    &&& forall|i: int| !#[trigger] occurs_at(part.headers, header_end(), i)
    &&& part.headers.len() > 0
    &&& part.headers.last() != 10
    &&& !seq![45u8, 45].is_prefix_of(part.headers)
    &&& !seq![45u8, 45].is_suffix_of(part.value)
}

/// What the parts that a client wrote hold.
pub open spec fn written_content(parts: Seq<WrittenPart>) -> FormView
    decreases parts.len(),
{
    if parts.len() == 0 {
        FormView { fields: Seq::empty(), images: Seq::empty() }
    } else {
        let before = written_content(parts.drop_last());
        let part = parts.last();
        match content_of(outside::text_in(part.headers), part.value) {
            PartView::Nothing => before,
            PartView::Image(url) => FormView { images: before.images.push(url), ..before },
            PartView::Field(name, value) => FormView {
                fields: json::with_entry(before.fields, name, Tree::Text(value)),
                ..before
            },
        }
    }
}

/// A marker that is one line stands in no part that can be told from it, nor across its end.
proof fn lemma_marker_after_part(part: WrittenPart, marker: Seq<u8>, rest: Seq<u8>)
    requires
        marker.len() > 0,
        is_one_line(marker),
        is_distinct(part, marker),
        marker.is_prefix_of(rest),
    ensures
        first_at(written_part(part) + rest, marker) == Some(written_part(part).len() as int),
{
    let c = written_part(part);
    let all = c + rest;
    let h = part.headers.len() as int;
    let v = part.value.len() as int;
    let m = marker.len() as int;
    assert(c.len() == h + v + 8);
    assert(c[1] == 10 && c[2 + h] == 13 && c[3 + h] == 10 && c[4 + h] == 13 && c[5 + h] == 10 && c[6
        + h + v] == 13 && c[7 + h + v] == 10 && c[0] == 13);
    assert(all.subrange(c.len() as int, c.len() + m) == marker) by {
        assert(rest.subrange(0, m) == marker);
        assert(all.subrange(c.len() as int, c.len() + m) == rest.subrange(0, m));
    }
    assert(occurs_at(all, marker, c.len() as int));
    assert forall|j: int| 0 <= j < c.len() implies !#[trigger] occurs_at(all, marker, j) by {
        if occurs_at(all, marker, j) {
            let found = all.subrange(j, j + m);
            assert(forall|k: int| j <= k < j + m ==> #[trigger] all[k] == found[k - j]);
            assert(forall|k: int| j <= k < j + m ==> #[trigger] all[k] != 13 && all[k] != 10);
            assert(forall|k: int| 0 <= k < c.len() ==> #[trigger] all[k] == c[k]);
            assert(all[0] == 13 && all[1] == 10 && all[2 + h] == 13 && all[3 + h] == 10 && all[4 + h]
                == 13 && all[5 + h] == 10 && all[6 + h + v] == 13 && all[7 + h + v] == 10);
            if j < 2 + h {
                assert(part.headers.subrange(j - 2, j - 2 + m) == found) by {
                    assert(forall|k: int| 0 <= k < h ==> #[trigger] part.headers[k] == c[k + 2]);
                }
                assert(occurs_at(part.headers, marker, j - 2));
            } else {
                assert(j >= 6 + h);
                assert(part.value.subrange(j - 6 - h, j - 6 - h + m) == found) by {
                    assert(forall|k: int|
                        0 <= k < v ==> #[trigger] part.value[k] == c[k + 6 + h]);
                }
                assert(occurs_at(part.value, marker, j - 6 - h));
            }
        }
    }
    first_at_unique(all, marker, c.len() as int);
}

/// A form starts with its marker.
proof fn lemma_form_starts(marker: Seq<u8>, parts: Seq<WrittenPart>)
    ensures
        marker.is_prefix_of(written_form(marker, parts)),
{
    let form = written_form(marker, parts);
    if parts.len() == 0 {
        assert(form.subrange(0, marker.len() as int) == marker);
    } else {
        assert(form.subrange(0, marker.len() as int) == marker);
    }
}

/// What the end of a form is split into: what stands behind the last marker, or nothing, twice, where
/// the two hyphens there are a marker themselves.
spec fn end_parts(marker: Seq<u8>) -> Seq<Seq<u8>> {
    if marker == seq![45u8, 45] {
        seq![Seq::empty(), Seq::empty()]
    } else {
        seq![seq![45u8, 45] + line_break()]
    }
}

/// The end of a form is split into parts that hold nothing.
proof fn lemma_end_parts(marker: Seq<u8>)
    requires
        marker.len() >= 2,
        is_one_line(marker),
    ensures
        parts_of(marker + seq![45u8, 45] + line_break(), marker) == end_parts(marker),
{
    let form = marker + seq![45u8, 45] + line_break();
    let m = marker.len() as int;
    let rest = form.skip(m);
    assert(form.subrange(0, m) == marker);
    assert(occurs_at(form, marker, 0));
    assert(rest == seq![45u8, 45] + line_break());
    if marker == seq![45u8, 45] {
        assert(rest.subrange(0, 2) == marker);
        assert(occurs_at(rest, marker, 0));
        let last = rest.skip(2);
        assert(last == line_break());
        assert forall|j: int| !#[trigger] occurs_at(last, marker, j) by {
            if occurs_at(last, marker, j) {
                assert(last.subrange(j, j + 2)[0] == last[j]);
            }
        }
        first_at_is_first(last, marker);
        assert(without_break_before(last) == Seq::<u8>::empty());
        assert(rest.skip(0) == rest);
        assert(parts_of(rest, marker) == seq![Seq::<u8>::empty()]);
        assert(without_break_before(rest.take(0)) == Seq::<u8>::empty());
        assert(seq![Seq::<u8>::empty()] + seq![Seq::<u8>::empty()] == end_parts(marker));
    } else {
        assert forall|j: int| !#[trigger] occurs_at(rest, marker, j) by {
            if occurs_at(rest, marker, j) {
                let found = rest.subrange(j, j + m);
                if j + m > 2 {
                    assert(found[2 - j] == rest[2]);
                    assert(marker[2 - j] == 13);
                } else {
                    assert(found == seq![45u8, 45]);
                }
            }
        }
        first_at_is_first(rest, marker);
        assert(without_break_before(rest) == rest);
    }
}

/// Parts that hold nothing add nothing to a form.
proof fn lemma_end_holds_nothing(parts: Seq<Seq<u8>>, marker: Seq<u8>)
    ensures
        form_of(parts + end_parts(marker)) == form_of(parts),
{
    let end = seq![45u8, 45] + line_break();
    let empty = Seq::<u8>::empty();
    assert(part_content(end) is Nothing);
    assert(part_content(empty) is Nothing);
    if marker == seq![45u8, 45] {
        let once = parts.push(empty);
        assert((parts + end_parts(marker)).drop_last() == once);
        assert((parts + end_parts(marker)).last() == empty);
        assert(once.drop_last() == parts);
        assert(form_of(once) == form_of(parts));
    } else {
        assert((parts + end_parts(marker)).drop_last() == parts);
        assert((parts + end_parts(marker)).last() == end);
    }
}

/// The parts of a form are those that a client wrote, and the end.
proof fn lemma_parts_of_written(marker: Seq<u8>, parts: Seq<WrittenPart>)
    requires
        marker.len() >= 2,
        is_one_line(marker),
        forall|i: int| 0 <= i < parts.len() ==> is_distinct(#[trigger] parts[i], marker),
    ensures
        parts_of(written_form(marker, parts), marker) == Seq::new(
            parts.len(),
            |i: int| written_part(parts[i]).skip(2),
        ) + end_parts(marker),
    decreases parts.len(),
{
    let form = written_form(marker, parts);
    let m = marker.len() as int;
    lemma_form_starts(marker, parts);
    assert(occurs_at(form, marker, 0));
    if parts.len() == 0 {
        lemma_end_parts(marker);
        assert(Seq::new(parts.len(), |i: int| written_part(parts[i]).skip(2)) + end_parts(marker)
            == end_parts(marker));
    } else {
        let c = written_part(parts[0]);
        let next = written_form(marker, parts.skip(1));
        let rest = form.skip(m);
        assert(rest == c + next);
        lemma_form_starts(marker, parts.skip(1));
        assert(is_distinct(parts[0], marker));
        lemma_marker_after_part(parts[0], marker, next);
        assert(rest.take(c.len() as int) == c);
        assert(rest.skip(c.len() as int) == next);
        assert(without_break_before(c) == c.skip(2));
        assert forall|i: int| 0 <= i < parts.skip(1).len() implies is_distinct(
            #[trigger] parts.skip(1)[i],
            marker,
        ) by {
            assert(parts.skip(1)[i] == parts[i + 1]);
        }
        lemma_parts_of_written(marker, parts.skip(1));
        let all = Seq::new(parts.len(), |i: int| written_part(parts[i]).skip(2));
        let later = Seq::new(
            parts.skip(1).len(),
            |i: int| written_part(parts.skip(1)[i]).skip(2),
        );
        assert(seq![c.skip(2)] + (later + end_parts(marker)) == all + end_parts(marker));
    }
}

/// A part that can be told from what stands around it is read as it was written.
proof fn lemma_written_part_read(part: WrittenPart, marker: Seq<u8>)
    requires
        is_distinct(part, marker),
    ensures
        part_content(written_part(part).skip(2)) == content_of(
            outside::text_in(part.headers),
            part.value,
        ),
{
    let p = written_part(part).skip(2);
    let h = part.headers.len() as int;
    let v = part.value.len() as int;
    assert(p == part.headers + header_end() + part.value + line_break());
    if p.len() >= 2 && p[0] == 45 && p[1] == 45 {
        if h >= 2 {
            assert(part.headers.subrange(0, 2) == seq![45u8, 45]);
        } else {
            assert(p[1] == 13);
        }
    }
    assert(p.subrange(h, h + 4) == header_end());
    assert(occurs_at(p, header_end(), h));
    assert forall|j: int| 0 <= j < h implies !#[trigger] occurs_at(p, header_end(), j) by {
        if occurs_at(p, header_end(), j) {
            let found = p.subrange(j, j + 4);
            assert(found[0] == p[j] && found[1] == p[j + 1] && found[2] == p[j + 2] && found[3]
                == p[j + 3]);
            assert(p[h] == 13 && p[h + 1] == 10 && p[h + 2] == 13 && p[h + 3] == 10);
            assert(p[h - 1] == part.headers.last());
            if j + 4 <= h {
                assert(part.headers.subrange(j, j + 4) == found);
                assert(occurs_at(part.headers, header_end(), j));
            } else if j == h - 2 {
                assert(found[1] == p[h - 1]);
            } else if j == h - 1 {
                assert(found[1] == p[h]);
            } else {
                assert(found[3] == p[h]);
            }
        }
    }
    first_at_unique(p, header_end(), h);
    assert(p.take(h) == part.headers);
    let tail = p.skip(h + 4);
    assert(tail == part.value + line_break());
    assert(tail.take(v) == part.value);
    if v >= 2 && part.value[v - 2] == 45 && part.value[v - 1] == 45 {
        assert(part.value.subrange(v - 2, v) == seq![45u8, 45]);
    }
    assert(without_break_after(tail) == part.value);
}

/// A form that a client writes is read back: every field has the value that was written, every
/// image the very bytes, and they come in the order in which they were written.
pub proof fn written_form_is_read_back(marker: Seq<u8>, parts: Seq<WrittenPart>)
    requires
        marker.len() >= 2,
        is_one_line(marker),
        forall|i: int| 0 <= i < parts.len() ==> is_distinct(#[trigger] parts[i], marker),
    ensures
        form_of(parts_of(written_form(marker, parts), marker)) == written_content(parts),
{
    let all = Seq::new(parts.len(), |i: int| written_part(parts[i]).skip(2));
    lemma_parts_of_written(marker, parts);
    lemma_end_holds_nothing(all, marker);
    lemma_written_contents(marker, parts);
}

/// Parts that can be told from what stands around them hold what was written.
proof fn lemma_written_contents(marker: Seq<u8>, parts: Seq<WrittenPart>)
    requires
        forall|i: int| 0 <= i < parts.len() ==> is_distinct(#[trigger] parts[i], marker),
    ensures
        form_of(Seq::new(parts.len(), |i: int| written_part(parts[i]).skip(2))) == written_content(
            parts,
        ),
    decreases parts.len(),
{
    let all = Seq::new(parts.len(), |i: int| written_part(parts[i]).skip(2));
    if parts.len() > 0 {
        let shorter = parts.drop_last();
        assert(all.drop_last() == Seq::new(
            shorter.len(),
            |i: int| written_part(shorter[i]).skip(2),
        ));
        assert forall|i: int| 0 <= i < shorter.len() implies is_distinct(
            #[trigger] shorter[i],
            marker,
        ) by {
            assert(shorter[i] == parts[i]);
        }
        lemma_written_contents(marker, shorter);
        assert(is_distinct(parts.last(), marker)) by {
            assert(parts.last() == parts[parts.len() - 1]);
        }
        lemma_written_part_read(parts.last(), marker);
        assert(all.last() == written_part(parts.last()).skip(2));
    }
}

/// An image loses nothing on its way into a data URL: different bytes have different ones.
pub proof fn data_url_keeps_the_bytes(mime: Seq<char>, a: Seq<u8>, b: Seq<u8>)
    requires
        data_url(mime, a) == data_url(mime, b),
    ensures
        a == b,
{
    let start = "data:"@ + mime + ";base64,"@;
    let n = start.len() as int;
    assert(data_url(mime, a).skip(n) == outside::base64(a, false));
    assert(data_url(mime, b).skip(n) == outside::base64(b, false));
    outside::base64_is_injective(a, b, false);
}

/// The headers of an image in a form, as a client writes them that names no media type.
pub open spec fn image_headers() -> Seq<char> {
    "Content-Disposition: form-data; name=\"image\""@
}

/// The characters of the headers of an image.
proof fn lemma_image_header_char(j: int)
    requires
        0 <= j < 44,
    ensures
        image_headers().len() == 44,
        image_headers()[0] == 'C',
        image_headers()[18] == 'n',
        image_headers()[19] == ':',
        image_headers()[29] == 'a',
        image_headers()[30] == ';',
        image_headers()[31] == ' ',
        image_headers().skip(32) == "name=\""@ + "image"@ + seq!['"'],
        image_headers()[j] != '\r',
        image_headers()[j] != '\n',
        image_headers()[j] == ';' ==> j == 30,
        image_headers()[j] == ':' ==> j == 19,
        j < 43 && image_headers()[j] == '-' ==> image_headers()[j + 1] != '-',
        ' ' <= image_headers()[j] <= '~',
{
    reveal_strlit("Content-Disposition: form-data; name=\"image\"");
    reveal_strlit("name=\"");
    reveal_strlit("image");
    assert(j == 0 || j == 1 || j == 2 || j == 3 || j == 4 || j == 5 || j == 6 || j == 7 || j == 8
        || j == 9 || j == 10 || j == 11 || j == 12 || j == 13 || j == 14 || j == 15 || j == 16 || j
        == 17 || j == 18 || j == 19 || j == 20 || j == 21 || j == 22 || j == 23 || j == 24 || j
        == 25 || j == 26 || j == 27 || j == 28 || j == 29 || j == 30 || j == 31 || j == 32 || j
        == 33 || j == 34 || j == 35 || j == 36 || j == 37 || j == 38 || j == 39 || j == 40 || j
        == 41 || j == 42 || j == 43);
}

/// The headers of an image name the field `image`, and no media type.
proof fn lemma_image_headers()
    ensures
        field_name_in(image_headers()) == Some("image"@),
        content_type_in(text::lines_of(image_headers())) is None,
{
    let h = image_headers();
    lemma_image_header_char(0);
    let a = h.take(30);
    let rest = h.skip(31);
    assert(!a.contains(';')) by {
        if a.contains(';') {
            let j = choose|j: int| 0 <= j < a.len() && a[j] == ';';
            lemma_image_header_char(j);
        }
    }
    assert(!rest.contains(';')) by {
        if rest.contains(';') {
            let j = choose|j: int| 0 <= j < rest.len() && rest[j] == ';';
            lemma_image_header_char(j + 31);
        }
    }
    assert(h == a + seq![';'] + rest);
    text::span_of_free_prefix(a, ';', rest);
    text::span_of_free(rest, ';');
    assert(text::split_on(rest, ';') == seq![rest]);
    let pieces = text::split_on(h, ';');
    assert(pieces == seq![a] + seq![rest]);
    reveal_strlit("name=\"");
    reveal_strlit("image");
    let prefix = "name=\""@;
    assert(text::trimmed(a) == a);
    if prefix.is_prefix_of(a) {
        assert(a.subrange(0, 6)[0] == a[0]);
    }
    let value = "image"@ + seq!['"'];
    assert(rest.skip(1) == h.skip(32));
    assert(rest.skip(1) == prefix + value);
    assert(rest[0] == h[31]);
    assert((prefix + value)[0] == 'n');
    assert((prefix + value).last() == '"');
    assert(text::trim_start(rest.skip(1)) == rest.skip(1));
    assert(text::trimmed(rest) == prefix + value);
    assert((prefix + value).subrange(0, 6) == prefix);
    assert((prefix + value).skip(6) == value);
    assert(pieces.skip(1)[0] == rest);
    assert(first_after_prefix(pieces.skip(1), prefix) == Some(value));
    assert(first_after_prefix(pieces, prefix) == Some(value));
    assert(!"image"@.contains('"')) by {
        if "image"@.contains('"') {
            let j = choose|j: int| 0 <= j < "image"@.len() && "image"@[j] == '"';
            assert(j == 0 || j == 1 || j == 2 || j == 3 || j == 4);
        }
    }
    text::span_of_free_prefix("image"@, '"', Seq::empty());
    assert(value == "image"@ + seq!['"'] + Seq::<char>::empty());
    assert(value.take(5) == "image"@);

    assert(!h.contains('\n')) by {
        if h.contains('\n') {
            let j = choose|j: int| 0 <= j < h.len() && h[j] == '\n';
            lemma_image_header_char(j);
        }
    }
    text::span_of_free(h, '\n');
    let name = h.take(19);
    assert(!name.contains(':')) by {
        if name.contains(':') {
            let j = choose|j: int| 0 <= j < name.len() && name[j] == ':';
            lemma_image_header_char(j);
        }
    }
    assert(h == name + seq![':'] + h.skip(20));
    text::span_of_free_prefix(name, ':', h.skip(20));
    assert(text::trimmed(name) == name);
    reveal_strlit("content-type");
    assert(text::lowercase(name).len() == 19);
    assert(text::lowercase("content-type"@).len() == 12);
    let lines = text::lines_of(h);
    assert(lines == seq![h]);
    assert(content_type_of(lines[0]) is None);
    assert(content_type_in(lines.skip(1)) is None);
}

/// The marker of a boundary that is one line is one line too, and starts with two hyphens.
pub(crate) proof fn lemma_marker(boundary: Seq<char>)
    requires
        forall|i: int|
            0 <= i < boundary.len() ==> #[trigger] boundary[i] != '\r' && boundary[i] != '\n',
    ensures
        marker_of(boundary).len() >= 2,
        marker_of(boundary)[0] == 45,
        marker_of(boundary)[1] == 45,
        is_one_line(marker_of(boundary)),
{
    reveal_strlit("--");
    let s = "--"@ + boundary;
    let rest = seq!['-'] + boundary;
    assert(s == seq!['-'] + rest);
    text::utf8_starts('-', rest);
    text::utf8_starts('-', boundary);
    assert forall|i: int| 0 <= i < s.len() implies #[trigger] s[i] != '\r' && s[i] != '\n' by {
        if i >= 2 {
            assert(s[i] == boundary[i - 2]);
        }
    }
    text::utf8_of_free(s, '\r');
    text::utf8_of_free(s, '\n');
}

/// An image as a client writes it in a form.
pub open spec fn image_written(data: Seq<u8>) -> WrittenPart {
    WrittenPart { headers: text::utf8(image_headers()), value: data }
}

/// An image in a form can be told from what stands around it, where its data can.
proof fn lemma_image_is_distinct(data: Seq<u8>, marker: Seq<u8>)
    requires
        marker.len() >= 2,
        marker[0] == 45,
        marker[1] == 45,
        forall|i: int| !#[trigger] occurs_at(data, marker, i),
        !seq![45u8, 45].is_suffix_of(data),
    ensures
        is_distinct(image_written(data), marker),
{
    let h = image_headers();
    let bytes = text::utf8(h);
    lemma_image_header_char(0);
    assert forall|j: int| 0 <= j < h.len() implies '\0' <= #[trigger] h[j] <= '\u{7f}' by {
        lemma_image_header_char(j);
    }
    vstd::utf8::is_ascii_chars_encode_utf8(h);
    assert forall|j: int| 0 <= j < 44 implies #[trigger] bytes[j] == h[j] as u8 by {
        assert(h[j] == h[j]);
    }
    assert forall|j: int| !#[trigger] occurs_at(bytes, marker, j) by {
        if occurs_at(bytes, marker, j) {
            let found = bytes.subrange(j, j + marker.len());
            assert(found[0] == bytes[j] && found[1] == bytes[j + 1]);
            lemma_image_header_char(j);
            lemma_image_header_char(j + 1);
            assert(h[j] as u8 == 45 && h[j + 1] as u8 == 45);
        }
    }
    assert forall|j: int| !#[trigger] occurs_at(bytes, header_end(), j) by {
        if occurs_at(bytes, header_end(), j) {
            let found = bytes.subrange(j, j + 4);
            assert(found[0] == bytes[j]);
            lemma_image_header_char(j);
        }
    }
    lemma_image_header_char(43);
    assert(bytes.last() == bytes[43]);
    if seq![45u8, 45].is_prefix_of(bytes) {
        assert(bytes.subrange(0, 2)[0] == bytes[0]);
    }
}

/// What a form of images holds: each of them, and nothing else.
proof fn lemma_images_written(images: Seq<Seq<u8>>)
    ensures
        written_content(Seq::new(images.len(), |i: int| image_written(images[i]))) == (FormView {
            fields: Seq::empty(),
            images: Seq::new(images.len(), |i: int| data_url(image_mime(images[i]), images[i])),
        }),
    decreases images.len(),
{
    let parts = Seq::new(images.len(), |i: int| image_written(images[i]));
    let urls = Seq::new(images.len(), |i: int| data_url(image_mime(images[i]), images[i]));
    if images.len() == 0 {
        assert(urls == Seq::<Seq<char>>::empty());
    } else {
        let fewer = images.drop_last();
        lemma_images_written(fewer);
        assert(parts.drop_last() == Seq::new(fewer.len(), |i: int| image_written(fewer[i])));
        lemma_image_headers();
        outside::text_in_utf8(image_headers());
        assert(urls == Seq::new(
            fewer.len(),
            |i: int| data_url(image_mime(fewer[i]), fewer[i]),
        ).push(data_url(image_mime(images.last()), images.last())));
    }
}

/// The boundary in the content type of a form is read as it was written, where it is no more than
/// one parameter, has no white space at its end, and no quotes around it.
pub proof fn boundary_is_read_back(boundary: Seq<char>)
    requires
        !boundary.contains(';'),
        boundary.len() > 0 ==> {
            &&& !text::is_white(boundary.last())
            &&& boundary[0] != '"'
            &&& boundary.last() != '"'
        },
    ensures
        boundary_in("multipart/form-data; boundary="@ + boundary) == Some(boundary),
{
    reveal_strlit("multipart/form-data; boundary=");
    reveal_strlit("multipart/form-data");
    reveal_strlit("boundary=");
    let a = "multipart/form-data"@;
    let prefix = "boundary="@;
    let rest = seq![' '] + prefix + boundary;
    let s = "multipart/form-data; boundary="@ + boundary;
    assert("multipart/form-data; boundary="@ == a + seq![';'] + seq![' '] + prefix);
    assert(s == a + seq![';'] + rest);
    assert(!a.contains(';')) by {
        if a.contains(';') {
            let j = choose|j: int| 0 <= j < a.len() && a[j] == ';';
            assert(j == 0 || j == 1 || j == 2 || j == 3 || j == 4 || j == 5 || j == 6 || j == 7 || j
                == 8 || j == 9 || j == 10 || j == 11 || j == 12 || j == 13 || j == 14 || j == 15
                || j == 16 || j == 17 || j == 18);
        }
    }
    assert(!rest.contains(';')) by {
        if rest.contains(';') {
            let j = choose|j: int| 0 <= j < rest.len() && rest[j] == ';';
            if j >= 10 {
                assert(boundary[j - 10] == ';');
            } else {
                assert(j == 0 || j == 1 || j == 2 || j == 3 || j == 4 || j == 5 || j == 6 || j == 7
                    || j == 8 || j == 9);
            }
        }
    }
    text::span_of_free_prefix(a, ';', rest);
    text::span_of_free(rest, ';');
    assert(text::split_on(rest, ';') == seq![rest]);
    let pieces = text::split_on(s, ';');
    assert(pieces == seq![a] + seq![rest]);
    assert(text::trimmed(a) == a);
    if prefix.is_prefix_of(a) {
        assert(a.subrange(0, 9)[0] == a[0]);
    }
    let value = prefix + boundary;
    assert(rest.skip(1) == value);
    assert(value[0] == 'b');
    assert(text::trim_start(value) == value);
    assert(!text::is_white(value.last())) by {
        if boundary.len() > 0 {
            assert(value.last() == boundary.last());
        } else {
            assert(value.last() == '=');
        }
    }
    assert(text::trimmed(rest) == value);
    assert(value.subrange(0, 9) == prefix);
    assert(value.skip(9) == boundary);
    assert(pieces.skip(1)[0] == rest);
    assert(first_after_prefix(pieces.skip(1), prefix) == Some(boundary));
    assert(first_after_prefix(pieces, prefix) == Some(boundary));
}

/// A form of images that a client writes is read back: there are as many images as were written and
/// no fields, and each image is given in base64 that stands for the very bytes, with the media type
/// that they show.
pub proof fn written_images_are_read_back(boundary: Seq<char>, images: Seq<Seq<u8>>)
    requires
        !boundary.contains(';'),
        boundary.len() > 0 ==> {
            &&& !text::is_white(boundary.last())
            &&& boundary[0] != '"'
            &&& boundary.last() != '"'
        },
        forall|i: int|
            0 <= i < boundary.len() ==> #[trigger] boundary[i] != '\r' && boundary[i] != '\n',
        forall|i: int, k: int|
            0 <= i < images.len() ==> !#[trigger] occurs_at(images[i], marker_of(boundary), k),
        forall|i: int|
            0 <= i < images.len() ==> !seq![45u8, 45].is_suffix_of(#[trigger] images[i]),
    ensures
        ({
            let content_type = "multipart/form-data; boundary="@ + boundary;
            let body = written_form(
                marker_of(boundary),
                Seq::new(images.len(), |i: int| image_written(images[i])),
            );
            let form = form_of(parts_of(body, marker_of(boundary)));
            &&& boundary_in(content_type) == Some(boundary)
            &&& form.fields.len() == 0
            &&& form.images.len() == images.len()
            &&& forall|i: int|
                0 <= i < images.len() ==> #[trigger] form.images[i] == "data:"@ + image_mime(
                    images[i],
                ) + ";base64,"@ + outside::base64(images[i], false)
        }),
        forall|i: int, data: Seq<u8>|
            0 <= i < images.len() && #[trigger] outside::base64(data, false) == outside::base64(
                #[trigger] images[i],
                false,
            ) ==> data == images[i],
{
    let marker = marker_of(boundary);
    let parts = Seq::new(images.len(), |i: int| image_written(images[i]));
    boundary_is_read_back(boundary);
    lemma_marker(boundary);
    assert forall|i: int| 0 <= i < parts.len() implies is_distinct(#[trigger] parts[i], marker) by {
        lemma_image_is_distinct(images[i], marker);
    }
    written_form_is_read_back(marker, parts);
    lemma_images_written(images);
    assert forall|i: int, data: Seq<u8>|
        0 <= i < images.len() && #[trigger] outside::base64(data, false) == outside::base64(
            #[trigger] images[i],
            false,
        ) implies data == images[i] by {
        outside::base64_is_injective(data, images[i], false);
    }
}

} // verus!
