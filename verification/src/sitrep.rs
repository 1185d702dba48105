//! The situation report: an envelope of text with an image attached, and a map of where
//! its parts lie.
use vstd::prelude::*;
use vstd::string::*;
use vstd::utf8::*;

verus! {

/// One labelled range of bytes of the payload.
#[derive(Debug, Clone, PartialEq, Eq)]
pub struct Field {
    /// What lies there.
    pub label: String,
    /// First byte.
    pub start: usize,
    /// Byte after the last.
    pub end: usize,
}

/// Where the parts of the payload lie.
#[derive(Debug, Clone, PartialEq, Eq)]
pub struct FieldOffsets {
    /// Bytes of the payload.
    pub total_len: usize,
    /// Its parts, in order.
    pub fields: Vec<Field>,
    /// Bytes of the image.
    pub image_byte_len: usize,
}

impl Field {
    /// The field is this one.
    pub open spec fn reads(self, label: Seq<char>, start: int, end: int) -> bool {
        &&& self.label@ == label
        &&& self.start == start
        &&& self.end == end
    }
}

/// The header lines.
pub open spec fn header(callsign: Seq<char>, position_line: Seq<char>) -> Seq<char> {
    "To: EMCOMM-NET\nFrom: "@ + callsign
        + "\nSubject: SITREP - Disaster Area Recon\nDate: 2026-06-14 18:30Z\n"@ + position_line
        + "\n"@
}

/// The body, between a blank line and the end of its own.
pub open spec fn body_block(body: Seq<char>) -> Seq<char> {
    "\n"@ + body + "\n"@
}

/// The line that announces the image.
pub open spec fn marker(image_len: nat) -> Seq<char> {
    "\n--- attachment: recon.jpg ("@ + crate::text::decimal(image_len) + " bytes) ---\n"@
}

/// The bytes of the header.
pub open spec fn header_bytes(callsign: Seq<char>, position_line: Seq<char>) -> Seq<u8> {
    encode_utf8(header(callsign, position_line))
}

/// The bytes of the body and of the line after it.
pub open spec fn body_bytes(body: Seq<char>, image_len: nat) -> Seq<u8> {
    encode_utf8(body_block(body)) + encode_utf8(marker(image_len))
}

/// Where the parts lie, given their lengths.
pub open spec fn maps_parts(o: FieldOffsets, header_len: int, body_len: int, image_len: int) -> bool {
    &&& o.total_len == header_len + body_len + image_len
    &&& o.image_byte_len == image_len
    &&& o.fields@.len() == 3
    &&& o.fields@[0].reads("header"@, 0, header_len)
    &&& o.fields@[1].reads("body"@, header_len, header_len + body_len)
    &&& o.fields@[2].reads("image"@, header_len + body_len, header_len + body_len + image_len)
}

/// Build the payload and the map of its parts: the header, a blank line, the body, a
/// line that announces the attachment, and the image as it is.
pub fn build_payload(
    callsign: &str,
    position_line: &str,
    body: &str,
    image_jpeg: &[u8],
) -> (r: (Vec<u8>, FieldOffsets))
    ensures
        r.0@ == header_bytes(callsign@, position_line@) + body_bytes(body@, image_jpeg@.len())
            + image_jpeg@,
        maps_parts(
            r.1,
            header_bytes(callsign@, position_line@).len() as int,
            body_bytes(body@, image_jpeg@.len()).len() as int,
            image_jpeg@.len() as int,
        ),
{
    let image_len: usize = image_jpeg.len();
    let mut head = "To: EMCOMM-NET\nFrom: ".to_owned();
    head.append(callsign);
    head.append("\nSubject: SITREP - Disaster Area Recon\nDate: 2026-06-14 18:30Z\n");
    head.append(position_line);
    head.append("\n");
    let mut block = "\n".to_owned();
    block.append(body);
    block.append("\n");
    let mut line = "\n--- attachment: recon.jpg (".to_owned();
    line.append(crate::text::decimal_text(image_len as u64).as_str());
    line.append(" bytes) ---\n");

    let mut bytes: Vec<u8> = head.as_str().as_bytes_vec();
    let header_end: usize = bytes.len();
    let mut block_bytes = block.as_str().as_bytes_vec();
    bytes.append(&mut block_bytes);
    let mut line_bytes = line.as_str().as_bytes_vec();
    bytes.append(&mut line_bytes);
    let body_end: usize = bytes.len();
    let mut image = vstd::slice::slice_to_vec(image_jpeg);
    bytes.append(&mut image);
    let image_end: usize = bytes.len();
    proof {
        assert(head@ =~= header(callsign@, position_line@));
        assert(block@ =~= body_block(body@));
        assert(line@ =~= marker(image_jpeg@.len()));
        assert(bytes@ =~= header_bytes(callsign@, position_line@) + body_bytes(
            body@,
            image_jpeg@.len(),
        ) + image_jpeg@);
    }
    let mut fields: Vec<Field> = Vec::new();
    fields.push(Field { label: "header".to_owned(), start: 0, end: header_end });
    fields.push(Field { label: "body".to_owned(), start: header_end, end: body_end });
    fields.push(Field { label: "image".to_owned(), start: body_end, end: image_end });
    let offsets = FieldOffsets { total_len: bytes.len(), fields, image_byte_len: image_len };
    (bytes, offsets)
}

/// The parts cover the payload without a gap, and the last one is the image.
pub proof fn parts_partition_the_payload(
    bytes: Seq<u8>,
    o: FieldOffsets,
    callsign: Seq<char>,
    position_line: Seq<char>,
    body: Seq<char>,
    image: Seq<u8>,
)
    requires
        bytes == header_bytes(callsign, position_line) + body_bytes(body, image.len()) + image,
        maps_parts(
            o,
            header_bytes(callsign, position_line).len() as int,
            body_bytes(body, image.len()).len() as int,
            image.len() as int,
        ),
    ensures
        o.total_len == bytes.len(),
        o.fields@[0].start == 0,
        o.fields@[0].end == o.fields@[1].start,
        o.fields@[1].end == o.fields@[2].start,
        o.fields@[2].end == bytes.len(),
        bytes.subrange(o.fields@[2].start as int, o.fields@[2].end as int) == image,
{
    assert(bytes.subrange(o.fields@[2].start as int, o.fields@[2].end as int) =~= image);
}

/// What stands in the text of a report, and where: the callsign behind its label, the position
/// line on a line of its own, and the body between line ends.
pub proof fn report_holds_what_it_was_given(
    callsign: Seq<char>,
    position_line: Seq<char>,
    body: Seq<char>,
)
    ensures
        ({
            let h = header(callsign, position_line);
            let c = callsign.len() as int;
            let p = position_line.len() as int;
            &&& h.len() == 85 + c + p
            &&& h.subrange(21, 21 + c) == callsign
            &&& h.subrange(84 + c, 84 + c + p) == position_line
            &&& h[21 + c] == '\n' && h[83 + c] == '\n' && h.last() == '\n'
            &&& h[0] == 'T' && h[4] == 'E' && h[15] == 'F'
        }),
        ({
            let b = body_block(body);
            &&& b.len() == body.len() + 2
            &&& b[0] == '\n' && b.last() == '\n'
            &&& b.subrange(1, 1 + body.len() as int) == body
        }),
{
    reveal_strlit("To: EMCOMM-NET\nFrom: ");
    reveal_strlit("\nSubject: SITREP - Disaster Area Recon\nDate: 2026-06-14 18:30Z\n");
    reveal_strlit("\n");
    let h = header(callsign, position_line);
    let c = callsign.len() as int;
    let p = position_line.len() as int;
    assert(h.subrange(21, 21 + c) =~= callsign);
    assert(h.subrange(84 + c, 84 + c + p) =~= position_line);
    assert(body_block(body).subrange(1, 1 + body.len() as int) =~= body);
}

/// The line that announces the image gives its size in bytes, in decimal.
pub proof fn announced_size_is_the_image_size(image_len: nat)
    ensures
        ({
            let m = marker(image_len);
            let digits = m.subrange(28, m.len() - 12);
            &&& crate::text::value_of(digits) == image_len
            &&& m[0] == '\n' && m.last() == '\n'
            &&& m[27] == '(' && m[m.len() - 12] == ' '
        }),
{
    reveal_strlit("\n--- attachment: recon.jpg (");
    reveal_strlit(" bytes) ---\n");
    let m = marker(image_len);
    crate::text::decimal_reads_as_the_number(image_len);
    assert(m.subrange(28, m.len() - 12) =~= crate::text::decimal(image_len));
}

} // verus!
