//! What an editor's prompt holds: its text and the images attached to it.

use vstd::prelude::*;
use vstd::string::*;
use vstd::utf8;
use crate::attachments;
use crate::attachments::label_for;
use crate::json::{Json, JsonView};
use crate::json;
use crate::number;
use crate::number::show;
use crate::refs;
use crate::refs::has_image_extension;
use crate::text;
use crate::text::{
    cat3, char_position_from, chars_of, lower_text, same, text_slice, text_starts, trimmed,
};

verus! {

/// An image an editor attached: bytes in the prompt, or a link to a file on
/// this machine.
pub enum AcpImage {
    /// The media type and the base64 payload.
    Inline(String, String),
    Linked(String),
}

/// What an [`AcpImage`] holds.
#[verifier::ext_equal]
pub ghost enum ImageView {
    Inline(Seq<char>, Seq<char>),
    Linked(Seq<char>),
}

impl View for AcpImage {
    type V = ImageView;

    open spec fn view(&self) -> ImageView {
        match self {
            AcpImage::Inline(mime, data) => ImageView::Inline(mime@, data@),
            AcpImage::Linked(path) => ImageView::Linked(path@),
        }
    }
}

/// What each image holds.
pub open spec fn images(v: Seq<AcpImage>) -> Seq<ImageView> {
    v.map_values(|i: AcpImage| i@)
}

impl AcpImage {
    /// The name an image is shown by: its position and type, or its file's name.
    pub fn label(&self, position: usize) -> (out: String)
        ensures
            out@ == match self@ {
                ImageView::Inline(mime, _) => "image "@ + number::decimal(position as nat) + " ("@
                    + mime + ")"@,
                ImageView::Linked(path) => attachments::label(path),
            },
    {
        match self {
            AcpImage::Inline(mime, _) => {
                let mut out = "image ".to_owned();
                out.append(show(position as u64).as_str());
                out.append(" (");
                out.append(mime.as_str());
                out.append(")");
                out
            },
            AcpImage::Linked(path) => label_for(path.as_str()),
        }
    }
}

/// One editor prompt: its text, and any images the editor attached.
pub struct AcpPrompt {
    pub text: String,
    pub images: Vec<AcpImage>,
}

/// What an [`AcpPrompt`] holds.
#[verifier::ext_equal]
pub ghost struct PromptView {
    pub text: Seq<char>,
    pub images: Seq<ImageView>,
}

impl View for AcpPrompt {
    type V = PromptView;

    open spec fn view(&self) -> PromptView {
        PromptView { text: self.text@, images: images(self.images@) }
    }
}

impl PromptView {
    /// Neither words nor images.
    pub open spec fn empty(self) -> bool {
        text::trim(self.text).len() == 0 && self.images.len() == 0
    }

    /// The prompt with one more part of text, on a line of its own.
    pub open spec fn with_text(self, part: Seq<char>) -> PromptView {
        PromptView {
            text: if self.text.len() > 0 {
                self.text.push('\n') + part
            } else {
                part
            },
            images: self.images,
        }
    }

    /// The prompt with one more image.
    pub open spec fn with_image(self, image: ImageView) -> PromptView {
        PromptView { text: self.text, images: self.images.push(image) }
    }
}

impl AcpPrompt {
    pub fn is_empty(&self) -> (yes: bool)
        ensures
            yes == self@.empty(),
    {
        trimmed(self.text.as_str()).as_str().is_empty() && self.images.len() == 0
    }

    pub fn push_text(&mut self, part: &str)
        ensures
            final(self)@ == old(self)@.with_text(part@),
    {
        if !self.text.as_str().is_empty() {
            self.text.push('\n');
        }
        self.text.append(part);
        assert(self.text@ =~= old(self)@.with_text(part@).text);
    }

    fn push_image(&mut self, image: AcpImage)
        ensures
            final(self)@ == old(self)@.with_image(image@),
    {
        self.images.push(image);
        assert(images(self.images@) =~= images(old(self).images@).push(image@));
    }
}

/// The value of one hexadecimal digit.
pub open spec fn hex_value(b: u8) -> Option<int> {
    if 48 <= b <= 57 {
        Some(b - 48)
    } else if 97 <= b <= 102 {
        Some(b - 87)
    } else if 65 <= b <= 70 {
        Some(b - 55)
    } else {
        None
    }
}

/// The value of two hexadecimal digits.
pub open spec fn hex_pair(a: u8, b: u8) -> Option<int> {
    match (hex_value(a), hex_value(b)) {
        (Some(x), Some(y)) => Some(16 * x + y),
        _ => None,
    }
}

/// The bytes from `i` on with each `%` and two hexadecimal digits replaced by
/// the byte they stand for.
pub open spec fn decoded_from(b: Seq<u8>, i: int) -> Seq<u8>
    decreases b.len() - i,
{
    if i < 0 || i >= b.len() {
        seq![]
    } else {
        match (if b[i] == 37 && i + 2 < b.len() {
            hex_pair(b[i + 1], b[i + 2])
        } else {
            None
        }) {
            Some(v) => seq![v as u8] + decoded_from(b, i + 3),
            None => seq![b[i]] + decoded_from(b, i + 1),
        }
    }
}

fn hex_byte(b: u8) -> (out: Option<u8>)
    ensures
        match out {
            Some(v) => hex_value(b) == Some(v as int) && v < 16,
            None => hex_value(b) is None,
        },
{
    if 48 <= b && b <= 57 {
        Some(b - 48)
    } else if 97 <= b && b <= 102 {
        Some(b - 87)
    } else if 65 <= b && b <= 70 {
        Some(b - 55)
    } else {
        None
    }
}

fn hex_two(a: u8, b: u8) -> (out: Option<u8>)
    ensures
        match out {
            Some(v) => hex_pair(a, b) == Some(v as int),
            None => hex_pair(a, b) is None,
        },
{
    match (hex_byte(a), hex_byte(b)) {
        (Some(x), Some(y)) => Some(16 * x + y),
        _ => None,
    }
}

/// The text that [`String::from_utf8_lossy`] reads out of bytes.
pub uninterp spec fn lossy(bytes: Seq<u8>) -> Seq<char>;

/// [`String::from_utf8_lossy`]: the text of the bytes. Of bytes that are valid
/// UTF-8 it is what they encode; which replacement characters stand for invalid
/// ones is not said here.
#[verifier::external_body]
fn lossy_text(bytes: &Vec<u8>) -> (out: String)
    ensures
        out@ == lossy(bytes@),
        utf8::valid_utf8(bytes@) ==> out@ == utf8::decode_utf8(bytes@),
{
    String::from_utf8_lossy(bytes).into_owned()
}

/// The text of bytes: what they encode where they are valid UTF-8.
pub open spec fn text_of_bytes(bytes: Seq<u8>) -> Seq<char> {
    if utf8::valid_utf8(bytes) {
        utf8::decode_utf8(bytes)
    } else {
        lossy(bytes)
    }
}

/// The text with its percent escapes decoded.
pub open spec fn percent_decoded(raw: Seq<char>) -> Seq<char> {
    text_of_bytes(decoded_from(utf8::encode_utf8(raw), 0))
}

/// The bytes of the text with its percent escapes decoded.
pub fn percent_decode_bytes(raw: &str) -> (out: Vec<u8>)
    ensures
        out@ == decoded_from(utf8::encode_utf8(raw@), 0),
{
    let b = raw.as_bytes();
    let n: usize = b.len();
    let mut out: Vec<u8> = Vec::new();
    let mut i: usize = 0;
    let ghost whole = decoded_from(b@, 0);
    assert(out@ + whole =~= whole);
    while i < n
        invariant
            i <= n,
            n == b@.len(),
            out@ + decoded_from(b@, i as int) == whole,
        decreases b@.len() - i,
    {
        let ghost was = out@;
        let pair = if b[i] == 37 && n - i > 2 {
            hex_two(b[i + 1], b[i + 2])
        } else {
            None
        };
        match pair {
            Some(v) => {
                out.push(v);
                assert(out@ + decoded_from(b@, i + 3) =~= was + (seq![v] + decoded_from(
                    b@,
                    i + 3,
                )));
                i = i + 3;
            },
            None => {
                out.push(b[i]);
                assert(out@ + decoded_from(b@, i + 1) =~= was + (seq![b@[i as int]] + decoded_from(
                    b@,
                    i + 1,
                )));
                i = i + 1;
            },
        }
    }
    assert(out@ =~= whole);
    out
}

/// The text with its percent escapes decoded.
pub fn percent_decode(raw: &str) -> (out: String)
    ensures
        out@ == percent_decoded(raw@),
{
    lossy_text(&percent_decode_bytes(raw))
}

/// What follows `file://`, and `localhost` where it stands next.
pub open spec fn file_part(uri: Seq<char>) -> Option<Seq<char>> {
    if text::starts_with(uri, "file://"@) {
        let r = text::rest(uri, 7);
        let r = if text::starts_with(r, "localhost"@) {
            text::rest(r, 9)
        } else {
            r
        };
        if r.len() > 0 && r[0] == '/' {
            Some(r)
        } else {
            None
        }
    } else {
        None
    }
}

/// The local file a `file://` URI names, if it is one.
pub open spec fn uri_path(uri: Seq<char>) -> Option<Seq<char>> {
    match file_part(uri) {
        Some(r) => Some(percent_decoded(r)),
        None => None,
    }
}

/// `s` without the prefix `p`, where it begins with it.
pub fn after(s: &str, p: &str) -> (out: Option<String>)
    ensures
        match out {
            Some(t) => text::starts_with(s@, p@) && t@ == text::rest(s@, p@.len() as int),
            None => !text::starts_with(s@, p@),
        },
{
    if text_starts(s, p) {
        let x = chars_of(s);
        let k: usize = chars_of(p).len();
        Some(text_slice(&x, k, x.len()))
    } else {
        None
    }
}

/// The local file a `file://` URI names, if it is one.
pub fn acp_file_path(uri: &str) -> (out: Option<String>)
    ensures
        match out {
            Some(p) => uri_path(uri@) == Some(p@),
            None => uri_path(uri@) is None,
        },
{
    proof {
        reveal_strlit("file://");
        reveal_strlit("localhost");
    }
    match after(uri, "file://") {
        None => None,
        Some(r) => {
            let r = match after(r.as_str(), "localhost") {
                Some(t) => t,
                None => r,
            };
            let x = chars_of(r.as_str());
            if x.len() > 0 && x[0] == '/' {
                Some(percent_decode(r.as_str()))
            } else {
                None
            }
        },
    }
}

/// What stands before the first semicolon.
pub open spec fn media_type(mime: Seq<char>) -> Seq<char> {
    match text::find_char(mime, ';') {
        Some(i) => mime.take(i),
        None => mime,
    }
}

/// The media type names an image.
pub open spec fn image_mime(mime: Option<Seq<char>>) -> bool {
    match mime {
        Some(m) => text::starts_with(text::lowered(text::trim(media_type(m))), "image/"@),
        None => false,
    }
}

/// The media type names an image.
pub fn is_image_mime(mime: Option<&String>) -> (yes: bool)
    ensures
        yes == image_mime(text::ref_view(mime)),
{
    match mime {
        None => false,
        Some(m) => {
            let x = chars_of(m.as_str());
            let n: usize = match char_position_from(&x, ';', 0) {
                Some(i) => i,
                None => x.len(),
            };
            let head = text_slice(&x, 0, n);
            assert(head@ =~= media_type(m@));
            text_starts(lower_text(trimmed(head.as_str()).as_str()).as_str(), "image/")
        },
    }
}

/// The media type, or that of a PNG where none is given.
pub open spec fn mime_or_png(mime: Option<Seq<char>>) -> Seq<char> {
    match mime {
        Some(m) => m,
        None => "image/png"@,
    }
}

fn mime_text(mime: Option<&String>) -> (out: String)
    ensures
        out@ == mime_or_png(text::ref_view(mime)),
{
    match mime {
        Some(m) => m.clone(),
        None => "image/png".to_owned(),
    }
}

/// The prompt after one more content block. An image gives its bytes. A linked
/// file that is an image by its media type or its extension gives its path, and
/// any other link is named. An embedded resource gives its bytes where it is an
/// image, and its text otherwise.
pub open spec fn add_block(p: PromptView, block: JsonView) -> PromptView {
    let mime = block.text_at("mimeType"@);
    match block.text_at("type"@) {
        Some(kind) => if kind == "image"@ {
            match block.text_at("data"@) {
                Some(data) => p.with_image(ImageView::Inline(mime_or_png(mime), data)),
                None => p,
            }
        } else if kind == "resource_link"@ {
            let uri = match block.text_at("uri"@) {
                Some(u) => u,
                None => seq![],
            };
            match uri_path(uri) {
                Some(path) => if image_mime(mime) || refs::names_image(path) {
                    p.with_image(ImageView::Linked(path))
                } else {
                    p.with_text("[attached resource: "@ + uri + "]"@)
                },
                None => p.with_text("[attached resource: "@ + uri + "]"@),
            }
        } else if kind == "resource"@ {
            let resource = block.get("resource"@);
            let mime = resource.text_at("mimeType"@);
            match resource.text_at("blob"@) {
                Some(blob) if image_mime(mime) => p.with_image(
                    ImageView::Inline(mime_or_png(mime), blob),
                ),
                _ => match resource.text_at("text"@) {
                    Some(t) => p.with_text(t),
                    None => p,
                },
            }
        } else if kind == "text"@ {
            match block.text_at("text"@) {
                Some(t) => p.with_text(t),
                None => p,
            }
        } else {
            p
        },
        None => p,
    }
}

fn push_block(p: &mut AcpPrompt, block: &Json)
    ensures
        final(p)@ == add_block(old(p)@, block@),
{
    let mime = block.text_at("mimeType");
    let kind = match block.text_at("type") {
        Some(k) => k.as_str(),
        None => {
            return;
        },
    };
    if same(kind, "image") {
        match block.text_at("data") {
            Some(data) => p.push_image(AcpImage::Inline(mime_text(mime), data.clone())),
            None => {},
        }
    } else if same(kind, "resource_link") {
        let uri = match block.text_at("uri") {
            Some(u) => u.clone(),
            None => String::new(),
        };
        assert(uri@ =~= match block@.text_at("uri"@) {
            Some(u) => u,
            None => seq![],
        });
        match acp_file_path(uri.as_str()) {
            Some(path) => if is_image_mime(mime) || has_image_extension(path.as_str()) {
                p.push_image(AcpImage::Linked(path));
            } else {
                p.push_text(cat3("[attached resource: ", uri.as_str(), "]").as_str());
            },
            None => p.push_text(cat3("[attached resource: ", uri.as_str(), "]").as_str()),
        }
    } else if same(kind, "resource") {
        let none = Json::Null;
        let resource = match block.field("resource") {
            Some(r) => r,
            None => &none,
        };
        let mime = resource.text_at("mimeType");
        let is_image = is_image_mime(mime);
        match resource.text_at("blob") {
            Some(blob) if is_image => {
                p.push_image(AcpImage::Inline(mime_text(mime), blob.clone()));
            },
            _ => match resource.text_at("text") {
                Some(t) => p.push_text(t.as_str()),
                None => {},
            },
        }
    } else if same(kind, "text") {
        match block.text_at("text") {
            Some(t) => p.push_text(t.as_str()),
            None => {},
        }
    }
}

/// The prompt that the content blocks make up.
pub open spec fn prompt_of(blocks: Seq<JsonView>) -> PromptView
    decreases blocks.len(),
{
    if blocks.len() == 0 {
        PromptView { text: seq![], images: seq![] }
    } else {
        add_block(prompt_of(blocks.drop_last()), blocks.last())
    }
}

/// The content blocks of a prompt: none where it is no list.
pub open spec fn blocks_of(prompt: Option<JsonView>) -> Seq<JsonView> {
    match prompt {
        Some(JsonView::List(v)) => v,
        _ => seq![],
    }
}

/// The view of an optional value.
pub open spec fn json_view(v: Option<&Json>) -> Option<JsonView> {
    match v {
        Some(j) => Some(j@),
        None => None,
    }
}

/// The text and images of a prompt's content blocks.
pub fn acp_prompt(prompt: Option<&Json>) -> (out: AcpPrompt)
    ensures
        out@ == prompt_of(blocks_of(json_view(prompt))),
{
    let mut out = AcpPrompt { text: String::new(), images: Vec::new() };
    assert(out@.images =~= seq![]);
    assert(out@.text =~= seq![]);
    let blocks = match prompt {
        Some(p) => match p.list() {
            Some(v) => v,
            None => {
                return out;
            },
        },
        None => {
            return out;
        },
    };
    let ghost all = json::values(blocks@);
    let mut i: usize = 0;
    assert(all.take(0) =~= seq![]);
    while i < blocks.len()
        invariant
            i <= blocks@.len(),
            all == json::values(blocks@),
            out@ == prompt_of(all.take(i as int)),
        decreases blocks@.len() - i,
    {
        assert(all.take(i + 1).drop_last() =~= all.take(i as int));
        push_block(&mut out, &blocks[i]);
        i = i + 1;
    }
    assert(all.take(i as int) =~= all);
    out
}

proof fn lemma_scalar(n: u32, i: int)
    requires
        n != 37,
        0 <= i < utf8::encode_scalar(n).len(),
    ensures
        utf8::encode_scalar(n)[i] != 37,
{
    assert(n <= 0x7f && n != 37 ==> (n & 0x7f) as u8 != 37) by (bit_vector);
    assert(0xC0 | ((n >> 6) & 0x1F) as u8 != 37) by (bit_vector);
    assert(0xE0 | ((n >> 12) & 0x0F) as u8 != 37) by (bit_vector);
    assert(0xF0 | ((n >> 18) & 0x7) as u8 != 37) by (bit_vector);
    assert(0x80 | (n & 0x3F) as u8 != 37) by (bit_vector);
    assert(0x80 | ((n >> 6) & 0x3F) as u8 != 37) by (bit_vector);
    assert(0x80 | ((n >> 12) & 0x3F) as u8 != 37) by (bit_vector);
}

proof fn lemma_no_escapes(raw: Seq<char>)
    requires
        !raw.contains('%'),
    ensures
        !utf8::encode_utf8(raw).contains(37u8),
    decreases raw.len(),
{
    let b = utf8::encode_utf8(raw);
    if raw.len() > 0 {
        let first = utf8::encode_scalar(raw[0] as u32);
        let tail = raw.drop_first();
        assert(raw.contains(raw[0]));
        assert(raw[0] as u32 != 37) by {
            utf8::char_u32_cast(raw[0], raw[0] as u32);
        }
        assert forall|i: int| 0 <= i < tail.len() implies tail[i] != '%' by {
            assert(raw.contains(raw[i + 1]));
        }
        lemma_no_escapes(tail);
        assert forall|i: int| 0 <= i < b.len() implies b[i] != 37 by {
            if i < first.len() {
                lemma_scalar(raw[0] as u32, i);
            } else {
                assert(utf8::encode_utf8(tail).contains(utf8::encode_utf8(tail)[i - first.len()]));
            }
        }
    }
}

proof fn lemma_decoded_plain(b: Seq<u8>, i: int)
    requires
        !b.contains(37u8),
        0 <= i <= b.len(),
    ensures
        decoded_from(b, i) == b.skip(i),
    decreases b.len() - i,
{
    if i < b.len() {
        assert(b.contains(b[i]));
        lemma_decoded_plain(b, i + 1);
        assert(decoded_from(b, i) =~= b.skip(i));
    } else {
        assert(decoded_from(b, i) =~= b.skip(i));
    }
}

/// A text without percent signs is what it decodes to.
pub proof fn law_plain_text_is_kept(raw: Seq<char>)
    requires
        !raw.contains('%'),
    ensures
        percent_decoded(raw) == raw,
{
    broadcast use {utf8::encode_utf8_valid_utf8, utf8::encode_utf8_decode_utf8};

    lemma_no_escapes(raw);
    let b = utf8::encode_utf8(raw);
    lemma_decoded_plain(b, 0);
    assert(b.skip(0) =~= b);
}

} // verus!
