//! The images of an editor's prompt: where their bytes come from.

use vstd::prelude::*;
use vstd::string::*;
use base64::Engine;
use crate::acp::prompt::{AcpImage, ImageView};
use crate::number;
use crate::number::show;
use crate::text::{cat2, cat3};

verus! {

/// What the standard base64 engine makes of a text: its bytes, or the text of the
/// error.
pub uninterp spec fn base64_bytes(data: Seq<char>) -> Result<Seq<u8>, Seq<char>>;

/// [`Engine::decode`] of the standard engine: the bytes that a text encodes, or the
/// text of the error.
#[verifier::external_body]
fn decode(data: &str) -> (out: Result<Vec<u8>, String>)
    ensures
        match out {
            Ok(bytes) => base64_bytes(data@) == Ok::<Seq<u8>, Seq<char>>(bytes@),
            Err(e) => base64_bytes(data@) == Err::<Seq<u8>, Seq<char>>(e@),
        },
{
    base64::engine::general_purpose::STANDARD.decode(data.as_bytes()).map_err(|e| e.to_string())
}

/// Where the bytes of an image come from.
pub enum ImageSource {
    /// They are to be read from this file.
    Read(String),
    /// They came with the prompt.
    Bytes(Vec<u8>),
    /// They came with the prompt and are damaged; this is what the editor is told.
    Damaged(String),
}

/// What the editor is told of an image whose text does not decode.
pub open spec fn damaged(position: nat, error: Seq<char>) -> Seq<char> {
    "image "@ + number::decimal(position) + " is not valid base64: "@ + error
}

/// The bytes that came with a prompt, or what the editor is told instead.
pub fn inline_source(position: usize, decoded: Result<Vec<u8>, String>) -> (out: ImageSource)
    ensures
        match decoded {
            Ok(bytes) => out == ImageSource::Bytes(bytes),
            Err(e) => out matches ImageSource::Damaged(m) && m@ == damaged(position as nat, e@),
        },
{
    match decoded {
        Ok(bytes) => ImageSource::Bytes(bytes),
        Err(e) => {
            let mut m = cat3("image ", show(position as u64).as_str(), " is not valid base64: ");
            m.append(e.as_str());
            ImageSource::Damaged(m)
        },
    }
}

/// Where the bytes of the image at a position come from.
pub fn image_source(image: &AcpImage, position: usize) -> (out: ImageSource)
    ensures
        match image@ {
            ImageView::Linked(path) => out matches ImageSource::Read(p) && p@ == path,
            ImageView::Inline(_, data) => match base64_bytes(data) {
                Ok(bytes) => out matches ImageSource::Bytes(b) && b@ == bytes,
                Err(e) => out matches ImageSource::Damaged(m) && m@ == damaged(
                    position as nat,
                    e,
                ),
            },
        },
{
    match image {
        AcpImage::Linked(path) => ImageSource::Read(path.clone()),
        AcpImage::Inline(_, data) => inline_source(position, decode(data.as_str())),
    }
}

/// What the editor is told of a file that cannot be read.
pub fn unreadable_image(path: &str, error: &str) -> (out: String)
    ensures
        out@ == "cannot read "@ + path@ + ": "@ + error@,
{
    let mut out = cat3("cannot read ", path, ": ");
    out.append(error);
    out
}

/// What the editor is told of an image that is not accepted.
pub fn refused_image(position: usize, error: &str) -> (out: String)
    ensures
        out@ == "image "@ + number::decimal(position as nat) + ": "@ + error@,
{
    let mut out = cat2("image ", show(position as u64).as_str());
    out.append(": ");
    out.append(error);
    out
}

} // verus!
