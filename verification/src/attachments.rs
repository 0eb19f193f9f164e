//! Admission of local images to a message.

use vstd::prelude::*;
use vstd::string::*;
use crate::number;
use crate::number::show;
use crate::paths;
use crate::paths::path_file_name;
use crate::text;
use crate::text::{cat2, cat3, chars_of, replace_all, text_slice, trimmed};

verus! {

/// The most images that one message carries.
pub const MAX_PER_MESSAGE: usize = 4;

/// Sent when images arrive with no words.
pub const IMAGE_ONLY_PROMPT: &'static str = "Describe the attached image(s).";

/// The largest file that is decoded.
pub const MAX_SOURCE_BYTES: usize = 67_108_864;

/// `a / b` rounded to the nearest integer, and to the even one of two equally
/// near.
pub open spec fn half_even(a: nat, b: nat) -> nat {
    let q = a / b;
    let r = a % b;
    if 2 * r < b || (2 * r == b && q % 2 == 0) {
        q
    } else {
        q + 1
    }
}

/// `n` with 53 significant binary digits: the nearest multiple of the smallest
/// step, from `step` on by doubling, at which 53 digits are enough.
pub open spec fn significant(n: nat, step: nat) -> nat
    decreases n - step,
{
    if step == 0 || step >= n || n < 0x20_0000_0000_0000 * step {
        half_even(n, step) * step
    } else {
        significant(n, 2 * step)
    }
}

/// The tenths of a mebibyte in `bytes`.
pub open spec fn tenths(bytes: nat) -> nat {
    half_even(significant(bytes, 1) * 10, 1_048_576)
}

/// A size for a reader: bytes, whole kibibytes, or mebibytes to one decimal.
pub open spec fn size_text(bytes: nat) -> Seq<char> {
    if bytes < 1024 {
        number::decimal(bytes) + " B"@
    } else if bytes < 1_048_576 {
        number::decimal(bytes / 1024) + " KB"@
    } else {
        number::decimal(tenths(bytes) / 10) + "."@ + number::decimal(tenths(bytes) % 10) + " MB"@
    }
}

fn round_half_even(a: u128, b: u128) -> (out: u128)
    requires
        0 < b,
        b < 0x1_0000_0000_0000_0000,
        a < 0x1_0000_0000_0000_0000_0000,
    ensures
        out == half_even(a as nat, b as nat),
        out <= a / b + 1,
{
    let q: u128 = a / b;
    let r: u128 = a % b;
    if 2 * r < b || (2 * r == b && q % 2 == 0) {
        q
    } else {
        q + 1
    }
}

fn significant_from(n: u128, step: u128) -> (out: u128)
    requires
        n < 0x1_0000_0000_0000_0000,
        0 < step,
        step < 0x1_0000_0000_0000_0000,
    ensures
        out == significant(n as nat, step as nat),
        out <= n + step || out <= 2 * n,
    decreases n - step,
{
    if step >= n || n < 0x20_0000_0000_0000 * step {
        let m: u128 = round_half_even(n, step);
        proof {
            assert(n / step * step <= n) by (nonlinear_arith)
                requires
                    0 < step,
            ;
            assert(m * step <= (n / step + 1) * step) by (nonlinear_arith)
                requires
                    m <= n / step + 1,
                    0 < step,
            ;
            assert((n / step + 1) * step == n / step * step + step) by (nonlinear_arith);
        }
        m * step
    } else {
        let out: u128 = significant_from(n, 2 * step);
        out
    }
}

/// A size for a reader.
pub fn human_size(bytes: usize) -> (out: String)
    ensures
        out@ == size_text(bytes as nat),
{
    if bytes < 1024 {
        cat2(show(bytes as u64).as_str(), " B")
    } else if bytes < 1_048_576 {
        cat2(show((bytes / 1024) as u64).as_str(), " KB")
    } else {
        let n: u128 = significant_from(bytes as u128, 1);
        let t: u128 = round_half_even(n * 10, 1_048_576);
        let mut out = show((t / 10) as u64);
        out.append(".");
        out.append(show((t % 10) as u64).as_str());
        out.append(" MB");
        out
    }
}

/// The name an attachment is shown by: the file's, cut after 28 characters.
pub open spec fn label(path: Seq<char>) -> Seq<char> {
    let name = match paths::file_name(path) {
        Some(n) => n,
        None => path,
    };
    if name.len() > 28 {
        name.take(28) + "…"@
    } else {
        name
    }
}

/// The name an attachment is shown by.
pub fn label_for(path: &str) -> (out: String)
    ensures
        out@ == label(path@),
{
    let name = match path_file_name(path) {
        Some(n) => n,
        None => path.to_owned(),
    };
    let x = chars_of(name.as_str());
    if x.len() > 28 {
        let head = text_slice(&x, 0, 28);
        assert(head@ =~= name@.take(28));
        cat2(head.as_str(), "…")
    } else {
        name
    }
}

/// One admitted image: where its bytes are kept and what a reader is shown.
pub struct Attachment {
    pub mime_type: String,
    /// The content hash under which the bytes are stored.
    pub artifact: String,
    pub label: String,
    /// Where it came from; `None` for the clipboard.
    pub source: Option<String>,
    pub width: u32,
    pub height: u32,
    pub bytes: usize,
    /// What admission changed on the way in, if anything.
    pub note: Option<String>,
}

impl Attachment {
    /// `shot.png  1920×1080 · 240 KB`
    pub fn summary(&self) -> (out: String)
        ensures
            out@ == self.label@ + "  "@ + number::decimal(self.width as nat) + "×"@
                + number::decimal(self.height as nat) + " · "@ + size_text(self.bytes as nat),
    {
        let mut out = self.label.clone();
        out.append("  ");
        out.append(show(self.width as u64).as_str());
        out.append("×");
        out.append(show(self.height as u64).as_str());
        out.append(" · ");
        out.append(human_size(self.bytes).as_str());
        out
    }
}

/// Refuses more images than a message carries.
pub fn check_count(images: usize) -> (out: Result<(), String>)
    ensures
        out is Ok <==> images <= MAX_PER_MESSAGE,
        out matches Err(e) ==> e@ == "attach at most 4 images per message"@,
{
    if images <= MAX_PER_MESSAGE {
        Ok(())
    } else {
        Err("attach at most 4 images per message".to_owned())
    }
}

/// Refuses a source that is no regular file, or whose length is over the limit.
pub fn check_source(path: &str, regular: bool, bytes: usize) -> (out: Result<(), String>)
    ensures
        out is Ok <==> regular && bytes <= MAX_SOURCE_BYTES,
        out matches Err(e) ==> e@ == if !regular {
            "attachment must be a regular file: "@ + path@
        } else {
            "attachment is larger than "@ + size_text(MAX_SOURCE_BYTES as nat)
        },
{
    if !regular {
        Err(cat2("attachment must be a regular file: ", path))
    } else if bytes > MAX_SOURCE_BYTES {
        Err(cat2("attachment is larger than ", human_size(MAX_SOURCE_BYTES).as_str()))
    } else {
        Ok(())
    }
}

/// A pixel buffer holds four bytes for each pixel of a picture that is not
/// empty.
pub fn pixels_match(width: usize, height: usize, bytes: usize) -> (yes: bool)
    ensures
        yes == (width > 0 && height > 0 && width * height * 4 == bytes),
{
    if width == 0 || height == 0 {
        return false;
    }
    match width.checked_mul(height) {
        None => {
            assert(width * height * 4 > bytes);
            false
        },
        Some(n) => match n.checked_mul(4) {
            None => false,
            Some(m) => m == bytes,
        },
    }
}

/// What the user is told where the clipboard holds no image.
pub const NO_IMAGE: &'static str = "the clipboard does not contain an image; copy one, or use /attach PATH";

/// The PowerShell script that saves the clipboard's image under a path. Quotes in the
/// path are doubled, so that the path stays one quoted text.
pub fn clipboard_script(path: &str) -> (out: String)
    ensures
        out@
            == "Add-Type -AssemblyName System.Windows.Forms,System.Drawing; $image = [System.Windows.Forms.Clipboard]::GetImage(); if ($image -eq $null) { exit 3 } $image.Save('"@
            + text::replaced(text::trim(path@), "'"@, "''"@)
            + "', [System.Drawing.Imaging.ImageFormat]::Png)"@,
{
    proof {
        reveal_strlit("'");
    }
    cat3(
        "Add-Type -AssemblyName System.Windows.Forms,System.Drawing; $image = [System.Windows.Forms.Clipboard]::GetImage(); if ($image -eq $null) { exit 3 } $image.Save('",
        replace_all(trimmed(path).as_str(), "'", "''").as_str(),
        "', [System.Drawing.Imaging.ImageFormat]::Png)",
    )
}

/// What the script's exit code says.
pub fn clipboard_outcome(code: Option<i32>) -> (out: Result<(), String>)
    ensures
        match out {
            Ok(_) => code == Some(0i32),
            Err(e) => code != Some(0i32) && e@ == if code == Some(3i32) {
                NO_IMAGE@
            } else {
                "PowerShell could not read the clipboard"@
            },
        },
{
    match code {
        Some(0) => Ok(()),
        Some(3) => Err(NO_IMAGE.to_owned()),
        _ => Err("PowerShell could not read the clipboard".to_owned()),
    }
}

} // verus!
