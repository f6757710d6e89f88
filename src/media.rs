//! Images in the vault: the `data:` URLs that show them and the files that
//! pasted images are saved to.
use vstd::prelude::*;
use vstd::string::StringExecFns;
use crate::error::Failure;
use crate::text::text_eq;
use crate::vault::{extension, extension_of, file_name, file_name_of};

verus! {

#[verifier::external_type_specification]
#[verifier::external_body]
pub struct ExDecodeError(base64::DecodeError);

/// The standard base64 encoding, with padding, of `bytes`.
pub uninterp spec fn base64_of(bytes: Seq<u8>) -> Seq<char>;

/// The bytes that a standard base64 text decodes to, if it is valid.
pub uninterp spec fn base64_decoded(text: Seq<char>) -> Option<Seq<u8>>;

/// The lowercase form of a text, by Unicode's rules.
pub uninterp spec fn lower_of(s: Seq<char>) -> Seq<char>;

/// Relies on `base64::Engine::encode` with the `STANDARD` engine: four
/// characters for each started group of three bytes, padding included; it
/// panics only when that length overflows `usize`.
#[verifier::external_body]
fn encode_base64(bytes: &Vec<u8>) -> (r: String)
    requires
        bytes@.len() <= usize::MAX / 2,
    ensures
        r@ == base64_of(bytes@),
        r@.len() == 4 * ((bytes@.len() + 2) / 3),
{
    base64::Engine::encode(&base64::engine::general_purpose::STANDARD, bytes)
}

/// Relies on `base64::Engine::decode` with the `STANDARD` engine.
#[verifier::external_body]
fn decode_base64(text: &str) -> (r: Result<Vec<u8>, base64::DecodeError>)
    ensures
        match r {
            Ok(b) => base64_decoded(text@) == Some(b@),
            Err(_) => base64_decoded(text@) is None,
        },
{
    base64::Engine::decode(&base64::engine::general_purpose::STANDARD, text)
}

/// Relies on `str::to_lowercase`: the result depends on the text alone, and
/// an empty text stays empty.
#[verifier::external_body]
pub(crate) fn lowercase(s: &str) -> (r: String)
    ensures
        r@ == lower_of(s@),
        s@.len() == 0 ==> r@.len() == 0,
{
    s.to_lowercase()
}

/// The media type for a lowercase image extension; PNG for anything else.
pub open spec fn media_type(ext: Seq<char>) -> Seq<char> {
    if ext == "jpg"@ || ext == "jpeg"@ {
        "image/jpeg"@
    } else if ext == "gif"@ {
        "image/gif"@
    } else {
        "image/png"@
    }
}

/// The media type of the image file at `path`, by its extension in any case.
pub open spec fn media_type_of_path(path: Seq<char>) -> Seq<char> {
    match extension(file_name(path)) {
        Some(e) => media_type(lower_of(e)),
        None => "image/png"@,
    }
}

/// A `data:` URL of a media type and base64 text.
pub open spec fn data_url_of(media: Seq<char>, encoded: Seq<char>) -> Seq<char> {
    "data:"@ + media + ";base64,"@ + encoded
}

/// The media type for the lowercase extension `ext`.
pub fn content_type_for(ext: &str) -> (r: &'static str)
    ensures
        r@ == media_type(ext@),
{
    if text_eq(ext, "jpg") || text_eq(ext, "jpeg") {
        "image/jpeg"
    } else if text_eq(ext, "gif") {
        "image/gif"
    } else {
        "image/png"
    }
}

/// The `data:` URL of `media` and the base64 text `encoded`.
pub fn data_url(media: &str, encoded: &str) -> (r: String)
    ensures
        r@ == data_url_of(media@, encoded@),
{
    "data:".to_owned().concat(media).concat(";base64,").concat(encoded)
}

/// The `data:` URL that shows the image at `path` with content `bytes`.
pub fn image_data_url(path: &str, bytes: &Vec<u8>) -> (r: String)
    requires
        bytes@.len() <= usize::MAX / 2,
    ensures
        r@ == data_url_of(media_type_of_path(path@), base64_of(bytes@)),
{
    let name = file_name_of(path);
    let media = match extension_of(name.as_str()) {
        Some(e) => {
            let lower = lowercase(e.as_str());
            content_type_for(lower.as_str())
        },
        None => "image/png",
    };
    let encoded = encode_base64(bytes);
    data_url(media, encoded.as_str())
}

/// The `data:` URL of fetched image bytes, with the media type the server
/// declared, PNG when it declared none.
pub fn fetched_data_url(declared: Option<&str>, bytes: &Vec<u8>) -> (r: String)
    requires
        bytes@.len() <= usize::MAX / 2,
    ensures
        r@ == data_url_of(
            match declared {
                Some(m) => m@,
                None => "image/png"@,
            },
            base64_of(bytes@),
        ),
{
    let media = match declared {
        Some(m) => m,
        None => "image/png",
    };
    let encoded = encode_base64(bytes);
    data_url(media, encoded.as_str())
}

/// The file name of an image pasted at `timestamp` with extension `ext`.
pub fn pasted_image_name(timestamp: &str, ext: &str) -> (r: String)
    ensures
        r@ == "Pasted image "@ + timestamp@ + "."@ + ext@,
{
    "Pasted image ".to_owned().concat(timestamp).concat(".").concat(ext)
}

/// The bytes of a pasted image sent as base64; `InvalidInput` when the text
/// is not valid base64.
pub fn decode_pasted_image(data: &str) -> (r: Result<Vec<u8>, Failure>)
    ensures
        match base64_decoded(data@) {
            Some(b) => r matches Ok(v) && v@ == b,
            None => r == Err::<Vec<u8>, Failure>(Failure::InvalidInput),
        },
{
    match decode_base64(data) {
        Ok(b) => Ok(b),
        Err(_) => Err(Failure::InvalidInput),
    }
}

} // verus!
