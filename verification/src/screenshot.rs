//! The screenshot sink's decoding half: turn a data URL into the image
//! bytes it carries. Writing the bytes to disk is the caller's business.

use vstd::prelude::*;

verus! {

/// The body bytes a data URL carries, or nothing when the text is not a
/// well-formed data URL (no data-URL prefix, no comma, or an invalid base64
/// body). The processing rules take pages to state, so the result is only
/// named here; it depends on the text alone.
pub uninterp spec fn data_url_payload(s: Seq<char>) -> Option<Seq<u8>>;

/// Relies on data_url::DataUrl::process and DataUrl::decode_to_vec: parsing
/// and decoding depend on the input text alone; both error paths (a
/// malformed URL, an invalid base64 body) yield no payload.
#[verifier::external_body]
fn decode_data_url(s: &str) -> (r: Option<Vec<u8>>)
    ensures
        match r {
            Some(v) => data_url_payload(s@) == Some(v@),
            None => data_url_payload(s@) is None,
        },
{
    let url = data_url::DataUrl::process(s).ok()?;
    let (body, _fragment) = url.decode_to_vec().ok()?;
    Some(body)
}

/// Why a screenshot could not be decoded.
#[derive(Debug, PartialEq, Eq)]
pub enum ScreenshotError {
    InvalidDataUrl,
}

impl ScreenshotError {
    /// A human-readable description of the error.
    pub fn message(&self) -> (r: &'static str)
        ensures
            r@ == "invalid data url"@,
    {
        "invalid data url"
    }
}

/// The screenshot sink: remembers where images belong and decodes the data
/// URLs handed over by the presentation layer.
pub struct SaveScreenshotService {
    pub base_path: String,
}

impl SaveScreenshotService {
    /// A sink writing under the given base path.
    pub fn new(base_path: &str) -> (r: Self)
        ensures
            r.base_path@ == base_path@,
    {
        SaveScreenshotService { base_path: base_path.to_owned() }
    }

    /// Decode a data URL to the image bytes it carries: exactly the URL's
    /// payload, or an error when and only when the text carries none.
    pub fn decode(&self, data_url: &str) -> (r: Result<Vec<u8>, ScreenshotError>)
        ensures
            match r {
                Ok(v) => data_url_payload(data_url@) == Some(v@),
                Err(e) => data_url_payload(data_url@) is None && e is InvalidDataUrl,
            },
    {
        match decode_data_url(data_url) {
            Some(v) => Ok(v),
            None => Err(ScreenshotError::InvalidDataUrl),
        }
    }
}

} // verus!
