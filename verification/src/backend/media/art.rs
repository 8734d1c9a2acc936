//! Album art: fetching it and turning it into pixels.

use vstd::prelude::*;

verus! {

/// Larger responses are refused, to bound memory use.
pub const MAX_ART_BYTES: usize = 10 * 1024 * 1024;

/// A failed fetch is tried this many times more.
pub const ART_FETCH_RETRIES: u32 = 2;

/// Seconds that one fetch may take.
pub const ART_FETCH_TIMEOUT: u64 = 5;

/// The next thing to do in order to fetch album art.
pub enum FetchStep {
    Done(Vec<u8>),
    /// Wait this many seconds, then make this attempt.
    Retry { attempt: u32, delay: u64 },
    GiveUp,
}

/// Attempt `attempt` has ended; attempts are counted from 0. The waits grow by
/// a second with each attempt.
pub fn fetch_art(attempt: u32, outcome: Result<Vec<u8>, String>) -> (step: FetchStep)
    ensures
        step == (match outcome {
            Ok(bytes) => FetchStep::Done(bytes),
            Err(_) => if attempt < ART_FETCH_RETRIES {
                FetchStep::Retry { attempt: (attempt + 1) as u32, delay: (attempt + 1) as u64 }
            } else {
                FetchStep::GiveUp
            },
        }),
{
    match outcome {
        Ok(bytes) => FetchStep::Done(bytes),
        Err(_) => if attempt < ART_FETCH_RETRIES {
            let next: u32 = attempt + 1;
            FetchStep::Retry { attempt: next, delay: next as u64 }
        } else {
            FetchStep::GiveUp
        },
    }
}

/// A response that announces this size is not read at all.
pub fn check_announced(length: Option<u64>) -> (res: Result<(), String>)
    ensures
        res is Ok == !(length matches Some(n) && n > MAX_ART_BYTES),
        res matches Err(e) ==> e@ == "response exceeds size limit"@,
{
    match length {
        Some(n) => if n > MAX_ART_BYTES as u64 {
            Err("response exceeds size limit".to_owned())
        } else {
            Ok(())
        },
        None => Ok(()),
    }
}

/// Take the bytes of a response, if they are not too many.
pub fn check_received(bytes: Vec<u8>) -> (res: Result<Vec<u8>, String>)
    ensures
        match res {
            Ok(b) => bytes@.len() <= MAX_ART_BYTES && b == bytes,
            Err(e) => bytes@.len() > MAX_ART_BYTES && e@ == "response exceeds size limit"@,
        },
{
    if bytes.len() > MAX_ART_BYTES {
        Err("response exceeds size limit".to_owned())
    } else {
        Ok(bytes)
    }
}

/// A picture: four bytes for each pixel, row by row.
#[derive(Clone, Debug)]
pub struct Picture {
    pub width: u32,
    pub height: u32,
    pub pixels: Vec<u8>,
}

/// `image::load_from_memory`, then `DynamicImage::to_rgba8`, with the
/// dimensions and the raw bytes of the result; `None` if the bytes are no image
/// of a known format. A result holds at least the four bytes of each pixel.
///
/// Which pixels come out is left unsaid: decoding can be extended by hooks that
/// a process registers, and some formats go through floating-point functions
/// whose last digits differ between machines.
#[verifier::external_body]
fn decode(bytes: &[u8]) -> (res: Option<(u32, u32, Vec<u8>)>)
    ensures
        res matches Some((w, h, pixels)) ==> 4 * w * h <= pixels@.len(),
{
    match image::load_from_memory(bytes) {
        Ok(picture) => {
            let rgba = picture.to_rgba8();
            let (w, h) = rgba.dimensions();
            Some((w, h, rgba.into_raw()))
        },
        Err(_) => None,
    }
}

/// Decoding these bytes can come to this: `decode`, called on them, may return
/// it.
pub closed spec fn decodes_to(bytes: &[u8], decoded: Option<(u32, u32, Vec<u8>)>) -> bool {
    call_ensures(decode, (bytes,), decoded)
}

/// The picture that was decoded, if one was.
pub open spec fn picture(decoded: Option<(u32, u32, Vec<u8>)>) -> Option<Picture> {
    match decoded {
        Some((width, height, pixels)) => Some(Picture { width, height, pixels }),
        None => None,
    }
}

/// The picture that was decoded.
pub fn picture_of(decoded: Option<(u32, u32, Vec<u8>)>) -> (res: Option<Picture>)
    ensures
        res == picture(decoded),
{
    match decoded {
        Some((width, height, pixels)) => Some(Picture { width, height, pixels }),
        None => None,
    }
}

/// Decode the bytes of an image file. The result is what decoding these very
/// bytes came to: a picture if they were decoded, and none if they were not. A
/// picture holds the bytes of all of its pixels.
pub fn load_art(bytes: &[u8]) -> (res: Option<Picture>)
    ensures
        exists|decoded: Option<(u32, u32, Vec<u8>)>| #[trigger]
            decodes_to(bytes, decoded) && res == picture(decoded),
        res matches Some(p) ==> 4 * p.width * p.height <= p.pixels@.len(),
{
    let decoded: Option<(u32, u32, Vec<u8>)> = decode(bytes);
    assert(decodes_to(bytes, decoded));
    picture_of(decoded)
}

} // verus!
