//! The decode capability: bytes in, a decoded-image handle or a failure
//! out. The image-decoding facility itself is an outside library and is
//! treated as a black box; this module pins down only what the pipeline
//! relies on — that success is a function of the bytes alone — and wraps
//! the outcome into the pipeline's `Image` item.

use vstd::prelude::*;

use crate::prefetch::Image;

verus! {

/// The decoded-image handle of the outside image facility. Opaque here: the
/// pipeline only moves it, never looks inside.
#[verifier::external_type_specification]
#[verifier::external_body]
pub struct ExRetainedImage(egui_extras::RetainedImage);

/// Whether these bytes decode as an image under the formats this crate
/// enables.
pub uninterp spec fn decode_ok(bytes: Seq<u8>) -> bool;

/// Relies on `egui_extras::RetainedImage::from_image_bytes`: it decodes the
/// byte buffer with `image::load_from_memory`, so success depends on the
/// bytes alone; the name is only a debug label and never affects the
/// outcome.
#[verifier::external_body]
fn decode_image_bytes(name: &str, bytes: &[u8]) -> (r: Result<egui_extras::RetainedImage, String>)
    ensures
        r is Ok <==> decode_ok(bytes@),
{
    egui_extras::RetainedImage::from_image_bytes(name.to_string(), bytes)
}

/// The decode task's computation: attempts to decode the bytes read from
/// `source` and records the outcome as one pipeline item. A failure is
/// absorbed into the item — this function never fails itself.
pub fn decode_image(source: String, bytes: &[u8]) -> (item: Image<egui_extras::RetainedImage>)
    ensures
        item.source == source,
        item.buffer is Ok <==> decode_ok(bytes@),
{
    let buffer = match decode_image_bytes(source.as_str(), bytes) {
        Ok(handle) => Ok(handle),
        Err(_) => Err(()),
    };
    Image { source, buffer }
}

} // verus!
