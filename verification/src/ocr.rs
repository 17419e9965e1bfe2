//! Offline OCR facade. The recognizer backend is not wired up; the engine
//! returns its fixed placeholder text for any image.

use vstd::prelude::*;

verus! {

/// The placeholder recognition result, as bytes of
/// "Extracted text from image".
pub open spec fn ocr_placeholder() -> Seq<u8> {
    seq![
        69u8, 120u8, 116u8, 114u8, 97u8, 99u8, 116u8, 101u8, 100u8, 32u8, 116u8, 101u8, 120u8,
        116u8, 32u8, 102u8, 114u8, 111u8, 109u8, 32u8, 105u8, 109u8, 97u8, 103u8, 101u8,
    ]
}

pub struct OcrEngine {}

impl OcrEngine {
    pub fn new() -> (r: Self) {
        OcrEngine {  }
    }

    /// Recognize text in `image_data`; the stub backend yields the fixed
    /// placeholder for every image.
    pub fn recognize_text(&self, image_data: &[u8]) -> (r: Vec<u8>)
        ensures
            r@ == ocr_placeholder(),
    {
        let bytes: [u8; 25] = [
            69, 120, 116, 114, 97, 99, 116, 101, 100, 32, 116, 101, 120, 116, 32, 102, 114, 111,
            109, 32, 105, 109, 97, 103, 101,
        ];
        let mut r: Vec<u8> = Vec::new();
        r.extend_from_slice(bytes.as_slice());
        proof {
            assert(r@ =~= ocr_placeholder());
        }
        r
    }
}

} // verus!
