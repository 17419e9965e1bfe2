//! Language detection over transcript text: a keyword heuristic returning
//! an ISO 639-1 tag, with `"en"` as the default.

use vstd::prelude::*;
use vstd::string::StringSliceAdditionalSpecFns;

use crate::textutil::{contains_seq, contains_sub};

verus! {

/// The marker bytes of "Bonjour".
pub open spec fn fr_marker() -> Seq<u8> {
    seq![66u8, 111u8, 110u8, 106u8, 111u8, 117u8, 114u8]
}

/// The marker bytes of "Hola".
pub open spec fn es_marker() -> Seq<u8> {
    seq![72u8, 111u8, 108u8, 97u8]
}

/// The detected tag: "fr" or "es" on their markers, else "en".
pub open spec fn detect_spec(t: Seq<u8>) -> Seq<u8> {
    if contains_seq(t, fr_marker()) {
        seq![102u8, 114u8]
    } else if contains_seq(t, es_marker()) {
        seq![101u8, 115u8]
    } else {
        seq![101u8, 110u8]
    }
}

pub struct LanguageDetector {}

impl LanguageDetector {
    pub fn new() -> (r: Self) {
        LanguageDetector {  }
    }

    /// ISO 639-1 tag of `text`, by keyword markers; the default is "en".
    pub fn detect(&self, text: &str) -> (r: Vec<u8>)
        ensures
            r@ == detect_spec(text.spec_bytes()),
    {
        self.detect_bytes(text.as_bytes())
    }

    /// `detect` with text given as UTF-8 bytes.
    pub fn detect_bytes(&self, text: &[u8]) -> (r: Vec<u8>)
        ensures
            r@ == detect_spec(text@),
    {
        let fr: [u8; 7] = [66, 111, 110, 106, 111, 117, 114];
        let es: [u8; 4] = [72, 111, 108, 97];
        let mut r: Vec<u8> = Vec::new();
        proof {
            assert(fr@ =~= fr_marker());
            assert(es@ =~= es_marker());
        }
        if contains_sub(text, fr.as_slice()) {
            r.push(102);
            r.push(114);
            assert(r@ =~= seq![102u8, 114u8]);
        } else if contains_sub(text, es.as_slice()) {
            r.push(101);
            r.push(115);
            assert(r@ =~= seq![101u8, 115u8]);
        } else {
            r.push(101);
            r.push(110);
            assert(r@ =~= seq![101u8, 110u8]);
        }
        r
    }
}

} // verus!
