//! Dealing with the media framework.

use vstd::prelude::*;
use crate::text::{contains_text, holds_text};

verus! {

/// The version of the media framework.
pub fn version_info() -> (version: String)
    ensures
        version@ == "FFmpeg 8.0+"@,
{
    "FFmpeg 8.0+".to_owned()
}

/// Messages that are to be expected from how segments are muxed.
pub open spec fn expected_messages() -> Seq<Seq<char>> {
    seq![
        "No meaningful edit list will be written when using empty_moov without delay_moov"@,
        "starts with a nonzero dts"@,
        "Set the delay_moov flag to handle this case"@,
        "Could not update timestamps for skipped samples"@,
        "Could not update timestamps for discarded samples"@,
        "Error parsing Opus packet header"@,
    ]
}

/// Whether a message is to be expected, and so not worth printing.
pub fn is_suppressed(message: &str) -> (b: bool)
    ensures
        b == exists|i: int|
            0 <= i < expected_messages().len() && holds_text(
                message@,
                #[trigger] expected_messages()[i],
            ),
{
    let expected: Vec<&'static str> = vec![
        "No meaningful edit list will be written when using empty_moov without delay_moov",
        "starts with a nonzero dts",
        "Set the delay_moov flag to handle this case",
        "Could not update timestamps for skipped samples",
        "Could not update timestamps for discarded samples",
        "Error parsing Opus packet header",
    ];
    assert(forall|i: int|
        0 <= i < expected@.len() ==> (#[trigger] expected@[i])@ == expected_messages()[i]);
    let mut i: usize = 0;
    while i < expected.len()
        invariant
            i <= expected@.len(),
            expected@.len() == expected_messages().len(),
            forall|i: int|
                0 <= i < expected@.len() ==> (#[trigger] expected@[i])@ == expected_messages()[i],
            forall|j: int|
                0 <= j < i ==> !holds_text(message@, #[trigger] expected_messages()[j]),
        decreases expected.len() - i,
    {
        if contains_text(message, expected[i]) {
            assert(holds_text(message@, expected_messages()[i as int]));
            return true;
        }
        i += 1;
    }
    false
}

} // verus!
