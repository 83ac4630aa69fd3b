//! The kernel's help text, compressed with zlib: one `#HELP:` section per
//! command, the first for the application as a whole.

use vstd::prelude::*;

verus! {

/// The length of the compressed help text in bytes.
pub const HELP_TEXT_LEN: usize = 424;

/// The help text, zlib-compressed.
pub const HELP_TEXT: [u8; HELP_TEXT_LEN] = [
    120, 218, 109, 146, 205, 110, 171, 48, 16, 133, 247, 126, 138, 145, 186, 13,
    125, 128, 72, 89, 220, 54, 169, 26, 137, 220, 70, 106, 218, 77, 212, 133,
    193, 6, 44, 249, 7, 217, 38, 85, 133, 120, 247, 122, 140, 41, 5, 149,
    5, 139, 153, 239, 140, 103, 230, 204, 221, 243, 33, 63, 111, 201, 155, 163,
    53, 223, 66, 95, 8, 61, 192, 181, 52, 74, 81, 205, 62, 224, 106, 90,
    47, 140, 118, 31, 132, 60, 142, 49, 183, 37, 125, 74, 187, 129, 144, 151,
    49, 191, 37, 0, 89, 179, 129, 44, 107, 184, 108, 97, 253, 189, 54, 230,
    19, 124, 35, 28, 96, 26, 217, 119, 100, 111, 220, 186, 160, 254, 147, 229,
    144, 178, 72, 223, 18, 93, 24, 199, 151, 244, 123, 10, 154, 206, 183, 157,
    71, 118, 143, 44, 227, 69, 87, 175, 187, 216, 199, 224, 76, 86, 72, 86,
    198, 150, 124, 77, 62, 197, 32, 54, 145, 70, 69, 252, 128, 56, 215, 183,
    172, 18, 146, 239, 158, 142, 249, 97, 194, 47, 1, 12, 9, 97, 141, 86,
    92, 123, 64, 0, 21, 143, 168, 40, 141, 174, 68, 189, 18, 93, 98, 105,
    76, 116, 150, 226, 6, 127, 52, 103, 212, 180, 130, 253, 253, 202, 249, 184,
    255, 33, 115, 36, 37, 203, 164, 40, 118, 249, 241, 225, 117, 110, 63, 23,
    133, 165, 86, 112, 7, 222, 128, 52, 52, 182, 127, 74, 184, 50, 108, 119,
    122, 217, 191, 229, 135, 73, 113, 50, 172, 147, 75, 248, 127, 130, 181, 89,
    175, 38, 15, 4, 132, 176, 140, 111, 124, 17, 210, 107, 170, 248, 0, 125,
    178, 107, 32, 119, 241, 162, 160, 220, 164, 9, 151, 183, 213, 151, 138, 13,
    243, 93, 193, 53, 140, 227, 185, 13, 7, 134, 198, 187, 184, 116, 199, 189,
    23, 186, 118, 27, 48, 54, 4, 162, 191, 21, 102, 84, 248, 81, 15, 141,
    145, 44, 130, 163, 246, 126, 121, 134, 229, 188, 245, 85, 239, 151, 95, 181,
    161, 178, 70, 37, 139, 215, 62, 56, 44, 67, 177, 12, 181, 117, 135, 150,
    186, 117, 153, 150, 90, 199, 217, 116, 30, 97, 27, 58, 122, 242, 47, 138,
    218, 86, 138, 114, 44, 183, 124, 219, 83, 63, 141, 2, 191, 40, 84, 42,
    84, 170, 232, 68, 166, 184, 167, 179, 71, 168, 196, 8, 163, 158, 78, 226,
    17, 116, 228, 27, 154, 112, 25, 247,
];

} // verus!
