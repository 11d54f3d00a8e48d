//! The emoji pattern.

use vstd::prelude::*;

verus! {

/// Emoji: keycaps, flags made of two regional indicators, and pictographs with
/// their variation selectors, skin tone modifiers and zero width joiner
/// sequences, each kept whole.
pub const EMOJI_PATTERN: &'static str = r"[#*0-9]\x{FE0F}?\x{20E3}|[\x{1F1E6}-\x{1F1FF}][\x{1F1E6}-\x{1F1FF}]|[\x{00A9}\x{00AE}\x{203C}\x{2049}\x{2122}\x{2139}]\x{FE0F}|[\x{1F000}-\x{1FAFF}\x{2300}-\x{23FF}\x{2600}-\x{27BF}\x{2B00}-\x{2BFF}\x{2934}\x{2935}\x{3030}\x{303D}\x{3297}\x{3299}](?:\x{FE0F}|[\x{1F3FB}-\x{1F3FF}])*(?:\x{200D}[\x{1F000}-\x{1FAFF}\x{2300}-\x{23FF}\x{2600}-\x{27BF}\x{2B00}-\x{2BFF}](?:\x{FE0F}|[\x{1F3FB}-\x{1F3FF}])*)*";

} // verus!
