//! The dictionary-entry data model: one headword record with its optional
//! part-of-speech label, pronunciations and senses.
//!
//! Absent optional fields are distinct from present-but-empty sequences:
//! the renderer skips a field only when it is absent (`None`), and a present
//! empty sequence simply contributes no lines.

use vstd::prelude::*;

verus! {

/// One usage illustration attached to a sense.
pub struct Example {
    /// The example sentence, emitted verbatim.
    pub text: String,
}

/// One pronunciation variant of an entry.
pub struct Sound {
    /// Optional phonetic transcription; a sound without one is skipped.
    pub ipa: Option<String>,
}

/// One meaning of an entry: its glosses and the examples shared by them.
pub struct Sense {
    /// Plain-language definitions, in display order. May be absent.
    pub glosses: Option<Vec<String>>,
    /// Usage examples, shared across all glosses of this sense. May be absent.
    pub examples: Option<Vec<Example>>,
}

/// One dictionary headword record.
pub struct Entry {
    /// The headword.
    pub word: String,
    /// Optional part-of-speech label (for example "noun").
    pub pos: Option<String>,
    /// The senses, in display order; their position drives the numbering.
    pub senses: Vec<Sense>,
    /// Optional pronunciation variants, in display order.
    pub sounds: Option<Vec<Sound>>,
}

} // verus!
