//! Binary codec for quiz-question sets: a set holds packets, packets hold
//! cycles, cycles hold a tossup and/or a bonus, and those hold annotated text.
//!
//! Every reader takes a byte buffer and a position and is specified against a
//! parser written as spec functions (`parse_*`); every writer appends to a
//! `Vec<u8>` and is specified against an encoder (`enc_*`). The laws in
//! `laws` tie the two together.

pub mod categories;
pub mod error;
pub mod laws;
pub mod packet;
pub mod question;
pub mod set;
pub mod text;
pub mod wire;

pub use categories::{BroadCategory, Category, CustomCategory, Subcategory, SUBCATEGORY_COUNT};
pub use error::{Error, ErrorKind};
pub use packet::{Cycle, Packet};
pub use question::{Bonus, BonusPart, Tossup};
pub use set::{QuestionSet, FORMAT_VERSION};
pub use text::{AnswerText, PronunciationGuide, QuestionText, Span};
