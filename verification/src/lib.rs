//! A verified parser for Stepmania-style `#NAME:VALUE;` chart files.
//!
//! The parser turns raw chart text into a typed record together with a list
//! of positioned diagnostics.  It never aborts: malformed input degrades to
//! omitted fields plus diagnostics.

pub mod attacks;
pub mod chart;
pub mod common;
pub mod decimal;
pub mod file;
pub mod laws;
pub mod lexer;
pub mod lists;
pub mod mappers;
pub mod numbers;
pub mod records;
pub mod span;
pub mod text;
pub mod values;

pub use chart::ChartParserState;
pub use chart::StepmaniaChart;
pub use chart::StepmaniaDifficulty;
pub use chart::StepmaniaNote;
pub use chart::StepmaniaNoteData;
pub use chart::StepmaniaNoteType;
pub use common::ParseError;
pub use common::ParseErrorCode;
pub use file::StepmaniaFile;
pub use lexer::StepmaniaParser;
pub use records::StepmaniaAttack;
pub use records::StepmaniaAttackModifier;
pub use records::StepmaniaBPMRange;
pub use records::StepmaniaColor;
pub use records::StepmaniaInstrumentTrack;
pub use records::StepmaniaMagnitude;
pub use records::StepmaniaNoteAttack;
pub use records::StepmaniaNumberRange;
pub use records::StepmaniaRadarValues;
pub use records::StepmaniaTimedBPM;
pub use records::StepmaniaTimedComboChange;
pub use records::StepmaniaTimedDuration;
pub use records::StepmaniaTimedLabel;
pub use records::StepmaniaTimedNumber;
pub use records::StepmaniaTimedScrollSpeedChange;
pub use records::StepmaniaTimedSpeedChange;
pub use records::StepmaniaTimedTimeSignature;
pub use records::StepmaniaTimedVisualChange;
pub use records::StepmaniaWarp;
pub use span::PropEntry;
pub use span::UnparsedPropertyValue;
