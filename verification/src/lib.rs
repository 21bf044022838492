//! Text transforms: case folding, reversal, a binary codec and a Morse codec,
//! applied in a fixed order, with an optional file at the end of the line.

pub mod binary;
pub mod error;
pub mod morse;
pub mod pipeline;
pub mod sink;
pub mod text;
pub mod transforms;

pub use binary::{from_binary, to_binary};
pub use error::PipelineError;
pub use morse::{from_morse, to_morse, CodeTable};
pub use pipeline::{transform, Pipeline, Reply, Request, StepFlags};
pub use sink::{to_file, WritePlan};
pub use transforms::{capitalize, lowercase, reverse};
