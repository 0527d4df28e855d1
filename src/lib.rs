//! Template-driven generation of file trees that keeps hand-written edits: manual
//! sections survive regeneration, injection blocks patch existing files at anchors,
//! and a small iteration language expands one template into many files.
pub mod text;
pub mod config;
pub mod sections;
pub mod manual_sections;
pub mod iteration;
pub mod locator;
pub mod injection;
pub mod filters;
pub mod selection;
pub mod formatting;
pub mod generator;
pub mod engine;

pub use config::ManualSectionConfig;
pub use formatting::FormatterManager;
pub use generator::{classify, output_name_template, plan_file, Effect, FilePlan, GenerationError, TemplateKind};
pub use iteration::{IterationEvaluator, IterationPattern};
pub use manual_sections::ManualSectionManager;
