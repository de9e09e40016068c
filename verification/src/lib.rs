/// The failure taxonomy of the pipeline.
pub mod errors;
/// Invocation of the external decryption tool, the acquire/release
/// decisions, and the plan of one run's actions.
pub mod gateway;
/// The plaintext grid format: parser, serializer, and the laws tying them.
pub mod grid;
/// Canonical decimal renderings of the channel values.
pub mod numbers;
/// Coordinate resolution and cell-value lookup.
pub mod query;
/// The cell, matrix and decrypted-artifact data model.
pub mod structure;
/// Splitting and joining text around one-character delimiters.
pub mod text;

pub use errors::RatrixError;
pub use gateway::SessionAction;
pub use gateway::cleanup_outcome;
pub use gateway::decrypt_command;
pub use gateway::decrypt_outcome;
pub use gateway::plan_session;
pub use gateway::read_outcome;
pub use grid::extract_cell_values;
pub use grid::matrix_to_text;
pub use grid::process_file_contents;
pub use query::convert_position;
pub use query::print_position_value;
pub use query::print_values;
pub use structure::Cell;
pub use structure::File;
pub use structure::Matrix;
