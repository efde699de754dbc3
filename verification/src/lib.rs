//! Irregular verbs for memorizing: reading them from lines of text, bringing
//! a free-text answer into form, and grading it.
pub mod answer;
pub mod grading;
pub mod loader;
pub mod quiz;
pub mod store;
pub mod text;
pub mod verb;

pub use answer::{is_two_forms_correct, remove_extra_whitespaces, replace_commas_with_whitespaces};
pub use grading::{check, grade_answer, grade_forms, split_forms, CheckError};
pub use loader::{
    is_path_exists, parse_line, read_irregular_verbs, split_lines, Field, LoadError,
};
pub use quiz::{Feedback, Quiz};
pub use store::{find_by_infinitive, list_infinitives, position_of_infinitive, NotFound};
pub use verb::{validate, IrregularVerb, ResultMsg};
