//! What the editor shows of an agent's work.
pub mod all_pages;
pub mod approval;
pub mod cursor_json;
pub mod custom_diff;
pub mod diff_pages;
pub mod page_answer;
pub mod page_chain;
pub mod page_limits;
pub mod shown_arguments;
pub mod tool_input;
pub mod tools;
