//! The completion engine of an interactive path prompt.
//!
//! While a path is typed, the prompt offers the rest of its next segment:
//! the text is split into the directory it names so far and the segment
//! being typed (`path`), the subfolders of that directory are put in their
//! listed order (`order`, `listing`), and the segment is matched against
//! them, or, with nothing typed, an offset cycles through them (`suggest`).
//! `prompt` holds the state of the prompt and changes it command by command,
//! so that a host has only to read keys and directories and to draw the
//! result. `text` holds the order on texts that the rest is built on.
pub mod listing;
pub mod order;
pub mod path;
pub mod prompt;
pub mod suggest;
pub mod text;
