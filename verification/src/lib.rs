//! Document-construction core of a minimal browser engine.
//!
//! Raw markup text is scanned by a character-level HTML tokenizer and folded
//! by an insertion-mode state machine into a DOM tree; stylesheet text is
//! scanned by a CSS tokenizer and parsed into an ordered rule list. Both
//! passes are error-tolerant: bad input degrades, it never aborts.

pub mod css;
pub mod dom;
pub mod html;
pub mod http;
pub mod layout;
pub mod text;
pub mod url;
