//! A terminal typing game: the word queue, the live word under the cursor,
//! the elapsed-time counter and the template layout it is drawn with.

pub mod words;
pub mod timer;
pub mod layout;
pub mod components;
pub mod score;
pub mod display;
pub mod game;
