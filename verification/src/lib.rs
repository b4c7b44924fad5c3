//! What AI providers report about credits and spend, brought into one form for a status bar.
//!
//! A fetch runs in steps ([`session`]): the library decides what is to be asked and what an
//! answer comes to, and the program around it does the asking. Numbers in single and double
//! precision are held as bit patterns ([`number`]), and their arithmetic is carried out on
//! integers ([`float`]), so that every share and every amount that is shown is proved.

pub mod clock;
pub mod color;
pub mod copilot;
pub mod decimal;
pub mod error;
pub mod estimate;
pub mod fetch_laws;
pub mod float;
pub mod grid;
pub mod json;
pub mod keys;
pub mod laws;
pub mod number;
pub mod openai;
pub mod openai_laws;
pub mod openrouter;
pub mod order;
pub mod ranges;
pub mod request;
pub mod round;
pub mod session;
pub mod snapshot;
pub mod text;
pub mod zed;
