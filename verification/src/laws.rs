//! What the library promises as a whole, said of its inputs and its results.
pub mod chats;
pub mod jobs;
pub mod markup;
pub mod memories;
pub mod requests;
pub mod runs;
pub mod servers;
pub mod settings;
pub mod streams;
pub mod texts;
pub mod tools;
pub mod values;
