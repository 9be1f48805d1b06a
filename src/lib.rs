pub mod discover;
pub mod layout;
pub mod order;
pub mod printer;
pub mod reader;
pub mod status;
pub mod text;
pub mod tui;
