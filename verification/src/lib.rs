pub mod text;
pub mod trivia;
pub mod state;
pub mod qrz;
pub mod events;
pub mod ui;
pub mod standings;
