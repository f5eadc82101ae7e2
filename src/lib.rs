pub mod color;
pub mod decoder;
pub mod scrollback;
pub mod script;
pub mod telnet;
pub mod text;
pub mod windows;
pub mod command;
