//! The state of the terminal UI: the edit forms, the list of tunnels, and the
//! screens with what each key does.
pub mod forms;
pub mod list;
pub mod screen;
