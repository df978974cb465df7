//! The logic of the Agent Platform desktop app: the parsers, state machines
//! and rules behind its screens, with the window, the network and the disk
//! left to the program around it.
pub mod text;
pub mod assistant;
pub mod assistant_tools;
pub mod assistant_voice;
pub mod assistant_gate;
pub mod json;
pub mod providers;
pub mod coder;
pub mod coder_git;
pub mod apidocs;
pub mod account;
pub mod agenda_chat;
pub mod agenda;
pub mod chat;
pub mod coder_files;
pub mod coder_browser;
pub mod coder_turn;
pub mod coder_board;
pub mod coder_prompt;
pub mod assistant_turn;
