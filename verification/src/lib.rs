//! Core of a note-taking assistant: notes are captured through a multi-turn
//! dialogue, tagged with keywords, persisted in a single logical table, and
//! later retrieved by keyword containment or listed in size-bounded chunks.
//!
//! Everything here is pure logic over plain values; the transport layer and
//! the relational store that drive it live outside this crate.

pub mod cli;
pub mod commands;
pub mod dialogue;
pub mod document;
pub mod keywords;
pub mod note;
pub mod note_info;
pub mod notes;
pub mod numbers;
