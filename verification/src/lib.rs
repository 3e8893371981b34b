//! A typing-practice word game: a dictionary of words read from plain-text
//! files, a picker that draws one word at random, and the dialogue of a
//! session in which the player retypes each word.

pub mod dictionary;
pub mod game;
pub mod picker;
pub mod text;
