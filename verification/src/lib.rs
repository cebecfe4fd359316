//! Romaji-to-kana transliteration, kana-to-kanji lookup and a kanji overlay
//! session for a Japanese learning keyboard.

pub mod app;
pub mod cli;
pub mod converter;
mod draw;
pub mod kanji_converter;
pub mod lessons;
pub mod overlay;
pub mod rules;
pub mod session;
pub mod text;
