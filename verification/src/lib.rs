//! A small toolkit around a maze puzzle and its companion string hash.

pub mod hasher;
pub mod grid;
pub mod maze;
pub mod sequence;
pub mod path;
pub mod text;
pub mod game;
pub mod unhasher;
