//! The rules of a mine-sweeper game: the board and its panels, flood opening,
//! mine placement, undo history, and the assist engine that marks panels as
//! dangerous or safe from the numbers that the player can see.

pub mod myconst;
pub mod utils;
pub mod panel;
pub mod board;
pub mod chain;
pub mod gametable;
pub mod inference;
pub mod chkbox;
pub mod soundness;
pub mod chkboxmng;
pub mod setting;
pub mod txtbox;
pub mod keymanager;
pub mod titlemain;
pub mod gamemain;
