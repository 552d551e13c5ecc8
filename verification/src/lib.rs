//! The live baseball scoreboard behind `kbo-cli`: what is asked of the sports
//! service, what its answers mean, and how they are laid out on a terminal.
pub mod board;
pub mod card;
pub mod cli;
pub mod clock;
pub mod competition;
pub mod live;
pub mod naver;
pub mod number;
pub mod panel;
pub mod plain;
pub mod players;
pub mod relay;
pub mod scores;
pub mod shown;
pub mod style;
pub mod teams;
pub mod text;
pub mod width;
