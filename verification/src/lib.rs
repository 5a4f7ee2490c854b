pub mod food;
pub mod game;
pub mod highscore;
pub mod snake;
pub mod timing;
