//! A client library for a fantasy football data service: typed records,
//! reference indexes, scoring breakdowns, filtering and ordering of players,
//! and fixed-width table rendering.
pub mod api;
pub mod breakdown;
pub mod decimal;
pub mod index;
pub mod models;
pub mod players;
pub mod ranking;
pub mod render;
pub mod tables;
pub mod text;
pub mod views;
