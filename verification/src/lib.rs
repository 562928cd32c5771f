//! The curation rules of the karaoke package builder: how a song's names are read and shown, how
//! a filter travels between pages, and how a handful of copies of one song is put in order.

mod text;
pub mod names;
pub mod hint;
pub mod model;
pub mod recent;
pub mod form;
pub mod filter;
pub mod browse;
pub mod requests;
pub mod lyric;
pub mod shell;
pub mod register;
pub mod startup;
pub mod round_trip;
pub mod bulk;
pub mod unescape;
pub mod song;
