//! Decomposes the tokens of a release-style media file name into labelled
//! elements: title, episode, season, release group, resolution and so on.
//!
//! A tokenizer, which is not part of this crate, splits a file name such as
//! `[Group] Show Name - 01v2 (1080p) [ABCD1234].mkv` into tokens and looks
//! each of them up in a catalog of keywords. [`parser::parse_with_options`]
//! then runs a fixed sequence of extractors over the tokens. Each extractor
//! reads the tokens as the earlier ones left them, emits elements, and
//! claims the tokens it has read, which hides them from the later ones.
//! The elements come back in the order of their positions.
//!
//! # What is proved
//!
//! Every function states what it does over the mathematical value of the
//! tokens ([`token::TokenView`]) and of the elements
//! ([`element::ElementView`]), and Verus proves that it does so, and that
//! it neither panics nor overflows. For each extractor a specification
//! function in its module says which tokens it claims and which elements it
//! emits; [`parser::extracted`] puts them in a row. On top of that the
//! pipeline is proved to keep the claim discipline
//! ([`parser::discipline::sourced`]), to keep titles apart from the other
//! elements ([`parser::title_apart`]), and to return its elements in order
//! ([`order::sorted_by_position`]).
//!
//! # What is trusted
//!
//! Four shapes of text are recognized by regular expressions, which the
//! `regex` crate matches. What it returns is not described but only named
//! in the contracts: see [`pattern`].

use vstd::prelude::*;

pub mod element;
pub mod keyword;
pub mod order;
pub mod parser;
pub mod pattern;
pub mod search;
pub mod text;
pub mod token;
pub mod utils;

verus! {

/// Which extractors run.
#[derive(Clone, Copy, Debug, PartialEq, Eq, Structural)]
pub struct Options {
    pub parse_file_extension: bool,
    pub parse_file_checksum: bool,
    pub parse_video_resolution: bool,
    pub parse_date: bool,
    pub parse_year: bool,
    pub parse_season: bool,
    pub parse_episode: bool,
    pub parse_episode_title: bool,
    pub parse_title: bool,
    pub parse_release_group: bool,
}

impl Options {
    /// The options with every extractor switched on.
    pub open spec fn all() -> Options {
        Options {
            parse_file_extension: true,
            parse_file_checksum: true,
            parse_video_resolution: true,
            parse_date: true,
            parse_year: true,
            parse_season: true,
            parse_episode: true,
            parse_episode_title: true,
            parse_title: true,
            parse_release_group: true,
        }
    }

    /// The options with every extractor switched on.
    pub fn new() -> (r: Options)
        ensures
            r == Options::all(),
    {
        Options {
            parse_file_extension: true,
            parse_file_checksum: true,
            parse_video_resolution: true,
            parse_date: true,
            parse_year: true,
            parse_season: true,
            parse_episode: true,
            parse_episode_title: true,
            parse_title: true,
            parse_release_group: true,
        }
    }

    pub fn parse_file_extension(&self) -> (r: bool)
        ensures
            r == self.parse_file_extension,
    {
        self.parse_file_extension
    }

    pub fn parse_file_checksum(&self) -> (r: bool)
        ensures
            r == self.parse_file_checksum,
    {
        self.parse_file_checksum
    }

    pub fn parse_video_resolution(&self) -> (r: bool)
        ensures
            r == self.parse_video_resolution,
    {
        self.parse_video_resolution
    }

    pub fn parse_date(&self) -> (r: bool)
        ensures
            r == self.parse_date,
    {
        self.parse_date
    }

    pub fn parse_year(&self) -> (r: bool)
        ensures
            r == self.parse_year,
    {
        self.parse_year
    }

    pub fn parse_season(&self) -> (r: bool)
        ensures
            r == self.parse_season,
    {
        self.parse_season
    }

    pub fn parse_episode(&self) -> (r: bool)
        ensures
            r == self.parse_episode,
    {
        self.parse_episode
    }

    pub fn parse_episode_title(&self) -> (r: bool)
        ensures
            r == self.parse_episode_title,
    {
        self.parse_episode_title
    }

    pub fn parse_title(&self) -> (r: bool)
        ensures
            r == self.parse_title,
    {
        self.parse_title
    }

    pub fn parse_release_group(&self) -> (r: bool)
        ensures
            r == self.parse_release_group,
    {
        self.parse_release_group
    }
}

impl Default for Options {
    fn default() -> (r: Options)
        ensures
            r == Options::all(),
    {
        Options::new()
    }
}

} // verus!
