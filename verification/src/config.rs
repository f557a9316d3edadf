//! The bar's configuration: default colors, font preferences, an
//! optional name, and whether the bar stays alive after its input
//! ends.

use vstd::prelude::*;

use crate::color::Color;

verus! {

/// Configuration values the bar runs with, already validated.
pub struct Config {
    pub background_color: Color,
    pub foreground_color: Color,
    pub permaent: bool,
    pub name: Option<String>,
    pub fonts: Vec<String>,
}

impl Config {
    pub fn new(
        background_color: Color,
        foreground_color: Color,
        permaent: bool,
        name: Option<String>,
        fonts: Vec<String>,
    ) -> (c: Config)
        ensures
            c.background_color == background_color,
            c.foreground_color == foreground_color,
            c.permaent == permaent,
            c.name == name,
            c.fonts == fonts,
    {
        Config { background_color, foreground_color, permaent, name, fonts }
    }

    /// The configured default background color.
    pub fn background_color(&self) -> (r: Color)
        ensures
            r == self.background_color,
    {
        self.background_color
    }

    /// The configured default foreground color.
    pub fn foreground_color(&self) -> (r: Color)
        ensures
            r == self.foreground_color,
    {
        self.foreground_color
    }

    /// Whether the bar keeps repainting after its input ends.
    pub fn permaent(&self) -> (r: bool)
        ensures
            r == self.permaent,
    {
        self.permaent
    }

    /// The bar's name, if one was given.
    pub fn name(&self) -> (r: Option<&String>)
        ensures
            (match r {
                Some(n) => self.name == Some(*n),
                None => self.name is None,
            }),
    {
        self.name.as_ref()
    }

    /// The ordered font family preference list.
    pub fn fonts(&self) -> (r: &Vec<String>)
        ensures
            r == &self.fonts,
    {
        &self.fonts
    }
}

} // verus!
