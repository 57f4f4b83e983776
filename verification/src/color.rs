//! The fixed set of color tags a task may carry, and ANSI escape helpers for
//! rendering colored text.

use vstd::prelude::*;

verus! {

/// A color tag. The declaration order is meaningful: it is the ordinal used
/// when sorting tasks by color.
#[derive(Debug, PartialEq, Eq, Clone, Copy, Structural)]
pub enum Color {
    Red,
    Yellow,
    Green,
    Blue,
    Purple,
}

impl Color {
    /// The sort ordinal of this tag: Red < Yellow < Green < Blue < Purple.
    pub open spec fn ordinal_spec(self) -> int {
        match self {
            Color::Red => 0,
            Color::Yellow => 1,
            Color::Green => 2,
            Color::Blue => 3,
            Color::Purple => 4,
        }
    }

    /// Executable form of [`Color::ordinal_spec`].
    pub fn ordinal(&self) -> (r: u8)
        ensures
            r as int == self.ordinal_spec(),
    {
        match self {
            Color::Red => 0,
            Color::Yellow => 1,
            Color::Green => 2,
            Color::Blue => 3,
            Color::Purple => 4,
        }
    }
}

/// Adds an ANSI foreground or background escape code in front of a string and
/// a reset code after it.
pub trait Colorize {
    fn red_fg(&self) -> (r: String)
        ensures
            r@ == "\x1b[31m"@ + self.view_str() + "\x1b[0m"@,
    ;

    fn yellow_fg(&self) -> (r: String)
        ensures
            r@ == "\x1b[33m"@ + self.view_str() + "\x1b[0m"@,
    ;

    fn green_fg(&self) -> (r: String)
        ensures
            r@ == "\x1b[32m"@ + self.view_str() + "\x1b[0m"@,
    ;

    fn blue_fg(&self) -> (r: String)
        ensures
            r@ == "\x1b[34m"@ + self.view_str() + "\x1b[0m"@,
    ;

    fn purple_fg(&self) -> (r: String)
        ensures
            r@ == "\x1b[35m"@ + self.view_str() + "\x1b[0m"@,
    ;

    fn red_bg(&self) -> (r: String)
        ensures
            r@ == "\x1b[41m"@ + self.view_str() + "\x1b[0m"@,
    ;

    fn yellow_bg(&self) -> (r: String)
        ensures
            r@ == "\x1b[43m"@ + self.view_str() + "\x1b[0m"@,
    ;

    fn green_bg(&self) -> (r: String)
        ensures
            r@ == "\x1b[42m"@ + self.view_str() + "\x1b[0m"@,
    ;

    fn blue_bg(&self) -> (r: String)
        ensures
            r@ == "\x1b[44m"@ + self.view_str() + "\x1b[0m"@,
    ;

    fn purple_bg(&self) -> (r: String)
        ensures
            r@ == "\x1b[45m"@ + self.view_str() + "\x1b[0m"@,
    ;

    /// The character sequence of the text being colored.
    spec fn view_str(&self) -> Seq<char>;
}

impl Colorize for str {
    open spec fn view_str(&self) -> Seq<char> {
        self@
    }

    fn red_fg(&self) -> (r: String) {
        add_color("\x1b[31m".to_owned(), self)
    }

    fn yellow_fg(&self) -> (r: String) {
        add_color("\x1b[33m".to_owned(), self)
    }

    fn green_fg(&self) -> (r: String) {
        add_color("\x1b[32m".to_owned(), self)
    }

    fn blue_fg(&self) -> (r: String) {
        add_color("\x1b[34m".to_owned(), self)
    }

    fn purple_fg(&self) -> (r: String) {
        add_color("\x1b[35m".to_owned(), self)
    }

    fn red_bg(&self) -> (r: String) {
        add_color("\x1b[41m".to_owned(), self)
    }

    fn yellow_bg(&self) -> (r: String) {
        add_color("\x1b[43m".to_owned(), self)
    }

    fn green_bg(&self) -> (r: String) {
        add_color("\x1b[42m".to_owned(), self)
    }

    fn blue_bg(&self) -> (r: String) {
        add_color("\x1b[44m".to_owned(), self)
    }

    fn purple_bg(&self) -> (r: String) {
        add_color("\x1b[45m".to_owned(), self)
    }
}

/// Wraps `text` in `color` (an ANSI escape prefix) and a trailing reset code.
pub fn add_color(color: String, text: &str) -> (r: String)
    ensures
        r@ == color@ + text@ + "\x1b[0m"@,
{
    let mut color = color;
    color.append(text);
    color.append("\x1b[0m");
    color
}

} // verus!
