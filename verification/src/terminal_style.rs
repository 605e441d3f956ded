//! Colours on terminals.
use vstd::prelude::*;
use vstd::string::StringExecFns;

use crate::host::{HostError, HostErrorKind};
use crate::strings::{decimal, decimal_text, join3, starts_with};

verus! {

/// The sixteen colours that every terminal has.
#[derive(Clone, Copy, Debug, PartialEq, Eq, Structural)]
pub enum Foreground {
    Black,
    DarkRed,
    DarkGreen,
    DarkYellow,
    DarkBlue,
    DarkMagenta,
    DarkCyan,
    Grey,
    DarkGrey,
    Red,
    Green,
    Yellow,
    Blue,
    Magenta,
    Cyan,
    White,
}

impl Foreground {
    /// The number of a colour in the palette.
    pub open spec fn number(self) -> nat {
        match self {
            Foreground::Black => 0,
            Foreground::DarkRed => 1,
            Foreground::DarkGreen => 2,
            Foreground::DarkYellow => 3,
            Foreground::DarkBlue => 4,
            Foreground::DarkMagenta => 5,
            Foreground::DarkCyan => 6,
            Foreground::Grey => 7,
            Foreground::DarkGrey => 8,
            Foreground::Red => 9,
            Foreground::Green => 10,
            Foreground::Yellow => 11,
            Foreground::Blue => 12,
            Foreground::Magenta => 13,
            Foreground::Cyan => 14,
            Foreground::White => 15,
        }
    }

    pub fn palette_index(self) -> (index: u8)
        ensures
            index == self.number(),
    {
        match self {
            Foreground::Black => 0,
            Foreground::DarkRed => 1,
            Foreground::DarkGreen => 2,
            Foreground::DarkYellow => 3,
            Foreground::DarkBlue => 4,
            Foreground::DarkMagenta => 5,
            Foreground::DarkCyan => 6,
            Foreground::Grey => 7,
            Foreground::DarkGrey => 8,
            Foreground::Red => 9,
            Foreground::Green => 10,
            Foreground::Yellow => 11,
            Foreground::Blue => 12,
            Foreground::Magenta => 13,
            Foreground::Cyan => 14,
            Foreground::White => 15,
        }
    }
}

/// Text with a colour, which is only shown where that is enabled.
#[derive(Clone, Copy, Debug)]
pub struct StyledText<'a> {
    text: &'a str,
    foreground: Foreground,
    enabled: bool,
}

impl<'a> StyledText<'a> {
    pub closed spec fn spec_text(&self) -> Seq<char> {
        self.text@
    }

    pub closed spec fn spec_foreground(&self) -> Foreground {
        self.foreground
    }

    pub closed spec fn spec_enabled(&self) -> bool {
        self.enabled
    }

    pub fn new(text: &'a str, foreground: Foreground, enabled: bool) -> (styled: Self)
        ensures
            styled.spec_text() == text@,
            styled.spec_foreground() == foreground,
            styled.spec_enabled() == enabled,
    {
        StyledText { text, foreground, enabled }
    }

    /// What is written to the terminal. Only the colour of the text is changed
    /// and put back.
    pub open spec fn rendered(&self) -> Seq<char> {
        if self.spec_enabled() {
            "\x1b[38;5;"@ + decimal(self.spec_foreground().number()) + "m"@ + self.spec_text()
                + "\x1b[39m"@
        } else {
            self.spec_text()
        }
    }

    pub fn render(&self) -> (output: String)
        ensures
            output@ == self.rendered(),
    {
        if !self.enabled {
            return self.text.to_owned();
        }
        let number = decimal_text(self.foreground.palette_index() as u64);
        let mut output = join3("\x1b[38;5;", number.as_str(), "m");
        output.append(self.text);
        output.append("\x1b[39m");
        output
    }
}

/// Different colours have different numbers.
pub proof fn colours_differ(first: Foreground, second: Foreground)
    requires
        first.number() == second.number(),
    ensures
        first == second,
{
}

// ---------------------------------------------------------------------------
// Preparing a console
// ---------------------------------------------------------------------------

pub const ENABLE_PROCESSED_OUTPUT: u32 = 0x1;

pub const ENABLE_VIRTUAL_TERMINAL_PROCESSING: u32 = 0x4;

pub const ERROR_INVALID_HANDLE: i32 = 6;

pub const ERROR_INVALID_PARAMETER: i32 = 87;

/// What to do about a console.
#[derive(Debug)]
pub enum ConsoleStep {
    /// Colours can be used, or not.
    Ready { ansi: bool },
    /// Ask the host for another mode first.
    SetMode { mode: u32 },
    Fail(HostError),
}

/// What a look at the console leads to. A handle that is no console is a file or
/// a pipe, which takes no colours.
pub fn console_step(has_handle: bool, mode: Result<u32, HostError>) -> (step: ConsoleStep)
    ensures
        match step {
            ConsoleStep::Ready { ansi } => has_handle && match mode {
                Ok(mode) => ansi && mode == mode | ENABLE_PROCESSED_OUTPUT
                    | ENABLE_VIRTUAL_TERMINAL_PROCESSING,
                Err(error) => !ansi && error.code == Some(ERROR_INVALID_HANDLE),
            },
            ConsoleStep::SetMode { mode: wanted } => has_handle && mode is Ok && wanted == mode->Ok_0
                | ENABLE_PROCESSED_OUTPUT | ENABLE_VIRTUAL_TERMINAL_PROCESSING && wanted
                != mode->Ok_0,
            ConsoleStep::Fail(error) => if !has_handle {
                error.says(HostErrorKind::NotConnected, "stderr has no native handle"@)
            } else {
                mode is Err && error == mode->Err_0 && error.code != Some(ERROR_INVALID_HANDLE)
            },
        },
{
    if !has_handle {
        return ConsoleStep::Fail(
            HostError::new(HostErrorKind::NotConnected, "stderr has no native handle"),
        );
    }
    match mode {
        Ok(mode) => {
            let wanted: u32 = mode | ENABLE_PROCESSED_OUTPUT | ENABLE_VIRTUAL_TERMINAL_PROCESSING;
            if wanted == mode {
                ConsoleStep::Ready { ansi: true }
            } else {
                ConsoleStep::SetMode { mode: wanted }
            }
        },
        Err(error) => {
            let no_console = match error.code {
                Some(code) => code == ERROR_INVALID_HANDLE,
                None => false,
            };
            if no_console {
                ConsoleStep::Ready { ansi: false }
            } else {
                ConsoleStep::Fail(error)
            }
        },
    }
}

/// What asking for another mode came to. A host that does not know the mode is
/// an old one, which takes no colours.
pub fn console_result(set: Result<(), HostError>) -> (ansi: Result<bool, HostError>)
    ensures
        match (set, ansi) {
            (Ok(()), Ok(ansi)) => ansi,
            (Err(error), Ok(ansi)) => !ansi && error.code == Some(ERROR_INVALID_PARAMETER),
            (Err(error), Err(reported)) => reported == error && error.code != Some(
                ERROR_INVALID_PARAMETER,
            ),
            _ => false,
        },
{
    match set {
        Ok(()) => Ok(true),
        Err(error) => {
            let unknown = match error.code {
                Some(code) => code == ERROR_INVALID_PARAMETER,
                None => false,
            };
            if unknown {
                Ok(false)
            } else {
                Err(error)
            }
        },
    }
}

/// A coloured text is the text itself between a code that depends on the colour alone and one
/// that takes the colour back; without colours it is the text.
pub proof fn colours_stand_around_the_text(first: StyledText, second: StyledText)
    requires
        first.spec_enabled(),
    ensures
        second.spec_enabled() && first.spec_foreground() == second.spec_foreground() ==> {
            &&& first.rendered().len() - first.spec_text().len() == second.rendered().len()
                - second.spec_text().len()
            &&& first.rendered() == second.rendered() ==> first.spec_text() == second.spec_text()
        },
        !second.spec_enabled() ==> second.rendered() == second.spec_text(),
        exists|front: Seq<char>|
            #[trigger] (front + first.spec_text() + "\x1b[39m"@) == first.rendered() && starts_with(
                front,
                "\x1b[38;5;"@,
            ),
{
    let front = "\x1b[38;5;"@ + decimal(first.spec_foreground().number()) + "m"@;
    let back = "\x1b[39m"@;
    assert(front + first.spec_text() + back =~= first.rendered());
    assert(front.subrange(0, "\x1b[38;5;"@.len() as int) =~= "\x1b[38;5;"@);
    if second.spec_enabled() && first.spec_foreground() == second.spec_foreground() {
        assert(front + second.spec_text() + back =~= second.rendered());
        let n = front.len() as int;
        assert(first.rendered().subrange(n, n + first.spec_text().len()) =~= first.spec_text());
        assert(second.rendered().subrange(n, n + second.spec_text().len()) =~= second.spec_text());
    }
}

/// The dark colours come first, then the bright ones, eight places on.
pub proof fn bright_colours_follow_the_dark_ones()
    ensures
        Foreground::Black.number() == 0,
        Foreground::DarkRed.number() + 8 == Foreground::Red.number(),
        Foreground::DarkGreen.number() + 8 == Foreground::Green.number(),
        Foreground::DarkYellow.number() + 8 == Foreground::Yellow.number(),
        Foreground::DarkBlue.number() + 8 == Foreground::Blue.number(),
        Foreground::DarkMagenta.number() + 8 == Foreground::Magenta.number(),
        Foreground::DarkCyan.number() + 8 == Foreground::Cyan.number(),
        Foreground::Grey.number() + 8 == Foreground::White.number(),
        Foreground::Black.number() + 8 == Foreground::DarkGrey.number(),
        Foreground::DarkRed.number() == 1,
        Foreground::DarkGreen.number() == 2,
        Foreground::DarkYellow.number() == 3,
        Foreground::DarkBlue.number() == 4,
        Foreground::DarkMagenta.number() == 5,
        Foreground::DarkCyan.number() == 6,
        Foreground::Grey.number() == 7,
{
}

/// A console's mode changes by the two bits that colours need, and in nothing else.
pub proof fn modes_change_by_two_bits(mode: u32, step: ConsoleStep)
    requires
        call_ensures(console_step, (true, Ok(mode)), step),
    ensures
        match step {
            ConsoleStep::Ready { ansi } => ansi && mode & 5 == 5,
            ConsoleStep::SetMode { mode: wanted } => wanted & 5 == 5 && wanted & !5 == mode & !5
                && mode & 5 != 5,
            ConsoleStep::Fail(_) => false,
        },
{
    assert((mode == mode | 1u32 | 4u32) <==> mode & 5 == 5) by (bit_vector);
    assert((mode | 1u32 | 4u32) & 5 == 5) by (bit_vector);
    assert((mode | 1u32 | 4u32) & !5 == mode & !5) by (bit_vector);
}

/// A console that was given away, or that knows no colours, is no failure.
pub proof fn consoles_without_colours_are_no_failure(
    error: HostError,
    step: ConsoleStep,
    ansi: Result<bool, HostError>,
)
    requires
        call_ensures(console_step, (true, Err(error)), step),
        call_ensures(console_result, (Err(error),), ansi),
    ensures
        error.code == Some(6i32) <==> step == (ConsoleStep::Ready { ansi: false }),
        error.code != Some(6i32) ==> step == ConsoleStep::Fail(error),
        error.code == Some(87i32) <==> ansi is Ok,
        ansi is Ok ==> !ansi->Ok_0,
        ansi is Err ==> ansi->Err_0 == error,
{
}

} // verus!
