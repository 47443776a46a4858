//! The client's state machine: which screen the client is on, what a response
//! from the server does to it, and what a line typed by the client does to
//! it.

use crate::client::input::{decimal, read_number, read_u64, without_newlines};
use crate::frame::Frame;
use crate::response::Response;
use vstd::prelude::*;

verus! {

/// The screen that the client is on.
#[derive(Debug, Clone, Copy, PartialEq, Eq, Structural)]
pub enum Interface {
    /// Connected, not yet greeted by the server.
    Init,
    /// The menu.
    Home,
    /// The client has left.
    Quit,
    /// A primality test is under way.
    Prime,
    /// A discrete logarithm is under way.
    Log,
    /// A factorization is under way.
    RSA,
    /// A result is shown; Enter leads back to the menu.
    ReturnHome,
}

/// Why the state machine refuses to move.
#[derive(Debug, Clone, Copy, PartialEq, Eq, Structural)]
pub enum ClientError {
    /// The server's response is not one that the screen expects.
    IllegalResponse,
    /// The screen is not one on which this can happen.
    InterfaceState(Interface),
}

/// What a screen does when its turn to listen to the server comes.
#[derive(Debug, Clone, Copy, PartialEq, Eq, Structural)]
pub enum Opening {
    /// Shows banner and menu again; no response is awaited.
    Menu,
    /// Awaits one response.
    Await,
    /// Opens a table of steps, then awaits responses until one closes it.
    Table,
}

/// What a response puts on the screen.
#[derive(Debug, Clone, Copy, PartialEq, Eq, Structural)]
pub enum Display {
    /// Banner and menu.
    Menu,
    /// The outcome of a primality test.
    Verdict,
    /// One more row of the table, highlighted where tortoise and hare meet.
    Row { highlight: bool },
    /// The closing summary under the table.
    Summary,
}

/// What the next line of input is taken for.
#[derive(Debug, Clone, Copy, PartialEq, Eq, Structural)]
pub enum Entry {
    /// A menu key, or a number to test for primality.
    Command,
    /// The base of a logarithm.
    LogBase,
    /// The value whose logarithm is sought, the base being `g`.
    LogValue { g: u64 },
    /// The prime modulus of a logarithm of `h` to the base `g`.
    LogPrime { g: u64, h: u64 },
    /// The modulus of a public key.
    RsaModulus,
    /// The exponent of a public key with modulus `n`.
    RsaExponent { n: u64 },
}

/// What a line of input leads to.
#[derive(Debug, Clone, Copy, PartialEq, Eq, Structural)]
pub enum Outcome {
    /// The frame is sent to the server.
    Send { frame: Frame },
    /// The client is asked for the next entry.
    Ask,
    /// The line is refused with a warning, and asked for again.
    Warn,
    /// The result is cleared away.
    Clear,
}

/// The line is the one letter of a menu key, in either case.
pub open spec fn is_menu_key(line: Seq<char>, lower: char, upper: char) -> bool {
    line.len() == 1 && (line[0] == lower || line[0] == upper)
}

/// The number that an operand's line writes, if it writes one: newlines at
/// the line's end do not count.
pub open spec fn number_on(line: Seq<char>) -> Option<u64> {
    decimal(without_newlines(line))
}

impl Interface {
    /// What the screen does when its turn to listen to the server comes, or
    /// the refusal of a screen that has no such turn.
    pub open spec fn spec_opening(self) -> Result<Opening, ClientError> {
        match self {
            Interface::Init => Ok(Opening::Await),
            Interface::Home => Ok(Opening::Menu),
            Interface::Prime => Ok(Opening::Await),
            Interface::Log => Ok(Opening::Table),
            Interface::RSA => Ok(Opening::Table),
            Interface::Quit => Err(ClientError::InterfaceState(self)),
            Interface::ReturnHome => Err(ClientError::InterfaceState(self)),
        }
    }

    /// The screen and the display after a response, or the refusal of a
    /// response that the screen does not expect.
    pub open spec fn after_response(self, response: Response) -> Result<
        (Interface, Display),
        ClientError,
    > {
        match self {
            Interface::Init => match response {
                Response::ConnectionOk => Ok((Interface::Home, Display::Menu)),
                _ => Err(ClientError::IllegalResponse),
            },
            Interface::Prime => match response {
                Response::Prime { .. } => Ok((Interface::ReturnHome, Display::Verdict)),
                Response::NotPrime { .. } => Ok((Interface::ReturnHome, Display::Verdict)),
                _ => Err(ClientError::IllegalResponse),
            },
            Interface::Log => match response {
                Response::LogItem { item } => Ok(
                    (Interface::Log, Display::Row { highlight: item.xi == item.yi }),
                ),
                Response::SuccessfulLog { .. } => Ok((Interface::ReturnHome, Display::Summary)),
                Response::UnsuccessfulLog { .. } => Ok((Interface::ReturnHome, Display::Summary)),
                _ => Err(ClientError::IllegalResponse),
            },
            Interface::RSA => match response {
                Response::RSAItem { .. } => Ok((Interface::RSA, Display::Row { highlight: false })),
                Response::SuccessfulRSA { .. } => Ok((Interface::ReturnHome, Display::Summary)),
                Response::UnsuccessfulRSA { .. } => Ok((Interface::ReturnHome, Display::Summary)),
                _ => Err(ClientError::IllegalResponse),
            },
            Interface::Home => Err(ClientError::InterfaceState(self)),
            Interface::Quit => Err(ClientError::InterfaceState(self)),
            Interface::ReturnHome => Err(ClientError::InterfaceState(self)),
        }
    }

    /// The screen, the next entry and the outcome after a line of input on
    /// the menu.
    pub open spec fn after_menu_line(entry: Entry, line: Seq<char>) -> (Interface, Entry, Outcome) {
        match entry {
            Entry::Command => if is_menu_key(line, 'q', 'Q') {
                (Interface::Quit, Entry::Command, Outcome::Send { frame: Frame::Quit })
            } else if decimal(line) is Some {
                (
                    Interface::Prime,
                    Entry::Command,
                    Outcome::Send { frame: Frame::Prime { p: decimal(line)->0 } },
                )
            } else if is_menu_key(line, 'l', 'L') {
                (Interface::Home, Entry::LogBase, Outcome::Ask)
            } else if is_menu_key(line, 'r', 'R') {
                (Interface::Home, Entry::RsaModulus, Outcome::Ask)
            } else {
                (Interface::Home, Entry::Command, Outcome::Warn)
            },
            Entry::LogBase => match number_on(line) {
                Some(g) => (Interface::Home, Entry::LogValue { g }, Outcome::Ask),
                None => (Interface::Home, entry, Outcome::Warn),
            },
            Entry::LogValue { g } => match number_on(line) {
                Some(h) => (Interface::Home, Entry::LogPrime { g, h }, Outcome::Ask),
                None => (Interface::Home, entry, Outcome::Warn),
            },
            Entry::LogPrime { g, h } => match number_on(line) {
                Some(p) => (
                    Interface::Log,
                    Entry::Command,
                    Outcome::Send { frame: Frame::Log { g, h, p } },
                ),
                None => (Interface::Home, entry, Outcome::Warn),
            },
            Entry::RsaModulus => match number_on(line) {
                Some(n) => (Interface::Home, Entry::RsaExponent { n }, Outcome::Ask),
                None => (Interface::Home, entry, Outcome::Warn),
            },
            Entry::RsaExponent { n } => match number_on(line) {
                Some(e) => (
                    Interface::RSA,
                    Entry::Command,
                    Outcome::Send { frame: Frame::RSA { n, e } },
                ),
                None => (Interface::Home, entry, Outcome::Warn),
            },
        }
    }

    /// The screen, the next entry and the outcome after a line of input, or
    /// the refusal of a screen that takes no input.
    pub open spec fn after_line(self, entry: Entry, line: Seq<char>) -> Result<
        (Interface, Entry, Outcome),
        ClientError,
    > {
        match self {
            Interface::Home => Ok(Interface::after_menu_line(entry, line)),
            Interface::ReturnHome => Ok((Interface::Home, Entry::Command, Outcome::Clear)),
            _ => Err(ClientError::InterfaceState(self)),
        }
    }

    /// The screen of a client that has just connected.
    pub fn new() -> (state: Interface)
        ensures
            state == Interface::Init,
    {
        Interface::Init
    }

    /// What the screen does when its turn to listen to the server comes. The
    /// menu only shows itself again; a fresh connection and a primality test
    /// await one response; a logarithm and a factorization open their table
    /// and await responses until the summary. The screens that wait for the
    /// client have no such turn.
    pub fn opening(&self) -> (r: Result<Opening, ClientError>)
        ensures
            r == self.spec_opening(),
    {
        match self {
            Interface::Init => Ok(Opening::Await),
            Interface::Home => Ok(Opening::Menu),
            Interface::Prime => Ok(Opening::Await),
            Interface::Log => Ok(Opening::Table),
            Interface::RSA => Ok(Opening::Table),
            Interface::Quit => Err(ClientError::InterfaceState(*self)),
            Interface::ReturnHome => Err(ClientError::InterfaceState(*self)),
        }
    }

    /// Moves the screen on a response from the server and says what to
    /// display. A fresh connection expects the greeting and shows the menu; a
    /// primality test expects its verdict; a logarithm and a factorization
    /// expect rows, then the summary that ends them. Any other response is
    /// illegal.
    pub fn receive_response(self, response: &Response) -> (r: Result<
        (Interface, Display),
        ClientError,
    >)
        ensures
            r == self.after_response(*response),
    {
        match self {
            Interface::Init => match response {
                Response::ConnectionOk => Ok((Interface::Home, Display::Menu)),
                _ => Err(ClientError::IllegalResponse),
            },
            Interface::Prime => match response {
                Response::Prime { .. } => Ok((Interface::ReturnHome, Display::Verdict)),
                Response::NotPrime { .. } => Ok((Interface::ReturnHome, Display::Verdict)),
                _ => Err(ClientError::IllegalResponse),
            },
            Interface::Log => match response {
                Response::LogItem { item } => Ok(
                    (Interface::Log, Display::Row { highlight: item.xi == item.yi }),
                ),
                Response::SuccessfulLog { .. } => Ok((Interface::ReturnHome, Display::Summary)),
                Response::UnsuccessfulLog { .. } => Ok((Interface::ReturnHome, Display::Summary)),
                _ => Err(ClientError::IllegalResponse),
            },
            Interface::RSA => match response {
                Response::RSAItem { .. } => Ok((Interface::RSA, Display::Row { highlight: false })),
                Response::SuccessfulRSA { .. } => Ok((Interface::ReturnHome, Display::Summary)),
                Response::UnsuccessfulRSA { .. } => Ok((Interface::ReturnHome, Display::Summary)),
                _ => Err(ClientError::IllegalResponse),
            },
            Interface::Home => Err(ClientError::InterfaceState(self)),
            Interface::Quit => Err(ClientError::InterfaceState(self)),
            Interface::ReturnHome => Err(ClientError::InterfaceState(self)),
        }
    }

    /// Moves the screen on a line typed by the client. On the menu, `q`
    /// sends the frame that takes leave, a number sends it to be tested for
    /// primality, `l` and `r` start asking for the operands of a logarithm
    /// and of a factorization, whose last operand sends the request; any
    /// other line is refused with a warning. Where a result is shown, any
    /// line leads back to the menu.
    pub fn parse_request(self, entry: Entry, line: &Vec<char>) -> (r: Result<
        (Interface, Entry, Outcome),
        ClientError,
    >)
        ensures
            r == self.after_line(entry, line@),
    {
        match self {
            Interface::Home => Ok(Interface::parse_menu_line(entry, line)),
            Interface::ReturnHome => Ok((Interface::Home, Entry::Command, Outcome::Clear)),
            _ => Err(ClientError::InterfaceState(self)),
        }
    }

    /// A line of input on the menu.
    fn parse_menu_line(entry: Entry, line: &Vec<char>) -> (r: (Interface, Entry, Outcome))
        ensures
            r == Interface::after_menu_line(entry, line@),
    {
        let number = read_u64(line);
        match entry {
            Entry::Command => {
                if menu_key(line, 'q', 'Q') {
                    (Interface::Quit, Entry::Command, Outcome::Send { frame: Frame::Quit })
                } else if let Some(p) = read_number(line) {
                    (Interface::Prime, Entry::Command, Outcome::Send { frame: Frame::Prime { p } })
                } else if menu_key(line, 'l', 'L') {
                    (Interface::Home, Entry::LogBase, Outcome::Ask)
                } else if menu_key(line, 'r', 'R') {
                    (Interface::Home, Entry::RsaModulus, Outcome::Ask)
                } else {
                    (Interface::Home, Entry::Command, Outcome::Warn)
                }
            },
            Entry::LogBase => match number {
                Some(g) => (Interface::Home, Entry::LogValue { g }, Outcome::Ask),
                None => (Interface::Home, entry, Outcome::Warn),
            },
            Entry::LogValue { g } => match number {
                Some(h) => (Interface::Home, Entry::LogPrime { g, h }, Outcome::Ask),
                None => (Interface::Home, entry, Outcome::Warn),
            },
            Entry::LogPrime { g, h } => match number {
                Some(p) => (
                    Interface::Log,
                    Entry::Command,
                    Outcome::Send { frame: Frame::Log { g, h, p } },
                ),
                None => (Interface::Home, entry, Outcome::Warn),
            },
            Entry::RsaModulus => match number {
                Some(n) => (Interface::Home, Entry::RsaExponent { n }, Outcome::Ask),
                None => (Interface::Home, entry, Outcome::Warn),
            },
            Entry::RsaExponent { n } => match number {
                Some(e) => (
                    Interface::RSA,
                    Entry::Command,
                    Outcome::Send { frame: Frame::RSA { n, e } },
                ),
                None => (Interface::Home, entry, Outcome::Warn),
            },
        }
    }
}

/// Whether the line is the one letter of a menu key, in either case.
fn menu_key(line: &Vec<char>, lower: char, upper: char) -> (r: bool)
    ensures
        r == is_menu_key(line@, lower, upper),
{
    line.len() == 1 && (line[0] == lower || line[0] == upper)
}

} // verus!
