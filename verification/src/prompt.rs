//! The prompt: who is at the shell, when, and where, in colour.

use vstd::prelude::*;
use vstd::string::*;

verus! {

/// The colours that the shell writes in.
#[derive(Debug, Clone, Copy, PartialEq, Eq, Structural)]
pub enum Tint {
    Red,
    Green,
    Blue,
}

/// What the prompt shows: the user's name, the time of day it was last
/// brought up to date, and the working directory.
#[derive(Debug)]
pub struct Prompt {
    user: String,
    clock: String,
    pub path: String,
}

/// A prompt as plain text.
pub struct PromptView {
    pub user: Seq<char>,
    pub clock: Seq<char>,
    pub path: Seq<char>,
}

impl View for Prompt {
    type V = PromptView;

    closed spec fn view(&self) -> PromptView {
        PromptView { user: self.user@, clock: self.clock@, path: self.path@ }
    }
}

/// Whether `c` is a decimal digit.
pub open spec fn is_digit(c: char) -> bool {
    '0' <= c <= '9'
}

/// The shape of a time of day as the prompt shows it: day and month, then
/// hour, minute and second, each in two digits, as in `07/03 09:15:42`.
pub open spec fn is_clock(text: Seq<char>) -> bool {
    &&& text.len() == 14
    &&& is_digit(text[0]) && is_digit(text[1])
    &&& text[2] == '/'
    &&& is_digit(text[3]) && is_digit(text[4])
    &&& text[5] == ' '
    &&& is_digit(text[6]) && is_digit(text[7])
    &&& text[8] == ':'
    &&& is_digit(text[9]) && is_digit(text[10])
    &&& text[11] == ':'
    &&& is_digit(text[12]) && is_digit(text[13])
}

/// The escape sequence that switches the terminal to a colour.
pub open spec fn tint_code(tint: Tint) -> Seq<char> {
    match tint {
        Tint::Red => "\x1B[31m"@,
        Tint::Green => "\x1B[32m"@,
        Tint::Blue => "\x1B[34m"@,
    }
}

/// The escape sequence that switches the terminal back.
pub open spec fn reset_code() -> Seq<char> {
    "\x1B[0m"@
}

/// Whether the reset sequence occurs in `text`.
pub open spec fn holds_reset(text: Seq<char>) -> bool {
    exists|i: int|
        0 <= i && i + reset_code().len() <= text.len() && #[trigger] text.subrange(
            i,
            i + reset_code().len(),
        ) == reset_code()
}

/// What `out` may be when `text` was painted in a colour. Where colours are
/// switched off, by a variable such as `NO_COLOR`, because the output is no
/// terminal, or by `colored::control::set_override`, it is the text itself.
/// Where they are on, the text stands between the colour's sequence and the
/// reset sequence; that much is said here only of text that holds no reset
/// sequence of its own. The switch is read more than once while a text is
/// painted: it is taken not to be thrown meanwhile.
pub open spec fn painted(text: Seq<char>, tint: Tint, out: Seq<char>) -> bool {
    ||| out == text
    ||| !holds_reset(text) ==> out == tint_code(tint) + text + reset_code()
}

/// The line of the prompt, made of its three parts.
pub open spec fn prompt_line(clock: Seq<char>, user: Seq<char>, path: Seq<char>) -> Seq<char> {
    clock + " "@ + user + ":"@ + path + "$ "@
}

/// The words of farewell.
pub open spec fn farewell() -> Seq<char> {
    "Now exiting shell...\nGoodbye"@
}

/// The local time of day, from `chrono::Local::now` and
/// `chrono::DateTime::format` with the pattern `%d/%m %T`. The pattern's
/// five fields are each written in two digits, padded with a zero, and the
/// separators are written as they stand: this is all that is claimed, since
/// the time itself is whatever the clock says. `now` panics if the system's
/// clock stands before 1970.
#[verifier::external_body]
fn local_clock() -> (text: String)
    ensures
        is_clock(text@),
{
    chrono::Local::now().format("%d/%m %T").to_string()
}

/// `text` in red, from `colored::Colorize::red` and the `Display` of the
/// `ColoredString` it returns. Whether colours are on is for `colored` to
/// find out when it runs, so the claim allows for both; see [`painted`].
#[verifier::external_body]
fn red(text: &str) -> (out: String)
    ensures
        painted(text@, Tint::Red, out@),
{
    colored::Colorize::red(text).to_string()
}

/// `text` in green, from `colored::Colorize::green` and the `Display` of the
/// `ColoredString` it returns. Whether colours are on is for `colored` to
/// find out when it runs, so the claim allows for both; see [`painted`].
#[verifier::external_body]
fn green(text: &str) -> (out: String)
    ensures
        painted(text@, Tint::Green, out@),
{
    colored::Colorize::green(text).to_string()
}

/// `text` in blue, from `colored::Colorize::blue` and the `Display` of the
/// `ColoredString` it returns. Whether colours are on is for `colored` to
/// find out when it runs, so the claim allows for both; see [`painted`].
#[verifier::external_body]
fn blue(text: &str) -> (out: String)
    ensures
        painted(text@, Tint::Blue, out@),
{
    colored::Colorize::blue(text).to_string()
}

/// Puts the three parts of the prompt in a line: the time, a space, the
/// user, a colon, the directory, and `$ `.
pub fn lay_out(clock: &str, user: &str, path: &str) -> (text: String)
    ensures
        text@ == prompt_line(clock@, user@, path@),
{
    let mut text = String::from_str(clock);
    text.append(" ");
    text.append(user);
    text.append(":");
    text.append(path);
    text.append("$ ");
    text
}

impl Prompt {
    /// A prompt for `user` in the directory `path`, at the present time.
    pub fn new(user: String, path: String) -> (prompt: Prompt)
        ensures
            prompt@.user == user@,
            prompt@.path == path@,
            is_clock(prompt@.clock),
    {
        Prompt { user, clock: local_clock(), path }
    }

    /// The text of the prompt: time and user in green, the directory in
    /// blue.
    pub fn print(&self) -> (text: String)
        ensures
            exists|clock: Seq<char>, user: Seq<char>, path: Seq<char>|
                {
                    &&& #[trigger] painted(self@.clock, Tint::Green, clock)
                    &&& #[trigger] painted(self@.user, Tint::Green, user)
                    &&& #[trigger] painted(self@.path, Tint::Blue, path)
                    &&& text@ == prompt_line(clock, user, path)
                },
    {
        let clock = green(self.clock.as_str());
        let user = green(self.user.as_str());
        let path = blue(self.path.as_str());
        let text = lay_out(clock.as_str(), user.as_str(), path.as_str());
        assert(painted(self@.clock, Tint::Green, clock@));
        assert(painted(self@.user, Tint::Green, user@));
        assert(painted(self@.path, Tint::Blue, path@));
        text
    }

    /// Brings the prompt up to date: the present time, and the directory
    /// `path`.
    pub fn update(&mut self, path: String)
        ensures
            final(self)@.user == old(self)@.user,
            final(self)@.path == path@,
            is_clock(final(self)@.clock),
    {
        self.clock = local_clock();
        self.path = path;
    }

    /// The words of farewell, in red.
    pub fn exit_message(&self) -> (text: String)
        ensures
            painted(farewell(), Tint::Red, text@),
    {
        red("Now exiting shell...\nGoodbye")
    }
}

} // verus!
