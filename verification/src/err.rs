//! The two error values of the shell: one for a command line that could not
//! be parsed, one for a command that failed to run.
use vstd::prelude::*;
use vstd::string::*;

verus! {

/// What an [`ExecuteError`] holds.
pub struct ExecuteErrorView {
    pub msg: Seq<char>,
    pub cmd_name: Seq<char>,
}

/// A command that failed to run: why, and which command.
#[derive(Debug)]
pub struct ExecuteError {
    msg: String,
    cmd_name: String,
}

impl View for ExecuteError {
    type V = ExecuteErrorView;

    closed spec fn view(&self) -> ExecuteErrorView {
        ExecuteErrorView { msg: self.msg@, cmd_name: self.cmd_name@ }
    }
}

impl ExecuteError {
    pub fn new(msg: &str, cmd_name: &str) -> (e: Self)
        ensures
            e@ == (ExecuteErrorView { msg: msg@, cmd_name: cmd_name@ }),
    {
        ExecuteError { msg: String::from_str(msg), cmd_name: String::from_str(cmd_name) }
    }

    /// The message shown to the user:
    /// `failed to execute cmd '<cmd_name>': <msg>`.
    pub fn to_string(&self) -> (s: String)
        ensures
            s@ == "failed to execute cmd '"@ + self@.cmd_name + "': "@ + self@.msg,
    {
        let mut s = String::from_str("failed to execute cmd '");
        s.append(self.cmd_name.as_str());
        s.append("': ");
        s.append(self.msg.as_str());
        s
    }
}

/// What a [`ParseError`] holds.
pub struct ParseErrorView {
    pub msg: Seq<char>,
    pub parsed_str: Seq<char>,
}

/// A command line, or a part of it, that could not be parsed: why, and which
/// text.
#[derive(Debug)]
pub struct ParseError {
    msg: String,
    parsed_str: String,
}

impl View for ParseError {
    type V = ParseErrorView;

    closed spec fn view(&self) -> ParseErrorView {
        ParseErrorView { msg: self.msg@, parsed_str: self.parsed_str@ }
    }
}

impl ParseError {
    pub fn new(msg: &str, parsed_str: &str) -> (e: Self)
        ensures
            e@ == (ParseErrorView { msg: msg@, parsed_str: parsed_str@ }),
    {
        ParseError { msg: String::from_str(msg), parsed_str: String::from_str(parsed_str) }
    }

    /// The message shown to the user: `failed to parse '<parsed_str>': <msg>`.
    pub fn to_string(&self) -> (s: String)
        ensures
            s@ == "failed to parse '"@ + self@.parsed_str + "': "@ + self@.msg,
    {
        let mut s = String::from_str("failed to parse '");
        s.append(self.parsed_str.as_str());
        s.append("': ");
        s.append(self.msg.as_str());
        s
    }
}

} // verus!
