//! The application: the root of a schema, and the errors of matching.

use crate::arg::Arg;
use crate::command::{declare, declared, well_formed_commands, Command, Matches};
use crate::parser::{dispatch, parse, token_texts};
use vstd::prelude::*;
use vstd::string::*;

verus! {

/// What an [`AppError`] means: its kind, and the text it carries as a
/// character sequence.
pub enum Failure {
    /// No token was supplied at all.
    NoArguments,
    /// The token that should name a command names none.
    UnknownCommand(Seq<char>),
    /// The named valued argument came without a value and has no default.
    MissingValue(Seq<char>),
    /// The value of the named argument is not of the type asked for.
    InvalidValue(Seq<char>),
    /// No definition declares this short alias.
    UnknownArgument(Seq<char>),
    /// No positional definition is left for this bare token.
    UnexpectedArgument(Seq<char>),
}

impl Failure {
    /// The text shown to the user for this failure.
    pub open spec fn message(self) -> Seq<char> {
        match self {
            Failure::NoArguments => "No arguments provided."@,
            Failure::UnknownCommand(name) => "Unknown command: "@ + name,
            Failure::MissingValue(key) => "Missing value for argument: "@ + key,
            Failure::InvalidValue(key) => "Invalid value for argument: "@ + key,
            Failure::UnknownArgument(key) => "Unknown argument: "@ + key,
            Failure::UnexpectedArgument(token) => "Unexpected argument: "@ + token,
        }
    }
}

/// Custom error types for the application.
#[derive(Debug)]
pub enum AppError {
    /// No token was supplied at all.
    NoArguments,
    /// The token that should name a command names none.
    UnknownCommand(String),
    /// A declared valued argument came without a value and has no default.
    MissingValue(String),
    /// A value is present but is not of the type asked for.
    InvalidValue(String),
    /// A short alias that the schema does not declare.
    UnknownArgument(String),
    /// A bare token with no positional slot left to bind it to.
    UnexpectedArgument(String),
}

impl View for AppError {
    type V = Failure;

    /// The failure of the same kind, with the text as a character sequence.
    open spec fn view(&self) -> Failure {
        match self {
            AppError::NoArguments => Failure::NoArguments,
            AppError::UnknownCommand(name) => Failure::UnknownCommand(name@),
            AppError::MissingValue(key) => Failure::MissingValue(key@),
            AppError::InvalidValue(key) => Failure::InvalidValue(key@),
            AppError::UnknownArgument(key) => Failure::UnknownArgument(key@),
            AppError::UnexpectedArgument(token) => Failure::UnexpectedArgument(token@),
        }
    }
}

/// Joins a fixed prefix and a text into a new string.
fn prefixed(prefix: &str, text: &String) -> (joined: String)
    ensures
        joined@ == prefix@ + text@,
{
    let mut joined = String::from_str(prefix);
    joined.append(text.as_str());
    joined
}

impl AppError {
    /// The text shown to the user for this error.
    pub fn message(&self) -> (text: String)
        ensures
            text@ == self@.message(),
    {
        match self {
            AppError::NoArguments => String::from_str("No arguments provided."),
            AppError::UnknownCommand(name) => prefixed("Unknown command: ", name),
            AppError::MissingValue(key) => prefixed("Missing value for argument: ", key),
            AppError::InvalidValue(key) => prefixed("Invalid value for argument: ", key),
            AppError::UnknownArgument(key) => prefixed("Unknown argument: ", key),
            AppError::UnexpectedArgument(token) => prefixed("Unexpected argument: ", token),
        }
    }
}

/// A simple command line argument parser.
pub struct App<'a> {
    /// The name of the program.
    pub name: &'a str,
    /// The version shown beside the name.
    pub version: &'a str,
    /// The author shown in the help text.
    pub author: &'a str,
    /// A brief description of the application.
    pub about: &'a str,
    /// The arguments that every command accepts.
    pub args: Vec<Arg<'a>>,
    /// The commands, in the order in which their names were first declared.
    pub commands: Vec<Command<'a>>,
}

impl<'a> App<'a> {
    /// The invariant of an application: its commands are found by name, so
    /// no two of them have the same name, and the same holds of their
    /// subcommands at any depth.
    pub open spec fn well_formed(self) -> bool {
        well_formed_commands(self.commands@)
    }

    /// Creates an application called `name`, with empty texts and without
    /// arguments or commands.
    pub fn new(name: &'a str) -> (app: Self)
        ensures
            app.well_formed(),
            app.name@ == name@,
            app.version@ == Seq::<char>::empty(),
            app.author@ == Seq::<char>::empty(),
            app.about@ == Seq::<char>::empty(),
            app.args@ == Seq::<Arg<'a>>::empty(),
            app.commands@ == Seq::<Command<'a>>::empty(),
    {
        let empty = "";
        proof {
            reveal_strlit("");
        }
        App {
            name,
            version: empty,
            author: empty,
            about: empty,
            args: Vec::new(),
            commands: Vec::new(),
        }
    }

    /// Sets the version of the application.
    pub fn version(self, version: &'a str) -> (app: Self)
        ensures
            app == (App { version, ..self }),
    {
        let mut app = self;
        app.version = version;
        app
    }

    /// Sets the author of the application.
    pub fn author(self, author: &'a str) -> (app: Self)
        ensures
            app == (App { author, ..self }),
    {
        let mut app = self;
        app.author = author;
        app
    }

    /// Sets the description of the application.
    pub fn about(self, about: &'a str) -> (app: Self)
        ensures
            app == (App { about, ..self }),
    {
        let mut app = self;
        app.about = about;
        app
    }

    /// Declares one more argument that every command accepts, after those
    /// declared before.
    pub fn arg(self, arg: Arg<'a>) -> (app: Self)
        ensures
            app.args@ == self.args@.push(arg),
            app.name == self.name,
            app.version == self.version,
            app.author == self.author,
            app.about == self.about,
            app.commands == self.commands,
    {
        let mut app = self;
        app.args.push(arg);
        app
    }

    /// Declares a command. It replaces a command of the same name.
    pub fn command(self, command: Command<'a>) -> (app: Self)
        ensures
            app.commands@ == declared(self.commands@, command),
            self.well_formed() && command.well_formed() ==> app.well_formed(),
            app.name == self.name,
            app.version == self.version,
            app.author == self.author,
            app.about == self.about,
            app.args == self.args,
    {
        let mut app = self;
        declare(&mut app.commands, command);
        app
    }

    /// Matches the tokens of a command line, without the name of the
    /// program, against the application, and runs the action of the command
    /// they select.
    pub fn get_matches(&self, input_args: &[String]) -> (parsed: Result<Matches, AppError>)
        ensures
            match dispatch(*self, token_texts(input_args@)) {
                Ok(choice) => {
                    &&& parsed matches Ok(matches)
                    &&& matches@ == choice.table
                    &&& choice.command.execute matches Some(action) ==> action.performed(
                        &matches,
                    )
                },
                Err(failure) => parsed matches Err(e) && e@ == failure,
            },
    {
        parse(self, input_args)
    }
}

} // verus!
