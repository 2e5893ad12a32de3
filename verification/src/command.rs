//! Commands, and the table of values that matching resolves.

use crate::app::{AppError, Failure};
use crate::arg::Arg;
use crate::text::{decimal_i32, parse_i32, same_text};
use vstd::hash_map::StringHashMap;
use vstd::prelude::*;

verus! {

/// What a command does with the table of values that was resolved for it.
pub trait Action {
    /// What the action promises of a run on a table. The functions that run
    /// an action promise the same of it in turn. An action that promises
    /// nothing keeps this as it is.
    open spec fn performed(&self, matches: &Matches) -> bool {
        true
    }

    /// Runs the action on the resolved values.
    fn invoke(&self, matches: &Matches)
        ensures
            self.performed(matches),
    ;
}

/// A closure as the action of a command. Only a closure that can be called
/// with every table becomes one.
pub struct Callback<F: Fn(&Matches)> {
    func: F,
}

impl<F: Fn(&Matches)> Callback<F> {
    /// The closure can be called with every table.
    #[verifier::type_invariant]
    spec fn accepts_every_table(self) -> bool {
        forall|matches: &Matches| self.func.requires((matches,))
    }

    /// The closure that this action calls.
    pub closed spec fn func(self) -> F {
        self.func
    }

    /// Wraps a closure that can be called with every table.
    pub fn new(func: F) -> (callback: Self)
        requires
            forall|matches: &Matches| func.requires((matches,)),
        ensures
            callback.func() == func,
    {
        Callback { func }
    }
}

impl<F: Fn(&Matches)> Action for Callback<F> {
    /// What the closure promises of a call with the table.
    open spec fn performed(&self, matches: &Matches) -> bool {
        self.func().ensures((matches,), ())
    }

    fn invoke(&self, matches: &Matches) {
        proof {
            use_type_invariant(self);
        }
        (self.func)(matches);
    }
}

/// Represents a command in the command-line application.
pub struct Command<'a> {
    /// The name by which a token selects the command.
    pub name: &'a str,
    /// A brief description of the command.
    pub about: &'a str,
    /// The arguments that the command accepts, in declared order.
    pub args: Vec<Arg<'a>>,
    /// The subcommands, in the order in which their names were first
    /// declared.
    pub subcommands: Vec<Command<'a>>,
    /// What the command does once it is selected.
    pub execute: Option<Box<dyn Action + 'a>>,
}

/// The index of the first command at or after index `from` that is called
/// `name`.
pub open spec fn position_from(commands: Seq<Command<'_>>, name: Seq<char>, from: int) -> Option<
    int,
>
    decreases commands.len() - from,
{
    if from < 0 || from >= commands.len() {
        None
    } else if commands[from].name@ == name {
        Some(from)
    } else {
        position_from(commands, name, from + 1)
    }
}

/// The index of the first command that is called `name`.
pub open spec fn position(commands: Seq<Command<'_>>, name: Seq<char>) -> Option<int> {
    position_from(commands, name, 0)
}

/// No two of the commands have the same name.
pub open spec fn distinct_names(commands: Seq<Command<'_>>) -> bool {
    forall|i: int, j: int|
        #![trigger commands[i], commands[j]]
        0 <= i < j < commands.len() ==> commands[i].name@ != commands[j].name@
}

/// The invariant of a set of commands that are found by name: no two of them
/// have the same name, and the same holds below each of them.
pub open spec fn well_formed_commands(commands: Seq<Command<'_>>) -> bool
    decreases commands,
{
    &&& distinct_names(commands)
    &&& forall|i: int|
        0 <= i < commands.len() ==> well_formed_commands((#[trigger] commands[i]).subcommands@)
}

/// The commands after `command` was declared among them: it takes the place
/// of the one that has its name, and comes last if there is none.
pub open spec fn declared<'a>(commands: Seq<Command<'a>>, command: Command<'a>) -> Seq<
    Command<'a>,
> {
    match position(commands, command.name@) {
        Some(at) => commands.update(at, command),
        None => commands.push(command),
    }
}

/// What `position_from` finds is the first command of that name.
pub proof fn lemma_position_from(commands: Seq<Command<'_>>, name: Seq<char>, from: int)
    requires
        0 <= from,
    ensures
        match position_from(commands, name, from) {
            Some(at) => {
                &&& from <= at < commands.len()
                &&& commands[at].name@ == name
                &&& forall|k: int| from <= k < at ==> (#[trigger] commands[k]).name@ != name
            },
            None => forall|k: int|
                from <= k < commands.len() ==> (#[trigger] commands[k]).name@ != name,
        },
    decreases commands.len() - from,
{
    if from < commands.len() && commands[from].name@ != name {
        lemma_position_from(commands, name, from + 1);
    }
}

/// Finds the first of the commands that is called `name`.
pub fn find_command(commands: &Vec<Command<'_>>, name: &str) -> (found: Option<usize>)
    ensures
        match found {
            Some(at) => position(commands@, name@) == Some(at as int) && at < commands.len(),
            None => position(commands@, name@) is None,
        },
{
    let mut at: usize = 0;
    while at < commands.len()
        invariant
            at <= commands.len(),
            position(commands@, name@) == position_from(commands@, name@, at as int),
        decreases commands.len() - at,
    {
        if same_text(commands[at].name, name) {
            return Some(at);
        }
        at += 1;
    }
    None
}

/// Declares `command` among `commands`, in place of the one that has its
/// name if there is one.
pub fn declare<'a>(commands: &mut Vec<Command<'a>>, command: Command<'a>)
    ensures
        final(commands)@ == declared(old(commands)@, command),
        well_formed_commands(old(commands)@) && command.well_formed() ==> well_formed_commands(
            final(commands)@,
        ),
{
    proof {
        lemma_position_from(commands@, command.name@, 0);
    }
    match find_command(commands, command.name) {
        Some(at) => {
            commands.set(at, command);
        },
        None => {
            commands.push(command);
        },
    }
}

impl<'a> Command<'a> {
    /// The invariant of a command: its subcommands are found by name, so no
    /// two of them have the same name, at any depth.
    pub open spec fn well_formed(self) -> bool {
        well_formed_commands(self.subcommands@)
    }

    /// Creates a command called `name`, without description, arguments,
    /// subcommands or action.
    pub fn new(name: &'a str) -> (command: Self)
        ensures
            command.well_formed(),
            command.name@ == name@,
            command.about@ == Seq::<char>::empty(),
            command.args@ == Seq::<Arg<'a>>::empty(),
            command.subcommands@ == Seq::<Command<'a>>::empty(),
            command.execute is None,
    {
        let about = "";
        proof {
            reveal_strlit("");
        }
        Command { name, about, args: Vec::new(), subcommands: Vec::new(), execute: None }
    }

    /// Sets the description of the command.
    pub fn about(self, about: &'a str) -> (command: Self)
        ensures
            command == (Command { about, ..self }),
    {
        let mut command = self;
        command.about = about;
        command
    }

    /// Declares one more argument, after those declared before.
    pub fn arg(self, arg: Arg<'a>) -> (command: Self)
        ensures
            command.args@ == self.args@.push(arg),
            command.name == self.name,
            command.about == self.about,
            command.subcommands == self.subcommands,
            command.execute == self.execute,
    {
        let mut command = self;
        command.args.push(arg);
        command
    }

    /// Declares a subcommand. It replaces a subcommand of the same name.
    pub fn subcommand(self, subcommand: Command<'a>) -> (command: Self)
        ensures
            command.subcommands@ == declared(self.subcommands@, subcommand),
            self.well_formed() && subcommand.well_formed() ==> command.well_formed(),
            command.name == self.name,
            command.about == self.about,
            command.args == self.args,
            command.execute == self.execute,
    {
        let mut command = self;
        declare(&mut command.subcommands, subcommand);
        command
    }

    /// Sets the action of the command: a closure that can be called with
    /// every table.
    pub fn execute<F>(self, func: F) -> (command: Self) where F: Fn(&Matches) + 'a
        requires
            forall|matches: &Matches| func.requires((matches,)),
        ensures
            command.execute is Some,
            command.name == self.name,
            command.about == self.about,
            command.args == self.args,
            command.subcommands == self.subcommands,
    {
        let mut command = self;
        command.execute = Some(Box::new(Callback::new(func)));
        command
    }

    /// Executes the command if it has an associated function, and fails
    /// with the name of the command if it has none.
    pub fn run(&self, matches: &Matches) -> (done: Result<(), AppError>)
        ensures
            done is Ok <==> self.execute is Some,
            done is Ok ==> self.execute->0.performed(matches),
            done matches Err(e) ==> e@ == Failure::UnknownCommand(self.name@),
    {
        match &self.execute {
            Some(action) => {
                action.invoke(matches);
                Ok(())
            },
            None => Err(AppError::UnknownCommand(self.name.to_owned())),
        }
    }
}

/// Represents the parsed command-line arguments.
pub struct Matches {
    /// The resolved values by argument name.
    pub args: StringHashMap<String>,
}

impl View for Matches {
    type V = Map<Seq<char>, Seq<char>>;

    /// The table as a map from argument name to resolved value.
    open spec fn view(&self) -> Map<Seq<char>, Seq<char>> {
        self.args@.map_values(|value: String| value@)
    }
}

impl Matches {
    /// Creates an empty table.
    pub fn new() -> (matches: Self)
        ensures
            matches@ == Map::<Seq<char>, Seq<char>>::empty(),
    {
        let matches = Matches { args: StringHashMap::new() };
        matches
    }

    /// Binds `key` to `value`; a value bound to `key` before is replaced.
    pub fn insert(&mut self, key: &str, value: String)
        ensures
            final(self)@ == old(self)@.insert(key@, value@),
    {
        self.args.insert(key.to_owned(), value);
    }

    /// Looks `key` up; an absent key is no error.
    pub fn value_of(&self, key: &str) -> (value: Option<&String>)
        ensures
            value is Some <==> self@.contains_key(key@),
            value matches Some(v) ==> v@ == self@[key@],
    {
        self.args.get(key)
    }

    /// Tells whether `key` is bound.
    pub fn is_present(&self, key: &str) -> (present: bool)
        ensures
            present == self@.contains_key(key@),
    {
        self.args.contains_key(key)
    }

    /// Looks `key` up where its presence is mandatory.
    pub fn get(&self, key: &str) -> (value: Result<&String, AppError>)
        ensures
            value is Ok <==> self@.contains_key(key@),
            value matches Ok(v) ==> v@ == self@[key@],
            value matches Err(e) ==> e@ == Failure::MissingValue(key@),
    {
        match self.args.get(key) {
            Some(v) => Ok(v),
            None => Err(AppError::MissingValue(key.to_owned())),
        }
    }

    /// Gets the value of an argument as a string.
    pub fn value_of_str(&self, key: &str) -> (value: Result<String, AppError>)
        ensures
            value is Ok <==> self@.contains_key(key@),
            value matches Ok(v) ==> v@ == self@[key@],
            value matches Err(e) ==> e@ == Failure::MissingValue(key@),
    {
        match self.get(key) {
            Ok(v) => Ok(v.clone()),
            Err(e) => Err(e),
        }
    }

    /// Gets the value of an argument as an integer. A value that is present
    /// but is no 32-bit signed integer in base 10 is an error of its own.
    pub fn value_of_int(&self, key: &str) -> (value: Result<i32, AppError>)
        ensures
            match value {
                Ok(number) => self@.contains_key(key@) && decimal_i32(self@[key@]) == Some(
                    number,
                ),
                Err(e) => if self@.contains_key(key@) {
                    decimal_i32(self@[key@]) is None && e@ == Failure::InvalidValue(key@)
                } else {
                    e@ == Failure::MissingValue(key@)
                },
            },
    {
        match self.get(key) {
            Ok(text) => match parse_i32(text.as_str()) {
                Some(number) => Ok(number),
                None => Err(AppError::InvalidValue(key.to_owned())),
            },
            Err(e) => Err(e),
        }
    }

    /// Adds the bindings of `other` to this table; where both bind a key,
    /// the value of `other` wins.
    pub fn merge(&mut self, other: Matches)
        ensures
            final(self)@ == old(self)@.union_prefer_right(other@),
    {
        self.args.union_prefer_right(other.args);
    }

    /// Checks if an argument is present.
    pub fn contains(&self, key: &str) -> (present: bool)
        ensures
            present == self@.contains_key(key@),
    {
        self.args.contains_key(key)
    }
}

} // verus!
