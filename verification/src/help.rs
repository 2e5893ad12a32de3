//! Help texts: what an application and a command say about themselves.

use crate::app::App;
use crate::arg::{arg_views, Arg, ArgView};
use crate::command::Command;
use vstd::prelude::*;
use vstd::string::*;

verus! {

/// One line of a listing: an indentation, a name and a description.
pub open spec fn entry_line(indent: Seq<char>, name: Seq<char>, about: Seq<char>) -> Seq<char> {
    indent + name + ": "@ + about + "\n"@
}

/// The line of an argument. A positional argument is listed by its name, any
/// other as a long option.
pub open spec fn arg_line(indent: Seq<char>, arg: ArgView) -> Seq<char> {
    if arg.is_positional {
        entry_line(indent, arg.name, arg.about)
    } else {
        entry_line(indent + "--"@, arg.name, arg.about)
    }
}

/// The lines of the arguments, in declared order.
pub open spec fn arg_lines(indent: Seq<char>, args: Seq<ArgView>) -> Seq<char>
    decreases args.len(),
{
    if args.len() == 0 {
        Seq::empty()
    } else {
        arg_lines(indent, args.drop_last()) + arg_line(indent, args.last())
    }
}

/// The line of a command, and below it the lines of its arguments.
pub open spec fn command_entry(indent: Seq<char>, deeper: Seq<char>, command: Command<'_>) -> Seq<
    char,
> {
    entry_line(indent, command.name@, command.about@) + arg_lines(
        deeper,
        arg_views(command.args@),
    )
}

/// The entries of the commands, in declared order.
pub open spec fn command_entries(
    indent: Seq<char>,
    deeper: Seq<char>,
    commands: Seq<Command<'_>>,
) -> Seq<char>
    decreases commands.len(),
{
    if commands.len() == 0 {
        Seq::empty()
    } else {
        command_entries(indent, deeper, commands.drop_last()) + command_entry(
            indent,
            deeper,
            commands.last(),
        )
    }
}

/// The entry of a command of the application, and below it the entries of
/// its subcommands under a heading, if it has any.
pub open spec fn command_block(command: Command<'_>) -> Seq<char> {
    command_entry("    "@, "        "@, command) + if command.subcommands@.len() > 0 {
        "        Subcommands:\n"@ + command_entries(
            "            "@,
            "                "@,
            command.subcommands@,
        )
    } else {
        Seq::empty()
    }
}

/// The blocks of the commands, in declared order.
pub open spec fn command_blocks(commands: Seq<Command<'_>>) -> Seq<char>
    decreases commands.len(),
{
    if commands.len() == 0 {
        Seq::empty()
    } else {
        command_blocks(commands.drop_last()) + command_block(commands.last())
    }
}

/// The help text of an application: its name and version, its description,
/// its author, its arguments, and its commands with their arguments and
/// subcommands.
pub open spec fn app_help(app: App<'_>) -> Seq<char> {
    app.name@ + " "@ + app.version@ + "\n"@ + app.about@ + "\n"@ + "Author: "@ + app.author@
        + "\n"@ + "\nUsage:\n"@ + arg_lines("    "@, arg_views(app.args@)) + if app.commands@.len()
        > 0 {
        "\nCommands:\n"@ + command_blocks(app.commands@)
    } else {
        Seq::empty()
    }
}

/// The help text of a command: its description, its arguments, and its
/// subcommands with their arguments.
pub open spec fn command_help(command: Command<'_>) -> Seq<char> {
    command.about@ + "\n"@ + "\nUsage:\n"@ + arg_lines("    "@, arg_views(command.args@))
        + if command.subcommands@.len() > 0 {
        "\nSubcommands:\n"@ + command_entries("    "@, "        "@, command.subcommands@)
    } else {
        Seq::empty()
    }
}

/// Appends one line of a listing.
fn push_entry(out: &mut String, indent: &str, name: &str, about: &str)
    ensures
        final(out)@ == old(out)@ + entry_line(indent@, name@, about@),
{
    out.append(indent);
    out.append(name);
    out.append(": ");
    out.append(about);
    out.append("\n");
}

/// Appends the lines of the arguments.
fn push_arg_lines(out: &mut String, indent: &str, args: &Vec<Arg<'_>>)
    ensures
        final(out)@ == old(out)@ + arg_lines(indent@, arg_views(args@)),
{
    let ghost views = arg_views(args@);
    let mut i: usize = 0;
    while i < args.len()
        invariant
            i <= args.len(),
            views == arg_views(args@),
            out@ == old(out)@ + arg_lines(indent@, views.take(i as int)),
        decreases args.len() - i,
    {
        let arg = &args[i];
        assert(views.take(i as int + 1).drop_last() =~= views.take(i as int));
        if arg.is_positional {
            push_entry(out, indent, arg.name, arg.about);
        } else {
            out.append(indent);
            push_entry(out, "--", arg.name, arg.about);
        }
        i += 1;
    }
    assert(views.take(i as int) =~= views);
}

/// Appends the entries of the commands.
fn push_command_entries(out: &mut String, indent: &str, deeper: &str, commands: &Vec<Command<'_>>)
    ensures
        final(out)@ == old(out)@ + command_entries(indent@, deeper@, commands@),
{
    let mut i: usize = 0;
    while i < commands.len()
        invariant
            i <= commands.len(),
            out@ == old(out)@ + command_entries(indent@, deeper@, commands@.take(i as int)),
        decreases commands.len() - i,
    {
        let command = &commands[i];
        assert(commands@.take(i as int + 1).drop_last() =~= commands@.take(i as int));
        push_entry(out, indent, command.name, command.about);
        push_arg_lines(out, deeper, &command.args);
        i += 1;
    }
    assert(commands@.take(i as int) =~= commands@);
}

/// Appends the blocks of the commands of an application.
fn push_command_blocks(out: &mut String, commands: &Vec<Command<'_>>)
    ensures
        final(out)@ == old(out)@ + command_blocks(commands@),
{
    let mut i: usize = 0;
    while i < commands.len()
        invariant
            i <= commands.len(),
            out@ == old(out)@ + command_blocks(commands@.take(i as int)),
        decreases commands.len() - i,
    {
        let command = &commands[i];
        assert(commands@.take(i as int + 1).drop_last() =~= commands@.take(i as int));
        push_entry(out, "    ", command.name, command.about);
        push_arg_lines(out, "        ", &command.args);
        if command.subcommands.len() > 0 {
            out.append("        Subcommands:\n");
            push_command_entries(out, "            ", "                ", &command.subcommands);
        }
        i += 1;
    }
    assert(commands@.take(i as int) =~= commands@);
}

impl<'a> App<'a> {
    /// Renders the help text of the application.
    pub fn help_text(&self) -> (text: String)
        ensures
            text@ == app_help(*self),
    {
        let mut text = String::from_str(self.name);
        text.append(" ");
        text.append(self.version);
        text.append("\n");
        text.append(self.about);
        text.append("\n");
        text.append("Author: ");
        text.append(self.author);
        text.append("\n");
        text.append("\nUsage:\n");
        push_arg_lines(&mut text, "    ", &self.args);
        if self.commands.len() > 0 {
            text.append("\nCommands:\n");
            push_command_blocks(&mut text, &self.commands);
        }
        text
    }

    /// Renders the help text of a command.
    pub fn command_help_text(&self, command: &Command<'_>) -> (text: String)
        ensures
            text@ == command_help(*command),
    {
        let mut text = String::from_str(command.about);
        text.append("\n");
        text.append("\nUsage:\n");
        push_arg_lines(&mut text, "    ", &command.args);
        if command.subcommands.len() > 0 {
            text.append("\nSubcommands:\n");
            push_command_entries(&mut text, "    ", "        ", &command.subcommands);
        }
        text
    }
}

} // verus!
