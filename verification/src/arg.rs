//! Argument definitions: the leaves of a schema.

use vstd::prelude::*;

verus! {

/// What an argument definition means to the matcher: its texts as character
/// sequences, its two classifications and its fallback value.
pub struct ArgView {
    /// The name: the key under which a value is bound.
    pub name: Seq<char>,
    /// The alias that names the argument in short form.
    pub short: Option<Seq<char>>,
    /// The description shown in help texts.
    pub about: Seq<char>,
    /// A flag takes no value: it is bound to `"true"`.
    pub is_flag: bool,
    /// A positional argument is bound by position, never by name.
    pub is_positional: bool,
    /// The value that stands in where none is supplied.
    pub default: Option<Seq<char>>,
}

/// The character sequence of an optional string slice.
pub open spec fn optional_text(text: Option<&str>) -> Option<Seq<char>> {
    match text {
        Some(t) => Some(t@),
        None => None,
    }
}

/// Represents a command-line argument.
pub struct Arg<'a> {
    /// The name of the argument.
    pub name: &'a str,
    /// A short version of the argument name.
    pub short: Option<&'a str>,
    /// A brief description of the argument.
    pub about: &'a str,
    /// Indicates if the argument is a flag (i.e., does not take a value).
    pub is_flag: bool,
    /// Indicates if the argument is positional.
    pub is_positional: bool,
    /// The default value of the argument.
    pub default: Option<&'a str>,
}

impl<'a> View for Arg<'a> {
    type V = ArgView;

    /// The definition with its texts as character sequences.
    open spec fn view(&self) -> ArgView {
        ArgView {
            name: self.name@,
            short: optional_text(self.short),
            about: self.about@,
            is_flag: self.is_flag,
            is_positional: self.is_positional,
            default: optional_text(self.default),
        }
    }
}

impl<'a> Arg<'a> {
    /// Creates an argument called `name`: a valued option without alias,
    /// description or default.
    pub fn new(name: &'a str) -> (arg: Self)
        ensures
            arg@ == (ArgView {
                name: name@,
                short: None,
                about: Seq::empty(),
                is_flag: false,
                is_positional: false,
                default: None,
            }),
    {
        let about = "";
        proof {
            reveal_strlit("");
            assert(about@ =~= Seq::<char>::empty());
        }
        Arg { name, short: None, about, is_flag: false, is_positional: false, default: None }
    }

    /// Sets the description of the argument.
    pub fn about(self, about: &'a str) -> (arg: Self)
        ensures
            arg@ == (ArgView { about: about@, ..self@ }),
    {
        let mut arg = self;
        arg.about = about;
        arg
    }

    /// Sets the short alias of the argument.
    pub fn short(self, short: &'a str) -> (arg: Self)
        ensures
            arg@ == (ArgView { short: Some(short@), ..self@ }),
    {
        let mut arg = self;
        arg.short = Some(short);
        arg
    }

    /// Sets whether the argument is a flag.
    pub fn is_flag(self, is_flag: bool) -> (arg: Self)
        ensures
            arg@ == (ArgView { is_flag, ..self@ }),
    {
        let mut arg = self;
        arg.is_flag = is_flag;
        arg
    }

    /// Sets whether the argument is positional.
    pub fn is_positional(self, is_positional: bool) -> (arg: Self)
        ensures
            arg@ == (ArgView { is_positional, ..self@ }),
    {
        let mut arg = self;
        arg.is_positional = is_positional;
        arg
    }

    /// Sets the default value of the argument.
    pub fn default(self, default: &'a str) -> (arg: Self)
        ensures
            arg@ == (ArgView { default: Some(default@), ..self@ }),
    {
        let mut arg = self;
        arg.default = Some(default);
        arg
    }
}

/// The invariant of a schema: no two definitions have the same name, and no
/// two have the same short alias. Matching asks for it nowhere: among
/// definitions that share a name or an alias, the one declared first is
/// found.
pub open spec fn consistent(specs: Seq<ArgView>) -> bool {
    forall|i: int, j: int|
        #![trigger specs[i], specs[j]]
        0 <= i < j < specs.len() ==> {
            &&& specs[i].name != specs[j].name
            &&& specs[i].short is Some ==> specs[i].short != specs[j].short
        }
}

/// The meanings of a sequence of argument definitions, in declared order.
pub open spec fn arg_views(args: Seq<Arg<'_>>) -> Seq<ArgView> {
    Seq::new(args.len(), |i: int| args[i]@)
}

} // verus!
