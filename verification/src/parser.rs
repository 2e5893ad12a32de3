//! The matching engine: one left-to-right scan of a token sequence against
//! the argument definitions of a command.

use crate::app::{App, AppError, Failure};
use crate::arg::{arg_views, Arg, ArgView};
use crate::command::{find_command, position, Command, Matches};
use crate::text::same_text;
use vstd::prelude::*;
use vstd::slice::slice_subrange;
use vstd::string::*;

verus! {

/// A table of resolved values, from argument name to value.
pub type Table = Map<Seq<char>, Seq<char>>;

/// The character sequences of a sequence of tokens.
pub open spec fn token_texts(tokens: Seq<String>) -> Seq<Seq<char>> {
    Seq::new(tokens.len(), |i: int| tokens[i]@)
}

/// A token in long form: it begins with two hyphens.
pub open spec fn is_long(token: Seq<char>) -> bool {
    token.len() >= 2 && token[0] == '-' && token[1] == '-'
}

/// A token in short form: it begins with one hyphen and is not in long form.
pub open spec fn is_short(token: Seq<char>) -> bool {
    token.len() >= 1 && token[0] == '-' && !is_long(token)
}

/// A bare token: one with neither marker.
pub open spec fn is_bare(token: Seq<char>) -> bool {
    !is_long(token) && !is_short(token)
}

/// The number of marker characters that a token begins with.
pub open spec fn marker_len(token: Seq<char>) -> int {
    if is_long(token) {
        2
    } else if is_short(token) {
        1
    } else {
        0
    }
}

/// What is left of an option token without its marker.
pub open spec fn option_key(token: Seq<char>) -> Seq<char> {
    token.skip(marker_len(token))
}

/// The two ways in which a token can name a declared argument.
#[derive(Clone, Copy, Debug)]
pub enum Form {
    /// By name, after two hyphens.
    Long,
    /// By short alias, after one hyphen.
    Short,
}

/// Whether a definition is the one that `key` names in the given form: in
/// long form its name is `key` and it is not positional, in short form its
/// alias is `key`.
pub open spec fn answers(spec: ArgView, form: Form, key: Seq<char>) -> bool {
    match form {
        Form::Long => !spec.is_positional && spec.name == key,
        Form::Short => spec.short == Some(key),
    }
}

/// The first definition at or after index `from` that answers to `key`.
pub open spec fn lookup_from(
    specs: Seq<ArgView>,
    form: Form,
    key: Seq<char>,
    from: int,
) -> Option<ArgView>
    decreases specs.len() - from,
{
    if from < 0 || from >= specs.len() {
        None
    } else if answers(specs[from], form, key) {
        Some(specs[from])
    } else {
        lookup_from(specs, form, key, from + 1)
    }
}

/// The first definition, in declared order, that answers to `key`.
pub open spec fn lookup(specs: Seq<ArgView>, form: Form, key: Seq<char>) -> Option<ArgView> {
    lookup_from(specs, form, key, 0)
}

/// The positional definitions, in declared order: the order in which bare
/// tokens are bound to them.
pub open spec fn positionals(specs: Seq<ArgView>) -> Seq<ArgView> {
    specs.filter(|spec: ArgView| spec.is_positional)
}

/// The effect of one option token: the table after it, and the number of
/// tokens it used up (itself, and the value after it if it took one).
pub struct Step {
    /// The table with the binding of the option.
    pub table: Table,
    /// The number of tokens used up: one or two.
    pub used: int,
}

/// An option token that names the declared definition `spec`, at index `at`.
/// A flag is bound to `"true"`. A valued argument takes the next token,
/// whatever it looks like; at the end of the tokens it falls back to its
/// default, and fails without one.
pub open spec fn bind_declared(
    spec: ArgView,
    tokens: Seq<Seq<char>>,
    at: int,
    table: Table,
) -> Result<Step, Failure> {
    if spec.is_flag {
        Ok(Step { table: table.insert(spec.name, "true"@), used: 1 })
    } else if at + 1 < tokens.len() {
        Ok(Step { table: table.insert(spec.name, tokens[at + 1]), used: 2 })
    } else if spec.default is Some {
        Ok(Step { table: table.insert(spec.name, spec.default->0), used: 1 })
    } else {
        Err(Failure::MissingValue(spec.name))
    }
}

/// A long option that no definition declares, at index `at`. It takes the
/// next token as its value unless that token is itself in long form, and is
/// bound to `"true"` otherwise.
pub open spec fn bind_custom(
    key: Seq<char>,
    tokens: Seq<Seq<char>>,
    at: int,
    table: Table,
) -> Step {
    if at + 1 < tokens.len() && !is_long(tokens[at + 1]) {
        Step { table: table.insert(key, tokens[at + 1]), used: 2 }
    } else {
        Step { table: table.insert(key, "true"@), used: 1 }
    }
}

/// The effect of the option token at index `at`. An undeclared long option is
/// accepted as a custom one; an undeclared short alias fails.
pub open spec fn option_step(
    specs: Seq<ArgView>,
    tokens: Seq<Seq<char>>,
    at: int,
    table: Table,
) -> Result<Step, Failure>
    recommends
        0 <= at < tokens.len(),
        !is_bare(tokens[at]),
{
    let key = option_key(tokens[at]);
    if is_long(tokens[at]) {
        match lookup(specs, Form::Long, key) {
            Some(spec) => bind_declared(spec, tokens, at, table),
            None => Ok(bind_custom(key, tokens, at, table)),
        }
    } else {
        match lookup(specs, Form::Short, key) {
            Some(spec) => bind_declared(spec, tokens, at, table),
            None => Err(Failure::UnknownArgument(key)),
        }
    }
}

/// How a scan ended: the table as it stood when the scan stopped, and the
/// failure that stopped it, if one did.
pub struct Outcome {
    /// What was bound when the scan stopped.
    pub table: Table,
    /// The failure that stopped the scan before the end of the tokens.
    pub failure: Option<Failure>,
}

/// The scan of the tokens from index `at` on, with `cursor` positional
/// definitions already bound. A bare token is bound to the next positional
/// definition, and fails when none is left.
pub open spec fn scan(
    specs: Seq<ArgView>,
    tokens: Seq<Seq<char>>,
    at: int,
    cursor: int,
    table: Table,
) -> Outcome
    decreases tokens.len() - at,
{
    if at < 0 || at >= tokens.len() {
        Outcome { table, failure: None }
    } else if is_bare(tokens[at]) {
        let slots = positionals(specs);
        if 0 <= cursor < slots.len() {
            scan(specs, tokens, at + 1, cursor + 1, table.insert(slots[cursor].name, tokens[at]))
        } else {
            Outcome { table, failure: Some(Failure::UnexpectedArgument(tokens[at])) }
        }
    } else {
        match option_step(specs, tokens, at, table) {
            Ok(step) => scan(specs, tokens, at + step.used, cursor, step.table),
            Err(failure) => Outcome { table, failure: Some(failure) },
        }
    }
}

/// The table after the positional definitions `slots` were given their
/// defaults, in order: a definition whose name is not yet bound and that
/// declares a default is bound to it.
pub open spec fn backfill(slots: Seq<ArgView>, table: Table) -> Table
    decreases slots.len(),
{
    if slots.len() == 0 {
        table
    } else {
        let filled = backfill(slots.drop_last(), table);
        let slot = slots.last();
        if !filled.contains_key(slot.name) && slot.default is Some {
            filled.insert(slot.name, slot.default->0)
        } else {
            filled
        }
    }
}

/// The result of matching `tokens` against `specs`, starting from `table`:
/// the scan of all tokens, and after a scan without failure the defaults of
/// the positional definitions.
pub open spec fn resolve(specs: Seq<ArgView>, tokens: Seq<Seq<char>>, table: Table) -> Outcome {
    let scanned = scan(specs, tokens, 0, 0, table);
    if scanned.failure is None {
        Outcome { table: backfill(positionals(specs), scanned.table), failure: None }
    } else {
        scanned
    }
}

/// How the scan of leading options ended: the table as it stood when the
/// scan stopped, the failure that stopped it, if one did, and the index at
/// which it stopped.
pub struct Lead {
    /// What was bound when the scan stopped.
    pub table: Table,
    /// The failure that stopped the scan.
    pub failure: Option<Failure>,
    /// The index of the token at which the scan stopped: that of the bare
    /// token or of the failing one, or the number of tokens.
    pub stop: int,
}

/// The scan of the option tokens from index `at` on, up to the first bare
/// token that no option takes as its value, or to the end of the tokens.
pub open spec fn lead(
    specs: Seq<ArgView>,
    tokens: Seq<Seq<char>>,
    at: int,
    table: Table,
) -> Lead
    decreases tokens.len() - at,
{
    if at < 0 || at >= tokens.len() {
        Lead { table, failure: None, stop: tokens.len() as int }
    } else if is_bare(tokens[at]) {
        Lead { table, failure: None, stop: at }
    } else {
        match option_step(specs, tokens, at, table) {
            Ok(step) => lead(specs, tokens, at + step.used, step.table),
            Err(failure) => Lead { table, failure: Some(failure), stop: at },
        }
    }
}

/// The scan of leading options stops within the tokens, at or after the
/// index where it began.
pub proof fn lemma_lead_stop(
    specs: Seq<ArgView>,
    tokens: Seq<Seq<char>>,
    at: int,
    table: Table,
)
    ensures
        0 <= lead(specs, tokens, at, table).stop <= tokens.len(),
        lead(specs, tokens, at, table).stop < tokens.len() ==> 0 <= at,
        lead(specs, tokens, at, table).stop < tokens.len() ==> at <= lead(
            specs,
            tokens,
            at,
            table,
        ).stop,
    decreases tokens.len() - at,
{
    if 0 <= at < tokens.len() && !is_bare(tokens[at]) {
        match option_step(specs, tokens, at, table) {
            Ok(step) => {
                lemma_lead_stop(specs, tokens, at + step.used, step.table);
            },
            Err(_) => {},
        }
    }
}

/// What a command line selects: a command, and the table of values resolved
/// for it.
pub struct Choice<'a> {
    /// The command that the tokens select.
    pub command: Command<'a>,
    /// The values resolved for it, with those of the levels above.
    pub table: Table,
}

/// A command that only groups subcommands: it has some and has no action.
pub open spec fn is_group(command: Command<'_>) -> bool {
    command.execute is None && command.subcommands@.len() > 0
}

/// What the tokens from index `at` on select below `command`, where
/// `inherited` holds what the levels above resolved. What a level resolves
/// wins over what it inherits.
///
/// A group scans its leading options, and the bare token after them names
/// the subcommand to go on with; where it names none, or there is none, the
/// group itself is selected. Any other command matches all the tokens.
pub open spec fn descend<'a>(
    command: Command<'a>,
    tokens: Seq<Seq<char>>,
    at: int,
    inherited: Table,
) -> Result<Choice<'a>, Failure>
    decreases tokens.len() - at,
    via descend_decreases
{
    let specs = arg_views(command.args@);
    if is_group(command) {
        let led = lead(specs, tokens, at, Map::empty());
        let table = inherited.union_prefer_right(backfill(positionals(specs), led.table));
        if led.failure is Some {
            Err(led.failure->0)
        } else if led.stop < tokens.len() {
            match position(command.subcommands@, tokens[led.stop]) {
                Some(index) => descend(command.subcommands@[index], tokens, led.stop + 1, table),
                None => Ok(Choice { command, table }),
            }
        } else {
            Ok(Choice { command, table })
        }
    } else {
        let matched = resolve(specs, tokens.skip(at), Map::empty());
        match matched.failure {
            Some(failure) => Err(failure),
            None => Ok(Choice { command, table: inherited.union_prefer_right(matched.table) }),
        }
    }
}

/// A group goes on behind the index at which its scan stopped.
#[via_fn]
proof fn descend_decreases<'a>(
    command: Command<'a>,
    tokens: Seq<Seq<char>>,
    at: int,
    inherited: Table,
) {
    lemma_lead_stop(arg_views(command.args@), tokens, at, Map::empty());
}

/// What a whole command line selects. The options before the first bare
/// token are matched against the arguments of the application, and that
/// token names the command: so the first token does, unless it is an option.
///
/// A command line without tokens fails with `NoArguments`. One without a
/// bare token to name a command fails with `UnknownCommand` and its first
/// token, one that names no command of the application with `UnknownCommand`
/// and that name.
pub open spec fn dispatch<'a>(
    app: App<'a>,
    tokens: Seq<Seq<char>>,
) -> Result<Choice<'a>, Failure> {
    let specs = arg_views(app.args@);
    let led = lead(specs, tokens, 0, Map::empty());
    if tokens.len() == 0 {
        Err(Failure::NoArguments)
    } else if led.failure is Some {
        Err(led.failure->0)
    } else if led.stop >= tokens.len() {
        Err(Failure::UnknownCommand(tokens[0]))
    } else {
        match position(app.commands@, tokens[led.stop]) {
            Some(index) => descend(
                app.commands@[index],
                tokens,
                led.stop + 1,
                backfill(positionals(specs), led.table),
            ),
            None => Err(Failure::UnknownCommand(tokens[led.stop])),
        }
    }
}

/// The meanings of a sequence of borrowed argument definitions.
pub open spec fn slot_views(slots: Seq<&Arg<'_>>) -> Seq<ArgView> {
    Seq::new(slots.len(), |i: int| slots[i]@)
}

/// Counts the marker characters at the start of a token, and its characters.
fn measure(token: &str) -> (sizes: (usize, usize))
    ensures
        sizes.0 == marker_len(token@),
        sizes.1 == token@.len(),
{
    let len: usize = token.unicode_len();
    if len >= 1 && token.get_char(0) == '-' {
        if len >= 2 && token.get_char(1) == '-' {
            (2, len)
        } else {
            (1, len)
        }
    } else {
        (0, len)
    }
}

/// Finds the first definition that answers to `key` in the given form.
fn find<'s, 'a>(
    arg_definitions: &'s [Arg<'a>],
    form: Form,
    key: &str,
) -> (found: Option<&'s Arg<'a>>)
    ensures
        found is Some <==> lookup(arg_views(arg_definitions@), form, key@) is Some,
        found matches Some(arg) ==> lookup(arg_views(arg_definitions@), form, key@) == Some(arg@),
{
    let ghost specs = arg_views(arg_definitions@);
    let mut j: usize = 0;
    while j < arg_definitions.len()
        invariant
            j <= arg_definitions.len(),
            specs == arg_views(arg_definitions@),
            lookup(specs, form, key@) == lookup_from(specs, form, key@, j as int),
        decreases arg_definitions.len() - j,
    {
        let arg = &arg_definitions[j];
        let hit = match form {
            Form::Long => !arg.is_positional && same_text(arg.name, key),
            Form::Short => match arg.short {
                Some(short) => same_text(short, key),
                None => false,
            },
        };
        if hit {
            return Some(arg);
        }
        j += 1;
    }
    None
}

/// Binds the declared argument `arg`, named by the option token at index
/// `at`, and returns the number of tokens used up.
fn bind<'a>(
    arg: &Arg<'a>,
    input_args: &[String],
    at: usize,
    matches: &mut Matches,
) -> (used: Result<usize, AppError>)
    requires
        at < input_args.len(),
    ensures
        match bind_declared(arg@, token_texts(input_args@), at as int, old(matches)@) {
            Ok(step) => {
                &&& used == Ok::<usize, AppError>(step.used as usize)
                &&& final(matches)@ == step.table
            },
            Err(failure) => {
                &&& used matches Err(e) && e@ == failure
                &&& final(matches)@ == old(matches)@
            },
        },
{
    if arg.is_flag {
        matches.insert(arg.name, String::from_str("true"));
        Ok(1)
    } else if at + 1 < input_args.len() {
        matches.insert(arg.name, input_args[at + 1].clone());
        Ok(2)
    } else {
        match arg.default {
            Some(default) => {
                matches.insert(arg.name, String::from_str(default));
                Ok(1)
            },
            None => Err(AppError::MissingValue(String::from_str(arg.name))),
        }
    }
}

/// Handles the option token at index `at`, whose marker has `marker`
/// characters and which has `len` characters in all, and returns the number
/// of tokens used up.
fn take_option(
    arg_definitions: &[Arg<'_>],
    input_args: &[String],
    at: usize,
    marker: usize,
    len: usize,
    matches: &mut Matches,
) -> (used: Result<usize, AppError>)
    requires
        at < input_args.len(),
        marker == marker_len(input_args@[at as int]@),
        len == input_args@[at as int]@.len(),
        marker != 0,
    ensures
        match option_step(
            arg_views(arg_definitions@),
            token_texts(input_args@),
            at as int,
            old(matches)@,
        ) {
            Ok(step) => {
                &&& used == Ok::<usize, AppError>(step.used as usize)
                &&& final(matches)@ == step.table
                &&& 1 <= step.used
                &&& at + step.used <= input_args.len()
            },
            Err(failure) => {
                &&& used matches Err(e) && e@ == failure
                &&& final(matches)@ == old(matches)@
            },
        },
{
    let key = input_args[at].as_str().substring_char(marker, len);
    if marker == 2 {
        match find(arg_definitions, Form::Long, key) {
            Some(arg_def) => bind(arg_def, input_args, at, matches),
            None => {
                if at + 1 < input_args.len() && measure(input_args[at + 1].as_str()).0 != 2 {
                    matches.insert(key, input_args[at + 1].clone());
                    Ok(2)
                } else {
                    matches.insert(key, String::from_str("true"));
                    Ok(1)
                }
            },
        }
    } else {
        match find(arg_definitions, Form::Short, key) {
            Some(arg_def) => bind(arg_def, input_args, at, matches),
            None => Err(AppError::UnknownArgument(String::from_str(key))),
        }
    }
}

/// Collects the positional definitions, in declared order.
fn collect_positionals<'s, 'a>(arg_definitions: &'s [Arg<'a>]) -> (slots: Vec<&'s Arg<'a>>)
    ensures
        slot_views(slots@) == positionals(arg_views(arg_definitions@)),
{
    let ghost specs = arg_views(arg_definitions@);
    let mut slots: Vec<&Arg<'_>> = Vec::new();
    let mut k: usize = 0;
    while k < arg_definitions.len()
        invariant
            k <= arg_definitions.len(),
            specs == arg_views(arg_definitions@),
            slot_views(slots@) == positionals(specs.take(k as int)),
        decreases arg_definitions.len() - k,
    {
        let arg = &arg_definitions[k];
        proof {
            assert(specs.take(k as int + 1).drop_last() =~= specs.take(k as int));
            reveal_with_fuel(Seq::filter, 2);
        }
        if arg.is_positional {
            slots.push(arg);
        }
        k += 1;
    }
    assert(specs.take(k as int) =~= specs);
    slots
}

/// Gives each of the positional definitions `slots` that is still unbound
/// its default, in order.
fn fill_defaults(slots: &Vec<&Arg<'_>>, matches: &mut Matches)
    ensures
        final(matches)@ == backfill(slot_views(slots@), old(matches)@),
{
    let ghost views = slot_views(slots@);
    let mut p: usize = 0;
    while p < slots.len()
        invariant
            p <= slots.len(),
            views == slot_views(slots@),
            matches@ == backfill(views.take(p as int), old(matches)@),
        decreases slots.len() - p,
    {
        let arg_def = slots[p];
        assert(views.take(p as int + 1).drop_last() =~= views.take(p as int));
        if !matches.is_present(arg_def.name) {
            if let Some(default) = arg_def.default {
                matches.insert(arg_def.name, String::from_str(default));
            }
        }
        p += 1;
    }
    assert(views.take(p as int) =~= views);
}

/// Parses command line arguments for the specified command.
///
/// The tokens are scanned once from left to right against the definitions,
/// and after a scan without failure each positional definition that is still
/// unbound is given its default. The table is changed in place: after a
/// failure it holds what was bound before the failing token.
pub fn parse_args(
    arg_definitions: &[Arg<'_>],
    input_args: &[String],
    matches: &mut Matches,
) -> (done: Result<(), AppError>)
    ensures
        final(matches)@ == resolve(
            arg_views(arg_definitions@),
            token_texts(input_args@),
            old(matches)@,
        ).table,
        done is Ok <==> resolve(
            arg_views(arg_definitions@),
            token_texts(input_args@),
            old(matches)@,
        ).failure is None,
        done matches Err(e) ==> resolve(
            arg_views(arg_definitions@),
            token_texts(input_args@),
            old(matches)@,
        ).failure == Some(e@),
{
    let ghost specs = arg_views(arg_definitions@);
    let ghost tokens = token_texts(input_args@);
    let positional_args = collect_positionals(arg_definitions);
    let mut i: usize = 0;
    let mut positional_index: usize = 0;
    while i < input_args.len()
        invariant
            i <= input_args.len(),
            specs == arg_views(arg_definitions@),
            tokens == token_texts(input_args@),
            slot_views(positional_args@) == positionals(specs),
            positional_index <= positional_args.len(),
            scan(specs, tokens, 0, 0, old(matches)@) == scan(
                specs,
                tokens,
                i as int,
                positional_index as int,
                matches@,
            ),
        decreases input_args.len() - i,
    {
        let (marker, len) = measure(input_args[i].as_str());
        if marker == 0 {
            if positional_index < positional_args.len() {
                let arg_def = positional_args[positional_index];
                matches.insert(arg_def.name, input_args[i].clone());
                positional_index += 1;
                i += 1;
            } else {
                return Err(AppError::UnexpectedArgument(input_args[i].clone()));
            }
        } else {
            match take_option(arg_definitions, input_args, i, marker, len, matches) {
                Ok(used) => {
                    i += used;
                },
                Err(e) => {
                    return Err(e);
                },
            }
        }
    }
    fill_defaults(&positional_args, matches);
    Ok(())
}

/// Scans the option tokens from index `at` on against the definitions, up to
/// the first bare token or the end of the tokens, then gives the positional
/// definitions their defaults. Returns the index at which the scan stopped.
fn match_leading(
    arg_definitions: &[Arg<'_>],
    input_args: &[String],
    at: usize,
    matches: &mut Matches,
) -> (stop: Result<usize, AppError>)
    requires
        at <= input_args.len(),
    ensures
        ({
            let specs = arg_views(arg_definitions@);
            let led = lead(specs, token_texts(input_args@), at as int, old(matches)@);
            match led.failure {
                Some(failure) => stop matches Err(e) && e@ == failure,
                None => {
                    &&& stop == Ok::<usize, AppError>(led.stop as usize)
                    &&& at <= led.stop <= input_args.len()
                    &&& final(matches)@ == backfill(positionals(specs), led.table)
                },
            }
        }),
{
    let ghost specs = arg_views(arg_definitions@);
    let ghost tokens = token_texts(input_args@);
    let mut i: usize = at;
    let mut bare: bool = false;
    while i < input_args.len() && !bare
        invariant
            at <= i <= input_args.len(),
            specs == arg_views(arg_definitions@),
            tokens == token_texts(input_args@),
            bare ==> i < input_args.len() && is_bare(tokens[i as int]),
            lead(specs, tokens, at as int, old(matches)@) == lead(
                specs,
                tokens,
                i as int,
                matches@,
            ),
        decreases input_args.len() - i, if bare { 0int } else { 1int },
    {
        let (marker, len) = measure(input_args[i].as_str());
        if marker == 0 {
            bare = true;
        } else {
            match take_option(arg_definitions, input_args, i, marker, len, matches) {
                Ok(used) => {
                    i += used;
                },
                Err(e) => {
                    return Err(e);
                },
            }
        }
    }
    let slots = collect_positionals(arg_definitions);
    fill_defaults(&slots, matches);
    Ok(i)
}

/// Selects below `command` with the tokens from index `at` on.
fn select_below<'s, 'a>(
    command: &'s Command<'a>,
    input_args: &[String],
    at: usize,
    inherited: Matches,
) -> (chosen: Result<(&'s Command<'a>, Matches), AppError>)
    requires
        at <= input_args.len(),
    ensures
        match descend(*command, token_texts(input_args@), at as int, inherited@) {
            Ok(choice) => {
                &&& chosen matches Ok(pair)
                &&& *pair.0 == choice.command
                &&& pair.1@ == choice.table
            },
            Err(failure) => chosen matches Err(e) && e@ == failure,
        },
{
    let ghost tokens = token_texts(input_args@);
    let mut current = command;
    let mut table = inherited;
    let mut from = at;
    loop
        invariant
            from <= input_args.len(),
            tokens == token_texts(input_args@),
            descend(*command, tokens, at as int, inherited@) == descend(
                *current, tokens, from as int, table@,
            ),
        decreases input_args.len() - from,
    {
        let mut own = Matches::new();
        if current.execute.is_none() && current.subcommands.len() > 0 {
            let stop: usize = match match_leading(
                current.args.as_slice(),
                input_args,
                from,
                &mut own,
            ) {
                Ok(stop) => stop,
                Err(e) => {
                    return Err(e);
                },
            };
            table.merge(own);
            if stop < input_args.len() {
                if let Some(index) = find_command(&current.subcommands, input_args[stop].as_str()) {
                    current = &current.subcommands[index];
                    from = stop + 1;
                    continue;
                }
            }
            return Ok((current, table));
        } else {
            let rest = slice_subrange(input_args, from, input_args.len());
            assert(token_texts(rest@) =~= tokens.skip(from as int));
            match parse_args(current.args.as_slice(), rest, &mut own) {
                Ok(()) => {
                    table.merge(own);
                    return Ok((current, table));
                },
                Err(e) => {
                    return Err(e);
                },
            }
        }
    }
}

/// Selects the command that the tokens name, and resolves its table of
/// values; runs nothing.
pub fn select<'s, 'a>(
    app: &'s App<'a>,
    input_args: &[String],
) -> (chosen: Result<(&'s Command<'a>, Matches), AppError>)
    ensures
        match dispatch(*app, token_texts(input_args@)) {
            Ok(choice) => {
                &&& chosen matches Ok(pair)
                &&& *pair.0 == choice.command
                &&& pair.1@ == choice.table
            },
            Err(failure) => chosen matches Err(e) && e@ == failure,
        },
{
    if input_args.len() == 0 {
        return Err(AppError::NoArguments);
    }
    let mut global = Matches::new();
    let stop: usize = match match_leading(app.args.as_slice(), input_args, 0, &mut global) {
        Ok(stop) => stop,
        Err(e) => {
            return Err(e);
        },
    };
    if stop >= input_args.len() {
        return Err(AppError::UnknownCommand(input_args[0].clone()));
    }
    match find_command(&app.commands, input_args[stop].as_str()) {
        Some(index) => select_below(&app.commands[index], input_args, stop + 1, global),
        None => Err(AppError::UnknownCommand(input_args[stop].clone())),
    }
}

/// Parses command line arguments and returns a `Matches` instance containing
/// the parsed arguments. The action of the selected command, if it has one,
/// is run on them; a selected command without action is no failure.
pub fn parse(app: &App<'_>, input_args: &[String]) -> (parsed: Result<Matches, AppError>)
    ensures
        match dispatch(*app, token_texts(input_args@)) {
            Ok(choice) => {
                &&& parsed matches Ok(matches)
                &&& matches@ == choice.table
                &&& choice.command.execute matches Some(action) ==> action.performed(&matches)
            },
            Err(failure) => parsed matches Err(e) && e@ == failure,
        },
{
    match select(app, input_args) {
        Ok((command, matches)) => {
            if let Some(action) = &command.execute {
                action.invoke(&matches);
            }
            Ok(matches)
        },
        Err(e) => Err(e),
    }
}

} // verus!
