//! What holds of every match: theorems about the matching engine, stated
//! over the model that the contracts of [`crate::parser`] use.

use crate::app::{App, Failure};
use crate::arg::{arg_views, consistent, ArgView};
use crate::command::{position, Command};
use crate::parser::{
    answers, backfill, descend, dispatch, is_bare, is_group, is_long, is_short, lead, lookup,
    lookup_from, option_key, option_step, positionals, resolve, scan, Choice, Form, Outcome, Table,
};
use vstd::prelude::*;

verus! {

/// A lookup that finds a definition finds one of the schema that answers to
/// the key; a lookup finds none only where no definition answers to it.
pub proof fn lemma_lookup(specs: Seq<ArgView>, form: Form, key: Seq<char>, from: int)
    requires
        0 <= from,
    ensures
        match lookup_from(specs, form, key, from) {
            Some(spec) => {
                &&& answers(spec, form, key)
                &&& exists|i: int| from <= i < specs.len() && specs[i] == spec
            },
            None => forall|i: int| from <= i < specs.len() ==> !answers(specs[i], form, key),
        },
    decreases specs.len() - from,
{
    if from < specs.len() && !answers(specs[from], form, key) {
        lemma_lookup(specs, form, key, from + 1);
    }
}

/// In a consistent schema the declared order does not matter to a lookup:
/// the definition that answers to a key is the one that the lookup finds.
pub proof fn theorem_lookup_in_consistent_schema(
    specs: Seq<ArgView>,
    form: Form,
    key: Seq<char>,
    index: int,
)
    requires
        consistent(specs),
        0 <= index < specs.len(),
        answers(specs[index], form, key),
    ensures
        lookup(specs, form, key) == Some(specs[index]),
{
    lemma_lookup(specs, form, key, 0);
}

/// No definition, or none before index `before`, that is called `name`
/// declares a default.
pub open spec fn no_default_before(slots: Seq<ArgView>, name: Seq<char>, before: int) -> bool {
    forall|i: int|
        0 <= i < before && i < slots.len() && (#[trigger] slots[i]).name == name
            ==> slots[i].default is None
}

/// Giving defaults changes no binding that is already there.
pub proof fn lemma_backfill_keeps(slots: Seq<ArgView>, table: Table, key: Seq<char>)
    requires
        table.contains_key(key),
    ensures
        backfill(slots, table).contains_key(key),
        backfill(slots, table)[key] == table[key],
    decreases slots.len(),
{
    if slots.len() > 0 {
        lemma_backfill_keeps(slots.drop_last(), table, key);
    }
}

/// Giving defaults binds no name for which no definition declares one.
pub proof fn lemma_backfill_absent(slots: Seq<ArgView>, table: Table, name: Seq<char>)
    requires
        !table.contains_key(name),
        no_default_before(slots, name, slots.len() as int),
    ensures
        !backfill(slots, table).contains_key(name),
    decreases slots.len(),
{
    if slots.len() > 0 {
        lemma_backfill_absent(slots.drop_last(), table, name);
    }
}

/// An unbound name is bound to the default of the first definition of that
/// name that declares one.
pub proof fn lemma_backfill_default(slots: Seq<ArgView>, table: Table, slot: int)
    requires
        0 <= slot < slots.len(),
        slots[slot].default is Some,
        !table.contains_key(slots[slot].name),
        no_default_before(slots, slots[slot].name, slot),
    ensures
        backfill(slots, table).contains_key(slots[slot].name),
        backfill(slots, table)[slots[slot].name] == slots[slot].default->0,
    decreases slots.len(),
{
    if slot == slots.len() - 1 {
        lemma_backfill_absent(slots.drop_last(), table, slots[slot].name);
    } else {
        lemma_backfill_default(slots.drop_last(), table, slot);
    }
}

/// The tokens are pairs of a long option and its value, and every option
/// names a definition that takes a value.
pub open spec fn valued_pairs(specs: Seq<ArgView>, tokens: Seq<Seq<char>>) -> bool {
    &&& tokens.len() % 2 == 0
    &&& forall|i: int|
        0 <= i < tokens.len() && i % 2 == 0 ==> {
            &&& is_long(#[trigger] tokens[i])
            &&& lookup(specs, Form::Long, option_key(tokens[i])) is Some
            &&& !lookup(specs, Form::Long, option_key(tokens[i]))->0.is_flag
        }
}

/// No pair after the one at index `pair` supplies its key with another
/// value.
pub open spec fn settled(tokens: Seq<Seq<char>>, pair: int) -> bool {
    forall|i: int|
        pair < i < tokens.len() && i % 2 == 0 && option_key(#[trigger] tokens[i]) == option_key(
            tokens[pair],
        ) ==> tokens[i + 1] == tokens[pair + 1]
}

/// The scan of option-value pairs from the pair at index `at` on: it does
/// not fail, and it leaves the value of the pair at `pair` under its key,
/// if that pair is still ahead or its value is in the table already.
proof fn lemma_pairs_scan(
    specs: Seq<ArgView>,
    tokens: Seq<Seq<char>>,
    pair: int,
    at: int,
    cursor: int,
    table: Table,
)
    requires
        valued_pairs(specs, tokens),
        0 <= pair < tokens.len(),
        pair % 2 == 0,
        settled(tokens, pair),
        0 <= at <= tokens.len(),
        at % 2 == 0,
        at > pair ==> table.contains_key(option_key(tokens[pair])),
        at > pair ==> table[option_key(tokens[pair])] == tokens[pair + 1],
    ensures
        scan(specs, tokens, at, cursor, table).failure is None,
        scan(specs, tokens, at, cursor, table).table.contains_key(option_key(tokens[pair])),
        scan(specs, tokens, at, cursor, table).table[option_key(tokens[pair])] == tokens[pair + 1],
    decreases tokens.len() - at,
{
    if at < tokens.len() {
        let key = option_key(tokens[at]);
        lemma_lookup(specs, Form::Long, key, 0);
        lemma_pairs_scan(specs, tokens, pair, at + 2, cursor, table.insert(key, tokens[at + 1]));
    }
}

/// Valued long options read back: where the tokens are pairs of a declared
/// valued long option and a value, matching does not fail, and a key is
/// bound to the value that was supplied with it. A key that is supplied
/// again later is bound to the later value, so the pair that is read back
/// is one whose key does not come again with another value.
pub proof fn theorem_valued_options_read_back(
    specs: Seq<ArgView>,
    tokens: Seq<Seq<char>>,
    table: Table,
    pair: int,
)
    requires
        valued_pairs(specs, tokens),
        0 <= pair < tokens.len(),
        pair % 2 == 0,
        settled(tokens, pair),
    ensures
        resolve(specs, tokens, table).failure is None,
        resolve(specs, tokens, table).table.contains_key(option_key(tokens[pair])),
        resolve(specs, tokens, table).table[option_key(tokens[pair])] == tokens[pair + 1],
{
    lemma_pairs_scan(specs, tokens, pair, 0, 0, table);
    lemma_backfill_keeps(
        positionals(specs),
        scan(specs, tokens, 0, 0, table).table,
        option_key(tokens[pair]),
    );
}

/// The definition that an option token names, if it names one.
pub open spec fn named(specs: Seq<ArgView>, token: Seq<char>) -> Option<ArgView> {
    if is_long(token) {
        lookup(specs, Form::Long, option_key(token))
    } else {
        lookup(specs, Form::Short, option_key(token))
    }
}

/// An option token that is bound without a value: a long option that is
/// declared as a flag or not declared at all, or a short alias of a flag.
pub open spec fn takes_no_value(specs: Seq<ArgView>, token: Seq<char>) -> bool {
    match named(specs, token) {
        Some(spec) => !is_bare(token) && spec.is_flag,
        None => is_long(token),
    }
}

/// The name under which an option token is bound: that of the definition it
/// names, and its own key where it names none.
pub open spec fn bound_name(specs: Seq<ArgView>, token: Seq<char>) -> Seq<char> {
    match named(specs, token) {
        Some(spec) => spec.name,
        None => option_key(token),
    }
}

/// Flags are idempotent under repetition: an option that takes no value
/// resolves to `"true"`, and supplying it twice gives the same result as
/// supplying it once.
pub proof fn theorem_flag_repeated(specs: Seq<ArgView>, token: Seq<char>, table: Table)
    requires
        takes_no_value(specs, token),
    ensures
        resolve(specs, seq![token], table).failure is None,
        resolve(specs, seq![token], table).table.contains_key(bound_name(specs, token)),
        resolve(specs, seq![token], table).table[bound_name(specs, token)] == "true"@,
        resolve(specs, seq![token, token], table) == resolve(specs, seq![token], table),
{
    let once = seq![token];
    let twice = seq![token, token];
    let name = bound_name(specs, token);
    let bound = table.insert(name, "true"@);
    let end = Outcome { table: bound, failure: None };
    assert(bound.insert(name, "true"@) =~= bound);
    assert(scan(specs, once, 1, 0, bound) == end);
    assert(scan(specs, twice, 2, 0, bound) == end);
    assert(scan(specs, twice, 1, 0, bound) == end);
    lemma_backfill_keeps(positionals(specs), bound, name);
}

/// Default backfill: after a scan without failure that left the name of a
/// positional definition unbound, the name is bound to the default of that
/// definition, if it declares one and no positional definition of the same
/// name before it does; and the name is absent, if no positional definition
/// of that name declares a default.
pub proof fn theorem_default_backfill(
    specs: Seq<ArgView>,
    tokens: Seq<Seq<char>>,
    table: Table,
    slot: int,
)
    requires
        0 <= slot < positionals(specs).len(),
        scan(specs, tokens, 0, 0, table).failure is None,
        !scan(specs, tokens, 0, 0, table).table.contains_key(positionals(specs)[slot].name),
    ensures
        resolve(specs, tokens, table).failure is None,
        ({
            let slots = positionals(specs);
            let name = slots[slot].name;
            let resolved = resolve(specs, tokens, table).table;
            &&& slots[slot].default is Some && no_default_before(slots, name, slot) ==> {
                &&& resolved.contains_key(name)
                &&& resolved[name] == slots[slot].default->0
            }
            &&& no_default_before(slots, name, slots.len() as int) ==> !resolved.contains_key(name)
        }),
{
    let slots = positionals(specs);
    let scanned = scan(specs, tokens, 0, 0, table).table;
    if slots[slot].default is Some && no_default_before(slots, slots[slot].name, slot) {
        lemma_backfill_default(slots, scanned, slot);
    }
    if no_default_before(slots, slots[slot].name, slots.len() as int) {
        lemma_backfill_absent(slots, scanned, slots[slot].name);
    }
}

/// Short-alias resolution is keyed by canonical name: a short option that
/// names a valued definition, followed by a value, binds the name of that
/// definition to the value. The alias itself is bound only where it is that
/// name, or the name of a positional definition with a default.
pub proof fn theorem_short_alias_binds_name(
    specs: Seq<ArgView>,
    token: Seq<char>,
    value: Seq<char>,
)
    requires
        is_short(token),
        lookup(specs, Form::Short, option_key(token)) is Some,
        !lookup(specs, Form::Short, option_key(token))->0.is_flag,
    ensures
        ({
            let alias = option_key(token);
            let name = lookup(specs, Form::Short, alias)->0.name;
            let resolved = resolve(specs, seq![token, value], Map::empty());
            &&& resolved.failure is None
            &&& resolved.table == backfill(
                positionals(specs),
                Map::<Seq<char>, Seq<char>>::empty().insert(name, value),
            )
            &&& resolved.table.contains_key(name)
            &&& resolved.table[name] == value
            &&& alias != name && no_default_before(
                positionals(specs),
                alias,
                positionals(specs).len() as int,
            ) ==> !resolved.table.contains_key(alias)
        }),
{
    let tokens = seq![token, value];
    let alias = option_key(token);
    let name = lookup(specs, Form::Short, alias)->0.name;
    let slots = positionals(specs);
    let bound = Map::<Seq<char>, Seq<char>>::empty().insert(name, value);
    let end = Outcome { table: bound, failure: None };
    assert(scan(specs, tokens, 2, 0, bound) == end);
    lemma_backfill_keeps(slots, bound, name);
    if alias != name && no_default_before(slots, alias, slots.len() as int) {
        lemma_backfill_absent(slots, bound, alias);
    }
}

/// Unknown short alias always fails: where the first token is a short option
/// whose alias no definition declares, matching fails with that alias and
/// binds nothing, whatever tokens follow.
pub proof fn theorem_unknown_alias_fails(specs: Seq<ArgView>, tokens: Seq<Seq<char>>, table: Table)
    requires
        tokens.len() > 0,
        is_short(tokens[0]),
        forall|i: int| 0 <= i < specs.len() ==> specs[i].short != Some(option_key(tokens[0])),
    ensures
        resolve(specs, tokens, table) == (Outcome {
            table,
            failure: Some(Failure::UnknownArgument(option_key(tokens[0]))),
        }),
{
    lemma_lookup(specs, Form::Short, option_key(tokens[0]), 0);
}

/// The scan of bare tokens, more of them than there are positional
/// definitions, from a state in which as many definitions are bound as
/// tokens were scanned.
proof fn lemma_bare_scan(specs: Seq<ArgView>, tokens: Seq<Seq<char>>, at: int, table: Table)
    requires
        forall|i: int| 0 <= i < tokens.len() ==> is_bare(#[trigger] tokens[i]),
        0 <= at <= positionals(specs).len() < tokens.len(),
    ensures
        scan(specs, tokens, at, at, table).failure == Some(
            Failure::UnexpectedArgument(tokens[positionals(specs).len() as int]),
        ),
    decreases positionals(specs).len() - at,
{
    if at < positionals(specs).len() {
        let bound = table.insert(positionals(specs)[at].name, tokens[at]);
        lemma_bare_scan(specs, tokens, at + 1, bound);
    }
}

/// Positional overflow: where all tokens are bare and there are more of them
/// than positional definitions, matching fails with the first token that
/// finds no definition left.
pub proof fn theorem_positional_overflow(specs: Seq<ArgView>, tokens: Seq<Seq<char>>, table: Table)
    requires
        forall|i: int| 0 <= i < tokens.len() ==> is_bare(#[trigger] tokens[i]),
        positionals(specs).len() < tokens.len(),
    ensures
        resolve(specs, tokens, table).failure == Some(
            Failure::UnexpectedArgument(tokens[positionals(specs).len() as int]),
        ),
{
    lemma_bare_scan(specs, tokens, 0, table);
}

/// What it takes for matching to end in a given failure. An unknown
/// argument is a short option whose alias no definition declares; an
/// unexpected argument is a bare token; a missing value is that of a valued
/// definition without default that the last token names. Matching ends in no
/// other failure.
pub open spec fn explains(specs: Seq<ArgView>, tokens: Seq<Seq<char>>, failure: Failure) -> bool {
    match failure {
        Failure::UnknownArgument(key) => exists|i: int|
            {
                &&& 0 <= i < tokens.len()
                &&& is_short(#[trigger] tokens[i])
                &&& option_key(tokens[i]) == key
                &&& named(specs, tokens[i]) is None
            },
        Failure::UnexpectedArgument(token) => exists|i: int|
            0 <= i < tokens.len() && is_bare(#[trigger] tokens[i]) && tokens[i] == token,
        Failure::MissingValue(key) => {
            &&& tokens.len() > 0
            &&& !is_bare(tokens.last())
            &&& named(specs, tokens.last()) is Some
            &&& !named(specs, tokens.last())->0.is_flag
            &&& named(specs, tokens.last())->0.default is None
            &&& named(specs, tokens.last())->0.name == key
        },
        _ => false,
    }
}

/// A scan that fails, fails for a token at or after the index where it
/// began.
proof fn lemma_scan_failure(
    specs: Seq<ArgView>,
    tokens: Seq<Seq<char>>,
    at: int,
    cursor: int,
    table: Table,
)
    requires
        0 <= at,
    ensures
        match scan(specs, tokens, at, cursor, table).failure {
            Some(failure) => explains(specs, tokens, failure),
            None => true,
        },
    decreases tokens.len() - at,
{
    if at < tokens.len() {
        if is_bare(tokens[at]) {
            let slots = positionals(specs);
            if 0 <= cursor < slots.len() {
                let bound = table.insert(slots[cursor].name, tokens[at]);
                lemma_scan_failure(specs, tokens, at + 1, cursor + 1, bound);
            }
        } else {
            match option_step(specs, tokens, at, table) {
                Ok(step) => {
                    lemma_scan_failure(specs, tokens, at + step.used, cursor, step.table);
                },
                Err(_) => {},
            }
        }
    }
}

/// The failures of matching: a long option never fails as unknown, and
/// every failure has its cause among the tokens.
pub proof fn theorem_failure_is_explained(
    specs: Seq<ArgView>,
    tokens: Seq<Seq<char>>,
    table: Table,
)
    ensures
        match resolve(specs, tokens, table).failure {
            Some(failure) => explains(specs, tokens, failure),
            None => true,
        },
{
    lemma_scan_failure(specs, tokens, 0, 0, table);
}

/// Merge precedence: in the merge of an outer table and the table of a
/// command, a key that the command binds has the value of the command, and
/// any other key has what the outer table holds for it.
pub proof fn theorem_merge_precedence(outer: Table, inner: Table, key: Seq<char>)
    ensures
        outer.union_prefer_right(inner).contains_key(key) <==> outer.contains_key(key)
            || inner.contains_key(key),
        inner.contains_key(key) ==> outer.union_prefer_right(inner)[key] == inner[key],
        !inner.contains_key(key) && outer.contains_key(key) ==> outer.union_prefer_right(
            inner,
        )[key] == outer[key],
{
}

/// The value of a command wins: where a command that is no group matches
/// the tokens after its name to the table `own`, the table selected is the
/// merge of what was inherited and `own`, and every key that `own` binds has
/// the value of `own`, whatever was inherited for it.
pub proof fn theorem_own_value_wins(
    command: Command<'_>,
    tokens: Seq<Seq<char>>,
    at: int,
    inherited: Table,
    own: Table,
)
    requires
        !is_group(command),
        resolve(arg_views(command.args@), tokens.skip(at), Map::empty()) == (Outcome {
            table: own,
            failure: None,
        }),
    ensures
        descend(command, tokens, at, inherited) == Ok::<Choice<'_>, Failure>(
            Choice { command, table: inherited.union_prefer_right(own) },
        ),
        forall|key: Seq<char>| #[trigger]
            own.contains_key(key) ==> inherited.union_prefer_right(own)[key] == own[key],
{
}

/// Global and command scope: where the options before the command name are
/// matched against the arguments of the application and resolve to the
/// table `global`, and the command, which is no group, matches the tokens
/// after its name to the table `own`, the command line selects the command
/// with the merge of `global` and `own`, in which `own` wins.
pub proof fn theorem_command_scope_wins(
    app: App<'_>,
    tokens: Seq<Seq<char>>,
    index: int,
    global: Table,
    own: Table,
)
    requires
        tokens.len() > 0,
        lead(arg_views(app.args@), tokens, 0, Map::empty()).failure is None,
        lead(arg_views(app.args@), tokens, 0, Map::empty()).stop < tokens.len(),
        global == backfill(
            positionals(arg_views(app.args@)),
            lead(arg_views(app.args@), tokens, 0, Map::empty()).table,
        ),
        position(
            app.commands@,
            tokens[lead(arg_views(app.args@), tokens, 0, Map::empty()).stop],
        ) == Some(index),
        !is_group(app.commands@[index]),
        resolve(
            arg_views(app.commands@[index].args@),
            tokens.skip(lead(arg_views(app.args@), tokens, 0, Map::empty()).stop + 1),
            Map::empty(),
        ) == (Outcome { table: own, failure: None }),
    ensures
        dispatch(app, tokens) == Ok::<Choice<'_>, Failure>(
            Choice { command: app.commands@[index], table: global.union_prefer_right(own) },
        ),
        forall|key: Seq<char>| #[trigger]
            own.contains_key(key) ==> global.union_prefer_right(own)[key] == own[key],
{
}

/// The first token selects the command: where it is bare, the command line
/// selects below the command of that name, with the defaults of the
/// application, and fails where no command has that name.
pub proof fn theorem_first_token_selects(app: App<'_>, tokens: Seq<Seq<char>>)
    requires
        tokens.len() > 0,
        is_bare(tokens[0]),
    ensures
        dispatch(app, tokens) == match position(app.commands@, tokens[0]) {
            Some(index) => descend(
                app.commands@[index],
                tokens,
                1,
                backfill(positionals(arg_views(app.args@)), Map::empty()),
            ),
            None => Err(Failure::UnknownCommand(tokens[0])),
        },
{
}

/// Giving defaults to a table with one more binding differs from giving
/// them without it in that binding only.
pub proof fn lemma_backfill_elsewhere(
    slots: Seq<ArgView>,
    table: Table,
    name: Seq<char>,
    value: Seq<char>,
    key: Seq<char>,
)
    requires
        key != name,
    ensures
        backfill(slots, table.insert(name, value)).contains_key(key) <==> backfill(
            slots,
            table,
        ).contains_key(key),
        backfill(slots, table.insert(name, value))[key] == backfill(slots, table)[key],
    decreases slots.len(),
{
    if slots.len() > 0 {
        lemma_backfill_elsewhere(slots.drop_last(), table, name, value, key);
    }
}

/// A flag before or after the command name has the same effect: where the
/// application declares a flag, and the command, which is no group, declares
/// its name neither as a valued option nor as a positional argument with a
/// default, the command line with the flag before the name of the command
/// selects the same as the one with the flag after it, and the flag
/// resolves to `"true"`.
pub proof fn theorem_flag_before_or_after(
    app: App<'_>,
    flag: Seq<char>,
    name: Seq<char>,
    index: int,
)
    requires
        is_long(flag),
        lookup(arg_views(app.args@), Form::Long, option_key(flag)) is Some,
        lookup(arg_views(app.args@), Form::Long, option_key(flag))->0.is_flag,
        is_bare(name),
        position(app.commands@, name) == Some(index),
        !is_group(app.commands@[index]),
        takes_no_value(arg_views(app.commands@[index].args@), flag),
        no_default_before(
            positionals(arg_views(app.commands@[index].args@)),
            option_key(flag),
            positionals(arg_views(app.commands@[index].args@)).len() as int,
        ),
    ensures
        dispatch(app, seq![flag, name]) == dispatch(app, seq![name, flag]),
        dispatch(app, seq![flag, name]) is Ok,
        dispatch(app, seq![flag, name])->Ok_0.command == app.commands@[index],
        dispatch(app, seq![flag, name])->Ok_0.table.contains_key(option_key(flag)),
        dispatch(app, seq![flag, name])->Ok_0.table[option_key(flag)] == "true"@,
{
    let outer = arg_views(app.args@);
    let inner = arg_views(app.commands@[index].args@);
    let key = option_key(flag);
    let empty = Map::<Seq<char>, Seq<char>>::empty();
    let set = empty.insert(key, "true"@);
    lemma_lookup(outer, Form::Long, key, 0);
    lemma_lookup(inner, Form::Long, key, 0);

    // With the flag before the name, the application binds it.
    assert(lead(outer, seq![flag, name], 1, set).stop == 1);
    let table_before = backfill(positionals(outer), set).union_prefer_right(
        backfill(positionals(inner), empty),
    );

    // With the flag after the name, the command binds it.
    assert(seq![name, flag].skip(1) =~= seq![flag]);
    assert(scan(inner, seq![flag], 1, 0, set).table == set);
    let table_after = backfill(positionals(outer), empty).union_prefer_right(
        backfill(positionals(inner), set),
    );

    // Both tables bind the flag to the same value, and agree elsewhere.
    lemma_backfill_keeps(positionals(outer), set, key);
    lemma_backfill_keeps(positionals(inner), set, key);
    lemma_backfill_absent(positionals(inner), empty, key);
    assert forall|other: Seq<char>| #[trigger]
        table_before.dom().contains(other) == table_after.dom().contains(other) by {
        if other != key {
            lemma_backfill_elsewhere(positionals(outer), empty, key, "true"@, other);
            lemma_backfill_elsewhere(positionals(inner), empty, key, "true"@, other);
        }
    }
    assert forall|other: Seq<char>| #[trigger]
        table_before.dom().contains(other) implies table_before[other] == table_after[other] by {
        if other != key {
            lemma_backfill_elsewhere(positionals(outer), empty, key, "true"@, other);
            lemma_backfill_elsewhere(positionals(inner), empty, key, "true"@, other);
        }
    }
    assert(table_before =~= table_after);
}

} // verus!
