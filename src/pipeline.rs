//! Item resolution: which categories take part, and how each entry becomes items.

use vstd::prelude::*;
use crate::config::{CategoryView, Config, ConfigView, ParseError};
use crate::item::{item_views, Item, ItemView};
use crate::modes::{DisplayMode, SourceMode};
use crate::processor::{command_views, dynamic_views, ItemProcessor};
use crate::resolver::{
    resolve_display_mode, resolve_source_mode, resolved_display, resolved_source,
};
use crate::text::{same_text, text_opt};

verus! {

/// Why a shell command gave no output.
#[derive(Debug, Clone, PartialEq, Eq)]
pub enum ExecutionError {
    /// The shell could not be started.
    Unavailable,
    /// The command exited with a failure status; holds what it wrote to stderr.
    CommandFailed(String),
    /// The command's output is not valid UTF-8.
    InvalidOutput,
}

/// Runs shell commands for the pipeline.
pub trait ExecutorTrait {
    /// Runs `command` through `sh -c` and returns its standard output.
    fn execute(&self, command: &str) -> Result<String, ExecutionError>;

    /// As `execute`, but output that is not valid UTF-8 is decoded lossily
    /// instead of failing.
    fn execute_lossy(&self, command: &str) -> Result<String, ExecutionError>;
}

/// Why a configuration could not be loaded.
#[derive(Debug, Clone, PartialEq, Eq)]
pub enum ConfigError {
    IoError(String),
    ParseError(ParseError),
    NotFound,
}

/// The result of a command that ran: a failure status gives its stderr text
/// as `CommandFailed`; a success gives its output, or `InvalidOutput` when
/// the output could not be decoded (`stdout` is `None`).
pub fn command_result(success: bool, stdout: Option<String>, stderr: String) -> (r: Result<
    String,
    ExecutionError,
>)
    ensures
        !success ==> r == Err::<String, ExecutionError>(ExecutionError::CommandFailed(stderr)),
        success && stdout is Some ==> r == Ok::<String, ExecutionError>(stdout->0),
        success && stdout is None ==> r == Err::<String, ExecutionError>(
            ExecutionError::InvalidOutput,
        ),
{
    if !success {
        return Err(ExecutionError::CommandFailed(stderr));
    }
    match stdout {
        Some(text) => Ok(text),
        None => Err(ExecutionError::InvalidOutput),
    }
}

/// Loads configurations for the pipeline.
pub trait ConfigLoaderTrait {
    fn load(&self, path: &str) -> Result<Config, ConfigError>;
}

/// The outcome of a command as plain values: its output, or `None` when it failed.
pub open spec fn outcome_view(o: Option<String>) -> Option<Seq<char>> {
    text_opt(o)
}

/// The outcomes of each category's entries, as plain values.
pub open spec fn outcomes_view(o: Seq<Vec<Option<String>>>) -> Seq<Seq<Option<Seq<char>>>> {
    o.map_values(|v: Vec<Option<String>>| v@.map_values(|x: Option<String>| outcome_view(x)))
}

/// Whether a category takes part: with a filter, exactly the category of that
/// name; without one, every category when a display argument is given, and
/// otherwise those whose effective display mode is the global one.
pub open spec fn category_included(
    config: ConfigView,
    name: Seq<char>,
    category: CategoryView,
    filter: Option<Seq<char>>,
    arg: Option<Seq<char>>,
) -> bool {
    match filter {
        Some(f) => name == f,
        None => arg is Some || resolved_display(arg, category.display, config.display)
            == config.display,
    }
}

/// The items of one entry, given its command's outcome where it has a command.
pub open spec fn entry_views(
    key: Seq<char>,
    value: Seq<char>,
    category: Seq<char>,
    display: DisplayMode,
    source: SourceMode,
    outcome: Option<Seq<char>>,
) -> Seq<ItemView> {
    match source {
        SourceMode::Config => seq![ItemView { title: key, value, category, display, source }],
        SourceMode::Command => match outcome {
            Some(out) => command_views(key, out, category, display, source),
            None => Seq::empty(),
        },
        SourceMode::Dynamic => match outcome {
            Some(out) => dynamic_views(out, category),
            None => Seq::empty(),
        },
    }
}

/// The items of a category's entries, in order; `outcomes[i]` is the outcome
/// of the `i`-th entry's command.
pub open spec fn entries_views(
    category: Seq<char>,
    entries: Seq<(Seq<char>, Seq<char>)>,
    display: DisplayMode,
    source: SourceMode,
    outcomes: Seq<Option<Seq<char>>>,
) -> Seq<ItemView>
    decreases entries.len(),
{
    if entries.len() == 0 {
        Seq::empty()
    } else {
        entries_views(category, entries.drop_last(), display, source, outcomes) + entry_views(
            entries.last().0,
            entries.last().1,
            category,
            display,
            source,
            outcomes[entries.len() - 1],
        )
    }
}

/// The items of the categories that take part, in category order.
pub open spec fn categories_items(
    config: ConfigView,
    categories: Seq<(Seq<char>, CategoryView)>,
    filter: Option<Seq<char>>,
    arg: Option<Seq<char>>,
    outcomes: Seq<Seq<Option<Seq<char>>>>,
) -> Seq<ItemView>
    decreases categories.len(),
{
    if categories.len() == 0 {
        Seq::empty()
    } else {
        let prev = categories_items(config, categories.drop_last(), filter, arg, outcomes);
        let (name, category) = categories.last();
        if category_included(config, name, category, filter, arg) {
            prev + entries_views(
                name,
                category.entries,
                resolved_display(arg, category.display, config.display),
                resolved_source(category.source, config.source),
                outcomes[categories.len() - 1],
            )
        } else {
            prev
        }
    }
}

/// The items of a configuration, before picture expansion.
pub open spec fn resolved_items(
    config: ConfigView,
    filter: Option<Seq<char>>,
    arg: Option<Seq<char>>,
    outcomes: Seq<Seq<Option<Seq<char>>>>,
) -> Seq<ItemView> {
    categories_items(config, config.categories, filter, arg, outcomes)
}

/// Whether `outcomes` has one list per category, one outcome per entry.
pub open spec fn outcomes_fit(config: ConfigView, outcomes: Seq<Seq<Option<Seq<char>>>>) -> bool {
    &&& outcomes.len() == config.categories.len()
    &&& forall|c: int|
        0 <= c < outcomes.len() ==> (#[trigger] outcomes[c]).len()
            == config.categories[c].1.entries.len()
}

/// Whether a category takes part in resolution.
pub fn is_category_included(
    config: &Config,
    name: &String,
    category: &crate::config::Category,
    filter: &Option<String>,
    display_arg: &Option<String>,
) -> (r: bool)
    ensures
        r == category_included(config@, name@, category@, text_opt(*filter), text_opt(*display_arg)),
{
    match filter {
        Some(f) => same_text(name.as_str(), f.as_str()),
        None => {
            if display_arg.is_some() {
                true
            } else {
                let d = resolve_display_mode(display_arg, &category.display, &config.display);
                d == config.display
            }
        },
    }
}

/// The items of one entry, given its command's outcome where it has one.
pub fn entry_items(
    key: &str,
    value: &str,
    category: &str,
    display: DisplayMode,
    source: SourceMode,
    outcome: &Option<String>,
) -> (r: Vec<Item>)
    ensures
        item_views(r@) == entry_views(key@, value@, category@, display, source, text_opt(*outcome)),
{
    match source {
        SourceMode::Config => {
            let mut out: Vec<Item> = Vec::new();
            out.push(ItemProcessor::from_config_entry(key, value, category, display, source));
            assert(item_views(out@) =~= entry_views(
                key@,
                value@,
                category@,
                display,
                source,
                text_opt(*outcome),
            ));
            out
        },
        SourceMode::Command => match outcome {
            Some(text) => ItemProcessor::command_items(
                key,
                text.as_str(),
                category,
                display,
                source,
            ),
            None => {
                let out: Vec<Item> = Vec::new();
                assert(item_views(out@) =~= Seq::empty());
                out
            },
        },
        SourceMode::Dynamic => match outcome {
            Some(text) => ItemProcessor::dynamic_items(text.as_str(), category),
            None => {
                let out: Vec<Item> = Vec::new();
                assert(item_views(out@) =~= Seq::empty());
                out
            },
        },
    }
}


/// Resolves the items of a configuration, before picture expansion, given the
/// outcome of every entry's command: `outcomes[c][e]` belongs to entry `e` of
/// category `c` (and is ignored for entries that run no command).
pub fn resolve_items_from(
    config: &Config,
    category_filter: &Option<String>,
    display_arg: &Option<String>,
    outcomes: &Vec<Vec<Option<String>>>,
) -> (r: Vec<Item>)
    requires
        outcomes_fit(config@, outcomes_view(outcomes@)),
    ensures
        item_views(r@) == resolved_items(
            config@,
            text_opt(*category_filter),
            text_opt(*display_arg),
            outcomes_view(outcomes@),
        ),
{
    let ghost f = text_opt(*category_filter);
    let ghost a = text_opt(*display_arg);
    let ghost ov = outcomes_view(outcomes@);
    let ghost cats = config@.categories;
    let mut out: Vec<Item> = Vec::new();
    let mut c: usize = 0;
    assert(cats.take(0) =~= Seq::empty());
    while c < config.categories.len()
        invariant
            f == text_opt(*category_filter),
            a == text_opt(*display_arg),
            ov == outcomes_view(outcomes@),
            cats == config@.categories,
            outcomes_fit(config@, ov),
            c <= cats.len(),
            item_views(out@) == categories_items(config@, cats.take(c as int), f, a, ov),
        decreases cats.len() - c,
    {
        assert(cats.take(c + 1).drop_last() =~= cats.take(c as int));
        let name = &config.categories[c].0;
        let category = &config.categories[c].1;
        assert(cats[c as int] == (name@, category@));
        if is_category_included(config, name, category, category_filter, display_arg) {
            let display = resolve_display_mode(display_arg, &category.display, &config.display);
            let source = resolve_source_mode(&category.source, &config.source);
            let ghost base = out@;
            let ghost entries = category@.entries;
            let row = &outcomes[c];
            assert(ov[c as int] == row@.map_values(|x: Option<String>| outcome_view(x)));
            let mut e: usize = 0;
            assert(entries.take(0) =~= Seq::empty());
            assert(item_views(out@) =~= item_views(base) + entries_views(
                name@,
                entries.take(0),
                display,
                source,
                ov[c as int],
            ));
            while e < category.entries.len()
                invariant
                    ov == outcomes_view(outcomes@),
                    outcomes_fit(config@, ov),
                    c < cats.len(),
                    cats == config@.categories,
                    cats[c as int] == (name@, category@),
                    entries == category@.entries,
                    row == outcomes@[c as int],
                    ov[c as int] == row@.map_values(|x: Option<String>| outcome_view(x)),
                    e <= entries.len(),
                    item_views(out@) == item_views(base) + entries_views(
                        name@,
                        entries.take(e as int),
                        display,
                        source,
                        ov[c as int],
                    ),
                decreases entries.len() - e,
            {
                assert(entries.take(e + 1).drop_last() =~= entries.take(e as int));
                assert(entries[e as int] == (
                    category.entries@[e as int].0@,
                    category.entries@[e as int].1@,
                ));
                assert(ov[c as int].len() == entries.len());
                assert(ov[c as int][e as int] == text_opt(row@[e as int]));
                let mut part = entry_items(
                    category.entries[e].0.as_str(),
                    category.entries[e].1.as_str(),
                    name.as_str(),
                    display,
                    source,
                    &row[e],
                );
                let ghost before = out@;
                let ghost added = part@;
                out.append(&mut part);
                assert(item_views(out@) =~= item_views(before) + item_views(added));
                assert(item_views(out@) =~= item_views(base) + entries_views(
                    name@,
                    entries.take(e + 1),
                    display,
                    source,
                    ov[c as int],
                ));
                e = e + 1;
            }
            assert(entries.take(e as int) =~= entries);
        }
        c = c + 1;
    }
    assert(cats.take(c as int) =~= cats);
    out
}

/// A command that resolution runs for an entry, and whether its output is
/// decoded lossily.
pub struct CommandCall {
    pub command: String,
    pub lossy: bool,
}

/// The command that resolution runs for an entry, if any: none for a category
/// that does not take part or whose effective source is config; the value of
/// a command entry; the key (the list command) of a dynamic entry, lossily.
pub open spec fn planned_call(
    config: ConfigView,
    name: Seq<char>,
    category: CategoryView,
    filter: Option<Seq<char>>,
    arg: Option<Seq<char>>,
    entry: (Seq<char>, Seq<char>),
) -> Option<(Seq<char>, bool)> {
    if !category_included(config, name, category, filter, arg) {
        None
    } else {
        match resolved_source(category.source, config.source) {
            SourceMode::Config => None,
            SourceMode::Command => Some((entry.1, false)),
            SourceMode::Dynamic => Some((entry.0, true)),
        }
    }
}

/// A planned call as plain values.
pub open spec fn call_view(c: Option<CommandCall>) -> Option<(Seq<char>, bool)> {
    match c {
        Some(call) => Some((call.command@, call.lossy)),
        None => None,
    }
}

/// Whether `plan` lists, for each entry of each category, the call that
/// resolution makes for it.
pub open spec fn plan_matches(
    config: ConfigView,
    filter: Option<Seq<char>>,
    arg: Option<Seq<char>>,
    plan: Seq<Vec<Option<CommandCall>>>,
) -> bool {
    &&& plan.len() == config.categories.len()
    &&& forall|c: int|
        0 <= c < plan.len() ==> (#[trigger] plan[c])@.len()
            == config.categories[c].1.entries.len()
    &&& forall|c: int, e: int|
        0 <= c < plan.len() && 0 <= e < plan[c]@.len() ==> call_view(#[trigger] plan[c]@[e])
            == planned_call(
            config,
            config.categories[c].0,
            config.categories[c].1,
            filter,
            arg,
            config.categories[c].1.entries[e],
        )
}

/// The calls that resolution makes: `r[c][e]` for entry `e` of category `c`.
pub fn command_plan(
    config: &Config,
    category_filter: &Option<String>,
    display_arg: &Option<String>,
) -> (r: Vec<Vec<Option<CommandCall>>>)
    ensures
        plan_matches(config@, text_opt(*category_filter), text_opt(*display_arg), r@),
{
    let ghost f = text_opt(*category_filter);
    let ghost a = text_opt(*display_arg);
    let ghost cats = config@.categories;
    let mut plan: Vec<Vec<Option<CommandCall>>> = Vec::new();
    let mut c: usize = 0;
    while c < config.categories.len()
        invariant
            f == text_opt(*category_filter),
            a == text_opt(*display_arg),
            cats == config@.categories,
            c <= cats.len(),
            plan@.len() == c,
            forall|k: int| 0 <= k < c ==> (#[trigger] plan@[k])@.len() == cats[k].1.entries.len(),
            forall|k: int, e: int|
                0 <= k < c && 0 <= e < plan@[k]@.len() ==> call_view(#[trigger] plan@[k]@[e])
                    == planned_call(config@, cats[k].0, cats[k].1, f, a, cats[k].1.entries[e]),
        decreases cats.len() - c,
    {
        let name = &config.categories[c].0;
        let category = &config.categories[c].1;
        assert(cats[c as int] == (name@, category@));
        let included = is_category_included(config, name, category, category_filter, display_arg);
        let source = resolve_source_mode(&category.source, &config.source);
        let ghost entries = category@.entries;
        let mut row: Vec<Option<CommandCall>> = Vec::new();
        let mut e: usize = 0;
        while e < category.entries.len()
            invariant
                entries == category@.entries,
                e <= entries.len(),
                row@.len() == e,
                included == category_included(config@, name@, category@, f, a),
                source == resolved_source(category@.source, config@.source),
                forall|j: int|
                    0 <= j < e ==> call_view(#[trigger] row@[j]) == planned_call(
                        config@,
                        name@,
                        category@,
                        f,
                        a,
                        entries[j],
                    ),
            decreases entries.len() - e,
        {
            assert(entries[e as int] == (
                category.entries@[e as int].0@,
                category.entries@[e as int].1@,
            ));
            let call = if !included {
                None
            } else {
                match source {
                    SourceMode::Config => None,
                    SourceMode::Command => Some(
                        CommandCall { command: category.entries[e].1.clone(), lossy: false },
                    ),
                    SourceMode::Dynamic => Some(
                        CommandCall { command: category.entries[e].0.clone(), lossy: true },
                    ),
                }
            };
            row.push(call);
            e = e + 1;
        }
        plan.push(row);
        assert forall|k: int, j: int|
            0 <= k < c + 1 && 0 <= j < plan@[k]@.len() implies call_view(#[trigger] plan@[k]@[j])
            == planned_call(config@, cats[k].0, cats[k].1, f, a, cats[k].1.entries[j]) by {
            if k == c {
                assert(plan@[k] == row);
            }
        }
        c = c + 1;
    }
    plan
}

/// Resolves the items of a configuration, before picture expansion, running
/// the calls of [`command_plan`] through `executor`. An entry with no call
/// has no outcome; a call that fails drops its entry and nothing else.
pub fn resolve_items<E: ExecutorTrait>(
    config: &Config,
    category_filter: &Option<String>,
    display_arg: &Option<String>,
    executor: &E,
) -> (r: Vec<Item>)
    ensures
        exists|o: Seq<Seq<Option<Seq<char>>>>|
            {
                &&& outcomes_fit(config@, o)
                &&& forall|c: int, e: int|
                    0 <= c < o.len() && 0 <= e < o[c].len() && #[trigger] planned_call(
                        config@,
                        config@.categories[c].0,
                        config@.categories[c].1,
                        text_opt(*category_filter),
                        text_opt(*display_arg),
                        config@.categories[c].1.entries[e],
                    ) is None ==> #[trigger] o[c][e] is None
                &&& item_views(r@) == resolved_items(
                    config@,
                    text_opt(*category_filter),
                    text_opt(*display_arg),
                    o,
                )
            },
{
    let plan = command_plan(config, category_filter, display_arg);
    let mut outcomes: Vec<Vec<Option<String>>> = Vec::new();
    let mut c: usize = 0;
    while c < plan.len()
        invariant
            plan_matches(config@, text_opt(*category_filter), text_opt(*display_arg), plan@),
            c <= plan@.len(),
            outcomes@.len() == c,
            forall|k: int| 0 <= k < c ==> (#[trigger] outcomes@[k])@.len() == plan@[k]@.len(),
            forall|k: int, e: int|
                0 <= k < c && 0 <= e < plan@[k]@.len() && plan@[k]@[e] is None
                    ==> #[trigger] outcomes@[k]@[e] is None,
        decreases plan@.len() - c,
    {
        let calls = &plan[c];
        let mut row: Vec<Option<String>> = Vec::new();
        let mut e: usize = 0;
        while e < calls.len()
            invariant
                e <= calls@.len(),
                row@.len() == e,
                forall|j: int| 0 <= j < e && calls@[j] is None ==> #[trigger] row@[j] is None,
            decreases calls@.len() - e,
        {
            let outcome = match &calls[e] {
                None => None,
                Some(call) => {
                    let result = if call.lossy {
                        executor.execute_lossy(call.command.as_str())
                    } else {
                        executor.execute(call.command.as_str())
                    };
                    match result {
                        Ok(text) => Some(text),
                        Err(_) => None,
                    }
                },
            };
            row.push(outcome);
            e = e + 1;
        }
        outcomes.push(row);
        assert forall|k: int, j: int|
            0 <= k < c + 1 && 0 <= j < plan@[k]@.len() && plan@[k]@[j] is None
                implies #[trigger] outcomes@[k]@[j] is None by {
            if k == c {
                assert(outcomes@[k] == row);
            }
        }
        c = c + 1;
    }
    let ghost ov = outcomes_view(outcomes@);
    assert(outcomes_fit(config@, ov)) by {
        assert forall|k: int| 0 <= k < ov.len() implies (#[trigger] ov[k]).len()
            == config@.categories[k].1.entries.len() by {
            assert(outcomes@[k]@.len() == plan@[k]@.len());
        }
    }
    assert forall|k: int, e: int|
        0 <= k < ov.len() && 0 <= e < ov[k].len() && #[trigger] planned_call(
            config@,
            config@.categories[k].0,
            config@.categories[k].1,
            text_opt(*category_filter),
            text_opt(*display_arg),
            config@.categories[k].1.entries[e],
        ) is None implies #[trigger] ov[k][e] is None by {
        assert(call_view(plan@[k]@[e]) is None);
        assert(outcomes@[k]@[e] is None);
    }
    resolve_items_from(config, category_filter, display_arg, &outcomes)
}

} // verus!
