//! Precedence rules for the effective display and source mode of a category.

use vstd::prelude::*;
use crate::modes::{display_from_name, display_named, DisplayMode, SourceMode};
use crate::config::{categories_view, CategoryView, Config};
use crate::text::{same_text, text_opt};

verus! {

/// The effective display mode: a recognised command-line name first, then the
/// category's own setting, then the global one.
pub open spec fn resolved_display(
    arg: Option<Seq<char>>,
    category: Option<DisplayMode>,
    global: DisplayMode,
) -> DisplayMode {
    if arg is Some && display_named(arg->0) is Some {
        display_named(arg->0)->0
    } else if category is Some {
        category->0
    } else {
        global
    }
}

/// The effective source mode: the category's own setting, else the global one.
pub open spec fn resolved_source(category: Option<SourceMode>, global: SourceMode) -> SourceMode {
    match category {
        Some(s) => s,
        None => global,
    }
}

/// Resolves the display mode of a category. An argument that names no mode
/// (anything but `"picture"` and `"text"`) is passed over, never an error.
pub fn resolve_display_mode(
    display_arg: &Option<String>,
    category_display: &Option<DisplayMode>,
    global_display: &DisplayMode,
) -> (r: DisplayMode)
    ensures
        r == resolved_display(text_opt(*display_arg), *category_display, *global_display),
        display_arg is Some && display_named(display_arg->0@) is Some ==> r == display_named(
            display_arg->0@,
        )->0,
        (display_arg is None || display_named(display_arg->0@) is None) && category_display is Some
            ==> r == category_display->0,
        (display_arg is None || display_named(display_arg->0@) is None) && category_display is None
            ==> r == *global_display,
{
    if let Some(name) = display_arg {
        if let Some(mode) = display_from_name(name.as_str()) {
            return mode;
        }
    }
    match category_display {
        Some(mode) => *mode,
        None => *global_display,
    }
}

/// Resolves the source mode of a category: its own setting, else the global one.
pub fn resolve_source_mode(category_source: &Option<SourceMode>, global_source: &SourceMode) -> (r:
    SourceMode)
    ensures
        r == resolved_source(*category_source, *global_source),
{
    match category_source {
        Some(mode) => *mode,
        None => *global_source,
    }
}


/// The first category called `name`, if any.
pub open spec fn find_category(cats: Seq<(Seq<char>, CategoryView)>, name: Seq<char>) -> Option<
    CategoryView,
>
    decreases cats.len(),
{
    if cats.len() == 0 {
        None
    } else if cats[0].0 == name {
        Some(cats[0].1)
    } else {
        find_category(cats.drop_first(), name)
    }
}

/// The display mode that a picker window is laid out for: that of the
/// filtered category when it exists, else the global one, the command-line
/// argument first in either case; text when no configuration could be read.
pub open spec fn window_display(
    config: Option<(DisplayMode, Seq<(Seq<char>, CategoryView)>)>,
    filter: Option<Seq<char>>,
    arg: Option<Seq<char>>,
) -> DisplayMode {
    match config {
        None => resolved_display(arg, None, DisplayMode::Text),
        Some((global, cats)) => {
            let found = match filter {
                Some(f) => find_category(cats, f),
                None => None,
            };
            match found {
                Some(c) => resolved_display(arg, c.display, global),
                None => resolved_display(arg, None, global),
            }
        },
    }
}

/// The global display mode and categories of an optional configuration.
pub open spec fn layout_view(config: Option<Config>) -> Option<
    (DisplayMode, Seq<(Seq<char>, CategoryView)>),
> {
    match config {
        Some(c) => Some((c.display, categories_view(c.categories@))),
        None => None,
    }
}

/// Resolves the display mode a picker window is laid out for, given the
/// configuration that could be read (`None` when reading or parsing failed).
pub fn get_config_display_mode(
    config: &Option<Config>,
    category_filter: &Option<String>,
    display_arg: &Option<String>,
) -> (r: DisplayMode)
    ensures
        r == window_display(layout_view(*config), text_opt(*category_filter), text_opt(*display_arg)),
{
    let cfg = match config {
        None => {
            return resolve_display_mode(display_arg, &None, &DisplayMode::Text);
        },
        Some(c) => c,
    };
    if let Some(name) = category_filter {
        let ghost cats = categories_view(cfg.categories@);
        let mut i: usize = 0;
        assert(cats.skip(0) =~= cats);
        while i < cfg.categories.len()
            invariant
                *config == Some(*cfg),
                *category_filter == Some(*name),
                cats == categories_view(cfg.categories@),
                cats.len() == cfg.categories@.len(),
                i <= cats.len(),
                find_category(cats, name@) == find_category(cats.skip(i as int), name@),
            decreases cats.len() - i,
        {
            let ghost rest = cats.skip(i as int);
            assert(rest[0] == cats[i as int]);
            assert(cats[i as int] == (
                cfg.categories@[i as int].0@,
                cfg.categories@[i as int].1@,
            ));
            assert(rest.drop_first() =~= cats.skip(i + 1));
            if same_text(cfg.categories[i].0.as_str(), name.as_str()) {
                assert(find_category(rest, name@) == Some(cfg.categories@[i as int].1@));
                return resolve_display_mode(
                    display_arg,
                    &cfg.categories[i].1.display,
                    &cfg.display,
                );
            }
            i = i + 1;
        }
        assert(cats.skip(i as int).len() == 0);
    }
    resolve_display_mode(display_arg, &None, &cfg.display)
}

} // verus!
