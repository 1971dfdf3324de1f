//! Properties of item resolution and expansion that hold for every input.

use vstd::prelude::*;
use crate::config::{CategoryView, ConfigView};
use crate::item::ItemView;
use crate::modes::{DisplayMode, SourceMode};
use crate::pipeline::{category_included, entries_views, entry_views, categories_items, resolved_items};
use crate::processor::{command_views, expand_all, expansion_views, labelled, numbered, FileEntry, PathListing};
use crate::paths::tilde_expanded;
use crate::resolver::resolved_display;
use crate::processor::{dynamic_fields, dynamic_views};
use crate::text::{kept_lines, output_lines, split_on, strip_char, trim, trim_end, trim_start};

verus! {

/// Every item that an entry gives carries its category's name.
proof fn lemma_entries_category(
    name: Seq<char>,
    entries: Seq<(Seq<char>, Seq<char>)>,
    display: DisplayMode,
    source: SourceMode,
    outcomes: Seq<Option<Seq<char>>>,
)
    ensures
        forall|i: int|
            0 <= i < entries_views(name, entries, display, source, outcomes).len() ==> (
            #[trigger] entries_views(name, entries, display, source, outcomes)[i]).category
                == name,
    decreases entries.len(),
{
    if entries.len() > 0 {
        lemma_entries_category(name, entries.drop_last(), display, source, outcomes);
        let prev = entries_views(name, entries.drop_last(), display, source, outcomes);
        let last = entry_views(
            entries.last().0,
            entries.last().1,
            name,
            display,
            source,
            outcomes[entries.len() - 1],
        );
        let all = entries_views(name, entries, display, source, outcomes);
        assert(all == prev + last);
        assert forall|i: int| 0 <= i < all.len() implies (#[trigger] all[i]).category == name by {
            if i >= prev.len() {
                assert(all[i] == last[i - prev.len()]);
            } else {
                assert(all[i] == prev[i]);
            }
        }
    }
}

proof fn lemma_categories_unfiltered(
    config: ConfigView,
    categories: Seq<(Seq<char>, CategoryView)>,
    outcomes: Seq<Seq<Option<Seq<char>>>>,
)
    ensures
        forall|i: int|
            0 <= i < categories_items(config, categories, None, None, outcomes).len()
                ==> exists|c: int|
                0 <= c < categories.len() && #[trigger] categories[c].0 == (
                #[trigger] categories_items(config, categories, None, None, outcomes)[i]).category
                    && resolved_display(None, categories[c].1.display, config.display)
                    == config.display,
    decreases categories.len(),
{
    if categories.len() > 0 {
        let rest = categories.drop_last();
        lemma_categories_unfiltered(config, rest, outcomes);
        let prev = categories_items(config, rest, None, None, outcomes);
        let all = categories_items(config, categories, None, None, outcomes);
        let (name, category) = categories.last();
        let c_last = categories.len() - 1;
        let d = resolved_display(None, category.display, config.display);
        let s = crate::resolver::resolved_source(category.source, config.source);
        lemma_entries_category(name, category.entries, d, s, outcomes[c_last]);
        assert forall|i: int| 0 <= i < all.len() implies exists|c: int|
            0 <= c < categories.len() && #[trigger] categories[c].0 == (#[trigger] all[i]).category
                && resolved_display(None, categories[c].1.display, config.display)
                == config.display by {
            if i < prev.len() {
                assert(all[i] == prev[i]);
                let c = choose|c: int|
                    0 <= c < rest.len() && #[trigger] rest[c].0 == (#[trigger] prev[i]).category
                        && resolved_display(None, rest[c].1.display, config.display)
                        == config.display;
                assert(categories[c] == rest[c]);
            } else {
                let part = entries_views(name, category.entries, d, s, outcomes[c_last]);
                assert(category_included(config, name, category, None, None));
                assert(all == prev + part);
                assert(all[i] == part[i - prev.len()]);
                assert(categories[c_last].0 == all[i].category);
            }
        }
    }
}

/// Without a category filter and without a display argument, every item comes
/// from a category whose effective display mode is the global one.
pub proof fn lemma_unfiltered_items_follow_global_mode(
    config: ConfigView,
    outcomes: Seq<Seq<Option<Seq<char>>>>,
    i: int,
)
    requires
        0 <= i < resolved_items(config, None, None, outcomes).len(),
    ensures
        exists|c: int|
            0 <= c < config.categories.len() && #[trigger] config.categories[c].0 == resolved_items(
                config,
                None,
                None,
                outcomes,
            )[i].category && resolved_display(None, config.categories[c].1.display, config.display)
                == config.display,
{
    lemma_categories_unfiltered(config, config.categories, outcomes);
}

/// With a display argument and no category filter, every category takes part,
/// whatever its own display mode.
pub proof fn lemma_display_argument_includes_all(
    config: ConfigView,
    name: Seq<char>,
    category: CategoryView,
    arg: Seq<char>,
)
    ensures
        category_included(config, name, category, None, Some(arg)),
{
}

/// A command printing several non-empty lines gives one item per line, titled
/// `"{key} [1]"`, `"{key} [2]"`, ...; one printing exactly one such line gives
/// one item titled with the bare key.
pub proof fn lemma_command_fan_out(
    key: Seq<char>,
    output: Seq<char>,
    category: Seq<char>,
    display: DisplayMode,
    source: SourceMode,
)
    ensures
        command_views(key, output, category, display, source).len() == output_lines(output).len(),
        output_lines(output).len() == 1 ==> command_views(
            key,
            output,
            category,
            display,
            source,
        )[0].title == key,
        output_lines(output).len() > 1 ==> forall|i: int|
            0 <= i < output_lines(output).len() ==> (#[trigger] command_views(
                key,
                output,
                category,
                display,
                source,
            )[i]).title == numbered(key, (i + 1) as nat),
{
}

proof fn lemma_entries_views_agree(
    name: Seq<char>,
    entries: Seq<(Seq<char>, Seq<char>)>,
    display: DisplayMode,
    source: SourceMode,
    o1: Seq<Option<Seq<char>>>,
    o2: Seq<Option<Seq<char>>>,
)
    requires
        o1.len() >= entries.len(),
        o2.len() >= entries.len(),
        forall|j: int| 0 <= j < entries.len() ==> o1[j] == o2[j],
    ensures
        entries_views(name, entries, display, source, o1) == entries_views(
            name,
            entries,
            display,
            source,
            o2,
        ),
    decreases entries.len(),
{
    if entries.len() > 0 {
        lemma_entries_views_agree(name, entries.drop_last(), display, source, o1, o2);
    }
}

/// An entry whose command failed gives no item and leaves the items of the
/// other entries of its category as they would be without it.
pub proof fn lemma_failed_command_is_isolated(
    name: Seq<char>,
    entries: Seq<(Seq<char>, Seq<char>)>,
    display: DisplayMode,
    source: SourceMode,
    outcomes: Seq<Option<Seq<char>>>,
    k: int,
)
    requires
        source != SourceMode::Config,
        outcomes.len() == entries.len(),
        0 <= k < entries.len(),
        outcomes[k] is None,
    ensures
        entries_views(name, entries, display, source, outcomes) == entries_views(
            name,
            entries.remove(k),
            display,
            source,
            outcomes.remove(k),
        ),
    decreases entries.len(),
{
    let n = entries.len();
    if k == n - 1 {
        assert(entries.remove(k) =~= entries.drop_last());
        lemma_entries_views_agree(
            name,
            entries.drop_last(),
            display,
            source,
            outcomes,
            outcomes.remove(k),
        );
        assert(entry_views(entries.last().0, entries.last().1, name, display, source, outcomes[k])
            =~= Seq::empty());
        assert(entries_views(name, entries, display, source, outcomes) =~= entries_views(
            name,
            entries.drop_last(),
            display,
            source,
            outcomes,
        ) + Seq::empty());
    } else {
        lemma_failed_command_is_isolated(
            name,
            entries.drop_last(),
            display,
            source,
            outcomes.drop_last(),
            k,
        );
        lemma_entries_views_agree(
            name,
            entries.drop_last(),
            display,
            source,
            outcomes,
            outcomes.drop_last(),
        );
        assert(entries.remove(k).drop_last() =~= entries.drop_last().remove(k));
        assert(outcomes.drop_last().remove(k) =~= outcomes.remove(k).drop_last());
        lemma_entries_views_agree(
            name,
            entries.drop_last().remove(k),
            display,
            source,
            outcomes.remove(k),
            outcomes.remove(k).drop_last(),
        );
        assert(entries.remove(k).last() == entries.last());
        assert(outcomes.remove(k)[n - 2] == outcomes[n - 1]);
    }
}

/// A picture item whose path is not a directory gives exactly one item: its
/// path expanded, its title and other fields unchanged.
pub proof fn lemma_picture_file_kept(item: ItemView, home: Option<Seq<char>>)
    requires
        item.display == DisplayMode::Picture,
    ensures
        expansion_views(item, home, PathListing::NotDirectory) == seq![
            ItemView {
                title: item.title,
                value: tilde_expanded(item.value, home),
                category: item.category,
                display: item.display,
                source: item.source,
            },
        ],
{
}

/// A picture item whose path is a directory holding `n` regular files gives
/// exactly `n` items, the `i`-th valued with the `i`-th file's path and titled
/// `"{file name} ({item title})"`.
pub proof fn lemma_picture_directory_fan_out(
    item: ItemView,
    home: Option<Seq<char>>,
    files: Vec<FileEntry>,
)
    requires
        item.display == DisplayMode::Picture,
    ensures
        expansion_views(item, home, PathListing::Directory(files)).len() == files@.len(),
        forall|i: int|
            0 <= i < files@.len() ==> (#[trigger] expansion_views(
                item,
                home,
                PathListing::Directory(files),
            )[i]).title == labelled(files@[i].name@, item.title) && expansion_views(
                item,
                home,
                PathListing::Directory(files),
            )[i].value == files@[i].path@,
{
}

/// Expanding a list of items none of which is shown as a picture returns the
/// list unchanged.
pub proof fn lemma_text_items_unchanged(
    items: Seq<ItemView>,
    home: Option<Seq<char>>,
    listings: Seq<PathListing>,
)
    requires
        items.len() == listings.len(),
        forall|i: int| 0 <= i < items.len() ==> (#[trigger] items[i]).display != DisplayMode::Picture,
    ensures
        expand_all(items, home, listings) == items,
    decreases items.len(),
{
    if items.len() > 0 {
        lemma_text_items_unchanged(items.drop_last(), home, listings.drop_last());
        assert(items.drop_last().push(items.last()) =~= items);
        assert(expansion_views(items.last(), home, listings.last()) =~= seq![items.last()]);
        assert(items.drop_last() + seq![items.last()] =~= items);
    }
}


/// Whether `s` holds no `c`.
pub open spec fn free_of(s: Seq<char>, c: char) -> bool {
    forall|i: int| 0 <= i < s.len() ==> s[i] != c
}

proof fn lemma_strip_free(s: Seq<char>, c: char)
    ensures
        free_of(strip_char(s, c), c),
    decreases s.len(),
{
    if s.len() > 0 {
        lemma_strip_free(s.drop_last(), c);
    }
}

proof fn lemma_split_free(s: Seq<char>, sep: char, c: char)
    requires
        free_of(s, c),
    ensures
        split_on(s, sep).len() >= 1,
        forall|k: int| 0 <= k < split_on(s, sep).len() ==> free_of(#[trigger] split_on(s, sep)[k], c),
    decreases s.len(),
{
    if s.len() > 0 {
        lemma_split_free(s.drop_last(), sep, c);
        let prev = split_on(s.drop_last(), sep);
        let all = split_on(s, sep);
        assert forall|k: int| 0 <= k < all.len() implies free_of(#[trigger] all[k], c) by {
            if s.last() != sep && k == prev.len() - 1 {
                let p = prev.last().push(s.last());
                assert(all[k] == p);
                assert forall|i: int| 0 <= i < p.len() implies p[i] != c by {
                    if i < prev.last().len() {
                        assert(p[i] == prev.last()[i]);
                    }
                }
            } else if k < prev.len() {
                assert(all[k] == prev[k]);
            }
        }
    }
}

proof fn lemma_trim_free(s: Seq<char>, c: char)
    requires
        free_of(s, c),
    ensures
        free_of(trim_start(s), c),
        free_of(trim_end(s), c),
        free_of(trim(s), c),
    decreases s.len(),
{
    if s.len() > 0 {
        assert forall|i: int| 0 <= i < s.drop_first().len() implies s.drop_first()[i] != c by {
            assert(s.drop_first()[i] == s[i + 1]);
        }
        lemma_trim_free(s.drop_first(), c);
        lemma_trim_free(s.drop_last(), c);
    }
    lemma_trim_end_free(trim_start(s), c);
}

proof fn lemma_trim_end_free(s: Seq<char>, c: char)
    requires
        free_of(s, c),
    ensures
        free_of(trim_end(s), c),
    decreases s.len(),
{
    if s.len() > 0 {
        lemma_trim_end_free(s.drop_last(), c);
    }
}

proof fn lemma_kept_free(pieces: Seq<Seq<char>>, c: char)
    requires
        forall|k: int| 0 <= k < pieces.len() ==> free_of(#[trigger] pieces[k], c),
    ensures
        forall|k: int| 0 <= k < kept_lines(pieces).len() ==> free_of(#[trigger] kept_lines(pieces)[k], c),
    decreases pieces.len(),
{
    if pieces.len() > 0 {
        lemma_kept_free(pieces.drop_last(), c);
        assert(free_of(pieces[pieces.len() - 1], c));
        lemma_trim_free(pieces.last(), c);
        let rest = kept_lines(pieces.drop_last());
        let all = kept_lines(pieces);
        assert forall|k: int| 0 <= k < all.len() implies free_of(#[trigger] all[k], c) by {
            if k < rest.len() {
                assert(all[k] == rest[k]);
            }
        }
    }
}

proof fn lemma_first_tab_bounds(s: Seq<char>)
    ensures
        0 <= crate::processor::first_tab(s) <= s.len(),
    decreases s.len(),
{
    if s.len() > 0 && s[0] != '\t' {
        lemma_first_tab_bounds(s.drop_first());
    }
}

/// No item that a list command's output gives holds a NUL character, in its
/// title or in its value.
pub proof fn lemma_dynamic_items_free_of_nul(output: Seq<char>, category: Seq<char>)
    ensures
        forall|i: int|
            0 <= i < dynamic_views(output, category).len() ==> free_of(
                (#[trigger] dynamic_views(output, category)[i]).title,
                '\0',
            ) && free_of(dynamic_views(output, category)[i].value, '\0'),
{
    let clean = strip_char(output, '\0');
    lemma_strip_free(output, '\0');
    lemma_split_free(clean, '\n', '\0');
    lemma_kept_free(split_on(clean, '\n'), '\0');
    let lines = output_lines(clean);
    assert forall|i: int| 0 <= i < dynamic_views(output, category).len() implies free_of(
        (#[trigger] dynamic_views(output, category)[i]).title,
        '\0',
    ) && free_of(dynamic_views(output, category)[i].value, '\0') by {
        let line = lines[i];
        assert(free_of(line, '\0'));
        let k = crate::processor::first_tab(line);
        lemma_first_tab_bounds(line);
        if k < line.len() {
            assert(free_of(line.take(k), '\0')) by {
                assert forall|j: int| 0 <= j < line.take(k).len() implies #[trigger] line.take(k)[j] != '\0' by {
                    assert(line.take(k)[j] == line[j]);
                }
            }
            assert(free_of(line.skip(k + 1), '\0')) by {
                assert forall|j: int| 0 <= j < line.skip(k + 1).len() implies #[trigger] line.skip(k + 1)[j]
                    != '\0' by {
                    assert(line.skip(k + 1)[j] == line[j + k + 1]);
                }
            }
            lemma_trim_free(line.take(k), '\0');
            lemma_trim_free(line.skip(k + 1), '\0');
        }
        assert(dynamic_views(output, category)[i].title == dynamic_fields(line).1);
    }
}

} // verus!
