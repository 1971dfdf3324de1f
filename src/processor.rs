//! Turning entries and command output into items, and expanding picture items.

use vstd::prelude::*;
use crate::item::{item_views, Item, ItemView};
use crate::modes::{DisplayMode, SourceMode};
use crate::paths::{expand_tilde_in, tilde_expanded};
use crate::pipeline::{ExecutionError, ExecutorTrait};
use crate::text::{
    chars_of, decimal, input_lines, lines_of, output_lines, raw_lines_of, push_decimal, string_of, strip_char, strip_nul,
    text_opt, trim, trimmed_range, views,
};

verus! {

/// `"{key} [{n}]"`.
pub open spec fn numbered(key: Seq<char>, n: nat) -> Seq<char> {
    key + seq![' ', '['] + decimal(n) + seq![']']
}

/// The items that a command entry gives for the command's output: one per
/// non-empty trimmed line, titled `key` when there is one line and
/// `"{key} [{n}]"` (`n` counted from 1) when there are more.
pub open spec fn command_views(
    key: Seq<char>,
    output: Seq<char>,
    category: Seq<char>,
    display: DisplayMode,
    source: SourceMode,
) -> Seq<ItemView> {
    let lines = output_lines(output);
    Seq::new(
        lines.len(),
        |i: int|
            ItemView {
                title: if lines.len() == 1 {
                    key
                } else {
                    numbered(key, (i + 1) as nat)
                },
                value: lines[i],
                category,
                display,
                source,
            },
    )
}

/// The index of the first tab in `s`, or its length when there is none.
pub open spec fn first_tab(s: Seq<char>) -> int
    decreases s.len(),
{
    if s.len() == 0 || s[0] == '\t' {
        0
    } else {
        1 + first_tab(s.drop_first())
    }
}

/// The (id, text) pair of a listed line: split at the first tab and trimmed,
/// or the whole line twice when it holds no tab.
pub open spec fn dynamic_fields(line: Seq<char>) -> (Seq<char>, Seq<char>) {
    let k = first_tab(line);
    if k < line.len() {
        (trim(line.take(k)), trim(line.skip(k + 1)))
    } else {
        (line, line)
    }
}

/// The items that a list command's output gives: NUL characters removed, then
/// one item per non-empty trimmed line, its id as value and its text as title.
pub open spec fn dynamic_views(output: Seq<char>, category: Seq<char>) -> Seq<ItemView> {
    let lines = output_lines(strip_char(output, '\0'));
    Seq::new(
        lines.len(),
        |i: int|
            ItemView {
                title: dynamic_fields(lines[i]).1,
                value: dynamic_fields(lines[i]).0,
                category,
                display: DisplayMode::Text,
                source: SourceMode::Dynamic,
            },
    )
}

/// The items read from standard input: one per non-blank line, the line as
/// both title and value, in the `stdin` category.
pub open spec fn stdin_views(data: Seq<char>, display: DisplayMode) -> Seq<ItemView> {
    let lines = input_lines(data);
    Seq::new(
        lines.len(),
        |i: int|
            ItemView {
                title: lines[i],
                value: lines[i],
                category: "stdin"@,
                display,
                source: SourceMode::Config,
            },
    )
}

/// A regular file found under a directory: its full path and its own name.
pub struct FileEntry {
    pub path: String,
    pub name: String,
}

/// What the file system holds at an item's expanded path.
pub enum PathListing {
    /// A file, or nothing at all.
    NotDirectory,
    /// A directory, with every regular file under it at any depth.
    Directory(Vec<FileEntry>),
}

/// `"{name} ({title})"`.
pub open spec fn labelled(name: Seq<char>, title: Seq<char>) -> Seq<char> {
    name + seq![' ', '('] + title + seq![')']
}

/// The items that one item expands to. A picture item whose path is a
/// directory gives one item per file under it; any other picture item gives
/// itself with its path expanded; an item of any other mode gives itself.
pub open spec fn expansion_views(
    item: ItemView,
    home: Option<Seq<char>>,
    listing: PathListing,
) -> Seq<ItemView> {
    if item.display == DisplayMode::Picture {
        match listing {
            PathListing::Directory(files) => Seq::new(
                files@.len(),
                |i: int|
                    ItemView {
                        title: labelled(files@[i].name@, item.title),
                        value: files@[i].path@,
                        category: item.category,
                        display: item.display,
                        source: item.source,
                    },
            ),
            PathListing::NotDirectory => seq![
                ItemView {
                    title: item.title,
                    value: tilde_expanded(item.value, home),
                    category: item.category,
                    display: item.display,
                    source: item.source,
                },
            ],
        }
    } else {
        seq![item]
    }
}

/// The expansions of all items, in order.
pub open spec fn expand_all(
    items: Seq<ItemView>,
    home: Option<Seq<char>>,
    listings: Seq<PathListing>,
) -> Seq<ItemView>
    decreases items.len(),
{
    if items.len() == 0 || listings.len() == 0 {
        Seq::empty()
    } else {
        expand_all(items.drop_last(), home, listings.drop_last()) + expansion_views(
            items.last(),
            home,
            listings.last(),
        )
    }
}

proof fn lemma_first_tab(s: Seq<char>, k: int)
    requires
        0 <= k <= s.len(),
        forall|j: int| 0 <= j < k ==> s[j] != '\t',
        k == s.len() || s[k] == '\t',
    ensures
        first_tab(s) == k,
    decreases k,
{
    if k > 0 {
        lemma_first_tab(s.drop_first(), k - 1);
    }
}

fn numbered_title(key: &str, n: usize) -> (r: String)
    ensures
        r@ == numbered(key@, n as nat),
{
    let mut v = chars_of(key);
    v.push(' ');
    v.push('[');
    push_decimal(n, &mut v);
    v.push(']');
    assert(v@ =~= numbered(key@, n as nat));
    string_of(&v)
}

fn labelled_title(name: &str, title: &str) -> (r: String)
    ensures
        r@ == labelled(name@, title@),
{
    let mut v = chars_of(name);
    v.push(' ');
    v.push('(');
    let t = chars_of(title);
    let mut j: usize = 0;
    let ghost start = v@;
    while j < t.len()
        invariant
            j <= t@.len(),
            v@ == start + t@.take(j as int),
        decreases t@.len() - j,
    {
        v.push(t[j]);
        assert(v@ =~= start + t@.take(j + 1));
        j = j + 1;
    }
    v.push(')');
    assert(t@.take(j as int) =~= t@);
    assert(v@ =~= labelled(name@, title@));
    string_of(&v)
}

/// Splits a listed line into its (id, text) pair.
fn split_listed_line(line: &str) -> (r: (String, String))
    ensures
        r.0@ == dynamic_fields(line@).0,
        r.1@ == dynamic_fields(line@).1,
{
    let v = chars_of(line);
    let mut k: usize = 0;
    while k < v.len() && v[k] != '\t'
        invariant
            k <= v@.len(),
            forall|j: int| 0 <= j < k ==> v@[j] != '\t',
        decreases v@.len() - k,
    {
        k = k + 1;
    }
    proof {
        lemma_first_tab(v@, k as int);
    }
    if k < v.len() {
        let id = trimmed_range(&v, 0, k);
        let text = trimmed_range(&v, k + 1, v.len());
        assert(v@.take(k as int) =~= v@.subrange(0, k as int));
        assert(v@.skip(k + 1) =~= v@.subrange(k + 1, v@.len() as int));
        (string_of(&id), string_of(&text))
    } else {
        (line.to_owned(), line.to_owned())
    }
}

/// Builds items from configuration entries and command output.
pub struct ItemProcessor;

impl ItemProcessor {
    /// The item of a static entry: the key as title, the value as it is.
    pub fn from_config_entry(
        key: &str,
        value: &str,
        category: &str,
        display: DisplayMode,
        source: SourceMode,
    ) -> (r: Item)
        ensures
            r@ == (ItemView { title: key@, value: value@, category: category@, display, source }),
    {
        Item {
            title: key.to_owned(),
            value: value.to_owned(),
            category: category.to_owned(),
            display,
            source,
        }
    }

    /// The items of a command entry, given what its command printed.
    pub fn command_items(
        key: &str,
        output: &str,
        category: &str,
        display: DisplayMode,
        source: SourceMode,
    ) -> (r: Vec<Item>)
        ensures
            item_views(r@) == command_views(key@, output@, category@, display, source),
    {
        let lines = lines_of(output);
        let n = lines.len();
        let ghost want = command_views(key@, output@, category@, display, source);
        let mut out: Vec<Item> = Vec::new();
        let mut i: usize = 0;
        while i < n
            invariant
                n == lines@.len(),
                views(lines@) == output_lines(output@),
                want == command_views(key@, output@, category@, display, source),
                i <= n,
                want.len() == n,
                out@.len() == i,
                item_views(out@) == want.take(i as int),
            decreases n - i,
        {
            let title = if n == 1 {
                key.to_owned()
            } else {
                numbered_title(key, i + 1)
            };
            assert(views(lines@)[i as int] == lines@[i as int]@);
            let item = Item {
                title,
                value: lines[i].clone(),
                category: category.to_owned(),
                display,
                source,
            };
            out.push(item);
            assert(out@[i as int]@ == want[i as int]);
            assert(item_views(out@) =~= want.take(i + 1));
            i = i + 1;
        }
        assert(want.take(i as int) =~= want);
        out
    }

    /// The items of a dynamic entry, given what its list command printed.
    pub fn dynamic_items(output: &str, category: &str) -> (r: Vec<Item>)
        ensures
            item_views(r@) == dynamic_views(output@, category@),
    {
        let clean = strip_nul(output);
        let lines = lines_of(clean.as_str());
        let n = lines.len();
        let ghost want = dynamic_views(output@, category@);
        let mut out: Vec<Item> = Vec::new();
        let mut i: usize = 0;
        while i < n
            invariant
                n == lines@.len(),
                views(lines@) == output_lines(strip_char(output@, '\0')),
                want == dynamic_views(output@, category@),
                i <= n,
                want.len() == n,
                out@.len() == i,
                item_views(out@) == want.take(i as int),
            decreases n - i,
        {
            assert(views(lines@)[i as int] == lines@[i as int]@);
            let (id, text) = split_listed_line(lines[i].as_str());
            let item = Item {
                title: text,
                value: id,
                category: category.to_owned(),
                display: DisplayMode::Text,
                source: SourceMode::Dynamic,
            };
            out.push(item);
            assert(out@[i as int]@ == want[i as int]);
            assert(item_views(out@) =~= want.take(i + 1));
            i = i + 1;
        }
        assert(want.take(i as int) =~= want);
        out
    }

    /// The items of text read from standard input.
    pub fn stdin_items(data: &str, display: DisplayMode) -> (r: Vec<Item>)
        ensures
            item_views(r@) == stdin_views(data@, display),
    {
        let lines = raw_lines_of(data);
        let n = lines.len();
        let ghost want = stdin_views(data@, display);
        let mut out: Vec<Item> = Vec::new();
        let mut i: usize = 0;
        while i < n
            invariant
                n == lines@.len(),
                views(lines@) == input_lines(data@),
                want == stdin_views(data@, display),
                i <= n,
                want.len() == n,
                out@.len() == i,
                item_views(out@) == want.take(i as int),
            decreases n - i,
        {
            assert(views(lines@)[i as int] == lines@[i as int]@);
            let item = Item {
                title: lines[i].clone(),
                value: lines[i].clone(),
                category: "stdin".to_owned(),
                display,
                source: SourceMode::Config,
            };
            out.push(item);
            assert(out@[i as int]@ == want[i as int]);
            assert(item_views(out@) =~= want.take(i + 1));
            i = i + 1;
        }
        assert(want.take(i as int) =~= want);
        out
    }

    /// Expands one item for display, given the home directory and what the
    /// file system holds at the item's expanded path.
    pub fn process_for_display(item: &Item, home: &Option<String>, listing: &PathListing) -> (r:
        Vec<Item>)
        ensures
            item_views(r@) == expansion_views(item@, text_opt(*home), *listing),
    {
        let mut out: Vec<Item> = Vec::new();
        if !item.is_picture_mode() {
            out.push(item.duplicate());
            assert(item_views(out@) =~= expansion_views(item@, text_opt(*home), *listing));
            return out;
        }
        match listing {
            PathListing::NotDirectory => {
                let value = expand_tilde_in(item.value.as_str(), home);
                out.push(
                    Item {
                        title: item.title.clone(),
                        value,
                        category: item.category.clone(),
                        display: item.display,
                        source: item.source,
                    },
                );
                assert(item_views(out@) =~= expansion_views(item@, text_opt(*home), *listing));
            },
            PathListing::Directory(files) => {
                let ghost want = expansion_views(item@, text_opt(*home), *listing);
                let mut i: usize = 0;
                while i < files.len()
                    invariant
                        item.display == DisplayMode::Picture,
                        *listing == PathListing::Directory(*files),
                        want == expansion_views(item@, text_opt(*home), *listing),
                        i <= files@.len(),
                        want.len() == files@.len(),
                        out@.len() == i,
                        item_views(out@) == want.take(i as int),
                    decreases files@.len() - i,
                {
                    let entry = &files[i];
                    out.push(
                        Item {
                            title: labelled_title(entry.name.as_str(), item.title.as_str()),
                            value: entry.path.clone(),
                            category: item.category.clone(),
                            display: item.display,
                            source: item.source,
                        },
                    );
                    assert(out@[i as int]@ == want[i as int]);
                    assert(item_views(out@) =~= want.take(i + 1));
                    i = i + 1;
                }
                assert(want.take(i as int) =~= want);
            },
        }
        out
    }
}

impl ItemProcessor {
    /// Runs a list command through `executor` (decoding lossily) and turns its
    /// output into items of the `dynamic` category. The preview template is
    /// applied later, to each item's id, by the front end.
    pub fn process_dynamic_source<E: ExecutorTrait>(
        executor: &E,
        list_command: &str,
        _preview_template: &str,
    ) -> (r: Result<Vec<Item>, ExecutionError>)
        ensures
            r is Ok ==> exists|out: Seq<char>|
                item_views(r->Ok_0@) == dynamic_views(out, "dynamic"@),
    {
        match executor.execute_lossy(list_command) {
            Ok(output) => Ok(Self::dynamic_items(output.as_str(), "dynamic")),
            Err(e) => Err(e),
        }
    }
}

/// Item list operations.
pub struct ItemService;

impl ItemService {
    /// Expands every item for display; `listings[i]` is what the file system
    /// holds at the expanded path of `items[i]`.
    pub fn process_items_for_display(
        items: &Vec<Item>,
        home: &Option<String>,
        listings: &Vec<PathListing>,
    ) -> (r: Vec<Item>)
        requires
            items@.len() == listings@.len(),
        ensures
            item_views(r@) == expand_all(item_views(items@), text_opt(*home), listings@),
    {
        let mut out: Vec<Item> = Vec::new();
        let mut i: usize = 0;
        while i < items.len()
            invariant
                items@.len() == listings@.len(),
                i <= items@.len(),
                item_views(out@) == expand_all(
                    item_views(items@.take(i as int)),
                    text_opt(*home),
                    listings@.take(i as int),
                ),
            decreases items@.len() - i,
        {
            let mut part = ItemProcessor::process_for_display(&items[i], home, &listings[i]);
            let ghost before = out@;
            let ghost added = part@;
            out.append(&mut part);
            proof {
                assert(item_views(items@.take(i + 1)).drop_last() =~= item_views(
                    items@.take(i as int),
                ));
                assert(listings@.take(i + 1).drop_last() =~= listings@.take(i as int));
                assert(item_views(out@) =~= item_views(before) + item_views(added));
            }
            i = i + 1;
        }
        assert(items@.take(i as int) =~= items@);
        assert(listings@.take(i as int) =~= listings@);
        out
    }
}

} // verus!
