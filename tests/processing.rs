use pantry::filter::{matches_folded, Filter, FuzzyMatcher};
use pantry::item::Item;
use pantry::modes::{DisplayMode, SourceMode};
use pantry::paths::{
    expand_tilde, expand_tilde_in, is_image_file, is_image_name, path_to_safe_filename,
};
use pantry::processor::{FileEntry, ItemProcessor, ItemService, PathListing};
use pantry::state::{PreviewManager, WindowState, PREVIEW_UPDATE_THROTTLE_MS};
use pantry::text::lines_of;

fn item(title: &str, value: &str, display: DisplayMode) -> Item {
    Item::builder()
        .title(title.to_string())
        .value(value.to_string())
        .category("c".to_string())
        .display(display)
        .build()
}

fn home() -> Option<String> {
    Some("/home/u".to_string())
}

#[test]
fn dynamic_line_with_tab() {
    let items = ItemProcessor::dynamic_items("abc\tHello World", "dynamic");
    assert_eq!(items.len(), 1);
    assert_eq!(items[0].value, "abc");
    assert_eq!(items[0].title, "Hello World");
    assert_eq!(items[0].source, SourceMode::Dynamic);
}

#[test]
fn dynamic_line_without_tab() {
    let items = ItemProcessor::dynamic_items("no-tab-here", "dynamic");
    assert_eq!(items[0].value, "no-tab-here");
    assert_eq!(items[0].title, "no-tab-here");
}

#[test]
fn dynamic_line_strips_nul() {
    let items = ItemProcessor::dynamic_items("a\0b\tti\0tle\n\n", "dynamic");
    assert_eq!(items.len(), 1);
    assert_eq!(items[0].value, "ab");
    assert_eq!(items[0].title, "title");
}

#[test]
fn dynamic_text_runs_to_line_end() {
    let items = ItemProcessor::dynamic_items(" id1 \t two\tparts \n", "d");
    assert_eq!(items[0].value, "id1");
    assert_eq!(items[0].title, "two\tparts");
}

#[test]
fn lines_skip_blank_and_trim() {
    let lines = lines_of("  a \r\n\n\t\nb\n  ");
    assert_eq!(lines, vec!["a".to_string(), "b".to_string()]);
    assert!(lines_of("").is_empty());
}

#[test]
fn picture_file_keeps_title_and_expands_path() {
    let it = item("Wall", "~/pics/a.png", DisplayMode::Picture);
    let out = ItemProcessor::process_for_display(&it, &home(), &PathListing::NotDirectory);
    assert_eq!(out.len(), 1);
    assert_eq!(out[0].title, "Wall");
    assert_eq!(out[0].value, "/home/u/pics/a.png");
    assert_eq!(out[0].category, "c");
}

#[test]
fn picture_directory_fans_out() {
    let it = item("Pics", "~/pics", DisplayMode::Picture);
    let files = vec![
        FileEntry { path: "/home/u/pics/a.png".to_string(), name: "a.png".to_string() },
        FileEntry { path: "/home/u/pics/sub/b.jpg".to_string(), name: "b.jpg".to_string() },
        FileEntry { path: "/home/u/pics/c.txt".to_string(), name: "c.txt".to_string() },
    ];
    let out = ItemProcessor::process_for_display(&it, &home(), &PathListing::Directory(files));
    let titles: Vec<&str> = out.iter().map(|i| i.title.as_str()).collect();
    assert_eq!(titles, vec!["a.png (Pics)", "b.jpg (Pics)", "c.txt (Pics)"]);
    assert_eq!(out[1].value, "/home/u/pics/sub/b.jpg");
    assert!(out.iter().all(|i| i.display == DisplayMode::Picture));
}

#[test]
fn empty_directory_gives_no_item() {
    let it = item("Pics", "/p", DisplayMode::Picture);
    let out = ItemProcessor::process_for_display(&it, &home(), &PathListing::Directory(vec![]));
    assert!(out.is_empty());
}

#[test]
fn text_items_pass_through_unchanged() {
    let items = vec![
        item("a", "~/x", DisplayMode::Text),
        item("b", "/dir", DisplayMode::Text),
    ];
    let listings = vec![PathListing::NotDirectory, PathListing::Directory(vec![])];
    let out = ItemService::process_items_for_display(&items, &home(), &listings);
    assert_eq!(out, items);
}

#[test]
fn tilde_expansion_rules() {
    assert_eq!(expand_tilde_in("~", &home()), "/home/u");
    assert_eq!(expand_tilde_in("~/", &home()), "/home/u");
    assert_eq!(expand_tilde_in("~/a/b", &home()), "/home/u/a/b");
    assert_eq!(expand_tilde_in("~//a", &Some("/home/u/".to_string())), "/home/u/a");
    assert_eq!(expand_tilde_in("~user/a", &home()), "~user/a");
    assert_eq!(expand_tilde_in("/abs/~", &home()), "/abs/~");
    assert_eq!(expand_tilde_in("~/a", &None), ".");
    assert_eq!(expand_tilde("/plain/path"), "/plain/path");
}

#[test]
fn image_extensions_ignore_case() {
    assert!(is_image_file("/x/photo.PNG"));
    assert!(is_image_file("a.JpEg"));
    assert!(is_image_file("b.webp"));
    assert!(!is_image_file("notes.txt"));
    assert!(!is_image_file("png"));
    assert!(is_image_name("c.gif"));
    assert!(!is_image_name("c.GIF"));
}

#[test]
fn safe_filename_replaces_reserved() {
    assert_eq!(path_to_safe_filename("/a:b*c?\"d<e>f|g\\h\u{7}i"), "_a_b_c__d_e_f_g_h_i");
    assert_eq!(path_to_safe_filename("plain.png"), "plain.png");
}

#[test]
fn filter_matches_ignoring_case() {
    let mut f = Filter::new();
    let it = item("Firefox Browser", "https://mozilla.org", DisplayMode::Text);
    assert!(f.should_show(&it));
    f.set_query("FOX".to_string());
    assert!(f.should_show(&it));
    f.set_query("fbr".to_string());
    assert!(f.should_show(&it));
    f.set_query("zzz".to_string());
    assert!(!f.should_show(&it));
    f.set_query("MOZ".to_string());
    assert!(f.should_show(&it));
}

#[test]
fn folded_matching() {
    assert!(matches_folded("abc", "abc", ""));
    assert!(matches_folded("bc", "xabcx", ""));
    assert!(matches_folded("ac", "", "abc"));
    assert!(!matches_folded("ca", "abc", "abc"));
}

#[test]
fn fuzzy_matcher() {
    assert!(FuzzyMatcher::match_text("hello world", "hwd"));
    assert!(FuzzyMatcher::match_text("anything", ""));
    assert!(!FuzzyMatcher::match_text("abc", "abcd"));
    let it = item("Terminal", "/usr/bin/KITTY", DisplayMode::Text);
    assert!(FuzzyMatcher::match_item(&it, "TRM"));
    assert!(FuzzyMatcher::match_item(&it, "kty"));
    assert!(!FuzzyMatcher::match_item(&it, "xyz"));
}

#[test]
fn builder_defaults() {
    let it = Item::builder().build();
    assert_eq!(it.title, "");
    assert_eq!(it.value, "");
    assert_eq!(it.category, "");
    assert_eq!(it.display, DisplayMode::Text);
    assert_eq!(it.source, SourceMode::Config);
    let full = Item::builder()
        .title("t".to_string())
        .value("v".to_string())
        .category("c".to_string())
        .display(DisplayMode::Picture)
        .source(SourceMode::Dynamic)
        .build();
    assert!(full.is_picture_mode());
    assert_eq!(full.display_text(), "v");
    assert_eq!(full.source, SourceMode::Dynamic);
}

#[test]
fn config_entry_item() {
    let it = ItemProcessor::from_config_entry("k", "v", "cat", DisplayMode::Text, SourceMode::Config);
    assert_eq!(it.title, "k");
    assert_eq!(it.value, "v");
    assert_eq!(it.category, "cat");
    assert!(!it.is_picture_mode());
}

#[test]
fn mixed_list_expands_only_pictures() {
    let items = vec![
        item("t", "~/x", DisplayMode::Text),
        item("p", "~/y.png", DisplayMode::Picture),
        item("d", "/d", DisplayMode::Picture),
    ];
    let listings = vec![
        PathListing::NotDirectory,
        PathListing::NotDirectory,
        PathListing::Directory(vec![FileEntry { path: "/d/f".to_string(), name: "f".to_string() }]),
    ];
    let out = ItemService::process_items_for_display(&items, &home(), &listings);
    let pairs: Vec<(&str, &str)> = out.iter().map(|i| (i.title.as_str(), i.value.as_str())).collect();
    assert_eq!(pairs, vec![("t", "~/x"), ("p", "/home/u/y.png"), ("f (d)", "/d/f")]);
}

#[test]
fn stdin_lines_become_items() {
    let items = ItemProcessor::stdin_items("alpha\r\n  \n beta \n\ngamma\r", DisplayMode::Picture);
    let titles: Vec<&str> = items.iter().map(|i| i.title.as_str()).collect();
    assert_eq!(titles, vec!["alpha", " beta ", "gamma\r"]);
    assert!(items.iter().all(|i| i.title == i.value && i.category == "stdin"));
    assert!(items.iter().all(|i| i.display == DisplayMode::Picture && i.source == SourceMode::Config));
    assert!(ItemProcessor::stdin_items("", DisplayMode::Text).is_empty());
}

#[test]
fn window_state_default() {
    let s = WindowState::default();
    assert_eq!(s, WindowState { width: 1200, height: 800, maximized: false });
}

#[test]
fn preview_updates_are_throttled() {
    let mut m = PreviewManager::new();
    assert!(m.admit_update(1000));
    assert_eq!(m.last_update_ms, 1000);
    assert!(!m.admit_update(1049));
    assert_eq!(m.last_update_ms, 1000);
    assert!(m.admit_update(1000 + PREVIEW_UPDATE_THROTTLE_MS));
    assert!(!m.admit_update(900));
    assert_eq!(m.last_update_ms, 1050);
}
