use pantry::config::{Category, Config, ParseError, RawField, RawValue};
use pantry::item::Item;
use pantry::modes::{DisplayMode, SourceMode};
use pantry::pipeline::{
    entry_items, resolve_items, resolve_items_from, ExecutionError, ExecutorTrait,
};
use pantry::resolver::{get_config_display_mode, resolve_display_mode, resolve_source_mode};

struct FakeShell {
    replies: Vec<(String, Result<String, ExecutionError>)>,
}

impl FakeShell {
    fn reply(&self, command: &str) -> Result<String, ExecutionError> {
        for (c, r) in &self.replies {
            if c == command {
                return r.clone();
            }
        }
        Err(ExecutionError::Unavailable)
    }
}

impl ExecutorTrait for FakeShell {
    fn execute(&self, command: &str) -> Result<String, ExecutionError> {
        self.reply(command)
    }

    fn execute_lossy(&self, command: &str) -> Result<String, ExecutionError> {
        self.reply(command)
    }
}

fn no_shell() -> FakeShell {
    FakeShell { replies: Vec::new() }
}

fn category(
    display: Option<DisplayMode>,
    source: Option<SourceMode>,
    entries: &[(&str, &str)],
) -> Category {
    Category {
        display,
        source,
        entries: entries.iter().map(|(k, v)| (k.to_string(), v.to_string())).collect(),
    }
}

fn titles(items: &[Item]) -> Vec<String> {
    items.iter().map(|i| i.title.clone()).collect()
}

#[test]
fn resolver_precedence_all_combinations() {
    let args = [None, Some("picture"), Some("text"), Some("bogus")];
    let cats = [None, Some(DisplayMode::Picture), Some(DisplayMode::Text)];
    let globals = [DisplayMode::Picture, DisplayMode::Text];
    for a in args.iter() {
        for c in cats.iter() {
            for g in globals.iter() {
                let arg = a.map(|s| s.to_string());
                let got = resolve_display_mode(&arg, c, g);
                let want = match *a {
                    Some("picture") => DisplayMode::Picture,
                    Some("text") => DisplayMode::Text,
                    _ => c.unwrap_or(*g),
                };
                assert_eq!(got, want);
            }
        }
    }
}

#[test]
fn resolver_bogus_argument_falls_to_category() {
    let got = resolve_display_mode(
        &Some("bogus".to_string()),
        &Some(DisplayMode::Picture),
        &DisplayMode::Text,
    );
    assert_eq!(got, DisplayMode::Picture);
}

#[test]
fn resolver_is_case_sensitive() {
    let got = resolve_display_mode(&Some("Picture".to_string()), &None, &DisplayMode::Text);
    assert_eq!(got, DisplayMode::Text);
}

#[test]
fn source_mode_falls_back_to_global() {
    assert_eq!(resolve_source_mode(&None, &SourceMode::Command), SourceMode::Command);
    assert_eq!(
        resolve_source_mode(&Some(SourceMode::Dynamic), &SourceMode::Command),
        SourceMode::Dynamic
    );
}

fn two_mode_config() -> Config {
    Config {
        display: DisplayMode::Text,
        source: SourceMode::Config,
        categories: vec![
            ("A".to_string(), category(Some(DisplayMode::Text), None, &[("a1", "x")])),
            ("B".to_string(), category(Some(DisplayMode::Picture), None, &[("b1", "y")])),
        ],
    }
}

#[test]
fn unfiltered_resolution_keeps_global_mode_categories() {
    let items = resolve_items(&two_mode_config(), &None, &None, &no_shell());
    assert_eq!(items.len(), 1);
    assert_eq!(items[0].category, "A");
    assert_eq!(items[0].title, "a1");
    assert_eq!(items[0].value, "x");
}

#[test]
fn display_argument_includes_every_category() {
    let items = resolve_items(&two_mode_config(), &None, &Some("picture".to_string()), &no_shell());
    let cats: Vec<&str> = items.iter().map(|i| i.category.as_str()).collect();
    assert_eq!(cats, vec!["A", "B"]);
    assert!(items.iter().all(|i| i.display == DisplayMode::Picture));
}

#[test]
fn bogus_display_argument_still_includes_every_category() {
    let items = resolve_items(&two_mode_config(), &None, &Some("bogus".to_string()), &no_shell());
    assert_eq!(items.len(), 2);
    assert_eq!(items[1].display, DisplayMode::Picture);
}

#[test]
fn category_filter_selects_one_category() {
    let items = resolve_items(&two_mode_config(), &Some("B".to_string()), &None, &no_shell());
    assert_eq!(items.len(), 1);
    assert_eq!(items[0].category, "B");
    assert_eq!(items[0].display, DisplayMode::Picture);
    let none = resolve_items(&two_mode_config(), &Some("missing".to_string()), &None, &no_shell());
    assert!(none.is_empty());
}

fn command_config(entries: &[(&str, &str)]) -> Config {
    Config {
        display: DisplayMode::Text,
        source: SourceMode::Command,
        categories: vec![("cmds".to_string(), category(None, None, entries))],
    }
}

#[test]
fn command_fan_out_numbers_lines() {
    let shell = FakeShell {
        replies: vec![("three".to_string(), Ok("one\n  two  \n\nthree\n".to_string()))],
    };
    let items = resolve_items(&command_config(&[("k", "three")]), &None, &None, &shell);
    assert_eq!(titles(&items), vec!["k [1]", "k [2]", "k [3]"]);
    let values: Vec<&str> = items.iter().map(|i| i.value.as_str()).collect();
    assert_eq!(values, vec!["one", "two", "three"]);
    assert!(items.iter().all(|i| i.source == SourceMode::Command));
}

#[test]
fn command_single_line_keeps_key() {
    let shell = FakeShell { replies: vec![("one".to_string(), Ok("only\n".to_string()))] };
    let items = resolve_items(&command_config(&[("k", "one")]), &None, &None, &shell);
    assert_eq!(titles(&items), vec!["k"]);
    assert_eq!(items[0].value, "only");
}

#[test]
fn command_numbering_reaches_two_digits() {
    let out: String = (1..=12).map(|i| format!("line{}\n", i)).collect();
    let items = entry_items("k", "cmd", "c", DisplayMode::Text, SourceMode::Command, &Some(out));
    assert_eq!(items.len(), 12);
    assert_eq!(items[11].title, "k [12]");
    assert_eq!(items[9].value, "line10");
}

#[test]
fn failing_command_is_isolated() {
    let shell = FakeShell {
        replies: vec![
            ("bad".to_string(), Err(ExecutionError::CommandFailed("boom".to_string()))),
            ("good".to_string(), Ok("fine\n".to_string())),
        ],
    };
    let items = resolve_items(&command_config(&[("a", "bad"), ("b", "good")]), &None, &None, &shell);
    assert_eq!(titles(&items), vec!["b"]);
    assert_eq!(items[0].value, "fine");
}

#[test]
fn dynamic_category_parses_listing() {
    let config = Config {
        display: DisplayMode::Text,
        source: SourceMode::Config,
        categories: vec![(
            "dyn".to_string(),
            category(None, Some(SourceMode::Dynamic), &[("list", "preview {}")]),
        )],
    };
    let shell = FakeShell {
        replies: vec![("list".to_string(), Ok("abc\tHello World\nno-tab-here\n".to_string()))],
    };
    let items = resolve_items(&config, &None, &None, &shell);
    assert_eq!(items.len(), 2);
    assert_eq!(items[0].value, "abc");
    assert_eq!(items[0].title, "Hello World");
    assert_eq!(items[1].value, "no-tab-here");
    assert_eq!(items[1].title, "no-tab-here");
    assert_eq!(items[0].source, SourceMode::Dynamic);
    assert_eq!(items[0].display, DisplayMode::Text);
    assert_eq!(items[0].category, "dyn");
}

#[test]
fn outcomes_given_directly() {
    let config = command_config(&[("a", "x"), ("b", "y")]);
    let outcomes = vec![vec![Some("p\nq".to_string()), None]];
    let items = resolve_items_from(&config, &None, &None, &outcomes);
    assert_eq!(titles(&items), vec!["a [1]", "a [2]"]);
}

#[test]
fn parse_reads_modes_and_categories() {
    let text = "display = \"picture\"\nsource = \"command\"\n\n[pics]\ndisplay = \"text\"\nsource = \"config\"\nhome = \"~/Pictures\"\n\n[links]\nsite = \"https://example.org\"\n";
    let config = Config::parse(text).unwrap();
    assert_eq!(config.display, DisplayMode::Picture);
    assert_eq!(config.source, SourceMode::Command);
    assert_eq!(config.categories.len(), 2);
    let (name, pics) = config.categories.iter().find(|(n, _)| n == "pics").unwrap();
    assert_eq!(name, "pics");
    assert_eq!(pics.display, Some(DisplayMode::Text));
    assert_eq!(pics.source, Some(SourceMode::Config));
    assert_eq!(pics.entries, vec![("home".to_string(), "~/Pictures".to_string())]);
    let (_, links) = config.categories.iter().find(|(n, _)| n == "links").unwrap();
    assert_eq!(links.display, None);
    assert_eq!(links.entries.len(), 1);
}

#[test]
fn parse_defaults_global_modes() {
    let config = Config::parse("[a]\nk = \"v\"\n").unwrap();
    assert_eq!(config.display, DisplayMode::Text);
    assert_eq!(config.source, SourceMode::Config);
}

#[test]
fn parse_rejects_malformed_documents() {
    let cases = [
        "this is = = not toml",
        "display = \"Picture\"\n",
        "display = 3\n",
        "source = \"shell\"\n",
        "loose = \"value\"\n",
        "[a]\nk = 1\n",
        "[a]\ndisplay = \"big\"\n",
        "[a]\n[a.b]\nk = \"v\"\n",
    ];
    for text in cases.iter() {
        assert_eq!(Config::parse(text).err(), Some(ParseError::Malformed), "{}", text);
    }
}

#[test]
fn document_with_repeated_key_is_malformed() {
    let doc = vec![
        ("display".to_string(), RawValue::Text("text".to_string())),
        ("display".to_string(), RawValue::Text("picture".to_string())),
    ];
    assert_eq!(Config::from_document(&doc).err(), Some(ParseError::Malformed));
    let doc2 = vec![(
        "c".to_string(),
        RawValue::Table(vec![
            ("source".to_string(), RawField::Text("command".to_string())),
            ("source".to_string(), RawField::Text("config".to_string())),
        ]),
    )];
    assert_eq!(Config::from_document(&doc2).err(), Some(ParseError::Malformed));
}

#[test]
fn document_keeps_entry_order() {
    let doc = vec![(
        "c".to_string(),
        RawValue::Table(vec![
            ("z".to_string(), RawField::Text("1".to_string())),
            ("a".to_string(), RawField::Text("2".to_string())),
        ]),
    )];
    let config = Config::from_document(&doc).unwrap();
    assert_eq!(
        config.categories[0].1.entries,
        vec![("z".to_string(), "1".to_string()), ("a".to_string(), "2".to_string())]
    );
}

#[test]
fn window_mode_follows_filtered_category() {
    let config = Some(two_mode_config());
    assert_eq!(get_config_display_mode(&config, &Some("B".to_string()), &None), DisplayMode::Picture);
    assert_eq!(get_config_display_mode(&config, &Some("A".to_string()), &None), DisplayMode::Text);
    assert_eq!(get_config_display_mode(&config, &Some("zz".to_string()), &None), DisplayMode::Text);
    assert_eq!(
        get_config_display_mode(&config, &Some("B".to_string()), &Some("text".to_string())),
        DisplayMode::Text
    );
    assert_eq!(get_config_display_mode(&None, &None, &Some("picture".to_string())), DisplayMode::Picture);
    assert_eq!(get_config_display_mode(&None, &None, &None), DisplayMode::Text);
}
