use pantry::config::{Category, Config, ParseError};
use pantry::loader::{ItemLoader, LoadConfig, LoadError};
use pantry::modes::{DisplayMode, SourceMode};
use pantry::item::Item;
use pantry::pipeline::{
    command_plan, command_result, resolve_items, ConfigError, ConfigLoaderTrait, ExecutionError,
    ExecutorTrait,
};
use pantry::processor::ItemProcessor;

struct Echo;

impl ExecutorTrait for Echo {
    fn execute(&self, command: &str) -> Result<String, ExecutionError> {
        if command == "fail" {
            Err(ExecutionError::CommandFailed("no".to_string()))
        } else {
            Ok(format!("{}\n", command))
        }
    }

    fn execute_lossy(&self, command: &str) -> Result<String, ExecutionError> {
        Ok(format!("id-{}\tshown {}\n", command, command))
    }
}

struct TextLoader {
    text: String,
}

impl ConfigLoaderTrait for TextLoader {
    fn load(&self, path: &str) -> Result<Config, ConfigError> {
        if path != "cfg" {
            return Err(ConfigError::NotFound);
        }
        Config::parse(&self.text).map_err(ConfigError::ParseError)
    }
}

fn mixed_config() -> Config {
    let cat = |display: Option<DisplayMode>, source: Option<SourceMode>, k: &str, v: &str| Category {
        display,
        source,
        entries: vec![(k.to_string(), v.to_string())],
    };
    Config {
        display: DisplayMode::Text,
        source: SourceMode::Config,
        categories: vec![
            ("static".to_string(), cat(None, None, "k", "v")),
            ("cmd".to_string(), cat(None, Some(SourceMode::Command), "c", "run-me")),
            ("dyn".to_string(), cat(None, Some(SourceMode::Dynamic), "lister", "preview")),
            ("pics".to_string(), cat(Some(DisplayMode::Picture), Some(SourceMode::Command), "p", "skipped")),
        ],
    }
}

#[test]
fn plan_lists_calls_of_included_command_entries() {
    let plan = command_plan(&mixed_config(), &None, &None);
    assert_eq!(plan.len(), 4);
    assert!(plan[0][0].is_none());
    let cmd = plan[1][0].as_ref().unwrap();
    assert_eq!(cmd.command, "run-me");
    assert!(!cmd.lossy);
    let dynamic = plan[2][0].as_ref().unwrap();
    assert_eq!(dynamic.command, "lister");
    assert!(dynamic.lossy);
    assert!(plan[3][0].is_none());
}

#[test]
fn loader_resolves_through_executor() {
    let text = "[a]\nsource = \"command\"\nx = \"hello\"\ny = \"fail\"\n[b]\nq = \"plain\"\n".to_string();
    let loader = ItemLoader::new(TextLoader { text }, Echo);
    let request = LoadConfig {
        category_filter: None,
        display_arg: None,
        config_path: "cfg".to_string(),
    };
    let items = loader.load_from_config(&request).unwrap();
    let pairs: Vec<(String, String)> = items.iter().map(|i| (i.title.clone(), i.value.clone())).collect();
    assert_eq!(
        pairs,
        vec![
            ("x".to_string(), "hello".to_string()),
            ("q".to_string(), "plain".to_string()),
        ]
    );
}

#[test]
fn loader_reports_config_errors() {
    let loader = ItemLoader::new(TextLoader { text: "[a]\nk = 1\n".to_string() }, Echo);
    let request = LoadConfig {
        category_filter: None,
        display_arg: None,
        config_path: "cfg".to_string(),
    };
    match loader.load_from_config(&request) {
        Err(LoadError::ConfigError(ConfigError::ParseError(ParseError::Malformed))) => {}
        other => panic!("unexpected: {:?}", other.map(|v| v.len())),
    }
    let missing = LoadConfig { config_path: "elsewhere".to_string(), ..request };
    assert!(matches!(
        loader.load_from_config(&missing),
        Err(LoadError::ConfigError(ConfigError::NotFound))
    ));
}

#[test]
fn dynamic_source_uses_dynamic_category() {
    let items = ItemProcessor::process_dynamic_source(&Echo, "ls", "cat {}").unwrap();
    assert_eq!(items.len(), 1);
    assert_eq!(items[0].value, "id-ls");
    assert_eq!(items[0].title, "shown ls");
    assert_eq!(items[0].category, "dynamic");
}

struct Scripted {
    replies: Vec<(&'static str, Result<String, ExecutionError>)>,
}

impl ExecutorTrait for Scripted {
    fn execute(&self, command: &str) -> Result<String, ExecutionError> {
        for (c, r) in &self.replies {
            if *c == command {
                return r.clone();
            }
        }
        Err(ExecutionError::Unavailable)
    }

    fn execute_lossy(&self, command: &str) -> Result<String, ExecutionError> {
        self.execute(command)
    }
}

fn command_category(entries: &[(&str, &str)]) -> Config {
    Config {
        display: DisplayMode::Text,
        source: SourceMode::Config,
        categories: vec![(
            "c".to_string(),
            Category {
                display: None,
                source: Some(SourceMode::Command),
                entries: entries.iter().map(|(k, v)| (k.to_string(), v.to_string())).collect(),
            },
        )],
    }
}

fn command_item(title: &str, value: &str) -> Item {
    Item {
        title: title.to_string(),
        value: value.to_string(),
        category: "c".to_string(),
        display: DisplayMode::Text,
        source: SourceMode::Command,
    }
}

#[test]
fn filtered_command_fans_out_three_lines() {
    let shell = Scripted { replies: vec![("cmd", Ok("l1\nl2\nl3\n".to_string()))] };
    let items = resolve_items(&command_category(&[("k", "cmd")]), &Some("c".to_string()), &None, &shell);
    assert_eq!(
        items,
        vec![command_item("k [1]", "l1"), command_item("k [2]", "l2"), command_item("k [3]", "l3")]
    );
}

#[test]
fn filtered_command_single_line() {
    let shell = Scripted { replies: vec![("cmd", Ok("only\n".to_string()))] };
    let items = resolve_items(&command_category(&[("k", "cmd")]), &Some("c".to_string()), &None, &shell);
    assert_eq!(items, vec![command_item("k", "only")]);
}

#[test]
fn filtered_failing_sibling_is_dropped() {
    let shell = Scripted {
        replies: vec![
            ("cmd1", Err(ExecutionError::CommandFailed("err".to_string()))),
            ("cmd2", Ok("x\n".to_string())),
        ],
    };
    let config = command_category(&[("bad", "cmd1"), ("good", "cmd2")]);
    let items = resolve_items(&config, &Some("c".to_string()), &None, &shell);
    assert_eq!(items, vec![command_item("good", "x")]);
}

#[test]
fn dynamic_source_strips_embedded_nul() {
    let shell = Scripted { replies: vec![("list", Ok("a\0b\tHel\0lo".to_string()))] };
    let items = ItemProcessor::process_dynamic_source(&shell, "list", "show {}").unwrap();
    assert_eq!(
        items,
        vec![Item {
            title: "Hello".to_string(),
            value: "ab".to_string(),
            category: "dynamic".to_string(),
            display: DisplayMode::Text,
            source: SourceMode::Dynamic,
        }]
    );
}

#[test]
fn command_results_are_classified() {
    assert_eq!(
        command_result(false, Some("out".to_string()), "boom".to_string()),
        Err(ExecutionError::CommandFailed("boom".to_string()))
    );
    assert_eq!(command_result(true, Some("out".to_string()), String::new()), Ok("out".to_string()));
    assert_eq!(command_result(true, None, String::new()), Err(ExecutionError::InvalidOutput));
}
