//! Loading the items of a configuration through pluggable loaders and executors.

use vstd::prelude::*;
use crate::config::ConfigView;
use crate::item::{item_views, Item};
use crate::pipeline::{
    outcomes_fit, resolve_items, resolved_items, ConfigError, ConfigLoaderTrait, ExecutionError,
    ExecutorTrait,
};
use crate::text::text_opt;

verus! {

/// What to load: the configuration file, an optional category and an
/// optional display mode argument.
pub struct LoadConfig {
    pub category_filter: Option<String>,
    pub display_arg: Option<String>,
    pub config_path: String,
}

/// Why loading failed.
#[derive(Debug)]
pub enum LoadError {
    ConfigError(ConfigError),
    ExecutionError(ExecutionError),
    ProcessingError(String),
}

/// Loads configurations with `L` and runs their commands with `E`.
pub struct ItemLoader<L: ConfigLoaderTrait, E: ExecutorTrait> {
    pub config_loader: L,
    pub executor: E,
}

impl<L: ConfigLoaderTrait, E: ExecutorTrait> ItemLoader<L, E> {
    pub fn new(config_loader: L, executor: E) -> (r: Self)
        ensures
            r.config_loader == config_loader,
            r.executor == executor,
    {
        ItemLoader { config_loader, executor }
    }

    /// Loads the configuration at `request.config_path` and resolves its
    /// items, before picture expansion. Fails only when the configuration
    /// cannot be loaded; failing commands drop their entries.
    pub fn load_from_config(&self, request: &LoadConfig) -> (r: Result<Vec<Item>, LoadError>)
        ensures
            r is Err ==> r->Err_0 is ConfigError,
            r is Ok ==> exists|c: ConfigView, o: Seq<Seq<Option<Seq<char>>>>|
                outcomes_fit(c, o) && item_views(r->Ok_0@) == resolved_items(
                    c,
                    text_opt(request.category_filter),
                    text_opt(request.display_arg),
                    o,
                ),
    {
        match self.config_loader.load(request.config_path.as_str()) {
            Err(e) => Err(LoadError::ConfigError(e)),
            Ok(config) => {
                let items = resolve_items(
                    &config,
                    &request.category_filter,
                    &request.display_arg,
                    &self.executor,
                );
                Ok(items)
            },
        }
    }
}

} // verus!
