//! The item value object and its builder.

use vstd::prelude::*;
use crate::modes::{DisplayMode, SourceMode};

verus! {

/// One selectable entry: what the list shows (`title`) and what a selection emits (`value`).
#[derive(Debug, Clone)]
pub struct Item {
    pub title: String,
    pub value: String,
    pub category: String,
    pub display: DisplayMode,
    pub source: SourceMode,
}

/// An item as plain values.
pub struct ItemView {
    pub title: Seq<char>,
    pub value: Seq<char>,
    pub category: Seq<char>,
    pub display: DisplayMode,
    pub source: SourceMode,
}

impl View for Item {
    type V = ItemView;

    open spec fn view(&self) -> ItemView {
        ItemView {
            title: self.title@,
            value: self.value@,
            category: self.category@,
            display: self.display,
            source: self.source,
        }
    }
}

/// The views of a sequence of items.
pub open spec fn item_views(s: Seq<Item>) -> Seq<ItemView> {
    s.map_values(|i: Item| i@)
}

impl Item {
    /// A builder whose fields are all unset.
    pub fn builder() -> (r: ItemBuilder)
        ensures
            r.is_empty(),
    {
        ItemBuilder::new()
    }

    /// Whether the item is shown as a picture.
    pub fn is_picture_mode(&self) -> (r: bool)
        ensures
            r == (self.display == DisplayMode::Picture),
    {
        match self.display {
            DisplayMode::Picture => true,
            DisplayMode::Text => false,
        }
    }

    /// The text shown for the item's content: its value.
    pub fn display_text(&self) -> (r: String)
        ensures
            r@ == self.value@,
    {
        self.value.clone()
    }

    /// A field-by-field copy.
    pub(crate) fn duplicate(&self) -> (r: Item)
        ensures
            r@ == self@,
    {
        Item {
            title: self.title.clone(),
            value: self.value.clone(),
            category: self.category.clone(),
            display: self.display,
            source: self.source,
        }
    }
}

impl PartialEq for Item {
    fn eq(&self, other: &Item) -> (r: bool) {
        self.title == other.title && self.value == other.value && self.category == other.category
            && self.display == other.display && self.source == other.source
    }
}

impl vstd::std_specs::cmp::PartialEqSpecImpl for Item {
    open spec fn obeys_eq_spec() -> bool {
        true
    }

    open spec fn eq_spec(&self, other: &Item) -> bool {
        self@ == other@
    }
}

/// Builds an [`Item`] field by field; unset text fields are empty, the display
/// mode defaults to text and the source mode to config.
pub struct ItemBuilder {
    pub title: Option<String>,
    pub value: Option<String>,
    pub category: Option<String>,
    pub display: Option<DisplayMode>,
    pub source: Option<SourceMode>,
}

/// The text of an optional string, empty when unset.
pub open spec fn text_or_empty(o: Option<String>) -> Seq<char> {
    match o {
        Some(s) => s@,
        None => Seq::empty(),
    }
}

fn take_or_empty(o: Option<String>) -> (r: String)
    ensures
        r@ == text_or_empty(o),
{
    match o {
        Some(s) => s,
        None => String::new(),
    }
}

impl ItemBuilder {
    /// Whether no field has been set.
    pub open spec fn is_empty(&self) -> bool {
        &&& self.title is None
        &&& self.value is None
        &&& self.category is None
        &&& self.display is None
        &&& self.source is None
    }

    /// The item that [`ItemBuilder::build`] returns.
    pub open spec fn built(&self) -> ItemView {
        ItemView {
            title: text_or_empty(self.title),
            value: text_or_empty(self.value),
            category: text_or_empty(self.category),
            display: match self.display {
                Some(d) => d,
                None => DisplayMode::Text,
            },
            source: match self.source {
                Some(s) => s,
                None => SourceMode::Config,
            },
        }
    }

    pub fn new() -> (r: Self)
        ensures
            r.is_empty(),
    {
        ItemBuilder { title: None, value: None, category: None, display: None, source: None }
    }

    pub fn title(self, title: String) -> (r: Self)
        ensures
            r == (ItemBuilder { title: Some(title), ..self }),
    {
        ItemBuilder { title: Some(title), ..self }
    }

    pub fn value(self, value: String) -> (r: Self)
        ensures
            r == (ItemBuilder { value: Some(value), ..self }),
    {
        ItemBuilder { value: Some(value), ..self }
    }

    pub fn category(self, category: String) -> (r: Self)
        ensures
            r == (ItemBuilder { category: Some(category), ..self }),
    {
        ItemBuilder { category: Some(category), ..self }
    }

    pub fn display(self, display: DisplayMode) -> (r: Self)
        ensures
            r == (ItemBuilder { display: Some(display), ..self }),
    {
        ItemBuilder { display: Some(display), ..self }
    }

    pub fn source(self, source: SourceMode) -> (r: Self)
        ensures
            r == (ItemBuilder { source: Some(source), ..self }),
    {
        ItemBuilder { source: Some(source), ..self }
    }

    pub fn build(self) -> (r: Item)
        ensures
            r@ == self.built(),
    {
        let display = match self.display {
            Some(d) => d,
            None => DisplayMode::Text,
        };
        let source = match self.source {
            Some(s) => s,
            None => SourceMode::Config,
        };
        Item {
            title: take_or_empty(self.title),
            value: take_or_empty(self.value),
            category: take_or_empty(self.category),
            display,
            source,
        }
    }
}

} // verus!
