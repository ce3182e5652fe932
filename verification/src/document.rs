//! The chain file: a YAML document that lists the plugins of a chain.
use serde_yaml::Value;
use vstd::prelude::*;

use crate::config;
use crate::config::{add_params_from_str, parse_plugin_setting, ParamError, ParamFault};
use crate::plugin;
use crate::plugin::{insert_param, PluginSetting, SettingView};
use crate::yaml;
use crate::yaml::{as_entries, as_items, as_number, as_text, get, parse_document};

verus! {

/// What a `ParamSource` holds.
pub enum SourceView {
    Text(Seq<char>),
    List(Seq<Option<Seq<char>>>),
    Table(Seq<(Option<Seq<char>>, Option<u64>)>),
    Other,
}

/// What stands under the name of a plugin.
pub enum ParamSource {
    /// One text of parameters.
    Text(String),
    /// A list; an item that is no text is `None`.
    List(Vec<Option<String>>),
    /// A table from names to numbers, each the bit pattern of an IEEE 754 double; a name that
    /// is no text and a value that is no number are `None`.
    Table(Vec<(Option<String>, Option<u64>)>),
    /// Anything else.
    Other,
}

/// What a `ChainEntry` holds.
pub enum EntryView {
    Text(Seq<char>),
    Table(Seq<(Option<Seq<char>>, SourceView)>),
    Other,
}

/// An item of the list of plugins.
pub enum ChainEntry {
    /// A plugin text.
    Text(String),
    /// A table from plugin names to parameters; a name that is no text is `None`.
    Table(Vec<(Option<String>, ParamSource)>),
    /// Anything else.
    Other,
}

/// What a `ChainDocument` holds.
pub enum DocumentView {
    Entries(Seq<EntryView>),
    PluginsNotAList,
    NotAChain,
}

/// A chain file, as far as it says something about a chain.
pub enum ChainDocument {
    /// The list of plugins.
    Entries(Vec<ChainEntry>),
    /// There is a key `plugins`, but what stands under it is no list.
    PluginsNotAList,
    /// Neither a list nor a table with a key `plugins`.
    NotAChain,
}

/// The characters of a text that may be missing.
pub open spec fn option_view(s: Option<String>) -> Option<Seq<char>> {
    match s {
        Some(s) => Some(s@),
        None => None,
    }
}

impl View for ParamSource {
    type V = SourceView;

    open spec fn view(&self) -> SourceView {
        match self {
            ParamSource::Text(s) => SourceView::Text(s@),
            ParamSource::List(list) => SourceView::List(
                list@.map_values(|s: Option<String>| option_view(s)),
            ),
            ParamSource::Table(table) => SourceView::Table(
                table@.map_values(
                    |entry: (Option<String>, Option<u64>)| (option_view(entry.0), entry.1),
                ),
            ),
            ParamSource::Other => SourceView::Other,
        }
    }
}

impl View for ChainEntry {
    type V = EntryView;

    open spec fn view(&self) -> EntryView {
        match self {
            ChainEntry::Text(s) => EntryView::Text(s@),
            ChainEntry::Table(table) => EntryView::Table(
                table@.map_values(
                    |entry: (Option<String>, ParamSource)| (option_view(entry.0), entry.1@),
                ),
            ),
            ChainEntry::Other => EntryView::Other,
        }
    }
}

impl View for ChainDocument {
    type V = DocumentView;

    open spec fn view(&self) -> DocumentView {
        match self {
            ChainDocument::Entries(list) => DocumentView::Entries(
                list@.map_values(|entry: ChainEntry| entry@),
            ),
            ChainDocument::PluginsNotAList => DocumentView::PluginsNotAList,
            ChainDocument::NotAChain => DocumentView::NotAChain,
        }
    }
}

/// What a YAML value under the name of a plugin says.
pub open spec fn source_in(t: yaml::Tree) -> SourceView {
    if let Some(s) = yaml::text_in(t) {
        SourceView::Text(s)
    } else if let Some(items) = yaml::items_in(t) {
        SourceView::List(items.map_values(|item: yaml::Tree| yaml::text_in(item)))
    } else if let Some(entries) = yaml::entries_in(t) {
        SourceView::Table(
            entries.map_values(
                |entry: (yaml::Tree, yaml::Tree)|
                    (yaml::text_in(entry.0), yaml::number_in(entry.1)),
            ),
        )
    } else {
        SourceView::Other
    }
}

/// What an item of the list of plugins says.
pub open spec fn entry_in(t: yaml::Tree) -> EntryView {
    if let Some(s) = yaml::text_in(t) {
        EntryView::Text(s)
    } else if let Some(entries) = yaml::entries_in(t) {
        EntryView::Table(
            entries.map_values(
                |entry: (yaml::Tree, yaml::Tree)| (yaml::text_in(entry.0), source_in(entry.1)),
            ),
        )
    } else {
        EntryView::Other
    }
}

/// What a YAML document says about a chain: the list of plugins stands under the key
/// `plugins`, or is the whole document.
pub open spec fn chain_in(t: yaml::Tree) -> DocumentView {
    if let Some(plugins) = yaml::value_at(t, "plugins"@) {
        match yaml::items_in(plugins) {
            Some(items) => DocumentView::Entries(
                items.map_values(|item: yaml::Tree| entry_in(item)),
            ),
            None => DocumentView::PluginsNotAList,
        }
    } else if let Some(items) = yaml::items_in(t) {
        DocumentView::Entries(items.map_values(|item: yaml::Tree| entry_in(item)))
    } else {
        DocumentView::NotAChain
    }
}

/// Takes out of a YAML value what it says as parameters.
pub fn read_source(value: &Value) -> (source: ParamSource)
    ensures
        source@ == source_in(yaml::contents(*value)),
{
    if let Some(s) = as_text(value) {
        return ParamSource::Text(s);
    }
    if let Some(items) = as_items(value) {
        let mut list: Vec<Option<String>> = Vec::new();
        for i in 0..items.len()
            invariant
                list@.len() == i,
                forall|j: int|
                    0 <= j < i ==> option_view(#[trigger] list@[j]) == yaml::text_in(
                        yaml::contents(*items@[j]),
                    ),
        {
            list.push(as_text(items[i]));
        }
        let source = ParamSource::List(list);
        assert(source@->List_0 =~= source_in(yaml::contents(*value))->List_0);
        return source;
    }
    if let Some(entries) = as_entries(value) {
        let mut table: Vec<(Option<String>, Option<u64>)> = Vec::new();
        for i in 0..entries.len()
            invariant
                table@.len() == i,
                forall|j: int|
                    0 <= j < i ==> option_view((#[trigger] table@[j]).0) == yaml::text_in(
                        yaml::contents(*entries@[j].0),
                    ) && table@[j].1 == yaml::number_in(yaml::contents(*entries@[j].1)),
        {
            table.push((as_text(entries[i].0), as_number(entries[i].1)));
        }
        let source = ParamSource::Table(table);
        assert(source@->Table_0 =~= source_in(yaml::contents(*value))->Table_0);
        return source;
    }
    ParamSource::Other
}

/// Takes out of a YAML value what it says as an item of the list of plugins.
pub fn read_entry(value: &Value) -> (entry: ChainEntry)
    ensures
        entry@ == entry_in(yaml::contents(*value)),
{
    if let Some(s) = as_text(value) {
        return ChainEntry::Text(s);
    }
    if let Some(entries) = as_entries(value) {
        let mut table: Vec<(Option<String>, ParamSource)> = Vec::new();
        for i in 0..entries.len()
            invariant
                table@.len() == i,
                forall|j: int|
                    0 <= j < i ==> option_view((#[trigger] table@[j]).0) == yaml::text_in(
                        yaml::contents(*entries@[j].0),
                    ) && table@[j].1@ == source_in(yaml::contents(*entries@[j].1)),
        {
            table.push((as_text(entries[i].0), read_source(entries[i].1)));
        }
        let entry = ChainEntry::Table(table);
        assert(entry@->Table_0 =~= entry_in(yaml::contents(*value))->Table_0);
        return entry;
    }
    ChainEntry::Other
}

/// Takes out of YAML values what they say as items of the list of plugins.
fn read_entries(items: &Vec<&Value>) -> (list: Vec<ChainEntry>)
    ensures
        list@.map_values(|entry: ChainEntry| entry@) == items@.map_values(
            |item: &Value| entry_in(yaml::contents(*item)),
        ),
{
    let mut list: Vec<ChainEntry> = Vec::new();
    for i in 0..items.len()
        invariant
            list@.len() == i,
            forall|j: int|
                0 <= j < i ==> (#[trigger] list@[j])@ == entry_in(yaml::contents(*items@[j])),
    {
        list.push(read_entry(items[i]));
    }
    assert(list@.map_values(|entry: ChainEntry| entry@) =~= items@.map_values(
        |item: &Value| entry_in(yaml::contents(*item)),
    ));
    list
}

/// Takes out of a YAML document what it says about a chain.
pub fn read_chain(value: &Value) -> (doc: ChainDocument)
    ensures
        doc@ == chain_in(yaml::contents(*value)),
{
    if let Some(plugins) = get(value, "plugins") {
        match as_items(plugins) {
            Some(items) => {
                let doc = ChainDocument::Entries(read_entries(&items));
                assert(doc@->Entries_0 =~= chain_in(yaml::contents(*value))->Entries_0);
                doc
            },
            None => ChainDocument::PluginsNotAList,
        }
    } else {
        match as_items(value) {
            Some(items) => {
                let doc = ChainDocument::Entries(read_entries(&items));
                assert(doc@->Entries_0 =~= chain_in(yaml::contents(*value))->Entries_0);
                doc
            },
            None => ChainDocument::NotAChain,
        }
    }
}

/// What a `ConfigError` holds.
pub enum ChainFault {
    NotYaml(Seq<char>),
    PluginsNotAList,
    NotAChain,
    Setting(Seq<char>),
    NameNotText,
    Param(ParamFault),
    ParamNameNotText,
    NotANumber(Seq<char>),
}

/// Why a chain file gives no chain.
#[derive(Debug)]
pub enum ConfigError {
    /// The file is no YAML document, for this reason.
    NotYaml(String),
    /// There is a key `plugins`, but what stands under it is no list.
    PluginsNotAList,
    /// Neither a list nor a table with a key `plugins`.
    NotAChain,
    /// A plugin text is wrong, for this reason.
    Setting(String),
    /// The name of a plugin is no text.
    NameNotText,
    /// A parameter is wrong.
    Param(ParamError),
    /// The name of a parameter is no text.
    ParamNameNotText,
    /// The value of the parameter of this name is no number.
    NotANumber(String),
}

impl View for ConfigError {
    type V = ChainFault;

    open spec fn view(&self) -> ChainFault {
        match self {
            ConfigError::NotYaml(reason) => ChainFault::NotYaml(reason@),
            ConfigError::PluginsNotAList => ChainFault::PluginsNotAList,
            ConfigError::NotAChain => ChainFault::NotAChain,
            ConfigError::Setting(reason) => ChainFault::Setting(reason@),
            ConfigError::NameNotText => ChainFault::NameNotText,
            ConfigError::Param(e) => ChainFault::Param(e@),
            ConfigError::ParamNameNotText => ChainFault::ParamNameNotText,
            ConfigError::NotANumber(name) => ChainFault::NotANumber(name@),
        }
    }
}

/// The message for a fault.
pub open spec fn chain_fault_text(fault: ChainFault) -> Seq<char> {
    match fault {
        ChainFault::NotYaml(reason) => reason,
        ChainFault::PluginsNotAList => "'plugins' must be a list"@,
        ChainFault::NotAChain => "YAML must be a list of plugins or contain a 'plugins' key"@,
        ChainFault::Setting(reason) => reason,
        ChainFault::NameNotText => "Plugin name must be a string"@,
        ChainFault::Param(fault) => config::fault_text(fault),
        ChainFault::ParamNameNotText => "Param name must be a string"@,
        ChainFault::NotANumber(name) => "Param value for '"@ + name + "' must be a number"@,
    }
}

impl ConfigError {
    /// The message for the user.
    pub fn message(&self) -> (text: String)
        ensures
            text@ == chain_fault_text(self@),
            self matches ConfigError::NotYaml(reason) ==> text@ == reason@,
            self is PluginsNotAList ==> text@ == "'plugins' must be a list"@,
            self is NotAChain ==> text@
                == "YAML must be a list of plugins or contain a 'plugins' key"@,
            self matches ConfigError::Setting(reason) ==> text@ == reason@,
            self is NameNotText ==> text@ == "Plugin name must be a string"@,
            self matches ConfigError::Param(ParamError::NotAPair) ==> text@
                == "Expected key=value pair"@,
            self matches ConfigError::Param(ParamError::BadNumber(number)) ==> text@
                == "Invalid numeric value: "@ + number@,
            self matches ConfigError::Param(ParamError::NotFinite(name)) ==> text@
                == "Parameter '"@ + name@ + "' must be a finite number"@,
            self is ParamNameNotText ==> text@ == "Param name must be a string"@,
            self matches ConfigError::NotANumber(name) ==> text@ == "Param value for '"@ + name@
                + "' must be a number"@,
    {
        match self {
            ConfigError::NotYaml(reason) => reason.clone(),
            ConfigError::PluginsNotAList => "'plugins' must be a list".to_string(),
            ConfigError::NotAChain => {
                "YAML must be a list of plugins or contain a 'plugins' key".to_string()
            },
            ConfigError::Setting(reason) => reason.clone(),
            ConfigError::NameNotText => "Plugin name must be a string".to_string(),
            ConfigError::Param(e) => e.message(),
            ConfigError::ParamNameNotText => "Param name must be a string".to_string(),
            ConfigError::NotANumber(name) => {
                let mut text = String::new();
                text.append("Param value for '");
                text.append(name.as_str());
                text.append("' must be a number");
                assert(text@ =~= chain_fault_text(self@));
                text
            },
        }
    }
}

/// `narrow` can be asked about every number.
pub open spec fn narrows_any<G: Fn(u64) -> u32>(narrow: G) -> bool {
    forall|bits: u64| #[trigger] call_requires(narrow, (bits,))
}

/// `narrow` answers as the function `nar` of the bit pattern.
pub open spec fn narrows_as<G: Fn(u64) -> u32>(narrow: G, nar: spec_fn(u64) -> u32) -> bool {
    forall|bits: u64, narrowed: u32| #[trigger]
        call_ensures(narrow, (bits,), narrowed) ==> narrowed == nar(bits)
}

/// `number` answers as the function `num` of the text, and `narrow` as the function `nar` of
/// the bit pattern.
pub open spec fn answers<F: Fn(&str) -> Option<u32>, G: Fn(u64) -> u32>(
    number: F,
    narrow: G,
    num: spec_fn(Seq<char>) -> Option<u32>,
    nar: spec_fn(u64) -> u32,
) -> bool {
    &&& config::reads_as(number, num)
    &&& narrows_as(narrow, nar)
}

/// The parameters in a list of texts; items that are no texts are passed over.
pub open spec fn list_params(
    list: Seq<Option<Seq<char>>>,
    num: spec_fn(Seq<char>) -> Option<u32>,
) -> Result<Seq<(Seq<char>, u32)>, ChainFault>
    decreases list.len(),
{
    if list.len() == 0 {
        Ok(Seq::empty())
    } else {
        match list_params(list.drop_last(), num) {
            Err(fault) => Err(fault),
            Ok(params) => match list.last() {
                None => Ok(params),
                Some(s) => {
                    let (params, fault) = config::read_params(params, s, num);
                    match fault {
                        None => Ok(params),
                        Some(fault) => Err(ChainFault::Param(fault)),
                    }
                },
            },
        }
    }
}

/// The parameters in a table from names to numbers.
pub open spec fn table_params(
    table: Seq<(Option<Seq<char>>, Option<u64>)>,
    nar: spec_fn(u64) -> u32,
) -> Result<Seq<(Seq<char>, u32)>, ChainFault>
    decreases table.len(),
{
    if table.len() == 0 {
        Ok(Seq::empty())
    } else {
        match table_params(table.drop_last(), nar) {
            Err(fault) => Err(fault),
            Ok(params) => match table.last() {
                (None, _) => Err(ChainFault::ParamNameNotText),
                (Some(name), None) => Err(ChainFault::NotANumber(name)),
                (Some(name), Some(bits)) => if config::finite(nar(bits)) {
                    Ok(plugin::set_param(params, name, nar(bits)))
                } else {
                    Err(ChainFault::Param(ParamFault::NotFinite(name)))
                },
            },
        }
    }
}

/// The parameters that stand under the name of a plugin.
pub open spec fn source_params(
    source: SourceView,
    num: spec_fn(Seq<char>) -> Option<u32>,
    nar: spec_fn(u64) -> u32,
) -> Result<Seq<(Seq<char>, u32)>, ChainFault> {
    match source {
        SourceView::Text(s) => {
            let (params, fault) = config::read_params(Seq::empty(), s, num);
            match fault {
                None => Ok(params),
                Some(fault) => Err(ChainFault::Param(fault)),
            }
        },
        SourceView::List(list) => list_params(list, num),
        SourceView::Table(table) => table_params(table, nar),
        SourceView::Other => Ok(Seq::empty()),
    }
}

/// The settings in a table from plugin names to parameters, in its order.
pub open spec fn table_settings(
    table: Seq<(Option<Seq<char>>, SourceView)>,
    num: spec_fn(Seq<char>) -> Option<u32>,
    nar: spec_fn(u64) -> u32,
) -> Result<Seq<SettingView>, ChainFault>
    decreases table.len(),
{
    if table.len() == 0 {
        Ok(Seq::empty())
    } else {
        match table_settings(table.drop_last(), num, nar) {
            Err(fault) => Err(fault),
            Ok(settings) => match table.last().0 {
                None => Err(ChainFault::NameNotText),
                Some(identifier) => match source_params(table.last().1, num, nar) {
                    Err(fault) => Err(fault),
                    Ok(params) => Ok(settings.push(SettingView { identifier, params })),
                },
            },
        }
    }
}

/// The settings that an item of the list of plugins asks for.
pub open spec fn entry_settings(
    entry: EntryView,
    num: spec_fn(Seq<char>) -> Option<u32>,
    nar: spec_fn(u64) -> u32,
) -> Result<Seq<SettingView>, ChainFault> {
    match entry {
        EntryView::Text(s) => match config::plugin_setting(s, num) {
            Ok(setting) => Ok(seq![setting]),
            Err(reason) => Err(ChainFault::Setting(reason)),
        },
        EntryView::Table(table) => table_settings(table, num, nar),
        EntryView::Other => Ok(Seq::empty()),
    }
}

/// The settings that the items of the list ask for, in order; or the first fault.
pub open spec fn list_settings(
    entries: Seq<EntryView>,
    num: spec_fn(Seq<char>) -> Option<u32>,
    nar: spec_fn(u64) -> u32,
) -> Result<Seq<SettingView>, ChainFault>
    decreases entries.len(),
{
    if entries.len() == 0 {
        Ok(Seq::empty())
    } else {
        match list_settings(entries.drop_last(), num, nar) {
            Err(fault) => Err(fault),
            Ok(settings) => match entry_settings(entries.last(), num, nar) {
                Err(fault) => Err(fault),
                Ok(more) => Ok(settings + more),
            },
        }
    }
}

/// The chain that a chain file asks for.
pub open spec fn chain(
    doc: DocumentView,
    num: spec_fn(Seq<char>) -> Option<u32>,
    nar: spec_fn(u64) -> u32,
) -> Result<Seq<SettingView>, ChainFault> {
    match doc {
        DocumentView::Entries(entries) => list_settings(entries, num, nar),
        DocumentView::PluginsNotAList => Err(ChainFault::PluginsNotAList),
        DocumentView::NotAChain => Err(ChainFault::NotAChain),
    }
}

/// What a chain holds.
pub open spec fn settings_view(settings: Seq<PluginSetting>) -> Seq<SettingView> {
    settings.map_values(|setting: PluginSetting| setting@)
}

/// What the result of reading a chain holds.
pub open spec fn chain_view(r: Result<Vec<PluginSetting>, ConfigError>) -> Result<
    Seq<SettingView>,
    ChainFault,
> {
    match r {
        Ok(settings) => Ok(settings_view(settings@)),
        Err(e) => Err(e@),
    }
}

/// What the result of reading parameters holds.
pub open spec fn params_result_view(r: Result<Vec<(String, u32)>, ConfigError>) -> Result<
    Seq<(Seq<char>, u32)>,
    ChainFault,
> {
    match r {
        Ok(params) => Ok(plugin::params_view(params@)),
        Err(e) => Err(e@),
    }
}

/// What stands behind an item at fault changes nothing.
proof fn lemma_list_params_fault(
    list: Seq<Option<Seq<char>>>,
    n: int,
    num: spec_fn(Seq<char>) -> Option<u32>,
)
    requires
        0 <= n <= list.len(),
        list_params(list.take(n), num) is Err,
    ensures
        list_params(list, num) == list_params(list.take(n), num),
    decreases list.len(),
{
    if n < list.len() {
        assert(list.drop_last().take(n) == list.take(n));
        lemma_list_params_fault(list.drop_last(), n, num);
    } else {
        assert(list.take(n) == list);
    }
}

/// What stands behind an entry at fault changes nothing.
proof fn lemma_table_params_fault(
    table: Seq<(Option<Seq<char>>, Option<u64>)>,
    n: int,
    nar: spec_fn(u64) -> u32,
)
    requires
        0 <= n <= table.len(),
        table_params(table.take(n), nar) is Err,
    ensures
        table_params(table, nar) == table_params(table.take(n), nar),
    decreases table.len(),
{
    if n < table.len() {
        assert(table.drop_last().take(n) == table.take(n));
        lemma_table_params_fault(table.drop_last(), n, nar);
    } else {
        assert(table.take(n) == table);
    }
}

/// What stands behind a plugin at fault changes nothing.
proof fn lemma_table_settings_fault(
    table: Seq<(Option<Seq<char>>, SourceView)>,
    n: int,
    num: spec_fn(Seq<char>) -> Option<u32>,
    nar: spec_fn(u64) -> u32,
)
    requires
        0 <= n <= table.len(),
        table_settings(table.take(n), num, nar) is Err,
    ensures
        table_settings(table, num, nar) == table_settings(table.take(n), num, nar),
    decreases table.len(),
{
    if n < table.len() {
        assert(table.drop_last().take(n) == table.take(n));
        lemma_table_settings_fault(table.drop_last(), n, num, nar);
    } else {
        assert(table.take(n) == table);
    }
}

/// What stands behind an item at fault changes nothing.
proof fn lemma_list_settings_fault(
    entries: Seq<EntryView>,
    n: int,
    num: spec_fn(Seq<char>) -> Option<u32>,
    nar: spec_fn(u64) -> u32,
)
    requires
        0 <= n <= entries.len(),
        list_settings(entries.take(n), num, nar) is Err,
    ensures
        list_settings(entries, num, nar) == list_settings(entries.take(n), num, nar),
    decreases entries.len(),
{
    if n < entries.len() {
        assert(entries.drop_last().take(n) == entries.take(n));
        lemma_list_settings_fault(entries.drop_last(), n, num, nar);
    } else {
        assert(entries.take(n) == entries);
    }
}

/// Reads the parameters in a list of texts.
fn parse_list<F: Fn(&str) -> Option<u32>>(list: &Vec<Option<String>>, number: &F) -> (r: Result<
    Vec<(String, u32)>,
    ConfigError,
>)
    requires
        config::reads_any(*number),
    ensures
        r matches Ok(params) ==> plugin::distinct(plugin::params_view(params@)),
        forall|num: spec_fn(Seq<char>) -> Option<u32>| #[trigger]
            config::reads_as(*number, num) ==> params_result_view(r) == list_params(
                list@.map_values(|s: Option<String>| option_view(s)),
                num,
            ),
{
    let mut params: Vec<(String, u32)> = Vec::new();
    let ghost model = list@.map_values(|s: Option<String>| option_view(s));
    assert(model.take(0) == Seq::<Option<Seq<char>>>::empty());
    assert(plugin::params_view(params@) =~= Seq::empty());
    for i in 0..list.len()
        invariant
            config::reads_any(*number),
            model == list@.map_values(|s: Option<String>| option_view(s)),
            plugin::distinct(plugin::params_view(params@)),
            forall|num: spec_fn(Seq<char>) -> Option<u32>| #[trigger]
                config::reads_as(*number, num) ==> list_params(model.take(i as int), num) == Ok::<
                    Seq<(Seq<char>, u32)>,
                    ChainFault,
                >(plugin::params_view(params@)),
    {
        assert(model.take(i + 1).drop_last() == model.take(i as int));
        assert(model.take(i + 1).last() == option_view(list@[i as int]));
        if let Some(s) = &list[i] {
            if let Err(e) = add_params_from_str(&mut params, s.as_str(), number) {
                assert forall|num: spec_fn(Seq<char>) -> Option<u32>| #[trigger]
                    config::reads_as(*number, num) implies list_params(model, num) == Err::<
                    Seq<(Seq<char>, u32)>,
                    ChainFault,
                >(ChainFault::Param(e@)) by {
                    assert(list_params(model.take(i + 1).drop_last(), num) is Ok);
                    lemma_list_params_fault(model, i + 1, num);
                }
                return Err(ConfigError::Param(e));
            }
        }
    }
    assert(model.take(list@.len() as int) == model);
    Ok(params)
}

/// Reads the parameters in a table from names to numbers.
fn parse_table<G: Fn(u64) -> u32>(
    table: &Vec<(Option<String>, Option<u64>)>,
    narrow: &G,
) -> (r: Result<Vec<(String, u32)>, ConfigError>)
    requires
        narrows_any(*narrow),
    ensures
        r matches Ok(params) ==> plugin::distinct(plugin::params_view(params@)),
        forall|nar: spec_fn(u64) -> u32| #[trigger]
            narrows_as(*narrow, nar) ==> params_result_view(r) == table_params(
                table@.map_values(
                    |entry: (Option<String>, Option<u64>)| (option_view(entry.0), entry.1),
                ),
                nar,
            ),
{
    let mut params: Vec<(String, u32)> = Vec::new();
    let ghost model = table@.map_values(
        |entry: (Option<String>, Option<u64>)| (option_view(entry.0), entry.1),
    );
    assert(model.take(0) == Seq::<(Option<Seq<char>>, Option<u64>)>::empty());
    assert(plugin::params_view(params@) =~= Seq::empty());
    for i in 0..table.len()
        invariant
            narrows_any(*narrow),
            model == table@.map_values(
                |entry: (Option<String>, Option<u64>)| (option_view(entry.0), entry.1),
            ),
            plugin::distinct(plugin::params_view(params@)),
            forall|nar: spec_fn(u64) -> u32| #[trigger]
                narrows_as(*narrow, nar) ==> table_params(model.take(i as int), nar) == Ok::<
                    Seq<(Seq<char>, u32)>,
                    ChainFault,
                >(plugin::params_view(params@)),
    {
        let ghost next = model.take(i + 1);
        assert(next.drop_last() == model.take(i as int));
        assert(next.last() == (option_view(table@[i as int].0), table@[i as int].1));
        let fault = match (&table[i].0, table[i].1) {
            (None, _) => Some(ConfigError::ParamNameNotText),
            (Some(name), None) => Some(ConfigError::NotANumber(name.clone())),
            (Some(name), Some(bits)) => {
                let narrowed: u32 = narrow(bits);
                if (narrowed / 0x80_0000) % 0x100 == 0xff {
                    Some(ConfigError::Param(ParamError::NotFinite(name.clone())))
                } else {
                    insert_param(&mut params, name.clone(), narrowed);
                    None
                }
            },
        };
        if let Some(e) = fault {
            assert forall|nar: spec_fn(u64) -> u32| #[trigger]
                narrows_as(*narrow, nar) implies table_params(model, nar) == Err::<
                Seq<(Seq<char>, u32)>,
                ChainFault,
            >(e@) by {
                assert(table_params(next.drop_last(), nar) is Ok);
                lemma_table_params_fault(model, i + 1, nar);
            }
            return Err(e);
        }
        assert forall|nar: spec_fn(u64) -> u32| #[trigger]
            narrows_as(*narrow, nar) implies table_params(next, nar) == Ok::<
            Seq<(Seq<char>, u32)>,
            ChainFault,
        >(plugin::params_view(params@)) by {
            assert(table_params(next.drop_last(), nar) is Ok);
        }
    }
    assert(model.take(table@.len() as int) == model);
    Ok(params)
}

/// Reads the parameters that stand under the name of a plugin.
pub fn parse_source<F: Fn(&str) -> Option<u32>, G: Fn(u64) -> u32>(
    source: &ParamSource,
    number: &F,
    narrow: &G,
) -> (r: Result<Vec<(String, u32)>, ConfigError>)
    requires
        config::reads_any(*number),
        narrows_any(*narrow),
    ensures
        r matches Ok(params) ==> plugin::distinct(plugin::params_view(params@)),
        forall|num: spec_fn(Seq<char>) -> Option<u32>, nar: spec_fn(u64) -> u32| #[trigger]
            answers(*number, *narrow, num, nar) ==> params_result_view(r) == source_params(
                source@,
                num,
                nar,
            ),
{
    match source {
        ParamSource::Text(s) => {
            let mut params: Vec<(String, u32)> = Vec::new();
            assert(plugin::params_view(params@) =~= Seq::empty());
            match add_params_from_str(&mut params, s.as_str(), number) {
                Ok(()) => Ok(params),
                Err(e) => Err(ConfigError::Param(e)),
            }
        },
        ParamSource::List(list) => parse_list(list, number),
        ParamSource::Table(table) => parse_table(table, narrow),
        ParamSource::Other => {
            let params: Vec<(String, u32)> = Vec::new();
            assert(plugin::params_view(params@) =~= Seq::empty());
            Ok(params)
        },
    }
}

/// Each setting has distinct parameters.
pub open spec fn all_wf(settings: Seq<PluginSetting>) -> bool {
    forall|i: int| 0 <= i < settings.len() ==> (#[trigger] settings[i]).wf()
}

/// Reads the plugins in a table from plugin names to parameters, behind those in `settings`.
fn parse_plugins<F: Fn(&str) -> Option<u32>, G: Fn(u64) -> u32>(
    settings: &mut Vec<PluginSetting>,
    table: &Vec<(Option<String>, ParamSource)>,
    number: &F,
    narrow: &G,
) -> (r: Result<(), ConfigError>)
    requires
        config::reads_any(*number),
        narrows_any(*narrow),
        all_wf(old(settings)@),
    ensures
        all_wf(final(settings)@),
        forall|num: spec_fn(Seq<char>) -> Option<u32>, nar: spec_fn(u64) -> u32| #[trigger]
            answers(*number, *narrow, num, nar) ==> match table_settings(
                table@.map_values(
                    |entry: (Option<String>, ParamSource)| (option_view(entry.0), entry.1@),
                ),
                num,
                nar,
            ) {
                Ok(more) => r is Ok && settings_view(final(settings)@) == settings_view(
                    old(settings)@,
                ) + more,
                Err(fault) => r matches Err(e) && e@ == fault,
            },
{
    let ghost before = settings_view(settings@);
    let ghost model = table@.map_values(
        |entry: (Option<String>, ParamSource)| (option_view(entry.0), entry.1@),
    );
    assert(model.take(0) == Seq::<(Option<Seq<char>>, SourceView)>::empty());
    assert(settings_view(settings@) =~= before + Seq::<SettingView>::empty());
    for i in 0..table.len()
        invariant
            config::reads_any(*number),
            narrows_any(*narrow),
            before == settings_view(old(settings)@),
            model == table@.map_values(
                |entry: (Option<String>, ParamSource)| (option_view(entry.0), entry.1@),
            ),
            all_wf(settings@),
            forall|num: spec_fn(Seq<char>) -> Option<u32>, nar: spec_fn(u64) -> u32| #[trigger]
                answers(*number, *narrow, num, nar) ==> (table_settings(
                    model.take(i as int),
                    num,
                    nar,
                ) matches Ok(more) && settings_view(settings@) == before + more),
    {
        let ghost next = model.take(i + 1);
        let ghost so_far = settings_view(settings@);
        assert(next.drop_last() == model.take(i as int));
        assert(next.last() == (option_view(table@[i as int].0), table@[i as int].1@));
        let fault = match &table[i].0 {
            None => Some(ConfigError::NameNotText),
            Some(name) => match parse_source(&table[i].1, number, narrow) {
                Err(e) => Some(e),
                Ok(params) => {
                    let setting = PluginSetting { plugin_identifier: name.clone(), params };
                    settings.push(setting);
                    assert(settings_view(settings@) =~= so_far.push(setting@));
                    None
                },
            },
        };
        if let Some(e) = fault {
            assert forall|num: spec_fn(Seq<char>) -> Option<u32>, nar: spec_fn(u64) -> u32|
                #[trigger] answers(*number, *narrow, num, nar) implies table_settings(
                model,
                num,
                nar,
            ) == Err::<Seq<SettingView>, ChainFault>(e@) by {
                assert(table_settings(next.drop_last(), num, nar) is Ok);
                lemma_table_settings_fault(model, i + 1, num, nar);
            }
            return Err(e);
        }
        assert forall|num: spec_fn(Seq<char>) -> Option<u32>, nar: spec_fn(u64) -> u32| #[trigger]
            answers(*number, *narrow, num, nar) implies (table_settings(next, num, nar) matches Ok(
            more,
        ) && settings_view(settings@) == before + more) by {
            assert(table_settings(next.drop_last(), num, nar) is Ok);
            assert(settings_view(settings@) =~= before + table_settings(next, num, nar)->Ok_0);
        }
    }
    assert(model.take(table@.len() as int) == model);
    Ok(())
}

/// Reads the chain that a chain file asks for. A parameter that is given twice has the value
/// that is given last.
pub fn chain_from_document<F: Fn(&str) -> Option<u32>, G: Fn(u64) -> u32>(
    doc: &ChainDocument,
    number: &F,
    narrow: &G,
) -> (r: Result<Vec<PluginSetting>, ConfigError>)
    requires
        config::reads_any(*number),
        narrows_any(*narrow),
    ensures
        r matches Ok(settings) ==> all_wf(settings@),
        forall|num: spec_fn(Seq<char>) -> Option<u32>, nar: spec_fn(u64) -> u32| #[trigger]
            answers(*number, *narrow, num, nar) ==> chain_view(r) == chain(doc@, num, nar),
        doc@ is PluginsNotAList ==> r matches Err(ConfigError::PluginsNotAList),
        doc@ is NotAChain ==> r matches Err(ConfigError::NotAChain),
{
    let entries = match doc {
        ChainDocument::Entries(entries) => entries,
        ChainDocument::PluginsNotAList => {
            return Err(ConfigError::PluginsNotAList);
        },
        ChainDocument::NotAChain => {
            return Err(ConfigError::NotAChain);
        },
    };
    let mut settings: Vec<PluginSetting> = Vec::new();
    let ghost model = entries@.map_values(|entry: ChainEntry| entry@);
    assert(model.take(0) == Seq::<EntryView>::empty());
    assert(settings_view(settings@) =~= Seq::empty());
    for i in 0..entries.len()
        invariant
            config::reads_any(*number),
            narrows_any(*narrow),
            model == entries@.map_values(|entry: ChainEntry| entry@),
            doc@ == DocumentView::Entries(model),
            all_wf(settings@),
            forall|num: spec_fn(Seq<char>) -> Option<u32>, nar: spec_fn(u64) -> u32| #[trigger]
                answers(*number, *narrow, num, nar) ==> list_settings(
                    model.take(i as int),
                    num,
                    nar,
                ) == Ok::<Seq<SettingView>, ChainFault>(settings_view(settings@)),
    {
        let ghost next = model.take(i + 1);
        let ghost so_far = settings_view(settings@);
        assert(next.drop_last() == model.take(i as int));
        assert(next.last() == entries@[i as int]@);
        let fault = match &entries[i] {
            ChainEntry::Text(s) => match parse_plugin_setting(s.as_str(), number) {
                Ok(setting) => {
                    settings.push(setting);
                    assert(settings_view(settings@) =~= so_far + seq![setting@]);
                    None
                },
                Err(reason) => Some(ConfigError::Setting(reason)),
            },
            ChainEntry::Table(table) => match parse_plugins(
                &mut settings,
                table,
                number,
                narrow,
            ) {
                Ok(()) => None,
                Err(e) => Some(e),
            },
            ChainEntry::Other => {
                assert(so_far + Seq::<SettingView>::empty() =~= so_far);
                None
            },
        };
        if let Some(e) = fault {
            assert forall|num: spec_fn(Seq<char>) -> Option<u32>, nar: spec_fn(u64) -> u32|
                #[trigger] answers(*number, *narrow, num, nar) implies list_settings(
                model,
                num,
                nar,
            ) == Err::<Seq<SettingView>, ChainFault>(e@) by {
                assert(list_settings(next.drop_last(), num, nar) is Ok);
                lemma_list_settings_fault(model, i + 1, num, nar);
            }
            return Err(e);
        }
        assert forall|num: spec_fn(Seq<char>) -> Option<u32>, nar: spec_fn(u64) -> u32| #[trigger]
            answers(*number, *narrow, num, nar) implies list_settings(next, num, nar) == Ok::<
            Seq<SettingView>,
            ChainFault,
        >(settings_view(settings@)) by {
            assert(list_settings(next.drop_last(), num, nar) is Ok);
        }
    }
    assert(model.take(entries@.len() as int) == model);
    Ok(settings)
}

/// Reads the chain that the bytes of a chain file ask for.
///
/// `number` gives the bit pattern of the IEEE 754 single that a text stands for, `narrow` that
/// of the single nearest to the double of the given bit pattern.
pub fn load_chain_from_yaml<F: Fn(&str) -> Option<u32>, G: Fn(u64) -> u32>(
    bytes: &[u8],
    number: &F,
    narrow: &G,
) -> (r: Result<Vec<PluginSetting>, ConfigError>)
    requires
        config::reads_any(*number),
        narrows_any(*narrow),
    ensures
        r matches Ok(settings) ==> all_wf(settings@),
        match yaml::document(bytes@) {
            Err(reason) => r matches Err(e) && e@ == ChainFault::NotYaml(reason),
            Ok(tree) => {
                &&& forall|num: spec_fn(Seq<char>) -> Option<u32>, nar: spec_fn(u64) -> u32|
                    #[trigger]
                    answers(*number, *narrow, num, nar) ==> chain_view(r) == chain(
                        chain_in(tree),
                        num,
                        nar,
                    )
                &&& chain_in(tree) is PluginsNotAList ==> chain_view(r) == Err::<
                    Seq<SettingView>,
                    ChainFault,
                >(ChainFault::PluginsNotAList)
                &&& chain_in(tree) is NotAChain ==> chain_view(r) == Err::<
                    Seq<SettingView>,
                    ChainFault,
                >(ChainFault::NotAChain)
            },
        },
{
    match parse_document(bytes) {
        Err(reason) => Err(ConfigError::NotYaml(reason)),
        Ok(value) => chain_from_document(&read_chain(&value), number, narrow),
    }
}

} // verus!
