//! Plugins of a chain: what the user asked for, which installed plugin is meant, and the
//! values of its control ports.
use vstd::prelude::*;

use crate::audio;
use crate::text::{chars_of, contains_chars, same_chars, to_lowercase};
use crate::text;

verus! {

/// What a `PluginSetting` holds.
pub struct SettingView {
    pub identifier: Seq<char>,
    pub params: Seq<(Seq<char>, u32)>,
}

/// The names and values of a parameter list.
pub open spec fn params_view(params: Seq<(String, u32)>) -> Seq<(Seq<char>, u32)> {
    params.map_values(|param: (String, u32)| (param.0@, param.1))
}

/// No name occurs twice.
pub open spec fn distinct(params: Seq<(Seq<char>, u32)>) -> bool {
    forall|i: int, j: int|
        0 <= i < j < params.len() ==> (#[trigger] params[i]).0 != (#[trigger] params[j]).0
}

/// Whether a parameter of that name is in the list.
pub open spec fn has_param(params: Seq<(Seq<char>, u32)>, name: Seq<char>) -> bool {
    exists|i: int| 0 <= i < params.len() && (#[trigger] params[i]).0 == name
}

/// The list with `name` set to `value`: a name that is there keeps its place, a new one goes
/// to the end.
pub open spec fn set_param(
    params: Seq<(Seq<char>, u32)>,
    name: Seq<char>,
    value: u32,
) -> Seq<(Seq<char>, u32)> {
    if has_param(params, name) {
        params.map_values(
            |param: (Seq<char>, u32)|
                if param.0 == name {
                    (name, value)
                } else {
                    param
                },
        )
    } else {
        params.push((name, value))
    }
}

/// The value that each name has.
pub open spec fn param_map(params: Seq<(Seq<char>, u32)>) -> Map<Seq<char>, u32> {
    Map::new(
        |name: Seq<char>| has_param(params, name),
        |name: Seq<char>| params[choose|i: int|
            0 <= i < params.len() && (#[trigger] params[i]).0 == name].1,
    )
}

/// A plugin that the user asked for, with values for some of its parameters.
///
/// A value is the bit pattern of an IEEE 754 single. The parameters stand in the order in
/// which their names first appeared.
#[derive(Debug, Clone)]
pub struct PluginSetting {
    pub plugin_identifier: String,
    pub params: Vec<(String, u32)>,
}

impl View for PluginSetting {
    type V = SettingView;

    open spec fn view(&self) -> SettingView {
        SettingView {
            identifier: self.plugin_identifier@,
            params: params_view(self.params@),
        }
    }
}

impl PluginSetting {
    /// Each parameter is set once.
    pub open spec fn wf(self) -> bool {
        distinct(self@.params)
    }
}

/// Sets the parameter `name` to `value`, as inserting into a map does.
pub fn insert_param(params: &mut Vec<(String, u32)>, name: String, value: u32)
    requires
        distinct(params_view(old(params)@)),
    ensures
        params_view(final(params)@) == set_param(params_view(old(params)@), name@, value),
        distinct(params_view(final(params)@)),
        param_map(params_view(final(params)@)) == param_map(params_view(old(params)@)).insert(
            name@,
            value,
        ),
{
    let ghost before = params_view(params@);
    let count: usize = params.len();
    for i in 0..count
        invariant
            count == params@.len(),
            params_view(params@) == before,
            before == params_view(old(params)@),
            distinct(before),
            forall|j: int| 0 <= j < i ==> (#[trigger] before[j]).0 != name@,
    {
        assert(before[i as int].0 == params@[i as int].0@);
        if params[i].0 == name {
            assert(has_param(before, name@));
            proof {
                law_set_param_is_map_insert(before, name@, value);
            }
            params.set(i, (name, value));
            assert(params_view(params@) =~= set_param(before, name@, value));
            return ;
        }
    }
    assert(!has_param(before, name@));
    proof {
        law_set_param_is_map_insert(before, name@, value);
    }
    params.push((name, value));
    assert(params_view(params@) =~= before.push((name@, value)));
}

/// Setting a parameter keeps the names distinct and acts on the values as inserting into a
/// map does: the new value replaces the old one, every other name keeps its value.
pub proof fn law_set_param_is_map_insert(
    params: Seq<(Seq<char>, u32)>,
    name: Seq<char>,
    value: u32,
)
    requires
        distinct(params),
    ensures
        distinct(set_param(params, name, value)),
        param_map(set_param(params, name, value)) == param_map(params).insert(name, value),
{
    let after = set_param(params, name, value);
    assert forall|n: Seq<char>| has_param(after, n) == (has_param(params, n) || n == name) by {
        if has_param(params, n) {
            let i = choose|i: int| 0 <= i < params.len() && (#[trigger] params[i]).0 == n;
            assert(after[i].0 == n);
        }
        if n == name {
            if has_param(params, name) {
                let i = choose|i: int| 0 <= i < params.len() && (#[trigger] params[i]).0 == name;
                assert(after[i].0 == name);
            } else {
                assert(after[params.len() as int].0 == name);
            }
        }
        if has_param(after, n) {
            let i = choose|i: int| 0 <= i < after.len() && (#[trigger] after[i]).0 == n;
            if i < params.len() {
                assert(params[i].0 == n);
            }
        }
    }
    assert forall|n: Seq<char>| has_param(after, n) implies #[trigger] param_map(after)[n]
        == param_map(params).insert(name, value)[n] by {
        let i = choose|i: int| 0 <= i < after.len() && (#[trigger] after[i]).0 == n;
        if n != name {
            assert(has_param(params, n));
            let k = choose|k: int| 0 <= k < params.len() && (#[trigger] params[k]).0 == n;
            assert(after[k].0 == n);
            assert(i == k);
        } else if has_param(params, name) {
            assert(params[i].0 == name);
        }
    }
    assert(param_map(after) =~= param_map(params).insert(name, value));
}

/// An installed plugin.
#[derive(Debug)]
pub struct PluginInfo {
    pub uri: String,
    pub name: String,
}

/// The addresses of the plugins.
pub open spec fn uris(catalog: Seq<PluginInfo>) -> Seq<Seq<char>> {
    catalog.map_values(|info: PluginInfo| info.uri@)
}

/// The names of the plugins.
pub open spec fn names(catalog: Seq<PluginInfo>) -> Seq<Seq<char>> {
    catalog.map_values(|info: PluginInfo| info.name@)
}

/// Each text in lower case.
pub open spec fn all_lowercase(list: Seq<Seq<char>>) -> Seq<Seq<char>> {
    list.map_values(|s: Seq<char>| text::lowercase(s))
}

/// What a `PluginLookup` holds.
pub enum LookupView {
    Found(int),
    NotFound,
    Ambiguous(Seq<Seq<char>>),
}

/// Which installed plugin is meant.
#[derive(Debug)]
pub enum PluginLookup {
    /// The plugin with this number in the catalog.
    Found(usize),
    NotFound,
    /// Several plugins have a name that fits: these.
    Ambiguous(Vec<String>),
}

impl View for PluginLookup {
    type V = LookupView;

    open spec fn view(&self) -> LookupView {
        match self {
            PluginLookup::Found(i) => LookupView::Found(*i as int),
            PluginLookup::NotFound => LookupView::NotFound,
            PluginLookup::Ambiguous(list) => LookupView::Ambiguous(text::strings(list@)),
        }
    }
}

/// The first position at which `wanted` stands in the list.
pub open spec fn first_at(list: Seq<Seq<char>>, wanted: Seq<char>) -> Option<int>
    decreases list.len(),
{
    if list.len() == 0 {
        None
    } else {
        match first_at(list.drop_last(), wanted) {
            Some(i) => Some(i),
            None => if list.last() == wanted {
                Some(list.len() - 1)
            } else {
                None
            },
        }
    }
}

/// The positions of the texts that `wanted` occurs in, in order.
pub open spec fn fitting(list: Seq<Seq<char>>, wanted: Seq<char>) -> Seq<int>
    decreases list.len(),
{
    if list.len() == 0 {
        Seq::empty()
    } else {
        let before = fitting(list.drop_last(), wanted);
        if text::occurs_in(wanted, list.last()) {
            before.push(list.len() - 1)
        } else {
            before
        }
    }
}

/// The plugin that `identifier` means: the first one with that address; else the only one
/// whose name in lower case holds the identifier in lower case.
pub open spec fn meant_plugin(
    uris: Seq<Seq<char>>,
    names: Seq<Seq<char>>,
    lowered_names: Seq<Seq<char>>,
    identifier: Seq<char>,
    lowered_identifier: Seq<char>,
) -> LookupView {
    match first_at(uris, identifier) {
        Some(i) => LookupView::Found(i),
        None => {
            let hits = fitting(lowered_names, lowered_identifier);
            if hits.len() == 0 {
                LookupView::NotFound
            } else if hits.len() == 1 {
                LookupView::Found(hits[0])
            } else {
                LookupView::Ambiguous(hits.map_values(|i: int| names[i]))
            }
        },
    }
}

/// Where `wanted` stands first in the list is a position of the list that holds it, and none
/// before it does; and it stands nowhere if there is no first position.
pub proof fn law_first_at(list: Seq<Seq<char>>, wanted: Seq<char>)
    ensures
        match first_at(list, wanted) {
            Some(i) => {
                &&& 0 <= i < list.len()
                &&& list[i] == wanted
                &&& forall|j: int| 0 <= j < i ==> list[j] != wanted
            },
            None => forall|j: int| 0 <= j < list.len() ==> list[j] != wanted,
        },
    decreases list.len(),
{
    if list.len() > 0 {
        let init = list.drop_last();
        law_first_at(init, wanted);
        assert(forall|j: int| 0 <= j < init.len() ==> init[j] == list[j]);
    }
}

/// The fitting positions are exactly those of the texts that `wanted` occurs in, in rising
/// order.
pub proof fn law_fitting(list: Seq<Seq<char>>, wanted: Seq<char>)
    ensures
        forall|k: int|
            0 <= k < fitting(list, wanted).len() ==> 0 <= #[trigger] fitting(list, wanted)[k]
                < list.len() && text::occurs_in(wanted, list[fitting(list, wanted)[k]]),
        forall|k: int, l: int|
            0 <= k < l < fitting(list, wanted).len() ==> #[trigger] fitting(list, wanted)[k]
                < #[trigger] fitting(list, wanted)[l],
        forall|i: int|
            0 <= i < list.len() && text::occurs_in(wanted, #[trigger] list[i]) ==> fitting(
                list,
                wanted,
            ).contains(i),
    decreases list.len(),
{
    if list.len() > 0 {
        let init = list.drop_last();
        let before = fitting(init, wanted);
        let all = fitting(list, wanted);
        law_fitting(init, wanted);
        assert forall|i: int|
            0 <= i < list.len() && text::occurs_in(
                wanted,
                #[trigger] list[i],
            ) implies all.contains(i) by {
            if i < init.len() {
                assert(init[i] == list[i]);
                let k = choose|k: int| 0 <= k < before.len() && before[k] == i;
                assert(all[k] == i);
            } else {
                assert(all[before.len() as int] == i);
            }
        }
    }
}

/// A text in the list before position `n` is first at the same place in the whole list.
proof fn lemma_first_at_take(list: Seq<Seq<char>>, wanted: Seq<char>, n: int)
    requires
        0 <= n <= list.len(),
        first_at(list.take(n), wanted) is Some,
    ensures
        first_at(list, wanted) == first_at(list.take(n), wanted),
    decreases list.len(),
{
    if n < list.len() {
        assert(list.drop_last().take(n) == list.take(n));
        lemma_first_at_take(list.drop_last(), wanted, n);
    } else {
        assert(list.take(n) == list);
    }
}

/// Decides which plugin of the catalog is meant, given the names and the identifier in lower
/// case.
pub fn choose_plugin(
    catalog: &Vec<PluginInfo>,
    lowered_names: &Vec<String>,
    identifier: &str,
    lowered_identifier: &str,
) -> (lookup: PluginLookup)
    requires
        lowered_names@.len() == catalog@.len(),
    ensures
        lookup@ == meant_plugin(
            uris(catalog@),
            names(catalog@),
            text::strings(lowered_names@),
            identifier@,
            lowered_identifier@,
        ),
{
    let wanted = chars_of(identifier);
    let ghost addresses = uris(catalog@);
    assert(addresses.take(0) == Seq::<Seq<char>>::empty());
    for i in 0..catalog.len()
        invariant
            wanted@ == identifier@,
            addresses == uris(catalog@),
            first_at(addresses.take(i as int), wanted@) is None,
    {
        assert(addresses.take(i + 1).drop_last() == addresses.take(i as int));
        if same_chars(&chars_of(catalog[i].uri.as_str()), &wanted) {
            proof {
                lemma_first_at_take(addresses, wanted@, i + 1);
            }
            return PluginLookup::Found(i);
        }
    }
    assert(addresses.take(catalog@.len() as int) == addresses);
    let part = chars_of(lowered_identifier);
    let ghost lowered = text::strings(lowered_names@);
    let mut hits: Vec<usize> = Vec::new();
    assert(lowered.take(0) == Seq::<Seq<char>>::empty());
    for i in 0..lowered_names.len()
        invariant
            part@ == lowered_identifier@,
            lowered == text::strings(lowered_names@),
            hits@.map_values(|hit: usize| hit as int) == fitting(lowered.take(i as int), part@),
    {
        assert(lowered.take(i + 1).drop_last() == lowered.take(i as int));
        let ghost before = hits@.map_values(|hit: usize| hit as int);
        if contains_chars(&chars_of(lowered_names[i].as_str()), &part) {
            hits.push(i);
            assert(hits@.map_values(|hit: usize| hit as int) =~= before.push(i as int));
        }
    }
    assert(lowered.take(lowered_names@.len() as int) == lowered);
    let ghost positions = fitting(lowered, part@);
    assert(hits@.map_values(|hit: usize| hit as int) == positions);
    proof {
        law_fitting(lowered, part@);
        assert forall|k: int| 0 <= k < hits@.len() implies (#[trigger] hits@[k]) as int
            == positions[k] && hits@[k] < catalog@.len() by {
            assert(hits@.map_values(|hit: usize| hit as int)[k] == hits@[k] as int);
        }
    }
    if hits.len() == 0 {
        PluginLookup::NotFound
    } else if hits.len() == 1 {
        PluginLookup::Found(hits[0])
    } else {
        let mut candidates: Vec<String> = Vec::new();
        for k in 0..hits.len()
            invariant
                candidates@.len() == k,
                forall|j: int| 0 <= j < hits@.len() ==> (#[trigger] hits@[j]) < catalog@.len(),
                forall|j: int|
                    0 <= j < k ==> (#[trigger] candidates@[j])@ == catalog@[hits@[j] as int].name@,
        {
            candidates.push(catalog[hits[k]].name.clone());
        }
        assert(text::strings(candidates@) =~= positions.map_values(
            |i: int| names(catalog@)[i],
        ));
        PluginLookup::Ambiguous(candidates)
    }
}

/// Decides which plugin of the catalog `identifier` means: it is an address, or a part of a
/// name, in upper or lower case.
pub fn find_plugin(catalog: &Vec<PluginInfo>, identifier: &str) -> (lookup: PluginLookup)
    ensures
        lookup@ == meant_plugin(
            uris(catalog@),
            names(catalog@),
            all_lowercase(names(catalog@)),
            identifier@,
            text::lowercase(identifier@),
        ),
{
    let mut lowered: Vec<String> = Vec::new();
    for i in 0..catalog.len()
        invariant
            lowered@.len() == i,
            forall|j: int|
                0 <= j < i ==> (#[trigger] lowered@[j])@ == text::lowercase(catalog@[j].name@),
    {
        lowered.push(to_lowercase(catalog[i].name.as_str()));
    }
    assert(text::strings(lowered@) =~= all_lowercase(names(catalog@)));
    choose_plugin(catalog, &lowered, identifier, to_lowercase(identifier).as_str())
}

/// The control values after setting the ports that the settings name, in order, up to the
/// first setting that names no port; and the number of that setting. Where several ports have
/// the name, the first one is set.
pub open spec fn set_ports(
    ports: Seq<Seq<char>>,
    controls: Seq<u32>,
    settings: Seq<(Seq<char>, u32)>,
) -> (Seq<u32>, Option<int>)
    decreases settings.len(),
{
    if settings.len() == 0 {
        (controls, None)
    } else {
        let (controls, unknown) = set_ports(ports, controls, settings.drop_last());
        if unknown is Some {
            (controls, unknown)
        } else {
            match first_at(ports, settings.last().0) {
                Some(port) => (controls.update(port, settings.last().1), None),
                None => (controls, Some(settings.len() - 1)),
            }
        }
    }
}

/// What stands behind a setting that names no port changes nothing.
proof fn lemma_set_ports_stops(
    ports: Seq<Seq<char>>,
    controls: Seq<u32>,
    settings: Seq<(Seq<char>, u32)>,
    n: int,
)
    requires
        0 <= n <= settings.len(),
        set_ports(ports, controls, settings.take(n)).1 is Some,
    ensures
        set_ports(ports, controls, settings) == set_ports(ports, controls, settings.take(n)),
    decreases settings.len(),
{
    if n < settings.len() {
        assert(settings.drop_last().take(n) == settings.take(n));
        lemma_set_ports_stops(ports, controls, settings.drop_last(), n);
    } else {
        assert(settings.take(n) == settings);
    }
}

/// The number of a setting that may be missing.
pub open spec fn index_view(i: Option<usize>) -> Option<int> {
    match i {
        Some(i) => Some(i as int),
        None => None,
    }
}

/// The position of `wanted` in the list.
fn position(list: &Vec<String>, wanted: &String) -> (at: Option<usize>)
    ensures
        index_view(at) == first_at(text::strings(list@), wanted@),
        at matches Some(i) ==> i < list@.len(),
{
    let ghost model = text::strings(list@);
    assert(model.take(0) == Seq::<Seq<char>>::empty());
    for i in 0..list.len()
        invariant
            model == text::strings(list@),
            first_at(model.take(i as int), wanted@) is None,
    {
        assert(model.take(i + 1).drop_last() == model.take(i as int));
        if list[i] == *wanted {
            proof {
                lemma_first_at_take(model, wanted@, i + 1);
            }
            return Some(i);
        }
    }
    assert(model.take(list@.len() as int) == model);
    None
}

/// Sets the control values of the ports that the settings name, given the names in lower
/// case; gives the number of the first setting that names no port.
pub fn set_controls(
    ports: &Vec<String>,
    control_inputs: &mut Vec<u32>,
    settings: &Vec<(String, u32)>,
) -> (unknown: Option<usize>)
    requires
        ports@.len() <= old(control_inputs)@.len(),
    ensures
        (final(control_inputs)@, index_view(unknown)) == set_ports(
            text::strings(ports@),
            old(control_inputs)@,
            params_view(settings@),
        ),
        unknown matches Some(i) ==> i < settings@.len(),
{
    let ghost names = text::strings(ports@);
    let ghost model = params_view(settings@);
    assert(model.take(0) == Seq::<(Seq<char>, u32)>::empty());
    for i in 0..settings.len()
        invariant
            names == text::strings(ports@),
            model == params_view(settings@),
            ports@.len() <= control_inputs@.len(),
            set_ports(names, old(control_inputs)@, model.take(i as int)) == (
                control_inputs@,
                None::<int>,
            ),
    {
        assert(model.take(i + 1).drop_last() == model.take(i as int));
        assert(model.take(i + 1).last() == (settings@[i as int].0@, settings@[i as int].1));
        match position(ports, &settings[i].0) {
            Some(port) => {
                control_inputs.set(port, settings[i].1);
            },
            None => {
                proof {
                    lemma_set_ports_stops(names, old(control_inputs)@, model, i + 1);
                }
                return Some(i);
            },
        }
    }
    assert(model.take(settings@.len() as int) == model);
    None
}

/// A parameter that the plugin does not have.
#[derive(Debug)]
pub struct UnknownParam {
    pub param: String,
    pub plugin: String,
}

impl UnknownParam {
    /// The message for the user.
    pub fn message(&self) -> (text: String)
        ensures
            text@ == "Parameter '"@ + self.param@ + "' not found in plugin '"@ + self.plugin@
                + "'"@,
    {
        let mut text = String::new();
        text.append("Parameter '");
        text.append(self.param.as_str());
        text.append("' not found in plugin '");
        text.append(self.plugin.as_str());
        text.append("'");
        assert(text@ =~= "Parameter '"@ + self.param@ + "' not found in plugin '"@ + self.plugin@
            + "'"@);
        text
    }
}

/// The settings with their names in lower case.
pub open spec fn lowercase_params(settings: Seq<(Seq<char>, u32)>) -> Seq<(Seq<char>, u32)> {
    settings.map_values(|param: (Seq<char>, u32)| (text::lowercase(param.0), param.1))
}

/// Sets the control values of a plugin whose control ports have the given names. Names are
/// compared in lower case. On an unknown parameter the settings before it stay in force.
pub fn apply_parameter_settings(
    plugin_name: &str,
    port_names: &Vec<String>,
    control_inputs: &mut Vec<u32>,
    settings: &Vec<(String, u32)>,
) -> (r: Result<(), UnknownParam>)
    requires
        port_names@.len() <= old(control_inputs)@.len(),
    ensures
        ({
            let (controls, unknown) = set_ports(
                all_lowercase(text::strings(port_names@)),
                old(control_inputs)@,
                lowercase_params(params_view(settings@)),
            );
            &&& final(control_inputs)@ == controls
            &&& match unknown {
                None => r is Ok,
                Some(i) => r matches Err(e) && e.param@ == settings@[i].0@ && e.plugin@
                    == plugin_name@,
            }
        }),
{
    let mut ports: Vec<String> = Vec::new();
    for i in 0..port_names.len()
        invariant
            ports@.len() == i,
            forall|j: int|
                0 <= j < i ==> (#[trigger] ports@[j])@ == text::lowercase(port_names@[j]@),
    {
        ports.push(to_lowercase(port_names[i].as_str()));
    }
    assert(text::strings(ports@) =~= all_lowercase(text::strings(port_names@)));
    let mut lowered: Vec<(String, u32)> = Vec::new();
    for i in 0..settings.len()
        invariant
            lowered@.len() == i,
            forall|j: int|
                0 <= j < i ==> (#[trigger] lowered@[j]).0@ == text::lowercase(settings@[j].0@)
                    && lowered@[j].1 == settings@[j].1,
    {
        lowered.push((to_lowercase(settings[i].0.as_str()), settings[i].1));
    }
    assert(params_view(lowered@) =~= lowercase_params(params_view(settings@)));
    match set_controls(&ports, control_inputs, &lowered) {
        None => Ok(()),
        Some(i) => Err(
            UnknownParam { param: settings[i].0.clone(), plugin: plugin_name.to_string() },
        ),
    }
}

/// How many ports of each kind a plugin has, as far as the host provides buffers for them.
#[derive(Debug, Clone, Copy, PartialEq, Eq, Structural)]
pub struct PortCounts {
    pub audio_inputs: usize,
    pub audio_outputs: usize,
    pub control_outputs: usize,
}

/// What a `PluginInstance` holds.
pub struct InstanceView {
    pub audio_inputs: int,
    pub control_inputs: Seq<u32>,
    pub control_outputs: Seq<u32>,
    pub audio_outputs: Seq<Seq<u32>>,
}

/// The values at the ports of a plugin in the chain.
#[derive(Debug)]
pub struct PluginInstance {
    /// How many channels the plugin takes.
    pub audio_inputs: usize,
    pub control_inputs: Vec<u32>,
    pub control_outputs: Vec<u32>,
    /// One block of samples for each channel that the plugin gives.
    pub audio_outputs: Vec<Vec<u32>>,
}

impl View for PluginInstance {
    type V = InstanceView;

    open spec fn view(&self) -> InstanceView {
        InstanceView {
            audio_inputs: self.audio_inputs as int,
            control_inputs: self.control_inputs@,
            control_outputs: self.control_outputs@,
            audio_outputs: audio::planes(self.audio_outputs@),
        }
    }
}

impl PluginInstance {
    /// Each output channel has room for one block.
    pub open spec fn wf(self, block_size: int) -> bool {
        forall|ch: int| 0 <= ch < self.audio_outputs@.len() ==> (
        #[trigger] self.audio_outputs@[ch])@.len() == block_size
    }

    /// Sets up the ports of a plugin: the given control values, and zeros at all outputs.
    pub fn new(ports: &PortCounts, control_inputs: Vec<u32>, block_size: usize) -> (instance: Self)
        ensures
            instance.wf(block_size as int),
            instance.audio_inputs == ports.audio_inputs,
            instance.control_inputs == control_inputs,
            instance.control_outputs@ == Seq::new(ports.control_outputs as nat, |i: int| 0u32),
            instance.audio_outputs@.len() == ports.audio_outputs,
            forall|ch: int|
                0 <= ch < ports.audio_outputs ==> (#[trigger] instance.audio_outputs@[ch])@
                    == Seq::new(block_size as nat, |i: int| 0u32),
    {
        let control_outputs = zeros(ports.control_outputs);
        let mut audio_outputs: Vec<Vec<u32>> = Vec::new();
        for ch in 0..ports.audio_outputs
            invariant
                audio_outputs@.len() == ch,
                forall|c: int|
                    0 <= c < ch ==> (#[trigger] audio_outputs@[c])@ == Seq::new(
                        block_size as nat,
                        |i: int| 0u32,
                    ),
        {
            audio_outputs.push(zeros(block_size));
        }
        PluginInstance {
            audio_inputs: ports.audio_inputs,
            control_inputs,
            control_outputs,
            audio_outputs,
        }
    }
}

/// `n` zeros.
pub(crate) fn zeros(n: usize) -> (values: Vec<u32>)
    ensures
        values@ == Seq::new(n as nat, |i: int| 0u32),
{
    let mut values: Vec<u32> = Vec::new();
    for i in 0..n
        invariant
            values@ == Seq::new(i as nat, |j: int| 0u32),
    {
        values.push(0);
        assert(values@ =~= Seq::new((i + 1) as nat, |j: int| 0u32));
    }
    values
}

} // verus!
