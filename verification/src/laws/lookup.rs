//! Which plugin is meant, and what arrives at its ports.
use vstd::prelude::*;

use crate::chain;
use crate::plugin;
use crate::text;

verus! {

/// What a parameter list holds: the name and the value of each parameter, in order.
pub proof fn law_params_view(params: Seq<(String, u32)>)
    ensures
        plugin::params_view(params).len() == params.len(),
        forall|i: int|
            0 <= i < params.len() ==> (#[trigger] plugin::params_view(params)[i]).0 == params[i].0@
                && plugin::params_view(params)[i].1 == params[i].1,
{
}

/// What a setting holds: its identifier and its parameters.
pub proof fn law_setting_view(setting: plugin::PluginSetting)
    ensures
        setting@.identifier == setting.plugin_identifier@,
        setting@.params == plugin::params_view(setting.params@),
        setting.wf() <==> setting@.params.map_values(
            |param: (Seq<char>, u32)| param.0,
        ).no_duplicates(),
{
    law_distinct(setting@.params);
}

/// Names are distinct if the list of them has no duplicates.
pub proof fn law_distinct(params: Seq<(Seq<char>, u32)>)
    ensures
        plugin::distinct(params) <==> params.map_values(
            |param: (Seq<char>, u32)| param.0,
        ).no_duplicates(),
{
    let names = params.map_values(|param: (Seq<char>, u32)| param.0);
    if plugin::distinct(params) {
        assert forall|i: int, j: int|
            0 <= i < names.len() && 0 <= j < names.len() && i != j implies names[i] != names[j] by {
            if i < j {
                assert(params[i].0 != params[j].0);
            } else {
                assert(params[j].0 != params[i].0);
            }
        }
    }
    if names.no_duplicates() {
        assert forall|i: int, j: int| 0 <= i < j < params.len() implies (#[trigger] params[i]).0 != (
        #[trigger] params[j]).0 by {
            assert(names[i] != names[j]);
        }
    }
}

/// Setting a parameter: afterwards it has that value and no other; every other parameter has
/// the values that it had; names keep their places, and a new one goes to the end.
pub proof fn law_set_param(params: Seq<(Seq<char>, u32)>, name: Seq<char>, value: u32)
    ensures
        plugin::set_param(params, name, value).contains((name, value)),
        forall|v: u32| #[trigger]
            plugin::set_param(params, name, value).contains((name, v)) ==> v == value,
        forall|n: Seq<char>, v: u32|
            n != name ==> (#[trigger] plugin::set_param(params, name, value).contains((n, v))
                <==> params.contains((n, v))),
        forall|i: int|
            0 <= i < params.len() ==> (#[trigger] plugin::set_param(params, name, value)[i]).0
                == params[i].0,
        (exists|i: int| 0 <= i < params.len() && (#[trigger] params[i]).0 == name)
            ==> plugin::set_param(params, name, value).len() == params.len(),
        (forall|i: int| 0 <= i < params.len() ==> (#[trigger] params[i]).0 != name)
            ==> plugin::set_param(params, name, value) == params.push((name, value)),
{
    let after = plugin::set_param(params, name, value);
    if plugin::has_param(params, name) {
        let i = choose|i: int| 0 <= i < params.len() && (#[trigger] params[i]).0 == name;
        assert(after[i] == (name, value));
    } else {
        assert(after[params.len() as int] == (name, value));
    }
    assert forall|n: Seq<char>, v: u32| n != name implies (#[trigger] after.contains((n, v))
        <==> params.contains((n, v))) by {
        if after.contains((n, v)) {
            let k = choose|k: int| 0 <= k < after.len() && after[k] == (n, v);
            assert(params[k] == (n, v));
        }
        if params.contains((n, v)) {
            let k = choose|k: int| 0 <= k < params.len() && params[k] == (n, v);
            assert(after[k] == (n, v));
        }
    }
}

/// What a lookup holds.
pub proof fn law_lookup_view(lookup: plugin::PluginLookup)
    ensures
        lookup matches plugin::PluginLookup::Found(i) ==> lookup@ == plugin::LookupView::Found(
            i as int,
        ),
        lookup is NotFound ==> lookup@ == plugin::LookupView::NotFound,
        lookup matches plugin::PluginLookup::Ambiguous(list) ==> (
        lookup@ matches plugin::LookupView::Ambiguous(names) && names.len() == list@.len()
            && forall|i: int| 0 <= i < list@.len() ==> #[trigger] names[i] == list@[i]@),
{
}

/// The addresses, the names and the names in lower case of a catalog stand in its order.
pub proof fn law_catalog(catalog: Seq<plugin::PluginInfo>)
    ensures
        plugin::uris(catalog).len() == catalog.len(),
        plugin::names(catalog).len() == catalog.len(),
        plugin::all_lowercase(plugin::names(catalog)).len() == catalog.len(),
        forall|i: int|
            0 <= i < catalog.len() ==> #[trigger] plugin::uris(catalog)[i] == catalog[i].uri@,
        forall|i: int|
            0 <= i < catalog.len() ==> #[trigger] plugin::names(catalog)[i] == catalog[i].name@,
        forall|i: int|
            0 <= i < catalog.len() ==> #[trigger] plugin::all_lowercase(plugin::names(catalog))[i]
                == text::lowercase(catalog[i].name@),
{
}

/// An identifier that is the address of an installed plugin means that plugin, whatever the
/// names are; of several plugins with the address, the first.
pub proof fn law_address_means_plugin(
    catalog: Seq<plugin::PluginInfo>,
    identifier: Seq<char>,
    i: int,
)
    requires
        0 <= i < catalog.len(),
        catalog[i].uri@ == identifier,
        forall|j: int| 0 <= j < i ==> (#[trigger] catalog[j]).uri@ != identifier,
    ensures
        plugin::meant_plugin(
            plugin::uris(catalog),
            plugin::names(catalog),
            plugin::all_lowercase(plugin::names(catalog)),
            identifier,
            text::lowercase(identifier),
        ) == plugin::LookupView::Found(i),
{
    law_catalog(catalog);
    law_first_address(
        plugin::uris(catalog),
        plugin::names(catalog),
        plugin::all_lowercase(plugin::names(catalog)),
        identifier,
        text::lowercase(identifier),
        i,
    );
}

/// The first plugin whose address is the identifier is meant, whatever the names are and
/// whatever form they were brought into.
pub proof fn law_first_address(
    uris: Seq<Seq<char>>,
    names: Seq<Seq<char>>,
    lowered_names: Seq<Seq<char>>,
    identifier: Seq<char>,
    lowered_identifier: Seq<char>,
    i: int,
)
    requires
        0 <= i < uris.len(),
        uris[i] == identifier,
        forall|j: int| 0 <= j < i ==> uris[j] != identifier,
    ensures
        plugin::meant_plugin(uris, names, lowered_names, identifier, lowered_identifier)
            == plugin::LookupView::Found(i),
{
    plugin::law_first_at(uris, identifier);
}

/// An identifier that is no address means the plugin that has it in its name, if there is one
/// such plugin; if there is none, it means no plugin.
pub proof fn law_name_means_plugin(
    uris: Seq<Seq<char>>,
    names: Seq<Seq<char>>,
    lowered_names: Seq<Seq<char>>,
    identifier: Seq<char>,
    lowered_identifier: Seq<char>,
)
    requires
        forall|j: int| 0 <= j < uris.len() ==> uris[j] != identifier,
    ensures
        forall|i: int|
            0 <= i < lowered_names.len() && text::occurs_in(
                lowered_identifier,
                #[trigger] lowered_names[i],
            ) && (forall|j: int|
                0 <= j < lowered_names.len() && j != i ==> !text::occurs_in(
                    lowered_identifier,
                    #[trigger] lowered_names[j],
                )) ==> plugin::meant_plugin(
                uris,
                names,
                lowered_names,
                identifier,
                lowered_identifier,
            ) == plugin::LookupView::Found(i),
        (forall|j: int|
            0 <= j < lowered_names.len() ==> !text::occurs_in(
                lowered_identifier,
                #[trigger] lowered_names[j],
            )) ==> plugin::meant_plugin(
            uris,
            names,
            lowered_names,
            identifier,
            lowered_identifier,
        ) == plugin::LookupView::NotFound,
{
    plugin::law_first_at(uris, identifier);
    plugin::law_fitting(lowered_names, lowered_identifier);
    let hits = plugin::fitting(lowered_names, lowered_identifier);
    assert forall|i: int|
        0 <= i < lowered_names.len() && text::occurs_in(
            lowered_identifier,
            #[trigger] lowered_names[i],
        ) && (forall|j: int|
            0 <= j < lowered_names.len() && j != i ==> !text::occurs_in(
                lowered_identifier,
                #[trigger] lowered_names[j],
            )) implies hits.len() == 1 && hits[0] == i by {
        assert(hits.contains(i));
        assert(hits[0] == i);
        if hits.len() > 1 {
            assert(hits[1] == i);
            assert(hits[0] < hits[1]);
        }
    }
}

/// An identifier that is no address and stands in several names means none of them: the answer
/// lists exactly the names it stands in, in the order of the catalog.
pub proof fn law_several_names(
    uris: Seq<Seq<char>>,
    names: Seq<Seq<char>>,
    lowered_names: Seq<Seq<char>>,
    identifier: Seq<char>,
    lowered_identifier: Seq<char>,
    i: int,
    j: int,
)
    requires
        forall|k: int| 0 <= k < uris.len() ==> uris[k] != identifier,
        0 <= i < j < lowered_names.len(),
        text::occurs_in(lowered_identifier, lowered_names[i]),
        text::occurs_in(lowered_identifier, lowered_names[j]),
    ensures
        plugin::meant_plugin(
            uris,
            names,
            lowered_names,
            identifier,
            lowered_identifier,
        ) matches plugin::LookupView::Ambiguous(list) && exists|at: Seq<int>|
            {
                &&& #[trigger] at.len() == list.len()
                &&& forall|k: int| 0 <= k < at.len() ==> #[trigger] list[k] == names[at[k]]
                &&& forall|k: int, l: int| 0 <= k < l < at.len() ==> at[k] < at[l]
                &&& forall|m: int|
                    at.contains(m) <==> 0 <= m < lowered_names.len() && text::occurs_in(
                        lowered_identifier,
                        #[trigger] lowered_names[m],
                    )
            },
{
    plugin::law_first_at(uris, identifier);
    plugin::law_fitting(lowered_names, lowered_identifier);
    let hits = plugin::fitting(lowered_names, lowered_identifier);
    assert(hits.contains(i) && hits.contains(j));
    let a = choose|a: int| 0 <= a < hits.len() && hits[a] == i;
    let b = choose|b: int| 0 <= b < hits.len() && hits[b] == j;
    assert(a != b);
    let list = hits.map_values(|k: int| names[k]);
    assert(hits.len() == list.len());
}

/// A lookup that finds a plugin finds one of the catalog that has the address, or the
/// identifier in its name.
pub proof fn law_found_fits(catalog: Seq<plugin::PluginInfo>, identifier: Seq<char>)
    ensures
        plugin::meant_plugin(
            plugin::uris(catalog),
            plugin::names(catalog),
            plugin::all_lowercase(plugin::names(catalog)),
            identifier,
            text::lowercase(identifier),
        ) matches plugin::LookupView::Found(i) ==> 0 <= i < catalog.len() && (
        catalog[i].uri@ == identifier || text::occurs_in(
            text::lowercase(identifier),
            text::lowercase(catalog[i].name@),
        )),
{
    law_catalog(catalog);
    let lowered = plugin::all_lowercase(plugin::names(catalog));
    plugin::law_first_at(plugin::uris(catalog), identifier);
    plugin::law_fitting(lowered, text::lowercase(identifier));
}

/// A text stands in another if that one is something, the text, and something behind it.
pub proof fn law_occurs(needle: Seq<char>, hay: Seq<char>)
    ensures
        text::occurs_in(needle, hay) <==> exists|before: Seq<char>, behind: Seq<char>| hay
            == #[trigger] (before + needle + behind),
{
    if text::occurs_in(needle, hay) {
        let at = choose|at: int|
            0 <= at <= hay.len() - needle.len() && #[trigger] hay.subrange(at, at + needle.len())
                == needle;
        let before = hay.take(at);
        let behind = hay.skip(at + needle.len());
        assert(hay =~= before + needle + behind);
    }
    if exists|before: Seq<char>, behind: Seq<char>| hay == #[trigger] (before + needle + behind) {
        let (before, behind) = choose|before: Seq<char>, behind: Seq<char>|
            hay == #[trigger] (before + needle + behind);
        let at = before.len() as int;
        assert(hay.subrange(at, at + needle.len()) =~= needle);
    }
}

/// What holds of the control values once the settings before number `n` are in force: at each
/// port that one of them names, the first with that name, stands the value of the last one
/// that names it; every other port has the value that it had.
#[verifier::opaque]
spec fn in_force(
    ports: Seq<Seq<char>>,
    before: Seq<u32>,
    after: Seq<u32>,
    settings: Seq<(Seq<char>, u32)>,
    n: int,
) -> bool {
    &&& after.len() == before.len()
    &&& forall|p: int, i: int|
        {
            &&& 0 <= p < ports.len()
            &&& 0 <= i < n
            &&& #[trigger] ports[p] == (#[trigger] settings[i]).0
            &&& forall|q: int| 0 <= q < p ==> ports[q] != settings[i].0
            &&& forall|j: int| i < j < n ==> (#[trigger] settings[j]).0 != settings[i].0
        } ==> after[p] == settings[i].1
    &&& forall|p: int|
        0 <= p < before.len() && (p < ports.len() ==> forall|i: int|
            0 <= i < n ==> (#[trigger] settings[i]).0 != ports[p]) ==> #[trigger] after[p]
            == before[p]
}

proof fn lemma_in_force(
    ports: Seq<Seq<char>>,
    controls: Seq<u32>,
    settings: Seq<(Seq<char>, u32)>,
)
    requires
        ports.len() <= controls.len(),
    ensures
        match plugin::set_ports(ports, controls, settings).1 {
            None => {
                &&& in_force(
                    ports,
                    controls,
                    plugin::set_ports(ports, controls, settings).0,
                    settings,
                    settings.len() as int,
                )
                &&& forall|i: int|
                    0 <= i < settings.len() ==> ports.contains((#[trigger] settings[i]).0)
            },
            Some(u) => {
                &&& 0 <= u < settings.len()
                &&& !ports.contains(settings[u].0)
                &&& forall|i: int| 0 <= i < u ==> ports.contains((#[trigger] settings[i]).0)
                &&& in_force(
                    ports,
                    controls,
                    plugin::set_ports(ports, controls, settings).0,
                    settings,
                    u,
                )
            },
        },
    decreases settings.len(),
{
    if settings.len() == 0 {
        reveal(in_force);
    } else {
        let init = settings.drop_last();
        let last = settings.last();
        let n = init.len() as int;
        lemma_in_force(ports, controls, init);
        plugin::law_first_at(ports, last.0);
        assert(forall|i: int| 0 <= i < n ==> #[trigger] settings[i] == init[i]);
        assert(settings[n] == last);
        let (before, stopped) = plugin::set_ports(ports, controls, init);
        let (after, unknown) = plugin::set_ports(ports, controls, settings);
        if let Some(u) = stopped {
            assert(in_force(ports, controls, after, init, u));
            assert(in_force(ports, controls, after, settings, u)) by {
                lemma_same_settings(ports, controls, after, init, settings, u);
            }
        } else if let Some(port) = plugin::first_at(ports, last.0) {
            assert(ports.contains(last.0));
            assert(after == before.update(port, last.1));
            lemma_same_settings(ports, controls, before, init, settings, n);
            lemma_one_more(ports, controls, before, settings, n, port);
        } else {
            assert(!ports.contains(last.0));
            lemma_same_settings(ports, controls, before, init, settings, n);
        }
    }
}

proof fn lemma_one_more(
    ports: Seq<Seq<char>>,
    controls: Seq<u32>,
    before: Seq<u32>,
    settings: Seq<(Seq<char>, u32)>,
    n: int,
    port: int,
)
    requires
        in_force(ports, controls, before, settings, n),
        0 <= n < settings.len(),
        0 <= port < ports.len() <= controls.len(),
        ports[port] == settings[n].0,
        forall|q: int| 0 <= q < port ==> ports[q] != settings[n].0,
    ensures
        in_force(ports, controls, before.update(port, settings[n].1), settings, n + 1),
{
    reveal(in_force);
    let last = settings[n];
    let after = before.update(port, last.1);
    assert forall|p: int, i: int|
        {
            &&& 0 <= p < ports.len()
            &&& 0 <= i < n + 1
            &&& #[trigger] ports[p] == (#[trigger] settings[i]).0
            &&& forall|q: int| 0 <= q < p ==> ports[q] != settings[i].0
            &&& forall|j: int| i < j < n + 1 ==> (#[trigger] settings[j]).0
                != settings[i].0
        } implies after[p] == settings[i].1 by {
        if i < n {
            assert(settings[n].0 != settings[i].0);
            assert(p != port);
            assert(before[p] == settings[i].1);
        } else {
            assert(p == port) by {
                if p < port {
                    assert(ports[p] != last.0);
                }
                if port < p {
                    assert(ports[port] != settings[i].0);
                }
            }
        }
    }
    assert forall|p: int|
        0 <= p < controls.len() && (p < ports.len() ==> forall|i: int|
            0 <= i < n + 1 ==> (#[trigger] settings[i]).0
                != ports[p]) implies #[trigger] after[p] == controls[p] by {
        if p < ports.len() {
            assert(settings[n].0 != ports[p]);
            assert forall|i: int| 0 <= i < n implies (#[trigger] settings[i]).0
                != ports[p] by {}
        }
        assert(before[p] == controls[p]);
    }
}

proof fn lemma_same_settings(
    ports: Seq<Seq<char>>,
    before: Seq<u32>,
    after: Seq<u32>,
    a: Seq<(Seq<char>, u32)>,
    b: Seq<(Seq<char>, u32)>,
    n: int,
)
    requires
        in_force(ports, before, after, a, n),
        0 <= n <= a.len() <= b.len(),
        forall|i: int| 0 <= i < n ==> #[trigger] a[i] == b[i],
    ensures
        in_force(ports, before, after, b, n),
{
    reveal(in_force);
    assert forall|p: int, i: int|
        {
            &&& 0 <= p < ports.len()
            &&& 0 <= i < n
            &&& #[trigger] ports[p] == (#[trigger] b[i]).0
            &&& forall|q: int| 0 <= q < p ==> ports[q] != b[i].0
            &&& forall|j: int| i < j < n ==> (#[trigger] b[j]).0 != b[i].0
        } implies after[p] == b[i].1 by {
        assert(a[i] == b[i]);
        assert forall|j: int| i < j < n implies (#[trigger] a[j]).0 != a[i].0 by {
            assert(a[j] == b[j]);
            assert(b[j].0 != b[i].0);
        }
    }
    assert forall|p: int|
        0 <= p < before.len() && (p < ports.len() ==> forall|i: int|
            0 <= i < n ==> (#[trigger] b[i]).0 != ports[p]) implies #[trigger] after[p]
        == before[p] by {
        if p < ports.len() {
            assert forall|i: int| 0 <= i < n implies (#[trigger] a[i]).0 != ports[p] by {
                assert(b[i].0 != ports[p]);
            }
        }
    }
}

/// The value of a setting arrives unchanged at the port that it names: the first port whose
/// name is the same but for upper and lower case gets the value of the last setting of that
/// name, bit for bit, and no other port is touched. Every setting names a port, or the first
/// one that names none is reported, and those before it are in force.
pub proof fn law_settings_arrive(
    port_names: Seq<Seq<char>>,
    controls: Seq<u32>,
    settings: Seq<(Seq<char>, u32)>,
)
    requires
        port_names.len() <= controls.len(),
    ensures
        ({
            let (after, unknown) = plugin::set_ports(
                plugin::all_lowercase(port_names),
                controls,
                plugin::lowercase_params(settings),
            );
            let n = match unknown {
                None => settings.len() as int,
                Some(u) => u,
            };
            &&& 0 <= n <= settings.len()
            &&& after.len() == controls.len()
            &&& unknown is Some ==> n < settings.len() && forall|p: int|
                0 <= p < port_names.len() ==> text::lowercase(#[trigger] port_names[p])
                    != text::lowercase(settings[n].0)
            &&& forall|i: int|
                0 <= i < n ==> exists|p: int|
                    0 <= p < port_names.len() && text::lowercase(#[trigger] port_names[p])
                        == text::lowercase((#[trigger] settings[i]).0)
            &&& forall|p: int, i: int|
                {
                    &&& 0 <= p < port_names.len()
                    &&& 0 <= i < n
                    &&& text::lowercase(#[trigger] port_names[p]) == text::lowercase(
                        (#[trigger] settings[i]).0,
                    )
                    &&& forall|q: int|
                        0 <= q < p ==> text::lowercase(#[trigger] port_names[q])
                            != text::lowercase(settings[i].0)
                    &&& forall|j: int|
                        i < j < n ==> text::lowercase((#[trigger] settings[j]).0)
                            != text::lowercase(settings[i].0)
                } ==> after[p] == settings[i].1
            &&& forall|p: int|
                0 <= p < controls.len() && (p < port_names.len() ==> forall|i: int|
                    0 <= i < n ==> text::lowercase((#[trigger] settings[i]).0) != text::lowercase(
                        port_names[p],
                    )) ==> #[trigger] after[p] == controls[p]
        }),
{
    let ports = plugin::all_lowercase(port_names);
    let lowered = plugin::lowercase_params(settings);
    lemma_in_force(ports, controls, lowered);
    reveal(in_force);
    let (after, unknown) = plugin::set_ports(ports, controls, lowered);
    let n: int = match unknown {
        None => settings.len() as int,
        Some(u) => u,
    };
    assert(forall|p: int|
        0 <= p < port_names.len() ==> #[trigger] ports[p] == text::lowercase(port_names[p]));
    assert(forall|i: int|
        0 <= i < settings.len() ==> #[trigger] lowered[i] == (
            text::lowercase(settings[i].0),
            settings[i].1,
        ));
    if unknown is Some {
        assert forall|p: int| 0 <= p < port_names.len() implies text::lowercase(
            #[trigger] port_names[p],
        ) != text::lowercase(settings[n].0) by {
            assert(ports[p] == text::lowercase(port_names[p]));
            assert(lowered[n].0 == text::lowercase(settings[n].0));
            assert(!ports.contains(lowered[n].0));
        }
    }
    assert forall|i: int| 0 <= i < n implies exists|p: int|
        0 <= p < port_names.len() && text::lowercase(#[trigger] port_names[p]) == text::lowercase(
            (#[trigger] settings[i]).0,
        ) by {
        assert(ports.contains(lowered[i].0));
        let p = choose|p: int| 0 <= p < ports.len() && ports[p] == lowered[i].0;
        assert(text::lowercase(port_names[p]) == text::lowercase(settings[i].0));
    }
    assert forall|p: int, i: int|
        {
            &&& 0 <= p < port_names.len()
            &&& 0 <= i < n
            &&& text::lowercase(#[trigger] port_names[p]) == text::lowercase(
                (#[trigger] settings[i]).0,
            )
            &&& forall|q: int|
                0 <= q < p ==> text::lowercase(#[trigger] port_names[q]) != text::lowercase(
                    settings[i].0,
                )
            &&& forall|j: int|
                i < j < n ==> text::lowercase((#[trigger] settings[j]).0) != text::lowercase(
                    settings[i].0,
                )
        } implies after[p] == settings[i].1 by {
        assert(ports[p] == lowered[i].0);
        assert forall|q: int| 0 <= q < p implies ports[q] != lowered[i].0 by {
            assert(text::lowercase(port_names[q]) != text::lowercase(settings[i].0));
        }
        assert forall|j: int| i < j < n implies (#[trigger] lowered[j]).0 != lowered[i].0 by {
            assert(text::lowercase(settings[j].0) != text::lowercase(settings[i].0));
        }
        assert(after[p] == lowered[i].1);
    }
    assert forall|p: int|
        0 <= p < controls.len() && (p < port_names.len() ==> forall|i: int|
            0 <= i < n ==> text::lowercase((#[trigger] settings[i]).0) != text::lowercase(
                port_names[p],
            )) implies #[trigger] after[p] == controls[p] by {
        if p < ports.len() {
            assert forall|i: int| 0 <= i < n implies (#[trigger] lowered[i]).0 != ports[p] by {
                assert(text::lowercase(settings[i].0) != text::lowercase(port_names[p]));
            }
        }
    }
}

/// Candidates stand one on each line: with a line break behind each of them they are the
/// lines with a line break behind them.
pub proof fn law_lines(list: Seq<Seq<char>>)
    requires
        list.len() > 0,
    ensures
        chain::lines(list).push('\n') == list.map_values(|s: Seq<char>| s.push('\n')).flatten(),
    decreases list.len(),
{
    let ended = list.map_values(|s: Seq<char>| s.push('\n'));
    let init = list.drop_last();
    let before = init.map_values(|s: Seq<char>| s.push('\n'));
    assert(ended =~= before.push(list.last().push('\n')));
    before.lemma_flatten_push(list.last().push('\n'));
    if list.len() > 1 {
        law_lines(init);
    } else {
        assert(before =~= Seq::empty());
    }
    assert(chain::lines(list).push('\n') =~= ended.flatten());
}

/// The number of a setting is that number.
pub proof fn law_index_view(i: Option<usize>)
    ensures
        i is None <==> plugin::index_view(i) is None,
        i matches Some(n) ==> plugin::index_view(i) == Some(n as int),
{
}

/// A chain can render an input if the first plugin takes its channels, or takes two where the
/// input has one, and every other plugin takes what the one before it gives; and a chain that
/// can render the input can do so without its last plugin.
pub proof fn law_compatible(
    input: usize,
    stages: Seq<plugin::PortCounts>,
    ports: plugin::PortCounts,
)
    ensures
        chain::compatible(input, Seq::empty()),
        chain::compatible(input, seq![ports]) <==> ports.audio_inputs == input || (input == 1
            && ports.audio_inputs == 2),
        stages.len() > 0 ==> (chain::compatible(input, stages.push(ports)) <==> chain::compatible(
            input,
            stages,
        ) && ports.audio_inputs == stages[stages.len() - 1].audio_outputs),
        chain::channels_after(input, Seq::empty()) == input,
        chain::channels_after(input, stages.push(ports)) == ports.audio_outputs,
{
    assert(seq![ports][0] == ports);
    let more = stages.push(ports);
    if stages.len() > 0 {
        assert(more[stages.len() as int] == ports);
        assert(forall|i: int| 0 <= i < stages.len() ==> #[trigger] more[i] == stages[i]);
        if chain::compatible(input, more) {
            assert forall|i: int| 0 < i < stages.len() implies (#[trigger] stages[i]).audio_inputs
                == stages[i - 1].audio_outputs by {
                assert(more[i].audio_inputs == more[i - 1].audio_outputs);
            }
        }
    }
}

} // verus!
