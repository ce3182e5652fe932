//! What holds of the library as a whole.
pub mod lookup;
pub mod reading;
pub mod rendering;

use vstd::prelude::*;

use crate::audio;
use crate::chain;
use crate::config;
use crate::document;
use crate::plugin;
use crate::processing;
use crate::text;

verus! {

/// The pieces with a separator between them.
pub open spec fn join_with(pieces: Seq<Seq<char>>, sep: char) -> Seq<char>
    decreases pieces.len(),
{
    if pieces.len() == 0 {
        Seq::<char>::empty()
    } else if pieces.len() == 1 {
        pieces[0]
    } else {
        join_with(pieces.drop_last(), sep).push(sep) + pieces.last()
    }
}

/// Splitting a text loses nothing: there is a piece at least, no piece holds the separator,
/// every character of a piece is one of the text, and the pieces with separators between them
/// are the text again.
pub proof fn law_split(s: Seq<char>, sep: char)
    ensures
        text::split_on(s, sep).len() > 0,
        forall|i: int|
            0 <= i < text::split_on(s, sep).len() ==> !(#[trigger] text::split_on(
                s,
                sep,
            )[i]).contains(sep),
        forall|i: int, c: char|
            0 <= i < text::split_on(s, sep).len() && #[trigger] text::split_on(
                s,
                sep,
            )[i].contains(c) ==> s.contains(c),
        join_with(text::split_on(s, sep), sep) == s,
    decreases s.len(),
{
    let pieces = text::split_on(s, sep);
    if s.len() == 0 {
        assert(join_with(pieces, sep) =~= s);
    } else {
        let init = s.drop_last();
        let before = text::split_on(init, sep);
        let c = s.last();
        law_split(init, sep);
        assert(s =~= init.push(c));
        if c == sep {
            assert(pieces.drop_last() =~= before);
            assert(join_with(pieces, sep) =~= s);
        } else {
            assert(pieces.drop_last() =~= before.drop_last());
            assert(pieces.last() =~= before.last().push(c));
            assert(join_with(pieces, sep) =~= join_with(before, sep).push(c));
        }
        assert forall|i: int| 0 <= i < pieces.len() implies !(#[trigger] pieces[i]).contains(
            sep,
        ) by {
            if i < before.len() {
                assert(!before[i].contains(sep));
            }
            if c != sep && i == pieces.len() - 1 {
                assert(pieces[i] == before[i].push(c));
                assert forall|j: int| 0 <= j < pieces[i].len() implies pieces[i][j] != sep by {
                    if j < before[i].len() {
                        assert(before[i].contains(before[i][j]));
                    }
                }
            }
        }
        assert forall|i: int, d: char|
            0 <= i < pieces.len() && #[trigger] pieces[i].contains(d) implies s.contains(d) by {
            let j = choose|j: int| 0 <= j < pieces[i].len() && pieces[i][j] == d;
            if i < before.len() && j < before[i].len() {
                assert(before[i].contains(d));
                let k = choose|k: int| 0 <= k < init.len() && init[k] == d;
                assert(s[k] == d);
            } else {
                assert(s[s.len() - 1] == d);
            }
        }
    }
}

/// Splitting two texts with a separator between them gives the pieces of both.
pub proof fn law_split_appended(a: Seq<char>, b: Seq<char>, sep: char)
    ensures
        text::split_on(a.push(sep) + b, sep) == text::split_on(a, sep) + text::split_on(b, sep),
    decreases b.len(),
{
    let s = a.push(sep) + b;
    let first = text::split_on(a, sep);
    let second = text::split_on(b, sep);
    if b.len() == 0 {
        assert(s.drop_last() =~= a);
        assert(text::split_on(s, sep) =~= first + second);
    } else {
        let init = b.drop_last();
        law_split_appended(a, init, sep);
        law_split(init, sep);
        assert(s.drop_last() =~= a.push(sep) + init);
        assert(text::split_on(s, sep) =~= first + second);
    }
}

/// A text without the separator is one piece.
pub proof fn law_split_plain(s: Seq<char>, sep: char)
    requires
        !s.contains(sep),
    ensures
        text::split_on(s, sep) == seq![s],
    decreases s.len(),
{
    if s.len() == 0 {
        assert(s =~= Seq::<char>::empty());
        assert(text::split_on(s, sep) =~= seq![s]);
    } else {
        let init = s.drop_last();
        assert forall|j: int| 0 <= j < init.len() implies init[j] != sep by {
            assert(s.contains(s[j]));
        }
        assert(s.contains(s.last()));
        law_split_plain(init, sep);
        assert(init.push(s.last()) =~= s);
        assert(text::split_on(s, sep) =~= seq![s]);
    }
}

/// Splitting undoes joining: pieces without the separator come back out of the text that has
/// them with separators between them.
pub proof fn law_split_joined(pieces: Seq<Seq<char>>, sep: char)
    requires
        pieces.len() > 0,
        forall|i: int| 0 <= i < pieces.len() ==> !(#[trigger] pieces[i]).contains(sep),
    ensures
        text::split_on(join_with(pieces, sep), sep) == pieces,
    decreases pieces.len(),
{
    let init = pieces.drop_last();
    let last = pieces[pieces.len() - 1];
    law_split_plain(last, sep);
    if pieces.len() == 1 {
        assert(pieces =~= seq![last]);
    } else {
        assert forall|i: int| 0 <= i < init.len() implies !(#[trigger] init[i]).contains(sep) by {
            assert(init[i] == pieces[i]);
        }
        law_split_joined(init, sep);
        law_split_appended(join_with(init, sep), last, sep);
        assert(init + seq![last] =~= pieces);
    }
}

/// Trimming removes white space at the ends only: what is left is a part of the text with no
/// white space at its ends, and what is before and behind it is white space.
pub proof fn law_trim(s: Seq<char>)
    ensures
        exists|from: int, to: int|
            {
                &&& 0 <= from <= to <= s.len()
                &&& text::trim(s) == #[trigger] s.subrange(from, to)
                &&& forall|i: int| 0 <= i < from || to <= i < s.len() ==> text::is_space(s[i])
            },
        text::trim(s).len() > 0 ==> !text::is_space(text::trim(s)[0]) && !text::is_space(
            text::trim(s).last(),
        ),
        text::trim(text::trim(s)) == text::trim(s),
{
    let from = lemma_trim_start(s);
    let rest = text::trim_start(s);
    let to = lemma_trim_end(rest);
    let t = text::trim(s);
    assert(t =~= s.subrange(from, from + to));
    assert forall|i: int| 0 <= i < from || from + to <= i < s.len() implies text::is_space(
        s[i],
    ) by {
        if i >= from + to {
            assert(rest[i - from] == s[i]);
        }
    }
    if t.len() > 0 {
        assert(t[0] == rest[0]);
    }
}

proof fn lemma_trim_start(s: Seq<char>) -> (from: int)
    ensures
        0 <= from <= s.len(),
        text::trim_start(s) == s.skip(from),
        forall|i: int| 0 <= i < from ==> text::is_space(s[i]),
        text::trim_start(s).len() > 0 ==> !text::is_space(text::trim_start(s)[0]),
    decreases s.len(),
{
    if s.len() > 0 && text::is_space(s[0]) {
        let from = lemma_trim_start(s.drop_first());
        assert(s.drop_first().skip(from) =~= s.skip(from + 1));
        assert forall|i: int| 0 <= i < from + 1 implies text::is_space(s[i]) by {
            if i > 0 {
                assert(s.drop_first()[i - 1] == s[i]);
            }
        }
        from + 1
    } else {
        assert(s.skip(0) =~= s);
        0
    }
}

proof fn lemma_trim_end(s: Seq<char>) -> (to: int)
    ensures
        0 <= to <= s.len(),
        text::trim_end(s) == s.take(to),
        forall|i: int| to <= i < s.len() ==> text::is_space(s[i]),
        text::trim_end(s).len() > 0 ==> !text::is_space(text::trim_end(s).last()),
    decreases s.len(),
{
    if s.len() > 0 && text::is_space(s.last()) {
        let to = lemma_trim_end(s.drop_last());
        assert(s.drop_last().take(to) =~= s.take(to));
        assert forall|i: int| to <= i < s.len() implies text::is_space(s[i]) by {
            if i < s.len() - 1 {
                assert(s.drop_last()[i] == s[i]);
            }
        }
        to
    } else {
        assert(s.take(s.len() as int) =~= s);
        s.len() as int
    }
}

/// The text `name=value`.
pub open spec fn pair_text(pair: (Seq<char>, Seq<char>)) -> Seq<char> {
    pair.0.push('=') + pair.1
}

/// The text `plugin:name=value:name=value`.
pub open spec fn setting_text(name: Seq<char>, pairs: Seq<(Seq<char>, Seq<char>)>) -> Seq<char>
    decreases pairs.len(),
{
    if pairs.len() == 0 {
        name
    } else {
        setting_text(name, pairs.drop_last()).push(':') + pair_text(pairs.last())
    }
}

/// The parameters that the pairs set, one after the other.
pub open spec fn pair_params(
    pairs: Seq<(Seq<char>, Seq<char>)>,
    num: spec_fn(Seq<char>) -> Option<u32>,
) -> Seq<(Seq<char>, u32)>
    decreases pairs.len(),
{
    if pairs.len() == 0 {
        Seq::empty()
    } else {
        plugin::set_param(
            pair_params(pairs.drop_last(), num),
            text::trim(pairs.last().0),
            num(pairs.last().1)->0,
        )
    }
}

/// A name and a value without the characters that separate, the value a finite number.
pub open spec fn plain_pair(
    pair: (Seq<char>, Seq<char>),
    num: spec_fn(Seq<char>) -> Option<u32>,
) -> bool {
    &&& !pair.0.contains(':') && !pair.0.contains('=')
    &&& !pair.1.contains(':') && !pair.1.contains('=')
    &&& num(pair.1) is Some
    &&& config::finite(num(pair.1)->0)
}

/// A plugin name that reads as it is written: it holds no `=`, and the parts between its
/// colons have no white space around them; it does not start with a colon.
pub open spec fn plain_name(name: Seq<char>) -> bool {
    &&& name.len() > 0
    &&& name[0] != ':'
    &&& !name.contains('=')
    &&& forall|i: int|
        0 <= i < text::split_on(name, ':').len() ==> text::trim(
            #[trigger] text::split_on(name, ':')[i],
        ) == text::split_on(name, ':')[i]
}

/// The first piece holds what comes before the first separator.
proof fn lemma_first_piece(s: Seq<char>, sep: char)
    requires
        s.len() > 0,
        s[0] != sep,
    ensures
        text::split_on(s, sep)[0].len() > 0,
    decreases s.len(),
{
    let init = s.drop_last();
    law_split(init, sep);
    if s.len() > 1 {
        lemma_first_piece(init, sep);
    } else {
        assert(init =~= Seq::<char>::empty());
    }
}

/// Joining trimmed pieces puts the colons back.
proof fn lemma_joined(pieces: Seq<Seq<char>>)
    requires
        pieces.len() > 0,
        pieces[0].len() > 0,
        forall|i: int| 0 <= i < pieces.len() ==> text::trim(#[trigger] pieces[i]) == pieces[i],
    ensures
        config::joined(pieces) == join_with(pieces, ':'),
        config::joined(pieces).len() > 0,
    decreases pieces.len(),
{
    let init = pieces.drop_last();
    assert(text::trim(pieces[pieces.len() - 1]) == pieces.last());
    if pieces.len() == 1 {
        assert(config::joined(init).len() == 0);
    } else {
        assert forall|i: int| 0 <= i < init.len() implies text::trim(#[trigger] init[i])
            == init[i] by {
            assert(init[i] == pieces[i]);
        }
        lemma_joined(init);
    }
}

/// Reading the text `name=value`.
proof fn lemma_pair(pair: (Seq<char>, Seq<char>), num: spec_fn(Seq<char>) -> Option<u32>)
    requires
        plain_pair(pair, num),
    ensures
        config::key_value(pair_text(pair), num) == Ok::<(Seq<char>, u32), config::ParamFault>(
            (text::trim(pair.0), num(pair.1)->0),
        ),
        pair_text(pair).contains('='),
        !pair_text(pair).contains(':'),
        text::trim(pair_text(pair)).len() > 0,
{
    let s = pair_text(pair);
    law_split_appended(pair.0, pair.1, '=');
    law_split_plain(pair.0, '=');
    law_split_plain(pair.1, '=');
    assert(text::split_on(s, '=') =~= seq![pair.0, pair.1]);
    assert(s[pair.0.len() as int] == '=');
    assert forall|j: int| 0 <= j < s.len() implies s[j] != ':' by {
        if j < pair.0.len() {
            assert(pair.0.contains(pair.0[j]));
        } else if j > pair.0.len() {
            assert(pair.1.contains(pair.1[j - pair.0.len() - 1]));
        }
    }
    law_trim(s);
}

/// The texts of the pairs.
pub open spec fn pair_texts(pairs: Seq<(Seq<char>, Seq<char>)>) -> Seq<Seq<char>> {
    pairs.map_values(|pair: (Seq<char>, Seq<char>)| pair_text(pair))
}

/// The parts of the text of a setting.
proof fn lemma_setting_parts(
    name: Seq<char>,
    pairs: Seq<(Seq<char>, Seq<char>)>,
    num: spec_fn(Seq<char>) -> Option<u32>,
)
    requires
        forall|i: int| 0 <= i < pairs.len() ==> plain_pair(#[trigger] pairs[i], num),
    ensures
        text::split_on(setting_text(name, pairs), ':') == text::split_on(name, ':') + pair_texts(
            pairs,
        ),
        config::read_parts(Seq::empty(), pair_texts(pairs), num) == (
            pair_params(pairs, num),
            None::<(Seq<char>, config::ParamFault)>,
        ),
    decreases pairs.len(),
{
    if pairs.len() == 0 {
        assert(pair_texts(pairs) =~= Seq::<Seq<char>>::empty());
        assert(text::split_on(name, ':') =~= text::split_on(name, ':') + pair_texts(pairs));
    } else {
        let init = pairs.drop_last();
        let last = pairs.last();
        assert forall|i: int| 0 <= i < init.len() implies plain_pair(#[trigger] init[i], num) by {
            assert(init[i] == pairs[i]);
        }
        assert(last == pairs[pairs.len() - 1]);
        lemma_setting_parts(name, init, num);
        lemma_pair(last, num);
        law_split_appended(setting_text(name, init), pair_text(last), ':');
        law_split_plain(pair_text(last), ':');
        assert(pair_texts(pairs) =~= pair_texts(init).push(pair_text(last)));
        assert(pair_texts(pairs).drop_last() =~= pair_texts(init));
        assert(text::split_on(setting_text(name, pairs), ':') =~= text::split_on(name, ':')
            + pair_texts(pairs));
    }
}

/// How many plain parts a setting starts with.
proof fn lemma_plain_parts(first: Seq<Seq<char>>, second: Seq<Seq<char>>)
    requires
        forall|i: int| 0 <= i < first.len() ==> !(#[trigger] first[i]).contains('='),
        second.len() > 0 ==> second[0].contains('='),
    ensures
        config::leading_plain(first + second) == first.len(),
    decreases first.len(),
{
    let all = first + second;
    if first.len() == 0 {
        if second.len() > 0 {
            assert(all[0] == second[0]);
        }
    } else {
        let rest = first.drop_first();
        assert forall|i: int| 0 <= i < rest.len() implies !(#[trigger] rest[i]).contains('=') by {
            assert(rest[i] == first[i + 1]);
        }
        assert(all[0] == first[0]);
        assert(all.drop_first() =~= rest + second);
        lemma_plain_parts(rest, second);
    }
}

/// A text of the form `plugin:name=value:name=value` asks for the plugin of that name, with
/// these parameters set to these values, where the last value of a parameter counts.
pub proof fn law_setting_format(
    name: Seq<char>,
    pairs: Seq<(Seq<char>, Seq<char>)>,
    num: spec_fn(Seq<char>) -> Option<u32>,
)
    requires
        plain_name(name),
        forall|i: int| 0 <= i < pairs.len() ==> plain_pair(#[trigger] pairs[i], num),
    ensures
        config::plugin_setting(setting_text(name, pairs), num) == Ok::<
            plugin::SettingView,
            Seq<char>,
        >(plugin::SettingView { identifier: name, params: pair_params(pairs, num) }),
{
    let pieces = text::split_on(name, ':');
    let parts = text::split_on(setting_text(name, pairs), ':');
    lemma_setting_parts(name, pairs, num);
    law_split(name, ':');
    lemma_first_piece(name, ':');
    lemma_joined(pieces);
    assert forall|i: int| 0 <= i < pieces.len() implies !(#[trigger] pieces[i]).contains('=') by {
        if pieces[i].contains('=') {
            assert(name.contains('='));
        }
    }
    if pairs.len() > 0 {
        lemma_pair(pairs[0], num);
        assert(pair_texts(pairs)[0] == pair_text(pairs[0]));
    }
    lemma_plain_parts(pieces, pair_texts(pairs));
    assert(parts.take(pieces.len() as int) =~= pieces);
    assert(parts.skip(pieces.len() as int) =~= pair_texts(pairs));
}

/// The texts of the pairs as the items of a list.
pub open spec fn pair_items(pairs: Seq<(Seq<char>, Seq<char>)>) -> Seq<Option<Seq<char>>> {
    pairs.map_values(|pair: (Seq<char>, Seq<char>)| Some(pair_text(pair)))
}

proof fn lemma_list_of_pairs(
    pairs: Seq<(Seq<char>, Seq<char>)>,
    num: spec_fn(Seq<char>) -> Option<u32>,
)
    requires
        forall|i: int| 0 <= i < pairs.len() ==> plain_pair(#[trigger] pairs[i], num),
    ensures
        document::list_params(pair_items(pairs), num) == Ok::<
            Seq<(Seq<char>, u32)>,
            document::ChainFault,
        >(pair_params(pairs, num)),
    decreases pairs.len(),
{
    if pairs.len() > 0 {
        let init = pairs.drop_last();
        assert forall|i: int| 0 <= i < init.len() implies plain_pair(#[trigger] init[i], num) by {
            assert(init[i] == pairs[i]);
        }
        assert(pairs.last() == pairs[pairs.len() - 1]);
        lemma_list_of_pairs(init, num);
        lemma_pair(pairs.last(), num);
        assert(pair_items(pairs).drop_last() =~= pair_items(init));
    }
}

/// The two forms of an item in a chain file ask for the same: the text
/// `plugin:name=value:name=value`, and the name of the plugin with a list of the texts
/// `name=value` under it.
pub proof fn law_file_forms_agree(
    name: Seq<char>,
    pairs: Seq<(Seq<char>, Seq<char>)>,
    num: spec_fn(Seq<char>) -> Option<u32>,
    nar: spec_fn(u64) -> u32,
)
    requires
        plain_name(name),
        forall|i: int| 0 <= i < pairs.len() ==> plain_pair(#[trigger] pairs[i], num),
    ensures
        document::entry_settings(
            document::EntryView::Table(
                seq![(Some(name), document::SourceView::List(pair_items(pairs)))],
            ),
            num,
            nar,
        ) == document::entry_settings(
            document::EntryView::Text(setting_text(name, pairs)),
            num,
            nar,
        ),
{
    law_setting_format(name, pairs, num);
    lemma_list_of_pairs(pairs, num);
    let table = seq![(Some(name), document::SourceView::List(pair_items(pairs)))];
    let setting = plugin::SettingView { identifier: name, params: pair_params(pairs, num) };
    assert(table.drop_last() =~= Seq::empty());
    assert(document::table_settings(table.drop_last(), num, nar) == Ok::<
        Seq<plugin::SettingView>,
        document::ChainFault,
    >(Seq::empty()));
    assert(Seq::<plugin::SettingView>::empty().push(setting) =~= seq![setting]);
}

/// Under the name of a plugin, one text `name=value:name=value` asks for the same as a list of
/// the texts `name=value`.
pub proof fn law_parameter_forms_agree(
    pairs: Seq<(Seq<char>, Seq<char>)>,
    num: spec_fn(Seq<char>) -> Option<u32>,
    nar: spec_fn(u64) -> u32,
)
    requires
        pairs.len() > 0,
        forall|i: int| 0 <= i < pairs.len() ==> plain_pair(#[trigger] pairs[i], num),
    ensures
        document::source_params(
            document::SourceView::Text(join_with(pair_texts(pairs), ':')),
            num,
            nar,
        ) == document::source_params(document::SourceView::List(pair_items(pairs)), num, nar),
{
    let parts = pair_texts(pairs);
    let s = join_with(parts, ':');
    lemma_list_of_pairs(pairs, num);
    lemma_setting_parts(Seq::empty(), pairs, num);
    assert forall|i: int| 0 <= i < parts.len() implies !(#[trigger] parts[i]).contains(':') by {
        lemma_pair(pairs[i], num);
    }
    law_split_joined(parts, ':');
    if !s.contains(':') {
        law_split_plain(s, ':');
        assert(parts =~= seq![s]);
        assert(parts.len() == 1);
        assert(parts[0] == pair_text(pairs[0]));
        lemma_pair(pairs[0], num);
        let init = pairs.drop_last();
        assert(pair_params(init, num) == Seq::<(Seq<char>, u32)>::empty());
        assert(pairs.last() == pairs[0]);
    }
}

/// The plugins of a chain file stand in the chain in the order of the file: what a list asks
/// for is what its first part asks for, followed by what the rest asks for.
pub proof fn law_chain_order(
    first: Seq<document::EntryView>,
    second: Seq<document::EntryView>,
    num: spec_fn(Seq<char>) -> Option<u32>,
    nar: spec_fn(u64) -> u32,
)
    ensures
        document::list_settings(first + second, num, nar) == match document::list_settings(
            first,
            num,
            nar,
        ) {
            Err(fault) => Err(fault),
            Ok(before) => match document::list_settings(second, num, nar) {
                Err(fault) => Err(fault),
                Ok(behind) => Ok(before + behind),
            },
        },
    decreases second.len(),
{
    if second.len() == 0 {
        assert(first + second =~= first);
        if let Ok(before) = document::list_settings(first, num, nar) {
            assert(before + Seq::<plugin::SettingView>::empty() =~= before);
        }
    } else {
        let init = second.drop_last();
        law_chain_order(first, init, num, nar);
        assert((first + second).drop_last() =~= first + init);
        if let Ok(before) = document::list_settings(first, num, nar) {
            if let Ok(middle) = document::list_settings(init, num, nar) {
                if let Ok(more) = document::entry_settings(second.last(), num, nar) {
                    assert((before + middle) + more =~= before + (middle + more));
                }
            }
        }
    }
}

/// All values are finite.
pub open spec fn all_finite(params: Seq<(Seq<char>, u32)>) -> bool {
    forall|i: int| 0 <= i < params.len() ==> config::finite((#[trigger] params[i]).1)
}

/// Parameters read into distinct finite ones are distinct and finite.
pub proof fn law_read_parts_keeps(
    base: Seq<(Seq<char>, u32)>,
    parts: Seq<Seq<char>>,
    num: spec_fn(Seq<char>) -> Option<u32>,
)
    requires
        plugin::distinct(base),
        all_finite(base),
    ensures
        plugin::distinct(config::read_parts(base, parts, num).0),
        all_finite(config::read_parts(base, parts, num).0),
    decreases parts.len(),
{
    if parts.len() > 0 {
        law_read_parts_keeps(base, parts.drop_last(), num);
        let params = config::read_parts(base, parts.drop_last(), num).0;
        if let Ok(pair) = config::key_value(parts.last(), num) {
            plugin::law_set_param_is_map_insert(params, pair.0, pair.1);
        }
    }
}

/// A plugin text that is read gives a plugin identifier that is not empty, and parameters
/// with distinct names and finite values.
pub proof fn law_setting_is_valid(s: Seq<char>, num: spec_fn(Seq<char>) -> Option<u32>)
    ensures
        config::plugin_setting(s, num) matches Ok(setting) ==> {
            &&& setting.identifier.len() > 0
            &&& plugin::distinct(setting.params)
            &&& all_finite(setting.params)
        },
{
    let parts = text::split_on(s, ':');
    law_read_parts_keeps(
        Seq::empty(),
        parts.skip(config::leading_plain(parts) as int),
        num,
    );
}

proof fn lemma_read_params_keeps(
    base: Seq<(Seq<char>, u32)>,
    s: Seq<char>,
    num: spec_fn(Seq<char>) -> Option<u32>,
)
    requires
        plugin::distinct(base),
        all_finite(base),
    ensures
        plugin::distinct(config::read_params(base, s, num).0),
        all_finite(config::read_params(base, s, num).0),
{
    law_read_parts_keeps(base, text::split_on(s, ':'), num);
    if let Ok(pair) = config::key_value(s, num) {
        plugin::law_set_param_is_map_insert(base, pair.0, pair.1);
    }
}

proof fn lemma_list_params_valid(
    list: Seq<Option<Seq<char>>>,
    num: spec_fn(Seq<char>) -> Option<u32>,
)
    ensures
        document::list_params(list, num) matches Ok(params) ==> plugin::distinct(params)
            && all_finite(params),
    decreases list.len(),
{
    if list.len() > 0 {
        lemma_list_params_valid(list.drop_last(), num);
        if let Ok(params) = document::list_params(list.drop_last(), num) {
            if let Some(s) = list.last() {
                lemma_read_params_keeps(params, s, num);
            }
        }
    }
}

proof fn lemma_table_params_valid(
    table: Seq<(Option<Seq<char>>, Option<u64>)>,
    nar: spec_fn(u64) -> u32,
)
    ensures
        document::table_params(table, nar) matches Ok(params) ==> plugin::distinct(params)
            && all_finite(params),
    decreases table.len(),
{
    if table.len() > 0 {
        lemma_table_params_valid(table.drop_last(), nar);
        if let Ok(params) = document::table_params(table.drop_last(), nar) {
            if let (Some(name), Some(bits)) = table.last() {
                plugin::law_set_param_is_map_insert(params, name, nar(bits));
            }
        }
    }
}

/// Each setting has parameters with distinct names and finite values.
pub open spec fn settings_valid(settings: Seq<plugin::SettingView>) -> bool {
    forall|i: int|
        0 <= i < settings.len() ==> plugin::distinct((#[trigger] settings[i]).params)
            && all_finite(settings[i].params)
}

proof fn lemma_table_settings_valid(
    table: Seq<(Option<Seq<char>>, document::SourceView)>,
    num: spec_fn(Seq<char>) -> Option<u32>,
    nar: spec_fn(u64) -> u32,
)
    ensures
        document::table_settings(table, num, nar) matches Ok(settings) ==> settings_valid(
            settings,
        ),
    decreases table.len(),
{
    if table.len() > 0 {
        lemma_table_settings_valid(table.drop_last(), num, nar);
        match table.last().1 {
            document::SourceView::Text(s) => {
                lemma_read_params_keeps(Seq::empty(), s, num);
            },
            document::SourceView::List(list) => {
                lemma_list_params_valid(list, num);
            },
            document::SourceView::Table(entries) => {
                lemma_table_params_valid(entries, nar);
            },
            document::SourceView::Other => {},
        }
    }
}

/// A chain file that is read gives settings whose parameters have distinct names and finite
/// values.
pub proof fn law_chain_is_valid(
    doc: document::DocumentView,
    num: spec_fn(Seq<char>) -> Option<u32>,
    nar: spec_fn(u64) -> u32,
)
    ensures
        document::chain(doc, num, nar) matches Ok(settings) ==> settings_valid(settings),
{
    if let document::DocumentView::Entries(entries) = doc {
        lemma_list_settings_valid(entries, num, nar);
    }
}

proof fn lemma_list_settings_valid(
    entries: Seq<document::EntryView>,
    num: spec_fn(Seq<char>) -> Option<u32>,
    nar: spec_fn(u64) -> u32,
)
    ensures
        document::list_settings(entries, num, nar) matches Ok(settings) ==> settings_valid(
            settings,
        ),
    decreases entries.len(),
{
    if entries.len() > 0 {
        lemma_list_settings_valid(entries.drop_last(), num, nar);
        match entries.last() {
            document::EntryView::Text(s) => {
                law_setting_is_valid(s, num);
            },
            document::EntryView::Table(table) => {
                lemma_table_settings_valid(table, num, nar);
            },
            document::EntryView::Other => {},
        }
    }
}

/// Setting control values touches the named ports only, and leaves at each of them the value
/// of the last setting that names it.
#[verifier::rlimit(50)]
pub proof fn law_set_ports(
    ports: Seq<Seq<char>>,
    controls: Seq<u32>,
    settings: Seq<(Seq<char>, u32)>,
)
    requires
        ports.len() <= controls.len(),
    ensures
        plugin::set_ports(ports, controls, settings).0.len() == controls.len(),
        forall|p: int|
            0 <= p < controls.len() && (forall|i: int|
                0 <= i < settings.len() ==> plugin::first_at(ports, (#[trigger] settings[i]).0)
                    != Some(p)) ==> #[trigger] plugin::set_ports(ports, controls, settings).0[p]
                == controls[p],
        plugin::set_ports(ports, controls, settings).1 is None ==> forall|i: int|
            0 <= i < settings.len() ==> plugin::first_at(
                ports,
                (#[trigger] settings[i]).0,
            ) is Some,
        plugin::set_ports(ports, controls, settings).1 is None ==> forall|i: int|
            0 <= i < settings.len() && (forall|j: int|
                i < j < settings.len() ==> (#[trigger] settings[j]).0 != settings[i].0)
                ==> plugin::set_ports(ports, controls, settings).0[plugin::first_at(
                ports,
                (#[trigger] settings[i]).0,
            )->0] == settings[i].1,
    decreases settings.len(),
{
    if settings.len() > 0 {
        let init = settings.drop_last();
        let last = settings.last();
        law_set_ports(ports, controls, init);
        plugin::law_first_at(ports, last.0);
        let (before, stopped) = plugin::set_ports(ports, controls, init);
        let (after, unknown) = plugin::set_ports(ports, controls, settings);
        assert forall|p: int|
            0 <= p < controls.len() && (forall|i: int|
                0 <= i < settings.len() ==> plugin::first_at(ports, (#[trigger] settings[i]).0)
                    != Some(p)) implies #[trigger] after[p] == controls[p] by {
            assert(plugin::first_at(ports, settings[settings.len() - 1].0) != Some(p));
            assert forall|i: int| 0 <= i < init.len() implies plugin::first_at(
                ports,
                (#[trigger] init[i]).0,
            ) != Some(p) by {
                assert(init[i] == settings[i]);
            }
            assert(before[p] == controls[p]);
        }
        if unknown is None {
            assert forall|i: int| 0 <= i < settings.len() implies plugin::first_at(
                ports,
                (#[trigger] settings[i]).0,
            ) is Some by {
                if i < init.len() {
                    assert(init[i] == settings[i]);
                }
            }
            assert forall|i: int|
                0 <= i < settings.len() && (forall|j: int|
                    i < j < settings.len() ==> (#[trigger] settings[j]).0
                        != settings[i].0) implies after[plugin::first_at(
                ports,
                (#[trigger] settings[i]).0,
            )->0] == settings[i].1 by {
                plugin::law_first_at(ports, settings[i].0);
                if i < init.len() {
                    assert(init[i] == settings[i]);
                    assert(settings[settings.len() - 1].0 != settings[i].0);
                    assert forall|j: int| i < j < init.len() implies (#[trigger] init[j]).0
                        != init[i].0 by {
                        assert(init[j] == settings[j]);
                    }
                }
            }
        }
    }
}

/// A setting that names no port stops the others, and only such a setting does.
pub proof fn law_unknown_param(
    ports: Seq<Seq<char>>,
    controls: Seq<u32>,
    settings: Seq<(Seq<char>, u32)>,
)
    ensures
        match plugin::set_ports(ports, controls, settings).1 {
            Some(i) => {
                &&& 0 <= i < settings.len()
                &&& plugin::first_at(ports, settings[i].0) is None
                &&& forall|j: int|
                    0 <= j < i ==> plugin::first_at(ports, (#[trigger] settings[j]).0) is Some
            },
            None => forall|j: int|
                0 <= j < settings.len() ==> plugin::first_at(
                    ports,
                    (#[trigger] settings[j]).0,
                ) is Some,
        },
    decreases settings.len(),
{
    if settings.len() > 0 {
        let init = settings.drop_last();
        law_unknown_param(ports, controls, init);
        assert(forall|j: int| 0 <= j < init.len() ==> #[trigger] settings[j] == init[j]);
    }
}

/// The order of settings with distinct names does not count: two lists with the same settings
/// leave the same control values.
pub proof fn law_order_does_not_count(
    ports: Seq<Seq<char>>,
    controls: Seq<u32>,
    a: Seq<(Seq<char>, u32)>,
    b: Seq<(Seq<char>, u32)>,
)
    requires
        ports.len() <= controls.len(),
        plugin::distinct(a),
        plugin::distinct(b),
        forall|param: (Seq<char>, u32)| #[trigger] a.contains(param) == b.contains(param),
        plugin::set_ports(ports, controls, a).1 is None,
    ensures
        plugin::set_ports(ports, controls, b) == plugin::set_ports(ports, controls, a),
{
    law_set_ports(ports, controls, a);
    law_set_ports(ports, controls, b);
    law_unknown_param(ports, controls, b);
    let (x, _) = plugin::set_ports(ports, controls, a);
    let (y, unknown) = plugin::set_ports(ports, controls, b);
    assert forall|j: int| 0 <= j < b.len() implies plugin::first_at(
        ports,
        (#[trigger] b[j]).0,
    ) is Some by {
        assert(a.contains(b[j]));
    }
    assert(unknown is None);
    assert forall|p: int| 0 <= p < controls.len() implies x[p] == y[p] by {
        if exists|i: int|
            0 <= i < a.len() && plugin::first_at(ports, (#[trigger] a[i]).0) == Some(p) {
            let i = choose|i: int|
                0 <= i < a.len() && plugin::first_at(ports, (#[trigger] a[i]).0) == Some(p);
            assert(a.contains(a[i]));
            let k = choose|k: int| 0 <= k < b.len() && b[k] == a[i];
            assert(x[p] == a[i].1);
            assert(y[p] == b[k].1);
        } else {
            assert forall|k: int| 0 <= k < b.len() implies plugin::first_at(
                ports,
                (#[trigger] b[k]).0,
            ) != Some(p) by {
                assert(a.contains(b[k]));
                let i = choose|i: int| 0 <= i < a.len() && a[i] == b[k];
                assert(plugin::first_at(ports, a[i].0) != Some(p));
            }
            assert(x[p] == controls[p]);
            assert(y[p] == controls[p]);
        }
    }
    assert(x =~= y);
}

/// Upper and lower case do not count: two identifiers that are no addresses and have the same
/// lower case form mean the same plugin.
pub proof fn law_case_does_not_count(
    catalog: Seq<plugin::PluginInfo>,
    a: Seq<char>,
    b: Seq<char>,
)
    requires
        text::lowercase(a) == text::lowercase(b),
        plugin::first_at(plugin::uris(catalog), a) is None,
        plugin::first_at(plugin::uris(catalog), b) is None,
    ensures
        plugin::meant_plugin(
            plugin::uris(catalog),
            plugin::names(catalog),
            plugin::all_lowercase(plugin::names(catalog)),
            a,
            text::lowercase(a),
        ) == plugin::meant_plugin(
            plugin::uris(catalog),
            plugin::names(catalog),
            plugin::all_lowercase(plugin::names(catalog)),
            b,
            text::lowercase(b),
        ),
{
}

/// Where a render stands after the events.
pub open spec fn run(
    v: processing::RenderView,
    events: Seq<processing::EventView>,
) -> processing::RenderView
    decreases events.len(),
{
    if events.len() == 0 {
        v
    } else {
        processing::next(run(v, events.drop_last()), events.last())
    }
}

/// Each event can come of what was to be done.
pub open spec fn in_order(
    v: processing::RenderView,
    events: Seq<processing::EventView>,
) -> bool
    decreases events.len(),
{
    events.len() > 0 ==> in_order(v, events.drop_last()) && processing::can_follow(
        run(v, events.drop_last()),
        events.last(),
    )
}

/// How many frames the packets have.
pub open spec fn frames_read(events: Seq<processing::EventView>) -> int
    decreases events.len(),
{
    if events.len() == 0 {
        0
    } else {
        frames_read(events.drop_last()) + match events.last() {
            processing::EventView::Packet(packet) => packet.frames,
            _ => 0,
        }
    }
}

/// How many frames of the packet under way are still to be rendered.
pub open spec fn frames_left(v: processing::RenderView) -> int {
    match v.phase {
        processing::PhaseView::Packet { packet, offset } => packet.frames - offset,
        _ => 0,
    }
}

/// A step keeps what holds of a render at any time.
pub proof fn law_step_keeps(v: processing::RenderView, event: processing::EventView)
    requires
        processing::render_inv(v),
        processing::can_follow(v, event),
    ensures
        processing::render_inv(processing::next(v, event)),
{
}

/// Two renders have the same chain, with the same parameters, and buffers of the same size.
pub open spec fn same_setup(a: processing::RenderView, b: processing::RenderView) -> bool {
    &&& a.block == b.block
    &&& a.input_channels == b.input_channels
    &&& a.drain == b.drain
    &&& a.rows.len() == b.rows.len()
    &&& a.instances.len() == b.instances.len()
    &&& forall|i: int|
        0 <= i < a.instances.len() ==> {
            &&& (#[trigger] a.instances[i]).audio_inputs == b.instances[i].audio_inputs
            &&& a.instances[i].control_inputs == b.instances[i].control_inputs
            &&& a.instances[i].control_outputs.len() == b.instances[i].control_outputs.len()
            &&& a.instances[i].audio_outputs.len() == b.instances[i].audio_outputs.len()
        }
}

/// The input buffer has a row for each channel that the first plugin takes, and every row and
/// every output channel holds one block.
pub open spec fn shaped(v: processing::RenderView) -> bool {
    &&& v.rows.len() == v.first_inputs()
    &&& forall|ch: int| 0 <= ch < v.rows.len() ==> (#[trigger] v.rows[ch]).len() == v.block
    &&& forall|i: int, ch: int|
        0 <= i < v.instances.len() && 0 <= ch < v.instances[i].audio_outputs.len() ==> (
        #[trigger] v.instances[i].audio_outputs[ch]).len() == v.block
}

/// A render whose chain is ready has buffers of the right size.
pub proof fn law_ready_is_shaped(render: processing::Render)
    requires
        render.wf(),
    ensures
        shaped(render@),
{
    let v = render@;
    assert(v.first_inputs() == render.ctx.first_inputs());
    assert forall|ch: int| 0 <= ch < v.rows.len() implies (#[trigger] v.rows[ch]).len()
        == v.block by {
        audio::lemma_rows(v.block, v.first_inputs(), ch);
    }
    assert forall|i: int, ch: int|
        0 <= i < v.instances.len() && 0 <= ch < v.instances[i].audio_outputs.len() implies (
    #[trigger] v.instances[i].audio_outputs[ch]).len() == v.block by {
        assert(v.instances[i] == render.ctx.instances@[i]@);
        assert(render.ctx.instances@[i].wf(v.block));
        assert(v.instances[i].audio_outputs[ch] == render.ctx.instances@[i].audio_outputs@[ch]@);
    }
}

/// The buffers keep their size, and the chain and its parameters stay as they are, whatever
/// comes of an action.
pub proof fn law_buffers_keep_their_size(
    v: processing::RenderView,
    event: processing::EventView,
)
    requires
        processing::render_inv(v),
        shaped(v),
        processing::can_follow(v, event),
    ensures
        shaped(processing::next(v, event)),
        same_setup(v, processing::next(v, event)),
{
    let after = processing::next(v, event);
    assert forall|i: int, ch: int|
        0 <= i < after.instances.len() && 0 <= ch < after.instances[i].audio_outputs.len() implies (
    #[trigger] after.instances[i].audio_outputs[ch]).len() == v.block by {
        if event is PluginDone && i == v.finished {
            assert(after.instances[i].audio_outputs == event->audio_outputs);
        } else {
            assert(after.instances[i] == v.instances[i]);
            assert(v.instances[i].audio_outputs[ch].len() == v.block);
        }
    }
    assert forall|ch: int| 0 <= ch < after.rows.len() implies (#[trigger] after.rows[ch]).len()
        == v.block by {
        if let processing::PhaseView::Packet { packet, offset } = after.phase {
            if !(event is PluginDone) {
                let from: int = if v.upmixes() {
                    0
                } else {
                    ch
                };
                assert(v.rows[from].len() == v.block);
                assert(from < packet.channels.len() ==> packet.channels[from].len()
                    == packet.frames);
            }
        }
    }
}

/// Over a whole render the buffers keep their size, and the chain and its parameters stay as
/// they are.
pub proof fn law_setup_stays(v: processing::RenderView, events: Seq<processing::EventView>)
    requires
        processing::render_inv(v),
        shaped(v),
        in_order(v, events),
    ensures
        processing::render_inv(run(v, events)),
        shaped(run(v, events)),
        same_setup(v, run(v, events)),
    decreases events.len(),
{
    if events.len() > 0 {
        law_setup_stays(v, events.drop_last());
        law_buffers_keep_their_size(run(v, events.drop_last()), events.last());
    }
}

/// Every frame of the input is rendered once, and then the silence: as long as nothing fails,
/// the frames decoded so far and those left of the packet under way are all the frames that
/// were read, and at the end the frames rendered are those of the input and those of the
/// silence.
pub proof fn law_all_frames_rendered(
    v: processing::RenderView,
    events: Seq<processing::EventView>,
)
    requires
        processing::fresh(v),
        in_order(v, events),
    ensures
        processing::render_inv(run(v, events)),
        run(v, events).block == v.block,
        run(v, events).drain == v.drain,
        run(v, events).phase !is Failed ==> run(v, events).decoded + frames_left(run(v, events))
            == frames_read(events),
        run(v, events).phase is Finished ==> run(v, events).processed == frames_read(events)
            + v.drain,
    decreases events.len(),
{
    if events.len() > 0 {
        law_all_frames_rendered(v, events.drop_last());
    }
}

/// How many blocks went through the chain.
pub open spec fn blocks_done(events: Seq<processing::EventView>) -> int
    decreases events.len(),
{
    if events.len() == 0 {
        0
    } else {
        blocks_done(events.drop_last()) + if events.last() is ChunkDone {
            1int
        } else {
            0
        }
    }
}

/// How often the plugin with number `stage` ran.
pub open spec fn runs_of(
    v: processing::RenderView,
    events: Seq<processing::EventView>,
    stage: int,
) -> int
    decreases events.len(),
{
    if events.len() == 0 {
        0
    } else {
        runs_of(v, events.drop_last(), stage) + if events.last() is PluginDone && run(
            v,
            events.drop_last(),
        ).finished == stage {
            1int
        } else {
            0
        }
    }
}

/// Every plugin runs once on each block: as often as blocks have gone through the chain, and
/// once more if it has run on the block under way.
pub proof fn law_each_plugin_runs_once(
    v: processing::RenderView,
    events: Seq<processing::EventView>,
    stage: int,
)
    requires
        processing::fresh(v),
        in_order(v, events),
        0 <= stage < v.instances.len(),
    ensures
        processing::render_inv(run(v, events)),
        run(v, events).instances.len() == v.instances.len(),
        runs_of(v, events, stage) == blocks_done(events) + if stage < run(v, events).finished {
            1int
        } else {
            0
        },
    decreases events.len(),
{
    if events.len() > 0 {
        law_each_plugin_runs_once(v, events.drop_last(), stage);
    }
}

/// Only plugins ran and blocks were written.
pub open spec fn only_blocks(events: Seq<processing::EventView>) -> bool {
    forall|i: int|
        0 <= i < events.len() ==> (#[trigger] events[i]) is PluginDone || events[i] is ChunkDone
}

/// A packet goes through the chain in whole blocks from its start on, but for the last block,
/// which has the frames that are left; then the next packet is read.
pub proof fn law_packet_blocks(
    v: processing::RenderView,
    packet: audio::PacketView,
    events: Seq<processing::EventView>,
)
    requires
        processing::render_inv(v),
        v.phase == (processing::PhaseView::Packet { packet, offset: 0 }),
        in_order(v, events),
        only_blocks(events),
    ensures
        blocks_done(events) > 0 ==> (blocks_done(events) - 1) * v.block < packet.frames,
        blocks_done(events) * v.block < packet.frames ==> run(v, events).phase == (
        processing::PhaseView::Packet { packet, offset: blocks_done(events) * v.block })
            && processing::chunk(run(v, events)) == processing::smaller(
            packet.frames - blocks_done(events) * v.block,
            v.block,
        ),
        blocks_done(events) * v.block >= packet.frames ==> run(v, events).phase is Reading,
        run(v, events).block == v.block,
        run(v, events).processed == v.processed + processing::smaller(
            blocks_done(events) * v.block,
            packet.frames,
        ),
    decreases events.len(),
{
    assert(0 * v.block == 0);
    if events.len() > 0 {
        let init = events.drop_last();
        let k = blocks_done(init);
        assert(events.last() == events[events.len() - 1]);
        assert forall|i: int| 0 <= i < init.len() implies (#[trigger] init[i]) is PluginDone
            || init[i] is ChunkDone by {
            assert(init[i] == events[i]);
        }
        law_packet_blocks(v, packet, init);
        assert((k + 1) * v.block == k * v.block + v.block) by (nonlinear_arith);
    }
}

/// The silence goes through the chain in whole blocks, but for the last block, which has the
/// frames that are left; then the render is finished.
pub proof fn law_silence_blocks(
    v: processing::RenderView,
    frames: int,
    events: Seq<processing::EventView>,
)
    requires
        processing::render_inv(v),
        v.phase == (processing::PhaseView::Draining { remaining: frames }),
        in_order(v, events),
        only_blocks(events),
    ensures
        blocks_done(events) > 0 ==> (blocks_done(events) - 1) * v.block < frames,
        blocks_done(events) * v.block < frames ==> run(v, events).phase == (
        processing::PhaseView::Draining { remaining: frames - blocks_done(events) * v.block })
            && processing::chunk(run(v, events)) == processing::smaller(
            frames - blocks_done(events) * v.block,
            v.block,
        ),
        blocks_done(events) * v.block >= frames ==> run(v, events).phase is Finished,
        run(v, events).block == v.block,
        run(v, events).decoded == v.decoded,
        run(v, events).processed == v.processed + processing::smaller(
            blocks_done(events) * v.block,
            frames,
        ),
    decreases events.len(),
{
    assert(0 * v.block == 0);
    if events.len() > 0 {
        let init = events.drop_last();
        let k = blocks_done(init);
        assert(events.last() == events[events.len() - 1]);
        assert forall|i: int| 0 <= i < init.len() implies (#[trigger] init[i]) is PluginDone
            || init[i] is ChunkDone by {
            assert(init[i] == events[i]);
        }
        law_silence_blocks(v, frames, init);
        assert((k + 1) * v.block == k * v.block + v.block) by (nonlinear_arith);
    }
}

/// The samples written for a block: one for each frame and channel, frame by frame, each at
/// its place.
pub proof fn law_interleaved(channels: Seq<Seq<u32>>, frames: nat)
    ensures
        processing::interleaved(channels, frames as int).len() == frames * channels.len(),
        forall|i: int, ch: int|
            0 <= i < frames && 0 <= ch < channels.len() ==> processing::interleaved(
                channels,
                frames as int,
            )[i * channels.len() + ch] == #[trigger] channels[ch][i],
    decreases frames,
{
    let n = channels.len() as int;
    let all = processing::interleaved(channels, frames as int);
    if frames == 0 {
        assert(0 * n == 0);
    } else {
        let less = (frames - 1) as nat;
        law_interleaved(channels, less);
        let before = processing::interleaved(channels, less as int);
        assert(frames * n == less * n + n) by (nonlinear_arith)
            requires
                frames == less + 1,
        ;
        assert forall|i: int, ch: int| 0 <= i < frames && 0 <= ch < n implies all[i * n + ch]
            == #[trigger] channels[ch][i] by {
            if i < less {
                assert(0 <= i * n) by (nonlinear_arith)
                    requires
                        0 <= i,
                        0 <= n,
                ;
                assert(i * n + n <= less * n) by (nonlinear_arith)
                    requires
                        i + 1 <= less,
                        0 <= n,
                ;
                assert(all[i * n + ch] == before[i * n + ch]);
            } else {
                assert(all[i * n + ch] == processing::frame(channels, less as int)[ch]);
            }
        }
    }
}

/// The samples written: those of each block that went through the chain, in order.
pub open spec fn written(
    v: processing::RenderView,
    events: Seq<processing::EventView>,
) -> Seq<u32>
    decreases events.len(),
{
    if events.len() == 0 {
        Seq::empty()
    } else {
        let before = written(v, events.drop_last());
        if events.last() is ChunkDone {
            before + processing::block_samples(run(v, events.drop_last()))
        } else {
            before
        }
    }
}

/// What is asked to be written for a block is what counts as written once the block is done.
pub proof fn law_written_as_asked(v: processing::RenderView)
    requires
        processing::can_follow(v, processing::EventView::ChunkDone),
    ensures
        processing::chunk_action(v) == processing::ChunkActionView::Write(
            processing::block_samples(v),
        ),
{
}

/// The output is as long as the frames rendered: at any time it has one sample of each channel
/// of the last plugin for each of them, and at the end these are the frames of the input and
/// those of the silence.
pub proof fn law_samples_written(
    v: processing::RenderView,
    events: Seq<processing::EventView>,
)
    requires
        processing::fresh(v),
        in_order(v, events),
    ensures
        written(v, events).len() == run(v, events).processed
            * v.instances.last().audio_outputs.len(),
        run(v, events).phase is Finished ==> written(v, events).len() == (frames_read(events)
            + v.drain) * v.instances.last().audio_outputs.len(),
{
    law_all_frames_rendered(v, events);
    lemma_samples_written(v, events);
}

proof fn lemma_samples_written(
    v: processing::RenderView,
    events: Seq<processing::EventView>,
)
    requires
        processing::fresh(v),
        in_order(v, events),
    ensures
        processing::render_inv(run(v, events)),
        run(v, events).instances.len() == v.instances.len(),
        run(v, events).instances.last().audio_outputs.len()
            == v.instances.last().audio_outputs.len(),
        written(v, events).len() == run(v, events).processed
            * v.instances.last().audio_outputs.len(),
    decreases events.len(),
{
    let width = v.instances.last().audio_outputs.len() as int;
    assert(0 * width == 0);
    if events.len() > 0 {
        let init = events.drop_last();
        let u = run(v, init);
        lemma_samples_written(v, init);
        if events.last() is ChunkDone {
            let n = processing::chunk(u);
            law_interleaved(u.instances.last().audio_outputs, n as nat);
            assert((u.processed + n) * width == u.processed * width + n * width)
                by (nonlinear_arith);
        }
    }
}

/// What came of the reads, and what the plugins gave.
///
/// `input` gives what comes of the read with a given number. `plugins` gives the control
/// outputs and the audio outputs of a plugin, as a function of all runs so far of all plugins
/// of the chain, this one included: the number of the plugin and the samples at its inputs.
pub struct World {
    pub input: spec_fn(int) -> processing::EventView,
    pub plugins: spec_fn(Seq<(int, Seq<Seq<u32>>)>) -> (Seq<u32>, Seq<Seq<u32>>),
}

/// How many reads there were.
pub open spec fn reads(
    v: processing::RenderView,
    events: Seq<processing::EventView>,
) -> int
    decreases events.len(),
{
    if events.len() == 0 {
        0
    } else {
        reads(v, events.drop_last()) + if run(v, events.drop_last()).phase is Reading {
            1int
        } else {
            0
        }
    }
}

/// The runs of the plugins: the number of each and the samples at its inputs.
pub open spec fn plugin_runs(
    v: processing::RenderView,
    events: Seq<processing::EventView>,
) -> Seq<(int, Seq<Seq<u32>>)>
    decreases events.len(),
{
    if events.len() == 0 {
        Seq::empty()
    } else {
        let before = plugin_runs(v, events.drop_last());
        let u = run(v, events.drop_last());
        if events.last() is PluginDone {
            before.push((u.finished, processing::stage_inputs(u, u.finished)))
        } else {
            before
        }
    }
}

/// What comes of the next action, if no plugin and no write fails.
pub open spec fn answer(
    world: World,
    v: processing::RenderView,
    events: Seq<processing::EventView>,
) -> processing::EventView {
    let u = run(v, events);
    if u.phase is Reading {
        (world.input)(reads(v, events))
    } else if u.finished < u.instances.len() {
        let (control_outputs, audio_outputs) = (world.plugins)(
            plugin_runs(v, events).push((u.finished, processing::stage_inputs(u, u.finished))),
        );
        processing::EventView::PluginDone { control_outputs, audio_outputs }
    } else {
        processing::EventView::ChunkDone
    }
}

/// The events are what comes of the actions.
pub open spec fn comes_of(
    world: World,
    v: processing::RenderView,
    events: Seq<processing::EventView>,
) -> bool
    decreases events.len(),
{
    events.len() > 0 ==> comes_of(world, v, events.drop_last()) && events.last() == answer(
        world,
        v,
        events.drop_last(),
    )
}

/// `b` is the render `a`, but for a tail that is `more` frames longer.
pub open spec fn longer_by(
    a: processing::RenderView,
    b: processing::RenderView,
    more: int,
) -> bool {
    b == (processing::RenderView {
        drain: a.drain + more,
        phase: match a.phase {
            processing::PhaseView::Draining { remaining } => processing::PhaseView::Draining {
                remaining: remaining + more,
            },
            _ => a.phase,
        },
        ..a
    })
}

/// The first samples of a block are those of a shorter one.
proof fn lemma_interleaved_prefix(channels: Seq<Seq<u32>>, n: int, m: int)
    requires
        n <= m,
    ensures
        processing::interleaved(channels, n).is_prefix_of(processing::interleaved(channels, m)),
    decreases m - n,
{
    if n < m {
        lemma_interleaved_prefix(channels, n, m - 1);
        if m <= 0 {
            assert(processing::interleaved(channels, n) =~= processing::interleaved(channels, m));
        }
    }
}

/// What is written stays written.
proof fn lemma_written_grows(
    v: processing::RenderView,
    events: Seq<processing::EventView>,
    n: int,
)
    requires
        0 <= n <= events.len(),
    ensures
        written(v, events.take(n)).is_prefix_of(written(v, events)),
    decreases events.len() - n,
{
    if n < events.len() {
        lemma_written_grows(v, events, n + 1);
        assert(events.take(n + 1).drop_last() =~= events.take(n));
    } else {
        assert(events.take(n) =~= events);
    }
}

/// What holds of the events holds of the first ones.
proof fn lemma_first_events(
    world: World,
    v: processing::RenderView,
    events: Seq<processing::EventView>,
    n: int,
)
    requires
        0 <= n <= events.len(),
        in_order(v, events),
        comes_of(world, v, events),
    ensures
        in_order(v, events.take(n)),
        comes_of(world, v, events.take(n)),
    decreases events.len() - n,
{
    if n < events.len() {
        lemma_first_events(world, v, events, n + 1);
        assert(events.take(n + 1).drop_last() =~= events.take(n));
    } else {
        assert(events.take(n) =~= events);
    }
}

/// Until the shorter tail ends, the two renders go the same way.
proof fn lemma_same_way(
    world: World,
    a: processing::RenderView,
    b: processing::RenderView,
    more: int,
    short: Seq<processing::EventView>,
    long: Seq<processing::EventView>,
)
    requires
        more >= 0,
        processing::fresh(a),
        longer_by(a, b, more),
        short.len() == long.len(),
        in_order(a, short),
        in_order(b, long),
        comes_of(world, a, short),
        comes_of(world, b, long),
    ensures
        processing::render_inv(run(a, short)),
        run(a, short).drain == a.drain,
        run(a, short).phase is Finished || {
            &&& short == long
            &&& longer_by(run(a, short), run(b, long), more)
            &&& reads(a, short) == reads(b, long)
            &&& plugin_runs(a, short) == plugin_runs(b, long)
            &&& written(a, short) == written(b, long)
        },
        written(a, short).is_prefix_of(written(b, long)),
    decreases short.len(),
{
    if short.len() == 0 {
        assert(short =~= long);
    } else {
        let s = short.drop_last();
        let l = long.drop_last();
        lemma_same_way(world, a, b, more, s, l);
        let u = run(a, s);
        let w = run(b, l);
        let event = short.last();
        assert(!(u.phase is Finished));
        assert(processing::stage_inputs(u, u.finished) == processing::stage_inputs(w, w.finished));
        assert(long.last() == event);
        assert(short =~= s.push(event));
        assert(long =~= l.push(event));
        let x = run(a, short);
        let y = run(b, long);
        if event is ChunkDone {
            let outputs = u.instances.last().audio_outputs;
            lemma_interleaved_prefix(outputs, processing::chunk(u), processing::chunk(w));
        }
        if !(x.phase is Finished) {
            assert(y.rows =~= x.rows);
            assert(longer_by(x, y, more));
        }
    }
}

/// A longer tail only adds samples at the end: of two renders of the same input through the
/// same chain, which differ in nothing but the length of the tail, the output of the one with
/// the shorter tail is the start of the output of the other. The plugins are deterministic:
/// what they give is a function of what the plugins of the chain got so far.
pub proof fn law_longer_tail(
    world: World,
    a: processing::RenderView,
    drain: int,
    short: Seq<processing::EventView>,
    long: Seq<processing::EventView>,
)
    requires
        processing::fresh(a),
        a.drain <= drain,
        in_order(a, short),
        in_order((processing::RenderView { drain, ..a }), long),
        comes_of(world, a, short),
        comes_of(world, (processing::RenderView { drain, ..a }), long),
        run(a, short).phase is Finished,
        run((processing::RenderView { drain, ..a }), long).phase is Finished,
    ensures
        written(a, short).is_prefix_of(
            written((processing::RenderView { drain, ..a }), long),
        ),
{
    let b = processing::RenderView { drain, ..a };
    let more = drain - a.drain;
    assert(longer_by(a, b, more));
    if long.len() < short.len() {
        let n = long.len() as int;
        lemma_first_events(world, a, short, n + 1);
        let first = short.take(n);
        assert(short.take(n + 1).drop_last() =~= first);
        lemma_same_way(world, a, b, more, first, long);
        assert(processing::can_follow(run(a, first), short.take(n + 1).last()));
    } else {
        let n = short.len() as int;
        lemma_first_events(world, b, long, n);
        lemma_same_way(world, a, b, more, short, long.take(n));
        lemma_written_grows(b, long, n);
    }
}

/// The one channel of a mono input goes to both inputs of a stereo plugin: both rows of a
/// block hold the frames of that channel, and silence behind them.
pub proof fn law_mono_to_stereo(v: processing::RenderView)
    requires
        v.upmixes(),
        v.phase matches processing::PhaseView::Packet { packet, .. } && packet.channels.len() > 0,
    ensures
        processing::block_rows(v).len() == 2,
        processing::block_rows(v)[0] == processing::block_rows(v)[1],
        v.phase matches processing::PhaseView::Packet { packet, offset }
            ==> processing::block_rows(v)[0] == packet.channels[0].subrange(
            offset,
            offset + processing::chunk(v),
        ) + audio::silence(v.block - processing::chunk(v)),
{
}

/// A block flows on through the chain: what a plugin gives is what the next one gets, and
/// taking it in changes nothing of what the plugins up to that one got.
pub proof fn law_block_flows_on(
    v: processing::RenderView,
    control_outputs: Seq<u32>,
    audio_outputs: Seq<Seq<u32>>,
)
    requires
        processing::can_follow(
            v,
            (processing::EventView::PluginDone { control_outputs, audio_outputs }),
        ),
    ensures
        processing::stage_inputs(
            processing::next(
                v,
                (processing::EventView::PluginDone { control_outputs, audio_outputs }),
            ),
            v.finished + 1,
        ) == audio_outputs,
        forall|i: int|
            0 <= i <= v.finished ==> #[trigger] processing::stage_inputs(
                processing::next(
                    v,
                    (processing::EventView::PluginDone { control_outputs, audio_outputs }),
                ),
                i,
            ) == processing::stage_inputs(v, i),
{
}

/// The plugins of the chain have the ports that the plan says.
pub open spec fn follows_plan(
    v: processing::RenderView,
    input: usize,
    stages: Seq<plugin::PortCounts>,
) -> bool {
    &&& v.input_channels == input
    &&& v.instances.len() == stages.len()
    &&& forall|i: int|
        0 <= i < stages.len() ==> (#[trigger] v.instances[i]).audio_inputs
            == stages[i].audio_inputs && v.instances[i].audio_outputs.len()
            == stages[i].audio_outputs
}

/// In a chain whose channels fit, every plugin gets as many channels as it takes; the first
/// one either takes the channels of the input or gets its one channel twice; and each frame
/// written has the channels that come out of the chain.
pub proof fn law_channels_fit(
    v: processing::RenderView,
    input: usize,
    stages: Seq<plugin::PortCounts>,
)
    requires
        stages.len() > 0,
        shaped(v),
        processing::render_inv(v),
        chain::compatible(input, stages),
        follows_plan(v, input, stages),
    ensures
        forall|i: int|
            0 <= i < stages.len() ==> #[trigger] processing::stage_inputs(v, i).len()
                == stages[i].audio_inputs,
        v.first_inputs() == input || v.upmixes(),
        processing::block_samples(v).len() == processing::chunk(v) * chain::channels_after(
            input,
            stages,
        ),
{
    law_interleaved(v.instances.last().audio_outputs, processing::chunk(v) as nat);
    assert(v.instances[0].audio_inputs == stages[0].audio_inputs);
    assert(v.instances[stages.len() - 1].audio_outputs.len() == stages.last().audio_outputs);
    assert forall|i: int| 0 <= i < stages.len() implies #[trigger] processing::stage_inputs(
        v,
        i,
    ).len() == stages[i].audio_inputs by {
        if i > 0 {
            assert(v.instances[i - 1].audio_outputs.len() == stages[i - 1].audio_outputs);
            assert(stages[i].audio_inputs == stages[i - 1].audio_outputs);
        }
    }
}

} // verus!
