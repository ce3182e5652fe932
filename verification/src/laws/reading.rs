//! What texts and chain files ask for.
use vstd::prelude::*;

use super::{law_split, law_split_appended, law_split_plain, law_trim};
use crate::config;
use crate::document;
use crate::plugin;
use crate::text;
use crate::yaml;

verus! {

/// The pieces of a text, each with the separator behind it, are the text with the separator
/// behind it.
pub proof fn law_pieces_make_the_text(s: Seq<char>, sep: char)
    ensures
        text::split_on(s, sep).map_values(|piece: Seq<char>| piece.push(sep)).flatten() == s.push(
            sep,
        ),
    decreases s.len(),
{
    let pieces = text::split_on(s, sep);
    let ended = pieces.map_values(|piece: Seq<char>| piece.push(sep));
    law_split(s, sep);
    if s.len() == 0 {
        assert(ended =~= Seq::empty().push(s.push(sep)));
        Seq::<Seq<char>>::empty().lemma_flatten_push(s.push(sep));
        assert(ended.flatten() =~= s.push(sep));
    } else {
        let init = s.drop_last();
        let c = s.last();
        let before = text::split_on(init, sep);
        let before_ended = before.map_values(|piece: Seq<char>| piece.push(sep));
        law_split(init, sep);
        law_pieces_make_the_text(init, sep);
        if c == sep {
            assert(ended =~= before_ended.push(seq![sep]));
            before_ended.lemma_flatten_push(seq![sep]);
            assert(ended.flatten() =~= s.push(sep));
        } else {
            let front = before_ended.drop_last();
            assert(before_ended =~= front.push(before.last().push(sep)));
            assert(ended =~= front.push(before.last().push(c).push(sep)));
            front.lemma_flatten_push(before.last().push(sep));
            front.lemma_flatten_push(before.last().push(c).push(sep));
            let joined = front.flatten() + before.last();
            assert(joined =~= init) by {
                assert((front.flatten() + before.last().push(sep)).drop_last() =~= joined);
                assert(init.push(sep).drop_last() =~= init);
            }
            assert(ended.flatten() =~= joined.push(c).push(sep));
            assert(init.push(c) =~= s);
        }
    }
}

/// The value of decimal digits.
pub open spec fn digits_value(digits: Seq<char>) -> int {
    digits.fold_left(0int, |value: int, digit: char| value * 10 + (digit as int - '0' as int))
}

/// A number is printed in decimal digits that stand for it, without a zero in front.
pub proof fn law_decimal(n: nat)
    ensures
        text::decimal(n).len() > 0,
        forall|i: int|
            0 <= i < text::decimal(n).len() ==> '0' <= #[trigger] text::decimal(n)[i] <= '9',
        n > 0 ==> text::decimal(n)[0] != '0',
        digits_value(text::decimal(n)) == n,
    decreases n,
{
    let digits = text::decimal(n);
    let step = |value: int, digit: char| value * 10 + (digit as int - '0' as int);
    let last = ('0' as int + n % 10) as char;
    assert(digits.last() == last);
    if n < 10 {
        assert(digits.drop_last() =~= Seq::empty());
        assert(digits.drop_last().fold_left(0int, step) == 0);
        assert(digits.fold_left(0int, step) == step(0, last));
    } else {
        law_decimal(n / 10);
        assert(digits.drop_last() =~= text::decimal(n / 10));
        assert(digits.fold_left(0int, step) == step(
            digits.drop_last().fold_left(0int, step),
            last,
        ));
        assert forall|i: int| 0 <= i < digits.len() implies '0' <= #[trigger] digits[i] <= '9' by {
            if i < digits.len() - 1 {
                assert(digits[i] == text::decimal(n / 10)[i]);
            }
        }
        assert(digits[0] == text::decimal(n / 10)[0]);
    }
}

/// A single is finite if its bit pattern, but for the sign, is less than that of infinity.
pub proof fn law_finite(bits: u32)
    ensures
        config::finite(bits) <==> bits % 0x8000_0000 < 0x7f80_0000,
{
    assert((bits / 0x80_0000) % 0x100 != 0xff <==> bits % 0x8000_0000 < 0x7f80_0000)
        by (bit_vector);
}

/// The text `name=value` gives the name without the white space around it, and the number that
/// the value stands for, unchanged; a value that is no number and one that is not finite are
/// refused.
pub proof fn law_key_value(
    name: Seq<char>,
    value: Seq<char>,
    num: spec_fn(Seq<char>) -> Option<u32>,
)
    requires
        !name.contains('='),
        !value.contains('='),
    ensures
        num(value) is None ==> config::key_value(name.push('=') + value, num) == Err::<
            (Seq<char>, u32),
            config::ParamFault,
        >(config::ParamFault::BadNumber(value)),
        num(value) matches Some(bits) ==> bits % 0x8000_0000 < 0x7f80_0000 ==> config::key_value(
            name.push('=') + value,
            num,
        ) == Ok::<(Seq<char>, u32), config::ParamFault>((text::trim(name), bits)),
        num(value) matches Some(bits) ==> bits % 0x8000_0000 >= 0x7f80_0000 ==> config::key_value(
            name.push('=') + value,
            num,
        ) == Err::<(Seq<char>, u32), config::ParamFault>(
            config::ParamFault::NotFinite(text::trim(name)),
        ),
{
    law_split_appended(name, value, '=');
    law_split_plain(name, '=');
    law_split_plain(value, '=');
    assert(text::split_on(name.push('=') + value, '=') =~= seq![name, value]);
    if let Some(bits) = num(value) {
        law_finite(bits);
    }
}

/// A text without an `=`, and one with two of them or more, is no pair.
pub proof fn law_not_a_pair(
    a: Seq<char>,
    b: Seq<char>,
    c: Seq<char>,
    num: spec_fn(Seq<char>) -> Option<u32>,
)
    ensures
        !a.contains('=') ==> config::key_value(a, num) == Err::<
            (Seq<char>, u32),
            config::ParamFault,
        >(config::ParamFault::NotAPair),
        config::key_value((a.push('=') + b).push('=') + c, num) == Err::<
            (Seq<char>, u32),
            config::ParamFault,
        >(config::ParamFault::NotAPair),
{
    if !a.contains('=') {
        law_split_plain(a, '=');
    }
    law_split_appended(a.push('=') + b, c, '=');
    law_split_appended(a, b, '=');
    law_split(a, '=');
    law_split(b, '=');
    law_split(c, '=');
}

/// What follows from an answer about the value: the same as from that number.
pub proof fn law_pair_value(name: Seq<char>, value: Seq<char>, bits: Option<u32>)
    ensures
        bits is None ==> config::pair_value(name, value, bits) == Err::<
            (Seq<char>, u32),
            config::ParamFault,
        >(config::ParamFault::BadNumber(value)),
        bits matches Some(b) ==> b % 0x8000_0000 < 0x7f80_0000 ==> config::pair_value(
            name,
            value,
            bits,
        ) == Ok::<(Seq<char>, u32), config::ParamFault>((text::trim(name), b)),
        bits matches Some(b) ==> b % 0x8000_0000 >= 0x7f80_0000 ==> config::pair_value(
            name,
            value,
            bits,
        ) == Err::<(Seq<char>, u32), config::ParamFault>(
            config::ParamFault::NotFinite(text::trim(name)),
        ),
{
    if let Some(b) = bits {
        law_finite(b);
    }
}

/// A character that does not separate stands in one of the pieces.
proof fn lemma_in_a_piece(s: Seq<char>, sep: char, c: char) -> (i: int)
    requires
        s.contains(c),
        c != sep,
    ensures
        0 <= i < text::split_on(s, sep).len(),
        text::split_on(s, sep)[i].contains(c),
    decreases s.len(),
{
    let init = s.drop_last();
    let pieces = text::split_on(s, sep);
    let before = text::split_on(init, sep);
    law_split(init, sep);
    if s.last() == c {
        let last = pieces[pieces.len() - 1];
        assert(last[last.len() - 1] == c);
        pieces.len() - 1
    } else {
        let k = choose|k: int| 0 <= k < s.len() && s[k] == c;
        assert(init[k] == c);
        let i = lemma_in_a_piece(init, sep, c);
        let j = choose|j: int| 0 <= j < before[i].len() && before[i][j] == c;
        assert(pieces[i][j] == c);
        i
    }
}

proof fn lemma_leading(parts: Seq<Seq<char>>, p: Seq<char>)
    ensures
        config::leading_plain(parts) <= parts.len(),
        forall|i: int|
            0 <= i < config::leading_plain(parts) ==> !(#[trigger] parts[i]).contains('='),
        config::leading_plain(parts) < parts.len() ==> parts[config::leading_plain(
            parts,
        ) as int].contains('='),
        config::leading_plain(parts.push(p)) == (if config::leading_plain(parts) == parts.len()
            && !p.contains('=') {
            parts.len() + 1
        } else {
            config::leading_plain(parts)
        }),
    decreases parts.len(),
{
    if parts.len() == 0 {
        assert(parts.push(p).drop_first() =~= Seq::empty());
        assert(config::leading_plain(parts.push(p).drop_first()) == 0);
    } else {
        let rest = parts.drop_first();
        lemma_leading(rest, p);
        assert(parts.push(p).drop_first() =~= rest.push(p));
        assert forall|i: int| 0 <= i < config::leading_plain(parts) implies !(
        #[trigger] parts[i]).contains('=') by {
            if i > 0 {
                assert(rest[i - 1] == parts[i]);
            }
        }
    }
}

/// A text has leading parts only if and only if it has no `=`.
proof fn lemma_only_leading(s: Seq<char>)
    ensures
        ({
            let parts = text::split_on(s, ':');
            (config::leading_plain(parts) == parts.len()) <==> !s.contains('=')
        }),
        config::leading_plain(text::split_on(s, ':')) <= text::split_on(s, ':').len(),
{
    let parts = text::split_on(s, ':');
    law_split(s, ':');
    lemma_leading(parts, Seq::empty());
    let n = config::leading_plain(parts);
    if n < parts.len() {
        assert(parts[n as int].contains('='));
    } else if s.contains('=') {
        let i = lemma_in_a_piece(s, ':', '=');
        assert(!parts[i].contains('='));
    }
}

proof fn lemma_parts_appended(s: Seq<char>, p: Seq<char>)
    requires
        !p.contains(':'),
    ensures
        text::split_on(s.push(':') + p, ':') == text::split_on(s, ':').push(p),
        (s.push(':') + p).contains('=') <==> s.contains('=') || p.contains('='),
{
    law_split_appended(s, p, ':');
    law_split_plain(p, ':');
    assert(text::split_on(s, ':') + seq![p] =~= text::split_on(s, ':').push(p));
    let all = s.push(':') + p;
    if s.contains('=') {
        let k = choose|k: int| 0 <= k < s.len() && s[k] == '=';
        assert(all[k] == '=');
    }
    if p.contains('=') {
        let k = choose|k: int| 0 <= k < p.len() && p[k] == '=';
        assert(all[s.len() + 1 + k] == '=');
    }
    if all.contains('=') {
        let k = choose|k: int| 0 <= k < all.len() && all[k] == '=';
        if k < s.len() {
            assert(s[k] == '=');
        } else {
            assert(p[k - s.len() - 1] == '=');
        }
    }
}

/// The identifier of a text that is one part: the part without the white space around it; none
/// if the part has an `=`.
pub proof fn law_identifier_of_one_part(p: Seq<char>)
    requires
        !p.contains(':'),
    ensures
        p.contains('=') ==> config::identifier_in(p).len() == 0,
        !p.contains('=') ==> config::identifier_in(p) == text::trim(p),
        config::without_params(p) <==> !p.contains('='),
{
    law_split_plain(p, ':');
    let parts = seq![p];
    lemma_only_leading(p);
    assert(text::split_on(p, ':') == parts);
    if p.contains('=') {
        assert(parts.take(0) =~= Seq::empty());
    } else {
        assert(parts.take(1) =~= parts);
        assert(parts.drop_last() =~= Seq::empty());
        assert(config::joined(parts.drop_last()) =~= Seq::empty());
    }
}

/// The identifier of a text with one part more: the parts before the first one with an `=`,
/// each without the white space around it, with colons between them; blank parts at the start
/// do not count.
pub proof fn law_identifier_of_more_parts(s: Seq<char>, p: Seq<char>)
    requires
        !p.contains(':'),
    ensures
        s.contains('=') || p.contains('=') ==> config::identifier_in(s.push(':') + p)
            == config::identifier_in(s),
        !s.contains('=') && !p.contains('=') && config::identifier_in(s).len() == 0
            ==> config::identifier_in(s.push(':') + p) == text::trim(p),
        !s.contains('=') && !p.contains('=') && config::identifier_in(s).len() > 0
            ==> config::identifier_in(s.push(':') + p) == config::identifier_in(s).push(':')
            + text::trim(p),
        config::without_params(s.push(':') + p) <==> !s.contains('=') && !p.contains('='),
{
    let parts = text::split_on(s, ':');
    let more = parts.push(p);
    lemma_parts_appended(s, p);
    lemma_leading(parts, p);
    lemma_only_leading(s);
    lemma_only_leading(s.push(':') + p);
    let n = config::leading_plain(parts) as int;
    if s.contains('=') || p.contains('=') {
        assert(more.take(n) =~= parts.take(n));
    } else {
        assert(more.take(n + 1) =~= more);
        assert(parts.take(n) =~= parts);
        assert(more.drop_last() =~= parts);
    }
}

/// The message for a part that is no parameter with a value.
pub open spec fn says_malformed(
    message: Seq<char>,
    part: Seq<char>,
    fault: config::ParamFault,
) -> bool {
    match fault {
        config::ParamFault::NotAPair => message == "Malformed parameter '"@ + part + "': "@
            + "Expected key=value pair"@,
        config::ParamFault::BadNumber(number) => message == "Malformed parameter '"@ + part + "': "@
            + ("Invalid numeric value: "@ + number),
        config::ParamFault::NotFinite(name) => message == "Malformed parameter '"@ + part + "': "@
            + ("Parameter '"@ + name + "' must be a finite number"@),
    }
}

/// A text without an identifier is refused; one that has nothing but an identifier sets no
/// parameter.
pub proof fn law_setting_without_params(
    s: Seq<char>,
    num: spec_fn(Seq<char>) -> Option<u32>,
)
    ensures
        config::identifier_in(s).len() == 0 ==> config::plugin_setting(s, num) == Err::<
            plugin::SettingView,
            Seq<char>,
        >("Missing plugin identifier"@),
        config::identifier_in(s).len() > 0 && !s.contains('=') ==> config::plugin_setting(s, num)
            == Ok::<plugin::SettingView, Seq<char>>(
            plugin::SettingView { identifier: config::identifier_in(s), params: Seq::empty() },
        ),
{
    let parts = text::split_on(s, ':');
    lemma_only_leading(s);
    assert(parts.skip(parts.len() as int) =~= Seq::empty());
}

/// A part more, in a text that has an identifier: a blank part changes nothing; a part
/// `name=value` sets that parameter to that value and leaves the identifier and the other
/// parameters as they are; any other part is refused with its reason; and what is refused
/// stays refused.
pub proof fn law_setting_with_one_part_more(
    s: Seq<char>,
    p: Seq<char>,
    num: spec_fn(Seq<char>) -> Option<u32>,
)
    requires
        !p.contains(':'),
        config::identifier_in(s).len() > 0,
        s.contains('=') || p.contains('='),
    ensures
        config::plugin_setting(s, num) is Err ==> config::plugin_setting(s.push(':') + p, num)
            == config::plugin_setting(s, num),
        text::trim(p).len() == 0 ==> config::plugin_setting(s.push(':') + p, num)
            == config::plugin_setting(s, num),
        config::plugin_setting(s, num) matches Ok(setting) ==> text::trim(p).len() > 0 ==> (
        config::key_value(p, num) matches Ok(pair) ==> config::plugin_setting(
            s.push(':') + p,
            num,
        ) == Ok::<plugin::SettingView, Seq<char>>(
            plugin::SettingView {
                identifier: setting.identifier,
                params: plugin::set_param(setting.params, pair.0, pair.1),
            },
        )),
        config::plugin_setting(s, num) is Ok ==> text::trim(p).len() > 0 ==> (config::key_value(
            p,
            num,
        ) matches Err(fault) ==> (config::plugin_setting(s.push(':') + p, num) matches Err(message)
            && says_malformed(message, p, fault))),
{
    let parts = text::split_on(s, ':');
    let more = parts.push(p);
    lemma_parts_appended(s, p);
    lemma_leading(parts, p);
    lemma_only_leading(s);
    law_identifier_of_more_parts(s, p);
    let n = config::leading_plain(parts) as int;
    let rest = parts.skip(n);
    assert(more.skip(n) =~= rest.push(p));
    assert(rest.push(p).drop_last() =~= rest);
    let empty = Seq::<(Seq<char>, u32)>::empty();
    assert(config::read_parts(empty, rest.push(p), num) == {
        let (params, fault) = config::read_parts(empty, rest, num);
        if fault is Some {
            (params, fault)
        } else if text::trim(p).len() == 0 {
            (params, None)
        } else {
            match config::key_value(p, num) {
                Ok(pair) => (plugin::set_param(params, pair.0, pair.1), None),
                Err(fault) => (params, Some((p, fault))),
            }
        }
    });
    if let Err(fault) = config::key_value(p, num) {
        assert(says_malformed(config::malformed(p, fault), p, fault));
    }
}

/// Reading a text that is one part: it is one parameter.
pub proof fn law_read_one_param(
    base: Seq<(Seq<char>, u32)>,
    s: Seq<char>,
    num: spec_fn(Seq<char>) -> Option<u32>,
)
    requires
        !s.contains(':'),
    ensures
        config::key_value(s, num) matches Ok(pair) ==> config::read_params(base, s, num) == (
            plugin::set_param(base, pair.0, pair.1),
            None::<config::ParamFault>,
        ),
        config::key_value(s, num) matches Err(fault) ==> config::read_params(base, s, num) == (
            base,
            Some(fault),
        ),
{
}

/// Reading a text with one part more: blank parts are passed over, the first part may be blank
/// too; a part `name=value` sets that parameter, in what the parts before it left; the first
/// fault ends the reading.
pub proof fn law_read_one_part_more(
    base: Seq<(Seq<char>, u32)>,
    s: Seq<char>,
    p: Seq<char>,
    num: spec_fn(Seq<char>) -> Option<u32>,
)
    requires
        !p.contains(':'),
    ensures
        ({
            let before = if text::trim(s).len() == 0 {
                (base, None::<config::ParamFault>)
            } else {
                config::read_params(base, s, num)
            };
            let after = config::read_params(base, s.push(':') + p, num);
            &&& before.1 is Some ==> after == before
            &&& before.1 is None && text::trim(p).len() == 0 ==> after == before
            &&& before.1 is None && text::trim(p).len() > 0 ==> (config::key_value(
                p,
                num,
            ) matches Ok(pair) ==> after == (
                plugin::set_param(before.0, pair.0, pair.1),
                None::<config::ParamFault>,
            ))
            &&& before.1 is None && text::trim(p).len() > 0 ==> (config::key_value(
                p,
                num,
            ) matches Err(fault) ==> after == (before.0, Some(fault)))
        }),
{
    let parts = text::split_on(s, ':');
    let all = s.push(':') + p;
    lemma_parts_appended(s, p);
    assert(all[s.len() as int] == ':');
    assert(all.contains(':'));
    assert(parts.push(p).drop_last() =~= parts);
    if !s.contains(':') {
        law_split_plain(s, ':');
        assert(parts.drop_last() =~= Seq::empty());
        assert(config::read_parts(base, parts.drop_last(), num) == (
            base,
            None::<(Seq<char>, config::ParamFault)>,
        ));
        assert(parts.last() == s);
    } else {
        let k = choose|k: int| 0 <= k < s.len() && s[k] == ':';
        law_trim(s);
        let (from, to) = choose|from: int, to: int|
            {
                &&& 0 <= from <= to <= s.len()
                &&& text::trim(s) == #[trigger] s.subrange(from, to)
                &&& forall|i: int| 0 <= i < from || to <= i < s.len() ==> text::is_space(s[i])
            };
        assert(!text::is_space(':'));
        assert(from <= k < to);
    }
}

/// The name and the finite number of an entry of a table.
pub open spec fn sets(
    entry: (Option<Seq<char>>, Option<u64>),
    nar: spec_fn(u64) -> u32,
    name: Seq<char>,
    value: u32,
) -> bool {
    &&& entry.0 == Some(name)
    &&& entry.1 matches Some(bits) && nar(bits) == value
    &&& value % 0x8000_0000 < 0x7f80_0000
}

/// What is wrong with an entry of a table.
pub open spec fn entry_fault(
    entry: (Option<Seq<char>>, Option<u64>),
    nar: spec_fn(u64) -> u32,
) -> Option<document::ChainFault> {
    match entry.0 {
        None => Some(document::ChainFault::ParamNameNotText),
        Some(name) => match entry.1 {
            None => Some(document::ChainFault::NotANumber(name)),
            Some(bits) => if nar(bits) % 0x8000_0000 < 0x7f80_0000 {
                None
            } else {
                Some(document::ChainFault::Param(config::ParamFault::NotFinite(name)))
            },
        },
    }
}

/// A table of parameters sets each name in it to its number, whatever the number is: a
/// parameter is set to a value if and only if the last entry of that name has it. A table with
/// an entry at fault is refused, for the first such entry, and no other table is.
pub proof fn law_table_params(
    table: Seq<(Option<Seq<char>>, Option<u64>)>,
    nar: spec_fn(u64) -> u32,
)
    ensures
        match document::table_params(table, nar) {
            Ok(params) => {
                &&& forall|i: int|
                    0 <= i < table.len() ==> entry_fault(#[trigger] table[i], nar) is None
                &&& params.map_values(|param: (Seq<char>, u32)| param.0).no_duplicates()
                &&& forall|name: Seq<char>, value: u32| #[trigger]
                    params.contains((name, value)) <==> exists|i: int|
                        {
                            &&& 0 <= i < table.len()
                            &&& sets(#[trigger] table[i], nar, name, value)
                            &&& forall|j: int|
                                i < j < table.len() ==> (#[trigger] table[j]).0 != Some(name)
                        }
            },
            Err(fault) => exists|i: int|
                {
                    &&& 0 <= i < table.len()
                    &&& entry_fault(#[trigger] table[i], nar) == Some(fault)
                    &&& forall|j: int|
                        0 <= j < i ==> entry_fault(#[trigger] table[j], nar) is None
                },
        },
    decreases table.len(),
{
    if table.len() > 0 {
        let init = table.drop_last();
        let last = table.last();
        let n = init.len() as int;
        law_table_params(init, nar);
        assert(forall|i: int| 0 <= i < n ==> #[trigger] table[i] == init[i]);
        assert(table[n] == last);
        match document::table_params(init, nar) {
            Err(fault) => {
                let i = choose|i: int|
                    {
                        &&& 0 <= i < init.len()
                        &&& entry_fault(#[trigger] init[i], nar) == Some(fault)
                        &&& forall|j: int|
                            0 <= j < i ==> entry_fault(#[trigger] init[j], nar) is None
                    };
                assert(entry_fault(table[i], nar) == Some(fault));
                assert forall|j: int| 0 <= j < i implies entry_fault(
                    #[trigger] table[j],
                    nar,
                ) is None by {
                    assert(entry_fault(init[j], nar) is None);
                }
            },
            Ok(params) => {
                assert forall|i: int| 0 <= i < n implies entry_fault(
                    #[trigger] table[i],
                    nar,
                ) is None by {
                    assert(entry_fault(init[i], nar) is None);
                }
                if let (Some(name), Some(bits)) = last {
                    law_finite(nar(bits));
                    if nar(bits) % 0x8000_0000 < 0x7f80_0000 {
                        lemma_table_entry(table, params, name, nar(bits), nar);
                    } else {
                        assert(entry_fault(table[n], nar) is Some);
                    }
                } else {
                    assert(entry_fault(table[n], nar) is Some);
                }
            },
        }
    }
}

proof fn lemma_table_entry(
    table: Seq<(Option<Seq<char>>, Option<u64>)>,
    params: Seq<(Seq<char>, u32)>,
    name: Seq<char>,
    value: u32,
    nar: spec_fn(u64) -> u32,
)
    requires
        table.len() > 0,
        sets(table.last(), nar, name, value),
        params.map_values(|param: (Seq<char>, u32)| param.0).no_duplicates(),
        forall|n: Seq<char>, v: u32| #[trigger]
            params.contains((n, v)) <==> exists|i: int|
                {
                    &&& 0 <= i < table.len() - 1
                    &&& sets(#[trigger] table.drop_last()[i], nar, n, v)
                    &&& forall|j: int|
                        i < j < table.len() - 1 ==> (#[trigger] table.drop_last()[j]).0 != Some(n)
                },
    ensures
        plugin::set_param(params, name, value).map_values(
            |param: (Seq<char>, u32)| param.0,
        ).no_duplicates(),
        forall|n: Seq<char>, v: u32| #[trigger]
            plugin::set_param(params, name, value).contains((n, v)) <==> exists|i: int|
                {
                    &&& 0 <= i < table.len()
                    &&& sets(#[trigger] table[i], nar, n, v)
                    &&& forall|j: int| i < j < table.len() ==> (#[trigger] table[j]).0 != Some(n)
                },
{
    let init = table.drop_last();
    let last = table.len() - 1;
    let after = plugin::set_param(params, name, value);
    super::lookup::law_distinct(params);
    plugin::law_set_param_is_map_insert(params, name, value);
    super::lookup::law_distinct(after);
    super::lookup::law_set_param(params, name, value);
    assert(table[last] == table.last());
    assert forall|n: Seq<char>, v: u32| #[trigger] after.contains((n, v)) <==> exists|i: int|
        {
            &&& 0 <= i < table.len()
            &&& sets(#[trigger] table[i], nar, n, v)
            &&& forall|j: int| i < j < table.len() ==> (#[trigger] table[j]).0 != Some(n)
        } by {
        if n == name {
            if after.contains((n, v)) {
                assert(sets(table[last], nar, n, v));
            }
            if exists|i: int|
                {
                    &&& 0 <= i < table.len()
                    &&& sets(#[trigger] table[i], nar, n, v)
                    &&& forall|j: int| i < j < table.len() ==> (#[trigger] table[j]).0 != Some(n)
                } {
                let i = choose|i: int|
                    {
                        &&& 0 <= i < table.len()
                        &&& sets(#[trigger] table[i], nar, n, v)
                        &&& forall|j: int|
                            i < j < table.len() ==> (#[trigger] table[j]).0 != Some(n)
                    };
                if i < last {
                    assert(table[last].0 != Some(n));
                }
            }
        } else {
            if after.contains((n, v)) {
                assert(params.contains((n, v)));
                let i = choose|i: int|
                    {
                        &&& 0 <= i < table.len() - 1
                        &&& sets(#[trigger] init[i], nar, n, v)
                        &&& forall|j: int|
                            i < j < table.len() - 1 ==> (#[trigger] init[j]).0 != Some(n)
                    };
                assert(table[i] == init[i]);
                assert(sets(table[i], nar, n, v));
                assert forall|j: int| i < j < table.len() implies (#[trigger] table[j]).0 != Some(
                    n,
                ) by {
                    if j < last {
                        assert(table[j] == init[j]);
                    }
                }
            }
            if exists|i: int|
                {
                    &&& 0 <= i < table.len()
                    &&& sets(#[trigger] table[i], nar, n, v)
                    &&& forall|j: int| i < j < table.len() ==> (#[trigger] table[j]).0 != Some(n)
                } {
                let i = choose|i: int|
                    {
                        &&& 0 <= i < table.len()
                        &&& sets(#[trigger] table[i], nar, n, v)
                        &&& forall|j: int|
                            i < j < table.len() ==> (#[trigger] table[j]).0 != Some(n)
                    };
                assert(i < last);
                assert(init[i] == table[i]);
                assert(sets(init[i], nar, n, v));
                assert forall|j: int| i < j < table.len() - 1 implies (#[trigger] init[j]).0
                    != Some(n) by {
                    assert(init[j] == table[j]);
                }
                assert(params.contains((n, v)));
            }
        }
    }
}

/// A table with distinct names and finite numbers sets as many parameters as it has entries,
/// in its order, each to its own number.
pub proof fn law_table_sets_each(
    table: Seq<(Option<Seq<char>>, Option<u64>)>,
    nar: spec_fn(u64) -> u32,
)
    requires
        forall|i: int|
            0 <= i < table.len() ==> (#[trigger] table[i]).0 is Some && table[i].1 is Some && nar(
                table[i].1->0,
            ) % 0x8000_0000 < 0x7f80_0000,
        forall|i: int, j: int|
            0 <= i < j < table.len() ==> (#[trigger] table[i]).0 != (#[trigger] table[j]).0,
    ensures
        document::table_params(table, nar) matches Ok(params) && params.len() == table.len()
            && forall|i: int|
            0 <= i < table.len() ==> #[trigger] params[i] == (
                table[i].0->0,
                nar(table[i].1->0),
            ),
    decreases table.len(),
{
    if table.len() > 0 {
        let init = table.drop_last();
        assert(forall|i: int| 0 <= i < init.len() ==> #[trigger] init[i] == table[i]);
        law_table_sets_each(init, nar);
        let last = table[table.len() - 1];
        assert(last == table.last());
        assert(last.0 is Some && last.1 is Some);
        law_finite(nar(last.1->0));
        let params = document::table_params(init, nar)->Ok_0;
        super::lookup::law_set_param(params, last.0->0, nar(last.1->0));
        assert forall|i: int| 0 <= i < params.len() implies (#[trigger] params[i]).0
            != last.0->0 by {
            assert(table[i].0 != table[table.len() - 1].0);
        }
    }
}

/// The parameters in a list: an empty list sets none, an item that is no text is passed over,
/// and a text is read into what the items before it set; the first fault ends the reading.
pub proof fn law_list_params(
    list: Seq<Option<Seq<char>>>,
    item: Option<Seq<char>>,
    num: spec_fn(Seq<char>) -> Option<u32>,
)
    ensures
        document::list_params(Seq::empty(), num) == Ok::<
            Seq<(Seq<char>, u32)>,
            document::ChainFault,
        >(Seq::empty()),
        document::list_params(list, num) is Err ==> document::list_params(list.push(item), num)
            == document::list_params(list, num),
        item is None ==> document::list_params(list.push(item), num) == document::list_params(
            list,
            num,
        ),
        document::list_params(list, num) matches Ok(params) ==> (item matches Some(s) ==> match (
        config::read_params(params, s, num).1) {
            None => document::list_params(list.push(item), num) == Ok::<
                Seq<(Seq<char>, u32)>,
                document::ChainFault,
            >(config::read_params(params, s, num).0),
            Some(fault) => document::list_params(list.push(item), num) == Err::<
                Seq<(Seq<char>, u32)>,
                document::ChainFault,
            >(document::ChainFault::Param(fault)),
        }),
{
    assert(list.push(item).drop_last() =~= list);
}

/// What stands under the name of a plugin: a text is read as a list of that one text is; a list
/// and a table set what their items and entries set; anything else sets nothing.
pub proof fn law_source_params(
    s: Seq<char>,
    list: Seq<Option<Seq<char>>>,
    table: Seq<(Option<Seq<char>>, Option<u64>)>,
    num: spec_fn(Seq<char>) -> Option<u32>,
    nar: spec_fn(u64) -> u32,
)
    ensures
        document::source_params(document::SourceView::Text(s), num, nar)
            == document::source_params(document::SourceView::List(seq![Some(s)]), num, nar),
        document::source_params(document::SourceView::List(list), num, nar)
            == document::list_params(list, num),
        document::source_params(document::SourceView::Table(table), num, nar)
            == document::table_params(table, nar),
        document::source_params(document::SourceView::Other, num, nar) == Ok::<
            Seq<(Seq<char>, u32)>,
            document::ChainFault,
        >(Seq::empty()),
{
    law_list_params(Seq::empty(), Some(s), num);
    assert(Seq::empty().push(Some(s)) =~= seq![Some(s)]);
}

/// A table of plugins asks for one setting for each entry, in its order: the plugin of that
/// name, with the parameters that stand under it. It is refused for its first entry at fault,
/// and only then.
pub proof fn law_table_settings(
    table: Seq<(Option<Seq<char>>, document::SourceView)>,
    num: spec_fn(Seq<char>) -> Option<u32>,
    nar: spec_fn(u64) -> u32,
)
    ensures
        match document::table_settings(table, num, nar) {
            Ok(settings) => {
                &&& settings.len() == table.len()
                &&& forall|i: int|
                    0 <= i < table.len() ==> {
                        &&& (#[trigger] table[i]).0 == Some(settings[i].identifier)
                        &&& document::source_params(table[i].1, num, nar) == Ok::<
                            Seq<(Seq<char>, u32)>,
                            document::ChainFault,
                        >(settings[i].params)
                    }
            },
            Err(fault) => exists|i: int|
                {
                    &&& 0 <= i < table.len()
                    &&& (#[trigger] table[i]).0 is None ==> fault
                        == document::ChainFault::NameNotText
                    &&& table[i].0 is Some ==> document::source_params(table[i].1, num, nar)
                        == Err::<Seq<(Seq<char>, u32)>, document::ChainFault>(fault)
                    &&& forall|j: int|
                        0 <= j < i ==> (#[trigger] table[j]).0 is Some && document::source_params(
                            table[j].1,
                            num,
                            nar,
                        ) is Ok
                },
        },
    decreases table.len(),
{
    if table.len() > 0 {
        let init = table.drop_last();
        let n = init.len() as int;
        law_table_settings(init, num, nar);
        assert(forall|i: int| 0 <= i < n ==> #[trigger] table[i] == init[i]);
        assert(table[n] == table.last());
        match document::table_settings(init, num, nar) {
            Err(fault) => {
                let i = choose|i: int|
                    {
                        &&& 0 <= i < init.len()
                        &&& (#[trigger] init[i]).0 is None ==> fault
                            == document::ChainFault::NameNotText
                        &&& init[i].0 is Some ==> document::source_params(init[i].1, num, nar)
                            == Err::<Seq<(Seq<char>, u32)>, document::ChainFault>(fault)
                        &&& forall|j: int|
                            0 <= j < i ==> (#[trigger] init[j]).0 is Some
                                && document::source_params(init[j].1, num, nar) is Ok
                    };
                assert(table[i] == init[i]);
                assert forall|j: int| 0 <= j < i implies (#[trigger] table[j]).0 is Some
                    && document::source_params(table[j].1, num, nar) is Ok by {
                    assert(init[j].0 is Some);
                }
            },
            Ok(settings) => {
                assert forall|j: int| 0 <= j < n implies (#[trigger] table[j]).0 is Some
                    && document::source_params(table[j].1, num, nar) is Ok by {
                    assert(init[j].0 == Some(settings[j].identifier));
                }
                if document::table_settings(table, num, nar) is Ok {
                    assert forall|i: int| 0 <= i < table.len() implies {
                        &&& (#[trigger] table[i]).0 == Some(
                            document::table_settings(table, num, nar)->Ok_0[i].identifier,
                        )
                        &&& document::source_params(table[i].1, num, nar) == Ok::<
                            Seq<(Seq<char>, u32)>,
                            document::ChainFault,
                        >(document::table_settings(table, num, nar)->Ok_0[i].params)
                    } by {
                        if i < n {
                            assert(init[i].0 == Some(settings[i].identifier));
                        }
                    }
                }
            },
        }
    }
}

/// What the items of a chain file ask for: a text for the one setting that it asks for on the
/// command line, a table for its plugins, anything else for nothing; a list of one item for
/// what that item asks for.
pub proof fn law_items(
    s: Seq<char>,
    table: Seq<(Option<Seq<char>>, document::SourceView)>,
    entry: document::EntryView,
    num: spec_fn(Seq<char>) -> Option<u32>,
    nar: spec_fn(u64) -> u32,
)
    ensures
        config::plugin_setting(s, num) matches Ok(setting) ==> document::entry_settings(
            document::EntryView::Text(s),
            num,
            nar,
        ) == Ok::<Seq<plugin::SettingView>, document::ChainFault>(seq![setting]),
        config::plugin_setting(s, num) matches Err(reason) ==> document::entry_settings(
            document::EntryView::Text(s),
            num,
            nar,
        ) == Err::<Seq<plugin::SettingView>, document::ChainFault>(
            document::ChainFault::Setting(reason),
        ),
        document::entry_settings(document::EntryView::Table(table), num, nar)
            == document::table_settings(table, num, nar),
        document::entry_settings(document::EntryView::Other, num, nar) == Ok::<
            Seq<plugin::SettingView>,
            document::ChainFault,
        >(Seq::empty()),
        document::list_settings(Seq::empty(), num, nar) == Ok::<
            Seq<plugin::SettingView>,
            document::ChainFault,
        >(Seq::empty()),
        document::list_settings(seq![entry], num, nar) == document::entry_settings(
            entry,
            num,
            nar,
        ),
{
    let none = Seq::<document::EntryView>::empty();
    assert(document::list_settings(none, num, nar) == Ok::<
        Seq<plugin::SettingView>,
        document::ChainFault,
    >(Seq::empty()));
    assert(seq![entry].drop_last() =~= none);
    if let Ok(more) = document::entry_settings(entry, num, nar) {
        assert(Seq::<plugin::SettingView>::empty() + more =~= more);
    }
}

/// A chain file asks for what its list of plugins asks for, or is refused for having none.
pub proof fn law_chain_of_document(
    entries: Seq<document::EntryView>,
    num: spec_fn(Seq<char>) -> Option<u32>,
    nar: spec_fn(u64) -> u32,
)
    ensures
        document::chain(document::DocumentView::Entries(entries), num, nar)
            == document::list_settings(entries, num, nar),
        document::chain(document::DocumentView::PluginsNotAList, num, nar) == Err::<
            Seq<plugin::SettingView>,
            document::ChainFault,
        >(document::ChainFault::PluginsNotAList),
        document::chain(document::DocumentView::NotAChain, num, nar) == Err::<
            Seq<plugin::SettingView>,
            document::ChainFault,
        >(document::ChainFault::NotAChain),
{
}

/// What a YAML value is: one thing only, and the same under a tag.
pub proof fn law_tree(
    s: Seq<char>,
    bits: u64,
    items: Seq<yaml::Tree>,
    entries: Seq<(yaml::Tree, yaml::Tree)>,
    t: yaml::Tree,
)
    ensures
        yaml::text_in(yaml::Tree::Text(s)) == Some(s),
        yaml::text_in(yaml::Tree::Number(bits)) is None,
        yaml::text_in(yaml::Tree::List(items)) is None,
        yaml::text_in(yaml::Tree::Table(entries)) is None,
        yaml::text_in(yaml::Tree::Other) is None,
        yaml::text_in(yaml::Tree::Tagged(Box::new(t))) == yaml::text_in(t),
        yaml::number_in(yaml::Tree::Number(bits)) == Some(bits),
        yaml::number_in(yaml::Tree::Text(s)) is None,
        yaml::number_in(yaml::Tree::List(items)) is None,
        yaml::number_in(yaml::Tree::Table(entries)) is None,
        yaml::number_in(yaml::Tree::Other) is None,
        yaml::number_in(yaml::Tree::Tagged(Box::new(t))) == yaml::number_in(t),
        yaml::items_in(yaml::Tree::List(items)) == Some(items),
        yaml::items_in(yaml::Tree::Text(s)) is None,
        yaml::items_in(yaml::Tree::Number(bits)) is None,
        yaml::items_in(yaml::Tree::Table(entries)) is None,
        yaml::items_in(yaml::Tree::Other) is None,
        yaml::items_in(yaml::Tree::Tagged(Box::new(t))) == yaml::items_in(t),
        yaml::entries_in(yaml::Tree::Table(entries)) == Some(entries),
        yaml::entries_in(yaml::Tree::Text(s)) is None,
        yaml::entries_in(yaml::Tree::Number(bits)) is None,
        yaml::entries_in(yaml::Tree::List(items)) is None,
        yaml::entries_in(yaml::Tree::Other) is None,
        yaml::entries_in(yaml::Tree::Tagged(Box::new(t))) == yaml::entries_in(t),
{
}

/// The value under a key is that of the first entry with the key, which is there if there is a
/// value and only then.
pub proof fn law_entry_with(entries: Seq<(yaml::Tree, yaml::Tree)>, key: Seq<char>)
    ensures
        match yaml::entry_with(entries, key) {
            Some(t) => exists|i: int|
                {
                    &&& 0 <= i < entries.len()
                    &&& #[trigger] entries[i] == (yaml::Tree::Text(key), t)
                    &&& forall|j: int|
                        0 <= j < i ==> (#[trigger] entries[j]).0 != yaml::Tree::Text(key)
                },
            None => forall|j: int|
                0 <= j < entries.len() ==> (#[trigger] entries[j]).0 != yaml::Tree::Text(key),
        },
        yaml::value_at(yaml::Tree::Table(entries), key) == yaml::entry_with(entries, key),
    decreases entries.len(),
{
    if entries.len() > 0 {
        let rest = entries.drop_first();
        law_entry_with(rest, key);
        assert(forall|j: int| 0 < j < entries.len() ==> #[trigger] entries[j] == rest[j - 1]);
        if entries[0].0 == yaml::Tree::Text(key) {
            assert(entries[0] == (yaml::Tree::Text(key), entries[0].1));
        } else if let Some(t) = yaml::entry_with(rest, key) {
            let i = choose|i: int|
                {
                    &&& 0 <= i < rest.len()
                    &&& #[trigger] rest[i] == (yaml::Tree::Text(key), t)
                    &&& forall|j: int|
                        0 <= j < i ==> (#[trigger] rest[j]).0 != yaml::Tree::Text(key)
                };
            assert(entries[i + 1] == rest[i]);
            assert forall|j: int| 0 <= j < i + 1 implies (#[trigger] entries[j]).0
                != yaml::Tree::Text(key) by {
                if j > 0 {
                    assert(rest[j - 1].0 != yaml::Tree::Text(key));
                }
            }
        }
    }
}

/// What a YAML value under the name of a plugin says, item by item and entry by entry.
pub proof fn law_source_in(t: yaml::Tree)
    ensures
        yaml::text_in(t) matches Some(s) ==> document::source_in(t) == document::SourceView::Text(
            s,
        ),
        yaml::items_in(t) matches Some(items) ==> (
        document::source_in(t) matches document::SourceView::List(list) && list.len()
            == items.len() && forall|i: int|
            0 <= i < items.len() ==> #[trigger] list[i] == yaml::text_in(items[i])),
        yaml::entries_in(t) matches Some(entries) ==> (
        document::source_in(t) matches document::SourceView::Table(table) && table.len()
            == entries.len() && forall|i: int|
            0 <= i < entries.len() ==> (#[trigger] table[i]).0 == yaml::text_in(entries[i].0)
                && table[i].1 == yaml::number_in(entries[i].1)),
        yaml::text_in(t) is None && yaml::items_in(t) is None && yaml::entries_in(t) is None
            ==> document::source_in(t) == document::SourceView::Other,
{
}

/// What an item of the list of plugins says, entry by entry.
pub proof fn law_entry_in(t: yaml::Tree)
    ensures
        yaml::text_in(t) matches Some(s) ==> document::entry_in(t) == document::EntryView::Text(s),
        yaml::entries_in(t) matches Some(entries) ==> (
        document::entry_in(t) matches document::EntryView::Table(table) && table.len()
            == entries.len() && forall|i: int|
            0 <= i < entries.len() ==> (#[trigger] table[i]).0 == yaml::text_in(entries[i].0)
                && table[i].1 == document::source_in(entries[i].1)),
        yaml::text_in(t) is None && yaml::entries_in(t) is None ==> document::entry_in(t)
            == document::EntryView::Other,
{
}

/// What a YAML document says: the list under `plugins` if there is that key, else the document
/// itself if it is a list, item by item.
pub proof fn law_chain_in(t: yaml::Tree)
    ensures
        yaml::value_at(t, "plugins"@) matches Some(plugins) ==> match yaml::items_in(plugins) {
            Some(items) => document::chain_in(t) matches document::DocumentView::Entries(entries)
                && entries.len() == items.len() && forall|i: int|
                0 <= i < items.len() ==> #[trigger] entries[i] == document::entry_in(items[i]),
            None => document::chain_in(t) == document::DocumentView::PluginsNotAList,
        },
        yaml::value_at(t, "plugins"@) is None ==> match yaml::items_in(t) {
            Some(items) => document::chain_in(t) matches document::DocumentView::Entries(entries)
                && entries.len() == items.len() && forall|i: int|
                0 <= i < items.len() ==> #[trigger] entries[i] == document::entry_in(items[i]),
            None => document::chain_in(t) == document::DocumentView::NotAChain,
        },
        yaml::entries_in(t) is None ==> yaml::value_at(t, "plugins"@) is None,
{
}

/// The same list of plugins asks for the same chain at the top of a document and under the key
/// `plugins`.
pub proof fn law_list_at_the_top_or_under_plugins(items: Seq<yaml::Tree>)
    ensures
        document::chain_in(
            yaml::Tree::Table(seq![(yaml::Tree::Text("plugins"@), yaml::Tree::List(items))]),
        ) == document::chain_in(yaml::Tree::List(items)),
{
    let entries = seq![(yaml::Tree::Text("plugins"@), yaml::Tree::List(items))];
    law_entry_with(entries, "plugins"@);
    assert(entries[0].0 == yaml::Tree::Text("plugins"@));
}

/// The entries of a table of parameters as YAML.
pub open spec fn yaml_params(params: Seq<(Seq<char>, u64)>) -> Seq<(yaml::Tree, yaml::Tree)> {
    params.map_values(
        |param: (Seq<char>, u64)| (yaml::Tree::Text(param.0), yaml::Tree::Number(param.1)),
    )
}

/// A chain file that names a plugin with a table of parameters under it asks for that plugin
/// with each of these parameters set to its number.
pub proof fn law_file_with_a_table(
    name: Seq<char>,
    params: Seq<(Seq<char>, u64)>,
    num: spec_fn(Seq<char>) -> Option<u32>,
    nar: spec_fn(u64) -> u32,
)
    requires
        forall|i: int|
            0 <= i < params.len() ==> nar((#[trigger] params[i]).1) % 0x8000_0000 < 0x7f80_0000,
        forall|i: int, j: int|
            0 <= i < j < params.len() ==> (#[trigger] params[i]).0 != (#[trigger] params[j]).0,
    ensures
        document::chain(
            document::chain_in(
                yaml::Tree::List(
                    seq![
                        yaml::Tree::Table(
                            seq![
                                (yaml::Tree::Text(name), yaml::Tree::Table(yaml_params(params))),
                            ],
                        ),
                    ],
                ),
            ),
            num,
            nar,
        ) matches Ok(settings) && {
            &&& settings.len() == 1
            &&& settings[0].identifier == name
            &&& settings[0].params.len() == params.len()
            &&& forall|i: int|
                0 <= i < params.len() ==> #[trigger] settings[0].params[i] == (
                    params[i].0,
                    nar(params[i].1),
                )
        },
{
    let source = yaml::Tree::Table(yaml_params(params));
    let entries = seq![(yaml::Tree::Text(name), source)];
    let item = yaml::Tree::Table(entries);
    let items = seq![item];
    let t = yaml::Tree::List(items);
    law_chain_in(t);
    let said = document::chain_in(t)->Entries_0;
    law_entry_in(item);
    law_source_in(source);
    let table = document::source_in(source)->Table_0;
    assert forall|i: int| 0 <= i < table.len() implies (#[trigger] table[i]) == (
        Some(params[i].0),
        Some(params[i].1),
    ) by {
        assert(yaml_params(params)[i] == (
            yaml::Tree::Text(params[i].0),
            yaml::Tree::Number(params[i].1),
        ));
    }
    assert forall|i: int, j: int| 0 <= i < j < table.len() implies (#[trigger] table[i]).0 != (
    #[trigger] table[j]).0 by {
        assert(params[i].0 != params[j].0);
    }
    law_table_sets_each(table, nar);
    law_source_params(Seq::empty(), Seq::empty(), table, num, nar);
    let plugins = document::entry_in(item)->Table_0;
    assert(plugins[0].0 == Some(name));
    assert(plugins[0].1 == document::source_in(source));
    law_table_settings(plugins, num, nar);
    assert(said =~= seq![document::entry_in(item)]);
    law_items(Seq::empty(), plugins, document::entry_in(item), num, nar);
    law_chain_of_document(said, num, nar);
    assert(document::table_settings(plugins, num, nar) is Ok) by {
        if let Err(fault) = document::table_settings(plugins, num, nar) {
            let i = choose|i: int|
                {
                    &&& 0 <= i < plugins.len()
                    &&& (#[trigger] plugins[i]).0 is None ==> fault
                        == document::ChainFault::NameNotText
                    &&& plugins[i].0 is Some ==> document::source_params(plugins[i].1, num, nar)
                        == Err::<Seq<(Seq<char>, u32)>, document::ChainFault>(fault)
                    &&& forall|j: int|
                        0 <= j < i ==> (#[trigger] plugins[j]).0 is Some
                            && document::source_params(plugins[j].1, num, nar) is Ok
                };
            assert(i == 0);
        }
    }
    assert(plugins[0].0 == Some(
        document::table_settings(plugins, num, nar)->Ok_0[0].identifier,
    ));
}

/// A chain file that lists one plugin text asks for the same as that text on the command line.
pub proof fn law_file_with_a_text(
    s: Seq<char>,
    num: spec_fn(Seq<char>) -> Option<u32>,
    nar: spec_fn(u64) -> u32,
)
    ensures
        config::plugin_setting(s, num) matches Ok(setting) ==> document::chain(
            document::chain_in(yaml::Tree::List(seq![yaml::Tree::Text(s)])),
            num,
            nar,
        ) == Ok::<Seq<plugin::SettingView>, document::ChainFault>(seq![setting]),
        config::plugin_setting(s, num) matches Err(reason) ==> document::chain(
            document::chain_in(yaml::Tree::List(seq![yaml::Tree::Text(s)])),
            num,
            nar,
        ) == Err::<Seq<plugin::SettingView>, document::ChainFault>(
            document::ChainFault::Setting(reason),
        ),
{
    let item = yaml::Tree::Text(s);
    let t = yaml::Tree::List(seq![item]);
    law_chain_in(t);
    law_entry_in(item);
    let said = document::chain_in(t)->Entries_0;
    assert(said =~= seq![document::EntryView::Text(s)]);
    law_items(s, Seq::empty(), document::EntryView::Text(s), num, nar);
    law_chain_of_document(said, num, nar);
}

/// What the parts of a chain file hold.
pub proof fn law_document_views(
    source: document::ParamSource,
    entry: document::ChainEntry,
    doc: document::ChainDocument,
    settings: Seq<plugin::PluginSetting>,
)
    ensures
        source matches document::ParamSource::Text(s) ==> source@ == document::SourceView::Text(
            s@,
        ),
        source is Other ==> source@ is Other,
        source matches document::ParamSource::List(list) ==> (
        source@ matches document::SourceView::List(view) && view.len() == list@.len()
            && forall|i: int|
            0 <= i < list@.len() ==> match list@[i] {
                Some(s) => #[trigger] view[i] == Some(s@),
                None => view[i] is None,
            }),
        source matches document::ParamSource::Table(table) ==> (
        source@ matches document::SourceView::Table(view) && view.len() == table@.len()
            && forall|i: int|
            0 <= i < table@.len() ==> (#[trigger] view[i]).1 == table@[i].1 && match table@[i].0 {
                Some(s) => view[i].0 == Some(s@),
                None => view[i].0 is None,
            }),
        entry matches document::ChainEntry::Text(s) ==> entry@ == document::EntryView::Text(s@),
        entry is Other ==> entry@ is Other,
        entry matches document::ChainEntry::Table(table) ==> (
        entry@ matches document::EntryView::Table(view) && view.len() == table@.len()
            && forall|i: int|
            0 <= i < table@.len() ==> (#[trigger] view[i]).1 == table@[i].1@ && match table@[i].0 {
                Some(s) => view[i].0 == Some(s@),
                None => view[i].0 is None,
            }),
        doc is PluginsNotAList ==> doc@ is PluginsNotAList,
        doc is NotAChain ==> doc@ is NotAChain,
        doc matches document::ChainDocument::Entries(list) ==> (
        doc@ matches document::DocumentView::Entries(view) && view.len() == list@.len()
            && forall|i: int| 0 <= i < list@.len() ==> #[trigger] view[i] == list@[i]@),
        document::settings_view(settings).len() == settings.len(),
        forall|i: int|
            0 <= i < settings.len() ==> #[trigger] document::settings_view(settings)[i]
                == settings[i]@,
{
}

/// What the results of reading hold.
pub proof fn law_result_views(
    pair: Result<(String, u32), config::ParamError>,
    setting: Result<plugin::PluginSetting, String>,
    params: Result<Vec<(String, u32)>, document::ConfigError>,
    chain: Result<Vec<plugin::PluginSetting>, document::ConfigError>,
    done: Result<(), config::ParamError>,
)
    ensures
        pair matches Ok(p) ==> config::key_value_view(pair) == Ok::<
            (Seq<char>, u32),
            config::ParamFault,
        >((p.0@, p.1)),
        pair matches Err(e) ==> config::key_value_view(pair) == Err::<
            (Seq<char>, u32),
            config::ParamFault,
        >(e@),
        setting matches Ok(s) ==> config::setting_view(setting) == Ok::<
            plugin::SettingView,
            Seq<char>,
        >(s@),
        setting matches Err(message) ==> config::setting_view(setting) == Err::<
            plugin::SettingView,
            Seq<char>,
        >(message@),
        params matches Ok(list) ==> document::params_result_view(params) == Ok::<
            Seq<(Seq<char>, u32)>,
            document::ChainFault,
        >(plugin::params_view(list@)),
        params matches Err(e) ==> document::params_result_view(params) == Err::<
            Seq<(Seq<char>, u32)>,
            document::ChainFault,
        >(e@),
        chain matches Ok(list) ==> document::chain_view(chain) == Ok::<
            Seq<plugin::SettingView>,
            document::ChainFault,
        >(document::settings_view(list@)),
        chain matches Err(e) ==> document::chain_view(chain) == Err::<
            Seq<plugin::SettingView>,
            document::ChainFault,
        >(e@),
        done is Ok ==> config::params_fault(done) is None,
        done matches Err(e) ==> config::params_fault(done) == Some(e@),
{
}

/// What the errors hold.
pub proof fn law_error_views(param: config::ParamError, file: document::ConfigError)
    ensures
        param is NotAPair <==> param@ is NotAPair,
        param matches config::ParamError::BadNumber(s) ==> param@
            == config::ParamFault::BadNumber(s@),
        param matches config::ParamError::NotFinite(s) ==> param@
            == config::ParamFault::NotFinite(s@),
        file matches document::ConfigError::NotYaml(s) ==> file@ == document::ChainFault::NotYaml(
            s@,
        ),
        file is PluginsNotAList <==> file@ is PluginsNotAList,
        file is NotAChain <==> file@ is NotAChain,
        file matches document::ConfigError::Setting(s) ==> file@ == document::ChainFault::Setting(
            s@,
        ),
        file is NameNotText <==> file@ is NameNotText,
        file matches document::ConfigError::Param(e) ==> file@ == document::ChainFault::Param(e@),
        file is ParamNameNotText <==> file@ is ParamNameNotText,
        file matches document::ConfigError::NotANumber(s) ==> file@
            == document::ChainFault::NotANumber(s@),
{
}

/// The contents of texts, in order.
pub proof fn law_texts(list: Seq<String>, pieces: Seq<Vec<char>>)
    ensures
        text::strings(list).len() == list.len(),
        forall|i: int| 0 <= i < list.len() ==> #[trigger] text::strings(list)[i] == list[i]@,
        text::texts(pieces).len() == pieces.len(),
        forall|i: int| 0 <= i < pieces.len() ==> #[trigger] text::texts(pieces)[i] == pieces[i]@,
{
}

/// A function that gives for every text what `num` gives reads as `num`; one that can be asked
/// about every text reads any.
pub proof fn law_reads<F: Fn(&str) -> Option<u32>>(
    number: F,
    num: spec_fn(Seq<char>) -> Option<u32>,
)
    ensures
        (forall|t: &str, bits: Option<u32>| #[trigger]
            call_ensures(number, (t,), bits) ==> bits == num(t@)) ==> config::reads_as(number, num),
        (forall|t: &str| #[trigger] call_requires(number, (t,))) ==> config::reads_any(number),
{
}

/// A function that gives for every number what `nar` gives narrows as `nar`; one that can be
/// asked about every number narrows any.
pub proof fn law_narrows<F: Fn(&str) -> Option<u32>, G: Fn(u64) -> u32>(
    number: F,
    narrow: G,
    num: spec_fn(Seq<char>) -> Option<u32>,
    nar: spec_fn(u64) -> u32,
)
    ensures
        (forall|bits: u64, narrowed: u32| #[trigger]
            call_ensures(narrow, (bits,), narrowed) ==> narrowed == nar(bits))
            ==> document::narrows_as(narrow, nar),
        (forall|bits: u64| #[trigger] call_requires(narrow, (bits,))) ==> document::narrows_any(
            narrow,
        ),
        config::reads_as(number, num) && document::narrows_as(narrow, nar) ==> document::answers(
            number,
            narrow,
            num,
            nar,
        ),
{
}

} // verus!
