//! The two ways to write a chain down: plugin texts on the command line, and a YAML document.
//!
//! A number is read by a function that the caller hands over: it takes the text and gives the
//! bit pattern of the IEEE 754 single that the text stands for, or nothing.
use vstd::prelude::*;

use crate::plugin;
use crate::plugin::{insert_param, PluginSetting, SettingView};
use crate::text;
use crate::text::{append_chars, chars_of, has_char, split_chars, string_of, trim_chars};

verus! {

/// What a `ParamError` holds.
pub enum ParamFault {
    NotAPair,
    BadNumber(Seq<char>),
    NotFinite(Seq<char>),
}

/// Why a text is no parameter with a value.
#[derive(Debug)]
pub enum ParamError {
    /// There is not exactly one `=` in it.
    NotAPair,
    /// This text behind the `=` is no number.
    BadNumber(String),
    /// The value of the parameter of this name is infinite, or no number.
    NotFinite(String),
}

impl View for ParamError {
    type V = ParamFault;

    open spec fn view(&self) -> ParamFault {
        match self {
            ParamError::NotAPair => ParamFault::NotAPair,
            ParamError::BadNumber(text) => ParamFault::BadNumber(text@),
            ParamError::NotFinite(name) => ParamFault::NotFinite(name@),
        }
    }
}

/// The message for a fault.
pub open spec fn fault_text(fault: ParamFault) -> Seq<char> {
    match fault {
        ParamFault::NotAPair => "Expected key=value pair"@,
        ParamFault::BadNumber(text) => "Invalid numeric value: "@ + text,
        ParamFault::NotFinite(name) => "Parameter '"@ + name + "' must be a finite number"@,
    }
}

impl ParamError {
    /// The message for the user.
    pub fn message(&self) -> (text: String)
        ensures
            text@ == fault_text(self@),
            self is NotAPair ==> text@ == "Expected key=value pair"@,
            self matches ParamError::BadNumber(number) ==> text@ == "Invalid numeric value: "@
                + number@,
            self matches ParamError::NotFinite(name) ==> text@ == "Parameter '"@ + name@
                + "' must be a finite number"@,
    {
        let mut text = String::new();
        match self {
            ParamError::NotAPair => {
                text.append("Expected key=value pair");
            },
            ParamError::BadNumber(number) => {
                text.append("Invalid numeric value: ");
                text.append(number.as_str());
            },
            ParamError::NotFinite(name) => {
                text.append("Parameter '");
                text.append(name.as_str());
                text.append("' must be a finite number");
            },
        }
        assert(text@ =~= fault_text(self@));
        text
    }
}

/// Whether the bit pattern is that of a finite IEEE 754 single: its exponent is not all ones.
pub open spec fn finite(bits: u32) -> bool {
    (bits / 0x80_0000) % 0x100 != 0xff
}

/// `number` can be asked about every text.
pub open spec fn reads_any<F: Fn(&str) -> Option<u32>>(number: F) -> bool {
    forall|t: &str| #[trigger] call_requires(number, (t,))
}

/// `number` answers as the function `num` of the text.
pub open spec fn reads_as<F: Fn(&str) -> Option<u32>>(
    number: F,
    num: spec_fn(Seq<char>) -> Option<u32>,
) -> bool {
    forall|t: &str, bits: Option<u32>| #[trigger]
        call_ensures(number, (t,), bits) ==> bits == num(t@)
}

/// The parameter of the given name and value, if the text of the value stands for the number
/// with the given bit pattern.
pub open spec fn pair_value(name: Seq<char>, value: Seq<char>, bits: Option<u32>) -> Result<
    (Seq<char>, u32),
    ParamFault,
> {
    match bits {
        None => Err(ParamFault::BadNumber(value)),
        Some(bits) => if finite(bits) {
            Ok((text::trim(name), bits))
        } else {
            Err(ParamFault::NotFinite(text::trim(name)))
        },
    }
}

/// The name and the value in a text of the form `name=value`.
pub open spec fn key_value(s: Seq<char>, num: spec_fn(Seq<char>) -> Option<u32>) -> Result<
    (Seq<char>, u32),
    ParamFault,
> {
    let pair = text::split_on(s, '=');
    if pair.len() != 2 {
        Err(ParamFault::NotAPair)
    } else {
        pair_value(pair[0], pair[1], num(pair[1]))
    }
}

/// `r` is the parameter in a text of the form `name=value`, given some answer of `number` about
/// the text of the value.
pub open spec fn follows_answer<F: Fn(&str) -> Option<u32>>(
    number: F,
    s: Seq<char>,
    r: Result<(Seq<char>, u32), ParamFault>,
) -> bool {
    let pair = text::split_on(s, '=');
    if pair.len() != 2 {
        r == Err::<(Seq<char>, u32), ParamFault>(ParamFault::NotAPair)
    } else {
        exists|value: &str, bits: Option<u32>|
            {
                &&& value@ == pair[1]
                &&& #[trigger] call_ensures(number, (value,), bits)
                &&& r == pair_value(pair[0], pair[1], bits)
            }
    }
}

/// What the result of reading one parameter holds.
pub open spec fn key_value_view(r: Result<(String, u32), ParamError>) -> Result<
    (Seq<char>, u32),
    ParamFault,
> {
    match r {
        Ok(pair) => Ok((pair.0@, pair.1)),
        Err(e) => Err(e@),
    }
}

/// Reads a text of the form `name=value`. White space around the name does not count.
pub fn parse_key_value<F: Fn(&str) -> Option<u32>>(s: &str, number: &F) -> (r: Result<
    (String, u32),
    ParamError,
>)
    requires
        reads_any(*number),
    ensures
        forall|num: spec_fn(Seq<char>) -> Option<u32>| #[trigger]
            reads_as(*number, num) ==> key_value_view(r) == key_value(s@, num),
        follows_answer(*number, s@, key_value_view(r)),
{
    parse_part(&chars_of(s), number)
}

/// Reads the characters of a text of the form `name=value`.
fn parse_part<F: Fn(&str) -> Option<u32>>(part: &Vec<char>, number: &F) -> (r: Result<
    (String, u32),
    ParamError,
>)
    requires
        reads_any(*number),
    ensures
        forall|num: spec_fn(Seq<char>) -> Option<u32>| #[trigger]
            reads_as(*number, num) ==> key_value_view(r) == key_value(part@, num),
        follows_answer(*number, part@, key_value_view(r)),
{
    let pair = split_chars(part, '=');
    proof {
        let pieces = text::split_on(part@, '=');
        assert(pieces == text::texts(pair@));
        assert(pair@.len() == 2 ==> pieces[0] == pair@[0]@ && pieces[1] == pair@[1]@);
    }
    if pair.len() != 2 {
        return Err(ParamError::NotAPair);
    }
    let name = string_of(&trim_chars(&pair[0]));
    let value = string_of(&pair[1]);
    match number(value.as_str()) {
        None => Err(ParamError::BadNumber(value)),
        Some(bits) => {
            if (bits / 0x80_0000) % 0x100 == 0xff {
                Err(ParamError::NotFinite(name))
            } else {
                Ok((name, bits))
            }
        },
    }
}

/// The parameters after reading the parts in order, up to the first one at fault; and that
/// part with its fault. Blank parts are passed over.
pub open spec fn read_parts(
    base: Seq<(Seq<char>, u32)>,
    parts: Seq<Seq<char>>,
    num: spec_fn(Seq<char>) -> Option<u32>,
) -> (Seq<(Seq<char>, u32)>, Option<(Seq<char>, ParamFault)>)
    decreases parts.len(),
{
    if parts.len() == 0 {
        (base, None)
    } else {
        let (params, fault) = read_parts(base, parts.drop_last(), num);
        let part = parts.last();
        if fault is Some {
            (params, fault)
        } else if text::trim(part).len() == 0 {
            (params, None)
        } else {
            match key_value(part, num) {
                Ok(pair) => (plugin::set_param(params, pair.0, pair.1), None),
                Err(fault) => (params, Some((part, fault))),
            }
        }
    }
}

/// Once a part is at fault, what follows it changes nothing.
proof fn lemma_fault_stays(
    base: Seq<(Seq<char>, u32)>,
    parts: Seq<Seq<char>>,
    n: int,
    num: spec_fn(Seq<char>) -> Option<u32>,
)
    requires
        0 <= n <= parts.len(),
        read_parts(base, parts.take(n), num).1 is Some,
    ensures
        read_parts(base, parts, num) == read_parts(base, parts.take(n), num),
    decreases parts.len(),
{
    if n < parts.len() {
        assert(parts.drop_last().take(n) == parts.take(n));
        lemma_fault_stays(base, parts.drop_last(), n, num);
    } else {
        assert(parts.take(n) == parts);
    }
}

/// What the outcome of reading parts holds.
pub open spec fn parts_view(r: Option<(String, ParamError)>) -> Option<(Seq<char>, ParamFault)> {
    match r {
        None => None,
        Some(at_fault) => Some((at_fault.0@, at_fault.1@)),
    }
}

/// Reads the parts from number `from` on into `params`; gives the first part at fault.
fn parse_parts<F: Fn(&str) -> Option<u32>>(
    params: &mut Vec<(String, u32)>,
    parts: &Vec<Vec<char>>,
    from: usize,
    number: &F,
) -> (r: Option<(String, ParamError)>)
    requires
        reads_any(*number),
        from <= parts@.len(),
        plugin::distinct(plugin::params_view(old(params)@)),
    ensures
        plugin::distinct(plugin::params_view(final(params)@)),
        forall|num: spec_fn(Seq<char>) -> Option<u32>| #[trigger]
            reads_as(*number, num) ==> (plugin::params_view(final(params)@), parts_view(r))
                == read_parts(
                plugin::params_view(old(params)@),
                text::texts(parts@).skip(from as int),
                num,
            ),
        from == parts@.len() ==> r is None && final(params)@ == old(params)@,
{
    let ghost base = plugin::params_view(params@);
    let ghost todo = text::texts(parts@).skip(from as int);
    assert(todo.take(0) == Seq::<Seq<char>>::empty());
    let count: usize = parts.len();
    for i in from..count
        invariant
            reads_any(*number),
            from <= count == parts@.len(),
            base == plugin::params_view(old(params)@),
            todo == text::texts(parts@).skip(from as int),
            plugin::distinct(plugin::params_view(params@)),
            i == from ==> params@ == old(params)@,
            forall|num: spec_fn(Seq<char>) -> Option<u32>| #[trigger]
                reads_as(*number, num) ==> (plugin::params_view(params@), None::<(Seq<char>, ParamFault)>)
                == read_parts(
                    base,
                    todo.take(i - from),
                    num,
                ),
    {
        let ghost before = plugin::params_view(params@);
        let ghost next = todo.take(i + 1 - from);
        assert(next.drop_last() == todo.take(i - from));
        assert(next.last() == parts@[i as int]@);
        let part = &parts[i];
        if trim_chars(part).len() > 0 {
            match parse_part(part, number) {
                Ok((name, value)) => {
                    insert_param(params, name, value);
                },
                Err(e) => {
                    let r = Some((string_of(part), e));
                    assert forall|num: spec_fn(Seq<char>) -> Option<u32>| #[trigger]
                        reads_as(*number, num) implies (before, parts_view(r)) == read_parts(
                        base,
                        todo,
                        num,
                    ) by {
                        assert(read_parts(base, next.drop_last(), num) == (
                            before,
                            None::<(Seq<char>, ParamFault)>,
                        ));
                        lemma_fault_stays(base, todo, i + 1 - from, num);
                    }
                    return r;
                },
            }
        }
        assert forall|num: spec_fn(Seq<char>) -> Option<u32>| #[trigger]
            reads_as(*number, num) implies (plugin::params_view(params@), None::<(Seq<char>, ParamFault)>)
                == read_parts(
            base,
            next,
            num,
        ) by {
            assert(read_parts(base, next.drop_last(), num) == (
                before,
                None::<(Seq<char>, ParamFault)>,
            ));
        }
    }
    assert(todo.take(count - from) == todo);
    None
}

/// How many parts come before the first one with an `=` in it.
pub open spec fn leading_plain(parts: Seq<Seq<char>>) -> nat
    decreases parts.len(),
{
    if parts.len() == 0 || parts[0].contains('=') {
        0
    } else {
        1 + leading_plain(parts.drop_first())
    }
}

/// The parts, each without the white space around it, with a colon between them; a colon
/// stands only behind what is not empty.
pub open spec fn joined(parts: Seq<Seq<char>>) -> Seq<char>
    decreases parts.len(),
{
    if parts.len() == 0 {
        Seq::<char>::empty()
    } else {
        let before = joined(parts.drop_last());
        if before.len() == 0 {
            text::trim(parts.last())
        } else {
            before.push(':') + text::trim(parts.last())
        }
    }
}

/// The message for a part that is no parameter with a value.
pub open spec fn malformed(part: Seq<char>, fault: ParamFault) -> Seq<char> {
    "Malformed parameter '"@ + part + "': "@ + fault_text(fault)
}

/// The identifier in a text of the form `plugin:name=value:name=value`: all that stands before
/// the first part with an `=` in it, so it may hold colons itself.
pub open spec fn identifier_in(s: Seq<char>) -> Seq<char> {
    let parts = text::split_on(s, ':');
    joined(parts.take(leading_plain(parts) as int))
}

/// Whether a text of the form `plugin:name=value:name=value` has no part with an `=` in it.
pub open spec fn without_params(s: Seq<char>) -> bool {
    let parts = text::split_on(s, ':');
    leading_plain(parts) == parts.len()
}

/// The setting that a text of the form `plugin:name=value:name=value` asks for.
pub open spec fn plugin_setting(s: Seq<char>, num: spec_fn(Seq<char>) -> Option<u32>) -> Result<
    SettingView,
    Seq<char>,
> {
    let parts = text::split_on(s, ':');
    let plain = leading_plain(parts) as int;
    let identifier = identifier_in(s);
    let (params, fault) = read_parts(Seq::empty(), parts.skip(plain), num);
    if identifier.len() == 0 {
        Err("Missing plugin identifier"@)
    } else {
        match fault {
            None => Ok(SettingView { identifier, params }),
            Some(at_fault) => Err(malformed(at_fault.0, at_fault.1)),
        }
    }
}

/// What the result of reading a plugin text holds.
pub open spec fn setting_view(r: Result<PluginSetting, String>) -> Result<
    SettingView,
    Seq<char>,
> {
    match r {
        Ok(setting) => Ok(setting@),
        Err(message) => Err(message@),
    }
}

proof fn lemma_leading_plain(parts: Seq<Seq<char>>, n: nat)
    requires
        n <= parts.len(),
        forall|i: int| 0 <= i < n ==> !(#[trigger] parts[i]).contains('='),
        n < parts.len() ==> parts[n as int].contains('='),
    ensures
        leading_plain(parts) == n,
    decreases n,
{
    if n > 0 {
        let rest = parts.drop_first();
        assert forall|i: int| 0 <= i < n - 1 implies !(#[trigger] rest[i]).contains('=') by {
            assert(rest[i] == parts[i + 1]);
        }
        lemma_leading_plain(rest, (n - 1) as nat);
    }
}

/// Reads a text of the form `plugin:name=value:name=value`. A parameter that is given twice
/// has the value that is given last.
pub fn parse_plugin_setting<F: Fn(&str) -> Option<u32>>(s: &str, number: &F) -> (r: Result<
    PluginSetting,
    String,
>)
    requires
        reads_any(*number),
    ensures
        forall|num: spec_fn(Seq<char>) -> Option<u32>| #[trigger]
            reads_as(*number, num) ==> setting_view(r) == plugin_setting(s@, num),
        r matches Ok(setting) ==> setting.wf() && setting@.identifier == identifier_in(s@),
        identifier_in(s@).len() == 0 ==> setting_view(r) == Err::<SettingView, Seq<char>>(
            "Missing plugin identifier"@,
        ),
        identifier_in(s@).len() > 0 && without_params(s@) ==> setting_view(r) == Ok::<
            SettingView,
            Seq<char>,
        >((SettingView { identifier: identifier_in(s@), params: Seq::empty() })),
{
    let parts = split_chars(&chars_of(s), ':');
    let ghost pieces = text::texts(parts@);
    let mut identifier: Vec<char> = Vec::new();
    let mut plain: usize = 0;
    assert(pieces.take(0) == Seq::<Seq<char>>::empty());
    while plain < parts.len() && !has_char(&parts[plain], '=')
        invariant
            plain <= parts@.len(),
            pieces == text::texts(parts@),
            forall|i: int| 0 <= i < plain ==> !(#[trigger] pieces[i]).contains('='),
            identifier@ == joined(pieces.take(plain as int)),
        decreases parts@.len() - plain,
    {
        assert(pieces.take(plain + 1).drop_last() == pieces.take(plain as int));
        if identifier.len() > 0 {
            identifier.push(':');
        }
        append_chars(&mut identifier, &trim_chars(&parts[plain]));
        assert(identifier@ =~= joined(pieces.take(plain + 1)));
        plain += 1;
    }
    proof {
        lemma_leading_plain(pieces, plain as nat);
    }
    if identifier.len() == 0 {
        return Err("Missing plugin identifier".to_string());
    }
    let mut params: Vec<(String, u32)> = Vec::new();
    assert(plugin::params_view(params@) =~= Seq::empty());
    match parse_parts(&mut params, &parts, plain, number) {
        None => Ok(PluginSetting { plugin_identifier: string_of(&identifier), params }),
        Some((part, e)) => {
            let mut message = String::new();
            message.append("Malformed parameter '");
            message.append(part.as_str());
            message.append("': ");
            message.append(e.message().as_str());
            assert(message@ =~= malformed(part@, e@));
            Err(message)
        },
    }
}

/// The parameters after reading a text of one parameter, or of several with colons between
/// them; and the first fault.
pub open spec fn read_params(
    base: Seq<(Seq<char>, u32)>,
    s: Seq<char>,
    num: spec_fn(Seq<char>) -> Option<u32>,
) -> (Seq<(Seq<char>, u32)>, Option<ParamFault>) {
    if s.contains(':') {
        let (params, fault) = read_parts(base, text::split_on(s, ':'), num);
        match fault {
            None => (params, None),
            Some(at_fault) => (params, Some(at_fault.1)),
        }
    } else {
        match key_value(s, num) {
            Ok(pair) => (plugin::set_param(base, pair.0, pair.1), None),
            Err(fault) => (base, Some(fault)),
        }
    }
}

/// What the outcome of reading parameters holds.
pub open spec fn params_fault(r: Result<(), ParamError>) -> Option<ParamFault> {
    match r {
        Ok(_) => None,
        Err(e) => Some(e@),
    }
}

/// Reads a text of one parameter, or of several with colons between them, into `params`.
pub fn add_params_from_str<F: Fn(&str) -> Option<u32>>(
    params: &mut Vec<(String, u32)>,
    s: &str,
    number: &F,
) -> (r: Result<(), ParamError>)
    requires
        reads_any(*number),
        plugin::distinct(plugin::params_view(old(params)@)),
    ensures
        plugin::distinct(plugin::params_view(final(params)@)),
        forall|num: spec_fn(Seq<char>) -> Option<u32>| #[trigger]
            reads_as(*number, num) ==> (plugin::params_view(final(params)@), params_fault(r))
                == read_params(plugin::params_view(old(params)@), s@, num),
{
    let chars = chars_of(s);
    if has_char(&chars, ':') {
        let parts = split_chars(&chars, ':');
        assert(text::texts(parts@).skip(0) == text::texts(parts@));
        match parse_parts(params, &parts, 0, number) {
            None => Ok(()),
            Some((_, e)) => Err(e),
        }
    } else {
        match parse_part(&chars, number) {
            Ok((name, value)) => {
                insert_param(params, name, value);
                Ok(())
            },
            Err(e) => Err(e),
        }
    }
}

} // verus!
