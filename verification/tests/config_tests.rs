use lv2render::config::{
    add_params_from_str, parse_key_value, parse_plugin_setting, ParamError,
};
use lv2render::text::{chars_of, decimal_text, is_whitespace, split_chars, string_of, trim_chars};

fn number(text: &str) -> Option<u32> {
    match text.parse::<f32>() {
        Ok(value) => Some(value.to_bits()),
        Err(_) => None,
    }
}

fn bits(value: f32) -> u32 {
    value.to_bits()
}

#[test]
fn test_parse_key_value_validation() {
    assert!(parse_key_value("gain=1.0", &number).is_ok());
    assert!(parse_key_value("gain=NaN", &number).is_err());
    assert!(parse_key_value("gain=inf", &number).is_err());
    assert!(parse_key_value("gain=-inf", &number).is_err());
}

#[test]
fn key_value_gives_the_trimmed_name_and_the_value() {
    let (name, value) = parse_key_value(" Decay time\t=0.5", &number).unwrap();
    assert_eq!(name, "Decay time");
    assert_eq!(value, bits(0.5));
    let (name, value) = parse_key_value("=-3", &number).unwrap();
    assert_eq!(name, "");
    assert_eq!(value, bits(-3.0));
}

#[test]
fn key_value_errors() {
    for text in ["gain", "", "a=1=2"] {
        let e = parse_key_value(text, &number).unwrap_err();
        assert!(matches!(e, ParamError::NotAPair));
        assert_eq!(e.message(), "Expected key=value pair");
    }
    let e = parse_key_value("gain= 1.0", &number).unwrap_err();
    assert!(matches!(e, ParamError::BadNumber(_)));
    assert_eq!(e.message(), "Invalid numeric value:  1.0");
    let e = parse_key_value(" gain =inf", &number).unwrap_err();
    assert!(matches!(e, ParamError::NotFinite(_)));
    assert_eq!(e.message(), "Parameter 'gain' must be a finite number");
    let e = parse_key_value("gain=1e39", &number).unwrap_err();
    assert_eq!(e.message(), "Parameter 'gain' must be a finite number");
    assert!(parse_key_value("gain=3.4028235e38", &number).is_ok());
}

#[test]
fn plugin_text_with_parameters() {
    let setting = parse_plugin_setting("master_me:leveler bypass=1:input gain=3", &number).unwrap();
    assert_eq!(setting.plugin_identifier, "master_me");
    assert_eq!(
        setting.params,
        vec![
            ("leveler bypass".to_string(), bits(1.0)),
            ("input gain".to_string(), bits(3.0)),
        ]
    );
}

#[test]
fn plugin_text_without_parameters() {
    let setting = parse_plugin_setting("Calf Bass Enhancer", &number).unwrap();
    assert_eq!(setting.plugin_identifier, "Calf Bass Enhancer");
    assert!(setting.params.is_empty());
}

#[test]
fn plugin_address_keeps_its_colons() {
    let setting =
        parse_plugin_setting("http://calf.sourceforge.net/plugins/Reverb", &number).unwrap();
    assert_eq!(setting.plugin_identifier, "http://calf.sourceforge.net/plugins/Reverb");
    let setting = parse_plugin_setting("urn : a::b :x=1", &number).unwrap();
    assert_eq!(setting.plugin_identifier, "urn:a::b");
    assert_eq!(setting.params, vec![("x".to_string(), bits(1.0))]);
}

#[test]
fn empty_parts_before_the_name_are_passed_over() {
    let setting = parse_plugin_setting(" : name", &number).unwrap();
    assert_eq!(setting.plugin_identifier, "name");
}

#[test]
fn blank_parts_between_parameters_are_passed_over() {
    let setting = parse_plugin_setting("p:a=1: ::b=2:", &number).unwrap();
    assert_eq!(setting.plugin_identifier, "p");
    assert_eq!(
        setting.params,
        vec![("a".to_string(), bits(1.0)), ("b".to_string(), bits(2.0))]
    );
}

#[test]
fn the_last_value_of_a_parameter_counts() {
    let setting = parse_plugin_setting("p:a=1:b=2: a =3", &number).unwrap();
    assert_eq!(
        setting.params,
        vec![("a".to_string(), bits(3.0)), ("b".to_string(), bits(2.0))]
    );
}

#[test]
fn plugin_text_errors() {
    for text in ["", "  ", ":", "a=1", " : :a=1"] {
        assert_eq!(
            parse_plugin_setting(text, &number).unwrap_err(),
            "Missing plugin identifier"
        );
    }
    assert_eq!(
        parse_plugin_setting("p:a=1:b", &number).unwrap_err(),
        "Malformed parameter 'b': Expected key=value pair"
    );
    assert_eq!(
        parse_plugin_setting("p:a=x:b", &number).unwrap_err(),
        "Malformed parameter 'a=x': Invalid numeric value: x"
    );
    assert_eq!(
        parse_plugin_setting("p: a=NaN", &number).unwrap_err(),
        "Malformed parameter ' a=NaN': Parameter 'a' must be a finite number"
    );
}

#[test]
fn parameters_from_one_text() {
    let mut params = vec![("a".to_string(), bits(1.0))];
    assert!(add_params_from_str(&mut params, "b=2", &number).is_ok());
    assert!(add_params_from_str(&mut params, "a=3: :c=4:", &number).is_ok());
    assert_eq!(
        params,
        vec![
            ("a".to_string(), bits(3.0)),
            ("b".to_string(), bits(2.0)),
            ("c".to_string(), bits(4.0)),
        ]
    );
    let e = add_params_from_str(&mut params, "d=5:e:f=6", &number).unwrap_err();
    assert!(matches!(e, ParamError::NotAPair));
    assert_eq!(params.len(), 4);
    assert_eq!(params[3], ("d".to_string(), bits(5.0)));
    assert!(add_params_from_str(&mut params, " ", &number).is_err());
}

#[test]
fn white_space_is_that_of_unicode() {
    for code in 0..=0x10ffffu32 {
        if let Some(c) = char::from_u32(code) {
            assert_eq!(is_whitespace(c), c.is_whitespace());
        }
    }
}

#[test]
fn splitting_and_trimming_agree_with_the_string_methods() {
    for text in ["", ":", "a", "a:b", ":a::b:", " \u{3000}x y\u{a0}\n: ", "\u{e9}:\u{1f600}:"] {
        let pieces: Vec<String> =
            split_chars(&chars_of(text), ':').iter().map(|p| string_of(p)).collect();
        let expected: Vec<String> = text.split(':').map(|p| p.to_string()).collect();
        assert_eq!(pieces, expected);
        assert_eq!(pieces.join(":"), text);
        let trimmed = trim_chars(&chars_of(text));
        assert_eq!(string_of(&trimmed), text.trim());
        assert_eq!(trim_chars(&trimmed), trimmed);
    }
}

#[test]
fn numbers_print_in_decimal() {
    for n in [0u128, 7, 10, 65535, 1_000_000, u64::MAX as u128 + 1] {
        assert_eq!(decimal_text(n), n.to_string());
    }
}
