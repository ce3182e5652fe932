use lv2render::chain::{
    found_plugin, select_chain, ChainError, ChainPlan, SampleFormat, WavSpec,
};
use lv2render::plugin::{
    apply_parameter_settings, choose_plugin, find_plugin, insert_param, set_controls, PluginInfo,
    PluginInstance, PluginLookup, PluginSetting, PortCounts,
};

fn info(uri: &str, name: &str) -> PluginInfo {
    PluginInfo { uri: uri.to_string(), name: name.to_string() }
}

fn catalog() -> Vec<PluginInfo> {
    vec![
        info("urn:a", "Calf Reverb"),
        info("urn:b", "Calf Bass Enhancer"),
        info("urn:c", "master_me"),
        info("urn:c", "Other"),
        info("x", "urn:b"),
    ]
}

fn strings(list: &[&str]) -> Vec<String> {
    list.iter().map(|s| s.to_string()).collect()
}

fn params(list: &[(&str, u32)]) -> Vec<(String, u32)> {
    list.iter().map(|p| (p.0.to_string(), p.1)).collect()
}

fn ports(audio_inputs: usize, audio_outputs: usize) -> PortCounts {
    PortCounts { audio_inputs, audio_outputs, control_outputs: 0 }
}

#[test]
fn plugin_by_address() {
    assert!(matches!(find_plugin(&catalog(), "urn:b"), PluginLookup::Found(1)));
    assert!(matches!(find_plugin(&catalog(), "urn:c"), PluginLookup::Found(2)));
}

#[test]
fn plugin_by_part_of_the_name_in_any_case() {
    assert!(matches!(find_plugin(&catalog(), "REVERB"), PluginLookup::Found(0)));
    assert!(matches!(find_plugin(&catalog(), "reverb"), PluginLookup::Found(0)));
    assert!(matches!(find_plugin(&catalog(), "bass e"), PluginLookup::Found(1)));
    assert!(matches!(find_plugin(&catalog(), "Master_Me"), PluginLookup::Found(2)));
    let greek = vec![info("urn:g", "\u{39f}\u{394}\u{39f}\u{3a3}")];
    assert!(matches!(
        find_plugin(&greek, "\u{3bf}\u{3b4}\u{3bf}\u{3c2}"),
        PluginLookup::Found(0)
    ));
}

#[test]
fn no_plugin_fits() {
    assert!(matches!(find_plugin(&catalog(), "delay"), PluginLookup::NotFound));
    assert!(matches!(find_plugin(&Vec::new(), ""), PluginLookup::NotFound));
    assert!(matches!(find_plugin(&catalog(), "urn:a "), PluginLookup::NotFound));
}

#[test]
fn several_plugins_fit() {
    match find_plugin(&catalog(), "calf") {
        PluginLookup::Ambiguous(names) => {
            assert_eq!(names, strings(&["Calf Reverb", "Calf Bass Enhancer"]))
        }
        other => panic!("{:?}", other),
    }
    match find_plugin(&catalog(), "") {
        PluginLookup::Ambiguous(names) => assert_eq!(names.len(), 5),
        other => panic!("{:?}", other),
    }
}

#[test]
fn choice_goes_by_the_lowered_names() {
    let lowered = strings(&["p", "q", "pq", "", ""]);
    assert!(matches!(
        choose_plugin(&catalog(), &lowered, "anything", "pq"),
        PluginLookup::Found(2)
    ));
    match choose_plugin(&catalog(), &lowered, "anything", "q") {
        PluginLookup::Ambiguous(names) => {
            assert_eq!(names, strings(&["Calf Bass Enhancer", "master_me"]))
        }
        other => panic!("{:?}", other),
    }
}

#[test]
fn lookup_errors_for_the_user() {
    assert_eq!(found_plugin(PluginLookup::Found(3), "p").unwrap(), 3);
    let e = found_plugin(PluginLookup::NotFound, "p").unwrap_err();
    assert!(matches!(e, ChainError::NotFound(_)));
    assert_eq!(e.message(), "Plugin 'p' not found");
    let e = found_plugin(PluginLookup::Ambiguous(strings(&["a", "b", "c"])), "p").unwrap_err();
    assert!(matches!(e, ChainError::Ambiguous(_, _)));
    assert_eq!(e.message(), "Plugin 'p' is ambiguous. Candidates:\na\nb\nc");
}

#[test]
fn parameters_go_to_the_ports_of_their_name() {
    let names = strings(&["Gain", "Decay Time", "gain"]);
    let mut controls = vec![1, 2, 3];
    let settings = params(&[("decay time", 20), ("GAIN", 10)]);
    assert!(apply_parameter_settings("p", &names, &mut controls, &settings).is_ok());
    assert_eq!(controls, vec![10, 20, 3]);
    let mut swapped = vec![1, 2, 3];
    let settings = params(&[("GAIN", 10), ("decay time", 20)]);
    assert!(apply_parameter_settings("p", &names, &mut swapped, &settings).is_ok());
    assert_eq!(swapped, controls);
}

#[test]
fn the_last_setting_of_a_port_counts() {
    let names = strings(&["Gain"]);
    let mut controls = vec![0, 7];
    let settings = params(&[("gain", 1), ("Gain", 2)]);
    assert!(apply_parameter_settings("p", &names, &mut controls, &settings).is_ok());
    assert_eq!(controls, vec![2, 7]);
}

#[test]
fn an_unknown_parameter_stops_the_others() {
    let names = strings(&["a", "b"]);
    let mut controls = vec![0, 0];
    let settings = params(&[("a", 1), ("No Such", 2), ("b", 3)]);
    let e = apply_parameter_settings("My Plugin", &names, &mut controls, &settings).unwrap_err();
    assert_eq!(controls, vec![1, 0]);
    assert_eq!(e.message(), "Parameter 'No Such' not found in plugin 'My Plugin'");
    let mut controls = vec![0, 0];
    assert_eq!(set_controls(&names, &mut controls, &settings), Some(1));
    assert_eq!(set_controls(&names, &mut controls, &params(&[("b", 9)])), None);
    assert_eq!(controls, vec![1, 9]);
}

#[test]
fn inserting_a_parameter_replaces_its_value() {
    let mut list = params(&[("a", 1), ("b", 2)]);
    insert_param(&mut list, "a".to_string(), 5);
    insert_param(&mut list, "c".to_string(), 3);
    assert_eq!(list, params(&[("a", 5), ("b", 2), ("c", 3)]));
}

#[test]
fn ports_start_at_zero() {
    let counts = PortCounts { audio_inputs: 2, audio_outputs: 3, control_outputs: 4 };
    let instance = PluginInstance::new(&counts, vec![1, 2], 5);
    assert_eq!(instance.audio_inputs, 2);
    assert_eq!(instance.control_inputs, vec![1, 2]);
    assert_eq!(instance.control_outputs, vec![0; 4]);
    assert_eq!(instance.audio_outputs, vec![vec![0; 5]; 3]);
}

#[test]
fn the_chain_file_goes_before_the_command_line() {
    let setting = |name: &str| PluginSetting {
        plugin_identifier: name.to_string(),
        params: Vec::new(),
    };
    let chosen = select_chain(Some(vec![setting("f")]), vec![setting("c")]).unwrap();
    assert_eq!(chosen[0].plugin_identifier, "f");
    assert!(select_chain(Some(Vec::new()), Vec::new()).unwrap().is_empty());
    let chosen = select_chain(None, vec![setting("c"), setting("d")]).unwrap();
    assert_eq!(chosen.len(), 2);
    assert_eq!(chosen[1].plugin_identifier, "d");
    let e = select_chain(None, Vec::new()).unwrap_err();
    assert!(matches!(e, ChainError::NoPlugins));
    assert_eq!(
        e.message(),
        "At least one plugin must be specified via CLI or config file (-f)"
    );
}

#[test]
fn channels_have_to_fit() {
    let mut plan = ChainPlan::new(2);
    assert_eq!(plan.output_channels(), 2);
    assert!(!plan.add(ports(2, 3)).unwrap());
    assert!(!plan.add(ports(3, 1)).unwrap());
    let e = plan.add(ports(2, 2)).unwrap_err();
    assert!(matches!(
        e,
        ChainError::StageMismatch { stage: 2, outputs: 1, expected: 2 }
    ));
    assert_eq!(
        e.message(),
        "Chain mismatch: plugin 2 outputs 1 channels, but plugin 3 expects 2"
    );
    assert_eq!(plan.stages.len(), 2);
    assert_eq!(plan.output_channels(), 1);
}

#[test]
fn mono_input_goes_to_a_stereo_plugin_at_the_start_only() {
    let mut plan = ChainPlan::new(1);
    assert!(plan.add(ports(2, 1)).unwrap());
    assert!(plan.add(ports(2, 2)).is_err());
    let mut plan = ChainPlan::new(1);
    let e = plan.add(ports(3, 3)).unwrap_err();
    assert!(matches!(e, ChainError::InputMismatch { input: 1, expected: 3 }));
    assert_eq!(
        e.message(),
        "Channel mismatch: input has 1 channels, first plugin expects 3"
    );
    assert!(plan.stages.is_empty());
    let mut plan = ChainPlan::new(2);
    assert!(plan.add(ports(1, 1)).is_err());
}

#[test]
fn output_is_a_file_of_32_bit_floats() {
    let mut plan = ChainPlan::new(1);
    plan.add(ports(1, 2)).unwrap();
    let expected = WavSpec {
        channels: 2,
        sample_rate: 48000,
        bits_per_sample: 32,
        sample_format: SampleFormat::Float,
    };
    assert!(plan.wav_spec(48000) == expected);
    assert_eq!(ChainPlan::new(65538).wav_spec(1).channels, 2);
}
