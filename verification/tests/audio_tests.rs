use kaiser_core::audio::{
    default_console_devices, default_roles, matching_devices, name_matches_pattern, plan_audio_actions,
    AudioAction, AudioEndpoint, AudioFlow, AudioRule, DefaultEndpoints,
};

fn endpoint(id: &str, name: &str, flow: AudioFlow, console: bool) -> AudioEndpoint {
    AudioEndpoint {
        id: id.to_string(),
        name: name.to_string(),
        flow,
        enabled: true,
        muted: false,
        is_default_console: console,
        is_default_comms: false,
    }
}

fn rule(pattern: &str, flow: AudioFlow, set_default: Option<bool>, has_volume: bool, muted: Option<bool>) -> AudioRule {
    AudioRule { pattern: pattern.to_string(), flow, set_default, has_volume, muted }
}

#[test]
fn default_role_flags() {
    let defaults = DefaultEndpoints {
        render_console: Some("spk".to_string()),
        render_comms: Some("head".to_string()),
        capture_console: Some("mic".to_string()),
        capture_comms: None,
    };
    assert_eq!(default_roles(AudioFlow::Render, &"spk".to_string(), &defaults), (true, false));
    assert_eq!(default_roles(AudioFlow::Render, &"head".to_string(), &defaults), (false, true));
    assert_eq!(default_roles(AudioFlow::Capture, &"mic".to_string(), &defaults), (true, false));
    // The render defaults do not make a capture endpoint a default.
    assert_eq!(default_roles(AudioFlow::Capture, &"spk".to_string(), &defaults), (false, false));
}

#[test]
fn pattern_matching_ignores_case() {
    assert!(name_matches_pattern("Speakers (Realtek Audio)", "realtek"));
    assert!(name_matches_pattern("ÉCRAN HDMI", "écran"));
    assert!(!name_matches_pattern("Headphones", "speakers"));
    assert!(name_matches_pattern("Anything", ""));
}

#[test]
fn rules_select_by_name_and_flow() {
    let devices = vec![
        endpoint("a", "Speakers (Realtek)", AudioFlow::Render, true),
        endpoint("b", "Microphone (Realtek)", AudioFlow::Capture, true),
        endpoint("c", "HDMI Output", AudioFlow::Render, false),
    ];
    assert_eq!(matching_devices(&devices, "REALTEK", Some(AudioFlow::Render)), vec![0]);
    assert_eq!(matching_devices(&devices, "REALTEK", None), vec![0, 1]);
    assert_eq!(matching_devices(&devices, "usb", None), Vec::<usize>::new());
    assert_eq!(default_console_devices(&devices), vec![0, 1]);
}

#[test]
fn audio_plan_in_rule_and_device_order() {
    let devices = vec![
        endpoint("a", "Speakers (Realtek)", AudioFlow::Render, true),
        endpoint("b", "Microphone (Realtek)", AudioFlow::Capture, true),
        endpoint("c", "Realtek Digital", AudioFlow::Render, false),
    ];
    let rules = vec![
        rule("realtek", AudioFlow::Render, Some(true), true, Some(false)),
        rule("micro", AudioFlow::Capture, Some(false), false, Some(true)),
    ];
    let plan = plan_audio_actions(&devices, &rules, true);
    assert_eq!(
        plan,
        vec![
            AudioAction::SetVolume { device: 0, rule: 0 },
            AudioAction::SetMute { device: 0, muted: false },
            AudioAction::SetDefault { device: 0 },
            AudioAction::SetVolume { device: 2, rule: 0 },
            AudioAction::SetMute { device: 2, muted: false },
            AudioAction::SetDefault { device: 2 },
            AudioAction::SetMute { device: 1, muted: true },
        ]
    );
    // Without flows, the first rule also reaches the microphone.
    let first_only = vec![rule("realtek", AudioFlow::Render, Some(true), true, Some(false))];
    let plan = plan_audio_actions(&devices, &first_only, false);
    assert_eq!(plan.len(), 9);
    assert_eq!(plan[3], AudioAction::SetVolume { device: 1, rule: 0 });
}
