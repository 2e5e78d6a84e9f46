use kitwin::audio::{
    describe_server, env_pulse_server, format_audio_status, frame_sample_rate, max_resampled_samples,
    monitor_name, next_volume, null_sink_args, null_sink_outcome, pulse_server_candidates,
    pulse_source_listed, ring_capacity, runtime_status, sink_name, unix_protocol_load_error,
    unix_protocol_loaded, AudioControls, PulseAudioEnv, SearchAction, SearchEvent, SinkSearch, DEFAULT_VOLUME_PERCENT, MAX_VOLUME_PERCENT,
};

#[test]
fn status_texts() {
    assert_eq!(format_audio_status(false, DEFAULT_VOLUME_PERCENT), "audio 100%");
    assert_eq!(format_audio_status(true, 50), "audio muted");
    assert_eq!(runtime_status(true, None, false, 35), "audio 35%");
    assert_eq!(runtime_status(false, Some("boom"), false, 35), "audio unavailable: boom");
    assert_eq!(runtime_status(false, None, true, 35), "audio unavailable");
}

#[test]
fn volume_is_clamped() {
    assert_eq!(next_volume(100, 5), 105);
    assert_eq!(next_volume(198, 5), MAX_VOLUME_PERCENT);
    assert_eq!(next_volume(3, -5), 0);
    assert_eq!(next_volume(0, -5), 0);
}

#[test]
fn server_candidates() {
    let o = pulse_server_candidates(Some("tcp:host"), Some("unix:/x".to_string()), None);
    assert_eq!(o, vec![Some("tcp:host".to_string())]);
    let c = pulse_server_candidates(None, Some("unix:/run/pulse/native".to_string()), Some("127.0.0.1:4713".to_string()));
    assert_eq!(c, vec![Some("unix:/run/pulse/native".to_string()), Some("127.0.0.1:4713".to_string())]);
    let d = pulse_server_candidates(None, None, Some("remote:1".to_string()));
    assert_eq!(d, vec![Some("127.0.0.1:4713".to_string()), Some("remote:1".to_string())]);
    assert_eq!(describe_server(None), "(default)");
    assert_eq!(describe_server(Some("x")), "x");
    assert_eq!(env_pulse_server(Some("  host:1 \n".to_string())), Some("host:1".to_string()));
    assert_eq!(env_pulse_server(Some(" \t ".to_string())), None);
    assert_eq!(env_pulse_server(None), None);
}

#[test]
fn null_sink_names_and_replies() {
    assert_eq!(sink_name(123), "kitwin_123");
    assert_eq!(monitor_name("kitwin_123"), "kitwin_123.monitor");
    assert_eq!(
        null_sink_args("s"),
        vec!["load-module", "module-null-sink", "sink_name=s", "sink_properties=device.description=s"]
    );
    assert_eq!(null_sink_outcome(true, " 27\n", ""), Ok("27".to_string()));
    assert_eq!(null_sink_outcome(true, "\n", ""), Err("pactl did not return a module id".to_string()));
    assert_eq!(
        null_sink_outcome(false, "", "Failure: denied\n"),
        Err("could not create Pulse null sink: Failure: denied".to_string())
    );
}

#[test]
fn source_and_module_listings() {
    let sources = "0\talsa_output.monitor\tmodule-alsa\n1\tkitwin_9.monitor\tmodule-null-sink\ts16le\n";
    assert!(pulse_source_listed(sources, "kitwin_9.monitor"));
    assert!(!pulse_source_listed(sources, "kitwin_9"));
    assert!(!pulse_source_listed(sources, "module-null-sink"));
    assert!(!pulse_source_listed("", "x"));
    let modules = "7\tmodule-null-sink\tsink_name=a\n9\tmodule-native-protocol-unix\t\n";
    assert!(unix_protocol_loaded(modules));
    assert!(!unix_protocol_loaded("7\tmodule-null-sink\n"));
    assert_eq!(unix_protocol_load_error(" no \n"), "could not load module-native-protocol-unix: no");
}

#[test]
fn search_failure_messages() {
    let mut s = SinkSearch::new();
    assert_eq!(s.failure_message(), "no Pulse server available");
    s.server_unreachable(Some("unix:/x"));
    s.monitor_missing("kitwin_1.monitor", None);
    s.load_failed("could not run pactl: gone", Some("127.0.0.1:4713"));
    assert_eq!(
        s.failure_message(),
        "Pulse server unix:/x not reachable; Pulse monitor source kitwin_1.monitor was not created on (default); could not run pactl: gone (127.0.0.1:4713)"
    );
}

#[test]
fn resampling_sizes() {
    assert_eq!(frame_sample_rate(44100, 48000), Some(44100));
    assert_eq!(frame_sample_rate(0, 48000), Some(48000));
    assert_eq!(frame_sample_rate(0, -1), None);
    assert_eq!(max_resampled_samples(1024, 48000, 44100), 1114 + 256);
    assert_eq!(ring_capacity(48000, 2), 192000);
    assert_eq!(ring_capacity(0, 2), 1);
    let env = PulseAudioEnv { pulse_sink: "kitwin_1", pulse_server: None };
    assert_eq!(env.pulse_sink, "kitwin_1");
}

#[test]
fn mute_toggled_twice_is_restored() {
    let start = AudioControls { muted: false, volume_percent: 80 };
    let mut c = start;
    c.toggle_mute();
    assert!(c.muted);
    assert_eq!(c.volume_percent, 80);
    assert_eq!(c.status(true, None), "audio muted");
    c.toggle_mute();
    assert_eq!(c, start);
    assert_eq!(c.status(true, None), "audio 80%");
    assert_eq!(c.status(false, Some("boom")), "audio unavailable: boom");
}

#[test]
fn controls_volume_steps_and_clamps() {
    let mut c = AudioControls { muted: true, volume_percent: 198 };
    c.volume_by(5);
    assert_eq!(c, AudioControls { muted: true, volume_percent: 200 });
    c.volume_by(-5);
    assert_eq!(c.volume_percent, 195);
    let mut low = AudioControls { muted: false, volume_percent: 3 };
    low.volume_by(-5);
    assert_eq!(low.volume_percent, 0);
}

#[test]
fn search_steps_through_servers() {
    let mut s = SinkSearch::new();
    let mon = "kitwin_7.monitor";
    assert!(matches!(s.step(mon, Some("a"), SearchEvent::Probed(false)), SearchAction::Next));
    assert!(matches!(s.step(mon, Some("b"), SearchEvent::Probed(true)), SearchAction::Load));
    match s.step(mon, Some("b"), SearchEvent::Loaded(Ok(String::from("17")))) {
        SearchAction::CheckMonitor(id) => assert_eq!(id, "17"),
        _ => panic!("expected a monitor check"),
    }
    match s.step(mon, Some("b"), SearchEvent::MonitorChecked { module_id: String::from("17"), exists: false }) {
        SearchAction::UnloadThenNext(id) => assert_eq!(id, "17"),
        _ => panic!("expected an unload"),
    }
    assert!(matches!(
        s.step(mon, None, SearchEvent::Loaded(Err(String::from("boom")))),
        SearchAction::Next
    ));
    match s.step(mon, Some("c"), SearchEvent::MonitorChecked { module_id: String::from("3"), exists: true }) {
        SearchAction::Use(id) => assert_eq!(id, "3"),
        _ => panic!("expected use"),
    }
    assert_eq!(
        s.failure_message(),
        "Pulse server a not reachable; Pulse monitor source kitwin_7.monitor was not created on b; boom ((default))"
    );
}
