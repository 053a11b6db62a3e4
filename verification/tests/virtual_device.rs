use resonate::audio::pw_config::{
    bridge_module_args, claim_routing, detect_physical_mic, dropin_outdated, dropin_path,
    generate_dropin, raw_loopback_ids,
};
use resonate::audio::capture::{begin_capture, end_capture};
use resonate::audio::virtual_device::{
    amplify, bridge_args, buffer_frames, capture_layout, capture_pins, default_input_node, feed_volume,
    input_devices, next_buffer, node_from_props, silent_buffer, upmix, AudioNode, Capture, PwCtrl, PwState, SampleQueue,
    SINK_NAME, SOURCE_NAME,
};
use resonate::scalar::Scalar;

fn s(x: f32) -> Scalar {
    Scalar { bits: x.to_bits() }
}

fn node(id: u32, name: &str, class: &str, description: &str) -> AudioNode {
    AudioNode {
        id,
        name: name.to_string(),
        media_class: class.to_string(),
        description: description.to_string(),
    }
}

fn graph() -> Vec<AudioNode> {
    vec![
        node(1, "alsa_output.pci", "Audio/Sink", "Speakers"),
        node(2, "resonate_source", "Audio/Source", "Resonate Microphone"),
        node(3, "alsa_input.usb", "Audio/Source", "USB Mic"),
        node(4, "bluez_input.x", "Audio/Source", "Headset"),
    ]
}

#[test]
fn a_queue_keeps_the_newest_samples() {
    let mut q: SampleQueue<u32> = SampleQueue::new(4);
    q.push_samples(&vec![1, 2, 3]);
    q.push_samples(&vec![4, 5, 6]);
    assert_eq!(q.to_vec(), vec![3, 4, 5, 6]);
    assert_eq!(q.pop(), Some(3));
    assert_eq!(q.fill(5, 0), vec![4, 5, 6, 0, 0]);
    assert_eq!(q.len(), 0);
    assert_eq!(q.pop(), None);
    q.push_samples(&vec![9, 8]);
    assert_eq!(q.fill(1, 0), vec![9]);
    q.clear();
    assert_eq!(q.len(), 0);
}

#[test]
fn a_buffer_is_fed_at_a_gain() {
    let mut q: SampleQueue<Scalar> = SampleQueue::new(8);
    q.push_samples(&vec![s(0.5), s(-0.8), s(0.1)]);
    assert_eq!(q.feed(2, s(2.0)), vec![s(1.0), s(-1.0)]);
    assert_eq!(q.feed(3, s(0.0)), vec![s(0.0), s(0.0), s(0.0)]);
    assert_eq!(feed_volume(false, s(0.7)), s(0.0));
    assert_eq!(feed_volume(true, s(0.7)), s(0.7));
}

#[test]
fn a_flush_is_done_once() {
    let mut st = PwState { flush_pending: false };
    assert!(!st.take_flush());
    assert!(!st.control(PwCtrl::Flush));
    assert!(st.take_flush());
    assert!(!st.take_flush());
    assert!(st.control(PwCtrl::Terminate));
}

#[test]
fn captures_are_read_by_their_stride() {
    assert_eq!(buffer_frames(33), 4);
    assert_eq!(capture_layout(64, 0, 64, 8), Capture { start: 0, channels: 2, frames: 8 });
    assert_eq!(capture_layout(64, 0, 64, 4), Capture { start: 0, channels: 1, frames: 16 });
    assert_eq!(capture_layout(64, 40, 64, 8), Capture { start: 40, channels: 2, frames: 3 });
    assert_eq!(capture_layout(64, 99, 64, 0), Capture { start: 64, channels: 2, frames: 0 });
    assert_eq!(upmix(&vec![1, 2], 1, 2), vec![1, 1, 2, 2]);
    assert_eq!(upmix(&vec![1, 2, 3, 4, 5, 6], 3, 2), vec![1, 2, 4, 5]);
    let mut v = vec![s(0.5), s(-2.0)];
    amplify(&mut v, s(0.5));
    assert_eq!(v, vec![s(0.25), s(-1.0)]);
}

#[test]
fn nodes_are_read_from_the_registry() {
    let n = node_from_props(7, Some("Audio/Source"), Some("mic"), None).unwrap();
    assert_eq!((n.id, n.name.as_str(), n.description.as_str()), (7, "mic", "mic"));
    assert_eq!(node_from_props(7, None, Some("mic"), Some("Mic")).unwrap().media_class, "");
    assert!(node_from_props(7, None, None, None).is_none());
    assert!(node_from_props(7, None, Some(""), None).is_none());
    assert_eq!(input_devices(&graph()), vec!["USB Mic".to_string(), "Headset".to_string()]);
    assert_eq!(default_input_node(&graph()), Some(1));
    let renamed = vec![node(5, "x", "Audio/Source", "My Resonate thing")];
    assert_eq!(default_input_node(&renamed), Some(0));
    assert_eq!(default_input_node(&Vec::new()), None);
}

#[test]
fn the_microphone_is_never_our_own() {
    let g = graph();
    assert_eq!(detect_physical_mic("Headset", &g, None).as_deref(), Some("bluez_input.x"));
    assert_eq!(
        detect_physical_mic("Resonate Microphone", &g, Some("resonate_source\n")).as_deref(),
        Some("alsa_input.usb")
    );
    assert_eq!(detect_physical_mic("", &g, Some(" other \n")).as_deref(), Some("other"));
    assert_eq!(detect_physical_mic("", &g, Some("  ")).as_deref(), Some("alsa_input.usb"));
    assert_eq!(detect_physical_mic("", &Vec::new(), None), None);
}

#[test]
fn routing_creates_the_bridge_only_if_it_is_missing() {
    let mut g = graph();
    let plan = claim_routing("Resonate Microphone", "", &g, None);
    assert!(plan.create_bridge);
    assert_eq!(plan.mic_target.as_deref(), Some("alsa_input.usb"));
    assert_eq!(
        bridge_args(&plan, "Resonate Microphone"),
        Some(bridge_module_args("Resonate Microphone"))
    );
    g.push(node(9, SINK_NAME, "Audio/Sink", "x"));
    let again = claim_routing("Resonate Microphone", "", &g, None);
    assert!(!again.create_bridge);
    assert_eq!(bridge_args(&again, "x"), None);
    g.push(node(10, "resonate_mic_in", "Stream/Input", "x"));
    g.push(node(11, "resonate_mic_out", "Stream/Output", "x"));
    assert_eq!(raw_loopback_ids(&g), vec![10, 11]);
}

#[test]
fn the_drop_in_names_the_device_and_the_microphone() {
    let with = generate_dropin("My Mic", Some("alsa_input.usb"));
    let without = generate_dropin("My Mic", None);
    assert!(with.contains("My Mic") && with.contains("alsa_input.usb"));
    assert!(with.contains(SINK_NAME) && with.contains(SOURCE_NAME));
    assert!(!without.contains("resonate_mic_in"));
    assert!(with.len() > without.len());
    assert!(dropin_outdated(None, &with));
    assert!(dropin_outdated(Some(&without), &with));
    assert!(!dropin_outdated(Some(&with), &with));
    assert_eq!(
        dropin_path("/home/me/.config"),
        "/home/me/.config/pipewire/pipewire.conf.d/resonate.conf"
    );
}

#[test]
fn the_capture_is_pinned_to_the_microphone() {
    let (pins, connect) = capture_pins(Some("alsa_input.usb"));
    assert!(connect);
    let pairs: Vec<(&str, &str)> = pins.iter().map(|p| (p.key, p.value.as_str())).collect();
    assert_eq!(
        pairs,
        vec![
            ("target.object", "alsa_input.usb"),
            ("node.target", "alsa_input.usb"),
            ("node.dont-reconnect", "true"),
        ]
    );
    let (pins, connect) = capture_pins(None);
    assert!(pins.is_empty() && !connect);
}

#[test]
fn a_flush_comes_before_the_next_buffer() {
    let mut queue: SampleQueue<Scalar> = SampleQueue::new(100);
    queue.push_samples(&vec![s(0.25), s(-0.5), s(1.0), s(0.125)]);
    let mut state = PwState { flush_pending: false };
    let out = next_buffer(&mut state, &mut queue, 2, true, s(2.0));
    assert_eq!(out, vec![s(0.5), s(-1.0)]);
    assert_eq!(queue.to_vec(), vec![s(1.0), s(0.125)]);

    assert!(!state.control(PwCtrl::Flush));
    let out = next_buffer(&mut state, &mut queue, 2, true, s(2.0));
    assert_eq!(out, vec![s(0.0), s(0.0)]);
    assert_eq!(queue.len(), 0);
    assert!(!state.flush_pending);

    // What comes after the flush is heard, and a short queue is filled up.
    queue.push_samples(&vec![s(0.75)]);
    let out = next_buffer(&mut state, &mut queue, 3, true, s(2.0));
    assert_eq!(out, vec![s(1.0), s(0.0), s(0.0)]);
    // Nothing is heard while the device is off, but the time passes.
    queue.push_samples(&vec![s(0.75), s(0.5)]);
    assert_eq!(next_buffer(&mut state, &mut queue, 1, false, s(2.0)), vec![s(0.0)]);
    assert_eq!(queue.to_vec(), vec![s(0.5)]);
    assert_eq!(silent_buffer(3), vec![s(0.0), s(0.0), s(0.0)]);
}

#[test]
fn captured_frames_wait_in_the_bridge() {
    let mut bridge: SampleQueue<Scalar> = SampleQueue::new(6);
    bridge.push_samples(&vec![s(9.0), s(8.0)]);
    // One channel, at half the volume.
    let layout = Capture { start: 0, channels: 1, frames: 2 };
    let samples = begin_capture(&vec![s(0.5), s(-0.25), s(7.0)], layout, s(0.5));
    assert_eq!(samples, vec![s(0.25), s(0.25), s(-0.125), s(-0.125)]);
    let level = end_capture(&samples, &mut bridge).expect("there are samples");
    let mean: f32 = (0.0625 + 0.0625 + 0.015625 + 0.015625) / 4.0;
    assert_eq!(level, s(mean.sqrt()));
    let waiting = vec![s(9.0), s(8.0), s(0.25), s(0.25), s(-0.125), s(-0.125)];
    assert_eq!(bridge.to_vec(), waiting);

    // Three channels: the first two. The oldest leave a full bridge.
    let layout = Capture { start: 0, channels: 3, frames: 1 };
    let samples = begin_capture(&vec![s(0.1), s(0.2), s(0.3)], layout, s(1.0));
    assert_eq!(samples, vec![s(0.1), s(0.2)]);
    assert!(end_capture(&samples, &mut bridge).is_some());
    assert_eq!(bridge.to_vec()[0], s(0.25));
    assert_eq!(bridge.len(), 6);
    assert_eq!(end_capture(&Vec::new(), &mut bridge), None);
    assert_eq!(bridge.len(), 6);
}
