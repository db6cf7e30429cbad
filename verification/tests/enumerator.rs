//! Behaviour of the device-registry parser.

use nenuphar::registry::kbd_event_nodes;

fn paths(content: &str) -> Vec<String> {
    kbd_event_nodes(content.as_bytes())
        .into_iter()
        .map(|p| String::from_utf8(p).unwrap())
        .collect()
}

#[test]
fn selects_keyboard_with_leds() {
    let content = "I: Bus=0011 Vendor=0001 Product=0001 Version=ab41\n\
                   N: Name=\"AT Translated Set 2 keyboard\"\n\
                   H: Handlers=sysrq kbd event0 leds\n\
                   B: EV=120013\n\
                   \n\
                   I: Bus=0003 Vendor=046d Product=c077 Version=0111\n\
                   N: Name=\"Optical Mouse\"\n\
                   H: Handlers=mouse0 event1\n\
                   B: EV=17\n";
    assert_eq!(paths(content), vec!["/dev/input/event0".to_string()]);
}

#[test]
fn line_without_leds_is_ignored() {
    let content = "H: Handlers=kbd event3\n";
    assert!(paths(content).is_empty());
}

#[test]
fn line_without_kbd_is_ignored() {
    let content = "H: Handlers=mouse0 event3 leds\n";
    assert!(paths(content).is_empty());
}

#[test]
fn line_must_start_with_handlers_tag() {
    let content = "X: Handlers=kbd event3 leds\n";
    assert!(paths(content).is_empty());
}

#[test]
fn several_event_tokens_on_one_line() {
    let content = "H: Handlers=sysrq kbd leds event2 event13\n";
    assert_eq!(
        paths(content),
        vec!["/dev/input/event2".to_string(), "/dev/input/event13".to_string()]
    );
}

#[test]
fn several_matching_lines_in_text_order() {
    let content = "H: Handlers=kbd event0 leds\n\
                   H: Handlers=mouse0 event1\n\
                   H: Handlers=kbd event4 leds\n";
    assert_eq!(
        paths(content),
        vec!["/dev/input/event0".to_string(), "/dev/input/event4".to_string()]
    );
}

#[test]
fn empty_registry_yields_no_paths() {
    assert!(paths("").is_empty());
}

#[test]
fn carriage_returns_are_stripped() {
    let content = "H: Handlers=sysrq kbd event7 leds\r\n";
    assert_eq!(paths(content), vec!["/dev/input/event7".to_string()]);
}

#[test]
fn final_line_without_newline_counts() {
    let content = "H: Handlers=sysrq kbd leds event9";
    assert_eq!(paths(content), vec!["/dev/input/event9".to_string()]);
}

#[test]
fn token_must_start_with_event() {
    // `preevent5` does not start with `event`; `events` does.
    let content = "H: Handlers=kbd preevent5 events leds\n";
    assert_eq!(paths(content), vec!["/dev/input/events".to_string()]);
}
