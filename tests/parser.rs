use usbipd_manager::device::{classify_state, DeviceRecord, DeviceState};
use usbipd_manager::parser::{parse_device_list, parse_list_output, PollError};
use usbipd_manager::text::is_white_space;

const LISTING: &str = "Connected:\n\
BUSID  VID:PID    DEVICE                                                        STATE\n\
1-6    046d:c52b  Logitech USB Input Device, USB Input Device                  Not shared\n\
2-1    0bda:8153  Realtek USB GbE Family Controller                             Shared\n\
2-3    1209:0001  Dev Board                                                     Shared (forced)\n\
3-1    8087:0026  Intel(R) Wireless Bluetooth(R)                                Attached\n\
\n\
Persisted:\n\
GUID                                  DEVICE\n\
9-9    aaaa:bbbb  Ghost Device   Shared\n";

fn row(r: &DeviceRecord) -> (&str, &str, DeviceState) {
    (r.bus_id.as_str(), r.description.as_str(), r.state)
}

#[test]
fn parses_rows_in_order_and_stops_at_blank_line() {
    let recs = parse_device_list(LISTING);
    assert_eq!(recs.len(), 4);
    assert_eq!(
        row(&recs[0]),
        ("1-6", "Logitech USB Input Device, USB Input Device", DeviceState::NotShared)
    );
    assert_eq!(row(&recs[1]), ("2-1", "Realtek USB GbE Family Controller", DeviceState::Shared));
    assert_eq!(row(&recs[2]), ("2-3", "Dev Board", DeviceState::Shared));
    assert_eq!(
        row(&recs[3]),
        ("3-1", "Intel(R) Wireless Bluetooth(R)", DeviceState::Attached)
    );
}

#[test]
fn n_rows_give_n_records() {
    let mut text = String::from("header one\nheader two\n");
    for i in 0..7 {
        text.push_str(&format!("1-{}  0000:000{}  Device number {}  Shared\n", i, i, i));
    }
    text.push('\n');
    let recs = parse_device_list(&text);
    assert_eq!(recs.len(), 7);
    for (i, r) in recs.iter().enumerate() {
        assert_eq!(r.bus_id, format!("1-{}", i));
        assert_eq!(r.description, format!("Device number {}", i));
        assert_eq!(r.state, DeviceState::Shared);
    }
}

#[test]
fn short_row_is_skipped_and_parsing_goes_on() {
    let text = "h1\nh2\n1-1 a:b Mouse Shared\nbroken row\n1-2 c:d Keyboard Not shared\n\n";
    let recs = parse_device_list(text);
    assert_eq!(recs.len(), 2);
    assert_eq!(row(&recs[0]), ("1-1", "Mouse", DeviceState::Shared));
    assert_eq!(row(&recs[1]), ("1-2", "Keyboard", DeviceState::NotShared));
}

#[test]
fn three_token_row_is_skipped() {
    let text = "h1\nh2\n1-1 a:b Attached\n1-2 c:d Pad Attached\n";
    let recs = parse_device_list(text);
    assert_eq!(recs.len(), 1);
    assert_eq!(row(&recs[0]), ("1-2", "Pad", DeviceState::Attached));
}

#[test]
fn persisted_heading_ends_the_listing() {
    let text = "h1\nh2\n1-1 a:b Mouse Shared\nPersisted:\n1-2 c:d Keyboard Shared\n";
    let recs = parse_device_list(text);
    assert_eq!(recs.len(), 1);
    assert_eq!(recs[0].bus_id, "1-1");
}

#[test]
fn crlf_line_endings() {
    let text = "h1\r\nh2\r\n1-1 a:b Mouse Not shared\r\n1-2 c:d Pen Shared (forced)\r\n\r\n";
    let recs = parse_device_list(text);
    assert_eq!(recs.len(), 2);
    assert_eq!(row(&recs[0]), ("1-1", "Mouse", DeviceState::NotShared));
    assert_eq!(row(&recs[1]), ("1-2", "Pen", DeviceState::Shared));
}

#[test]
fn no_state_word_gives_unknown() {
    let recs = parse_device_list("h1\nh2\n1-1 a:b Some Gadget\n");
    assert_eq!(recs.len(), 1);
    assert_eq!(row(&recs[0]), ("1-1", "Some Gadget", DeviceState::Unknown));
}

#[test]
fn unrecognised_state_text_gives_unknown() {
    let recs = parse_device_list("h1\nh2\n1-1 a:b Gadget Sharedness\n1-2 c:d Gadget Not attached\n");
    assert_eq!(recs.len(), 2);
    assert_eq!(row(&recs[0]), ("1-1", "Gadget", DeviceState::Unknown));
    assert_eq!(row(&recs[1]), ("1-2", "Gadget", DeviceState::Unknown));
}

#[test]
fn header_only_and_empty_text() {
    assert_eq!(parse_device_list("").len(), 0);
    assert_eq!(parse_device_list("h1\nh2\n").len(), 0);
    assert_eq!(parse_device_list("h1\nh2").len(), 0);
}

#[test]
fn last_line_without_line_ending() {
    let recs = parse_device_list("h1\nh2\n1-1 a:b Mouse Shared");
    assert_eq!(recs.len(), 1);
    assert_eq!(recs[0].state, DeviceState::Shared);
}

#[test]
fn state_classification() {
    assert_eq!(classify_state("Not shared"), DeviceState::NotShared);
    assert_eq!(classify_state("Shared"), DeviceState::Shared);
    assert_eq!(classify_state("Shared (forced)"), DeviceState::Shared);
    assert_eq!(classify_state("Attached"), DeviceState::Attached);
    assert_eq!(classify_state("Nothing"), DeviceState::Unknown);
    assert_eq!(classify_state(""), DeviceState::Unknown);
}

#[test]
fn state_labels() {
    assert_eq!(DeviceState::NotShared.label(), "Not shared");
    assert_eq!(DeviceState::Shared.label(), "Shared");
    assert_eq!(DeviceState::Attached.label(), "Attached");
    assert_eq!(DeviceState::Unknown.label(), "Unknown");
}

#[test]
fn white_space_agrees_with_std() {
    for u in 0u32..=0x10FFFF {
        if let Some(c) = char::from_u32(u) {
            assert_eq!(is_white_space(c), c.is_whitespace(), "code point {:x}", u);
        }
    }
}

#[test]
fn output_bytes_are_decoded_and_parsed() {
    let out = parse_list_output(true, LISTING.as_bytes()).unwrap();
    assert_eq!(out.len(), 4);
    assert_eq!(out[3].bus_id, "3-1");
}

#[test]
fn non_ascii_description_survives_decoding() {
    let text = "h1\nh2\n1-1 a:b Клавиатура Ü Shared\n";
    let out = parse_list_output(true, text.as_bytes()).unwrap();
    assert_eq!(out.len(), 1);
    assert_eq!(out[0].description, "Клавиатура Ü");
}

#[test]
fn undecodable_output_is_an_error() {
    let bytes = vec![b'h', b'1', b'\n', 0xff, 0xfe, b'\n'];
    assert_eq!(parse_list_output(true, &bytes).unwrap_err(), PollError::Undecodable);
}

#[test]
fn failed_tool_with_no_rows_is_an_error() {
    assert_eq!(parse_list_output(false, b"").unwrap_err(), PollError::ToolFailed);
    let ok_empty = parse_list_output(true, b"h1\nh2\n\n").unwrap();
    assert_eq!(ok_empty.len(), 0);
    let failed_with_rows = parse_list_output(false, b"h1\nh2\n1-1 a:b Mouse Shared\n").unwrap();
    assert_eq!(failed_with_rows.len(), 1);
}
