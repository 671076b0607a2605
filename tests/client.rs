use dd_wrt_wol::client::{wake_destination, ClientStep, PollingClient};
use dd_wrt_wol::cursor::parse_cursor;
use dd_wrt_wol::events::{Event, Response, Wakeup};

fn wakeup(time: u64) -> Wakeup {
    Wakeup {
        mac_address: "AA:BB:CC:DD:EE:FF".to_string(),
        broadcast_ip: "10.0.0.255".to_string(),
        time_of_occurrence: time,
    }
}

#[test]
fn parse_cursor_reads_decimal() {
    assert_eq!(parse_cursor("0"), Some(0));
    assert_eq!(parse_cursor("150"), Some(150));
    assert_eq!(parse_cursor("007"), Some(7));
    assert_eq!(parse_cursor("+42"), Some(42));
    assert_eq!(parse_cursor("18446744073709551615"), Some(u64::MAX));
}

#[test]
fn parse_cursor_rejects_non_numbers() {
    assert_eq!(parse_cursor(""), None);
    assert_eq!(parse_cursor("+"), None);
    assert_eq!(parse_cursor("abc"), None);
    assert_eq!(parse_cursor("12a"), None);
    assert_eq!(parse_cursor("-1"), None);
    assert_eq!(parse_cursor(" 1"), None);
    assert_eq!(parse_cursor("18446744073709551616"), None);
    assert_eq!(parse_cursor("99999999999999999999x"), None);
}

#[test]
fn wake_destination_uses_discard_port() {
    assert_eq!(wake_destination("192.168.1.255"), "192.168.1.255:9");
    assert_eq!(wake_destination(""), ":9");
}

#[test]
fn client_starts_at_zero() {
    assert_eq!(PollingClient::new().cursor(), 0);
}

#[test]
fn client_steps_follow_event() {
    let client = PollingClient::new();
    assert_eq!(client.on_answer(Event::Ignore), ClientStep::Wait);
    assert_eq!(client.on_answer(Event::MachineNotFound), ClientStep::Stop);
    assert_eq!(
        client.on_answer(Event::Wakeup(wakeup(300))),
        ClientStep::Wake(wakeup(300))
    );
}

#[test]
fn client_cursor_advances_only_forward() {
    let mut client = PollingClient::new();
    client.on_wake_sent(300);
    assert_eq!(client.cursor(), 300);
    client.on_wake_sent(200);
    assert_eq!(client.cursor(), 300);
    client.on_wake_sent(301);
    assert_eq!(client.cursor(), 301);
}

#[test]
fn response_holds_event() {
    let response = Response {
        event: Event::Wakeup(wakeup(5)),
    };
    assert_eq!(response.event, Event::Wakeup(wakeup(5)));
}
