use led_matrix::link::{next_link_action, poll_delay_ms, LinkAction};

#[test]
fn stopped_station_is_started() {
    assert_eq!(next_link_action(Some(false), None), LinkAction::Start);
    assert_eq!(next_link_action(Some(false), Some(true)), LinkAction::Start);
}

#[test]
fn started_station_without_link_connects() {
    assert_eq!(next_link_action(Some(true), Some(false)), LinkAction::Connect);
}

#[test]
fn connected_station_is_left_alone() {
    assert_eq!(next_link_action(Some(true), Some(true)), LinkAction::Hold);
    assert_eq!(poll_delay_ms(LinkAction::Hold), 1100);
}

#[test]
fn failed_queries_are_reported() {
    assert_eq!(next_link_action(None, Some(true)), LinkAction::Report);
    assert_eq!(next_link_action(Some(true), None), LinkAction::Report);
    assert_eq!(poll_delay_ms(LinkAction::Report), 100);
    assert_eq!(poll_delay_ms(LinkAction::Start), 100);
}
