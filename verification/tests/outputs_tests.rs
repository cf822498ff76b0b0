use skwd_paper::outputs::{select_outputs, OutputInfo, SelectError};

fn output(name: Option<&str>, version: u32) -> OutputInfo {
    OutputInfo { name: name.map(String::from), version }
}

fn names(items: &[&str]) -> Vec<String> {
    items.iter().map(ToString::to_string).collect()
}

#[test]
fn requested_outputs_are_picked_in_request_order() {
    let announced = [output(Some("DP-1"), 4), output(Some("HDMI-A-1"), 4), output(Some("DP-2"), 4)];
    assert_eq!(select_outputs(&announced, &names(&["DP-2", "DP-1"])), Ok(vec![2, 0]));
    assert_eq!(select_outputs(&announced, &[]), Ok(vec![]));
}

#[test]
fn unknown_outputs_are_refused() {
    let announced = [output(Some("DP-1"), 4)];
    assert_eq!(select_outputs(&announced, &names(&["DP-9"])), Err(SelectError::Unknown));
}

#[test]
fn unnamed_compositors_are_reported() {
    let announced = [output(None, 3), output(None, 2)];
    assert_eq!(select_outputs(&announced, &names(&["DP-1"])), Err(SelectError::NoNames));
    assert_eq!(select_outputs(&[], &names(&["DP-1"])), Err(SelectError::Unknown));
}

#[test]
fn duplicate_requests_match_the_first_output_of_a_name() {
    let announced = [output(Some("DP-1"), 4), output(Some("DP-1"), 4)];
    assert_eq!(select_outputs(&announced, &names(&["DP-1", "DP-1"])), Ok(vec![0, 0]));
}

#[test]
fn a_request_without_output_is_named_when_counts_agree() {
    let announced = [output(Some("DP-1"), 4), output(Some("DP-1"), 4)];
    assert_eq!(select_outputs(&announced, &names(&["DP-1", "DP-2"])), Err(SelectError::Missing(1)));
}
