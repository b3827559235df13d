//! Log store behaviour: timestamp deduplication, display transforms and
//! auto-scroll.

use oxker::app_data::container_data::{ContainerData, ContainerSummary};
use oxker::app_data::container_state::{ContainerId, Logs, LogsTz};
use oxker::app_data::CliArgs;

fn args(color: bool, raw: bool, timestamp: bool) -> CliArgs {
    CliArgs { color, raw, timestamp, docker_interval: 1000, gui: true }
}

fn one_container(a: CliArgs) -> (ContainerData, ContainerId) {
    let mut data = ContainerData::new(a);
    data.update_containers(vec![ContainerSummary {
        id: Some("c1".to_string()),
        names: Some(vec!["/one".to_string()]),
        image: Some("img".to_string()),
        state: Some("running".to_string()),
        status: Some("Up".to_string()),
        created: Some(1),
        command: None,
    }]);
    (data, ContainerId::new("c1".to_string()))
}

#[test]
fn duplicate_timestamps_store_only_the_first_line() {
    let (mut data, id) = one_container(args(false, false, true));
    data.update_log_by_id_at(
        vec![
            "2023-01-14T19:13:30.783Z first".to_string(),
            "2023-01-14T19:13:30.783Z second".to_string(),
        ],
        &id,
        7,
    );
    let lines = data.get_logs();
    assert_eq!(lines.len(), 1);
    assert_eq!(lines[0], "2023-01-14T19:13:30.783Z first");
    assert_eq!(data.get_container_items()[0].last_updated, 7);
}

#[test]
fn distinct_timestamps_store_both_lines_in_order() {
    let (mut data, id) = one_container(args(false, false, true));
    data.update_log_by_id_at(
        vec![
            "2023-01-14T19:13:30Z one".to_string(),
            "2023-01-14T19:13:31Z two".to_string(),
        ],
        &id,
        7,
    );
    let lines = data.get_logs();
    assert_eq!(lines.len(), 2);
    assert_eq!(lines[0], "2023-01-14T19:13:30Z one");
    assert_eq!(lines[1], "2023-01-14T19:13:31Z two");
}

#[test]
fn timestamp_flag_off_strips_leading_token() {
    let (mut data, id) = one_container(args(false, false, false));
    data.update_log_by_id_at(vec!["2023-01-14T19:13:30Z hello world".to_string()], &id, 7);
    assert_eq!(data.get_logs(), vec!["hello world".to_string()]);
}

#[test]
fn default_mode_strips_ansi_escapes() {
    let (mut data, id) = one_container(args(false, false, false));
    data.update_log_by_id_at(
        vec!["2023-01-14T19:13:30Z \u{1b}[31mred\u{1b}[0m text".to_string()],
        &id,
        7,
    );
    assert_eq!(data.get_logs(), vec!["red text".to_string()]);
}

#[test]
fn raw_mode_keeps_ansi_escapes() {
    let (mut data, id) = one_container(args(false, true, false));
    data.update_log_by_id_at(
        vec!["2023-01-14T19:13:30Z \u{1b}[31mred\u{1b}[0m".to_string()],
        &id,
        7,
    );
    assert_eq!(data.get_logs(), vec!["\u{1b}[31mred\u{1b}[0m".to_string()]);
}

#[test]
fn log_cursor_follows_the_end() {
    let (mut data, id) = one_container(args(false, false, true));
    data.update_log_by_id_at(vec!["2023-01-01T00:00:00Z a".to_string()], &id, 1);
    assert_eq!(data.get_log_state().unwrap().selected, Some(0));
    data.update_log_by_id_at(vec!["2023-01-01T00:00:01Z b".to_string()], &id, 2);
    assert_eq!(data.get_log_state().unwrap().selected, Some(1));
    data.log_start();
    assert_eq!(data.get_log_state().unwrap().selected, Some(0));
    data.update_log_by_id_at(vec!["2023-01-01T00:00:02Z c".to_string()], &id, 3);
    assert_eq!(data.get_log_state().unwrap().selected, Some(0));
}

#[test]
fn log_navigation_clamps_at_both_ends() {
    let (mut data, id) = one_container(args(false, false, true));
    data.update_log_by_id_at(
        vec![
            "2023-01-01T00:00:00Z a".to_string(),
            "2023-01-01T00:00:01Z b".to_string(),
            "2023-01-01T00:00:02Z c".to_string(),
        ],
        &id,
        1,
    );
    assert_eq!(data.get_log_state().unwrap().selected, Some(2));
    data.log_next();
    assert_eq!(data.get_log_state().unwrap().selected, Some(2));
    data.log_previous();
    assert_eq!(data.get_log_state().unwrap().selected, Some(1));
    data.log_start();
    data.log_previous();
    assert_eq!(data.get_log_state().unwrap().selected, Some(0));
    data.log_end();
    assert_eq!(data.get_log_state().unwrap().selected, Some(2));
    assert_eq!(data.get_log_title(), "3/3 - one");
}

#[test]
fn logs_store_direct_insert_dedups_by_token() {
    let mut logs = Logs::new();
    let line1 = "2023-01-01T00:00:00Z alpha".to_string();
    let line2 = "2023-01-01T00:00:00Z beta".to_string();
    let tz1 = LogsTz::from_line(&line1);
    let tz2 = LogsTz::from_line(&line2);
    logs.insert(line1.clone(), tz1);
    logs.insert(line2, tz2);
    assert_eq!(logs.len(), 1);
    assert_eq!(logs.to_vec(), vec![line1]);
}

#[test]
fn unknown_container_log_update_is_a_no_op() {
    let (mut data, _) = one_container(args(false, false, true));
    let ghost_id = ContainerId::new("missing".to_string());
    data.update_log_by_id_at(vec!["2023-01-01T00:00:00Z a".to_string()], &ghost_id, 1);
    assert_eq!(data.get_logs().len(), 0);
}

#[test]
fn info_lines_are_split_and_navigable() {
    let (mut data, id) = one_container(args(false, false, true));
    data.update_infos(&id, &"first\nsecond\r\nthird".to_string());
    assert_eq!(
        data.get_infos(),
        vec!["first".to_string(), "second".to_string(), "third".to_string()]
    );
    assert_eq!(data.get_info_state().unwrap().selected, None);
    data.info_next();
    assert_eq!(data.get_info_state().unwrap().selected, Some(0));
    data.info_end();
    assert_eq!(data.get_info_state().unwrap().selected, Some(2));
    data.info_previous();
    assert_eq!(data.get_info_state().unwrap().selected, Some(1));
    data.info_start();
    assert_eq!(data.get_info_state().unwrap().selected, Some(0));
}
