//! Registry behaviour: reconciliation, selection continuity, sorting and
//! the bounded stats windows.

use oxker::app_data::container_data::{ContainerData, ContainerSummary, Header, SortedOrder};
use oxker::app_data::container_state::{ByteStats, ContainerId, CpuStats, State};
use oxker::app_data::CliArgs;

fn args() -> CliArgs {
    CliArgs { color: false, raw: false, timestamp: true, docker_interval: 1000, gui: true }
}

fn summary(id: &str, name: &str, state: &str, created: i64) -> ContainerSummary {
    ContainerSummary {
        id: Some(id.to_string()),
        names: Some(vec![format!("/{name}")]),
        image: Some("img:latest".to_string()),
        state: Some(state.to_string()),
        status: Some(format!("Up {created} seconds")),
        created: Some(created),
        command: Some("/bin/sh".to_string()),
    }
}

#[test]
fn reconcile_single_running_container() {
    let mut data = ContainerData::new(args());
    data.update_containers(vec![summary("c1", "one", "running", 100)]);
    assert_eq!(data.get_container_len(), 1);
    assert_eq!(data.get_container_state().selected, Some(0));
    assert_eq!(data.get_selected_container_id().unwrap().get(), "c1");
    let items = data.get_container_items();
    assert_eq!(items[0].name, "one");
    assert_eq!(items[0].created, 100);
}

#[test]
fn update_stats_chart_data_and_formatting() {
    let mut data = ContainerData::new(args());
    data.update_containers(vec![summary("c1", "one", "running", 100)]);
    let id = ContainerId::new("c1".to_string());
    data.update_stats(&id, Some(1250), Some(2_000_000), 4_000_000_000, 10, 20);
    let (cpu, mem) = data.get_chart_data().unwrap();
    assert_eq!(cpu.0, vec![(0, 1250)]);
    assert_eq!(cpu.1.get_value(), 1250);
    assert_eq!(cpu.1.display(), "12.50%");
    assert_eq!(mem.0, vec![(0, 2_000_000)]);
    assert_eq!(ByteStats::new(2_000_000).display(), "2.00 MB");
    assert_eq!(ByteStats::new(4_000_000_000).display(), "4.00 GB");
    let items = data.get_container_items();
    assert_eq!(items[0].rx.get_value(), 10);
    assert_eq!(items[0].tx.get_value(), 20);
    assert_eq!(items[0].mem_limit.get_value(), 4_000_000_000);
}

#[test]
fn removal_reseats_selection_to_first_survivor() {
    let mut data = ContainerData::new(args());
    data.update_containers(vec![
        summary("a", "alpha", "running", 1),
        summary("b", "beta", "running", 2),
        summary("c", "gamma", "running", 3),
    ]);
    assert_eq!(data.get_selected_container_id().unwrap().get(), "a");
    data.update_containers(vec![
        summary("b", "beta", "running", 2),
        summary("c", "gamma", "running", 3),
    ]);
    assert_eq!(data.get_container_len(), 2);
    assert_eq!(data.get_container_state().selected, Some(0));
    assert_eq!(data.get_selected_container_id().unwrap().get(), "b");
    assert!(data.get_container_name_by_id(&ContainerId::new("a".to_string())).is_none());
}

#[test]
fn reconcile_is_idempotent() {
    let snapshot = || {
        vec![
            summary("x", "xray", "running", 30),
            summary("y", "yankee", "exited", 10),
            summary("z", "zulu", "paused", 20),
        ]
    };
    let mut once = ContainerData::new(args());
    once.update_containers(snapshot());
    let mut twice = ContainerData::new(args());
    twice.update_containers(snapshot());
    twice.update_containers(snapshot());
    assert_eq!(once.get_container_len(), twice.get_container_len());
    assert_eq!(
        once.get_container_state().selected,
        twice.get_container_state().selected
    );
    let a = once.get_container_items();
    let b = twice.get_container_items();
    for i in 0..a.len() {
        assert_eq!(a[i].id.get(), b[i].id.get());
        assert_eq!(a[i].name, b[i].name);
        assert_eq!(a[i].status, b[i].status);
        assert_eq!(a[i].state, b[i].state);
        assert_eq!(a[i].created, b[i].created);
    }
}

#[test]
fn baseline_order_is_by_creation_time() {
    let mut data = ContainerData::new(args());
    data.update_containers(vec![
        summary("late", "late", "running", 300),
        summary("early", "early", "running", 100),
        summary("mid", "mid", "running", 200),
    ]);
    let items = data.get_container_items();
    assert_eq!(items[0].id.get(), "early");
    assert_eq!(items[1].id.get(), "mid");
    assert_eq!(items[2].id.get(), "late");
}

#[test]
fn sort_cycle_asc_desc_none() {
    let mut data = ContainerData::new(args());
    data.update_containers(vec![summary("c1", "one", "running", 100)]);
    assert_eq!(data.get_sorted(), None);
    data.set_sort_by_header(Header::Name);
    assert_eq!(data.get_sorted(), Some((Header::Name, SortedOrder::Asc)));
    data.set_sort_by_header(Header::Name);
    assert_eq!(data.get_sorted(), Some((Header::Name, SortedOrder::Desc)));
    data.set_sort_by_header(Header::Name);
    assert_eq!(data.get_sorted(), None);
}

#[test]
fn selection_survives_descending_name_sort() {
    let mut data = ContainerData::new(args());
    data.update_containers(vec![
        summary("a", "alpha", "running", 1),
        summary("b", "beta", "running", 2),
        summary("c", "gamma", "running", 3),
    ]);
    data.containers_next();
    assert_eq!(data.get_selected_container_id().unwrap().get(), "b");
    data.set_sort_by_header(Header::Name);
    data.set_sort_by_header(Header::Name);
    assert_eq!(data.get_sorted(), Some((Header::Name, SortedOrder::Desc)));
    let items = data.get_container_items();
    assert_eq!(items[0].name, "gamma");
    assert_eq!(items[1].name, "beta");
    assert_eq!(items[2].name, "alpha");
    assert_eq!(data.get_selected_container_id().unwrap().get(), "b");
    assert_eq!(data.get_container_state().selected, Some(1));
}

#[test]
fn reset_sorted_restores_creation_order() {
    let mut data = ContainerData::new(args());
    data.update_containers(vec![
        summary("a", "zulu", "running", 1),
        summary("b", "alpha", "running", 2),
    ]);
    data.set_sort_by_header(Header::Name);
    assert_eq!(data.get_container_items()[0].name, "alpha");
    data.reset_sorted();
    assert_eq!(data.get_sorted(), None);
    assert_eq!(data.get_container_items()[0].name, "zulu");
}

#[test]
fn cpu_window_keeps_last_sixty_samples_in_order() {
    let mut data = ContainerData::new(args());
    data.update_containers(vec![summary("c1", "one", "running", 100)]);
    let id = ContainerId::new("c1".to_string());
    for i in 0..100u64 {
        data.update_stats(&id, Some(i), Some(i), 0, 0, 0);
    }
    let (cpu, mem) = data.get_chart_data().unwrap();
    assert_eq!(cpu.0.len(), 60);
    assert_eq!(mem.0.len(), 60);
    for i in 0..60u64 {
        assert_eq!(cpu.0[i as usize], (i, 40 + i));
    }
    assert_eq!(cpu.1.get_value(), 99);
}

#[test]
fn patch_updates_fields_but_keeps_history() {
    let mut data = ContainerData::new(args());
    data.update_containers(vec![summary("c1", "one", "running", 100)]);
    let id = ContainerId::new("c1".to_string());
    data.update_stats(&id, Some(500), None, 0, 0, 0);
    data.update_containers(vec![summary("c1", "renamed", "paused", 100)]);
    let items = data.get_container_items();
    assert_eq!(items[0].name, "renamed");
    assert_eq!(items[0].state, State::Paused);
    let (cpu, _) = data.get_chart_data().unwrap();
    assert_eq!(cpu.0, vec![(0, 500)]);
}

#[test]
fn entries_without_id_are_dropped_and_slash_stripped() {
    let mut data = ContainerData::new(args());
    data.update_containers(vec![
        ContainerSummary {
            id: None,
            names: Some(vec!["/ghost".to_string()]),
            image: None,
            state: None,
            status: None,
            created: None,
            command: None,
        },
        summary("real", "named", "running", 5),
    ]);
    assert_eq!(data.get_container_len(), 1);
    assert_eq!(data.get_container_items()[0].name, "named");
}

#[test]
fn state_parsing_trims_and_defaults() {
    let mut data = ContainerData::new(args());
    let mut entry = summary("c1", "one", "  running  ", 1);
    entry.status = Some("  Up 2 minutes  ".to_string());
    data.update_containers(vec![entry]);
    let items = data.get_container_items();
    assert_eq!(items[0].state, State::Running);
    assert_eq!(items[0].status, "Up 2 minutes");
    let mut data2 = ContainerData::new(args());
    let mut no_state = summary("c2", "two", "whatever", 1);
    no_state.state = None;
    data2.update_containers(vec![no_state]);
    assert_eq!(data2.get_container_items()[0].state, State::Dead);
}

#[test]
fn is_oxker_detected_from_entry_point_command() {
    let mut data = ContainerData::new(args());
    let mut own = summary("me", "dash", "running", 1);
    own.command = Some("/app/oxker --gui".to_string());
    data.update_containers(vec![own]);
    assert!(data.is_oxker());
}

#[test]
fn cpu_memory_sort_uses_latest_sample() {
    let mut data = ContainerData::new(args());
    data.update_containers(vec![
        summary("a", "alpha", "running", 1),
        summary("b", "beta", "running", 2),
    ]);
    data.update_stats(&ContainerId::new("a".to_string()), Some(900), None, 0, 0, 0);
    data.update_stats(&ContainerId::new("b".to_string()), Some(100), None, 0, 0, 0);
    data.set_sort_by_header(Header::Cpu);
    let items = data.get_container_items();
    assert_eq!(items[0].id.get(), "b");
    assert_eq!(items[1].id.get(), "a");
}

#[test]
fn state_sort_ascending_ranks_highest_precedence_first() {
    let mut data = ContainerData::new(args());
    data.update_containers(vec![
        summary("r", "runner", "running", 1),
        summary("d", "dead", "dead", 2),
        summary("p", "pauser", "paused", 3),
    ]);
    data.set_sort_by_header(Header::State);
    let items = data.get_container_items();
    assert_eq!(items[0].state, State::Dead);
    assert_eq!(items[1].state, State::Paused);
    assert_eq!(items[2].state, State::Running);
}

#[test]
fn initialised_counts_running_with_samples() {
    let mut data = ContainerData::new(args());
    data.update_containers(vec![
        summary("a", "alpha", "running", 1),
        summary("b", "beta", "exited", 2),
    ]);
    let ids = vec![
        (true, ContainerId::new("a".to_string())),
        (false, ContainerId::new("b".to_string())),
    ];
    assert!(!data.initialised(&ids));
    data.update_stats(&ContainerId::new("a".to_string()), Some(10), None, 0, 0, 0);
    assert!(data.initialised(&ids));
}

#[test]
fn column_widths_grow_to_fit() {
    let mut data = ContainerData::new(args());
    let columns = data.get_width();
    assert_eq!(columns.name.1, 4);
    data.update_containers(vec![summary("c1", "a-rather-long-container-name", "running", 1)]);
    let columns = data.get_width();
    assert_eq!(columns.name.1, 28);
    assert_eq!(columns.id, (Header::Id, 8));
}

#[test]
fn empty_snapshot_clears_registry_and_selection() {
    let mut data = ContainerData::new(args());
    data.update_containers(vec![
        summary("a", "alpha", "running", 1),
        summary("b", "beta", "running", 2),
    ]);
    data.update_containers(vec![]);
    assert_eq!(data.get_container_len(), 0);
    assert_eq!(data.get_container_state().selected, None);
    assert!(data.get_selected_container_id().is_none());
    assert_eq!(data.container_title(), "");
}

#[test]
fn equal_created_times_keep_snapshot_order() {
    let mut data = ContainerData::new(args());
    data.update_containers(vec![
        summary("first", "first", "running", 50),
        summary("second", "second", "running", 50),
        summary("third", "third", "running", 50),
    ]);
    let items = data.get_container_items();
    assert_eq!(items[0].id.get(), "first");
    assert_eq!(items[1].id.get(), "second");
    assert_eq!(items[2].id.get(), "third");
}

#[test]
fn equal_sort_keys_keep_arrival_order() {
    let mut data = ContainerData::new(args());
    data.update_containers(vec![
        summary("a", "same", "running", 1),
        summary("b", "same", "running", 2),
        summary("c", "other", "running", 3),
    ]);
    data.set_sort_by_header(Header::Name);
    let items = data.get_container_items();
    assert_eq!(items[0].id.get(), "c");
    assert_eq!(items[1].id.get(), "a");
    assert_eq!(items[2].id.get(), "b");
}

#[test]
fn duplicate_snapshot_ids_yield_one_item() {
    let mut data = ContainerData::new(args());
    data.update_containers(vec![
        summary("dup", "first", "running", 1),
        summary("dup", "second", "running", 1),
    ]);
    assert_eq!(data.get_container_len(), 1);
    assert_eq!(data.get_container_items()[0].name, "second");
}

#[test]
fn titles_show_cursor_and_name() {
    let mut data = ContainerData::new(args());
    assert_eq!(data.container_title(), "");
    data.update_containers(vec![summary("c1", "one", "running", 1)]);
    assert_eq!(data.container_title(), "1/1");
    assert_eq!(data.get_log_title(), "- one ");
}
