use diskedit::partitions::{PartitionType, PlannedPartition};
use diskedit::rewrite::{layout, Action, Event, Rewriter, PARTITION_FLAGS};
use diskedit::util::Error;
use std::collections::BTreeMap;
use std::io::Cursor;
use std::str::FromStr;

const LINUX_FS: &str = "0FC63DAF-8483-4772-8E79-3D69D8477DE4";

fn texts(specs: &[&str]) -> Vec<String> {
    specs.iter().map(|s| s.to_string()).collect()
}

fn planned(name: &str, size_bytes: u64, guid: &str) -> PlannedPartition {
    PlannedPartition {
        name: name.to_string(),
        size_bytes,
        partition_type: PartitionType { guid: guid.to_string() },
    }
}

fn failure() -> std::io::Error {
    std::io::Error::new(std::io::ErrorKind::PermissionDenied, "refused")
}

/// Feeds `events` to a rebuild for `specs` and hands back every action that
/// it asked for, the first one included.
fn actions_for(specs: &[&str], events: Vec<Event>) -> Vec<Action> {
    let (mut state, first) = Rewriter::new(texts(specs));
    let mut actions = vec![first];
    for event in events {
        let (next, action) = state.step(event).expect("the event answers the action");
        state = next;
        actions.push(action);
    }
    actions
}

/// The events of a rebuild on a file of `length` bytes that meets no failure
/// and finds the entries `stale` in the table, for `added` partitions.
fn smooth_events(length: u64, stale: Vec<(u32, u128)>, added: usize) -> Vec<Event> {
    let mut events = vec![Event::Done, Event::Length(length), Event::Done, Event::Done];
    let removed = stale.len();
    events.push(Event::Entries(stale));
    for _ in 0..removed + added + 1 {
        events.push(Event::Done);
    }
    events
}

fn added(actions: &[Action]) -> Vec<PlannedPartition> {
    let mut partitions = Vec::new();
    for action in actions {
        if let Action::AddPartition { partition, flags: 0, alignment: None } = action {
            partitions.push(partition.clone());
        }
    }
    partitions
}

#[test]
fn a_rebuild_goes_through_its_steps_in_order() {
    let specs = ["boot:0:2miB", "root:2miB:10miB"];
    let actions = actions_for(&specs, smooth_events(10485760, Vec::new(), 2));
    assert_eq!(actions.len(), 9);
    assert!(matches!(actions[0], Action::OpenDevice));
    assert!(matches!(actions[1], Action::QueryLength));
    assert!(matches!(actions[2], Action::WriteProtectiveRecord { sectors: 20479 }));
    assert!(matches!(actions[3], Action::InitializeTable));
    assert!(matches!(actions[4], Action::ListEntries));
    assert_eq!(
        added(&actions),
        vec![planned("boot", 2097152, LINUX_FS), planned("root", 8388608, LINUX_FS)]
    );
    assert!(matches!(actions[5], Action::AddPartition { flags: 0, alignment: None, .. }));
    assert!(matches!(actions[6], Action::AddPartition { flags: 0, alignment: None, .. }));
    assert!(matches!(actions[7], Action::Persist));
    assert!(matches!(actions[8], Action::Finish(Ok(()))));
}

#[test]
fn a_rebuild_removes_what_it_finds_before_it_adds() {
    let stale = vec![(1, 0xAAu128), (2, 0xBBu128), (7, 0xCCu128)];
    let actions = actions_for(&["a:0:50%"], smooth_events(4096, stale, 1));
    assert_eq!(actions.len(), 11);
    assert!(matches!(actions[4], Action::ListEntries));
    assert!(matches!(actions[5], Action::RemoveEntry { number: 1, guid: 0xAA }));
    assert!(matches!(actions[6], Action::RemoveEntry { number: 2, guid: 0xBB }));
    assert!(matches!(actions[7], Action::RemoveEntry { number: 7, guid: 0xCC }));
    assert!(matches!(actions[8], Action::AddPartition { flags: 0, alignment: None, .. }));
    assert_eq!(added(&actions), vec![planned("a", 2048, LINUX_FS)]);
    assert!(matches!(actions[9], Action::Persist));
    assert!(matches!(actions[10], Action::Finish(Ok(()))));
}

#[test]
fn what_a_rebuild_adds_does_not_depend_on_what_was_there() {
    let specs = ["esp:0:25%:efi", "25%:50%", "home:50%:100%:linux_home"];
    let clean = actions_for(&specs, smooth_events(1 << 30, Vec::new(), 3));
    let used = actions_for(&specs, smooth_events(1 << 30, vec![(3, 5), (1, 9)], 3));
    let again = actions_for(&specs, smooth_events(1 << 30, vec![(1, 1), (2, 2), (3, 3)], 3));
    let expected = vec![
        planned("esp", 268435456, "C12A7328-F81F-11D2-BA4B-00A0C93EC93B"),
        planned("", 268435456, LINUX_FS),
        planned("home", 536870912, "933AC7E1-2EB4-4F13-B844-0E14E2AEF915"),
    ];
    assert_eq!(added(&clean), expected);
    assert_eq!(added(&used), expected);
    assert_eq!(added(&again), expected);
}

#[test]
fn partitions_are_added_without_flags() {
    assert_eq!(PARTITION_FLAGS, 0);
}

#[test]
fn a_rebuild_without_requests_writes_an_empty_table() {
    let actions = actions_for(&[], smooth_events(4096, vec![(1, 1)], 0));
    assert_eq!(actions.len(), 8);
    assert!(matches!(actions[5], Action::RemoveEntry { number: 1, guid: 1 }));
    assert!(matches!(actions[6], Action::Persist));
    assert!(matches!(actions[7], Action::Finish(Ok(()))));
}

#[test]
fn a_length_of_zero_has_the_sector_count_looked_up() {
    let events = vec![
        Event::Done,
        Event::Length(0),
        Event::SectorCount(Some("2048\n".to_string())),
        Event::Done,
    ];
    let actions = actions_for(&["0:50%"], events);
    assert!(matches!(actions[2], Action::QuerySectorCount));
    assert!(matches!(actions[3], Action::WriteProtectiveRecord { sectors: 2047 }));
    assert!(matches!(actions[4], Action::InitializeTable));
}

#[test]
fn the_capacity_of_a_block_device_is_its_sector_count_times_512() {
    let mut events = vec![
        Event::Done,
        Event::Length(0),
        Event::SectorCount(Some(" 2048 ".to_string())),
    ];
    events.extend(vec![Event::Done, Event::Done, Event::Entries(Vec::new())]);
    let actions = actions_for(&["0:50%"], events);
    assert!(matches!(&actions[6], Action::AddPartition { partition, .. } if partition.size_bytes == 524288));
}

#[test]
fn a_block_device_without_metadata_ends_the_rebuild() {
    let events = vec![Event::Done, Event::Length(0), Event::SectorCount(None)];
    let actions = actions_for(&["0:50%"], events);
    assert_eq!(actions.len(), 4);
    assert!(matches!(actions[3], Action::Finish(Err(Error::InvalidDevice))));
}

#[test]
fn a_sector_count_that_cannot_be_read_ends_the_rebuild() {
    let events = vec![Event::Done, Event::Length(0), Event::SectorCount(Some("many".to_string()))];
    let actions = actions_for(&["0:50%"], events);
    assert!(matches!(actions[3], Action::Finish(Err(Error::ParseIntError))));
    let count = Some("18446744073709551615".to_string());
    let events = vec![Event::Done, Event::Length(0), Event::SectorCount(count)];
    let actions = actions_for(&["0:50%"], events);
    assert!(matches!(actions[3], Action::Finish(Err(Error::RangeError))));
}

#[test]
fn requests_are_read_once_the_protective_record_is_written() {
    let events = vec![Event::Done, Event::Length(4096), Event::Done];
    let actions = actions_for(&["a:0:50%", "b:0"], events);
    assert!(matches!(actions[2], Action::WriteProtectiveRecord { sectors: 7 }));
    assert!(matches!(actions[3], Action::Finish(Err(Error::InvalidPartitionSpecification))));
    let events = vec![Event::Done, Event::Length(4096), Event::Done];
    let actions = actions_for(&["10%:10%:50%"], events);
    assert!(matches!(actions[3], Action::Finish(Err(Error::InvalidPartitionType))));
    let events = vec![Event::Done, Event::Length(4096), Event::Done];
    let actions = actions_for(&["a:50%:50%"], events);
    assert!(matches!(actions[3], Action::Finish(Err(Error::InvalidPartitionSpecification))));
    let events = vec![Event::Done, Event::Length(4096), Event::Done];
    let actions = actions_for(&["a:0:18446744073709551615giB"], events);
    assert!(matches!(actions[3], Action::Finish(Err(Error::RangeError))));
}

#[test]
fn the_first_failure_ends_the_rebuild() {
    for failed_at in 0..9 {
        let mut events = smooth_events(4096, vec![(1, 1)], 2);
        events.truncate(failed_at);
        events.push(Event::Failed(failure()));
        let actions = actions_for(&["a:0:50%", "b:50%:100%"], events);
        assert_eq!(actions.len(), failed_at + 2);
        match actions.last().unwrap() {
            Action::Finish(Err(Error::IOError(e))) => {
                assert_eq!(e.kind(), std::io::ErrorKind::PermissionDenied)
            },
            other => panic!("{:?}", other),
        }
        for action in &actions[..failed_at + 1] {
            assert!(!matches!(action, Action::Finish(_)));
        }
    }
}

#[test]
fn a_failed_sector_lookup_ends_the_rebuild() {
    let events = vec![Event::Done, Event::Length(0), Event::Failed(failure())];
    let actions = actions_for(&["0:50%"], events);
    assert!(matches!(actions[3], Action::Finish(Err(Error::IOError(_)))));
}

#[test]
fn nothing_follows_the_end() {
    let (state, _) = Rewriter::new(texts(&["0:50%"]));
    let (state, action) = state.step(Event::Failed(failure())).unwrap();
    assert!(matches!(action, Action::Finish(Err(Error::IOError(_)))));
    assert!(matches!(state, Rewriter::Finished));
    assert!(!state.accepts(&Event::Done));
    assert!(!state.accepts(&Event::Failed(failure())));
    assert!(state.step(Event::Done).is_none());
    assert!(Rewriter::Finished.step(Event::Failed(failure())).is_none());
    assert!(Rewriter::Finished.step(Event::Length(1)).is_none());
}

#[test]
fn an_event_has_to_answer_the_action() {
    let (state, _) = Rewriter::new(texts(&["0:50%"]));
    assert!(state.accepts(&Event::Done));
    assert!(state.accepts(&Event::Failed(failure())));
    assert!(!state.accepts(&Event::Length(1)));
    assert!(!state.accepts(&Event::SectorCount(None)));
    assert!(!state.accepts(&Event::Entries(Vec::new())));
    assert!(state.step(Event::Length(1)).is_none());

    let (state, _) = Rewriter::new(texts(&["0:50%"]));
    let (state, _) = state.step(Event::Done).unwrap();
    assert!(state.accepts(&Event::Length(0)));
    assert!(!state.accepts(&Event::Done));
    assert!(state.step(Event::Done).is_none());

    let (state, _) = Rewriter::new(texts(&["0:50%"]));
    let (state, _) = state.step(Event::Done).unwrap();
    let (state, _) = state.step(Event::Length(0)).unwrap();
    assert!(state.accepts(&Event::SectorCount(None)));
    assert!(!state.accepts(&Event::Length(0)));
    assert!(!state.accepts(&Event::Done));

    let listing = Rewriter::Listing { plan: Vec::new() };
    assert!(listing.accepts(&Event::Entries(Vec::new())));
    assert!(!listing.accepts(&Event::Done));
    assert!(listing.step(Event::Done).is_none());
}

#[test]
fn a_place_past_its_list_moves_on() {
    let plan = vec![planned("a", 1, LINUX_FS)];
    let state = Rewriter::Clearing { plan: plan.clone(), stale: vec![(1, 1)], next: 5 };
    let (state, action) = state.step(Event::Done).unwrap();
    assert!(matches!(state, Rewriter::Adding { next: 0, .. }));
    assert!(matches!(action, Action::AddPartition { partition, .. } if partition == plan[0]));
    let state = Rewriter::Adding { plan, next: usize::MAX };
    let (state, action) = state.step(Event::Done).unwrap();
    assert!(matches!(state, Rewriter::Persisting));
    assert!(matches!(action, Action::Persist));
}

#[test]
fn a_layout_is_read_and_resolved_in_one() {
    let specs = texts(&["boot:0:2miB", "root:2miB:10miB"]);
    assert_eq!(
        layout(&specs, 10485760).unwrap(),
        vec![planned("boot", 2097152, LINUX_FS), planned("root", 8388608, LINUX_FS)]
    );
    assert!(matches!(
        layout(&texts(&["boot:0B:2miB"]), 10485760),
        Err(Error::InvalidPartitionSpecification)
    ));
    assert!(matches!(layout(&texts(&["a:0:1kB:x"]), 4096), Err(Error::InvalidPartitionType)));
    assert!(matches!(layout(&texts(&["10%:5%"]), 4096), Err(Error::InvalidPartitionSpecification)));
}

/// One entry of a table as read back from the device.
#[derive(Debug, PartialEq, Eq)]
struct Written {
    number: u32,
    name: String,
    type_guid: String,
    first_lba: u64,
    last_lba: u64,
}

/// Rebuilds the table on `device`, doing every action that the rebuild asks
/// for on a table of the `gpt` crate, and reads the table back from the
/// bytes of the device.
fn rebuild_on(
    device: gpt::DiskDeviceObject<'static>,
    length: u64,
    specs: &[&str],
) -> (Result<(), Error>, Option<(gpt::DiskDeviceObject<'static>, Vec<Written>)>) {
    let (mut state, mut action) = Rewriter::new(texts(specs));
    let mut device = Some(device);
    let mut disk: Option<gpt::GptDisk<'static>> = None;
    loop {
        let event = match action {
            Action::Finish(outcome) => {
                let written = device.take().map(|device| {
                    let disk = gpt::GptConfig::new()
                        .writable(true)
                        .initialized(true)
                        .open_from_device(device)
                        .unwrap();
                    let entries = disk
                        .partitions()
                        .iter()
                        .map(|(&number, p)| Written {
                            number,
                            name: p.name.clone(),
                            type_guid: p.part_type_guid.guid.to_string(),
                            first_lba: p.first_lba,
                            last_lba: p.last_lba,
                        })
                        .collect();
                    (disk.write(), entries)
                });
                let written = match written {
                    Some((Ok(device), entries)) => Some((device, entries)),
                    _ => None,
                };
                return (outcome, written);
            },
            Action::OpenDevice => Event::Done,
            Action::QueryLength => Event::Length(length),
            Action::QuerySectorCount => Event::SectorCount(None),
            Action::WriteProtectiveRecord { sectors } => {
                let record = gpt::mbr::ProtectiveMBR::with_lb_size(sectors);
                match record.overwrite_lba0(device.as_mut().unwrap()) {
                    Ok(_) => Event::Done,
                    Err(e) => Event::Failed(e),
                }
            },
            Action::InitializeTable => {
                let made = gpt::GptConfig::default()
                    .initialized(false)
                    .writable(true)
                    .logical_block_size(gpt::disk::LogicalBlockSize::Lb512)
                    .create_from_device(device.take().unwrap(), None);
                match made {
                    Ok(mut table) => match table.update_partitions(BTreeMap::new()).map(|_| ()) {
                        Ok(()) => {
                            disk = Some(table);
                            Event::Done
                        },
                        Err(e) => Event::Failed(e),
                    },
                    Err(e) => Event::Failed(e),
                }
            },
            Action::ListEntries => Event::Entries(
                disk.as_ref()
                    .unwrap()
                    .partitions()
                    .iter()
                    .map(|(&number, p)| (number, p.part_guid.as_u128()))
                    .collect(),
            ),
            Action::RemoveEntry { number, guid } => {
                let guid = uuid::Uuid::from_u128(guid);
                match disk.as_mut().unwrap().remove_partition(Some(number), Some(guid)) {
                    Ok(_) => Event::Done,
                    Err(e) => Event::Failed(e),
                }
            },
            Action::AddPartition { partition: p, flags, alignment } => {
                let kind = gpt::partition_types::Type::from_str(&p.partition_type.guid).unwrap();
                let table = disk.as_mut().unwrap();
                match table.add_partition(&p.name, p.size_bytes, kind, flags, alignment) {
                    Ok(_) => Event::Done,
                    Err(e) => Event::Failed(e),
                }
            },
            Action::Persist => match disk.take().unwrap().write() {
                Ok(written) => {
                    device = Some(written);
                    Event::Done
                },
                Err(e) => Event::Failed(e),
            },
        };
        let (next, asked) = state.step(event).expect("the event answers the action");
        state = next;
        action = asked;
    }
}

fn blank(length: usize) -> gpt::DiskDeviceObject<'static> {
    Box::new(Cursor::new(vec![0u8; length]))
}

#[test]
fn a_rebuilt_table_holds_the_planned_partitions() {
    let specs = ["boot:0:2miB", "root:2miB:9miB:linux_root_x64"];
    let (outcome, written) = rebuild_on(blank(10485760), 10485760, &specs);
    assert!(outcome.is_ok(), "{:?}", outcome);
    let (_, entries) = written.unwrap();
    assert_eq!(entries.len(), 2);
    assert_eq!(entries[0].number, 1);
    assert_eq!(entries[0].name, "boot");
    assert_eq!(entries[0].type_guid, LINUX_FS);
    assert_eq!((entries[0].last_lba - entries[0].first_lba + 1) * 512, 2097152);
    assert_eq!(entries[1].number, 2);
    assert_eq!(entries[1].name, "root");
    assert_eq!(entries[1].type_guid, "4F68BCE3-E8CD-4DB1-96E7-FBCAF984B709");
    assert_eq!((entries[1].last_lba - entries[1].first_lba + 1) * 512, 7340032);
    assert!(entries[0].last_lba < entries[1].first_lba);
}

#[test]
fn a_second_rebuild_gives_the_same_table() {
    let specs = ["esp:0:10%:efi", "10%:60%", "home:60%:90%:linux_home"];
    let (outcome, written) = rebuild_on(blank(1 << 24), 1 << 24, &specs);
    assert!(outcome.is_ok(), "{:?}", outcome);
    let (device, first) = written.unwrap();
    let (outcome, written) = rebuild_on(device, 1 << 24, &specs);
    assert!(outcome.is_ok(), "{:?}", outcome);
    let (_, second) = written.unwrap();
    assert_eq!(first.len(), 3);
    assert_eq!(first, second);
}

#[test]
fn a_rebuild_replaces_the_table_that_was_there() {
    let (outcome, written) = rebuild_on(blank(1 << 24), 1 << 24, &["a:0:10%", "b:0:20%", "c:0:30%"]);
    assert!(outcome.is_ok(), "{:?}", outcome);
    let (device, first) = written.unwrap();
    assert_eq!(first.len(), 3);
    let (outcome, written) = rebuild_on(device, 1 << 24, &["only:0:50%:linux_swap"]);
    assert!(outcome.is_ok(), "{:?}", outcome);
    let (_, second) = written.unwrap();
    assert_eq!(second.len(), 1);
    assert_eq!(second[0].name, "only");
    assert_eq!(second[0].type_guid, "0657FD6D-A4AB-43C4-84E5-0933C84B4F4F");
    assert_eq!((second[0].last_lba - second[0].first_lba + 1) * 512, 1 << 23);
}

#[test]
fn a_table_without_room_ends_the_rebuild_with_an_io_error() {
    let specs = ["boot:0:2miB", "root:2miB:10miB"];
    let (outcome, _) = rebuild_on(blank(10485760), 10485760, &specs);
    assert!(matches!(outcome, Err(Error::IOError(_))));
    let (outcome, _) = rebuild_on(blank(256), 256, &["0:50%"]);
    assert!(matches!(outcome, Err(Error::IOError(_))));
}
