use bytes::Bytes;
use moq_mmtp::kvp::ExtensionHeaders;
use moq_mmtp::serve::datagram::{Datagram, Datagrams, DatagramsReader, DatagramsState};
use moq_mmtp::serve::object::{
    ObjectStatus, SubgroupObject, SubgroupObjectReader, SubgroupReader, SubgroupState,
};
use moq_mmtp::serve::subgroup::{Subgroup, Subgroups, SubgroupsReader, SubgroupsState};
use moq_mmtp::serve::{ReadOutcome, ServeError};

fn shred(group_id: u64) -> Datagram {
    Datagram {
        group_id,
        object_id: 0,
        priority: 0,
        payload: Bytes::from(vec![(group_id % 251) as u8; 1_228]),
        extension_headers: ExtensionHeaders::default(),
    }
}

fn read(reader: &mut DatagramsReader, state: &DatagramsState) -> Option<Datagram> {
    match reader.read(state) {
        ReadOutcome::Item(datagram) => Some(datagram),
        ReadOutcome::Closed(error) => panic!("closed: {error:?}"),
        ReadOutcome::End => None,
        ReadOutcome::Pending => panic!("nothing there yet"),
    }
}

#[test]
fn depth_one_keeps_latest_and_counts_superseded_datagrams() {
    let (mut state, mut writer, mut reader) = Datagrams {}.produce();

    // 1M production-sized shreds is >3.5 hours of input at 78 groups/sec.
    for group_id in 0..1_000_000 {
        writer.write(&mut state, shred(group_id)).unwrap();
    }

    let latest = read(&mut reader, &state).unwrap();
    assert_eq!(latest.group_id, 999_999);
    assert_eq!(latest.payload.len(), 1_228);
    assert_eq!(reader.dropped(), 999_999);
}

#[test]
fn bounded_ring_retains_exactly_the_window_and_drains_in_order() {
    const DEPTH: usize = 256;
    let (mut state, mut writer, mut reader) = Datagrams {}.produce_with_depth(DEPTH);

    for group_id in 0..1_000_000 {
        writer.write(&mut state, shred(group_id)).unwrap();
    }
    state.drop_side(); // close: reader drains the retained window then EOFs

    let mut got = Vec::new();
    while let Some(datagram) = read(&mut reader, &state) {
        got.push(datagram.group_id);
    }

    assert_eq!(got.len(), DEPTH, "reader recovers exactly the ring window");
    assert_eq!(got[0], (1_000_000 - DEPTH as u64), "oldest retained first");
    assert_eq!(*got.last().unwrap(), 999_999, "newest retained last");
    assert!(got.windows(2).all(|w| w[1] == w[0] + 1), "in write order");
    assert_eq!(reader.dropped(), 1_000_000 - DEPTH as u64);
}

#[test]
fn keeping_up_reader_loses_nothing_within_the_window() {
    // Interleaved write/read within the window: no drops.
    let (mut state, mut writer, mut reader) = Datagrams {}.produce_with_depth(4);

    for group_id in 0..32 {
        writer.write(&mut state, shred(group_id)).unwrap();
        let got = read(&mut reader, &state).unwrap();
        assert_eq!(got.group_id, group_id);
    }
    assert_eq!(reader.dropped(), 0);
}

#[test]
fn datagram_track_closes_once() {
    let (mut state, mut writer, mut reader) = Datagrams {}.produce_with_depth(0);
    assert!(matches!(reader.read(&state), ReadOutcome::Pending));
    assert_eq!(reader.latest(&state), None);
    writer.write(&mut state, shred(3)).unwrap();
    assert_eq!(reader.latest(&state), Some((3, 0)));
    assert!(!reader.is_closed(&state));
    writer.close(&mut state, ServeError::Closed(7)).unwrap();
    assert!(reader.is_closed(&state));
    assert!(matches!(reader.read(&state), ReadOutcome::Item(_)));
    assert!(matches!(
        reader.read(&state),
        ReadOutcome::Closed(ServeError::Closed(7))
    ));
    let (mut gone, mut orphan, _) = Datagrams {}.produce();
    gone.drop_side();
    assert_eq!(
        orphan.write(&mut gone, shred(0)),
        Err(ServeError::Cancel)
    );
    assert_eq!(
        orphan.close(&mut gone, ServeError::Done),
        Err(ServeError::Cancel)
    );
}

fn subgroup(group_id: u64, subgroup_id: u64) -> Subgroup {
    Subgroup {
        group_id,
        subgroup_id,
        priority: 0,
    }
}

fn next(reader: &mut SubgroupsReader, state: &mut SubgroupsState) -> Option<(u64, u64)> {
    match reader.next(state) {
        ReadOutcome::Item(s) => Some((s.group_id, s.subgroup_id)),
        ReadOutcome::Closed(error) => panic!("closed: {error:?}"),
        ReadOutcome::End => None,
        ReadOutcome::Pending => panic!("nothing there yet"),
    }
}

fn collect(reader: &mut SubgroupsReader, state: &mut SubgroupsState) -> Vec<(u64, u64)> {
    let mut got = Vec::new();
    while let Some(key) = next(reader, state) {
        got.push(key);
    }
    got
}

#[test]
fn delivers_all_subgroups_in_one_group() {
    let (mut state, mut writer, mut reader) = Subgroups {}.produce();
    writer.create(&mut state, subgroup(0, 0)).unwrap();
    writer.create(&mut state, subgroup(0, 1)).unwrap();
    state.drop_side();
    assert_eq!(
        collect(&mut reader, &mut state),
        vec![(0, 0), (0, 1)],
        "both subgroups of group 0 must be delivered (latest-wins drops subgroup 0)"
    );
}

#[test]
fn create_rejects_duplicate_group_subgroup() {
    let (mut state, mut writer, _reader) = Subgroups {}.produce();
    writer.create(&mut state, subgroup(0, 0)).unwrap();
    let dup = writer.create(&mut state, subgroup(0, 0));
    assert!(
        matches!(dup, Err(ServeError::Duplicate)),
        "repeated (group,subgroup) must return ServeError::Duplicate"
    );
}

#[test]
fn consume_prune_then_recreate_is_duplicate() {
    let (mut state, mut writer, mut reader) = Subgroups {}.produce();
    writer.create(&mut state, subgroup(0, 0)).unwrap();
    assert_eq!(next(&mut reader, &mut state), Some((0, 0)));

    writer.create(&mut state, subgroup(1, 0)).unwrap();
    assert_eq!(
        state.first_index(),
        1,
        "creating the next subgroup must prune the consumed payload"
    );
    assert_eq!(state.retired_through(), Some((0, 0)));

    let duplicate = writer.create(&mut state, subgroup(0, 0));
    assert!(
        matches!(duplicate, Err(ServeError::Duplicate)),
        "payload pruning must not release ownership of an ordering key"
    );
}

#[test]
fn create_rejects_key_behind_retired_frontier() {
    let (mut state, mut writer, mut reader) = Subgroups {}.produce();
    writer.create(&mut state, subgroup(5, 0)).unwrap();
    assert_eq!(next(&mut reader, &mut state), Some((5, 0)));
    writer.create(&mut state, subgroup(6, 0)).unwrap();
    assert_eq!(state.retired_through(), Some((5, 0)));

    let late_hole = writer.create(&mut state, subgroup(4, u64::MAX));
    assert!(
        matches!(late_hole, Err(ServeError::Duplicate)),
        "keys behind the bounded reclamation frontier must fail closed"
    );
}

#[test]
fn cloned_readers_each_receive_all_subgroups() {
    let (mut state, mut writer, mut reader) = Subgroups {}.produce();
    writer.create(&mut state, subgroup(0, 0)).unwrap();
    writer.create(&mut state, subgroup(0, 1)).unwrap();
    state.drop_side();

    let mut reader2 = reader.fork(&mut state);
    assert_eq!(collect(&mut reader, &mut state), vec![(0, 0), (0, 1)]);
    assert_eq!(collect(&mut reader2, &mut state), vec![(0, 0), (0, 1)]);
}

#[test]
fn append_creates_increasing_groups_all_delivered() {
    let (mut state, mut writer, mut reader) = Subgroups {}.produce();
    writer.append(&mut state, 0).unwrap();
    writer.append(&mut state, 0).unwrap();
    state.drop_side();
    assert_eq!(collect(&mut reader, &mut state), vec![(0, 0), (1, 0)]);
}

#[test]
fn out_of_order_create_does_not_regress_append_group_id() {
    let (mut state, mut writer, mut reader) = Subgroups {}.produce();
    writer.create(&mut state, subgroup(5, 0)).unwrap();
    writer.create(&mut state, subgroup(4, 0)).unwrap();
    let appended = writer.append(&mut state, 0).unwrap();
    assert_eq!(appended.group_id, 6);
    state.drop_side();
    assert_eq!(
        collect(&mut reader, &mut state),
        vec![(5, 0), (4, 0), (6, 0)]
    );
}

#[test]
fn bounds_payload_and_identity_retention() {
    const SUBGROUP_COUNT: usize = 4096;

    let (mut state, mut writer, mut reader) = Subgroups {}.produce();
    for group_id in 0..SUBGROUP_COUNT {
        let created = writer.append(&mut state, 0).unwrap();
        assert_eq!(created.group_id, group_id as u64);
        assert_eq!(next(&mut reader, &mut state), Some((group_id as u64, 0)));
    }

    assert_eq!(state.retained(), 1, "retain only the late-join tail");
    assert_eq!(state.first_index(), SUBGROUP_COUNT - 1);
    assert_eq!(
        state.retired_through(),
        Some(((SUBGROUP_COUNT - 2) as u64, 0)),
        "retired identity ownership must collapse into one frontier"
    );
}

#[test]
fn dropping_lagging_reader_releases_its_backlog() {
    const SUBGROUP_COUNT: usize = 4096;

    let (mut state, mut writer, mut reader) = Subgroups {}.produce();
    let lagging = reader.fork(&mut state);
    for _ in 0..SUBGROUP_COUNT {
        writer.append(&mut state, 0).unwrap();
        next(&mut reader, &mut state).expect("created subgroup");
    }

    assert_eq!(
        state.retained(),
        SUBGROUP_COUNT,
        "the lagging reader still needs the backlog"
    );
    lagging.release(&mut state);
    assert_eq!(
        state.retained(),
        1,
        "dropping the lagging reader releases consumed payloads"
    );
}

#[test]
fn track_template_does_not_pin_published_history() {
    const SUBGROUP_COUNT: usize = 4096;

    let (mut state, mut writer, first) = Subgroups {}.produce();
    let template = first.into_template(&mut state);
    for _ in 0..SUBGROUP_COUNT {
        writer.append(&mut state, 0).unwrap();
    }

    let mut reader = template.fork(&mut state);
    assert_eq!(state.retained(), 1, "template must not retain history");
    assert_eq!(state.first_index(), SUBGROUP_COUNT - 1);
    assert_eq!(
        next(&mut reader, &mut state),
        Some(((SUBGROUP_COUNT - 1) as u64, 0))
    );
}

#[test]
fn track_template_clone_starts_at_tail_while_reader_lags() {
    let (mut state, mut writer, first) = Subgroups {}.produce();
    let template = first.into_template(&mut state);
    writer.append(&mut state, 0).unwrap();

    let lagging = template.fork(&mut state);
    writer.append(&mut state, 0).unwrap();
    writer.append(&mut state, 0).unwrap();

    assert_eq!(
        state.retained(),
        3,
        "the lagging active reader must pin its unread payloads"
    );
    let mut active_clone = lagging.fork(&mut state);
    let mut late_joiner = template.fork(&mut state);
    state.drop_side();

    assert_eq!(
        next(&mut active_clone, &mut state),
        Some((0, 0)),
        "a clone of an active reader must inherit its source cursor"
    );
    assert_eq!(next(&mut late_joiner, &mut state), Some((2, 0)));
    assert_eq!(
        next(&mut late_joiner, &mut state),
        None,
        "a Track late joiner must not inherit another reader's backlog"
    );
}

#[test]
fn subgroup_track_closes_once() {
    let (mut state, mut writer, mut reader) = Subgroups {}.produce();
    assert!(matches!(reader.next(&mut state), ReadOutcome::Pending));
    writer.append(&mut state, 0).unwrap();
    writer.close(&mut state, ServeError::Closed(9)).unwrap();
    assert!(reader.is_closed(&state));
    assert_eq!(state.close(ServeError::Done), Err(ServeError::Closed(9)));
    assert_eq!(next(&mut reader, &mut state), Some((0, 0)));
    assert!(matches!(
        reader.next(&mut state),
        ReadOutcome::Closed(ServeError::Closed(9))
    ));
    let (mut gone, mut orphan, _) = Subgroups {}.produce();
    gone.drop_side();
    assert_eq!(orphan.append(&mut gone, 0), Err(ServeError::Cancel));
    assert_eq!(reader.latest(&state), None);
    state.record((4, 2));
    assert_eq!(reader.latest(&state), Some((4, 2)));
    state.record((4, 1));
    assert_eq!(
        reader.latest(&state),
        Some((4, 2)),
        "the mark of the track never goes back"
    );
}

#[test]
fn objects_are_written_in_chunks_up_to_their_size() {
    let (mut state, mut writer, mut reader) = SubgroupState::produce(subgroup(7, 0));
    let mut largest = Some((7, 9));
    let mut object = writer.create(&mut state, &mut largest, 5, None).unwrap();
    assert_eq!(largest, Some((7, 9)), "the mark only moves forward");
    writer
        .write_chunk(&mut state, 0, &mut object, Bytes::from_static(b"abc"))
        .unwrap();
    assert_eq!(
        writer.write_chunk(&mut state, 0, &mut object, Bytes::from_static(b"def")),
        Err(ServeError::Size)
    );
    assert!(matches!(reader.read_next(&state), ReadOutcome::Pending));
    assert_eq!(reader.pos(), 0, "an object that is being written is waited for");
    writer
        .write_chunk(&mut state, 0, &mut object, Bytes::from_static(b"de"))
        .unwrap();

    let mut chunks = SubgroupObjectReader::clone(&reader_of_object());
    let first = state.object(0).unwrap();
    let mut got = Vec::new();
    while let ReadOutcome::Item(chunk) = chunks.read(first) {
        got.push(chunk);
    }
    assert_eq!(got, vec![Bytes::from_static(b"abc"), Bytes::from_static(b"de")]);
    assert!(matches!(reader.read_next(&state), ReadOutcome::Pending));

    writer
        .write(&mut state, &mut largest, Bytes::from_static(b"whole"))
        .unwrap();
    assert_eq!(reader.latest(&state), Some(1));
    assert!(
        matches!(reader.read_next(&state), ReadOutcome::Pending),
        "no object is passed over"
    );
    writer.release_object(&mut state, 0, object);
    match reader.read_next(&state) {
        ReadOutcome::Item(all) => assert_eq!(all, Bytes::from_static(b"abcde")),
        _ => panic!("the object is whole"),
    }
    match reader.read_next(&state) {
        ReadOutcome::Item(all) => assert_eq!(all, Bytes::from_static(b"whole")),
        _ => panic!("a whole object is readable at once"),
    }
    assert_eq!((reader.pos(), reader.len(&state)), (2, 2));
    assert!(!reader.is_empty(&state) && !writer.is_empty(&state));
    assert_eq!(writer.len(&state), 2);

    writer.close(&mut state, ServeError::Done).unwrap();
    assert!(matches!(
        reader.next(&state),
        ReadOutcome::Closed(ServeError::Done)
    ));
}

fn reader_of_object() -> SubgroupObjectReader {
    let (_, _, reader) =
        SubgroupObject::produce(0, 0, ObjectStatus::NormalObject, ExtensionHeaders::default());
    reader
}

#[test]
fn an_object_that_stays_short_is_closed_for_it() {
    let (mut object, mut writer, mut reader) =
        SubgroupObject::produce(0, 4, ObjectStatus::NormalObject, ExtensionHeaders::default());
    writer
        .write(&mut object, Bytes::from_static(b"ab"))
        .unwrap();
    assert!(matches!(reader.read_all(&object), ReadOutcome::Pending));
    writer.release(&mut object);
    assert!(matches!(
        reader.read_all(&object),
        ReadOutcome::Closed(ServeError::Size)
    ));

    let (mut full, mut writer, mut reader) =
        SubgroupObject::produce(1, 2, ObjectStatus::NormalObject, ExtensionHeaders::default());
    writer.write(&mut full, Bytes::from_static(b"a")).unwrap();
    assert!(matches!(reader.read_all(&full), ReadOutcome::Pending));
    writer.write(&mut full, Bytes::from_static(b"b")).unwrap();
    assert!(matches!(reader.read_all(&full), ReadOutcome::Pending));
    writer.release(&mut full);
    match reader.read_all(&full) {
        ReadOutcome::Item(all) => assert_eq!(all, Bytes::from_static(b"ab")),
        _ => panic!("the object is complete"),
    }
    let (mut early, writer, _) =
        SubgroupObject::produce(2, 1, ObjectStatus::NormalObject, ExtensionHeaders::default());
    assert_eq!(
        writer.close(&mut early, ServeError::Done),
        Err(ServeError::Size)
    );
    let _ = SubgroupReader::start();
}
