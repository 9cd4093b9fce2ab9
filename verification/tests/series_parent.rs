use std::collections::HashMap;
use tdb::fs::{pack, CodecErr};
use tdb::series_block::{SeriesBlock, SeriesBlockErr, Timestamp};
use tdb::series_parent::{
    OwnsPrimaryKey, Series, SeriesParent, WriteStep, DEFAULT_MAX_POINTS_PER_BLOCK,
};

#[derive(Clone, Debug, PartialEq)]
struct TestStruct {
    id: u64,
    s: String,
}

impl OwnsPrimaryKey<u64> for TestStruct {
    fn primary_key(&self) -> u64 {
        self.id
    }

    fn get_primary_key(&self) -> u64 {
        self.id
    }
}

fn point(id: u64, s: &str) -> TestStruct {
    TestStruct { id, s: s.to_string() }
}

/// A directory in memory: the block files by id, the metadata file, a clock.
struct Host {
    blocks: HashMap<u64, Vec<(Timestamp, TestStruct)>>,
    parent: Option<Vec<u8>>,
    clock: u64,
}

impl Host {
    fn new() -> Host {
        Host { blocks: HashMap::new(), parent: None, clock: 0 }
    }

    fn with_capacity(max_points_per_block: u16) -> Host {
        let parent =
            SeriesParent::<TestStruct>::from_parts(vec![], vec![], max_points_per_block).unwrap();
        Host { blocks: HashMap::new(), parent: Some(parent.encode().unwrap()), clock: 0 }
    }

    fn now(&mut self) -> Timestamp {
        self.clock += 1;
        Timestamp::new(self.clock, 0)
    }

    fn load(&self, file: u64) -> Vec<(Timestamp, TestStruct)> {
        self.blocks.get(&file).cloned().unwrap_or_default()
    }

    fn open(&mut self, name: &str) -> Series<TestStruct> {
        let (series, created) =
            Series::init("./", name.to_string(), self.parent.as_deref()).unwrap();
        if created {
            self.parent = Some(series.write_self().unwrap());
        }
        series
    }

    fn write(
        &mut self,
        series: &mut Series<TestStruct>,
        point: TestStruct,
    ) -> Result<(), SeriesBlockErr> {
        let entries = self.load(series.target());
        let now = self.now();
        let step = match series.write(entries, point, now) {
            WriteStep::Rolled { file, point } => {
                let entries = self.load(file);
                let now = self.now();
                series.write_last(entries, point, now)
            }
            step => step,
        };
        match step {
            WriteStep::Stored { file, entries } => {
                self.blocks.insert(file, entries);
                self.parent = Some(series.write_self().unwrap());
                Ok(())
            }
            WriteStep::Failed(e) => Err(e),
            WriteStep::Rolled { .. } => unreachable!(),
        }
    }

    fn read_all(&self, series: &Series<TestStruct>) -> Vec<TestStruct> {
        let loaded = series.block_files().into_iter().map(|file| self.load(file)).collect();
        series.read_all(loaded)
    }

    fn read_by_key(&self, series: &Series<TestStruct>, key: u64) -> Option<TestStruct> {
        let (file, _) = series.locate(&key)?;
        series.read_by_key(&key, self.load(file))
    }
}

#[test]
fn test_series_parent() {
    let mut host = Host::new();

    let mut parent = host.open("test_parent");
    for id in 0..40 {
        host.write(&mut parent, TestStruct { s: format!("hi {:?}", id), id }).unwrap();
    }

    assert_eq!(parent.parent().blocks().len(), 2);

    let res0 = host.read_all(&parent);
    // get parent fresh
    let parent = host.open("test_parent");

    assert_eq!(parent.parent().slot(3).unwrap(), (0, 3));
    assert_eq!(parent.parent().slot(35).unwrap(), (1, 3));

    assert_eq!(host.read_by_key(&parent, 3).unwrap().s.as_str(), "hi 3");

    let res1 = host.read_all(&parent);
    // check consistency
    for res in vec![res0, res1] {
        assert_eq!(res.len(), 40);
        assert_eq!(res.first().unwrap().id, 0);
        assert_eq!(res.last().unwrap().id, 39);
    }

    assert_eq!(
        parent.subdirectory().as_str(),
        "./bc8d1c15e08802d934f9bdabc6d274b608ee31ad"
    );
}

#[test]
fn three_points_in_blocks_of_two() {
    let mut host = Host::with_capacity(2);
    let mut series = host.open("abc");
    host.write(&mut series, point(1, "A")).unwrap();
    host.write(&mut series, point(2, "B")).unwrap();
    host.write(&mut series, point(3, "C")).unwrap();

    let blocks = series.parent().blocks();
    assert_eq!(blocks.len(), 2);
    assert_eq!((blocks[0].id, blocks[0].point_count), (0, 2));
    assert_eq!((blocks[1].id, blocks[1].point_count), (1, 1));

    let strip = |file: u64| SeriesBlock::read_all(host.load(file));
    assert_eq!(strip(0), vec![point(1, "A"), point(2, "B")]);
    assert_eq!(strip(1), vec![point(3, "C")]);

    let mut index = series.parent().index();
    index.sort();
    assert_eq!(index, vec![(1, 0, 0), (2, 0, 1), (3, 1, 0)]);

    assert_eq!(host.read_all(&series), vec![point(1, "A"), point(2, "B"), point(3, "C")]);
}

#[test]
fn appends_fill_one_block_after_the_other() {
    for (capacity, total) in [(1u16, 4u64), (2, 5), (3, 9), (4, 0), (5, 3), (7, 50)] {
        let mut host = Host::with_capacity(capacity);
        let mut series = host.open("fill");
        let mut written = Vec::new();
        for id in 0..total {
            let p = point(id, "p");
            written.push(p.clone());
            host.write(&mut series, p).unwrap();
        }
        assert_eq!(host.read_all(&series), written);

        let each = capacity as u64;
        let blocks = series.parent().blocks();
        assert_eq!(blocks.len() as u64, (total + each - 1) / each);
        for (position, block) in blocks.iter().enumerate() {
            assert_eq!(block.id, position as u64);
            if (position as u64) < total / each {
                assert_eq!(block.point_count, capacity);
                assert_eq!(host.load(block.id).len(), capacity as usize);
            }
        }
    }
}

#[test]
fn no_append_means_no_block() {
    let mut host = Host::new();
    let series = host.open("empty");
    assert_eq!(series.parent().blocks().len(), 0);
    assert_eq!(series.block_files(), Vec::<u64>::new());
    assert_eq!(host.read_all(&series), vec![]);
    assert_eq!(series.target(), 0);
}

#[test]
fn the_last_write_of_a_key_wins() {
    let mut host = Host::with_capacity(2);
    let mut series = host.open("keys");
    host.write(&mut series, point(7, "first")).unwrap();
    assert_eq!(host.read_by_key(&series, 7), Some(point(7, "first")));
    host.write(&mut series, point(8, "other")).unwrap();
    host.write(&mut series, point(7, "second")).unwrap();

    assert_eq!(host.read_by_key(&series, 7), Some(point(7, "second")));
    assert_eq!(series.parent().slot(7), Some((1, 0)));
    assert_eq!(host.read_by_key(&series, 8), Some(point(8, "other")));
    assert_eq!(
        host.read_all(&series),
        vec![point(7, "first"), point(8, "other"), point(7, "second")]
    );
}

#[test]
fn a_block_one_short_of_full_is_filled_and_the_next_append_rolls() {
    let mut host = Host::with_capacity(3);
    let mut series = host.open("boundary");
    host.write(&mut series, point(1, "a")).unwrap();
    host.write(&mut series, point(2, "b")).unwrap();
    assert_eq!(series.parent().blocks()[0].point_count, 2);

    host.write(&mut series, point(3, "c")).unwrap();
    assert_eq!(series.parent().blocks().len(), 1);
    assert_eq!(series.parent().blocks()[0].point_count, 3);

    let previous = series.parent().blocks()[0].id;
    host.write(&mut series, point(4, "d")).unwrap();
    assert_eq!(series.parent().blocks().len(), 2);
    assert_eq!(series.parent().blocks()[1].id, previous + 1);
    assert_eq!(series.parent().blocks()[1].point_count, 1);
}

#[test]
fn write_answers_with_the_entries_to_store() {
    let mut host = Host::with_capacity(2);
    let mut series = host.open("steps");
    let t1 = Timestamp::new(5, 1);
    let t2 = Timestamp::new(6, 2);
    let t3 = Timestamp::new(7, 3);

    let first = match series.write(vec![], point(1, "a"), t1) {
        WriteStep::Stored { file, entries } => {
            assert_eq!(file, 0);
            entries
        }
        _ => panic!("the first point was not placed"),
    };
    assert_eq!(first, vec![(t1, point(1, "a"))]);
    assert_eq!(
        series.parent().blocks(),
        &vec![SeriesBlock { id: 0, point_count: 1, from: t1, to: t1 }]
    );

    let second = match series.write(first, point(2, "b"), t2) {
        WriteStep::Stored { file, entries } => {
            assert_eq!(file, 0);
            entries
        }
        _ => panic!("the second point was not placed"),
    };
    assert_eq!(second, vec![(t1, point(1, "a")), (t2, point(2, "b"))]);
    assert_eq!(
        series.parent().blocks(),
        &vec![SeriesBlock { id: 0, point_count: 2, from: t1, to: t2 }]
    );

    let back = match series.write(second, point(3, "c"), t3) {
        WriteStep::Rolled { file, point } => {
            assert_eq!(file, 1);
            point
        }
        _ => panic!("a full block did not roll over"),
    };
    assert_eq!(back, point(3, "c"));
    assert_eq!(series.target(), 1);
    assert_eq!(series.parent().blocks().len(), 2);
    assert_eq!(series.parent().blocks()[1], SeriesBlock::default().next_block());
    assert_eq!(series.parent().slot(3), None);

    match series.write_last(vec![], back, t3) {
        WriteStep::Stored { file, entries } => {
            assert_eq!(file, 1);
            assert_eq!(entries, vec![(t3, point(3, "c"))]);
        }
        _ => panic!("the fresh block did not take the point"),
    }
    assert_eq!(series.parent().slot(3), Some((1, 0)));
    assert_eq!(
        series.parent().blocks()[1],
        SeriesBlock { id: 1, point_count: 1, from: t3, to: t3 }
    );
}

#[test]
fn a_chain_of_no_capacity_refuses_every_point() {
    let mut host = Host::with_capacity(0);
    let mut series = host.open("nothing");
    assert!(matches!(
        host.write(&mut series, point(1, "a")),
        Err(SeriesBlockErr::BlockAtCapacity(0))
    ));
    assert_eq!(series.parent().blocks().len(), 0);
    assert_eq!(series.parent().index(), vec![]);
}

#[test]
fn a_full_file_behind_the_last_block_fails_the_append() {
    let mut host = Host::with_capacity(1);
    let mut series = host.open("stale");
    host.write(&mut series, point(1, "a")).unwrap();
    host.blocks.insert(1, vec![(Timestamp::new(0, 0), point(9, "left over"))]);

    assert!(matches!(
        host.write(&mut series, point(2, "b")),
        Err(SeriesBlockErr::BlockAtCapacity(1))
    ));
    assert_eq!(series.parent().blocks().len(), 2);
    assert_eq!(series.parent().slot(2), None);
    assert_eq!(host.load(1), vec![(Timestamp::new(0, 0), point(9, "left over"))]);
}

#[test]
fn write_last_never_rolls() {
    let mut host = Host::with_capacity(1);
    let mut series = host.open("last");
    host.write(&mut series, point(1, "a")).unwrap();
    let full = host.load(0);
    assert!(matches!(
        series.write_last(full, point(2, "b"), Timestamp::new(9, 9)),
        WriteStep::Failed(SeriesBlockErr::BlockAtCapacity(1))
    ));
    assert_eq!(series.parent().blocks().len(), 1);
}

#[test]
fn a_lookup_finds_nothing_for_an_unknown_key() {
    let mut host = Host::new();
    let mut series = host.open("lookup");
    host.write(&mut series, point(1, "a")).unwrap();
    assert_eq!(series.locate(&2), None);
    assert_eq!(series.read_by_key(&2, host.load(0)), None);
    assert_eq!(host.read_by_key(&series, 2), None);
}

#[test]
fn a_lookup_finds_nothing_where_the_file_ends_before_the_offset() {
    let mut host = Host::new();
    let mut series = host.open("short");
    host.write(&mut series, point(1, "a")).unwrap();
    host.write(&mut series, point(2, "b")).unwrap();
    assert_eq!(series.locate(&2), Some((0, 1)));

    let mut cut = host.load(0);
    cut.truncate(1);
    assert_eq!(series.read_by_key(&2, cut.clone()), None);
    assert_eq!(series.read_by_key(&1, cut), Some(point(1, "a")));
    assert_eq!(series.read_by_key(&2, vec![]), None);
}

#[test]
fn a_lookup_finds_nothing_where_the_slot_names_no_block() {
    let parent = SeriesParent::<TestStruct>::from_parts(
        vec![SeriesBlock { id: 0, point_count: 1, from: Timestamp::new(1, 0), to: Timestamp::new(1, 0) }],
        vec![(5, 3, 0), (6, 0, 0)],
        4,
    )
    .unwrap();
    let stored = parent.encode().unwrap();
    let (series, created) = Series::<TestStruct>::init("db", "s".to_string(), Some(&stored)).unwrap();
    assert!(!created);
    assert_eq!(series.locate(&5), None);
    assert_eq!(series.locate(&6), Some((0, 0)));
    let entries = vec![(Timestamp::new(1, 0), point(6, "x"))];
    assert_eq!(series.read_by_key(&5, entries.clone()), None);
    assert_eq!(series.read_by_key(&6, entries), Some(point(6, "x")));
}

#[test]
fn a_lookup_goes_by_position_and_not_by_key() {
    let mut host = Host::new();
    let mut series = host.open("position");
    host.write(&mut series, point(1, "a")).unwrap();
    let other = vec![(Timestamp::new(1, 0), point(99, "someone else"))];
    assert_eq!(series.read_by_key(&1, other), Some(point(99, "someone else")));
}

#[test]
fn read_all_joins_the_blocks_in_order() {
    let mut host = Host::new();
    let series = host.open("join");
    let t = Timestamp::new(1, 0);
    let loaded = vec![
        vec![(t, point(1, "a")), (t, point(2, "b"))],
        vec![],
        vec![(t, point(3, "c"))],
    ];
    assert_eq!(series.read_all(loaded), vec![point(1, "a"), point(2, "b"), point(3, "c")]);
    assert_eq!(series.read_all(vec![]), vec![]);
}

#[test]
fn a_new_series_gets_the_default_chain() {
    let (series, created) = Series::<TestStruct>::init("/mnt/db", "fresh".to_string(), None).unwrap();
    assert!(created);
    assert_eq!(series.parent().blocks().len(), 0);
    assert_eq!(series.parent().index(), vec![]);
    assert_eq!(series.parent().max_points_per_block(), 32);
    assert_eq!(DEFAULT_MAX_POINTS_PER_BLOCK, 32);

    let parent = SeriesParent::<TestStruct>::default();
    assert_eq!(parent.blocks().len(), 0);
    assert_eq!(parent.max_points_per_block(), 32);
}

#[test]
fn two_handles_of_one_name_share_the_directory() {
    let (first, _) = Series::<TestStruct>::init("/mnt/db", "shared".to_string(), None).unwrap();
    let (second, _) = Series::<TestStruct>::init("/mnt/db", "shared".to_string(), None).unwrap();
    assert_eq!(first.subdirectory(), second.subdirectory());
    assert_eq!(
        first.subdirectory().as_str(),
        "/mnt/db/d18aac96b905b4b3c839891b7a91c9414149514c"
    );
}

#[test]
fn the_directory_of_a_series_is_joined_as_paths_are() {
    for mount in ["", ".", "./", "/", "/mnt/db", "/mnt/db/", "rel"] {
        let (series, _) = Series::<TestStruct>::init(mount, "test_parent".to_string(), None).unwrap();
        let expected =
            std::path::PathBuf::from(mount).join("bc8d1c15e08802d934f9bdabc6d274b608ee31ad");
        assert_eq!(series.subdirectory().as_str(), expected.to_str().unwrap());
    }
    let (series, _) = Series::<TestStruct>::init("", "test_parent".to_string(), None).unwrap();
    assert_eq!(series.subdirectory().as_str(), "bc8d1c15e08802d934f9bdabc6d274b608ee31ad");
}

#[test]
fn reload_puts_the_chain_back_to_the_stored_one() {
    let mut host = Host::with_capacity(2);
    let mut series = host.open("reload");
    host.write(&mut series, point(1, "a")).unwrap();
    let stored = host.parent.clone().unwrap();

    // an append whose block never reaches the disk
    match series.write(host.load(0), point(2, "b"), Timestamp::new(9, 0)) {
        WriteStep::Stored { .. } => {}
        _ => panic!("the point was not placed"),
    }
    assert_eq!(series.parent().slot(2), Some((0, 1)));
    assert_eq!(series.parent().blocks()[0].point_count, 2);

    series.reload(&stored).unwrap();
    assert_eq!(series.parent().slot(2), None);
    assert_eq!(series.parent().slot(1), Some((0, 0)));
    assert_eq!(series.parent().blocks()[0].point_count, 1);
    assert_eq!(series.subdirectory().as_str(), "./d6e6e576541fa2152f6fc490b0e99e20c953988c");

    // the next append takes the slot that the lost one had
    host.write(&mut series, point(3, "c")).unwrap();
    assert_eq!(series.parent().slot(3), Some((0, 1)));
    assert_eq!(host.read_by_key(&series, 3), Some(point(3, "c")));
}

#[test]
fn reload_keeps_the_chain_where_the_bytes_are_refused() {
    let mut host = Host::with_capacity(2);
    let mut series = host.open("reload");
    host.write(&mut series, point(1, "a")).unwrap();
    assert!(matches!(series.reload(b"no gzip"), Err(CodecErr::Gzip(_))));
    assert_eq!(series.parent().slot(1), Some((0, 0)));
    assert_eq!(series.parent().blocks().len(), 1);
    assert_eq!(series.parent().max_points_per_block(), 2);
}

#[test]
fn a_key_keeps_its_point_while_other_keys_are_written() {
    let mut host = Host::with_capacity(3);
    let mut series = host.open("run");
    host.write(&mut series, point(5, "old")).unwrap();
    host.write(&mut series, point(5, "new")).unwrap();
    let mut expected = vec![point(5, "old"), point(5, "new")];
    for id in 10..20 {
        host.write(&mut series, point(id, "other")).unwrap();
        expected.push(point(id, "other"));
        assert_eq!(host.read_by_key(&series, 5), Some(point(5, "new")));
    }
    assert_eq!(host.read_all(&series), expected);
    assert_eq!(series.parent().index().iter().filter(|pair| pair.0 == 5).count(), 1);
}

#[test]
fn the_last_block_holds_the_rest() {
    for (capacity, total) in [(2u16, 5u64), (3, 10), (4, 7), (32, 40)] {
        let mut host = Host::with_capacity(capacity);
        let mut series = host.open("rest");
        for id in 0..total {
            host.write(&mut series, point(id, "p")).unwrap();
        }
        let rest = (total % capacity as u64) as u16;
        let last = *series.parent().blocks().last().unwrap();
        assert_eq!(last.point_count, rest);
        assert_eq!(host.load(last.id).len(), rest as usize);
        let stored = SeriesParent::<TestStruct>::decode(host.parent.as_ref().unwrap()).unwrap();
        assert_eq!(stored.blocks(), series.parent().blocks());
    }
}

#[test]
fn two_handles_of_one_series_read_the_same() {
    let mut host = Host::with_capacity(3);
    let mut writer = host.open("twice");
    for id in 0..7 {
        host.write(&mut writer, point(id, "p")).unwrap();
    }
    let first = host.open("twice");
    let second = host.open("twice");
    assert_eq!(host.read_all(&first), host.read_all(&second));
    assert_eq!(host.read_all(&first), host.read_all(&writer));
    assert_eq!(host.read_all(&first).len(), 7);
    assert_eq!(first.parent().blocks(), writer.parent().blocks());
}

#[test]
fn a_chain_comes_back_from_its_bytes() {
    let blocks = vec![
        SeriesBlock { id: 0, point_count: 2, from: Timestamp::new(1, 2), to: Timestamp::new(3, 4) },
        SeriesBlock { id: 1, point_count: 1, from: Timestamp::new(5, 6), to: Timestamp::new(5, 6) },
    ];
    let parent = SeriesParent::<TestStruct>::from_parts(
        blocks.clone(),
        vec![(10, 0, 0), (11, 0, 1), (12, 1, 0)],
        2,
    )
    .unwrap();
    let raw = parent.encode().unwrap();
    let back = SeriesParent::<TestStruct>::decode(&raw).unwrap();
    assert_eq!(back.blocks(), &blocks);
    let mut index = back.index();
    index.sort();
    assert_eq!(index, vec![(10, 0, 0), (11, 0, 1), (12, 1, 0)]);
    assert_eq!(back.max_points_per_block(), 2);
}

#[test]
fn the_bytes_of_a_chain_have_the_fixed_layout() {
    let parent = SeriesParent::<TestStruct>::from_parts(
        vec![SeriesBlock { id: 0, point_count: 1, from: Timestamp::new(2, 3), to: Timestamp::new(4, 5) }],
        vec![(7, 0, 0)],
        9,
    )
    .unwrap();
    let bin = tdb::fs::unpack(&parent.encode().unwrap()).unwrap();
    let mut expected: Vec<u8> = Vec::new();
    expected.extend_from_slice(&1u64.to_le_bytes());
    expected.extend_from_slice(&0u64.to_le_bytes());
    expected.extend_from_slice(&1u16.to_le_bytes());
    expected.extend_from_slice(&2u64.to_le_bytes());
    expected.extend_from_slice(&3u32.to_le_bytes());
    expected.extend_from_slice(&4u64.to_le_bytes());
    expected.extend_from_slice(&5u32.to_le_bytes());
    expected.extend_from_slice(&1u64.to_le_bytes());
    expected.extend_from_slice(&7u64.to_le_bytes());
    expected.extend_from_slice(&0u64.to_le_bytes());
    expected.extend_from_slice(&0u64.to_le_bytes());
    expected.extend_from_slice(&9u16.to_le_bytes());
    assert_eq!(bin, expected);
}

#[test]
fn decode_refuses_what_is_no_gzip_stream() {
    assert!(matches!(
        SeriesParent::<TestStruct>::decode(b"certainly not gzip"),
        Err(CodecErr::Gzip(_))
    ));
    assert!(matches!(SeriesParent::<TestStruct>::decode(&[]), Err(CodecErr::Gzip(_))));
    assert!(Series::<TestStruct>::init("db", "s".to_string(), Some(&[1, 2, 3])).is_err());
}

#[test]
fn decode_refuses_bytes_of_another_layout() {
    let raw = pack(&[1, 2, 3]).unwrap();
    assert!(matches!(SeriesParent::<TestStruct>::decode(&raw), Err(CodecErr::Layout(_))));
}

#[test]
fn decode_refuses_blocks_whose_ids_do_not_count_up() {
    let records: Vec<(u64, u16, (u64, u32), (u64, u32))> =
        vec![(0, 1, (0, 0), (0, 0)), (2, 0, (0, 0), (0, 0))];
    let slots: Vec<(u64, u64, u64)> = vec![];
    let raw = pack(&bincode::serialize(&(records, slots, 4u16)).unwrap()).unwrap();
    assert!(matches!(SeriesParent::<TestStruct>::decode(&raw), Err(CodecErr::BlockIds)));
}

#[test]
fn decode_lets_the_later_of_two_entries_with_one_key_stand() {
    let records: Vec<(u64, u16, (u64, u32), (u64, u32))> = vec![(0, 2, (0, 0), (0, 0))];
    let slots: Vec<(u64, u64, u64)> = vec![(5, 0, 0), (5, 0, 1)];
    let raw = pack(&bincode::serialize(&(records, slots, 4u16)).unwrap()).unwrap();
    let parent = SeriesParent::<TestStruct>::decode(&raw).unwrap();
    assert_eq!(parent.slot(5), Some((0, 1)));
    assert_eq!(parent.index(), vec![(5, 0, 1)]);
}

#[test]
fn from_parts_wants_ids_that_count_up_from_zero() {
    let block = |id: u64| SeriesBlock {
        id,
        point_count: 0,
        from: Timestamp::new(0, 0),
        to: Timestamp::new(0, 0),
    };
    assert!(SeriesParent::<TestStruct>::from_parts(vec![], vec![], 1).is_some());
    assert!(SeriesParent::<TestStruct>::from_parts(vec![block(0), block(1)], vec![], 1).is_some());
    assert!(SeriesParent::<TestStruct>::from_parts(vec![block(1)], vec![], 1).is_none());
    assert!(SeriesParent::<TestStruct>::from_parts(vec![block(0), block(0)], vec![], 1).is_none());
    assert!(SeriesParent::<TestStruct>::from_parts(vec![block(0), block(2)], vec![], 1).is_none());
}

#[test]
fn the_index_holds_each_key_once() {
    let parent = SeriesParent::<TestStruct>::from_parts(
        vec![],
        vec![(1, 0, 0), (2, 0, 1), (1, 4, 2), (3, 0, 2)],
        8,
    )
    .unwrap();
    let mut index = parent.index();
    index.sort();
    assert_eq!(index, vec![(1, 4, 2), (2, 0, 1), (3, 0, 2)]);
    assert_eq!(parent.slot(1), Some((4, 2)));
    assert_eq!(parent.slot(4), None);
}
