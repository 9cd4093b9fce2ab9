//! The segment chain of a series: its blocks, in order, and its key index.
//!
//! The chain decides which block an append goes to and when a new block is
//! allocated. It never touches a file: the host loads what a block's file holds,
//! hands it in, and stores what comes back.

use crate::fs::{
    chain_deserialized, deserialize_chain, gzip_decoded, joined, pack, serialize_chain, template,
    unpack, BlockRecord, ChainRecord, CodecErr, SlotRecord,
};
use crate::key_index::{index_get, index_insert, index_new, index_pairs, KeyIndex, Slot};
use crate::series_block::{points_of, SeriesBlock, SeriesBlockErr, Timestamp};
use crate::series_store::{fmt_key, series_dir_name};
use core::marker::PhantomData;
use vstd::prelude::*;

verus! {

/// A point type that has a primary key.
pub trait OwnsPrimaryKey<T> {
    /// The key, as contracts speak of it.
    spec fn primary_key(&self) -> T;

    fn get_primary_key(&self) -> (key: T)
        ensures
            key == self.primary_key(),
    ;
}

/// How many points a block of a new chain may hold.
pub const DEFAULT_MAX_POINTS_PER_BLOCK: u16 = 32;

/// Each block's id is its position in the list.
pub open spec fn ids_count_up(blocks: Seq<SeriesBlock>) -> bool {
    forall|i: int| 0 <= i < blocks.len() ==> (#[trigger] blocks[i]).id == i
}

/// A chain as contracts see it.
pub struct ChainView {
    /// The block descriptors, in chain order.
    pub blocks: Seq<SeriesBlock>,
    /// For each key, the slot of the latest point written under it.
    pub index: Map<u64, Slot>,
    /// How many points a block may hold.
    pub max_points_per_block: u16,
}

impl ChainView {
    /// A chain without blocks or keys.
    pub open spec fn fresh(max_points_per_block: u16) -> ChainView {
        ChainView { blocks: Seq::empty(), index: Map::empty(), max_points_per_block }
    }

    /// The ids of the blocks count up from 0.
    pub open spec fn wf(self) -> bool {
        ids_count_up(self.blocks)
    }

    /// The id of the block that the next append tries first: the last block, or
    /// block 0 where there is none yet.
    pub open spec fn target(self) -> u64 {
        if self.blocks.len() == 0 {
            0
        } else {
            self.blocks.last().id
        }
    }

    /// The chain after a point with `key`, stamped `now`, went to the end of the
    /// target block, whose file held `held` entries before.
    pub open spec fn placed(self, key: u64, held: nat, now: Timestamp) -> ChainView {
        if self.blocks.len() == 0 {
            ChainView {
                blocks: seq![SeriesBlock::empty(0).stamped(held, now)],
                index: self.index.insert(key, (0usize, held as usize)),
                max_points_per_block: self.max_points_per_block,
            }
        } else {
            ChainView {
                blocks: self.blocks.update(
                    self.blocks.len() - 1,
                    self.blocks.last().stamped(held, now),
                ),
                index: self.index.insert(key, ((self.blocks.len() - 1) as usize, held as usize)),
                max_points_per_block: self.max_points_per_block,
            }
        }
    }

    /// Whether a block whose file holds `held` entries takes one more.
    pub open spec fn has_room(self, held: nat) -> bool {
        held < self.max_points_per_block
    }

    /// What `write_last` answers where the file of the target block holds
    /// `entries`: it places the point if the block has room, and fails if not.
    pub open spec fn place_step<T>(
        self,
        entries: Seq<(Timestamp, T)>,
        point: T,
        now: Timestamp,
    ) -> StepView<T> {
        if self.has_room(entries.len()) {
            StepView::Stored { file: self.target(), entries: entries.push((now, point)) }
        } else {
            StepView::Failed(SeriesBlockErr::BlockAtCapacity(entries.len() as usize))
        }
    }

    /// The chain after `write_last`.
    pub open spec fn after_place(self, key: u64, held: nat, now: Timestamp) -> ChainView {
        if self.has_room(held) {
            self.placed(key, held, now)
        } else {
            self
        }
    }

    /// What `write` answers where the file of the target block holds `entries`.
    /// It differs from `write_last` where a block that the chain has is full:
    /// then the point comes back and is to go to the block behind it.
    pub open spec fn write_step<T>(
        self,
        entries: Seq<(Timestamp, T)>,
        point: T,
        now: Timestamp,
    ) -> StepView<T> {
        if self.has_room(entries.len()) || self.blocks.len() == 0 {
            self.place_step(entries, point, now)
        } else {
            StepView::Rolled { file: (self.target() + 1) as u64, point }
        }
    }

    /// The chain after `write`.
    pub open spec fn after_write(self, key: u64, held: nat, now: Timestamp) -> ChainView {
        if self.has_room(held) || self.blocks.len() == 0 {
            self.after_place(key, held, now)
        } else {
            self.rolled()
        }
    }

    /// The chain after a fresh block was allocated behind the last one.
    pub open spec fn rolled(self) -> ChainView
        recommends
            self.blocks.len() > 0,
    {
        ChainView {
            blocks: self.blocks.push(SeriesBlock::empty((self.blocks.last().id + 1) as u64)),
            index: self.index,
            max_points_per_block: self.max_points_per_block,
        }
    }

    /// Where the point of `key` is to be found: the id of the block whose file
    /// holds it, and its offset in that file. `None` where the key is unknown
    /// or its slot names a block that the chain does not have.
    pub open spec fn located(self, key: u64) -> Option<(u64, usize)> {
        if !self.index.contains_key(key) {
            None
        } else if self.index[key].0 >= self.blocks.len() {
            None
        } else {
            Some((self.blocks[self.index[key].0 as int].id, self.index[key].1))
        }
    }
}

/// The index that results from recording `pairs` one after the other, each as
/// key, block position and offset. A later pair replaces an earlier one with
/// the same key.
pub open spec fn index_of_pairs(pairs: Seq<(u64, usize, usize)>) -> Map<u64, Slot>
    decreases pairs.len(),
{
    if pairs.len() == 0 {
        Map::empty()
    } else {
        index_of_pairs(pairs.drop_last()).insert(pairs.last().0, (pairs.last().1, pairs.last().2))
    }
}

/// The points of several block files, one file after the other.
pub open spec fn all_points<T>(files: Seq<Seq<(Timestamp, T)>>) -> Seq<T>
    decreases files.len(),
{
    if files.len() == 0 {
        Seq::empty()
    } else {
        all_points(files.drop_last()) + points_of(files.last())
    }
}

/// The point at `offset` of a block file, if the file reaches that far.
pub open spec fn point_at<T>(entries: Seq<(Timestamp, T)>, offset: usize) -> Option<T> {
    if offset < entries.len() {
        Some(entries[offset as int].1)
    } else {
        None
    }
}

/// The descriptor that a record stands for.
pub open spec fn block_of(record: BlockRecord) -> SeriesBlock {
    SeriesBlock {
        id: record.0,
        point_count: record.1,
        from: Timestamp { secs: record.2.0, nanos: record.2.1 },
        to: Timestamp { secs: record.3.0, nanos: record.3.1 },
    }
}

/// The descriptors that a list of records stands for.
pub open spec fn blocks_of(records: Seq<BlockRecord>) -> Seq<SeriesBlock> {
    Seq::new(records.len(), |i: int| block_of(records[i]))
}

/// Every position and offset of the list is in the range of `usize`.
pub open spec fn slots_fit(slots: Seq<SlotRecord>) -> bool {
    forall|i: int|
        0 <= i < slots.len() ==> (#[trigger] slots[i]).1 <= usize::MAX && slots[i].2 <= usize::MAX
}

/// The index entries that a list of records stands for.
pub open spec fn pairs_of(slots: Seq<SlotRecord>) -> Seq<(u64, usize, usize)> {
    Seq::new(slots.len(), |i: int| (slots[i].0, slots[i].1 as usize, slots[i].2 as usize))
}

/// The chain that deserialized parts stand for, where they stand for one:
/// the slots are in range and the ids of the blocks count up from 0.
pub open spec fn chain_of(parts: ChainRecord) -> Option<ChainView> {
    if slots_fit(parts.1) && ids_count_up(blocks_of(parts.0)) {
        Some(
            ChainView {
                blocks: blocks_of(parts.0),
                index: index_of_pairs(pairs_of(parts.1)),
                max_points_per_block: parts.2,
            },
        )
    } else {
        None
    }
}

/// The chain that the bytes of a metadata file stand for: they are
/// decompressed, deserialized, and checked.
pub open spec fn decoded_chain(raw: Seq<u8>) -> Option<ChainView> {
    match gzip_decoded(raw) {
        Some(bin) => match chain_deserialized(bin) {
            Some(parts) => chain_of(parts),
            None => None,
        },
        None => None,
    }
}

/// Whether `e` is the error that decoding `raw` ends in: the first of the
/// four checks that `raw` does not pass.
pub open spec fn refusal_fits(raw: Seq<u8>, e: CodecErr) -> bool {
    match e {
        CodecErr::Gzip(_) => gzip_decoded(raw) is None,
        CodecErr::Layout(_) => {
            &&& gzip_decoded(raw) is Some
            &&& chain_deserialized(gzip_decoded(raw).unwrap()) is None
        },
        CodecErr::SlotRange => {
            &&& gzip_decoded(raw) is Some
            &&& chain_deserialized(gzip_decoded(raw).unwrap()) is Some
            &&& !slots_fit(chain_deserialized(gzip_decoded(raw).unwrap()).unwrap().1)
        },
        CodecErr::BlockIds => {
            &&& gzip_decoded(raw) is Some
            &&& chain_deserialized(gzip_decoded(raw).unwrap()) is Some
            &&& slots_fit(chain_deserialized(gzip_decoded(raw).unwrap()).unwrap().1)
            &&& !ids_count_up(blocks_of(chain_deserialized(gzip_decoded(raw).unwrap()).unwrap().0))
        },
    }
}

/// The persisted metadata of a series.
#[derive(Debug)]
pub struct SeriesParent<T> {
    blocks: Vec<SeriesBlock>,
    index: KeyIndex,
    max_points_per_block: u16,
    _phantom: PhantomData<T>,
}

impl<T> View for SeriesParent<T> {
    type V = ChainView;

    closed spec fn view(&self) -> ChainView {
        ChainView {
            blocks: self.blocks@,
            index: self.index@,
            max_points_per_block: self.max_points_per_block,
        }
    }
}

impl<T> Default for SeriesParent<T> {
    /// A new chain: no blocks, no keys, the default capacity.
    fn default() -> (parent: Self)
        ensures
            parent@ == ChainView::fresh(DEFAULT_MAX_POINTS_PER_BLOCK),
            parent@.wf(),
    {
        Self {
            blocks: Vec::new(),
            max_points_per_block: DEFAULT_MAX_POINTS_PER_BLOCK,
            index: index_new(),
            _phantom: PhantomData,
        }
    }
}

impl<T> SeriesParent<T> {
    /// A chain of the given parts. `index` lists key, block position and
    /// offset; where a key comes twice, the later entry stands.
    ///
    /// There is a chain exactly if the ids of `blocks` count up from 0.
    pub fn from_parts(
        blocks: Vec<SeriesBlock>,
        index: Vec<(u64, usize, usize)>,
        max_points_per_block: u16,
    ) -> (made: Option<Self>)
        ensures
            made is Some <==> ids_count_up(blocks@),
            made is Some ==> made.unwrap()@ == (ChainView {
                blocks: blocks@,
                index: index_of_pairs(index@),
                max_points_per_block,
            }),
    {
        let mut at: usize = 0;
        while at < blocks.len()
            invariant
                at <= blocks@.len(),
                forall|i: int| 0 <= i < at ==> (#[trigger] blocks@[i]).id == i,
            decreases blocks@.len() - at,
        {
            if blocks[at].id != at as u64 {
                assert(blocks@[at as int].id != at);
                return None;
            }
            at += 1;
        }
        let mut keyed = index_new();
        let mut done: usize = 0;
        while done < index.len()
            invariant
                done <= index@.len(),
                keyed@ == index_of_pairs(index@.take(done as int)),
            decreases index@.len() - done,
        {
            let (key, position, offset) = index[done];
            index_insert(&mut keyed, key, (position, offset));
            assert(index@.take(done + 1).drop_last() =~= index@.take(done as int));
            done += 1;
        }
        assert(index@.take(done as int) =~= index@);
        Some(Self { blocks, index: keyed, max_points_per_block, _phantom: PhantomData })
    }

    /// The bytes of the metadata file: the chain, serialized and compressed.
    /// Whatever bytes come back, `decode` reads this chain from them.
    pub fn encode(&self) -> (raw: Result<Vec<u8>, CodecErr>)
        requires
            self@.wf(),
        ensures
            raw is Ok ==> decoded_chain(raw.unwrap()@) == Some(self@),
            raw is Err ==> raw.unwrap_err() is Gzip || raw.unwrap_err() is Layout,
    {
        let mut records: Vec<BlockRecord> = Vec::new();
        let mut at: usize = 0;
        while at < self.blocks.len()
            invariant
                at <= self.blocks@.len(),
                records@.len() == at,
                forall|i: int| 0 <= i < at ==> block_of(#[trigger] records@[i]) == self.blocks@[i],
            decreases self.blocks@.len() - at,
        {
            let block = &self.blocks[at];
            records.push(
                (
                    block.id,
                    block.point_count,
                    (block.from.secs, block.from.nanos),
                    (block.to.secs, block.to.nanos),
                ),
            );
            at += 1;
        }
        let pairs = self.index();
        let mut slots: Vec<SlotRecord> = Vec::new();
        let mut done: usize = 0;
        while done < pairs.len()
            invariant
                done <= pairs@.len(),
                slots@.len() == done,
                forall|i: int|
                    0 <= i < done ==> (#[trigger] slots@[i]) == (
                        pairs@[i].0,
                        pairs@[i].1 as u64,
                        pairs@[i].2 as u64,
                    ),
            decreases pairs@.len() - done,
        {
            let (key, position, offset) = pairs[done];
            slots.push((key, position as u64, offset as u64));
            done += 1;
        }
        assert(blocks_of(records@) =~= self.blocks@);
        assert(slots_fit(slots@));
        assert(pairs_of(slots@) =~= pairs@);
        match serialize_chain(&records, &slots, self.max_points_per_block) {
            Ok(bin) => pack(bin.as_slice()),
            Err(e) => Err(CodecErr::Layout(e)),
        }
    }

    /// The chain that the bytes of a metadata file stand for.
    ///
    /// The bytes are decompressed and deserialized. A position or an offset
    /// that is out of this machine's range is refused, and so are blocks whose
    /// ids do not count up from 0. Of two index entries with one key the later
    /// stands.
    pub fn decode(raw: &[u8]) -> (parent: Result<Self, CodecErr>)
        ensures
            parent is Ok <==> decoded_chain(raw@) is Some,
            match parent {
                Ok(parent) => decoded_chain(raw@) == Some(parent@) && parent@.wf(),
                Err(e) => refusal_fits(raw@, e),
            },
    {
        let bin = match unpack(raw) {
            Ok(bin) => bin,
            Err(e) => {
                return Err(e);
            },
        };
        let (records, slots, max_points_per_block) = match deserialize_chain(bin.as_slice()) {
            Ok(parts) => parts,
            Err(e) => {
                return Err(CodecErr::Layout(e));
            },
        };
        let mut pairs: Vec<(u64, usize, usize)> = Vec::new();
        let mut done: usize = 0;
        while done < slots.len()
            invariant
                done <= slots@.len(),
                pairs@ == pairs_of(slots@.take(done as int)),
                slots_fit(slots@.take(done as int)),
                gzip_decoded(raw@) == Some(bin@),
                chain_deserialized(bin@) == Some((records@, slots@, max_points_per_block)),
            decreases slots@.len() - done,
        {
            let (key, position, offset) = slots[done];
            if position > usize::MAX as u64 || offset > usize::MAX as u64 {
                assert(!(slots@[done as int].1 <= usize::MAX && slots@[done as int].2
                    <= usize::MAX));
                return Err(CodecErr::SlotRange);
            }
            pairs.push((key, position as usize, offset as usize));
            assert(pairs@ =~= pairs_of(slots@.take(done + 1)));
            done += 1;
        }
        assert(slots@.take(done as int) =~= slots@);
        let mut blocks: Vec<SeriesBlock> = Vec::new();
        let mut at: usize = 0;
        while at < records.len()
            invariant
                at <= records@.len(),
                blocks@ == blocks_of(records@.take(at as int)),
            decreases records@.len() - at,
        {
            let record = records[at];
            blocks.push(
                SeriesBlock {
                    id: record.0,
                    point_count: record.1,
                    from: Timestamp { secs: record.2.0, nanos: record.2.1 },
                    to: Timestamp { secs: record.3.0, nanos: record.3.1 },
                },
            );
            assert(blocks@ =~= blocks_of(records@.take(at + 1)));
            at += 1;
        }
        assert(records@.take(at as int) =~= records@);
        match Self::from_parts(blocks, pairs, max_points_per_block) {
            Some(parent) => Ok(parent),
            None => Err(CodecErr::BlockIds),
        }
    }

    /// The block descriptors, in chain order.
    pub fn blocks(&self) -> (blocks: &Vec<SeriesBlock>)
        ensures
            blocks@ == self@.blocks,
    {
        &self.blocks
    }

    /// The index, as a list of key, block position and offset: every key once,
    /// in no particular order.
    pub fn index(&self) -> (pairs: Vec<(u64, usize, usize)>)
        ensures
            index_of_pairs(pairs@) == self@.index,
            forall|i: int, j: int| 0 <= i < j < pairs@.len() ==> pairs@[i].0 != pairs@[j].0,
    {
        let pairs = index_pairs(&self.index);
        proof {
            lemma_distinct_pairs(pairs@, self.index@);
        }
        pairs
    }

    /// The slot that the index holds for `key`.
    pub fn slot(&self, key: u64) -> (slot: Option<Slot>)
        ensures
            slot == (if self@.index.contains_key(key) {
                Some(self@.index[key])
            } else {
                None
            }),
    {
        index_get(&self.index, key)
    }

    /// How many points a block may hold.
    pub fn max_points_per_block(&self) -> (max: u16)
        ensures
            max == self@.max_points_per_block,
    {
        self.max_points_per_block
    }
}

/// What the host has to do next for an append.
pub enum WriteStep<T> {
    /// The point is placed. `entries` is what the file of block `file` holds
    /// from now on: the host stores it, and then the chain.
    Stored { file: u64, entries: Vec<(Timestamp, T)> },
    /// The last block was full, and the chain now ends in a fresh block. The
    /// point comes back: the host loads the file of block `file` and hands
    /// both to `write_last`.
    Rolled { file: u64, point: T },
    /// The target block was full and no block follows it. Nothing is to be
    /// stored.
    Failed(SeriesBlockErr),
}

/// A `WriteStep` as contracts see it.
pub enum StepView<T> {
    /// The file of block `file` is to hold `entries`.
    Stored { file: u64, entries: Seq<(Timestamp, T)> },
    /// `point` is to go to block `file`, which is new.
    Rolled { file: u64, point: T },
    /// The point was not placed.
    Failed(SeriesBlockErr),
}

impl<T> View for WriteStep<T> {
    type V = StepView<T>;

    open spec fn view(&self) -> StepView<T> {
        match *self {
            WriteStep::Stored { file, entries } => StepView::Stored { file, entries: entries@ },
            WriteStep::Rolled { file, point } => StepView::Rolled { file, point },
            WriteStep::Failed(e) => StepView::Failed(e),
        }
    }
}

/// A series: a chain and the directory that its files live in.
pub struct Series<T> {
    buf: String,
    parent: SeriesParent<T>,
}

impl<T: OwnsPrimaryKey<u64>> Series<T> {
    /// The path of the directory.
    pub closed spec fn dir(&self) -> Seq<char> {
        self.buf@
    }

    /// The chain.
    pub closed spec fn chain(&self) -> ChainView {
        self.parent@
    }

    /// The ids of the chain's blocks count up from 0.
    pub open spec fn wf(&self) -> bool {
        self.chain().wf()
    }

    /// Opens the series called `series_name` under the directory `higher_dir`.
    /// `stored` is what its metadata file holds, if there is one.
    ///
    /// A series without a metadata file is new: it gets the default chain, and
    /// the flag says that the host has to store that chain now. A metadata
    /// file that `SeriesParent::decode` refuses is an error.
    pub fn init(higher_dir: &str, series_name: String, stored: Option<&[u8]>) -> (opened: Result<
        (Self, bool),
        CodecErr,
    >)
        ensures
            match opened {
                Ok((series, created)) => {
                    &&& series.wf()
                    &&& series.dir() == joined(higher_dir@, series_dir_name(series_name@))
                    &&& created == (stored is None)
                    &&& stored is None ==> series.chain() == ChainView::fresh(
                        DEFAULT_MAX_POINTS_PER_BLOCK,
                    )
                    &&& stored is Some ==> decoded_chain(stored.unwrap()@) == Some(series.chain())
                },
                Err(e) => stored is Some && refusal_fits(stored.unwrap()@, e),
            },
            opened is Err <==> stored is Some && decoded_chain(stored.unwrap()@) is None,
    {
        let buf = template(higher_dir, fmt_key(series_name).as_str());
        match stored {
            None => Ok((Self { buf, parent: SeriesParent::default() }, true)),
            Some(raw) => match SeriesParent::decode(raw) {
                Ok(parent) => Ok((Self { buf, parent }, false)),
                Err(e) => Err(e),
            },
        }
    }

    /// The bytes that the metadata file is to hold: the chain, encoded.
    pub fn write_self(&self) -> (raw: Result<Vec<u8>, CodecErr>)
        requires
            self.wf(),
        ensures
            raw is Ok ==> decoded_chain(raw.unwrap()@) == Some(self.chain()),
            raw is Err ==> raw.unwrap_err() is Gzip || raw.unwrap_err() is Layout,
    {
        self.parent.encode()
    }

    /// Puts the chain back to what the metadata file holds, `stored`. A host
    /// does so after a block file could not be stored: the chain then goes
    /// back to the last append that reached the disk.
    ///
    /// Where `SeriesParent::decode` refuses `stored`, the chain stays as it is.
    pub fn reload(&mut self, stored: &[u8]) -> (done: Result<(), CodecErr>)
        ensures
            final(self).dir() == old(self).dir(),
            old(self).wf() ==> final(self).wf(),
            done is Ok <==> decoded_chain(stored@) is Some,
            match done {
                Ok(_) => decoded_chain(stored@) == Some(final(self).chain()) && final(self).wf(),
                Err(e) => refusal_fits(stored@, e) && final(self).chain() == old(self).chain(),
            },
    {
        match SeriesParent::decode(stored) {
            Ok(parent) => {
                self.parent = parent;
                Ok(())
            },
            Err(e) => Err(e),
        }
    }

    /// The path of the directory that holds the files of the series.
    pub fn subdirectory(&self) -> (name: &String)
        ensures
            name@ == self.dir(),
    {
        &self.buf
    }

    /// The chain, as it is to be stored.
    pub fn parent(&self) -> (parent: &SeriesParent<T>)
        ensures
            parent@ == self.chain(),
    {
        &self.parent
    }

    /// The id of the block whose file the next `write` needs.
    pub fn target(&self) -> (file: u64)
        ensures
            file == self.chain().target(),
    {
        let count = self.parent.blocks.len();
        if count == 0 {
            0
        } else {
            self.parent.blocks[count - 1].id
        }
    }

    /// Appends `point`, stamped `now`, to the series. `entries` is what the file
    /// of block `target()` holds: nothing, where there is no such file.
    ///
    /// Where the block has room, the point goes to its end and the index
    /// records the point's key at that slot. Where the last block is full, a
    /// fresh block is allocated behind it and the point is handed back for
    /// `write_last`. A full block 0 of a chain without blocks is a failure.
    pub fn write(&mut self, entries: Vec<(Timestamp, T)>, point: T, now: Timestamp) -> (step:
        WriteStep<T>)
        requires
            old(self).wf(),
        ensures
            final(self).wf(),
            final(self).dir() == old(self).dir(),
            step@ == old(self).chain().write_step(entries@, point, now),
            final(self).chain() == old(self).chain().after_write(
                point.primary_key(),
                entries@.len(),
                now,
            ),
    {
        let count = self.parent.blocks.len();
        if count == 0 {
            self.write_last(entries, point, now)
        } else {
            let mut entries = entries;
            let key = point.get_primary_key();
            let mut last = self.parent.blocks[count - 1];
            match last.write(&mut entries, point, now, self.parent.max_points_per_block) {
                Ok(offset) => {
                    self.parent.blocks.set(count - 1, last);
                    index_insert(&mut self.parent.index, key, (count - 1, offset));
                    WriteStep::Stored { file: last.id, entries }
                },
                Err((e, point)) => match e {
                    SeriesBlockErr::BlockAtCapacity(_) => {
                        let next = last.next_block();
                        self.parent.blocks.push(next);
                        WriteStep::Rolled { file: next.id, point }
                    },
                    e => WriteStep::Failed(e),
                },
            }
        }
    }

    /// Appends `point`, stamped `now`, to the target block, or fails: no block
    /// is allocated for a point that does not fit. `entries` is what the file
    /// of block `target()` holds.
    ///
    /// This is the second step of an append that `write` answered with
    /// `Rolled`, and all of an append to a chain without blocks.
    pub fn write_last(&mut self, entries: Vec<(Timestamp, T)>, point: T, now: Timestamp) -> (step:
        WriteStep<T>)
        requires
            old(self).wf(),
        ensures
            final(self).wf(),
            final(self).dir() == old(self).dir(),
            step@ == old(self).chain().place_step(entries@, point, now),
            final(self).chain() == old(self).chain().after_place(
                point.primary_key(),
                entries@.len(),
                now,
            ),
    {
        let mut entries = entries;
        let key = point.get_primary_key();
        let count = self.parent.blocks.len();
        let mut block = if count == 0 {
            SeriesBlock::default()
        } else {
            self.parent.blocks[count - 1]
        };
        match block.write(&mut entries, point, now, self.parent.max_points_per_block) {
            Ok(offset) => {
                if count == 0 {
                    self.parent.blocks.push(block);
                    index_insert(&mut self.parent.index, key, (0, offset));
                    assert(self.parent.blocks@ =~= seq![block]);
                } else {
                    self.parent.blocks.set(count - 1, block);
                    index_insert(&mut self.parent.index, key, (count - 1, offset));
                }
                WriteStep::Stored { file: block.id, entries }
            },
            Err((e, _)) => WriteStep::Failed(e),
        }
    }

    /// The ids of the chain's blocks, in chain order: the files that `read_all`
    /// needs.
    pub fn block_files(&self) -> (files: Vec<u64>)
        ensures
            files@.len() == self.chain().blocks.len(),
            forall|i: int| 0 <= i < files@.len() ==> files@[i] == self.chain().blocks[i].id,
    {
        let mut files: Vec<u64> = Vec::new();
        let mut at: usize = 0;
        while at < self.parent.blocks.len()
            invariant
                at <= self.parent.blocks@.len(),
                files@.len() == at,
                forall|i: int| 0 <= i < at ==> files@[i] == self.parent.blocks@[i].id,
            decreases self.parent.blocks@.len() - at,
        {
            files.push(self.parent.blocks[at].id);
            at += 1;
        }
        files
    }

    /// All points of the series in the order in which they were appended.
    /// `loaded` holds, for each id of `block_files()` in turn, what the file of
    /// that block holds.
    pub fn read_all(&self, loaded: Vec<Vec<(Timestamp, T)>>) -> (points: Vec<T>)
        ensures
            points@ == all_points(files_of(loaded@)),
    {
        let ghost all = loaded@;
        let mut points: Vec<T> = Vec::new();
        for file in it: loaded
            invariant
                it.seq() == all,
                points@ == all_points(files_of(all.take(it.index() as int))),
        {
            let ghost held = file@;
            let mut block_points = SeriesBlock::read_all(file);
            points.append(&mut block_points);
            assert(files_of(all.take(it.index() + 1)).drop_last() =~= files_of(
                all.take(it.index() as int),
            ));
            assert(files_of(all.take(it.index() + 1)).last() == held);
        }
        assert(all.take(all.len() as int) =~= all);
        points
    }

    /// Where the point of `key` is to be found: the id of the block whose file
    /// `read_by_key` needs, and the point's offset in it.
    pub fn locate(&self, key: &u64) -> (found: Option<(u64, usize)>)
        ensures
            found == self.chain().located(*key),
    {
        match index_get(&self.parent.index, *key) {
            None => None,
            Some((position, offset)) => {
                if position < self.parent.blocks.len() {
                    Some((self.parent.blocks[position].id, offset))
                } else {
                    None
                }
            },
        }
    }

    /// The latest point written under `key`. `entries` is what the file of the
    /// block that `locate(key)` names holds.
    ///
    /// There is no point where the key is unknown, and none where the file
    /// ends before the offset that the index recorded.
    pub fn read_by_key(&self, key: &u64, entries: Vec<(Timestamp, T)>) -> (point: Option<T>)
        ensures
            point == (match self.chain().located(*key) {
                Some((_, offset)) => point_at(entries@, offset),
                None => None,
            }),
    {
        let mut entries = entries;
        match self.locate(key) {
            None => None,
            Some((_, offset)) => {
                if offset < entries.len() {
                    Some(entries.remove(offset).1)
                } else {
                    None
                }
            },
        }
    }
}

/// What each of the loaded files holds.
pub open spec fn files_of<T>(loaded: Seq<Vec<(Timestamp, T)>>) -> Seq<Seq<(Timestamp, T)>> {
    Seq::new(loaded.len(), |i: int| loaded[i]@)
}

/// A list in which no key comes twice, and which holds exactly the entries of
/// a map, gives that map when its pairs are recorded one after the other.
pub proof fn lemma_distinct_pairs(pairs: Seq<(u64, usize, usize)>, entries: Map<u64, Slot>)
    requires
        forall|i: int|
            0 <= i < pairs.len() ==> entries.contains_pair(
                #[trigger] pairs[i].0,
                (pairs[i].1, pairs[i].2),
            ),
        forall|key: u64| #[trigger]
            entries.contains_key(key) ==> exists|i: int| 0 <= i < pairs.len() && pairs[i].0 == key,
        forall|i: int, j: int| 0 <= i < j < pairs.len() ==> pairs[i].0 != pairs[j].0,
    ensures
        index_of_pairs(pairs) == entries,
    decreases pairs.len(),
{
    if pairs.len() == 0 {
        assert(entries =~= Map::empty());
    } else {
        let front = pairs.drop_last();
        let key = pairs.last().0;
        let rest = entries.remove(key);
        assert forall|k: u64| #[trigger] rest.contains_key(k) implies exists|i: int|
            0 <= i < front.len() && front[i].0 == k by {
            let i = choose|i: int| 0 <= i < pairs.len() && pairs[i].0 == k;
            assert(front[i] == pairs[i]);
        }
        assert forall|i: int| 0 <= i < front.len() implies rest.contains_pair(
            #[trigger] front[i].0,
            (front[i].1, front[i].2),
        ) by {
            assert(front[i] == pairs[i]);
        }
        lemma_distinct_pairs(front, rest);
        assert(pairs[pairs.len() - 1] == pairs.last());
        assert(entries =~= rest.insert(key, (pairs.last().1, pairs.last().2)));
    }
}

} // verus!
