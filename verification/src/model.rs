//! A series as a whole: its chain together with what the files of its blocks
//! hold, and what every append and every read does to the two.
//!
//! The host and the chain work in turns. Here the turns of one append are put
//! together, so that a run of appends can be followed from a new series on.

use crate::series_block::{points_of, SeriesBlock, Timestamp};
use crate::series_parent::{
    all_points, decoded_chain, point_at, ChainView, OwnsPrimaryKey, Series, StepView,
};
use vstd::prelude::*;

verus! {

/// A chain and the block files beside it. A block that has no file holds
/// nothing.
pub struct SeriesModel<T> {
    pub chain: ChainView,
    pub files: Map<u64, Seq<(Timestamp, T)>>,
}

impl<T> SeriesModel<T> {
    /// A new series: no blocks, no keys, no files.
    pub open spec fn fresh(max_points_per_block: u16) -> Self {
        SeriesModel { chain: ChainView::fresh(max_points_per_block), files: Map::empty() }
    }

    /// What the file of block `file` holds.
    pub open spec fn held(self, file: u64) -> Seq<(Timestamp, T)> {
        if self.files.contains_key(file) {
            self.files[file]
        } else {
            Seq::empty()
        }
    }

    /// The series after the host has carried out what a step asked for.
    pub open spec fn carried_out(self, chain: ChainView, step: StepView<T>) -> Self {
        match step {
            StepView::Stored { file, entries } => SeriesModel {
                chain,
                files: self.files.insert(file, entries),
            },
            _ => SeriesModel { chain, files: self.files },
        }
    }

    /// The series after one append: the host loads the target block's file and
    /// calls `write`; where the answer is `Rolled`, it loads the file of the
    /// block named there and calls `write_last`; it stores what it is told to.
    pub open spec fn append(self, key: u64, point: T, now: Timestamp) -> Self {
        let entries = self.held(self.chain.target());
        let chain = self.chain.after_write(key, entries.len(), now);
        match self.chain.write_step(entries, point, now) {
            StepView::Rolled { file, point } => {
                let entries = self.held(file);
                self.carried_out(
                    chain.after_place(key, entries.len(), now),
                    chain.place_step(entries, point, now),
                )
            },
            step => self.carried_out(chain, step),
        }
    }

    /// Whether an append finds room for its point: in the target block, or,
    /// where the chain has blocks, in the block behind it.
    pub open spec fn accepts(self) -> bool {
        ||| self.chain.has_room(self.held(self.chain.target()).len())
        ||| self.chain.blocks.len() > 0 && self.chain.has_room(
            self.held((self.chain.target() + 1) as u64).len(),
        )
    }

    /// The series after the appends of `batch`, each given as key, point and
    /// time, in turn.
    pub open spec fn appends(self, batch: Seq<(u64, T, Timestamp)>) -> Self
        decreases batch.len(),
    {
        if batch.len() == 0 {
            self
        } else {
            self.appends(batch.drop_last()).append(
                batch.last().0,
                batch.last().1,
                batch.last().2,
            )
        }
    }

    /// How many entries the file of the chain's block at `position` holds.
    pub open spec fn count(self, position: int) -> nat {
        self.held(self.chain.blocks[position].id).len()
    }

    /// The chain and the files agree:
    /// the ids of the blocks count up from 0;
    /// each block's `point_count` is the number of entries in its file;
    /// no block holds more than the chain allows, and every block but the
    /// last holds exactly that many;
    /// a block that the chain does not have yet has no entries;
    /// and every slot of the index names an entry that exists.
    pub open spec fn consistent(self) -> bool {
        &&& self.chain.wf()
        &&& forall|i: int|
            0 <= i < self.chain.blocks.len() ==> (#[trigger] self.chain.blocks[i]).point_count
                == self.count(i)
        &&& forall|i: int|
            0 <= i < self.chain.blocks.len() ==> #[trigger] self.count(i)
                <= self.chain.max_points_per_block
        &&& forall|i: int|
            0 <= i < self.chain.blocks.len() - 1 ==> #[trigger] self.count(i)
                == self.chain.max_points_per_block
        &&& forall|file: u64|
            file >= self.chain.blocks.len() ==> (#[trigger] self.held(file)).len() == 0
        &&& forall|key: u64| #[trigger]
            self.chain.index.contains_key(key) ==> {
                &&& self.chain.index[key].0 < self.chain.blocks.len()
                &&& self.chain.index[key].1 < self.count(self.chain.index[key].0 as int)
            }
    }

    /// What the files of the chain's blocks hold, in chain order.
    pub open spec fn files_in_order(self) -> Seq<Seq<(Timestamp, T)>> {
        Seq::new(self.chain.blocks.len(), |i: int| self.held(self.chain.blocks[i].id))
    }

    /// What a full scan returns.
    pub open spec fn read_all(self) -> Seq<T> {
        all_points(self.files_in_order())
    }

    /// What a lookup returns.
    pub open spec fn read_by_key(self, key: u64) -> Option<T> {
        match self.chain.located(key) {
            Some((file, offset)) => point_at(self.held(file), offset),
            None => None,
        }
    }
}

/// The points of a batch of appends, in the order of the batch.
pub open spec fn batch_points<T>(batch: Seq<(u64, T, Timestamp)>) -> Seq<T> {
    Seq::new(batch.len(), |i: int| batch[i].1)
}

/// A new series is consistent.
pub proof fn lemma_fresh_consistent<T>(max_points_per_block: u16)
    ensures
        SeriesModel::<T>::fresh(max_points_per_block).consistent(),
        SeriesModel::<T>::fresh(max_points_per_block).read_all() == Seq::<T>::empty(),
{
}

/// An append keeps a consistent series consistent. Where a block may hold a
/// point at all, the append finds room, and a full scan then returns what it
/// returned before and the new point behind it.
pub proof fn lemma_append_consistent<T>(
    series: SeriesModel<T>,
    key: u64,
    point: T,
    now: Timestamp,
)
    requires
        series.consistent(),
        series.chain.blocks.len() < usize::MAX,
    ensures
        series.append(key, point, now).consistent(),
        series.append(key, point, now).chain.max_points_per_block
            == series.chain.max_points_per_block,
        series.append(key, point, now).chain.blocks.len() <= series.chain.blocks.len() + 1,
        series.chain.max_points_per_block > 0 ==> {
            &&& series.accepts()
            &&& series.append(key, point, now).read_all() == series.read_all().push(point)
        },
{
    let chain = series.chain;
    let count = chain.blocks.len() as int;
    let first = series.held(chain.target());
    let after = series.append(key, point, now);
    if chain.has_room(first.len()) {
        assert(after.chain == chain.placed(key, first.len(), now));
        assert(after.files == series.files.insert(chain.target(), first.push((now, point))));
        if count == 0 {
            assert forall|i: int| 0 <= i < after.chain.blocks.len() implies #[trigger] after.count(
                i,
            ) == 1 by {}
            assert(after.files_in_order() =~= seq![first.push((now, point))]);
            assert(after.files_in_order().drop_last() =~= Seq::empty());
            assert(all_points(after.files_in_order().drop_last()) =~= Seq::<T>::empty());
            assert(points_of(first.push((now, point))) =~= seq![point]);
            assert(series.files_in_order() =~= Seq::empty());
            assert(after.read_all() =~= series.read_all().push(point));
            assert forall|file: u64| file >= after.chain.blocks.len() implies (#[trigger] after.held(
                file,
            )).len() == 0 by {
                assert(series.held(file).len() == 0);
            }
        } else {
            let last = count - 1;
            assert(chain.blocks[last].id == last);
            assert(series.count(last) == first.len());
            assert forall|i: int| 0 <= i < count implies #[trigger] after.count(i) == (if i
                == last {
                first.len() + 1
            } else {
                series.count(i)
            }) by {
                assert(chain.blocks[i].id == i);
            }
            assert forall|key: u64| #[trigger]
                after.chain.index.contains_key(key) implies after.chain.index[key].0 < count
                && after.chain.index[key].1 < after.count(after.chain.index[key].0 as int) by {
                if chain.index.contains_key(key) {
                    assert(series.count(chain.index[key].0 as int) <= after.count(
                        chain.index[key].0 as int,
                    ));
                }
            }
            assert(after.files_in_order().drop_last() =~= series.files_in_order().drop_last()) by {
                assert forall|i: int| 0 <= i < last implies after.files_in_order()[i]
                    == series.files_in_order()[i] by {
                    assert(chain.blocks[i].id == i);
                }
            }
            assert(after.files_in_order().last() == first.push((now, point)));
            assert(series.files_in_order().last() == first);
            assert(points_of(first.push((now, point))) =~= points_of(first).push(point));
            assert(after.read_all() =~= series.read_all().push(point));
            assert forall|file: u64| file >= after.chain.blocks.len() implies (#[trigger] after.held(
                file,
            )).len() == 0 by {
                assert(series.held(file).len() == 0);
            }
        }
    } else if count == 0 {
        assert(first.len() == 0);
    } else {
        let last = count - 1;
        assert(chain.blocks[last].id == last);
        assert(series.count(last) == first.len());
        let rolled = chain.rolled();
        let file = (chain.target() + 1) as u64;
        assert(file == count);
        let second = series.held(file);
        assert(second.len() == 0);
        assert(rolled.target() == file);
        if chain.max_points_per_block > 0 {
            assert(after.chain == rolled.placed(key, second.len(), now));
            assert(after.files == series.files.insert(file, second.push((now, point))));
            assert forall|i: int| 0 <= i <= count implies #[trigger] after.count(i) == (if i
                == count {
                1
            } else {
                series.count(i)
            }) by {
                if i < count {
                    assert(chain.blocks[i].id == i);
                }
            }
            assert forall|key: u64| #[trigger]
                after.chain.index.contains_key(key) implies after.chain.index[key].0 < count + 1
                && after.chain.index[key].1 < after.count(after.chain.index[key].0 as int) by {
                if chain.index.contains_key(key) {
                    assert(series.count(chain.index[key].0 as int) == after.count(
                        chain.index[key].0 as int,
                    ));
                }
            }
            assert(after.files_in_order().drop_last() =~= series.files_in_order()) by {
                assert forall|i: int| 0 <= i < count implies after.files_in_order()[i]
                    == series.files_in_order()[i] by {
                    assert(chain.blocks[i].id == i);
                }
            }
            assert(after.files_in_order().last() == second.push((now, point)));
            assert(points_of(second.push((now, point))) =~= seq![point]);
            assert(after.read_all() =~= series.read_all().push(point));
            assert forall|file: u64| file >= after.chain.blocks.len() implies (#[trigger] after.held(
                file,
            )).len() == 0 by {
                assert(series.held(file).len() == 0);
            }
        } else {
            assert(after.chain == rolled);
            assert(after.files == series.files);
            assert forall|i: int| 0 <= i <= count implies #[trigger] after.count(i) == 0 by {
                if i < count {
                    assert(chain.blocks[i].id == i);
                    assert(series.count(i) == 0);
                }
            }
            assert forall|file: u64| file >= after.chain.blocks.len() implies (#[trigger] after.held(
                file,
            )).len() == 0 by {
                assert(series.held(file).len() == 0);
            }
        }
    }
}

/// After `total` appends to a new series whose blocks hold `capacity` points,
/// all blocks before the last are full and the last holds the rest.
proof fn lemma_appends_spread<T>(capacity: u16, batch: Seq<(u64, T, Timestamp)>)
    requires
        capacity > 0,
        batch.len() < usize::MAX,
    ensures
        ({
            let series = SeriesModel::<T>::fresh(capacity).appends(batch);
            let blocks = series.chain.blocks.len() as int;
            &&& series.consistent()
            &&& series.chain.max_points_per_block == capacity
            &&& series.read_all() == batch_points(batch)
            &&& batch.len() == 0 ==> blocks == 0
            &&& batch.len() > 0 ==> {
                &&& 1 <= blocks <= batch.len()
                &&& 1 <= series.count(blocks - 1)
                &&& (blocks - 1) * capacity + series.count(blocks - 1) == batch.len()
            }
        }),
    decreases batch.len(),
{
    let start = SeriesModel::<T>::fresh(capacity);
    if batch.len() == 0 {
        lemma_fresh_consistent::<T>(capacity);
        assert(batch_points(batch) =~= Seq::<T>::empty());
    } else {
        let front = batch.drop_last();
        let before = start.appends(front);
        let (key, point, now) = batch.last();
        lemma_appends_spread::<T>(capacity, front);
        lemma_append_consistent(before, key, point, now);
        let after = before.append(key, point, now);
        assert(after == start.appends(batch));
        assert(batch_points(batch) =~= batch_points(front).push(point));
        let chain = before.chain;
        let count = chain.blocks.len() as int;
        let first = before.held(chain.target());
        if front.len() == 0 {
            assert(after.chain == chain.placed(key, first.len(), now));
            assert(after.count(0) == 1);
        } else {
            assert(chain.blocks[count - 1].id == count - 1);
            assert(before.count(count - 1) == first.len());
            if chain.has_room(first.len()) {
                assert(after.chain == chain.placed(key, first.len(), now));
                assert(after.held(chain.target()) == first.push((now, point)));
                assert(after.count(count - 1) == first.len() + 1);
            } else {
                let file = (chain.target() + 1) as u64;
                let second = before.held(file);
                assert(second.len() == 0);
                assert(chain.rolled().target() == file);
                assert(after.chain == chain.rolled().placed(key, second.len(), now));
                assert(after.held(file) == second.push((now, point)));
                assert(after.count(count) == 1);
                assert(first.len() == capacity);
                assert((count - 1) * capacity + capacity == count * capacity) by (nonlinear_arith);
            }
        }
    }
}

/// A run of appends to a new series whose blocks hold `capacity` points each:
/// a full scan returns the points in the order of the appends; the chain has
/// as many blocks as it takes to hold them, the number of points divided by
/// the capacity and rounded up; each of the first blocks, as many as the
/// number divided by the capacity and rounded down, is full; and where the
/// division leaves a rest, the last block holds the rest.
pub proof fn lemma_appends_fill_blocks<T>(capacity: u16, batch: Seq<(u64, T, Timestamp)>)
    requires
        capacity > 0,
        batch.len() < usize::MAX,
    ensures
        ({
            let series = SeriesModel::<T>::fresh(capacity).appends(batch);
            &&& series.consistent()
            &&& series.read_all() == batch_points(batch)
            &&& series.chain.blocks.len() == (batch.len() + capacity - 1) / (capacity as int)
            &&& forall|i: int|
                0 <= i < batch.len() / (capacity as nat) ==> {
                    &&& i < series.chain.blocks.len()
                    &&& (#[trigger] series.chain.blocks[i]).point_count == capacity
                    &&& series.count(i) == capacity
                }
            &&& batch.len() % (capacity as nat) != 0 ==> {
                &&& series.chain.blocks.len() == batch.len() / (capacity as nat) + 1
                &&& series.chain.blocks.last().point_count == batch.len() % (capacity as nat)
                &&& series.count(series.chain.blocks.len() - 1) == batch.len() % (
                capacity as nat)
            }
        }),
{
    let series = SeriesModel::<T>::fresh(capacity).appends(batch);
    let total = batch.len() as int;
    let each = capacity as int;
    let blocks = series.chain.blocks.len() as int;
    lemma_appends_spread::<T>(capacity, batch);
    if total == 0 {
        vstd::arithmetic::div_mod::lemma_fundamental_div_mod_converse(each - 1, each, 0, each - 1);
        vstd::arithmetic::div_mod::lemma_fundamental_div_mod_converse(0, each, 0, 0);
    } else {
        let rest = series.count(blocks - 1) as int;
        assert(rest <= each);
        assert(total + each - 1 == blocks * each + (rest - 1)) by (nonlinear_arith)
            requires
                (blocks - 1) * each + rest == total,
        ;
        vstd::arithmetic::div_mod::lemma_fundamental_div_mod_converse(
            total + each - 1,
            each,
            blocks,
            rest - 1,
        );
        if rest < each {
            vstd::arithmetic::div_mod::lemma_fundamental_div_mod_converse(
                total,
                each,
                blocks - 1,
                rest,
            );
        } else {
            assert(total == blocks * each + 0) by (nonlinear_arith)
                requires
                    (blocks - 1) * each + rest == total,
                    rest == each,
            ;
            vstd::arithmetic::div_mod::lemma_fundamental_div_mod_converse(total, each, blocks, 0);
        }
        assert forall|i: int| 0 <= i < total / each implies i < blocks && (
        #[trigger] series.chain.blocks[i]).point_count == capacity && series.count(i)
            == capacity by {
            if i < blocks - 1 {
                assert(series.count(i) == capacity);
            }
        }
    }
}

/// After an append that found room, a lookup of the point's key returns that
/// point, whatever the key's slot was before: the last write wins.
pub proof fn lemma_lookup_after_append<T>(
    series: SeriesModel<T>,
    key: u64,
    point: T,
    now: Timestamp,
)
    requires
        series.chain.blocks.len() < usize::MAX,
        series.accepts(),
    ensures
        series.append(key, point, now).read_by_key(key) == Some(point),
{
    let chain = series.chain;
    let first = series.held(chain.target());
    if chain.has_room(first.len()) {
        let after = series.append(key, point, now);
        assert(after.chain == chain.placed(key, first.len(), now));
        assert(after.held(chain.target()) == first.push((now, point)));
    } else {
        let rolled = chain.rolled();
        let file = (chain.target() + 1) as u64;
        let second = series.held(file);
        assert(rolled.target() == file);
        let after = series.append(key, point, now);
        assert(after.chain == rolled.placed(key, second.len(), now));
        assert(after.held(file) == second.push((now, point)));
    }
}

/// An append leaves the lookup of every other key as it was.
pub proof fn lemma_lookup_of_other_key<T>(
    series: SeriesModel<T>,
    key: u64,
    point: T,
    now: Timestamp,
    other: u64,
)
    requires
        series.consistent(),
        series.chain.blocks.len() < usize::MAX,
        other != key,
    ensures
        series.append(key, point, now).read_by_key(other) == series.read_by_key(other),
{
    let chain = series.chain;
    let count = chain.blocks.len() as int;
    let first = series.held(chain.target());
    let after = series.append(key, point, now);
    if chain.index.contains_key(other) {
        let position = chain.index[other].0 as int;
        let offset = chain.index[other].1;
        assert(chain.blocks[position].id == position);
        assert(offset < series.count(position));
        if count > 0 {
            assert(chain.blocks[count - 1].id == count - 1);
        }
        if chain.has_room(first.len()) {
            assert(after.chain == chain.placed(key, first.len(), now));
            assert(after.files == series.files.insert(chain.target(), first.push((now, point))));
        } else if count > 0 {
            let file = (chain.target() + 1) as u64;
            let second = series.held(file);
            assert(chain.rolled().target() == file);
            if chain.has_room(second.len()) {
                assert(after.chain == chain.rolled().placed(key, second.len(), now));
                assert(after.files == series.files.insert(file, second.push((now, point))));
            }
        }
    }
}

/// Two handles that were opened on the same stored metadata return the same
/// points from a full scan of the same files.
pub proof fn lemma_open_twice<T: OwnsPrimaryKey<u64>>(
    first: Series<T>,
    second: Series<T>,
    stored: Seq<u8>,
    files: Map<u64, Seq<(Timestamp, T)>>,
)
    requires
        decoded_chain(stored) == Some(first.chain()),
        decoded_chain(stored) == Some(second.chain()),
    ensures
        (SeriesModel { chain: first.chain(), files }).read_all() == (SeriesModel {
            chain: second.chain(),
            files,
        }).read_all(),
{
}

/// A run of appends to a consistent series whose blocks may hold a point:
/// the series stays consistent, and a full scan returns what it returned
/// before and the points of the run behind it, in the order of the run.
pub proof fn lemma_appends_consistent<T>(series: SeriesModel<T>, batch: Seq<(u64, T, Timestamp)>)
    requires
        series.consistent(),
        series.chain.max_points_per_block > 0,
        series.chain.blocks.len() + batch.len() < usize::MAX,
    ensures
        series.appends(batch).consistent(),
        series.appends(batch).chain.max_points_per_block == series.chain.max_points_per_block,
        series.appends(batch).chain.blocks.len() <= series.chain.blocks.len() + batch.len(),
        series.appends(batch).read_all() == series.read_all() + batch_points(batch),
    decreases batch.len(),
{
    if batch.len() == 0 {
        assert(series.read_all() + batch_points(batch) =~= series.read_all());
    } else {
        let front = batch.drop_last();
        let (key, point, now) = batch.last();
        lemma_appends_consistent(series, front);
        lemma_append_consistent(series.appends(front), key, point, now);
        assert(batch_points(batch) =~= batch_points(front).push(point));
        assert(series.read_all() + batch_points(batch) =~= (series.read_all() + batch_points(
            front,
        )).push(point));
    }
}

/// A point stays the answer to a lookup of its key for as long as no later
/// append bears that key: after the append of `point` under `key`, and after
/// a run of appends under other keys, the lookup of `key` returns `point`,
/// and a full scan returns the point among the others.
pub proof fn lemma_lookup_after_run<T>(
    series: SeriesModel<T>,
    key: u64,
    point: T,
    now: Timestamp,
    batch: Seq<(u64, T, Timestamp)>,
)
    requires
        series.consistent(),
        series.chain.max_points_per_block > 0,
        series.chain.blocks.len() + 1 + batch.len() < usize::MAX,
        forall|i: int| 0 <= i < batch.len() ==> (#[trigger] batch[i]).0 != key,
    ensures
        series.append(key, point, now).appends(batch).read_by_key(key) == Some(point),
        series.append(key, point, now).appends(batch).read_all() == series.read_all().push(point)
            + batch_points(batch),
    decreases batch.len(),
{
    let written = series.append(key, point, now);
    lemma_append_consistent(series, key, point, now);
    lemma_appends_consistent(written, batch);
    if batch.len() == 0 {
        lemma_lookup_after_append(series, key, point, now);
    } else {
        let front = batch.drop_last();
        let (other, later_point, later) = batch.last();
        lemma_lookup_after_run(series, key, point, now, front);
        lemma_appends_consistent(written, front);
        lemma_lookup_of_other_key(written.appends(front), other, later_point, later, key);
    }
}

/// An append to a series whose target block is one point short of full fills
/// that block and allocates none. The append after it allocates the block
/// with the next id.
pub proof fn lemma_boundary<T>(
    series: SeriesModel<T>,
    key: u64,
    point: T,
    now: Timestamp,
    next_key: u64,
    next_point: T,
    later: Timestamp,
)
    requires
        series.chain.wf(),
        0 < series.chain.blocks.len() < usize::MAX,
        series.held(series.chain.target()).len() + 1 == series.chain.max_points_per_block,
    ensures
        ({
            let filled = series.append(key, point, now);
            let after = filled.append(next_key, next_point, later);
            &&& filled.chain.blocks.len() == series.chain.blocks.len()
            &&& filled.chain.target() == series.chain.target()
            &&& filled.held(filled.chain.target()).len() == series.chain.max_points_per_block
            &&& filled.chain.blocks.last().point_count == series.chain.max_points_per_block
            &&& after.chain.blocks.len() == filled.chain.blocks.len() + 1
            &&& after.chain.blocks.last().id == filled.chain.blocks.last().id + 1
        }),
{
    let chain = series.chain;
    let first = series.held(chain.target());
    let filled = series.append(key, point, now);
    assert(filled.chain == chain.placed(key, first.len(), now));
    assert(filled.held(chain.target()) == first.push((now, point)));
    assert(chain.blocks.last().id == chain.blocks.len() - 1);
}

} // verus!
