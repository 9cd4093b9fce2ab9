//! A block: a capacity-bounded, append-only run of timestamped points that is
//! backed by one file.

use vstd::prelude::*;
use vstd::string::*;

verus! {

/// A point in time, as the duration since the Unix epoch.
#[derive(Clone, Copy, Debug, PartialEq, Eq, Structural)]
pub struct Timestamp {
    /// Whole seconds.
    pub secs: u64,
    /// The fraction of a second, in nanoseconds.
    pub nanos: u32,
}

impl Timestamp {
    /// The epoch itself.
    pub open spec fn zero() -> Timestamp {
        Timestamp { secs: 0, nanos: 0 }
    }

    /// `self` is not later than `other`.
    pub open spec fn spec_le(self, other: Timestamp) -> bool {
        self.secs < other.secs || (self.secs == other.secs && self.nanos <= other.nanos)
    }

    /// The nanoseconds are less than a second.
    pub open spec fn spec_is_valid(self) -> bool {
        self.nanos < 1_000_000_000
    }

    /// Whether the nanoseconds are less than a second, as they are in every
    /// time that a clock gives.
    pub fn is_valid(&self) -> (b: bool)
        ensures
            b == self.spec_is_valid(),
    {
        self.nanos < 1_000_000_000
    }

    pub fn new(secs: u64, nanos: u32) -> (t: Timestamp)
        ensures
            t == (Timestamp { secs, nanos }),
    {
        Timestamp { secs, nanos }
    }

    /// Whether `self` is not later than `other`.
    pub fn le(&self, other: &Timestamp) -> (b: bool)
        ensures
            b == self.spec_le(*other),
    {
        self.secs < other.secs || (self.secs == other.secs && self.nanos <= other.nanos)
    }
}

impl Default for Timestamp {
    fn default() -> (t: Timestamp)
        ensures
            t == Timestamp::zero(),
    {
        Timestamp { secs: 0, nanos: 0 }
    }
}

/// What the chain keeps about one block. The points themselves live in the
/// block's file, whose name is the decimal form of `id`.
#[derive(Clone, Copy, Debug, PartialEq, Eq, Structural)]
pub struct SeriesBlock {
    /// The block's position in its chain, and its file's name.
    pub id: u64,
    /// How many points the block holds.
    pub point_count: u16,
    /// When the first point was written.
    pub from: Timestamp,
    /// When the last point was written.
    pub to: Timestamp,
}

/// `anyhow::Error`, which the host's failures arrive in. Nothing is known of
/// what one holds.
#[verifier::external_type_specification]
#[verifier::external_body]
pub struct ExAnyhowError(anyhow::Error);

/// The points of a block file, without their timestamps.
pub open spec fn points_of<T>(entries: Seq<(Timestamp, T)>) -> Seq<T> {
    Seq::new(entries.len(), |i: int| entries[i].1)
}

/// The ten decimal digits.
pub open spec fn decimal_digits() -> Seq<char> {
    seq!['0', '1', '2', '3', '4', '5', '6', '7', '8', '9']
}

/// A number in decimal, without leading zeros.
pub open spec fn decimal(n: nat) -> Seq<char>
    decreases n,
{
    if n < 10 {
        seq![decimal_digits()[n as int]]
    } else {
        decimal(n / 10).push(decimal_digits()[(n % 10) as int])
    }
}

/// The name of the file of the block with the given id: the id in decimal.
pub fn file_name(id: u64) -> (name: String)
    ensures
        name@ == decimal(id as nat),
    decreases id,
{
    let digits = "0123456789";
    proof {
        reveal_strlit("0123456789");
    }
    assert(digits@ =~= decimal_digits());
    assert(digits.is_ascii());
    if id < 10 {
        let at: usize = id as usize;
        let name = String::from_str(digits.substring_ascii(at, at + 1));
        assert(name@ =~= seq![decimal_digits()[id as int]]);
        name
    } else {
        let at: usize = (id % 10) as usize;
        let mut name = file_name(id / 10);
        name.append(digits.substring_ascii(at, at + 1));
        assert(name@ =~= decimal(id as nat / 10).push(decimal_digits()[(id % 10) as int]));
        name
    }
}

/// Why an append to a block did not take place.
#[derive(Debug)]
pub enum SeriesBlockErr {
    /// The block already holds as many points as it may; the number is how many.
    BlockAtCapacity(usize),
    /// A failure of the host's, carried through.
    Other(anyhow::Error),
}

impl SeriesBlockErr {
    pub fn map(e: anyhow::Error) -> (err: Self)
        ensures
            err == SeriesBlockErr::Other(e),
    {
        Self::Other(e)
    }
}

impl SeriesBlock {
    /// An empty block with the given id.
    pub open spec fn empty(id: u64) -> SeriesBlock {
        SeriesBlock { id, point_count: 0, from: Timestamp::zero(), to: Timestamp::zero() }
    }

    /// The descriptor after a point stamped `now` has been appended to a file
    /// that held `held` entries.
    pub open spec fn stamped(self, held: nat, now: Timestamp) -> SeriesBlock {
        SeriesBlock {
            id: self.id,
            point_count: (held + 1) as u16,
            from: if held == 0 { now } else { self.from },
            to: now,
        }
    }

    /// A fresh, empty block that follows this one in the chain.
    pub fn next_block(&self) -> (next: Self)
        requires
            self.id < u64::MAX,
        ensures
            next == SeriesBlock::empty((self.id + 1) as u64),
    {
        let mut next = Self::default();
        next.id = self.id + 1;
        next
    }

    /// Appends `point`, stamped `now`, to the block whose file holds `entries`.
    ///
    /// A block that already holds `max_points` entries or more is left alone,
    /// and the point comes back with the count. Otherwise the point goes to the
    /// end of `entries`, which the caller then stores, and its offset is returned.
    pub fn write<T>(
        &mut self,
        entries: &mut Vec<(Timestamp, T)>,
        point: T,
        now: Timestamp,
        max_points: u16,
    ) -> (r: Result<usize, (SeriesBlockErr, T)>)
        ensures
            old(entries)@.len() >= max_points ==> {
                &&& r == Err::<usize, (SeriesBlockErr, T)>(
                    (SeriesBlockErr::BlockAtCapacity(old(entries).len()), point),
                )
                &&& *final(self) == *old(self)
                &&& final(entries)@ == old(entries)@
            },
            old(entries)@.len() < max_points ==> {
                &&& r == Ok::<usize, (SeriesBlockErr, T)>(old(entries).len())
                &&& *final(self) == old(self).stamped(old(entries)@.len(), now)
                &&& final(entries)@ == old(entries)@.push((now, point))
            },
    {
        let held: usize = entries.len();
        if held >= max_points as usize {
            return Err((SeriesBlockErr::BlockAtCapacity(held), point));
        }
        entries.push((now, point));
        self.point_count = (held + 1) as u16;
        self.to = now;
        if held == 0 {
            self.from = now;
        }
        Ok(held)
    }
}

impl SeriesBlock {
    /// The points of a block whose file holds `entries`, in the order in which
    /// they were appended. A block that was never written has no file: for it
    /// the caller hands in the empty list and gets the empty list.
    pub fn read_all<T>(entries: Vec<(Timestamp, T)>) -> (points: Vec<T>)
        ensures
            points@ == points_of(entries@),
    {
        let ghost all = entries@;
        let mut points: Vec<T> = Vec::new();
        for entry in it: entries
            invariant
                it.seq() == all,
                points@ == points_of(all.take(it.index() as int)),
        {
            points.push(entry.1);
            assert(points_of(all.take(it.index() + 1)) =~= points_of(
                all.take(it.index() as int),
            ).push(all[it.index() as int].1));
        }
        assert(all.take(all.len() as int) =~= all);
        points
    }
}

/// While the clock does not run backwards, the first write of a block is not
/// later than its last.
pub proof fn lemma_span_in_order(block: SeriesBlock, held: nat, now: Timestamp)
    requires
        held > 0 ==> block.from.spec_le(block.to),
        block.to.spec_le(now),
    ensures
        block.stamped(held, now).from.spec_le(block.stamped(held, now).to),
{
}

impl Default for SeriesBlock {
    fn default() -> (block: SeriesBlock)
        ensures
            block == SeriesBlock::empty(0),
    {
        SeriesBlock {
            id: 0,
            point_count: 0,
            from: Timestamp { secs: 0, nanos: 0 },
            to: Timestamp { secs: 0, nanos: 0 },
        }
    }
}

} // verus!
