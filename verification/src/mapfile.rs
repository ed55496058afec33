//! The mapfile in memory: which byte ranges of a disc image are good,
//! unreadable, or not yet attempted, and whose disc it is.

use crate::entries::{
    above, below, bytes_with, count_with, join_last, joined, lemma_bytes_bound,
    lemma_chain_bytes, lemma_joined, lemma_recorded, maximal_runs, no_empty,
    ordered, part_above, part_below, partitions, ranges_among, recorded, replaced, status_at,
    MapEntry,
};
use crate::status::SectorStatus;
use crate::tallies::lemma_count_recorded;
use vstd::prelude::*;

verus! {

/// An AACS key or volume id.
pub type Key = [u8; 16];

/// Least time between two writes of the mapfile, in milliseconds. Bounds the
/// rename rate on network storage; the worst loss in a crash is one interval's
/// worth of records.
pub const FLUSH_INTERVAL_MS: u64 = 1000;

/// What makes a mapfile, or a change to one, unacceptable.
#[derive(Debug, Clone, Copy, PartialEq, Eq, Structural)]
pub enum MapfileInvalid {
    /// A volume id header that is not a volume id.
    Vid,
    /// A unit key header that is not a unit key.
    UnitKey,
    /// A data line with fewer than three fields.
    ShortLine,
    /// A position or size that is not a number.
    Hex,
    /// A range that ends beyond the last addressable byte.
    Range,
    /// A range of no bytes.
    ZeroSize,
    /// A status that is not one of the five.
    StatusChar,
    /// Two ranges that share bytes.
    Overlap,
    /// A mapfile of another disc.
    DiscMismatch,
}

impl MapfileInvalid {
    /// The stable, language-neutral name of the fault.
    pub fn kind(self) -> (r: &'static str)
        ensures
            r@ == match self {
                MapfileInvalid::Vid => "vid"@,
                MapfileInvalid::UnitKey => "unit_key"@,
                MapfileInvalid::ShortLine => "short_line"@,
                MapfileInvalid::Hex => "hex"@,
                MapfileInvalid::Range => "range"@,
                MapfileInvalid::ZeroSize => "zero_size"@,
                MapfileInvalid::StatusChar => "status_char"@,
                MapfileInvalid::Overlap => "overlap"@,
                MapfileInvalid::DiscMismatch => "disc-mismatch"@,
            },
    {
        match self {
            MapfileInvalid::Vid => "vid",
            MapfileInvalid::UnitKey => "unit_key",
            MapfileInvalid::ShortLine => "short_line",
            MapfileInvalid::Hex => "hex",
            MapfileInvalid::Range => "range",
            MapfileInvalid::ZeroSize => "zero_size",
            MapfileInvalid::StatusChar => "status_char",
            MapfileInvalid::Overlap => "overlap",
            MapfileInvalid::DiscMismatch => "disc-mismatch",
        }
    }
}

/// Summary statistics over all entries.
///
/// `bytes_pending` aggregates `NonTried + NonTrimmed + NonScraped`.
/// `bytes_nontried` and `bytes_retryable` (`NonTrimmed + NonScraped`) split
/// that aggregate, so a front-end can tell unread territory from territory
/// that is queued for a retry.
#[derive(Debug, Clone, Copy, PartialEq, Eq, Structural)]
pub struct MapStats {
    pub bytes_total: u64,
    pub bytes_good: u64,
    pub bytes_unreadable: u64,
    pub bytes_pending: u64,
    /// Bytes the first pass has not reached yet. Part of `bytes_pending`.
    pub bytes_nontried: u64,
    /// Bytes flagged for another pass. Part of `bytes_pending`, and the right
    /// signal for a "will retry" bucket.
    pub bytes_retryable: u64,
    /// Number of distinct unreadable ranges.
    pub num_bad_ranges: u32,
}

impl Default for MapStats {
    fn default() -> (r: MapStats)
        ensures
            r == (MapStats {
                bytes_total: 0,
                bytes_good: 0,
                bytes_unreadable: 0,
                bytes_pending: 0,
                bytes_nontried: 0,
                bytes_retryable: 0,
                num_bad_ranges: 0,
            }),
    {
        MapStats {
            bytes_total: 0,
            bytes_good: 0,
            bytes_unreadable: 0,
            bytes_pending: 0,
            bytes_nontried: 0,
            bytes_retryable: 0,
            num_bad_ranges: 0,
        }
    }
}

/// Whether statistics are those of a list of entries.
pub open spec fn stats_match(st: MapStats, es: Seq<MapEntry>, total: u64) -> bool {
    &&& st.bytes_total == total
    &&& st.bytes_good == bytes_with(es, SectorStatus::Finished)
    &&& st.bytes_unreadable == bytes_with(es, SectorStatus::Unreadable)
    &&& st.bytes_nontried == bytes_with(es, SectorStatus::NonTried)
    &&& st.bytes_retryable == bytes_with(es, SectorStatus::NonTrimmed) + bytes_with(
        es,
        SectorStatus::NonScraped,
    )
    &&& st.bytes_pending == st.bytes_nontried + st.bytes_retryable
    &&& st.num_bad_ranges == count_with(es, SectorStatus::Unreadable)
}

/// What a mapfile holds.
#[verifier::ext_equal]
pub struct MapView {
    /// The ranges, in position order.
    pub entries: Seq<MapEntry>,
    /// The coverage the mapfile was opened for.
    pub total_size: u64,
    /// Who wrote it.
    pub version: Seq<char>,
    /// The statistics kept beside the entries.
    pub stats: MapStats,
    /// Whether there is anything to write.
    pub dirty: bool,
    /// The disc's AACS volume id, where its keys are not known.
    pub vid: Option<Key>,
    /// The disc's AACS unit keys, by CPS unit.
    pub unit_keys: Seq<(u32, Key)>,
}

/// The progress record of one disc image. Every change keeps the statistics
/// up to date; writing it out is the owner's business, at most once per
/// [`FLUSH_INTERVAL_MS`] and whenever a pass ends.
#[derive(Debug)]
pub struct Mapfile {
    entries: Vec<MapEntry>,
    total_size: u64,
    version: String,
    stats: MapStats,
    dirty: bool,
    vid: Option<Key>,
    unit_keys: Vec<(u32, Key)>,
}

impl View for Mapfile {
    type V = MapView;

    closed spec fn view(&self) -> MapView {
        MapView {
            entries: self.entries@,
            total_size: self.total_size,
            version: self.version@,
            stats: self.stats,
            dirty: self.dirty,
            vid: self.vid,
            unit_keys: self.unit_keys@,
        }
    }
}

/// What a fresh mapfile holds.
pub open spec fn fresh_map(total_size: u64, version: Seq<char>) -> MapView {
    MapView {
        entries: seq![MapEntry { pos: 0, size: total_size, status: SectorStatus::NonTried }],
        total_size,
        version,
        stats: MapStats {
            bytes_total: total_size,
            bytes_good: 0,
            bytes_unreadable: 0,
            bytes_pending: total_size,
            bytes_nontried: total_size,
            bytes_retryable: 0,
            num_bad_ranges: 0,
        },
        dirty: false,
        vid: None,
        unit_keys: seq![],
    }
}

/// Whether the damaged ranges of a mapfile can still be counted once a range
/// has been recorded in it. Recording adds at most two, so it is enough that
/// there is room for two more.
pub open spec fn countable(v: MapView, e: MapEntry) -> bool {
    ||| v.stats.num_bad_ranges + 2 <= u32::MAX
    ||| e.size == 0
    ||| e.end() > u64::MAX
    ||| count_with(recorded(v.entries, e), SectorStatus::Unreadable) <= u32::MAX
}

impl Mapfile {
    /// The entries are in order, the statistics are theirs, and there are unit
    /// keys or a volume id, never both.
    pub open spec fn wf(&self) -> bool {
        &&& ordered(self@.entries)
        &&& stats_match(self@.stats, self@.entries, self@.total_size)
        &&& self@.unit_keys.len() > 0 ==> self@.vid is None
    }

    /// A fresh mapfile: one range, not yet tried, over the whole disc.
    pub fn create(total_size: u64, version: &str) -> (mf: Mapfile)
        ensures
            mf.wf(),
            mf@ == fresh_map(total_size, version@),
            partitions(mf@.entries, total_size as int),
    {
        let e = MapEntry { pos: 0, size: total_size, status: SectorStatus::NonTried };
        let mut entries: Vec<MapEntry> = Vec::new();
        entries.push(e);
        let stats = MapStats {
            bytes_total: total_size,
            bytes_good: 0,
            bytes_unreadable: 0,
            bytes_pending: total_size,
            bytes_nontried: total_size,
            bytes_retryable: 0,
            num_bad_ranges: 0,
        };
        proof {
            let es = entries@;
            assert(es =~= seq![e]);
            let none = es.drop_last();
            assert(none.len() == 0 && es.last() == e);
            assert(bytes_with(none, SectorStatus::Finished) == 0);
            assert(bytes_with(none, SectorStatus::Unreadable) == 0);
            assert(bytes_with(none, SectorStatus::NonTried) == 0);
            assert(bytes_with(none, SectorStatus::NonTrimmed) == 0);
            assert(bytes_with(none, SectorStatus::NonScraped) == 0);
            assert(count_with(none, SectorStatus::Unreadable) == 0);
        }
        Mapfile {
            entries,
            total_size,
            version: version.to_owned(),
            stats,
            dirty: false,
            vid: None,
            unit_keys: Vec::new(),
        }
    }

    /// A mapfile from its parts, as read from its text.
    pub(crate) fn from_parts(
        entries: Vec<MapEntry>,
        total_size: u64,
        version: String,
        vid: Option<Key>,
        unit_keys: Vec<(u32, Key)>,
    ) -> (mf: Mapfile)
        requires
            ordered(entries@),
            count_with(entries@, SectorStatus::Unreadable) <= u32::MAX,
            unit_keys@.len() > 0 ==> vid is None,
        ensures
            mf.wf(),
            mf@.entries == entries@,
            mf@.total_size == total_size,
            mf@.version == version@,
            !mf@.dirty,
            mf@.vid == vid,
            mf@.unit_keys == unit_keys@,
    {
        let stats = compute_stats(&entries, total_size);
        Mapfile { entries, total_size, version, stats, dirty: false, vid, unit_keys }
    }

    /// Mark a byte range as having the given status. Splits any overlapping
    /// entries and joins neighbours of one status. A range of no bytes changes
    /// nothing; a range that would end beyond the address space is refused.
    pub fn record(&mut self, pos: u64, size: u64, status: SectorStatus) -> (r: Result<
        (),
        MapfileInvalid,
    >)
        requires
            old(self).wf(),
            countable(old(self)@, (MapEntry { pos, size, status })),
        ensures
            final(self).wf(),
            r == if size == 0 || pos + size <= u64::MAX {
                Ok::<(), MapfileInvalid>(())
            } else {
                Err(MapfileInvalid::Range)
            },
            size == 0 || r is Err ==> final(self)@ == old(self)@,
            size > 0 && r is Ok ==> {
                let e = MapEntry { pos, size, status };
                &&& final(self)@.entries == recorded(old(self)@.entries, e)
                &&& final(self)@.dirty
                &&& final(self)@.total_size == old(self)@.total_size
                &&& final(self)@.version == old(self)@.version
                &&& final(self)@.vid == old(self)@.vid
                &&& final(self)@.unit_keys == old(self)@.unit_keys
                &&& forall|x: int|
                    #![trigger status_at(final(self)@.entries, x)]
                    status_at(final(self)@.entries, x) == if pos <= x < pos + size {
                        Some(status)
                    } else {
                        status_at(old(self)@.entries, x)
                    }
                &&& maximal_runs(final(self)@.entries)
                &&& no_empty(old(self)@.entries) ==> no_empty(final(self)@.entries)
                &&& partitions(old(self)@.entries, old(self)@.total_size as int) && pos + size
                    <= old(self)@.total_size ==> partitions(
                    final(self)@.entries,
                    final(self)@.total_size as int,
                )
            },
    {
        if size == 0 {
            return Ok(());
        }
        let end: u64 = match pos.checked_add(size) {
            None => {
                return Err(MapfileInvalid::Range);
            },
            Some(end) => end,
        };
        let e = MapEntry { pos, size, status };
        proof {
            lemma_recorded(self.entries@, e);
            lemma_count_recorded(self.entries@, e, SectorStatus::Unreadable);
        }
        let merged = record_range(&self.entries, e, end);
        self.stats = compute_stats(&merged, self.total_size);
        self.entries = merged;
        self.dirty = true;
        Ok(())
    }

    /// Whether the mapfile is due to be written, given how long ago it was
    /// last written.
    pub fn flush_due(&self, ms_since_flush: u64) -> (r: bool)
        ensures
            r == (self@.dirty && ms_since_flush >= FLUSH_INTERVAL_MS),
            r == (self@.dirty && ms_since_flush >= 1000),
    {
        self.dirty && ms_since_flush >= FLUSH_INTERVAL_MS
    }

    /// Whether anything has changed since the mapfile was last written.
    pub fn is_dirty(&self) -> (r: bool)
        ensures
            r == self@.dirty,
    {
        self.dirty
    }

    /// Note that the mapfile has been written.
    pub fn mark_flushed(&mut self)
        ensures
            final(self)@ == (MapView { dirty: false, ..old(self)@ }),
            old(self).wf() ==> final(self).wf(),
    {
        self.dirty = false;
    }

    /// Record the disc's AACS volume id. Unit keys win over it: where they are
    /// known the id is not kept.
    pub fn set_vid(&mut self, vid: Key)
        ensures
            final(self)@ == (MapView {
                vid: if old(self)@.unit_keys.len() > 0 {
                    None
                } else {
                    Some(vid)
                },
                dirty: true,
                ..old(self)@
            }),
            old(self).wf() ==> final(self).wf(),
    {
        self.vid = if self.unit_keys.len() > 0 {
            None
        } else {
            Some(vid)
        };
        self.dirty = true;
    }

    /// The disc's AACS volume id, if one was recorded.
    pub fn vid(&self) -> (r: Option<Key>)
        ensures
            r == self@.vid,
    {
        self.vid
    }

    /// Record the disc's AACS unit keys. Keys clear any volume id: they are
    /// the final answer, the id only marks a disc that still needs one.
    pub fn set_unit_keys(&mut self, keys: &[(u32, Key)])
        ensures
            final(self)@ == (MapView {
                unit_keys: keys@,
                vid: if keys@.len() > 0 {
                    None
                } else {
                    old(self)@.vid
                },
                dirty: true,
                ..old(self)@
            }),
            old(self).wf() ==> final(self).wf(),
    {
        self.unit_keys = copy_keys(keys);
        if keys.len() > 0 {
            self.vid = None;
        }
        self.dirty = true;
    }

    /// The disc's AACS unit keys. Empty where the disc is not keyed.
    pub fn unit_keys(&self) -> (r: &[(u32, Key)])
        ensures
            r@ == self@.unit_keys,
    {
        self.unit_keys.as_slice()
    }

    /// All entries, in position order.
    pub fn entries(&self) -> (r: &[MapEntry])
        ensures
            r@ == self@.entries,
    {
        self.entries.as_slice()
    }

    /// Who wrote the mapfile.
    pub fn version(&self) -> (r: &str)
        ensures
            r@ == self@.version,
    {
        self.version.as_str()
    }

    /// Total image size in bytes, fixed when the mapfile is made or loaded.
    /// Recording a range never changes it.
    pub fn total_size(&self) -> (r: u64)
        ensures
            r == self@.total_size,
    {
        self.total_size
    }

    /// The first range with a status that reaches beyond `from`, without what
    /// lies before `from`.
    pub fn next_with(&self, from: u64, status: SectorStatus) -> (r: Option<(u64, u64)>)
        requires
            self.wf(),
        ensures
            r is None <==> forall|i: int|
                0 <= i < self@.entries.len() ==> !reaches(#[trigger] self@.entries[i], from, status),
            r matches Some((start, len)) ==> exists|i: int|
                #![trigger self@.entries[i]]
                0 <= i < self@.entries.len() && reaches(self@.entries[i], from, status) && (forall|
                    j: int,
                |
                    0 <= j < i ==> !reaches(#[trigger] self@.entries[j], from, status)) && start
                    == if self@.entries[i].pos >= from {
                    self@.entries[i].pos
                } else {
                    from
                } && start + len == self@.entries[i].end(),
    {
        let mut i: usize = 0;
        while i < self.entries.len()
            invariant
                i <= self.entries@.len(),
                self.wf(),
                self@.entries == self.entries@,
                forall|j: int| 0 <= j < i ==> !reaches(#[trigger] self@.entries[j], from, status),
            decreases self.entries@.len() - i,
        {
            let e = self.entries[i];
            assert(self@.entries[i as int] == e);
            let e_end: u64 = e.pos + e.size;
            if e.status == status && e_end > from {
                let start: u64 = if e.pos >= from {
                    e.pos
                } else {
                    from
                };
                assert(reaches(self@.entries[i as int], from, status));
                return Some((start, e_end - start));
            }
            i = i + 1;
        }
        None
    }

    /// All ranges whose status is among the given, in position order.
    pub fn ranges_with(&self, statuses: &[SectorStatus]) -> (r: Vec<(u64, u64)>)
        ensures
            r@ == ranges_among(self@.entries, statuses@),
    {
        let mut out: Vec<(u64, u64)> = Vec::new();
        let mut i: usize = 0;
        assert(self.entries@.take(0) =~= seq![]);
        while i < self.entries.len()
            invariant
                i <= self.entries@.len(),
                out@ == ranges_among(self.entries@.take(i as int), statuses@),
            decreases self.entries@.len() - i,
        {
            let e = self.entries[i];
            assert(self.entries@.take(i + 1).drop_last() =~= self.entries@.take(i as int));
            if has_status(statuses, e.status) {
                out.push((e.pos, e.size));
            }
            i = i + 1;
        }
        assert(self.entries@.take(i as int) =~= self.entries@);
        out
    }

    /// The summary statistics, kept up to date by every change.
    pub fn stats(&self) -> (r: MapStats)
        ensures
            r == self@.stats,
            self.wf() ==> stats_match(r, self@.entries, self@.total_size),
    {
        self.stats
    }
}

/// Whether an entry has a status and reaches beyond a position.
pub open spec fn reaches(e: MapEntry, from: u64, status: SectorStatus) -> bool {
    e.status == status && e.end() > from
}

/// Whether a status is among some.
fn has_status(statuses: &[SectorStatus], s: SectorStatus) -> (r: bool)
    ensures
        r == statuses@.contains(s),
{
    let mut i: usize = 0;
    while i < statuses.len()
        invariant
            i <= statuses@.len(),
            forall|j: int| 0 <= j < i ==> statuses@[j] != s,
        decreases statuses@.len() - i,
    {
        if statuses[i] == s {
            assert(statuses@[i as int] == s);
            return true;
        }
        i = i + 1;
    }
    false
}

/// A copy of a list of keys.
pub fn copy_keys(keys: &[(u32, Key)]) -> (r: Vec<(u32, Key)>)
    ensures
        r@ == keys@,
{
    let mut out: Vec<(u32, Key)> = Vec::new();
    let mut i: usize = 0;
    while i < keys.len()
        invariant
            i <= keys@.len(),
            out@ == keys@.take(i as int),
        decreases keys@.len() - i,
    {
        out.push(keys[i]);
        assert(out@ =~= keys@.take(i + 1));
        i = i + 1;
    }
    assert(out@ =~= keys@);
    out
}

/// The entries after a range has been recorded.
fn record_range(es: &Vec<MapEntry>, e: MapEntry, end: u64) -> (r: Vec<MapEntry>)
    requires
        ordered(es@),
        0 < e.size,
        e.end() == end,
    ensures
        r@ == recorded(es@, e),
{
    let mut cut: Vec<MapEntry> = Vec::new();
    let mut i: usize = 0;
    assert(es@.take(0) =~= seq![]);
    while i < es.len()
        invariant
            i <= es@.len(),
            ordered(es@),
            cut@ == below(es@.take(i as int), e.pos),
        decreases es@.len() - i,
    {
        let x = es[i];
        assert(es@.take(i + 1).drop_last() =~= es@.take(i as int));
        let x_end: u64 = x.pos + x.size;
        if x_end <= e.pos {
            cut.push(x);
        } else if x.pos < e.pos {
            cut.push(MapEntry { pos: x.pos, size: e.pos - x.pos, status: x.status });
        }
        assert(cut@ =~= below(es@.take(i as int), e.pos) + part_below(x, e.pos));
        i = i + 1;
    }
    assert(es@.take(i as int) =~= es@);
    cut.push(e);
    let ghost left = cut@;
    i = 0;
    assert(cut@ =~= left + above(es@.take(0), end));
    while i < es.len()
        invariant
            i <= es@.len(),
            ordered(es@),
            cut@ == left + above(es@.take(i as int), end),
        decreases es@.len() - i,
    {
        let x = es[i];
        assert(es@.take(i + 1).drop_last() =~= es@.take(i as int));
        let x_end: u64 = x.pos + x.size;
        if x.pos >= end {
            cut.push(x);
        } else if x_end > end {
            cut.push(MapEntry { pos: end, size: x_end - end, status: x.status });
        }
        assert(cut@ =~= left + (above(es@.take(i as int), end) + part_above(x, end)));
        i = i + 1;
    }
    assert(es@.take(i as int) =~= es@);
    assert(cut@ =~= replaced(es@, e));
    proof {
        crate::entries::lemma_replaced_ordered(es@, e);
    }
    join_entries(&cut)
}

/// The list with all neighbours of one status joined.
fn join_entries(es: &Vec<MapEntry>) -> (r: Vec<MapEntry>)
    requires
        ordered(es@),
    ensures
        r@ == joined(es@),
{
    let mut out: Vec<MapEntry> = Vec::new();
    let mut i: usize = 0;
    assert(es@.take(0) =~= seq![]);
    while i < es.len()
        invariant
            i <= es@.len(),
            ordered(es@),
            out@ == joined(es@.take(i as int)),
        decreases es@.len() - i,
    {
        let e = es[i];
        assert(es@.take(i + 1).drop_last() =~= es@.take(i as int));
        assert(ordered(es@.take(i as int)));
        proof {
            lemma_joined(es@.take(i as int));
            if i > 0 {
                assert(es@.take(i as int).last() == es@[i - 1]);
            }
        }
        let n: usize = out.len();
        if n > 0 && out[n - 1].pos + out[n - 1].size == e.pos && out[n - 1].status == e.status {
            let last = out[n - 1];
            let grown = MapEntry { pos: last.pos, size: last.size + e.size, status: e.status };
            out.pop();
            out.push(grown);
        } else {
            out.push(e);
        }
        assert(out@ =~= join_last(joined(es@.take(i as int)), e));
        i = i + 1;
    }
    assert(es@.take(i as int) =~= es@);
    out
}

/// The statistics of a list of entries.
fn compute_stats(es: &Vec<MapEntry>, total_size: u64) -> (st: MapStats)
    requires
        ordered(es@),
        count_with(es@, SectorStatus::Unreadable) <= u32::MAX,
    ensures
        stats_match(st, es@, total_size),
{
    let mut st = MapStats {
        bytes_total: total_size,
        bytes_good: 0,
        bytes_unreadable: 0,
        bytes_pending: 0,
        bytes_nontried: 0,
        bytes_retryable: 0,
        num_bad_ranges: 0,
    };
    let mut i: usize = 0;
    assert(es@.take(0) =~= seq![]);
    while i < es.len()
        invariant
            i <= es@.len(),
            ordered(es@),
            count_with(es@, SectorStatus::Unreadable) <= u32::MAX,
            stats_match(st, es@.take(i as int), total_size),
        decreases es@.len() - i,
    {
        let e = es[i];
        let ghost here = es@.take(i as int);
        let ghost next = es@.take(i + 1);
        assert(next.drop_last() =~= here);
        assert(next.last() == e);
        assert(ordered(next));
        proof {
            lemma_bytes_bound(next);
            lemma_count_grows(es@, i + 1, SectorStatus::Unreadable);
        }
        match e.status {
            SectorStatus::Finished => {
                st.bytes_good = st.bytes_good + e.size;
            },
            SectorStatus::Unreadable => {
                st.bytes_unreadable = st.bytes_unreadable + e.size;
                st.num_bad_ranges = st.num_bad_ranges + 1;
            },
            SectorStatus::NonTried => {
                st.bytes_pending = st.bytes_pending + e.size;
                st.bytes_nontried = st.bytes_nontried + e.size;
            },
            SectorStatus::NonTrimmed | SectorStatus::NonScraped => {
                st.bytes_pending = st.bytes_pending + e.size;
                st.bytes_retryable = st.bytes_retryable + e.size;
            },
        }
        i = i + 1;
    }
    assert(es@.take(i as int) =~= es@);
    st
}

proof fn lemma_count_grows(es: Seq<MapEntry>, k: int, s: SectorStatus)
    requires
        0 <= k <= es.len(),
    ensures
        count_with(es.take(k), s) <= count_with(es, s),
    decreases es.len() - k,
{
    if k == es.len() {
        assert(es.take(k) =~= es);
    } else {
        assert(es.take(k + 1).drop_last() =~= es.take(k));
        lemma_count_grows(es, k + 1, s);
    }
}

/// Over a mapfile that covers its disc without a gap, every byte is good,
/// unreadable or pending, and every pending byte is unread or queued for a
/// retry.
pub proof fn law_stats_account_for_every_byte(st: MapStats, es: Seq<MapEntry>, total: u64)
    requires
        ordered(es),
        partitions(es, total as int),
        stats_match(st, es, total),
    ensures
        st.bytes_good + st.bytes_unreadable + st.bytes_pending == total,
        st.bytes_nontried + st.bytes_retryable == st.bytes_pending,
{
    lemma_bytes_bound(es);
    lemma_chain_bytes(es, 0, total as int);
}

} // verus!
