//! Which pass a copy has to run, given what earlier ones left behind.

use crate::disc::Disc;
use crate::entries::{lemma_bytes_bound, no_empty, ordered, partitions};
use crate::identity::{check_mapfile_identity, identity_matches};
use crate::mapfile::{
    law_stats_account_for_every_byte, stats_match, Key, MapStats, MapView, Mapfile, MapfileInvalid,
};
use crate::mapfile_round_trip::{law_text_round_trip, one_line};
use crate::mapfile_text::{map_text, reads_as};
use vstd::prelude::*;

verus! {

/// What goes into the mapfile's header.
pub const MAPFILE_CREATOR: &'static str = "freemkv-engine v1.6.0";

/// The outcome of a copy.
#[derive(Debug, Clone, Copy, PartialEq, Eq, Structural)]
pub struct CopyResult {
    pub bytes_total: u64,
    pub bytes_good: u64,
    pub bytes_unreadable: u64,
    pub bytes_pending: u64,
    pub recovered_this_pass: u64,
    /// Nothing pending, nothing lost, not interrupted.
    pub complete: bool,
    pub halted: bool,
}

/// The result of a copy with some figures.
pub open spec fn copy_result(
    bytes_total: u64,
    bytes_good: u64,
    bytes_unreadable: u64,
    bytes_pending: u64,
    recovered_this_pass: u64,
    halted: bool,
) -> CopyResult {
    CopyResult {
        bytes_total,
        bytes_good,
        bytes_unreadable,
        bytes_pending,
        recovered_this_pass,
        complete: bytes_pending == 0 && bytes_unreadable == 0 && !halted,
        halted,
    }
}

/// A copy is complete where no byte is pending, none is lost, and it was not
/// halted; and it says of each figure what it was given.
pub proof fn law_when_a_copy_is_complete(a: u64, b: u64, c: u64, d: u64, e: u64, halted: bool)
    ensures
        ({
            let r = copy_result(a, b, c, d, e, halted);
            &&& r.bytes_total == a && r.bytes_good == b && r.bytes_unreadable == c
                && r.bytes_pending == d && r.recovered_this_pass == e && r.halted == halted
            &&& r.complete <==> r.bytes_pending == 0 && r.bytes_unreadable == 0 && !r.halted
        }),
{
}

impl CopyResult {
    /// The one definition of a finished copy: no bytes left to retry, none
    /// permanently lost, and the pass was not interrupted.
    pub fn new(
        bytes_total: u64,
        bytes_good: u64,
        bytes_unreadable: u64,
        bytes_pending: u64,
        recovered_this_pass: u64,
        halted: bool,
    ) -> (r: CopyResult)
        ensures
            r == copy_result(
                bytes_total,
                bytes_good,
                bytes_unreadable,
                bytes_pending,
                recovered_this_pass,
                halted,
            ),
            r == (CopyResult {
                bytes_total,
                bytes_good,
                bytes_unreadable,
                bytes_pending,
                recovered_this_pass,
                complete: bytes_pending == 0 && bytes_unreadable == 0 && !halted,
                halted,
            }),
    {
        CopyResult {
            bytes_total,
            bytes_good,
            bytes_unreadable,
            bytes_pending,
            recovered_this_pass,
            complete: bytes_pending == 0 && bytes_unreadable == 0 && !halted,
            halted,
        }
    }
}

/// The length of the output image.
#[derive(Debug, Clone, Copy, PartialEq, Eq, Structural)]
pub enum IsoLen {
    /// There is no image.
    Missing,
    /// The image is this many bytes long.
    Len(u64),
}

/// The image a mapfile describes, measured against the length it should have.
#[derive(Debug, Clone, Copy, PartialEq, Eq, Structural)]
pub struct ImageState {
    /// Length on disk; zero where there is no image.
    pub len: u64,
    /// Length the mapfile says the image has.
    pub want: u64,
}

impl ImageState {
    /// Measure an image. A missing one is as long as an empty one.
    pub fn measure(len: IsoLen, want: u64) -> (r: ImageState)
        ensures
            r.want == want,
            r.len == match len {
                IsoLen::Missing => 0,
                IsoLen::Len(n) => n,
            },
    {
        let len: u64 = match len {
            IsoLen::Missing => 0,
            IsoLen::Len(n) => n,
        };
        ImageState { len, want }
    }

    /// Exactly the length it should be. A longer image is not the one the
    /// mapfile describes.
    pub fn is_intact(&self) -> (r: bool)
        ensures
            r <==> self.len == self.want,
    {
        self.len == self.want
    }

    /// Short of what the mapfile describes: trusting the mapfile would invent
    /// data that was never read.
    pub fn is_short(&self) -> (r: bool)
        ensures
            r <==> self.len < self.want,
    {
        self.len < self.want
    }
}

/// What a copy does next.
#[derive(Debug, Clone, Copy, PartialEq, Eq, Structural)]
pub enum Dispatch {
    /// Sweep the whole disc anew.
    FreshSweep,
    /// Sweep what has not been tried yet.
    ResumeSweep,
    /// Retry the damaged ranges.
    Patch,
    /// There is nothing to do: report this.
    Terminal(CopyResult),
}

/// Whether every byte of the disc is good by the mapfile.
pub open spec fn all_good(st: MapStats) -> bool {
    st.bytes_pending == 0 && st.bytes_unreadable == 0
}

/// The terminal result of a copy that has nothing left to do.
pub open spec fn terminal(disc_size: u64, st: MapStats, pending: u64) -> CopyResult {
    CopyResult {
        bytes_total: disc_size,
        bytes_good: st.bytes_good,
        bytes_unreadable: st.bytes_unreadable,
        bytes_pending: pending,
        recovered_this_pass: 0,
        complete: pending == 0 && st.bytes_unreadable == 0,
        halted: false,
    }
}

/// What a copy does next, by a mapfile of the right disc.
pub open spec fn next_pass(
    total_size: u64,
    st: MapStats,
    disc_size: u64,
    image_len: u64,
    multipass: bool,
) -> Dispatch {
    if total_size != disc_size {
        Dispatch::FreshSweep
    } else if all_good(st) {
        if image_len == disc_size {
            Dispatch::Terminal(terminal(disc_size, st, 0))
        } else {
            Dispatch::FreshSweep
        }
    } else if st.bytes_nontried > 0 {
        Dispatch::ResumeSweep
    } else if multipass && st.bytes_retryable > 0 {
        Dispatch::Patch
    } else if multipass {
        Dispatch::Terminal(terminal(disc_size, st, 0))
    } else {
        Dispatch::Terminal(terminal(disc_size, st, st.bytes_pending))
    }
}

/// Decide what a copy does next where a mapfile exists. A mapfile of another
/// disc is refused before anything else is decided.
pub fn dispatch(map: &Mapfile, disc: &Disc, image_len: IsoLen, multipass: bool) -> (r: Result<
    Dispatch,
    MapfileInvalid,
>)
    requires
        map.wf(),
    ensures
        r == if identity_matches(map@, *disc) {
            Ok(
                next_pass(
                    map@.total_size,
                    map@.stats,
                    disc.capacity_bytes,
                    match image_len {
                        IsoLen::Missing => 0,
                        IsoLen::Len(n) => n,
                    },
                    multipass,
                ),
            )
        } else {
            Err(MapfileInvalid::DiscMismatch)
        },
{
    match check_mapfile_identity(map, disc) {
        Ok(()) => {},
        Err(e) => {
            return Err(e);
        },
    }
    let st = map.stats();
    let disc_size: u64 = disc.capacity_bytes;
    let covers_disc: bool = map.total_size() == disc_size;
    proof {
        lemma_bytes_bound(map@.entries);
    }
    let bad_bytes: u64 = st.bytes_pending + st.bytes_unreadable;
    let image = ImageState::measure(image_len, disc_size);
    let finished: bool = covers_disc && bad_bytes == 0 && st.bytes_nontried == 0;
    if finished && !image.is_intact() {
        return Ok(Dispatch::FreshSweep);
    }
    if finished {
        return Ok(
            Dispatch::Terminal(
                CopyResult::new(disc_size, st.bytes_good, st.bytes_unreadable, 0, 0, false),
            ),
        );
    }
    if !covers_disc {
        return Ok(Dispatch::FreshSweep);
    }
    if st.bytes_nontried > 0 {
        return Ok(Dispatch::ResumeSweep);
    }
    if multipass {
        if st.bytes_retryable > 0 {
            return Ok(Dispatch::Patch);
        }
        return Ok(
            Dispatch::Terminal(
                CopyResult::new(disc_size, st.bytes_good, st.bytes_unreadable, 0, 0, false),
            ),
        );
    }
    Ok(
        Dispatch::Terminal(
            CopyResult::new(
                disc_size,
                st.bytes_good,
                st.bytes_unreadable,
                st.bytes_pending,
                0,
                false,
            ),
        ),
    )
}

/// Whether a mapfile that was loaded for a sweep can be resumed from, as far as
/// the mapfile goes: it must be the disc's, and cover as much.
pub fn resume_from_mapfile(map: &Mapfile, disc: &Disc, total_bytes: u64) -> (r: Result<
    bool,
    MapfileInvalid,
>)
    ensures
        r == if identity_matches(map@, *disc) {
            Ok(map@.total_size == total_bytes)
        } else {
            Err(MapfileInvalid::DiscMismatch)
        },
{
    match check_mapfile_identity(map, disc) {
        Ok(()) => Ok(map.total_size() == total_bytes),
        Err(e) => Err(e),
    }
}

/// Whether an image of a length allows a resume by a mapfile.
pub open spec fn allows_resume(total_size: u64, st: MapStats, image_len: IsoLen) -> bool {
    st.bytes_pending == total_size || match image_len {
        IsoLen::Missing => total_size == 0,
        IsoLen::Len(n) => n >= total_size,
    }
}

/// An image allows a resume where none of what the mapfile claims to have tried
/// could be missing from it: it has every byte of the disc, or by the mapfile
/// every byte is still pending. An image that is not there has no byte.
pub proof fn law_when_an_image_allows_a_resume(total_size: u64, st: MapStats, image_len: IsoLen)
    ensures
        ({
            let there = match image_len {
                IsoLen::Missing => 0,
                IsoLen::Len(n) => n,
            };
            &&& there >= total_size ==> allows_resume(total_size, st, image_len)
            &&& there < total_size ==> (allows_resume(total_size, st, image_len)
                <==> st.bytes_pending == total_size)
        }),
{
}

/// Whether the image allows a resume: it must be as long as the mapfile says,
/// unless the mapfile claims no progress at all.
pub fn image_allows_resume(map: &Mapfile, image_len: IsoLen) -> (r: bool)
    ensures
        r == allows_resume(map@.total_size, map@.stats, image_len),
        r <==> map@.stats.bytes_pending == map@.total_size || match image_len {
            IsoLen::Missing => map@.total_size == 0,
            IsoLen::Len(n) => n >= map@.total_size,
        },
{
    let image = ImageState::measure(image_len, map.total_size());
    let claims_progress: bool = map.stats().bytes_pending != map.total_size();
    !(image.is_short() && claims_progress)
}

/// Whether a sweep opens the image that is there, rather than make a new one.
pub fn opens_existing_image(resume: bool, image_len: IsoLen) -> (r: bool)
    ensures
        r <==> resume && (image_len matches IsoLen::Len(n) && n > 0),
{
    match image_len {
        IsoLen::Missing => false,
        IsoLen::Len(n) => resume && n > 0,
    }
}

/// What a mapfile holds once it notes whose disc it is.
pub open spec fn stamped(v: MapView, unit_keys: Seq<(u32, Key)>, vid: Option<Key>) -> MapView {
    if unit_keys.len() > 0 {
        MapView { unit_keys, vid: None, dirty: true, ..v }
    } else {
        match vid {
            Some(id) => MapView {
                vid: if v.unit_keys.len() > 0 {
                    None
                } else {
                    Some(id)
                },
                dirty: true,
                ..v
            },
            None => v,
        }
    }
}

/// What noting the identity does: keys take the place of any that were there and
/// of a volume id; an id is noted only where there are no keys at all; and no
/// byte of the record changes. A mapfile never has both.
pub proof fn law_what_a_stamp_does(v: MapView, unit_keys: Seq<(u32, Key)>, vid: Option<Key>)
    requires
        v.unit_keys.len() > 0 ==> v.vid is None,
    ensures
        ({
            let t = stamped(v, unit_keys, vid);
            &&& t.entries == v.entries && t.total_size == v.total_size && t.version == v.version
                && t.stats == v.stats
            &&& t.unit_keys.len() > 0 ==> t.vid is None
            &&& unit_keys.len() > 0 ==> t.unit_keys == unit_keys
            &&& unit_keys.len() == 0 ==> t.unit_keys == v.unit_keys
            &&& t.unit_keys.len() == 0 && vid is Some ==> t.vid == vid
            &&& unit_keys.len() == 0 && vid is None ==> t.vid == v.vid
            &&& t != v ==> t.dirty
        }),
{
}

/// Note in the mapfile whose disc it is: the unit keys where they are known,
/// else the volume id. Keys that the mapfile already holds stay, and no id is
/// kept beside them.
pub fn stamp_identity(map: &mut Mapfile, unit_keys: &[(u32, Key)], vid: Option<Key>)
    ensures
        final(map)@ == stamped(old(map)@, unit_keys@, vid),
        final(map)@ == if unit_keys@.len() > 0 {
            MapView { unit_keys: unit_keys@, vid: None, dirty: true, ..old(map)@ }
        } else {
            match vid {
                Some(v) => MapView {
                    vid: if old(map)@.unit_keys.len() > 0 {
                        None
                    } else {
                        Some(v)
                    },
                    dirty: true,
                    ..old(map)@
                },
                None => old(map)@,
            }
        },
        old(map).wf() ==> final(map).wf(),
{
    if unit_keys.len() > 0 {
        map.set_unit_keys(unit_keys);
    } else if let Some(v) = vid {
        map.set_vid(v);
    }
}

/// Who a mapfile says wrote it.
pub proof fn law_the_name_of_the_writer()
    ensures
        MAPFILE_CREATOR@ == "freemkv-engine v1.6.0"@,
{
}

/// What a copy does next, and when. It starts over where the mapfile covers
/// another size, or claims a finished disc without the image. Bytes that have
/// not been tried come before anything else; then, in a multipass copy, what can
/// be retried. Else it is over, and says what the mapfile says: with pending
/// bytes only where no later pass could take them, and complete exactly where
/// nothing is pending or unreadable.
pub proof fn law_what_a_copy_does_next(
    total_size: u64,
    st: MapStats,
    disc_size: u64,
    image_len: u64,
    multipass: bool,
)
    ensures
        ({
            let d = next_pass(total_size, st, disc_size, image_len, multipass);
            let covers = total_size == disc_size;
            let good = st.bytes_pending == 0 && st.bytes_unreadable == 0;
            &&& d is FreshSweep <==> !covers || (good && image_len != disc_size)
            &&& d is ResumeSweep <==> covers && !good && st.bytes_nontried > 0
            &&& d is Patch <==> covers && !good && st.bytes_nontried == 0 && multipass
                && st.bytes_retryable > 0
            &&& d matches Dispatch::Terminal(r) ==> {
                &&& r.bytes_total == disc_size
                &&& r.bytes_good == st.bytes_good
                &&& r.bytes_unreadable == st.bytes_unreadable
                &&& r.bytes_pending == if multipass {
                    0
                } else {
                    st.bytes_pending
                }
                &&& r.recovered_this_pass == 0
                &&& !r.halted
                &&& r.complete <==> r.bytes_pending == 0 && r.bytes_unreadable == 0
            }
        }),
{
}

/// A copy never reports success over an image that is not there: where nothing
/// is left to do and the result is complete, the image has the disc's length.
pub proof fn law_complete_means_the_image_is_there(
    total_size: u64,
    st: MapStats,
    disc_size: u64,
    image_len: u64,
    multipass: bool,
)
    requires
        st.bytes_pending == st.bytes_nontried + st.bytes_retryable,
    ensures
        next_pass(total_size, st, disc_size, image_len, multipass) matches Dispatch::Terminal(r)
            ==> r.complete ==> image_len == disc_size && total_size == disc_size
            && st.bytes_pending == 0 && st.bytes_unreadable == 0,
{
}

/// Unread bytes are swept before anything is patched, and a plain copy never
/// patches.
pub proof fn law_unread_bytes_come_first(
    total_size: u64,
    st: MapStats,
    disc_size: u64,
    image_len: u64,
    multipass: bool,
)
    requires
        st.bytes_pending == st.bytes_nontried + st.bytes_retryable,
    ensures
        next_pass(total_size, st, disc_size, image_len, multipass) is Patch ==> st.bytes_nontried
            == 0 && multipass && total_size == disc_size && st.bytes_retryable > 0,
        total_size == disc_size && st.bytes_nontried > 0 ==> next_pass(
            total_size,
            st,
            disc_size,
            image_len,
            multipass,
        ) is ResumeSweep,
{
}

/// A complete copy has every byte of the disc: where the mapfile covers the
/// disc without a gap and the result is complete, all of it is good.
pub proof fn law_complete_means_every_byte_is_good(
    map: MapView,
    disc_size: u64,
    image_len: u64,
    multipass: bool,
)
    requires
        ordered(map.entries),
        partitions(map.entries, map.total_size as int),
        stats_match(map.stats, map.entries, map.total_size),
    ensures
        next_pass(
            map.total_size,
            map.stats,
            disc_size,
            image_len,
            multipass,
        ) matches Dispatch::Terminal(r) ==> r.complete ==> r.bytes_good == disc_size,
{
    law_stats_account_for_every_byte(map.stats, map.entries, map.total_size);
}

/// A copy that is taken up again from the text of its mapfile goes on as it
/// would have: what comes next is the same.
pub proof fn law_the_next_pass_survives_the_text(
    v: MapView,
    w: MapView,
    disc_size: u64,
    image_len: u64,
    multipass: bool,
)
    requires
        ordered(v.entries),
        no_empty(v.entries),
        partitions(v.entries, v.total_size as int),
        stats_match(v.stats, v.entries, v.total_size),
        one_line(v.version),
        reads_as(map_text(v), w),
    ensures
        next_pass(w.total_size, w.stats, disc_size, image_len, multipass) == next_pass(
            v.total_size,
            v.stats,
            disc_size,
            image_len,
            multipass,
        ),
{
    law_text_round_trip(v);
    assert(w.stats == v.stats);
}

} // verus!
