//! Whether a mapfile describes the disc in the drive.

use crate::disc::Disc;
use crate::mapfile::{copy_keys, Key, MapView, Mapfile, MapfileInvalid};
use vstd::prelude::*;
use vstd::seq_lib::group_to_multiset_ensures;

verus! {

/// The unit keys of a disc.
pub open spec fn disc_keys(disc: Disc) -> Seq<(u32, Key)> {
    match disc.aacs {
        Some(a) => a.unit_keys@,
        None => seq![],
    }
}

/// Whether a mapfile's identity is the disc's: the same unit keys, in any
/// order, where the mapfile has keys; else the same volume id, where it has
/// one. A mapfile without identity fits any disc.
pub open spec fn identity_matches(map: MapView, disc: Disc) -> bool {
    if map.unit_keys.len() > 0 {
        map.unit_keys.to_multiset() == disc_keys(disc).to_multiset()
    } else {
        match map.vid {
            Some(vid) => disc.aacs is Some && disc.aacs->0.volume_id == vid,
            None => true,
        }
    }
}

/// Whether two keys are the same.
pub fn same_key(a: &Key, b: &Key) -> (r: bool)
    ensures
        r <==> *a == *b,
{
    let mut i: usize = 0;
    while i < 16
        invariant
            i <= 16,
            forall|j: int| 0 <= j < i ==> a@[j] == b@[j],
        decreases 16 - i,
    {
        if a[i] != b[i] {
            return false;
        }
        i = i + 1;
    }
    assert(*a =~= *b);
    true
}

/// Whether two lists hold the same keys, as often each, in any order.
fn same_keys(a: &[(u32, Key)], b: &[(u32, Key)]) -> (r: bool)
    ensures
        r <==> a@.to_multiset() == b@.to_multiset(),
{
    broadcast use group_to_multiset_ensures;

    let mut left: Vec<(u32, Key)> = copy_keys(b);
    let mut i: usize = 0;
    assert(a@.skip(0) =~= a@);
    while i < a.len()
        invariant
            i <= a@.len(),
            a@.to_multiset() == b@.to_multiset() <==> a@.skip(i as int).to_multiset()
                == left@.to_multiset(),
        decreases a@.len() - i,
    {
        broadcast use group_to_multiset_ensures;

        let k = a[i];
        let ghost rest = a@.skip(i as int);
        assert(rest[0] == k);
        assert(rest.contains(k));
        let mut j: usize = 0;
        while j < left.len() && !(left[j].0 == k.0 && same_key(&left[j].1, &k.1))
            invariant
                j <= left@.len(),
                forall|m: int| 0 <= m < j ==> left@[m] != k,
            decreases left@.len() - j,
        {
            j = j + 1;
        }
        if j == left.len() {
            assert(!left@.contains(k));
            assert(rest.to_multiset().count(k) > 0);
            assert(left@.to_multiset().count(k) == 0);
            return false;
        }
        let ghost before = left@;
        assert(before[j as int] == k);
        left.remove(j);
        proof {
            let after = a@.skip(i + 1);
            assert(rest.remove(0) =~= after);
            assert(after.to_multiset() =~= rest.to_multiset().remove(k));
            assert(left@.to_multiset() =~= before.to_multiset().remove(k));
            assert(before.contains(k));
            if after.to_multiset() == left@.to_multiset() {
                assert(rest.to_multiset() =~= after.to_multiset().insert(k));
                assert(before.to_multiset() =~= left@.to_multiset().insert(k));
            }
        }
        i = i + 1;
    }
    proof {
        let none = a@.skip(i as int);
        assert(none.len() == 0);
        assert(none.to_multiset().len() == 0);
        if left@.len() == 0 {
            assert(none =~= left@);
        } else {
            assert(left@.to_multiset().len() == left@.len());
        }
    }
    left.len() == 0
}

/// Refuse a mapfile of another disc.
pub fn check_mapfile_identity(map: &Mapfile, disc: &Disc) -> (r: Result<(), MapfileInvalid>)
    ensures
        r == if identity_matches(map@, *disc) {
            Ok::<(), MapfileInvalid>(())
        } else {
            Err(MapfileInvalid::DiscMismatch)
        },
{
    let keys = map.unit_keys();
    if keys.len() > 0 {
        let same: bool = match &disc.aacs {
            Some(a) => same_keys(keys, a.unit_keys.as_slice()),
            None => {
                let none: Vec<(u32, Key)> = Vec::new();
                assert(none@ =~= seq![]);
                same_keys(keys, none.as_slice())
            },
        };
        return if same {
            Ok(())
        } else {
            Err(MapfileInvalid::DiscMismatch)
        };
    }
    match map.vid() {
        None => Ok(()),
        Some(vid) => match &disc.aacs {
            Some(a) => if same_key(&a.volume_id, &vid) {
                Ok(())
            } else {
                Err(MapfileInvalid::DiscMismatch)
            },
            None => Err(MapfileInvalid::DiscMismatch),
        },
    }
}

/// Whether a mapfile matches does not depend on the order of the disc's keys.
pub proof fn law_identity_ignores_key_order(map: MapView, a: Disc, b: Disc)
    requires
        disc_keys(a).to_multiset() == disc_keys(b).to_multiset(),
        a.aacs is Some <==> b.aacs is Some,
        a.aacs is Some ==> a.aacs->0.volume_id == b.aacs->0.volume_id,
    ensures
        identity_matches(map, a) == identity_matches(map, b),
{
}

/// Whose mapfile it is. One with keys fits exactly the discs that have each of
/// its keys as often as it has; one with a volume id alone those of that id; and
/// one with neither any disc.
pub proof fn law_whose_mapfile_it_is(map: MapView, disc: Disc)
    ensures
        disc.aacs is Some ==> disc_keys(disc) == (disc.aacs->0).unit_keys@,
        disc.aacs is None ==> disc_keys(disc).len() == 0,
        map.unit_keys.len() > 0 ==> (identity_matches(map, disc) <==> forall|k: (u32, Key)|
            #![trigger map.unit_keys.to_multiset().count(k)]
            map.unit_keys.to_multiset().count(k) == disc_keys(disc).to_multiset().count(k)),
        map.unit_keys.len() == 0 && map.vid is Some ==> (identity_matches(map, disc) <==> disc.aacs
            is Some && (disc.aacs->0).volume_id == map.vid->0),
        map.unit_keys.len() == 0 && map.vid is None ==> identity_matches(map, disc),
{
    if map.unit_keys.len() > 0 && forall|k: (u32, Key)|
        #![trigger map.unit_keys.to_multiset().count(k)]
        map.unit_keys.to_multiset().count(k) == disc_keys(disc).to_multiset().count(k) {
        assert(map.unit_keys.to_multiset() =~= disc_keys(disc).to_multiset());
    }
}

/// A mapfile with keys is refused on a disc that resolved none.
pub proof fn law_keyed_mapfile_needs_a_keyed_disc(map: MapView, disc: Disc)
    requires
        map.unit_keys.len() > 0,
        disc_keys(disc).len() == 0,
    ensures
        !identity_matches(map, disc),
{
    broadcast use group_to_multiset_ensures;

    assert(map.unit_keys.to_multiset().len() == map.unit_keys.len());
    assert(disc_keys(disc).to_multiset().len() == 0);
}

} // verus!
