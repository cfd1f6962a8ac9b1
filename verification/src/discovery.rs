//! Finding displays: which are online, which id a UUID names, and which
//! product name a display reports.

use vstd::prelude::*;
use crate::toggle::CG_ERROR_SUCCESS;

verus! {

/// The online displays, from the status and the ids of the listing call:
/// none where the call failed, else the first `count` ids it wrote.
pub open spec fn online_spec(status: i32, ids: Seq<u32>, count: u32) -> Seq<u32> {
    if status != CG_ERROR_SUCCESS {
        Seq::empty()
    } else if count <= ids.len() {
        ids.take(count as int)
    } else {
        ids
    }
}


/// A failed listing gives no displays; a successful one gives the first
/// `count` ids written, in order (all of them where fewer were written).
pub proof fn law_online_list(status: i32, ids: Seq<u32>, count: u32)
    ensures
        status != CG_ERROR_SUCCESS ==> online_spec(status, ids, count).len() == 0,
        status == CG_ERROR_SUCCESS ==> online_spec(status, ids, count).len() == if count
            < ids.len() {
            count as int
        } else {
            ids.len() as int
        },
        status == CG_ERROR_SUCCESS ==> forall|i: int|
            0 <= i < online_spec(status, ids, count).len() ==> #[trigger] online_spec(
                status,
                ids,
                count,
            )[i] == ids[i],
{
}

/// The online displays, from the status of the listing call, the buffer it
/// filled and the count it reported.
pub fn online_displays_from(status: i32, ids: Vec<u32>, count: u32) -> (r: Vec<u32>)
    ensures
        r@ == online_spec(status, ids@, count),
{
    if status != CG_ERROR_SUCCESS {
        return Vec::new();
    }
    let mut ids = ids;
    ids.truncate(count as usize);
    ids
}

/// The display id that a UUID lookup gave, where it gave one: the lookup
/// answers 0 for a UUID that names no display.
pub fn display_id_from_lookup(raw: u32) -> (r: Option<u32>)
    ensures
        raw == 0 ==> r is None,
        raw != 0 ==> r == Some(raw),
{
    if raw == 0 {
        None
    } else {
        Some(raw)
    }
}

/// Whether the UUID read from a display's information (if any could be read)
/// is `target`.
pub fn uuid_matches(found: &Option<String>, target: &str) -> (r: bool)
    ensures
        r == (found matches Some(f) && f@ == target@),
{
    match found {
        Some(f) => {
            let t = String::from_str(target);
            *f == t
        },
        None => false,
    }
}

/// A slot of the product-name dictionary: `None` for an empty slot, else
/// the text read from it (`None` where it could not be read).
pub open spec fn slot_view(slot: Option<Option<String>>) -> Option<Option<Seq<char>>> {
    match slot {
        None => None,
        Some(None) => Some(None),
        Some(Some(s)) => Some(Some(s@)),
    }
}

/// The views of `slots`.
pub open spec fn slots_view(slots: Seq<Option<Option<String>>>) -> Seq<Option<Option<Seq<char>>>> {
    slots.map_values(|s: Option<Option<String>>| slot_view(s))
}

/// The text of the first filled slot among `slots`; `None` where no slot is
/// filled or the first filled one could not be read.
pub open spec fn first_filled(slots: Seq<Option<Option<Seq<char>>>>) -> Option<Seq<char>>
    decreases slots.len(),
{
    if slots.len() == 0 {
        None
    } else {
        match slots[0] {
            Some(text) => text,
            None => first_filled(slots.drop_first()),
        }
    }
}


/// The first filled slot decides: where the slots before index `k` are all
/// empty and slot `k` is filled with `text`, the result is `text`; where no
/// slot is filled, there is no name.
pub proof fn law_first_filled_slot(slots: Seq<Option<Option<Seq<char>>>>, k: int)
    ensures
        0 <= k < slots.len() && slots[k] is Some && (forall|j: int|
            0 <= j < k ==> #[trigger] slots[j] is None) ==> first_filled(slots) == slots[k]->0,
        (forall|j: int| 0 <= j < slots.len() ==> #[trigger] slots[j] is None) ==> first_filled(
            slots,
        ) is None,
    decreases slots.len(),
{
    if slots.len() > 0 {
        let rest = slots.drop_first();
        law_first_filled_slot(rest, k - 1);
        if 0 < k < slots.len() && slots[k] is Some && (forall|j: int|
            0 <= j < k ==> #[trigger] slots[j] is None) {
            assert(slots[0] is None);
            assert(rest[k - 1] == slots[k]);
            assert forall|j: int| 0 <= j < k - 1 implies #[trigger] rest[j] is None by {
                assert(rest[j] == slots[j + 1]);
            }
        }
        if forall|j: int| 0 <= j < slots.len() ==> #[trigger] slots[j] is None {
            assert(slots[0] is None);
            assert forall|j: int| 0 <= j < rest.len() implies #[trigger] rest[j] is None by {
                assert(rest[j] == slots[j + 1]);
            }
        }
    }
}

fn first_product_name(count: usize, slots: &Vec<Option<Option<String>>>) -> (r: Option<String>)
    ensures
        (match r {
            Some(s) => Some(s@),
            None => None,
        }) == first_filled(
            slots_view(
                slots@.take(
                    if count < slots@.len() {
                        count as int
                    } else {
                        slots@.len() as int
                    },
                ),
            ),
        ),
{
    let n: usize = if count < slots.len() {
        count
    } else {
        slots.len()
    };
    let ghost all = slots_view(slots@.take(n as int));
    let mut i: usize = 0;
    assert(all.skip(0) =~= all);
    while i < n
        invariant
            n <= slots@.len(),
            i <= n,
            all == slots_view(slots@.take(n as int)),
            n as int == if count < slots@.len() {
                count as int
            } else {
                slots@.len() as int
            },
            first_filled(all) == first_filled(all.skip(i as int)),
        decreases n - i,
    {
        assert(all.skip(i as int)[0] == slot_view(slots@[i as int]));
        match &slots[i] {
            Some(text) => {
                let r = match text {
                    Some(s) => Some(s.clone()),
                    None => None,
                };
                assert(all.skip(i as int).len() > 0);
                return r;
            },
            None => {
                assert(all.skip(i as int).drop_first() =~= all.skip(i + 1));
            },
        }
        i = i + 1;
    }
    assert(all.skip(n as int) =~= Seq::<Option<Option<Seq<char>>>>::empty());
    None
}

/// The product name of a display, from a dictionary that reports `count`
/// entries and whose values were read into `slots`: the text of the first
/// filled slot among the first `count` (no slot for an empty dictionary).
pub fn product_name(count: usize, slots: &Vec<Option<Option<String>>>) -> (r: Option<String>)
    ensures
        forall|k: int|
            0 <= k < count && k < slots@.len() && (#[trigger] slots@[k]) is Some && (forall|j: int|
                0 <= j < k ==> slots@[j] is None) ==> (match r {
                Some(s) => Some(s@),
                None => None,
            }) == (match slots@[k]->0 {
                Some(s) => Some(s@),
                None => None,
            }),
        (forall|j: int| 0 <= j < count && j < slots@.len() ==> (#[trigger] slots@[j]) is None)
            ==> r is None,
        (match r {
            Some(s) => Some(s@),
            None => None,
        }) == first_filled(
            slots_view(
                slots@.take(
                    if count < slots@.len() {
                        count as int
                    } else {
                        slots@.len() as int
                    },
                ),
            ),
        ),
{
    let r = first_product_name(count, slots);
    proof {
        let n: int = if count < slots@.len() {
            count as int
        } else {
            slots@.len() as int
        };
        let all = slots_view(slots@.take(n));
        assert forall|j: int| 0 <= j < n implies #[trigger] all[j] == slot_view(slots@[j]) by {}
        assert forall|k: int|
            0 <= k < count && k < slots@.len() && (#[trigger] slots@[k]) is Some && (forall|j: int|
                0 <= j < k ==> slots@[j] is None) implies (match r {
            Some(s) => Some(s@),
            None => None,
        }) == (match slots@[k]->0 {
            Some(s) => Some(s@),
            None => None,
        }) by {
            assert forall|j: int| 0 <= j < k implies #[trigger] all[j] is None by {
                assert(all[j] == slot_view(slots@[j]));
            }
            assert(all[k] == slot_view(slots@[k]));
            law_first_filled_slot(all, k);
        }
        if forall|j: int| 0 <= j < count && j < slots@.len() ==> (#[trigger] slots@[j]) is None {
            assert forall|j: int| 0 <= j < all.len() implies #[trigger] all[j] is None by {
                assert(all[j] == slot_view(slots@[j]));
            }
            law_first_filled_slot(all, 0);
        }
    }
    r
}

/// What to do after looking at one display service while searching for a
/// display's name.
pub enum NameScan {
    /// Look at the next service.
    Next,
    /// Stop; the name found, if any.
    Done(Option<String>),
}

/// One step of the search for a display's name: `service` is the next
/// service (0 when there are no more) and `candidate` the name that service
/// gave for the display, if it describes it.
pub fn name_scan_step(service: u32, candidate: Option<String>) -> (r: NameScan)
    ensures
        service == 0 ==> r matches NameScan::Done(None),
        service != 0 && candidate is None ==> r is Next,
        service != 0 && candidate is Some ==> (r matches NameScan::Done(Some(n)) && n@
            == candidate->0@),
{
    if service == 0 {
        NameScan::Done(None)
    } else {
        match candidate {
            Some(n) => NameScan::Done(Some(n)),
            None => NameScan::Next,
        }
    }
}

} // verus!
