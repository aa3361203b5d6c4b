//! Finding the cable among the HID devices of the machine.
use vstd::prelude::*;

use crate::bytes::same_bytes;
use crate::frame::MOONDROP_VID;

verus! {

/// The first usage page that is a vendor's own.
pub const VENDOR_PAGES: u16 = 0xFF00;

/// One collection of a HID device, as the bus lists it.
pub struct DeviceEntry {
    pub vendor_id: u16,
    pub product_id: u16,
    pub usage_page: u16,
    /// Where the platform opens it; empty if it cannot be opened.
    pub path: Vec<u8>,
}

/// Something that a listed device can be chosen by.
pub enum Criterion {
    /// It is a cable and can be opened.
    Cable,
    /// It has this product ID.
    Product(u16),
    /// It is on a vendor's own usage page.
    VendorPage,
    /// It is on any other usage page.
    CommonPage,
}

/// Whether a device meets a criterion.
pub open spec fn meets(d: DeviceEntry, c: Criterion) -> bool {
    match c {
        Criterion::Cable => d.vendor_id == MOONDROP_VID && d.path@.len() > 0,
        Criterion::Product(pid) => d.product_id == pid,
        Criterion::VendorPage => d.usage_page >= VENDOR_PAGES,
        Criterion::CommonPage => d.usage_page < VENDOR_PAGES,
    }
}

/// Whether the device at a place of `list` meets a criterion.
pub open spec fn place_meets(list: Seq<DeviceEntry>, c: Criterion) -> spec_fn(usize) -> bool {
    |i: usize| meets(list[i as int], c)
}

/// All places of `list`, in order.
pub open spec fn places(list: Seq<DeviceEntry>) -> Seq<usize> {
    Seq::new(list.len(), |i: int| i as usize)
}

/// The places of the cables.
pub open spec fn cables(list: Seq<DeviceEntry>) -> Seq<usize> {
    places(list).filter(place_meets(list, Criterion::Cable))
}

/// The places of the cables with product ID `pid`.
pub open spec fn cables_of(list: Seq<DeviceEntry>, pid: u16) -> Seq<usize> {
    cables(list).filter(place_meets(list, Criterion::Product(pid)))
}

/// The places of the cables to choose from: those with the preferred product ID, if there are
/// any, and otherwise all.
pub open spec fn candidates(list: Seq<DeviceEntry>, pref: Option<u16>) -> Seq<usize> {
    match pref {
        Some(pid) if cables_of(list, pid).len() > 0 => cables_of(list, pid),
        _ => cables(list),
    }
}

/// The places of `order`, those on a vendor's own usage page first.
pub open spec fn vendor_first(list: Seq<DeviceEntry>, order: Seq<usize>) -> Seq<usize> {
    order.filter(place_meets(list, Criterion::VendorPage)) + order.filter(
        place_meets(list, Criterion::CommonPage),
    )
}

/// Whether a device of `order` has the path of the one at `i`.
pub open spec fn path_among(list: Seq<DeviceEntry>, order: Seq<usize>, i: usize) -> bool {
    exists|k: int|
        0 <= k < order.len() && list[(#[trigger] order[k]) as int].path@ == list[i as int].path@
}

/// The places of `order`, only the first of each path.
pub open spec fn once_per_path(list: Seq<DeviceEntry>, order: Seq<usize>) -> Seq<usize>
    decreases order.len(),
{
    if order.len() == 0 {
        order
    } else {
        let front = once_per_path(list, order.drop_last());
        if path_among(list, front, order.last()) {
            front
        } else {
            front.push(order.last())
        }
    }
}

/// The places at which to try to open the cable, in order.
pub open spec fn open_order(list: Seq<DeviceEntry>, pref: Option<u16>) -> Seq<usize> {
    once_per_path(list, vendor_first(list, candidates(list, pref)))
}

/// Every place is one of `list`.
pub open spec fn within(order: Seq<usize>, list: Seq<DeviceEntry>) -> bool {
    forall|k: int| 0 <= k < order.len() ==> (#[trigger] order[k]) < list.len()
}

/// The places of `order` whose device meets a criterion.
fn keep(list: &Vec<DeviceEntry>, order: &Vec<usize>, c: Criterion) -> (kept: Vec<usize>)
    requires
        within(order@, list@),
    ensures
        kept@ == order@.filter(place_meets(list@, c)),
        within(kept@, list@),
{
    let mut kept: Vec<usize> = Vec::new();
    let mut k: usize = 0;
    proof {
        reveal(Seq::filter);
    }
    while k < order.len()
        invariant
            k <= order@.len(),
            within(order@, list@),
            within(kept@, list@),
            kept@ == order@.take(k as int).filter(place_meets(list@, c)),
        decreases order@.len() - k,
    {
        proof {
            reveal(Seq::filter);
            assert(order@.take(k + 1).drop_last() =~= order@.take(k as int));
        }
        let i = order[k];
        let d = &list[i];
        let met = match c {
            Criterion::Cable => d.vendor_id == MOONDROP_VID && d.path.len() > 0,
            Criterion::Product(pid) => d.product_id == pid,
            Criterion::VendorPage => d.usage_page >= VENDOR_PAGES,
            Criterion::CommonPage => d.usage_page < VENDOR_PAGES,
        };
        if met {
            kept.push(i);
        }
        k = k + 1;
    }
    assert(order@.take(order@.len() as int) =~= order@);
    kept
}

/// Chooses the cables among the listed devices, those with the preferred product ID if there are
/// any.
pub fn find_candidates(list: &Vec<DeviceEntry>, pref: Option<u16>) -> (found: Vec<usize>)
    ensures
        found@ == candidates(list@, pref),
        within(found@, list@),
{
    let mut all: Vec<usize> = Vec::new();
    while all.len() < list.len()
        invariant
            all@.len() <= list@.len(),
            forall|k: int| 0 <= k < all@.len() ==> all@[k] == k,
        decreases list@.len() - all@.len(),
    {
        let n = all.len();
        all.push(n);
    }
    assert(all@ =~= places(list@));
    let found = keep(list, &all, Criterion::Cable);
    match pref {
        Some(pid) => {
            let preferred = keep(list, &found, Criterion::Product(pid));
            if preferred.len() > 0 {
                preferred
            } else {
                found
            }
        },
        None => found,
    }
}

/// Puts the places at which to try to open the cable in order.
pub fn find_open_order(list: &Vec<DeviceEntry>, pref: Option<u16>) -> (order: Vec<usize>)
    ensures
        order@ == open_order(list@, pref),
        within(order@, list@),
{
    let found = find_candidates(list, pref);
    let mut sorted = keep(list, &found, Criterion::VendorPage);
    let mut rest = keep(list, &found, Criterion::CommonPage);
    let ghost first = sorted@;
    let ghost second = rest@;
    sorted.append(&mut rest);
    assert(sorted@ =~= first + second);
    let mut order: Vec<usize> = Vec::new();
    let mut k: usize = 0;
    while k < sorted.len()
        invariant
            k <= sorted@.len(),
            within(sorted@, list@),
            within(order@, list@),
            order@ == once_per_path(list@, sorted@.take(k as int)),
        decreases sorted@.len() - k,
    {
        let i = sorted[k];
        let mut seen = false;
        let mut j: usize = 0;
        while j < order.len() && !seen
            invariant
                j <= order@.len(),
                i < list@.len(),
                within(order@, list@),
                seen ==> path_among(list@, order@, i),
                !seen ==> forall|l: int|
                    0 <= l < j ==> list@[(#[trigger] order@[l]) as int].path@
                        != list@[i as int].path@,
            decreases order@.len() - j + if seen { 0int } else { 1 },
        {
            if same_bytes(list[order[j]].path.as_slice(), list[i].path.as_slice()) {
                assert(list@[order@[j as int] as int].path@ == list@[i as int].path@);
                seen = true;
            } else {
                j = j + 1;
            }
        }
        assert(sorted@.take(k + 1).drop_last() =~= sorted@.take(k as int));
        if !seen {
            order.push(i);
        }
        k = k + 1;
    }
    assert(sorted@.take(sorted@.len() as int) =~= sorted@);
    order
}

/// The best collection so far: its place in the list and the length of its input report.
///
/// Where the platform tells report lengths, the collection with the largest input report is the
/// vendor's own.
pub struct Largest {
    pub best: Option<(usize, usize)>,
}

/// The best collection once the one at `offer.0`, with an input report of `offer.1` bytes if that
/// could be found out, has been looked at too.
pub open spec fn larger(
    best: Option<(usize, usize)>,
    offer: (usize, Option<usize>),
) -> Option<(usize, usize)> {
    match offer.1 {
        Some(n) if best is None || n > (best->0).1 => Some((offer.0, n)),
        _ => best,
    }
}

/// The best of many collections, looked at one after the other.
pub open spec fn largest(offers: Seq<(usize, Option<usize>)>) -> Option<(usize, usize)>
    decreases offers.len(),
{
    if offers.len() == 0 {
        None
    } else {
        larger(largest(offers.drop_last()), offers.last())
    }
}

impl Largest {
    /// Nothing has been looked at.
    pub fn new() -> (l: Largest)
        ensures
            l.best is None,
    {
        Largest { best: None }
    }

    /// Looks at one more collection and says whether it is the best so far.
    pub fn offer(&mut self, place: usize, len: Option<usize>) -> (kept: bool)
        ensures
            final(self).best == larger(old(self).best, (place, len)),
            kept == (final(self).best != old(self).best),
    {
        match len {
            Some(n) => {
                let kept = match self.best {
                    Some((_, b)) => n > b,
                    None => true,
                };
                if kept {
                    self.best = Some((place, n));
                }
                kept
            },
            None => false,
        }
    }

    /// The place of the best collection, or the reason why there is none.
    pub fn finish(&self) -> (r: Result<usize, String>)
        ensures
            match r {
                Ok(place) => self.best matches Some(b) && b.0 == place,
                Err(reason) => self.best is None && reason@ == "no Moondrop cable found"@,
            },
    {
        match self.best {
            Some((place, _)) => Ok(place),
            None => Err("no Moondrop cable found".to_owned()),
        }
    }
}

/// Of many collections the first with the longest input report wins, and there is a winner
/// exactly where the length of one is known.
pub proof fn law_first_longest_report_wins(offers: Seq<(usize, Option<usize>)>)
    ensures
        largest(offers) is None <==> forall|k: int|
            0 <= k < offers.len() ==> (#[trigger] offers[k]).1 is None,
        largest(offers) matches Some(best) ==> exists|w: int|
            {
                &&& 0 <= w < offers.len()
                &&& #[trigger] offers[w] == (best.0, Some(best.1))
                &&& forall|k: int|
                    0 <= k < offers.len() ==> ((#[trigger] offers[k]).1 matches Some(n) ==> n
                        <= best.1 && (k < w ==> n < best.1))
            },
    decreases offers.len(),
{
    if offers.len() > 0 {
        let front = offers.drop_last();
        let last = offers.len() - 1;
        law_first_longest_report_wins(front);
        assert forall|k: int| 0 <= k < front.len() implies front[k] == #[trigger] offers[k] by {
        }
        if largest(offers) is None {
            assert forall|k: int| 0 <= k < offers.len() implies (#[trigger] offers[k]).1 is None by {
                if k < last {
                    assert(front[k].1 is None);
                }
            }
        } else {
            let best = largest(offers)->0;
            if largest(front) == largest(offers) {
                let w = choose|w: int|
                    {
                        &&& 0 <= w < front.len()
                        &&& #[trigger] front[w] == (best.0, Some(best.1))
                        &&& forall|k: int|
                            0 <= k < front.len() ==> ((#[trigger] front[k]).1 matches Some(n) ==> n
                                <= best.1 && (k < w ==> n < best.1))
                    };
                assert(offers[w] == (best.0, Some(best.1)));
                assert forall|k: int| 0 <= k < offers.len() implies ((
                #[trigger] offers[k]).1 matches Some(n) ==> n <= best.1 && (k < w ==> n
                    < best.1)) by {
                    if k < last {
                        assert(front[k] == offers[k]);
                    }
                }
            } else {
                assert(offers[last] == (best.0, Some(best.1)));
                assert forall|k: int| 0 <= k < offers.len() implies ((
                #[trigger] offers[k]).1 matches Some(n) ==> n <= best.1 && (k < last ==> n
                    < best.1)) by {
                    if k < last {
                        assert(front[k] == offers[k]);
                    }
                }
            }
            assert(!(forall|k: int| 0 <= k < offers.len() ==> (#[trigger] offers[k]).1 is None));
        }
    }
}

proof fn lemma_filtered(order: Seq<usize>, pred: spec_fn(usize) -> bool)
    ensures
        forall|i: usize| #[trigger] order.filter(pred).contains(i) <==> order.contains(i) && pred(i),
    decreases order.len(),
{
    reveal(Seq::filter);
    if order.len() > 0 {
        let front = order.drop_last();
        lemma_filtered(front, pred);
        assert forall|i: usize| #[trigger] order.filter(pred).contains(i) <==> order.contains(i)
            && pred(i) by {
            let last = order.last();
            assert(order == front.push(last));
            assert(order.contains(i) <==> front.contains(i) || i == last) by {
                if order.contains(i) {
                    let k = choose|k: int| 0 <= k < order.len() && order[k] == i;
                    if k < front.len() {
                        assert(front[k] == i);
                    }
                }
                if front.contains(i) {
                    let k = choose|k: int| 0 <= k < front.len() && front[k] == i;
                    assert(order[k] == i);
                }
                assert(order[order.len() - 1] == last);
            }
            let kept = front.filter(pred);
            if pred(last) {
                assert(order.filter(pred) == kept.push(last));
                if kept.contains(i) {
                    let k = choose|k: int| 0 <= k < kept.len() && kept[k] == i;
                    assert(kept.push(last)[k] == i);
                }
                assert(kept.push(last)[kept.len() as int] == last);
                if kept.push(last).contains(i) && i != last {
                    let k = choose|k: int| 0 <= k < kept.push(last).len() && kept.push(last)[k] == i;
                    assert(kept[k] == i);
                }
            } else {
                assert(order.filter(pred) == kept);
            }
        }
    } else {
        assert forall|i: usize| !(#[trigger] order.filter(pred).contains(i)) by {
        }
    }
}

/// The candidates are cables that can be opened. Where one of those has the preferred product ID,
/// the candidates are all that have it; otherwise they are all of them.
pub proof fn law_candidates(list: Seq<DeviceEntry>, pref: Option<u16>)
    requires
        list.len() <= usize::MAX,
    ensures
        forall|i: usize| #[trigger]
            candidates(list, pref).contains(i) <==> {
                &&& i < list.len()
                &&& meets(list[i as int], Criterion::Cable)
                &&& pref matches Some(pid) ==> (exists|j: int|
                    0 <= j < list.len() && meets(#[trigger] list[j], Criterion::Cable)
                        && list[j].product_id == pid) ==> list[i as int].product_id == pid
            },
{
    let is_cable = place_meets(list, Criterion::Cable);
    lemma_filtered(places(list), is_cable);
    assert forall|i: usize| #[trigger] cables(list).contains(i) <==> i < list.len() && meets(
        list[i as int],
        Criterion::Cable,
    ) by {
        if i < list.len() {
            assert(places(list)[i as int] == i);
        }
    }
    match pref {
        None => {},
        Some(pid) => {
            let is_preferred = place_meets(list, Criterion::Product(pid));
            lemma_filtered(cables(list), is_preferred);
            let of = cables_of(list, pid);
            if of.len() > 0 {
                assert(of.contains(of[0]));
                assert(cables(list).contains(of[0]));
                let first = list[of[0] as int];
                assert(meets(first, Criterion::Cable) && first.product_id == pid);
            } else {
                assert forall|j: int| 0 <= j < list.len() && meets(#[trigger] list[j], Criterion::Cable) implies list[j].product_id
                    != pid by {
                    assert(cables(list).contains(j as usize));
                    assert(!of.contains(j as usize));
                }
            }
        },
    }
}

/// In `order` nothing on a vendor's own usage page comes behind anything that is not.
pub open spec fn vendors_lead(list: Seq<DeviceEntry>, order: Seq<usize>) -> bool {
    forall|a: int, b: int|
        0 <= a < b < order.len() && meets(list[(#[trigger] order[a]) as int], Criterion::CommonPage)
            ==> meets(list[(#[trigger] order[b]) as int], Criterion::CommonPage)
}

/// No two places of `order` have the same path.
pub open spec fn paths_differ(list: Seq<DeviceEntry>, order: Seq<usize>) -> bool {
    forall|a: int, b: int|
        0 <= a < b < order.len() ==> list[(#[trigger] order[a]) as int].path@ != list[(
        #[trigger] order[b]) as int].path@
}

proof fn lemma_once_per_path(list: Seq<DeviceEntry>, order: Seq<usize>)
    ensures
        forall|i: usize| #[trigger]
            once_per_path(list, order).contains(i) ==> order.contains(i),
        forall|i: usize| #[trigger]
            order.contains(i) ==> path_among(list, once_per_path(list, order), i),
        paths_differ(list, once_per_path(list, order)),
        vendors_lead(list, order) ==> vendors_lead(list, once_per_path(list, order)),
    decreases order.len(),
{
    if order.len() > 0 {
        let front = order.drop_last();
        let last = order.last();
        let had = once_per_path(list, front);
        let once = once_per_path(list, order);
        lemma_once_per_path(list, front);
        assert forall|i: usize| #[trigger] once.contains(i) implies order.contains(i) by {
            let k = choose|k: int| 0 <= k < once.len() && once[k] == i;
            if k < had.len() {
                assert(had[k] == i);
                assert(had.contains(i));
                let x = choose|x: int| 0 <= x < front.len() && front[x] == i;
                assert(order[x] == i);
            } else {
                assert(order[order.len() - 1] == i);
            }
        }
        assert forall|i: usize| #[trigger] order.contains(i) implies path_among(list, once, i) by {
            let x = choose|x: int| 0 <= x < order.len() && order[x] == i;
            if x < front.len() {
                assert(front[x] == i);
                assert(front.contains(i));
                let k = choose|k: int|
                    0 <= k < had.len() && list[(#[trigger] had[k]) as int].path@
                        == list[i as int].path@;
                assert(once[k] == had[k]);
            } else if !path_among(list, had, last) {
                assert(once[had.len() as int] == last);
            }
        }
        if !path_among(list, had, last) {
            assert forall|a: int, b: int| 0 <= a < b < once.len() implies list[(
            #[trigger] once[a]) as int].path@ != list[(#[trigger] once[b]) as int].path@ by {
                assert(once[a] == had[a]);
                if b < had.len() {
                    assert(once[b] == had[b]);
                }
            }
        }
        if vendors_lead(list, order) {
            assert(vendors_lead(list, front)) by {
                assert forall|a: int, b: int|
                    0 <= a < b < front.len() && meets(
                        list[(#[trigger] front[a]) as int],
                        Criterion::CommonPage,
                    ) implies meets(list[(#[trigger] front[b]) as int], Criterion::CommonPage) by {
                    assert(order[a] == front[a] && order[b] == front[b]);
                }
            }
            assert forall|a: int, b: int|
                0 <= a < b < once.len() && meets(
                    list[(#[trigger] once[a]) as int],
                    Criterion::CommonPage,
                ) implies meets(list[(#[trigger] once[b]) as int], Criterion::CommonPage) by {
                assert(once[a] == had[a]);
                if b < had.len() {
                    assert(once[b] == had[b]);
                } else {
                    assert(had.contains(had[a]));
                    let x = choose|x: int| 0 <= x < front.len() && front[x] == had[a];
                    assert(order[x] == once[a]);
                    assert(order[order.len() - 1] == once[b]);
                }
            }
        }
    }
}

/// Every path at which a candidate can be opened is tried once, nothing else is tried, and what is
/// on a vendor's own usage page is tried first. Nothing is tried exactly where there is no cable.
pub proof fn law_open_order(list: Seq<DeviceEntry>, pref: Option<u16>)
    ensures
        forall|i: usize| #[trigger]
            open_order(list, pref).contains(i) ==> candidates(list, pref).contains(i),
        forall|i: usize| #[trigger]
            candidates(list, pref).contains(i) ==> path_among(list, open_order(list, pref), i),
        paths_differ(list, open_order(list, pref)),
        vendors_lead(list, open_order(list, pref)),
        open_order(list, pref).len() == 0 <==> cables(list).len() == 0,
{
    let found = candidates(list, pref);
    let on_vendor = place_meets(list, Criterion::VendorPage);
    let on_common = place_meets(list, Criterion::CommonPage);
    let first = found.filter(on_vendor);
    let second = found.filter(on_common);
    let sorted = vendor_first(list, found);
    let order = open_order(list, pref);
    lemma_filtered(found, on_vendor);
    lemma_filtered(found, on_common);
    lemma_once_per_path(list, sorted);
    assert forall|i: usize| #[trigger] sorted.contains(i) <==> found.contains(i) by {
        if sorted.contains(i) {
            let k = choose|k: int| 0 <= k < sorted.len() && sorted[k] == i;
            if k < first.len() {
                assert(first[k] == i);
                assert(first.contains(i));
            } else {
                assert(second[k - first.len()] == i);
                assert(second.contains(i));
            }
        }
        if found.contains(i) {
            if on_vendor(i) {
                assert(first.contains(i));
                let k = choose|k: int| 0 <= k < first.len() && first[k] == i;
                assert(sorted[k] == i);
            } else {
                assert(second.contains(i));
                let k = choose|k: int| 0 <= k < second.len() && second[k] == i;
                assert(sorted[first.len() + k] == i);
            }
        }
    }
    assert forall|i: usize| #[trigger] order.contains(i) implies found.contains(i) by {
        assert(sorted.contains(i));
    }
    assert forall|i: usize| #[trigger] found.contains(i) implies path_among(list, order, i) by {
        assert(sorted.contains(i));
    }
    assert(vendors_lead(list, sorted)) by {
        assert forall|a: int, b: int|
            0 <= a < b < sorted.len() && meets(
                list[(#[trigger] sorted[a]) as int],
                Criterion::CommonPage,
            ) implies meets(list[(#[trigger] sorted[b]) as int], Criterion::CommonPage) by {
            if a < first.len() {
                assert(first.contains(first[a]));
                assert(on_vendor(first[a]));
            }
            assert(sorted[b] == second[b - first.len()]);
            assert(second.contains(second[b - first.len()]));
            assert(on_common(second[b - first.len()]));
        }
    }
    if order.len() > 0 {
        assert(order.contains(order[0]));
        assert(found.len() > 0);
        match pref {
            Some(pid) => {
                lemma_filtered(cables(list), place_meets(list, Criterion::Product(pid)));
                assert(found.contains(found[0]));
                assert(cables(list).contains(found[0]));
            },
            None => {},
        }
    }
    if cables(list).len() > 0 {
        assert(found.len() > 0);
        assert(found.contains(found[0]));
        assert(path_among(list, order, found[0]));
    }
}

/// The first place of `order` whose path opens; `opens` says which paths do.
pub open spec fn first_to_open(
    list: Seq<DeviceEntry>,
    order: Seq<usize>,
    opens: spec_fn(Seq<u8>) -> bool,
) -> Option<usize>
    decreases order.len(),
{
    if order.len() == 0 {
        None
    } else {
        match first_to_open(list, order.drop_last(), opens) {
            Some(i) => Some(i),
            None => if opens(list[order.last() as int].path@) {
                Some(order.last())
            } else {
                None
            },
        }
    }
}

/// `first_to_open` is the place at the least index whose path opens, and there is none exactly
/// where no path does.
pub proof fn law_first_to_open(
    list: Seq<DeviceEntry>,
    order: Seq<usize>,
    opens: spec_fn(Seq<u8>) -> bool,
)
    ensures
        match first_to_open(list, order, opens) {
            Some(i) => exists|k: int|
                {
                    &&& 0 <= k < order.len()
                    &&& #[trigger] order[k] == i
                    &&& opens(list[i as int].path@)
                    &&& forall|j: int|
                        0 <= j < k ==> !opens(list[(#[trigger] order[j]) as int].path@)
                },
            None => forall|j: int|
                0 <= j < order.len() ==> !opens(list[(#[trigger] order[j]) as int].path@),
        },
    decreases order.len(),
{
    if order.len() > 0 {
        let front = order.drop_last();
        law_first_to_open(list, front, opens);
        match first_to_open(list, front, opens) {
            Some(i) => {
                let k = choose|k: int|
                    {
                        &&& 0 <= k < front.len()
                        &&& #[trigger] front[k] == i
                        &&& opens(list[i as int].path@)
                        &&& forall|j: int|
                            0 <= j < k ==> !opens(list[(#[trigger] front[j]) as int].path@)
                    };
                assert(order[k] == i);
                assert forall|j: int| 0 <= j < k implies !opens(
                    list[(#[trigger] order[j]) as int].path@,
                ) by {
                    assert(front[j] == order[j]);
                }
            },
            None => {
                assert forall|j: int| 0 <= j < order.len() - 1 implies !opens(
                    list[(#[trigger] order[j]) as int].path@,
                ) by {
                    assert(front[j] == order[j]);
                }
                assert(order[order.len() - 1] == order.last());
            },
        }
    }
}

proof fn lemma_once_per_path_keeps_the_first(
    list: Seq<DeviceEntry>,
    order: Seq<usize>,
    opens: spec_fn(Seq<u8>) -> bool,
)
    ensures
        first_to_open(list, once_per_path(list, order), opens) == first_to_open(list, order, opens),
    decreases order.len(),
{
    if order.len() > 0 {
        let had = once_per_path(list, order.drop_last());
        let last = order.last();
        lemma_once_per_path_keeps_the_first(list, order.drop_last(), opens);
        if path_among(list, had, last) {
            law_first_to_open(list, had, opens);
        } else {
            assert(had.push(last).drop_last() =~= had);
        }
    }
}

/// Leaving out repeated paths keeps the choice: whichever paths open, the first place of the open
/// order that does is the first of all candidates, those on a vendor's own usage page first, that
/// does.
pub proof fn law_trying_each_path_once_keeps_the_choice(
    list: Seq<DeviceEntry>,
    pref: Option<u16>,
    opens: spec_fn(Seq<u8>) -> bool,
)
    ensures
        first_to_open(list, open_order(list, pref), opens) == first_to_open(
            list,
            vendor_first(list, candidates(list, pref)),
            opens,
        ),
{
    lemma_once_per_path_keeps_the_first(list, vendor_first(list, candidates(list, pref)), opens);
}

/// A Moondrop cable, vendor 0x35D8, that can be opened.
pub open spec fn can_be_opened(d: DeviceEntry) -> bool {
    d.vendor_id == 0x35D8 && d.path@.len() > 0
}

/// The device at `a` is to be tried before the one at `b`: it is on a vendor's own usage page,
/// 0xFF00 or above, and the other is not; or both are, or neither is, and it is listed earlier.
pub open spec fn tried_before(list: Seq<DeviceEntry>, a: usize, b: usize) -> bool {
    let vendors_a = list[a as int].usage_page >= 0xFF00;
    let vendors_b = list[b as int].usage_page >= 0xFF00;
    (vendors_a && !vendors_b) || (vendors_a == vendors_b && a < b)
}

/// The places rise from one to the next.
pub open spec fn rising(order: Seq<usize>) -> bool {
    forall|a: int, b: int| 0 <= a < b < order.len() ==> #[trigger] order[a] < #[trigger] order[b]
}

/// Each place is to be tried before all that come behind it.
pub open spec fn ranked(list: Seq<DeviceEntry>, order: Seq<usize>) -> bool {
    forall|a: int, b: int|
        0 <= a < b < order.len() ==> tried_before(list, #[trigger] order[a], #[trigger] order[b])
}

proof fn lemma_filter_keeps_rising(order: Seq<usize>, pred: spec_fn(usize) -> bool)
    requires
        rising(order),
    ensures
        rising(order.filter(pred)),
    decreases order.len(),
{
    reveal(Seq::filter);
    if order.len() > 0 {
        let front = order.drop_last();
        let last = order.last();
        assert(rising(front)) by {
            assert forall|a: int, b: int| 0 <= a < b < front.len() implies #[trigger] front[a]
                < #[trigger] front[b] by {
                assert(order[a] < order[b]);
            }
        }
        lemma_filter_keeps_rising(front, pred);
        lemma_filtered(front, pred);
        let kept = front.filter(pred);
        if pred(last) {
            let now = order.filter(pred);
            assert(now == kept.push(last));
            assert forall|a: int, b: int| 0 <= a < b < now.len() implies #[trigger] now[a]
                < #[trigger] now[b] by {
                assert(now[a] == kept[a]);
                if b < kept.len() {
                    assert(now[b] == kept[b]);
                } else {
                    assert(kept.contains(kept[a]));
                    let x = choose|x: int| 0 <= x < front.len() && front[x] == kept[a];
                    assert(order[x] < order[order.len() - 1]);
                }
            }
        }
    }
}

/// The candidates, in the order in which they are listed: every listed device whose vendor is
/// 0x35D8 and whose path is not empty, and no other; but where one of those has the preferred
/// product ID, only those that have it.
pub proof fn law_candidates_are_the_cables(list: Seq<DeviceEntry>, pref: Option<u16>)
    requires
        list.len() <= usize::MAX,
    ensures
        forall|i: usize| #[trigger]
            candidates(list, pref).contains(i) ==> i < list.len() && list[i as int].vendor_id
                == 0x35D8 && list[i as int].path@.len() > 0,
        pref is None ==> forall|i: usize|
            i < list.len() && list[i as int].vendor_id == 0x35D8 && list[i as int].path@.len() > 0
                ==> #[trigger] candidates(list, pref).contains(i),
        forall|i: usize| #[trigger]
            candidates(list, pref).contains(i) <==> {
                &&& i < list.len()
                &&& can_be_opened(list[i as int])
                &&& pref matches Some(pid) ==> (exists|j: int|
                    0 <= j < list.len() && can_be_opened(#[trigger] list[j]) && list[j].product_id
                        == pid) ==> list[i as int].product_id == pid
            },
        rising(candidates(list, pref)),
{
    law_candidates(list, pref);
    assert forall|d: DeviceEntry| #[trigger] can_be_opened(d) <==> meets(d, Criterion::Cable) by {
    }
    assert forall|i: usize| #[trigger] candidates(list, pref).contains(i) <==> {
        &&& i < list.len()
        &&& can_be_opened(list[i as int])
        &&& pref matches Some(pid) ==> (exists|j: int|
            0 <= j < list.len() && can_be_opened(#[trigger] list[j]) && list[j].product_id == pid)
            ==> list[i as int].product_id == pid
    } by {
        if let Some(pid) = pref {
            if exists|j: int|
                0 <= j < list.len() && can_be_opened(#[trigger] list[j]) && list[j].product_id
                    == pid {
                let j = choose|j: int|
                    0 <= j < list.len() && can_be_opened(#[trigger] list[j]) && list[j].product_id
                        == pid;
                assert(meets(list[j], Criterion::Cable));
            }
            if exists|j: int|
                0 <= j < list.len() && meets(#[trigger] list[j], Criterion::Cable)
                    && list[j].product_id == pid {
                let j = choose|j: int|
                    0 <= j < list.len() && meets(#[trigger] list[j], Criterion::Cable)
                        && list[j].product_id == pid;
                assert(can_be_opened(list[j]));
            }
        }
    }
    assert(rising(places(list)));
    lemma_filter_keeps_rising(places(list), place_meets(list, Criterion::Cable));
    if let Some(pid) = pref {
        lemma_filter_keeps_rising(cables(list), place_meets(list, Criterion::Product(pid)));
    }
}

proof fn lemma_once_keeps_rank(list: Seq<DeviceEntry>, order: Seq<usize>)
    requires
        ranked(list, order),
    ensures
        ranked(list, once_per_path(list, order)),
        forall|c: usize| #[trigger]
            order.contains(c) ==> exists|a: int|
                {
                    &&& 0 <= a < once_per_path(list, order).len()
                    &&& list[(#[trigger] once_per_path(list, order)[a]) as int].path@
                        == list[c as int].path@
                    &&& once_per_path(list, order)[a] == c || tried_before(
                        list,
                        once_per_path(list, order)[a],
                        c,
                    )
                },
    decreases order.len(),
{
    if order.len() > 0 {
        let front = order.drop_last();
        let last = order.last();
        let had = once_per_path(list, front);
        let once = once_per_path(list, order);
        assert(ranked(list, front)) by {
            assert forall|a: int, b: int| 0 <= a < b < front.len() implies tried_before(
                list,
                #[trigger] front[a],
                #[trigger] front[b],
            ) by {
                assert(tried_before(list, order[a], order[b]));
            }
        }
        lemma_once_keeps_rank(list, front);
        lemma_once_per_path(list, front);
        assert forall|k: int| 0 <= k < had.len() implies tried_before(
            list,
            #[trigger] had[k],
            last,
        ) by {
            assert(had.contains(had[k]));
            let x = choose|x: int| 0 <= x < front.len() && front[x] == had[k];
            assert(tried_before(list, order[x], order[order.len() - 1]));
        }
        assert forall|a: int, b: int| 0 <= a < b < once.len() implies tried_before(
            list,
            #[trigger] once[a],
            #[trigger] once[b],
        ) by {
            assert(once[a] == had[a]);
            if b < had.len() {
                assert(once[b] == had[b]);
            }
        }
        assert forall|c: usize| #[trigger] order.contains(c) implies exists|a: int|
            {
                &&& 0 <= a < once.len()
                &&& list[(#[trigger] once[a]) as int].path@ == list[c as int].path@
                &&& once[a] == c || tried_before(list, once[a], c)
            } by {
            let x = choose|x: int| 0 <= x < order.len() && order[x] == c;
            if x < front.len() {
                assert(front[x] == c);
                assert(front.contains(c));
                let a = choose|a: int|
                    {
                        &&& 0 <= a < had.len()
                        &&& list[(#[trigger] had[a]) as int].path@ == list[c as int].path@
                        &&& had[a] == c || tried_before(list, had[a], c)
                    };
                assert(once[a] == had[a]);
            } else if path_among(list, had, last) {
                let a = choose|a: int|
                    0 <= a < had.len() && list[(#[trigger] had[a]) as int].path@
                        == list[last as int].path@;
                assert(once[a] == had[a]);
            } else {
                assert(once[had.len() as int] == last);
            }
        }
    }
}

/// What is tried, and in which order. Only cables of vendor 0x35D8 with a path are tried, no path
/// twice. Those on a vendor's own usage page, 0xFF00 or above, come first; otherwise the list
/// decides. Every candidate is tried, or in its place one with the same path that comes before it.
pub proof fn law_what_is_tried(list: Seq<DeviceEntry>, pref: Option<u16>)
    requires
        list.len() <= usize::MAX,
    ensures
        ({
            let order = open_order(list, pref);
            &&& forall|k: int|
                0 <= k < order.len() ==> {
                    let i = #[trigger] order[k];
                    &&& candidates(list, pref).contains(i)
                    &&& i < list.len()
                    &&& list[i as int].vendor_id == 0x35D8
                    &&& list[i as int].path@.len() > 0
                }
            &&& forall|a: int, b: int|
                0 <= a < b < order.len() ==> list[(#[trigger] order[a]) as int].path@ != list[(
                #[trigger] order[b]) as int].path@
            &&& ranked(list, order)
            &&& forall|c: usize| #[trigger]
                candidates(list, pref).contains(c) ==> exists|a: int|
                    {
                        &&& 0 <= a < order.len()
                        &&& list[(#[trigger] order[a]) as int].path@ == list[c as int].path@
                        &&& order[a] == c || tried_before(list, order[a], c)
                    }
        }),
{
    let found = candidates(list, pref);
    let on_vendor = place_meets(list, Criterion::VendorPage);
    let on_common = place_meets(list, Criterion::CommonPage);
    let first = found.filter(on_vendor);
    let second = found.filter(on_common);
    let sorted = vendor_first(list, found);
    let order = open_order(list, pref);
    law_candidates_are_the_cables(list, pref);
    law_open_order(list, pref);
    lemma_filtered(found, on_vendor);
    lemma_filtered(found, on_common);
    lemma_filter_keeps_rising(found, on_vendor);
    lemma_filter_keeps_rising(found, on_common);
    assert(ranked(list, sorted)) by {
        assert forall|a: int, b: int| 0 <= a < b < sorted.len() implies tried_before(
            list,
            #[trigger] sorted[a],
            #[trigger] sorted[b],
        ) by {
            if a < first.len() {
                assert(sorted[a] == first[a]);
                assert(first.contains(first[a]));
                assert(on_vendor(first[a]));
            } else {
                assert(sorted[a] == second[a - first.len()]);
                assert(second.contains(second[a - first.len()]));
                assert(on_common(second[a - first.len()]));
            }
            if b < first.len() {
                assert(sorted[b] == first[b]);
                assert(first.contains(first[b]));
                assert(on_vendor(first[b]));
            } else {
                assert(sorted[b] == second[b - first.len()]);
                assert(second.contains(second[b - first.len()]));
                assert(on_common(second[b - first.len()]));
            }
        }
    }
    lemma_once_keeps_rank(list, sorted);
    assert forall|k: int| 0 <= k < order.len() implies found.contains(#[trigger] order[k]) by {
        assert(order.contains(order[k]));
    }
    assert forall|c: usize| #[trigger] found.contains(c) implies sorted.contains(c) by {
        if on_vendor(c) {
            assert(first.contains(c));
            let k = choose|k: int| 0 <= k < first.len() && first[k] == c;
            assert(sorted[k] == c);
        } else {
            assert(second.contains(c));
            let k = choose|k: int| 0 <= k < second.len() && second[k] == c;
            assert(sorted[first.len() + k] == c);
        }
    }
}

/// Looking at one more collection keeps the best so far unless the new one is longer: no
/// collection of unknown length is kept, the first of known length is, and behind it only one with
/// a longer input report.
pub proof fn law_only_a_longer_report_is_kept(
    best: Option<(usize, usize)>,
    place: usize,
    len: Option<usize>,
)
    ensures
        len is None ==> larger(best, (place, len)) == best,
        len is Some && best is None ==> larger(best, (place, len)) == Some((place, len->0)),
        len is Some && best is Some && len->0 > (best->0).1 ==> larger(best, (place, len)) == Some(
            (place, len->0),
        ),
        len is Some && best is Some && len->0 <= (best->0).1 ==> larger(best, (place, len)) == best,
{
}

} // verus!
