//! Opening the cable, step by step: what to try next after what came of the last try.
use vstd::prelude::*;

use crate::discovery::{find_open_order, DeviceEntry};

verus! {

use crate::discovery::{
    can_be_opened, candidates, law_candidates_are_the_cables, law_what_is_tried, open_order,
    tried_before,
};

/// What stands behind the reason of a failed open, where the platform may have refused it.
pub open spec fn hint(macos: bool) -> Seq<char> {
    if macos {
        "\n\nmacOS is most likely blocking HID access. Open System Settings > Privacy & Security > Input Monitoring, allow FreeDSP Studio, then try again."@
    } else {
        "\n\nIf the cable is plugged in, you may not have permission to open the hidraw device. A udev rule granting access to VID 35d8 is needed."@
    }
}

/// What a user can do about a refused open.
pub fn permission_hint(macos: bool) -> (text: &'static str)
    ensures
        text@ == hint(macos),
{
    if macos {
        // The cable's HID collection is Consumer Control, which macOS treats as a protected
        // device: opening it needs Input Monitoring consent.
        "\n\nmacOS is most likely blocking HID access. Open System Settings > Privacy & Security > Input Monitoring, allow FreeDSP Studio, then try again."
    } else {
        "\n\nIf the cable is plugged in, you may not have permission to open the hidraw device. A udev rule granting access to VID 35d8 is needed."
    }
}

/// Why no cable could be opened: the last attempt's error.
pub open spec fn open_failure(last_err: Seq<char>, macos: bool) -> Seq<char> {
    "could not open the Moondrop cable: "@ + last_err + hint(macos)
}

/// What is under way while the cable is being opened.
#[derive(Clone, Copy, PartialEq, Eq, Structural)]
pub enum Phase {
    /// The device list has been asked for.
    Listing,
    /// A device is being opened.
    Trying,
    /// The bus is being enumerated again.
    Refreshing,
    /// It is over.
    Over,
}

/// The cable being opened.
///
/// The device list is as old as the context that holds it. Paths stay valid while the cable stays
/// plugged in, so the list is made anew only where opening from it has failed, and not where the
/// context has just been made.
pub struct Opening {
    /// The product ID to prefer.
    pub pref: Option<u16>,
    /// Whether the platform is macOS.
    pub macos: bool,
    /// Whether the list may still be made anew.
    pub may_refresh: bool,
    /// The places of the current list to try.
    pub order: Vec<usize>,
    /// How many of them have failed.
    pub failed: usize,
    pub phase: Phase,
}

/// What the platform is to do next.
pub enum OpenAction {
    /// Hand over the device list.
    List,
    /// Enumerate the bus again.
    Refresh,
    /// Open the device at this place of the list.
    TryOpen(usize),
    /// Nothing: the device at this place of the list is the cable.
    Opened(usize),
    /// Nothing: there is no cable, for this reason.
    Fail(String),
}

/// What came of it.
pub enum OpenEvent {
    Listed(Vec<DeviceEntry>),
    Refreshed,
    RefreshFailed(String),
    Opened,
    OpenFailed(String),
}

/// An `Opening`, its list taken as a sequence.
pub struct OpeningView {
    pub pref: Option<u16>,
    pub macos: bool,
    pub may_refresh: bool,
    pub order: Seq<usize>,
    pub failed: int,
    pub phase: Phase,
}

impl View for Opening {
    type V = OpeningView;

    open spec fn view(&self) -> OpeningView {
        OpeningView {
            pref: self.pref,
            macos: self.macos,
            may_refresh: self.may_refresh,
            order: self.order@,
            failed: self.failed as int,
            phase: self.phase,
        }
    }
}

/// An `OpenAction`, its text taken as characters.
pub enum OpenActionView {
    List,
    Refresh,
    TryOpen(usize),
    Opened(usize),
    Fail(Seq<char>),
}

impl View for OpenAction {
    type V = OpenActionView;

    open spec fn view(&self) -> OpenActionView {
        match *self {
            OpenAction::List => OpenActionView::List,
            OpenAction::Refresh => OpenActionView::Refresh,
            OpenAction::TryOpen(i) => OpenActionView::TryOpen(i),
            OpenAction::Opened(i) => OpenActionView::Opened(i),
            OpenAction::Fail(reason) => OpenActionView::Fail(reason@),
        }
    }
}

impl OpeningView {
    /// While a device is being opened there is one that is.
    pub open spec fn wf(self) -> bool {
        self.phase == Phase::Trying ==> 0 <= self.failed < self.order.len()
    }

    /// Whether an event can be what came of the action under way.
    pub open spec fn awaits(self, event: OpenEvent) -> bool {
        match event {
            OpenEvent::Listed(_) => self.phase == Phase::Listing,
            OpenEvent::Refreshed => self.phase == Phase::Refreshing,
            OpenEvent::RefreshFailed(_) => self.phase == Phase::Refreshing,
            OpenEvent::Opened => self.phase == Phase::Trying,
            OpenEvent::OpenFailed(_) => self.phase == Phase::Trying,
        }
    }

    /// Nothing on the list can be opened: make the list anew if that may help.
    pub open spec fn give_up(self, reason: Seq<char>) -> (OpeningView, OpenActionView) {
        if self.may_refresh {
            (
                OpeningView { may_refresh: false, phase: Phase::Refreshing, ..self },
                OpenActionView::Refresh,
            )
        } else {
            (OpeningView { phase: Phase::Over, ..self }, OpenActionView::Fail(reason))
        }
    }

    /// Where an event leads, and what is to be done there.
    pub open spec fn after(self, event: OpenEvent) -> (OpeningView, OpenActionView) {
        match event {
            OpenEvent::Listed(list) => {
                let order = open_order(list@, self.pref);
                let listed = OpeningView { order, failed: 0, ..self };
                if order.len() == 0 {
                    listed.give_up("no Moondrop cable found"@)
                } else {
                    (
                        OpeningView { phase: Phase::Trying, ..listed },
                        OpenActionView::TryOpen(order[0]),
                    )
                }
            },
            OpenEvent::Refreshed => (
                OpeningView { phase: Phase::Listing, ..self },
                OpenActionView::List,
            ),
            OpenEvent::RefreshFailed(reason) => (
                OpeningView { phase: Phase::Over, ..self },
                OpenActionView::Fail(reason@),
            ),
            OpenEvent::Opened => (
                OpeningView { phase: Phase::Over, ..self },
                OpenActionView::Opened(self.order[self.failed]),
            ),
            OpenEvent::OpenFailed(reason) => {
                let next = OpeningView { failed: self.failed + 1, ..self };
                if next.failed < self.order.len() {
                    (next, OpenActionView::TryOpen(self.order[next.failed]))
                } else {
                    next.give_up(open_failure(reason@, self.macos))
                }
            },
        }
    }

    /// How much can still happen: every event takes from it.
    pub open spec fn remaining(self) -> int {
        (if self.may_refresh { 4int } else { 0 }) + match self.phase {
            Phase::Listing => 2int,
            Phase::Trying => 1,
            Phase::Refreshing => 3,
            Phase::Over => 0,
        }
    }
}

impl Opening {
    /// Begins to open the cable from the list of a context. `fresh` says that the context, and so
    /// the list, has just been made. The first thing to do is to hand over the list.
    pub fn new(pref: Option<u16>, fresh: bool, macos: bool) -> (o: Opening)
        ensures
            o@ == (OpeningView {
                pref,
                macos,
                may_refresh: !fresh,
                order: Seq::empty(),
                failed: 0,
                phase: Phase::Listing,
            }),
            o@.wf(),
    {
        let order: Vec<usize> = Vec::new();
        Opening { pref, macos, may_refresh: !fresh, order, failed: 0, phase: Phase::Listing }
    }

    fn give_up(&mut self, reason: String) -> (action: OpenAction)
        ensures
            (final(self)@, action@) == old(self)@.give_up(reason@),
    {
        if self.may_refresh {
            self.may_refresh = false;
            self.phase = Phase::Refreshing;
            OpenAction::Refresh
        } else {
            self.phase = Phase::Over;
            OpenAction::Fail(reason)
        }
    }

    /// Takes what came of the last action and says what to do next.
    pub fn step(&mut self, event: OpenEvent) -> (action: OpenAction)
        requires
            old(self)@.wf(),
            old(self)@.awaits(event),
        ensures
            final(self)@.wf(),
            (final(self)@, action@) == old(self)@.after(event),
    {
        match event {
            OpenEvent::Listed(list) => {
                self.order = find_open_order(&list, self.pref);
                self.failed = 0;
                if self.order.len() == 0 {
                    self.give_up("no Moondrop cable found".to_owned())
                } else {
                    self.phase = Phase::Trying;
                    OpenAction::TryOpen(self.order[0])
                }
            },
            OpenEvent::Refreshed => {
                self.phase = Phase::Listing;
                OpenAction::List
            },
            OpenEvent::RefreshFailed(reason) => {
                self.phase = Phase::Over;
                OpenAction::Fail(reason)
            },
            OpenEvent::Opened => {
                self.phase = Phase::Over;
                OpenAction::Opened(self.order[self.failed])
            },
            OpenEvent::OpenFailed(reason) => {
                let n = self.order.len();
                self.failed = self.failed + 1;
                if self.failed < n {
                    OpenAction::TryOpen(self.order[self.failed])
                } else {
                    let mut text = "could not open the Moondrop cable: ".to_owned();
                    text.append(reason.as_str());
                    text.append(permission_hint(self.macos));
                    self.give_up(text)
                }
            },
        }
    }
}

/// Every event brings the end nearer, the list is made anew at most once, and once the cable is
/// handed out or given up no event is awaited any more.
pub proof fn law_opening_ends(o: OpeningView, event: OpenEvent)
    requires
        o.wf(),
        o.awaits(event),
    ensures
        ({
            let (next, action) = o.after(event);
            &&& next.wf()
            &&& next.phase == Phase::Over <==> (action is Opened || action is Fail)
            &&& next.phase == Phase::Over ==> forall|e: OpenEvent| !next.awaits(e)
            &&& next.may_refresh ==> o.may_refresh
            &&& action is Refresh ==> o.may_refresh && !next.may_refresh
            &&& 0 <= next.remaining() <= o.remaining()
            &&& next.remaining() == o.remaining() ==> next.order == o.order && o.failed
                < next.failed < next.order.len()
        }),
{
}

/// The device that is handed out is the one that was tried last, and every one tried is on the
/// list that was handed over last.
pub proof fn law_opened_is_the_one_tried(o: OpeningView, event: OpenEvent)
    requires
        o.wf(),
        o.awaits(event),
    ensures
        ({
            let (next, action) = o.after(event);
            &&& action matches OpenActionView::TryOpen(i) ==> next.phase == Phase::Trying && i
                == next.order[next.failed]
            &&& action matches OpenActionView::Opened(i) ==> o.phase == Phase::Trying && i
                == o.order[o.failed]
            &&& next.order == match event {
                OpenEvent::Listed(list) => open_order(list@, o.pref),
                _ => o.order,
            }
        }),
{
}

/// What is seen of the state, and of an action, is all that they hold.
pub proof fn law_opening_is_seen_whole(o: Opening, a: OpenAction)
    ensures
        o@.pref == o.pref,
        o@.macos == o.macos,
        o@.may_refresh == o.may_refresh,
        o@.order == o.order@,
        o@.failed == o.failed,
        o@.phase == o.phase,
        match a {
            OpenAction::List => a@ is List,
            OpenAction::Refresh => a@ is Refresh,
            OpenAction::TryOpen(i) => a@ == OpenActionView::TryOpen(i),
            OpenAction::Opened(i) => a@ == OpenActionView::Opened(i),
            OpenAction::Fail(reason) => a@ matches OpenActionView::Fail(text) && text == reason@,
        },
{
}

/// A list is awaited where it was asked for, the end of an enumeration where the bus is being
/// enumerated, and the outcome of an open where a device is being opened. In this last case one of
/// the places to try has not failed yet.
pub proof fn law_what_is_awaited(o: OpeningView, event: OpenEvent)
    ensures
        o.awaits(event) <==> {
            ||| event is Listed && o.phase == Phase::Listing
            ||| (event is Refreshed || event is RefreshFailed) && o.phase == Phase::Refreshing
            ||| (event is Opened || event is OpenFailed) && o.phase == Phase::Trying
        },
        o.wf() <==> (o.phase == Phase::Trying ==> 0 <= o.failed && o.failed < o.order.len()),
{
}

/// A list on which there is a cable, vendor 0x35D8 and a path that is not empty, leads to a try.
/// What is tried is a candidate, and of all candidates the one to be tried before every other.
pub proof fn law_a_listed_cable_is_tried(o: OpeningView, list: Vec<DeviceEntry>, j: int)
    requires
        list@.len() <= usize::MAX,
        0 <= j < list@.len(),
        list@[j].vendor_id == 0x35D8,
        list@[j].path@.len() > 0,
    ensures
        ({
            let (next, action) = o.after(OpenEvent::Listed(list));
            &&& action matches OpenActionView::TryOpen(i)
            &&& candidates(list@, o.pref).contains(i)
            &&& list@[i as int].vendor_id == 0x35D8
            &&& forall|c: usize| #[trigger]
                candidates(list@, o.pref).contains(c) ==> c == i || tried_before(list@, i, c)
            &&& next.phase == Phase::Trying
            &&& next.order == open_order(list@, o.pref)
            &&& next.order[0] == i
            &&& next.failed == 0
            &&& next.may_refresh == o.may_refresh
            &&& next.pref == o.pref
            &&& next.macos == o.macos
        }),
{
    let order = open_order(list@, o.pref);
    law_what_is_tried(list@, o.pref);
    law_candidates_are_the_cables(list@, o.pref);
    lemma_some_candidate(list@, o.pref, j);
    let some = choose|c: usize| #[trigger] candidates(list@, o.pref).contains(c);
    assert(exists|a: int|
        0 <= a < order.len() && list@[(#[trigger] order[a]) as int].path@
            == list@[some as int].path@);
    assert(order.len() > 0);
    let i = order[0];
    assert forall|c: usize| #[trigger] candidates(list@, o.pref).contains(c) implies c == i
        || tried_before(list@, i, c) by {
        let a = choose|a: int|
            {
                &&& 0 <= a < order.len()
                &&& list@[(#[trigger] order[a]) as int].path@ == list@[c as int].path@
                &&& order[a] == c || tried_before(list@, order[a], c)
            };
        if a > 0 {
            assert(tried_before(list@, order[0], order[a]));
        }
    }
}

proof fn lemma_some_candidate(list: Seq<DeviceEntry>, pref: Option<u16>, j: int)
    requires
        list.len() <= usize::MAX,
        0 <= j < list.len(),
        can_be_opened(list[j]),
    ensures
        exists|c: usize| #[trigger] candidates(list, pref).contains(c),
{
    law_candidates_are_the_cables(list, pref);
    match pref {
        Some(pid) if exists|k: int|
            0 <= k < list.len() && can_be_opened(#[trigger] list[k]) && list[k].product_id
                == pid => {
            let k = choose|k: int|
                0 <= k < list.len() && can_be_opened(#[trigger] list[k]) && list[k].product_id
                    == pid;
            assert(candidates(list, pref).contains(k as usize));
        },
        _ => {
            assert(candidates(list, pref).contains(j as usize));
        },
    }
}

/// A list without a cable leads to a new enumeration of the bus if there may be one, and then there
/// may be no other; if there may be none, to the end, for want of a cable.
pub proof fn law_a_list_without_a_cable(o: OpeningView, list: Vec<DeviceEntry>)
    requires
        list@.len() <= usize::MAX,
        forall|j: int|
            0 <= j < list@.len() ==> (#[trigger] list@[j]).vendor_id != 0x35D8
                || list@[j].path@.len() == 0,
    ensures
        ({
            let (next, action) = o.after(OpenEvent::Listed(list));
            &&& o.may_refresh ==> action is Refresh && next.phase == Phase::Refreshing
            &&& !o.may_refresh ==> action == OpenActionView::Fail("no Moondrop cable found"@)
                && next.phase == Phase::Over
            &&& !next.may_refresh
            &&& next.pref == o.pref
            &&& next.macos == o.macos
        }),
{
    law_what_is_tried(list@, o.pref);
    let order = open_order(list@, o.pref);
    if order.len() > 0 {
        let i = order[0];
        assert(list@[i as int].vendor_id == 0x35D8);
        assert(list@[i as int].path@.len() > 0);
    }
}

/// A device that did not open leads to the next place of the order. Behind the last one it leads
/// to a new enumeration of the bus if there may be one, and otherwise to the end; the reason given
/// is that of this last failure, whole, between the words that it could not be opened and the hint
/// for the platform.
pub proof fn law_a_failed_open_leads_on(o: OpeningView, reason: String)
    requires
        o.wf(),
        o.phase == Phase::Trying,
    ensures
        ({
            let (next, action) = o.after(OpenEvent::OpenFailed(reason));
            let more = o.failed + 1 < o.order.len();
            &&& next.order == o.order
            &&& next.failed == o.failed + 1
            &&& next.pref == o.pref
            &&& next.macos == o.macos
            &&& more ==> action == OpenActionView::TryOpen(o.order[o.failed + 1]) && next.phase
                == Phase::Trying && next.may_refresh == o.may_refresh
            &&& !more && o.may_refresh ==> action is Refresh && next.phase == Phase::Refreshing
                && !next.may_refresh
            &&& !more && !o.may_refresh ==> action == OpenActionView::Fail(
                "could not open the Moondrop cable: "@ + reason@ + hint(o.macos),
            ) && next.phase == Phase::Over && !next.may_refresh
        }),
{
}

/// After a new enumeration the list is asked for; where the enumeration failed it is over, for that
/// reason; and a device that opened is handed out. None of these changes anything else.
pub proof fn law_other_outcomes(o: OpeningView, reason: String)
    ensures
        ({
            let (next, action) = o.after(OpenEvent::Refreshed);
            &&& action is List
            &&& next == (OpeningView { phase: Phase::Listing, ..o })
        }),
        ({
            let (next, action) = o.after(OpenEvent::RefreshFailed(reason));
            &&& action == OpenActionView::Fail(reason@)
            &&& next == (OpeningView { phase: Phase::Over, ..o })
        }),
        ({
            let (next, action) = o.after(OpenEvent::Opened);
            &&& action == OpenActionView::Opened(o.order[o.failed])
            &&& next == (OpeningView { phase: Phase::Over, ..o })
        }),
{
}

} // verus!
