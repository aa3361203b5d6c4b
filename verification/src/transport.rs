//! Moving frames: what a platform does for the library, and how the library has it done.
use vstd::prelude::*;

use crate::frame::{FRAME_LEN, REPORT_ID};
use crate::ledger::{Ledger, Turn};

verus! {

/// One thing to do with an open cable.
pub enum Step {
    /// Send a frame.
    Send([u8; FRAME_LEN]),
    /// Fetch a report.
    Receive,
    /// Let this many milliseconds go by.
    Pause(u64),
}

/// A `Step`, the frame taken as a sequence of bytes.
pub enum StepView {
    Send(Seq<u8>),
    Receive,
    Pause(int),
}

impl View for Step {
    type V = StepView;

    open spec fn view(&self) -> StepView {
        match *self {
            Step::Send(frame) => StepView::Send(frame@),
            Step::Receive => StepView::Receive,
            Step::Pause(millis) => StepView::Pause(millis as int),
        }
    }
}

/// The steps of a list, each taken by its view.
pub open spec fn plan(steps: Seq<Step>) -> Seq<StepView> {
    steps.map_values(|s: Step| s@)
}

/// What came back from a fetch.
pub struct Reply {
    /// Whether the fetch succeeded.
    pub ok: bool,
    /// The report, its ID still in byte 0.
    pub report: Vec<u8>,
}

/// A `Reply`, the report taken as a sequence of bytes.
pub struct ReplyView {
    pub ok: bool,
    pub report: Seq<u8>,
}

impl View for Reply {
    type V = ReplyView;

    open spec fn view(&self) -> ReplyView {
        ReplyView { ok: self.ok, report: self.report@ }
    }
}

/// The replies of a list, each taken by its view.
pub open spec fn views(replies: Seq<Reply>) -> Seq<ReplyView> {
    replies.map_values(|r: Reply| r@)
}

/// One thing that was done with an open cable, and how it went.
pub enum Event {
    Sent { frame: Seq<u8>, ok: bool },
    Received { reply: ReplyView },
    Paused { millis: int },
}

impl Event {
    /// The step that this is the outcome of.
    pub open spec fn step(self) -> StepView {
        match self {
            Event::Sent { frame, ok } => StepView::Send(frame),
            Event::Received { reply } => StepView::Receive,
            Event::Paused { millis } => StepView::Pause(millis),
        }
    }
}

/// The steps that led to `events`.
pub open spec fn asked(events: Seq<Event>) -> Seq<StepView> {
    events.map_values(|e: Event| e.step())
}

/// The replies among `events`, in order.
pub open spec fn answered(events: Seq<Event>) -> Seq<ReplyView>
    decreases events.len(),
{
    if events.len() == 0 {
        Seq::empty()
    } else {
        match events.last() {
            Event::Received { reply } => answered(events.drop_last()).push(reply),
            _ => answered(events.drop_last()),
        }
    }
}

/// What was done between the history `before` and the history `after`.
pub open spec fn between(before: Seq<Event>, after: Seq<Event>) -> Seq<Event> {
    after.skip(before.len() as int)
}

/// How many steps of `plan` fetch a report.
pub open spec fn receives(plan: Seq<StepView>) -> nat
    decreases plan.len(),
{
    if plan.len() == 0 {
        0
    } else {
        receives(plan.drop_last()) + if plan.last() is Receive {
            1nat
        } else {
            0
        }
    }
}

/// Counting the fetches of two plans, one behind the other.
pub proof fn lemma_receives_add(a: Seq<StepView>, b: Seq<StepView>)
    ensures
        receives(a + b) == receives(a) + receives(b),
    decreases b.len(),
{
    if b.len() == 0 {
        assert(a + b =~= a);
    } else {
        assert((a + b).drop_last() =~= a + b.drop_last());
        lemma_receives_add(a, b.drop_last());
    }
}

/// Every fetch of a plan gives one reply.
pub proof fn law_one_reply_per_fetch(events: Seq<Event>)
    ensures
        answered(events).len() == receives(asked(events)),
    decreases events.len(),
{
    if events.len() > 0 {
        assert(asked(events).drop_last() =~= asked(events.drop_last()));
        law_one_reply_per_fetch(events.drop_last());
    }
}

/// One cable, opened, as the platform has it. Both directions go over the HID *control* pipe:
/// GET_REPORT on an input report and SET_REPORT on an output report.
///
/// Nothing is taken for granted of what a platform answers. Each call that drives the cable uses
/// up leave to make that call; the platform has nothing to do with it.
pub trait Transport: Sized {
    /// SET_REPORT(Output). `frame` is `FRAME_LEN` bytes, report ID first. True on success.
    fn set_output(&self, frame: &[u8], turn: Turn<Self>) -> bool
        requires
            frame@.len() == FRAME_LEN,
            frame@[0] == REPORT_ID,
            turn.step() == StepView::Send(frame@),
    ;

    /// GET_REPORT(Input). Returns (ok, report) with the report ID still in byte 0.
    fn get_input(&self, turn: Turn<Self>) -> (bool, Vec<u8>)
        requires
            turn.step() == StepView::Receive,
    ;

    /// Lets `millis` milliseconds go by.
    fn pause(&self, millis: u64, turn: Turn<Self>)
        requires
            turn.step() == StepView::Pause(millis as int),
    ;

    /// The USB product ID.
    fn pid(&self) -> u16;

    /// What the cable calls itself.
    fn product(&self) -> &str;
}

/// `ok` is an answer of the platform to sending `bytes`.
pub open spec fn sending_gave<T: Transport>(dev: T, bytes: &[u8], turn: Turn<T>, ok: bool) -> bool {
    call_ensures(T::set_output, (&dev, bytes, turn), ok)
}

/// `ok` and `report` are an answer of the platform to a fetch.
pub open spec fn fetching_gave<T: Transport>(
    dev: T,
    turn: Turn<T>,
    ok: bool,
    report: Vec<u8>,
) -> bool {
    call_ensures(T::get_input, (&dev, turn), (ok, report))
}

/// The platform let `millis` milliseconds go by.
pub open spec fn pausing_ended<T: Transport>(dev: T, millis: u64, turn: Turn<T>) -> bool {
    call_ensures(T::pause, (&dev, millis, turn), ())
}

/// `name` is what the platform says that the cable calls itself.
pub open spec fn naming_gave<T: Transport>(dev: T, name: &str) -> bool {
    call_ensures(T::product, (&dev,), name)
}

/// The platform answered `ok` to sending `frame`.
pub open spec fn sent<T: Transport>(dev: T, frame: Seq<u8>, ok: bool) -> bool {
    exists|bytes: &[u8], turn: Turn<T>|
        bytes@ == frame && #[trigger] sending_gave(dev, bytes, turn, ok)
}

/// The platform answered `ok` and `report` to a fetch.
pub open spec fn fetched<T: Transport>(dev: T, ok: bool, report: Seq<u8>) -> bool {
    exists|turn: Turn<T>, bytes: Vec<u8>|
        bytes@ == report && #[trigger] fetching_gave(dev, turn, ok, bytes)
}

/// The platform paused for `millis` milliseconds.
pub open spec fn paused<T: Transport>(dev: T, millis: int) -> bool {
    exists|m: u64, turn: Turn<T>| m == millis && #[trigger] pausing_ended(dev, m, turn)
}

/// The event is the outcome of a call of the platform's side.
pub open spec fn happened<T: Transport>(dev: T, event: Event) -> bool {
    match event {
        Event::Sent { frame, ok } => sent(dev, frame, ok),
        Event::Received { reply } => fetched(dev, reply.ok, reply.report),
        Event::Paused { millis } => paused(dev, millis),
    }
}

/// An open cable, the history of what was done with it since, and the ledger by which it is
/// driven.
///
/// The history shows no more than was done: every entry is the outcome of a call. The ledger shows
/// no less: without a turn from it no call can be made.
pub struct Cable<T: Transport> {
    ledger: Ledger<T>,
    pid: u16,
    product: String,
    log: Ghost<Seq<Event>>,
}

impl<T: Transport> Cable<T> {
    /// What was done with this cable since it was opened, and what came of it.
    pub closed spec fn history(&self) -> Seq<Event> {
        self.log@
    }

    /// The steps that the platform's side was driven to since it was opened.
    pub closed spec fn driven(&self) -> Seq<StepView> {
        self.ledger.given()
    }

    /// The platform's side of it.
    pub closed spec fn device(&self) -> T {
        self.ledger.held()
    }

    /// The USB product ID.
    pub closed spec fn product_id(&self) -> u16 {
        self.pid
    }

    /// What the cable calls itself.
    pub closed spec fn product_name(&self) -> Seq<char> {
        self.product@
    }

    /// Between this state and `after`, exactly the steps of `plan` were done with the platform's
    /// side, in that order, and nothing else has changed: the platform was driven to no other
    /// step and to none more often, and for each there is the outcome of a call in the history.
    pub open spec fn did(self, plan: Seq<StepView>, after: Cable<T>) -> bool {
        let events = between(self.history(), after.history());
        &&& after.driven() == self.driven() + plan
        &&& self.history().is_prefix_of(after.history())
        &&& asked(events) == plan
        &&& forall|k: int| 0 <= k < events.len() ==> happened(self.device(), #[trigger] events[k])
        &&& after.device() == self.device()
        &&& after.product_id() == self.product_id()
        &&& after.product_name() == self.product_name()
    }

    /// What came back between this state and `after`.
    pub open spec fn heard(self, after: Cable<T>) -> Seq<ReplyView> {
        answered(between(self.history(), after.history()))
    }

    /// Takes over a cable that was just opened.
    pub fn new(dev: T) -> (cable: Cable<T>)
        ensures
            cable.history() == Seq::<Event>::empty(),
            cable.driven() == Seq::<StepView>::empty(),
            cable.device() == dev,
            call_ensures(T::pid, (&dev,), cable.product_id()),
            exists|name: &str|
                name@ == cable.product_name() && #[trigger] naming_gave(dev, name),
            exists|name: &str| #[trigger]
                call_ensures(T::product, (&dev,), name) && name@ == cable.product_name(),
    {
        let ledger = Ledger::new(dev);
        let pid = ledger.device().pid();
        let name = ledger.device().product();
        assert(naming_gave(dev, name));
        let product = name.to_owned();
        Cable { ledger, pid, product, log: Ghost(Seq::empty()) }
    }

    pub fn pid(&self) -> (id: u16)
        ensures
            id == self.product_id(),
    {
        self.pid
    }

    pub fn product(&self) -> (name: &str)
        ensures
            name@ == self.product_name(),
    {
        self.product.as_str()
    }

    /// Does one step; a fetch gives a reply.
    pub fn act(&mut self, step: &Step) -> (reply: Option<Reply>)
        requires
            is_frame(step@),
        ensures
            final(self).driven() == old(self).driven().push(step@),
            final(self).history().len() == old(self).history().len() + 1,
            old(self).history().is_prefix_of(final(self).history()),
            final(self).history().last().step() == step@,
            happened(old(self).device(), final(self).history().last()),
            match final(self).history().last() {
                Event::Received { reply: got } => reply matches Some(r) && r@ == got,
                _ => reply is None,
            },
            final(self).device() == old(self).device(),
            final(self).product_id() == old(self).product_id(),
            final(self).product_name() == old(self).product_name(),
    {
        let turn = self.ledger.give(step);
        let ghost leave = turn;
        let ghost dev = self.device();
        match step {
            Step::Send(frame) => {
                let bytes: &[u8] = frame;
                let ok = self.ledger.device().set_output(bytes, turn);
                assert(sending_gave(dev, bytes, leave, ok) && bytes@ =~= frame@);
                assert(sent(dev, frame@, ok));
                self.log = Ghost(self.log@.push(Event::Sent { frame: frame@, ok }));
                None
            },
            Step::Receive => {
                let (ok, report) = self.ledger.device().get_input(turn);
                assert(fetching_gave(dev, leave, ok, report));
                assert(fetched(dev, ok, report@));
                let reply = Reply { ok, report };
                self.log = Ghost(self.log@.push(Event::Received { reply: reply@ }));
                Some(reply)
            },
            Step::Pause(millis) => {
                self.ledger.device().pause(*millis, turn);
                assert(pausing_ended(dev, *millis, leave));
                self.log = Ghost(self.log@.push(Event::Paused { millis: *millis as int }));
                None
            },
        }
    }
}

/// A step that sends sends a frame: `FRAME_LEN` bytes with the report ID first.
pub open spec fn is_frame(step: StepView) -> bool {
    step matches StepView::Send(f) ==> f.len() == FRAME_LEN && f[0] == REPORT_ID
}

/// The plan sends nothing but frames.
pub open spec fn sends_frames(plan: Seq<StepView>) -> bool {
    forall|k: int| 0 <= k < plan.len() ==> is_frame(#[trigger] plan[k])
}

/// Does the steps one after the other, whatever comes of each, and collects the replies.
pub fn perform<T: Transport>(dev: &mut Cable<T>, steps: &Vec<Step>) -> (replies: Vec<Reply>)
    requires
        sends_frames(plan(steps@)),
    ensures
        old(dev).did(plan(steps@), *final(dev)),
        views(replies@) == old(dev).heard(*final(dev)),
        replies@.len() == receives(plan(steps@)),
{
    let mut replies: Vec<Reply> = Vec::new();
    let ghost before = dev.history();
    assert(dev.driven() + plan(steps@.take(0)) =~= dev.driven());
    assert(between(before, before) =~= Seq::<Event>::empty());
    assert(asked(Seq::<Event>::empty()) =~= plan(steps@.take(0)));
    assert(views(replies@) =~= answered(Seq::<Event>::empty()));
    let mut i: usize = 0;
    while i < steps.len()
        invariant
            i <= steps@.len(),
            before == old(dev).history(),
            sends_frames(plan(steps@)),
            old(dev).did(plan(steps@.take(i as int)), *dev),
            views(replies@) == old(dev).heard(*dev),
        decreases steps@.len() - i,
    {
        let ghost so_far = dev.history();
        let ghost had = replies@;
        assert(plan(steps@)[i as int] == steps@[i as int]@);
        let reply = dev.act(&steps[i]);
        if let Some(r) = reply {
            replies.push(r);
            assert(views(replies@) =~= views(had).push(r@));
        }
        proof {
            let event = dev.history().last();
            assert(dev.history() =~= so_far.push(event));
            let events = between(before, so_far);
            let longer = between(before, dev.history());
            assert(longer =~= events.push(event));
            assert(longer.drop_last() =~= events);
            assert forall|k: int| 0 <= k < longer.len() implies happened(
                old(dev).device(),
                #[trigger] longer[k],
            ) by {
                if k < events.len() {
                    assert(longer[k] == events[k]);
                }
            }
            assert(asked(longer) =~= asked(events).push(event.step()));
            assert(plan(steps@.take(i + 1)) =~= plan(steps@.take(i as int)).push(steps@[i as int]@));
        }
        assert(dev.driven() =~= old(dev).driven() + plan(steps@.take(i + 1)));
        i = i + 1;
    }
    assert(steps@.take(steps@.len() as int) =~= steps@);
    proof {
        law_one_reply_per_fetch(between(before, dev.history()));
    }
    replies
}

/// A list of steps says what each of its steps is: which bytes are sent, that there is a fetch, how
/// many milliseconds go by.
pub proof fn law_plan_says_each_step(steps: Seq<Step>, k: int)
    requires
        0 <= k < steps.len(),
    ensures
        plan(steps).len() == steps.len(),
        match steps[k] {
            Step::Send(frame) => plan(steps)[k] matches StepView::Send(f) && f == frame@,
            Step::Receive => plan(steps)[k] is Receive,
            Step::Pause(millis) => plan(steps)[k] matches StepView::Pause(m) && m == millis,
        },
{
}

/// A list of replies says of each whether its fetch succeeded, and all bytes of its report.
pub proof fn law_views_say_each_reply(replies: Seq<Reply>, k: int)
    requires
        0 <= k < replies.len(),
    ensures
        views(replies).len() == replies.len(),
        views(replies)[k].ok == replies[k].ok,
        views(replies)[k].report == replies[k].report@,
{
}

/// The replies of two runs of events, one behind the other, are those of the first and behind
/// them those of the second; a single event has its reply where it is a fetch, and none otherwise.
pub proof fn law_answers_in_order(a: Seq<Event>, b: Seq<Event>, e: Event)
    ensures
        answered(a + b) == answered(a) + answered(b),
        e matches Event::Received { reply } ==> answered(seq![e]) == seq![reply],
        !(e is Received) ==> answered(seq![e]).len() == 0,
    decreases b.len(),
{
    reveal_with_fuel(answered, 2);
    assert(seq![e].drop_last() =~= Seq::empty());
    assert(e matches Event::Received { reply } ==> answered(seq![e]) =~= seq![reply]);
    if b.len() == 0 {
        assert(a + b =~= a);
        assert(answered(a) + answered(b) =~= answered(a));
    } else {
        assert((a + b).drop_last() =~= a + b.drop_last());
        law_answers_in_order(a, b.drop_last(), e);
        assert(answered(a + b) =~= answered(a) + answered(b));
    }
}

/// Fetches add up, each counting once and no other step at all.
pub proof fn law_fetches_add_up(a: Seq<StepView>, b: Seq<StepView>, step: StepView)
    ensures
        receives(a + b) == receives(a) + receives(b),
        receives(seq![step]) == if step is Receive {
            1int
        } else {
            0
        },
{
    reveal_with_fuel(receives, 2);
    assert(seq![step].drop_last() =~= Seq::empty());
    lemma_receives_add(a, b);
}

/// A plan sends nothing but frames where every send in it is of 62 bytes with a one first.
pub proof fn law_frames_only(plan: Seq<StepView>)
    ensures
        sends_frames(plan) <==> forall|k: int|
            0 <= k < plan.len() ==> (#[trigger] plan[k] matches StepView::Send(f) ==> f.len() == 62
                && f[0] == 1),
{
    if forall|k: int|
        0 <= k < plan.len() ==> (#[trigger] plan[k] matches StepView::Send(f) ==> f.len() == 62
            && f[0] == 1) {
        assert forall|k: int| 0 <= k < plan.len() implies is_frame(#[trigger] plan[k]) by {
        }
    }
    if sends_frames(plan) {
        assert forall|k: int| 0 <= k < plan.len() implies (
        #[trigger] plan[k] matches StepView::Send(f) ==> f.len() == 62 && f[0] == 1) by {
            assert(is_frame(plan[k]));
        }
    }
}

/// What was done is what was planned, step by step: step `k` of the plan is entry `k` behind those
/// that were there before, a send with its bytes, a fetch with its reply, a pause with its length.
/// Nothing before it is lost, and neither the device nor what it is called has changed.
pub proof fn law_what_was_planned_was_done<T: Transport>(
    before: Cable<T>,
    plan: Seq<StepView>,
    after: Cable<T>,
    k: int,
)
    requires
        before.did(plan, after),
        0 <= k < plan.len(),
    ensures
        ({
            let n = before.history().len() as int;
            let event = after.history()[n + k];
            &&& after.driven() == before.driven() + plan
            &&& after.history().len() == n + plan.len()
            &&& after.history().take(n) == before.history()
            &&& match plan[k] {
                StepView::Send(f) => event matches Event::Sent { frame, ok } && frame == f,
                StepView::Receive => event is Received,
                StepView::Pause(m) => event matches Event::Paused { millis } && millis == m,
            }
            &&& after.device() == before.device()
            &&& after.product_id() == before.product_id()
            &&& after.product_name() == before.product_name()
        }),
{
    let n = before.history().len() as int;
    let events = between(before.history(), after.history());
    assert(asked(events).len() == events.len());
    assert(asked(events)[k] == events[k].step());
    assert(events[k] == after.history()[n + k]);
    assert(after.history().take(n) =~= before.history());
}

/// Every entry that was added is what the platform's side answered to that very call.
pub proof fn law_what_was_done_was_called<T: Transport>(
    before: Cable<T>,
    plan: Seq<StepView>,
    after: Cable<T>,
    k: int,
)
    requires
        before.did(plan, after),
        0 <= k < plan.len(),
    ensures
        ({
            let dev = before.device();
            let event = after.history()[before.history().len() + k];
            &&& event is Sent ==> exists|bytes: &[u8], turn: Turn<T>| #[trigger]
                call_ensures(T::set_output, (&dev, bytes, turn), event->ok) && bytes@
                    == event->frame
            &&& event is Received ==> exists|turn: Turn<T>, bytes: Vec<u8>| #[trigger]
                call_ensures(T::get_input, (&dev, turn), (event->reply.ok, bytes)) && bytes@
                    == event->reply.report
            &&& event is Paused ==> exists|millis: u64, turn: Turn<T>| #[trigger]
                call_ensures(T::pause, (&dev, millis, turn), ()) && millis == event->millis
        }),
{
    let dev = before.device();
    let events = between(before.history(), after.history());
    law_what_was_planned_was_done(before, plan, after, k);
    let event = events[k];
    assert(event == after.history()[before.history().len() + k]);
    assert(happened(dev, event));
    match event {
        Event::Sent { frame, ok } => {
            let (bytes, turn) = choose|bytes: &[u8], turn: Turn<T>|
                bytes@ == frame && #[trigger] sending_gave(dev, bytes, turn, ok);
            assert(call_ensures(T::set_output, (&dev, bytes, turn), ok));
        },
        Event::Received { reply } => {
            let (turn, bytes) = choose|turn: Turn<T>, bytes: Vec<u8>|
                bytes@ == reply.report && #[trigger] fetching_gave(dev, turn, reply.ok, bytes);
            assert(call_ensures(T::get_input, (&dev, turn), (reply.ok, bytes)));
        },
        Event::Paused { millis } => {
            let (m, turn) = choose|m: u64, turn: Turn<T>|
                m == millis && #[trigger] pausing_ended(dev, m, turn);
            assert(call_ensures(T::pause, (&dev, m, turn), ()));
        },
    }
}

/// What is heard between two states is what came back in all, less what had come back before.
pub proof fn law_what_is_heard<T: Transport>(before: Cable<T>, after: Cable<T>)
    requires
        before.history().is_prefix_of(after.history()),
    ensures
        answered(after.history()) == answered(before.history()) + before.heard(after),
{
    let added = between(before.history(), after.history());
    assert(after.history() =~= before.history() + added);
    law_answers_in_order(before.history(), added, Event::Paused { millis: 0 });
}

/// A buffer to fetch a report of `len` bytes into: the report ID, then zeros, and never shorter
/// than two bytes.
pub fn input_buffer(len: usize) -> (buf: Vec<u8>)
    ensures
        buf@.len() == if len < 2 { 2 } else { len as int },
        buf@[0] == REPORT_ID,
        forall|i: int| 1 <= i < buf@.len() ==> buf@[i] == 0,
{
    let n: usize = if len < 2 {
        2
    } else {
        len
    };
    let mut buf: Vec<u8> = Vec::new();
    buf.push(REPORT_ID);
    while buf.len() < n
        invariant
            1 <= buf@.len() <= n,
            buf@[0] == REPORT_ID,
            forall|i: int| 1 <= i < buf@.len() ==> buf@[i] == 0,
        decreases n - buf@.len(),
    {
        buf.push(0);
    }
    buf
}

/// Judges a fetch that put `fetched` bytes into `buf`, or failed.
///
/// The report is cut to what the device returned, so that a short one is seen to be short rather
/// than padded with zeros.
pub fn accept_input(fetched: Option<usize>, buf: Vec<u8>) -> (r: (bool, Vec<u8>))
    ensures
        r.0 == (fetched matches Some(n) && n >= 2),
        r.1@ == if fetched matches Some(n) && 2 <= n < buf@.len() {
            buf@.take(fetched->0 as int)
        } else {
            buf@
        },
{
    let mut report = buf;
    match fetched {
        Some(n) if n >= 2 => {
            report.truncate(n);
            (true, report)
        },
        _ => (false, report),
    }
}

} // verus!
