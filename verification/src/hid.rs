//! The operations as a user sees them: they remember which cable was connected and refuse to
//! write to another one. The cable is opened anew for each; an operation gets either the open
//! cable or the reason why there is none.
use vstd::prelude::*;

use crate::band::{Band, BandIn, BANDS};
use crate::dsp;
use crate::dsp::WriteResult;
use crate::frame::MOONDROP_VID;
use crate::profile::{cable_profile, CableInfo};
use crate::transport::{Cable, Transport};

verus! {

use crate::band::band_in_reply;
use crate::dsp::{acks, mode_in_reply, same_mode, COUNTED};
use crate::profile::{preset_names, profile_has_presets, profile_name, profile_presets};
use crate::sequence::{bank_plan, mode_plan, preset_plan, write_plan};

/// The cable that the user connected.
#[derive(Clone)]
pub struct Expected {
    pub pid: u16,
    pub name: String,
}

/// Which cable, if any, the user has connected.
#[derive(Clone)]
pub struct Session {
    pub expected: Option<Expected>,
}

impl View for Session {
    type V = Option<(u16, Seq<char>)>;

    open spec fn view(&self) -> Option<(u16, Seq<char>)> {
        match self.expected {
            Some(e) => Some((e.pid, e.name@)),
            None => None,
        }
    }
}

impl Session {
    /// No cable is connected yet.
    pub fn new() -> (session: Session)
        ensures
            session@ is None,
    {
        Session { expected: None }
    }
}

/// The reason not to write to the cable with product ID `pid` that calls itself `product`, if
/// there is one: it is not the cable that was connected.
pub open spec fn refusal(
    connected: Option<(u16, Seq<char>)>,
    pid: u16,
    product: Seq<char>,
) -> Option<Seq<char>> {
    match connected {
        Some((expected, name)) if expected != pid => Some(
            "Wrong cable connected: expected "@ + name + ", found "@ + profile_name(pid, product)
                + ". Nothing was written."@,
        ),
        _ => None,
    }
}

/// The product ID of the connected cable, to be preferred when the cable is opened again.
pub fn expected_pid(session: &Session) -> (pid: Option<u16>)
    ensures
        pid == match session@ {
            Some(connected) => Some(connected.0),
            None => None::<u16>,
        },
{
    match &session.expected {
        Some(e) => Some(e.pid),
        None => None,
    }
}

/// The product ID to prefer when the cable is opened: none in order to connect it, since any cable
/// may be connected, and that of the connected cable for everything else.
pub fn preferred_pid(session: &Session, connecting: bool) -> (pid: Option<u16>)
    ensures
        pid == match session@ {
            Some(connected) if !connecting => Some(connected.0),
            _ => None::<u16>,
        },
{
    if connecting {
        None
    } else {
        expected_pid(session)
    }
}

/// Lets a write pass unless the open cable is not the connected one.
pub fn guard<T: Transport>(session: &Session, dev: &Cable<T>) -> (r: Result<(), String>)
    ensures
        match r {
            Ok(_) => refusal(session@, dev.product_id(), dev.product_name()) is None,
            Err(reason) => refusal(session@, dev.product_id(), dev.product_name()) == Some(
                reason@,
            ),
        },
{
    match &session.expected {
        Some(e) => {
            if dev.pid() != e.pid {
                let (found, _has_presets, _presets) = cable_profile(dev.pid(), dev.product());
                let mut reason = "Wrong cable connected: expected ".to_owned();
                reason.append(e.name.as_str());
                reason.append(", found ");
                reason.append(found.as_str());
                reason.append(". Nothing was written.");
                return Err(reason);
            }
            Ok(())
        },
        None => Ok(()),
    }
}

/// Connects the opened cable: from now on it is the one that writes go to.
pub fn open<T: Transport>(session: &mut Session, opened: Result<&Cable<T>, String>) -> (r: Result<
    CableInfo,
    String,
>)
    ensures
        match opened {
            Ok(dev) => {
                &&& final(session)@ == Some(
                    (dev.product_id(), profile_name(dev.product_id(), dev.product_name())),
                )
                &&& r matches Ok(info)
                &&& info.name@ == profile_name(dev.product_id(), dev.product_name())
                &&& info.vid == MOONDROP_VID
                &&& info.pid == dev.product_id()
                &&& info.has_presets == profile_has_presets(dev.product_id())
                &&& preset_names(info.presets@) == profile_presets(dev.product_id())
            },
            Err(reason) => *final(session) == *old(session) && r == Err::<CableInfo, String>(
                reason,
            ),
        },
{
    let dev = match opened {
        Ok(dev) => dev,
        Err(reason) => {
            return Err(reason);
        },
    };
    let pid = dev.pid();
    let (name, has_presets, presets) = cable_profile(pid, dev.product());
    session.expected = Some(Expected { pid, name: name.clone() });
    Ok(CableInfo { name, vid: MOONDROP_VID as u32, pid: pid as u32, has_presets, presets })
}

/// Forgets the connected cable.
pub fn close(session: &mut Session)
    ensures
        final(session)@ is None,
{
    session.expected = None;
}

/// Asks the opened cable which profile is active.
pub fn read_mode<T: Transport>(opened: Result<&mut Cable<T>, String>) -> (r: Result<
    Option<i32>,
    String,
>)
    ensures
        match opened {
            Ok(dev) => {
                &&& r matches Ok(mode)
                &&& dev.did(mode_plan(), *final(dev))
                &&& dev.heard(*final(dev)).len() == 1
                &&& same_mode(
                    mode,
                    mode_in_reply(dev.heard(*final(dev))[0]),
                )
            },
            Err(reason) => r == Err::<Option<i32>, String>(reason),
        },
{
    match opened {
        Ok(dev) => Ok(dsp::read_mode(dev)),
        Err(reason) => Err(reason),
    }
}

/// Reads the nine bands that the opened cable holds.
pub fn read_bank<T: Transport>(opened: Result<&mut Cable<T>, String>) -> (r: Result<
    Vec<Band>,
    String,
>)
    ensures
        match opened {
            Ok(dev) => {
                &&& r matches Ok(bands)
                &&& dev.did(bank_plan(BANDS as int), *final(dev))
                &&& dev.heard(*final(dev)).len() == BANDS
                &&& bands@.len() == BANDS
                &&& forall|k: int|
                    #![trigger bands@[k]]
                    0 <= k < BANDS ==> bands@[k]@ == band_in_reply(
                        k + 1,
                        dev.heard(*final(dev))[k].ok,
                        dev.heard(*final(dev))[k].report,
                    )
            },
            Err(reason) => r == Err::<Vec<Band>, String>(reason),
        },
{
    match opened {
        Ok(dev) => Ok(dsp::read_bank(dev)),
        Err(reason) => Err(reason),
    }
}

/// Makes profile `idx` active on the opened cable, if that is the connected one.
pub fn set_preset<T: Transport>(
    session: &Session,
    opened: Result<&mut Cable<T>, String>,
    idx: i32,
) -> (r: Result<Option<i32>, String>)
    ensures
        match opened {
            Ok(dev) => match refusal(session@, dev.product_id(), dev.product_name()) {
                Some(reason) => {
                    &&& r matches Err(e)
                    &&& e@ == reason
                    &&& *final(dev) == *dev
                },
                None => {
                    &&& r matches Ok(mode)
                    &&& dev.did(preset_plan(idx), *final(dev))
                    &&& dev.heard(*final(dev)).len() == 3
                    &&& same_mode(
                        mode,
                        mode_in_reply(dev.heard(*final(dev))[2]),
                    )
                },
            },
            Err(reason) => r == Err::<Option<i32>, String>(reason),
        },
{
    match opened {
        Ok(dev) => match guard(session, &*dev) {
            Ok(_) => Ok(dsp::set_preset(dev, idx)),
            Err(reason) => Err(reason),
        },
        Err(reason) => Err(reason),
    }
}

/// Writes the first nine of `bands` into the custom bank of the opened cable, if that is the
/// connected one. `flat` says that the preamp factor is one.
///
/// A cable that could not be opened, or is refused, asks nothing of the bands.
pub fn write_bank<T: Transport>(
    session: &Session,
    opened: Result<&mut Cable<T>, String>,
    bands: &[BandIn],
    flat: bool,
) -> (r: Result<WriteResult, String>)
    requires
        opened matches Ok(dev) && refusal(session@, dev.product_id(), dev.product_name()) is None
            ==> bands@.len() >= BANDS,
    ensures
        match opened {
            Ok(dev) => match refusal(session@, dev.product_id(), dev.product_name()) {
                Some(reason) => {
                    &&& r matches Err(e)
                    &&& e@ == reason
                    &&& *final(dev) == *dev
                },
                None => {
                    let replies = dev.heard(*final(dev));
                    &&& r matches Ok(w)
                    &&& dev.did(write_plan(bands@, flat), *final(dev))
                    &&& replies.len() == COUNTED + 3
                    &&& w.acked <= COUNTED
                    &&& w.acked == acks(replies.subrange(1, 1 + COUNTED))
                    &&& same_mode(w.active, mode_in_reply(replies[COUNTED + 2]))
                },
            },
            Err(reason) => r == Err::<WriteResult, String>(reason),
        },
{
    match opened {
        Ok(dev) => match guard(session, &*dev) {
            Ok(_) => Ok(dsp::write_bank(dev, bands, flat)),
            Err(reason) => Err(reason),
        },
        Err(reason) => Err(reason),
    }
}

/// Writes pass exactly where no cable is connected or the open one is the connected one, whatever
/// either calls itself.
pub proof fn law_only_the_connected_cable_is_written(
    connected: Option<(u16, Seq<char>)>,
    pid: u16,
    product: Seq<char>,
)
    ensures
        refusal(connected, pid, product) is None <==> (connected matches Some(c) ==> c.0 == pid),
{
}

/// What is seen of a session is the connected cable, if there is one: its product ID and its name.
pub proof fn law_session_is_seen_whole(session: Session)
    ensures
        session@ is Some <==> session.expected is Some,
        session.expected matches Some(e) ==> session@ matches Some(c) && c.0 == e.pid && c.1
            == e.name@,
{
}

/// A refusal names both cables: behind the words that the wrong one is connected, the one that was
/// expected, by the name that it was connected under; then the one that was found, by its own; and
/// it ends by saying that nothing was written.
pub proof fn law_refusal_names_both_cables(
    expected: u16,
    name: Seq<char>,
    pid: u16,
    product: Seq<char>,
)
    requires
        expected != pid,
    ensures
        ({
            let found = profile_name(pid, product);
            let at = 32 + name.len() as int;
            &&& refusal(Some((expected, name)), pid, product) matches Some(text)
            &&& text.len() == at + 8 + found.len() + 22
            &&& text.take(32) == "Wrong cable connected: expected "@
            &&& text.subrange(32, at) == name
            &&& text.subrange(at, at + 8) == ", found "@
            &&& text.subrange(at + 8, at + 8 + found.len()) == found
            &&& text.skip(at + 8 + found.len()) == ". Nothing was written."@
        }),
{
    reveal_strlit("Wrong cable connected: expected ");
    reveal_strlit(", found ");
    reveal_strlit(". Nothing was written.");
    let found = profile_name(pid, product);
    let at = 32 + name.len() as int;
    let text = refusal(Some((expected, name)), pid, product)->0;
    assert("Wrong cable connected: expected "@.len() == 32);
    assert(", found "@.len() == 8);
    assert(". Nothing was written."@.len() == 22);
    assert(text.take(32) =~= "Wrong cable connected: expected "@);
    assert(text.subrange(32, at) =~= name);
    assert(text.subrange(at, at + 8) =~= ", found "@);
    assert(text.subrange(at + 8, at + 8 + found.len()) =~= found);
    assert(text.skip(at + 8 + found.len()) =~= ". Nothing was written."@);
}

} // verus!
