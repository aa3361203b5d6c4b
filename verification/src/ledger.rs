//! Leave to drive a cable.
//!
//! Every call that drives a platform's side of a cable uses up a `Turn` for exactly that call. A
//! turn comes from the `Ledger` of the device alone, which enters it. The ledger keeps the device
//! and never gives it back, so there is one ledger to a device; and turns are neither copied nor
//! cloned. What the ledger does not show was therefore not done. This module asks nothing of the
//! type of a device, so it cannot drive one itself.
use core::marker::PhantomData;
use vstd::prelude::*;

use crate::transport::Step;

verus! {

use crate::transport::StepView;

/// Leave to do one step with a device of type `T`, once.
pub struct Turn<T> {
    step: Ghost<StepView>,
    owner: PhantomData<T>,
}

impl<T> Turn<T> {
    /// The step that there is leave to do.
    pub closed spec fn step(&self) -> StepView {
        self.step@
    }
}

/// A device of type `T` and the turns that were given out for it.
pub struct Ledger<T> {
    dev: T,
    given: Ghost<Seq<StepView>>,
}

impl<T> Ledger<T> {
    /// The device.
    pub closed spec fn held(&self) -> T {
        self.dev
    }

    /// The steps that leave was given for, in order.
    pub closed spec fn given(&self) -> Seq<StepView> {
        self.given@
    }

    /// Takes a device over for good.
    pub fn new(dev: T) -> (ledger: Ledger<T>)
        ensures
            ledger.held() == dev,
            ledger.given() == Seq::<StepView>::empty(),
    {
        Ledger { dev, given: Ghost(Seq::empty()) }
    }

    /// The device, to be called with a turn.
    pub fn device(&self) -> (dev: &T)
        ensures
            *dev == self.held(),
    {
        &self.dev
    }

    /// Gives leave to do one step, and enters it.
    pub fn give(&mut self, step: &Step) -> (turn: Turn<T>)
        ensures
            final(self).given() == old(self).given().push(step@),
            final(self).held() == old(self).held(),
            turn.step() == step@,
    {
        self.given = Ghost(self.given@.push(step@));
        Turn { step: Ghost(step@), owner: PhantomData }
    }
}

} // verus!
