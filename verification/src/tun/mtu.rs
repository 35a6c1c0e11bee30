//! A device whose MTU can be set, and what became of the attempts.

use vstd::prelude::*;

verus! {

/// A way to set a device's MTU, which remembers every attempt and whether the device took
/// it. An attempt is made through [`MtuSetter::set`] and in no other way, so none is missed.
pub struct MtuSetter<F> {
    set: F,
    attempts: Ghost<Seq<(u16, bool)>>,
}

impl<F> MtuSetter<F> {
    /// How the device is set.
    pub closed spec fn setter(&self) -> F {
        self.set
    }

    /// The MTUs tried so far, in order, and whether the device took each.
    pub closed spec fn attempts(&self) -> Seq<(u16, bool)> {
        self.attempts@
    }

    /// A device of which nothing was asked yet.
    pub fn new(set: F) -> (r: Self)
        ensures
            r.setter() == set,
            r.attempts() == Seq::<(u16, bool)>::empty(),
    {
        MtuSetter { set, attempts: Ghost(Seq::empty()) }
    }

    /// Asks the device for an MTU.
    pub fn set<E>(&mut self, mtu: u16) -> (r: Result<(), E>) where F: FnMut(u16) -> Result<(), E>
        requires
            call_requires(old(self).setter(), (mtu,)),
        ensures
            final(self).setter() == old(self).setter(),
            final(self).attempts() == old(self).attempts().push((mtu, r is Ok)),
            call_ensures(old(self).setter(), (mtu,), r),
    {
        broadcast use vstd::function::group_function_axioms;

        let r: Result<(), E> = (&mut self.set)(mtu);
        proof {
            self.attempts@ = self.attempts@.push((mtu, r is Ok));
        }
        r
    }
}

} // verus!
