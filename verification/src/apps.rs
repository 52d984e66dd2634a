//! Application-side helpers: values paired per rendering layer.

use vstd::prelude::*;

verus! {

/// A collection of values associated with each of the layers of graphics
/// that is normally drawn (the interface overlay on top of the world).
#[derive(Clone, Copy, Debug, PartialEq, Eq)]
pub struct Layers<T> {
    /// The value for the world layer.
    pub world: T,
    /// The value for the interface layer.
    pub ui: T,
}

impl<T> Layers<T> {
    /// Borrow each layer's value.
    pub fn as_refs(&self) -> (r: Layers<&T>)
        ensures
            r.world == &self.world,
            r.ui == &self.ui,
    {
        Layers { world: &self.world, ui: &self.ui }
    }

    /// Transform each layer's value.
    pub fn map<U>(self, f: impl Fn(T) -> U) -> (r: Layers<U>)
        requires
            forall|t: T| f.requires((t,)),
        ensures
            f.ensures((self.world,), r.world),
            f.ensures((self.ui,), r.ui),
    {
        Layers { world: f(self.world), ui: f(self.ui) }
    }

    /// Transform each layer's value by reference, stopping at the first
    /// failure.
    pub fn try_map_ref<U, E>(&self, f: impl Fn(&T) -> Result<U, E>) -> (r: Result<Layers<U>, E>)
        requires
            forall|t: &T| f.requires((t,)),
        ensures
            r matches Ok(l) ==> exists|wr: Result<U, E>, ur: Result<U, E>|
                f.ensures((&self.world,), wr) && f.ensures((&self.ui,), ur) && wr
                    == Ok::<U, E>(l.world) && ur == Ok::<U, E>(l.ui),
            r matches Err(e) ==> exists|er: Result<U, E>|
                (f.ensures((&self.world,), er) || f.ensures((&self.ui,), er)) && er == Err::<
                    U,
                    E,
                >(e),
    {
        let world = match f(&self.world) {
            Ok(w) => w,
            Err(e) => {
                return Err(e);
            },
        };
        let ui = match f(&self.ui) {
            Ok(u) => u,
            Err(e) => {
                return Err(e);
            },
        };
        Ok(Layers { world, ui })
    }
}

} // verus!
