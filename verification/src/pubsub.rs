//! Observers of a stream of events.

use vstd::prelude::*;

verus! {

/// Something told of each event of type `T`.
pub trait Observer<T>: Send {
    fn notify(&mut self, event: T);
}

/// Something whose events can be observed.
pub trait Subject<T> {
    fn subscribe<O: Observer<T> + 'static>(&mut self, observer: O);
}

} // verus!
