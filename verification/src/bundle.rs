//! The snapshot handed to readers.
//!
//! A bundle holds the records of one feed's last successful
//! synchronization together with a freshness stamp.  A refresh replaces
//! the record list wholesale: a reader sees either the old list or the new
//! one in full, never a mix.  The serving layer keeps each bundle behind
//! its own reader/writer guard; that guard lives outside the library.

use vstd::prelude::*;

verus! {

/// Declares the standard library's monotone clock reading, which bundles
/// carry as their freshness stamp.
#[verifier::external_type_specification]
#[verifier::external_body]
pub struct ExInstant(std::time::Instant);

/// Relies on `Instant::now`: a fresh reading of the monotone clock.
/// Nothing is promised of the value.
#[verifier::external_body]
pub fn instant_now() -> std::time::Instant {
    std::time::Instant::now()
}

/// Relies on `Instant: Clone`: `Instant` is `Copy`, so a clone is the same
/// reading.
pub assume_specification[ <std::time::Instant as Clone>::clone ](
    v: &std::time::Instant,
) -> (r: std::time::Instant)
    ensures
        r == *v,
;

/// The snapshot of one feed: an ordered record list and the time it was
/// last checked.
#[derive(Clone)]
pub struct InfoBundle<T> {
    /// When the records were last checked.
    pub last_checked: std::time::Instant,
    /// The records, in listing order.
    pub post: Vec<T>,
}

impl<T> InfoBundle<T> {
    /// A bundle of the given records, stamped with the given time.
    pub fn new(post: Vec<T>, last_checked: std::time::Instant) -> (r: InfoBundle<T>)
        ensures
            r.post == post,
            r.last_checked == last_checked,
    {
        InfoBundle { last_checked, post }
    }

    /// Replaces the whole record list and refreshes the stamp.  Nothing of
    /// the old list survives into the new bundle.
    pub fn update(&mut self, post: Vec<T>)
        ensures
            final(self).post == post,
    {
        self.post = post;
        self.last_checked = instant_now();
    }
}

} // verus!
