use vstd::prelude::*;

verus! {

/// What the library reads of a fill: its identifier and the second it was executed in.
/// The payload is whatever else the caller keeps with the fill.
pub struct FillView<P> {
    pub id: u64,
    pub time: i64,
    pub payload: P,
}

/// One executed trade leg.
///
/// `time` counts whole seconds since 1970-01-01T00:00:00Z. It is always below
/// `i64::MAX`, so the second after it can be named.
#[derive(Debug, PartialEq)]
pub struct Fill<P> {
    id: u64,
    time: i64,
    payload: P,
}

impl<P> View for Fill<P> {
    type V = FillView<P>;

    closed spec fn view(&self) -> FillView<P> {
        FillView { id: self.id, time: self.time, payload: self.payload }
    }
}

impl<P: Clone> Clone for Fill<P> {
    fn clone(&self) -> (r: Self)
        ensures
            r@.id == self@.id,
            r@.time == self@.time,
    {
        proof {
            use_type_invariant(self);
        }
        Fill { id: self.id, time: self.time, payload: self.payload.clone() }
    }
}

impl<P> Fill<P> {
    #[verifier::type_invariant]
    spec fn next_second_exists(self) -> bool {
        self.time < i64::MAX
    }

    /// Builds a fill, unless its time is the last representable second.
    pub fn new(id: u64, time: i64, payload: P) -> (r: Option<Fill<P>>)
        ensures
            r is Some <==> time < i64::MAX,
            r matches Some(f) ==> f@ == (FillView { id, time, payload }),
    {
        if time < i64::MAX {
            Some(Fill { id, time, payload })
        } else {
            None
        }
    }

    pub fn id(&self) -> (r: u64)
        ensures
            r == self@.id,
    {
        self.id
    }

    pub fn time(&self) -> (r: i64)
        ensures
            r == self@.time,
            r < i64::MAX,
    {
        proof {
            use_type_invariant(self);
        }
        self.time
    }

    pub fn payload(&self) -> (r: &P)
        ensures
            *r == self@.payload,
    {
        &self.payload
    }

    pub fn into_payload(self) -> (r: P)
        ensures
            r == self@.payload,
    {
        self.payload
    }
}

} // verus!
