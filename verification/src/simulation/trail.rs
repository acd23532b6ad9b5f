//! The bounded history of a body's positions.

use vstd::prelude::*;

verus! {

/// The most positions that a trail keeps.
pub const MAX_TRAIL_LENGTH: usize = 1000;

/// The path that a body has taken: its latest positions, the oldest first.
/// The trail only grows at its end, and once it is full every new position
/// pushes the oldest one out.
#[derive(Debug)]
pub struct Trail<P> {
    points: Vec<P>,
}

impl<P> View for Trail<P> {
    type V = Seq<P>;

    closed spec fn view(&self) -> Seq<P> {
        self.points@
    }
}

/// The trail after it has taken one more position.
pub open spec fn extended<P>(trail: Seq<P>, point: P) -> Seq<P> {
    if trail.len() < MAX_TRAIL_LENGTH {
        trail.push(point)
    } else {
        trail.subrange(1, trail.len() as int).push(point)
    }
}

/// The trail that has taken the positions of `points` one by one, starting
/// empty.
pub open spec fn recorded<P>(points: Seq<P>) -> Seq<P>
    decreases points.len(),
{
    if points.len() == 0 {
        Seq::empty()
    } else {
        extended(recorded(points.drop_last()), points.last())
    }
}

/// The last `MAX_TRAIL_LENGTH` positions of `points`, or all of them if
/// there are fewer.
pub open spec fn latest<P>(points: Seq<P>) -> Seq<P> {
    if points.len() <= MAX_TRAIL_LENGTH {
        points
    } else {
        points.subrange(points.len() - MAX_TRAIL_LENGTH, points.len() as int)
    }
}

/// However many positions a trail has taken, it holds the most recent ones,
/// in the order in which they came, and never more than `MAX_TRAIL_LENGTH`.
pub proof fn lemma_trail_keeps_latest<P>(points: Seq<P>)
    ensures
        recorded(points) == latest(points),
        recorded(points).len() <= MAX_TRAIL_LENGTH,
    decreases points.len(),
{
    if points.len() > 0 {
        lemma_trail_keeps_latest(points.drop_last());
        assert(recorded(points) =~= latest(points));
    }
}

impl<P: Clone> Clone for Trail<P> {
    fn clone(&self) -> (copy: Self)
        ensures
            copy@.len() == self@.len(),
            forall|i: int| 0 <= i < self@.len() ==> cloned(#[trigger] self@[i], copy@[i]),
    {
        proof {
            use_type_invariant(self);
        }
        Trail { points: self.points.clone() }
    }
}

impl<P> Trail<P> {
    /// A trail is never longer than `MAX_TRAIL_LENGTH`.
    #[verifier::type_invariant]
    pub closed spec fn inv(&self) -> bool {
        self.points@.len() <= MAX_TRAIL_LENGTH
    }

    /// An empty trail.
    pub fn new() -> (trail: Trail<P>)
        ensures
            trail@ == Seq::<P>::empty(),
    {
        Trail { points: Vec::with_capacity(MAX_TRAIL_LENGTH) }
    }

    /// The positions held, the oldest first.
    pub fn points(&self) -> (points: &Vec<P>)
        ensures
            points@ == self@,
            points@.len() <= MAX_TRAIL_LENGTH,
    {
        proof {
            use_type_invariant(self);
        }
        &self.points
    }

    pub fn len(&self) -> (n: usize)
        ensures
            n == self@.len(),
            n <= MAX_TRAIL_LENGTH,
    {
        proof {
            use_type_invariant(self);
        }
        self.points.len()
    }

    /// Appends a position; a full trail drops its oldest position for it.
    pub fn push(&mut self, point: P)
        ensures
            final(self)@ == extended(old(self)@, point),
    {
        proof {
            use_type_invariant(&*self);
        }
        let mut points: Vec<P> = Vec::new();
        std::mem::swap(&mut points, &mut self.points);
        points.push(point);
        if points.len() > MAX_TRAIL_LENGTH {
            points.remove(0);
        }
        assert(points@ =~= extended(old(self)@, point));
        self.points = points;
    }
}

} // verus!
