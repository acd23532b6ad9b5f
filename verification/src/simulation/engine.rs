//! The body store: adding and removing bodies, the selection that follows
//! its body, picking, collision deletion and the handling of a frame's
//! input. What a body is, and whether it lies under a cursor or touches
//! another body, is the caller's knowledge.

use super::pairs::{
    index_combinations, index_permutations, lists_ordered_pairs, lists_unordered_pairs, pairs_fit,
};
use super::tick::{rounds, Tick};
use vstd::prelude::*;

verus! {

/// How many bodies a reset simulation starts with.
pub const NUM_OF_BODIES: usize = 10;

/// The slowest physics speed: one round per tick.
pub const MIN_PHYSICS_SPEED: u32 = 1;

/// The fastest physics speed that can be set.
pub const MAX_PHYSICS_SPEED: u32 = 16;

/// What happens to bodies that touch.
#[derive(Debug, Clone, Copy, PartialEq, Eq, Structural)]
pub enum CollisionMode {
    /// Nothing: bodies pass through each other.
    Off,
    /// Not available.
    Collide,
    /// Not available.
    Absorb,
    /// Every body that touches another is removed.
    Delete,
}

impl CollisionMode {
    /// The modes that a simulation can run with.
    pub open spec fn is_available(self) -> bool {
        self == CollisionMode::Off || self == CollisionMode::Delete
    }

    /// Whether a simulation can run with this mode.
    pub fn available(&self) -> (yes: bool)
        ensures
            yes == self.is_available(),
    {
        match self {
            CollisionMode::Off => true,
            CollisionMode::Collide => false,
            CollisionMode::Absorb => false,
            CollisionMode::Delete => true,
        }
    }
}

/// What the user asks of the simulation in one frame.
#[derive(Debug, Clone, Copy, PartialEq, Eq, Structural)]
pub struct SimulationInput {
    /// Add a body at the cursor.
    pub add_body: bool,
    /// Remove the first body under the cursor.
    pub remove_body: bool,
    /// Report the bodies under the cursor.
    pub print_body: bool,
    /// Select the first body under the cursor, or nothing if none is there.
    pub selected_body: bool,
    /// Run one more round per tick.
    pub up_speed: bool,
    /// Run one round less per tick.
    pub down_speed: bool,
    /// Replace all bodies by fresh ones.
    pub reset_contents: bool,
}

impl Default for SimulationInput {
    fn default() -> (input: SimulationInput)
        ensures
            input == (SimulationInput {
                add_body: false,
                remove_body: false,
                print_body: false,
                selected_body: false,
                up_speed: false,
                down_speed: false,
                reset_contents: false,
            }),
    {
        SimulationInput {
            add_body: false,
            remove_body: false,
            print_body: false,
            selected_body: false,
            up_speed: false,
            down_speed: false,
            reset_contents: false,
        }
    }
}

/// What the simulation needs to know of a cursor that stands in the world.
#[derive(Debug)]
pub struct Cursor<B> {
    /// For each body, by index, whether it lies under the cursor. A missing
    /// entry counts as no.
    pub hits: Vec<bool>,
    /// The body that is added at the cursor if the input asks for one.
    pub spawn: B,
    /// Whether `spawn` lies under the cursor.
    pub spawn_hit: bool,
}

/// What an input left for the caller to report.
#[derive(Debug)]
pub struct Report<B> {
    /// The indices of the bodies under the cursor, ascending, if the input
    /// asked for them. They are indices into `replaced` if that holds
    /// bodies, and into the simulation's bodies if it does not.
    pub under_cursor: Vec<usize>,
    /// The bodies that a reset took out of the simulation.
    pub replaced: Option<Vec<B>>,
}

/// The answer for each of `n` bodies: `hits` cut or filled up with no.
pub open spec fn mask_of(hits: Seq<bool>, n: nat) -> Seq<bool> {
    Seq::new(n, |i: int| i < hits.len() && hits[i])
}

/// The first index from `from` on at which `mask` holds yes.
pub open spec fn first_set_from(mask: Seq<bool>, from: int) -> Option<usize>
    decreases mask.len() - from,
{
    if from < 0 || from >= mask.len() {
        None
    } else if mask[from] {
        Some(from as usize)
    } else {
        first_set_from(mask, from + 1)
    }
}

/// The first index at which `mask` holds yes.
pub open spec fn first_set(mask: Seq<bool>) -> Option<usize> {
    first_set_from(mask, 0)
}

/// `found` is the first index at which `mask` holds yes, or none where it
/// holds no throughout.
pub open spec fn is_first_set(mask: Seq<bool>, found: Option<usize>) -> bool {
    match found {
        Some(i) => i < mask.len() && mask[i as int] && forall|j: int| 0 <= j < i ==> !mask[j],
        None => forall|j: int| 0 <= j < mask.len() ==> !mask[j],
    }
}

/// The indices at which `mask` holds yes, ascending.
pub open spec fn set_indices(mask: Seq<bool>) -> Seq<usize>
    decreases mask.len(),
{
    if mask.len() == 0 {
        Seq::empty()
    } else if mask.last() {
        set_indices(mask.drop_last()).push((mask.len() - 1) as usize)
    } else {
        set_indices(mask.drop_last())
    }
}

/// The physics speed nearest to `v` that can be set.
pub open spec fn speed_within_limits(v: int) -> u32 {
    if v < MIN_PHYSICS_SPEED {
        MIN_PHYSICS_SPEED
    } else if v > MAX_PHYSICS_SPEED {
        MAX_PHYSICS_SPEED
    } else {
        v as u32
    }
}

/// The indices that occur in one of the pairs.
pub open spec fn indices_in(pairs: Seq<(usize, usize)>) -> Set<int> {
    Set::new(
        |i: int| exists|k: int| 0 <= k < pairs.len() && (pairs[k].0 == i || pairs[k].1 == i),
    )
}

/// How many indices from `lo` up to, not including, `hi` are in `doomed`.
pub open spec fn count_in(doomed: Set<int>, lo: int, hi: int) -> int
    decreases hi - lo,
{
    if lo >= hi {
        0
    } else {
        (if doomed.contains(lo) {
            1int
        } else {
            0int
        }) + count_in(doomed, lo + 1, hi)
    }
}

/// The items from index `from` on whose index is not in `doomed`, in their
/// order.
pub open spec fn kept_from<B>(items: Seq<B>, doomed: Set<int>, from: int) -> Seq<B>
    decreases items.len() - from,
{
    if from < 0 || from >= items.len() {
        Seq::empty()
    } else if doomed.contains(from) {
        kept_from(items, doomed, from + 1)
    } else {
        seq![items[from]] + kept_from(items, doomed, from + 1)
    }
}

/// What a simulation holds: its bodies in the order in which they were
/// added, the index of the selected body, the number of physics rounds per
/// tick, and the collision mode.
pub struct State<B> {
    pub bodies: Seq<B>,
    pub selected: Option<usize>,
    pub speed: u32,
    pub mode: CollisionMode,
}

impl<B> State<B> {
    /// The selection, if there is one, is the index of a body.
    pub open spec fn wf(self) -> bool {
        match self.selected {
            Some(s) => s < self.bodies.len(),
            None => true,
        }
    }

    /// The state with one more body at the end.
    pub open spec fn with_body(self, body: B) -> State<B> {
        State { bodies: self.bodies.push(body), ..self }
    }

    /// The selection after the body at `i` has left: none if that body was
    /// selected, one less if it stood before the selected body, and
    /// unchanged otherwise.
    pub open spec fn selection_without(self, i: int) -> Option<usize> {
        match self.selected {
            Some(s) => if s == i {
                None
            } else if i < s {
                Some((s - 1) as usize)
            } else {
                Some(s)
            },
            None => None,
        }
    }

    /// The state without the body at `i`; an index that no body has changes
    /// nothing.
    pub open spec fn without_body(self, i: int) -> State<B> {
        if 0 <= i < self.bodies.len() {
            State { bodies: self.bodies.remove(i), selected: self.selection_without(i), ..self }
        } else {
            self
        }
    }

    /// The state with the speed set to `v` as far as the limits allow.
    pub open spec fn with_speed(self, v: int) -> State<B> {
        State { speed: speed_within_limits(v), ..self }
    }

    /// The state without the bodies whose index is in `doomed`. The
    /// selection follows the selected body, and is none if that body left.
    pub open spec fn without_all(self, doomed: Set<int>) -> State<B> {
        State {
            bodies: kept_from(self.bodies, doomed, 0),
            selected: match self.selected {
                Some(s) => if doomed.contains(s as int) {
                    None
                } else {
                    Some((s - count_in(doomed, 0, s as int)) as usize)
                },
                None => None,
            },
            ..self
        }
    }

    /// The state after the collision phase has been told which pairs of
    /// bodies touch.
    pub open spec fn after_collisions(self, touching: Seq<(usize, usize)>) -> State<B> {
        if self.mode == CollisionMode::Delete {
            self.without_all(indices_in(touching))
        } else {
            self
        }
    }
}

/// The selection while the doomed bodies leave, highest index first, at the
/// time when those from index `from` on have left.
pub open spec fn selection_midway(selected: Option<usize>, doomed: Set<int>, from: int) -> Option<
    usize,
> {
    match selected {
        Some(s) => if s < from {
            Some(s)
        } else if doomed.contains(s as int) {
            None
        } else {
            Some((s - count_in(doomed, from, s as int)) as usize)
        },
        None => None,
    }
}

/// The state and the cursor's answers after the input's wish for a new
/// body has been dealt with.
pub open spec fn after_add<B>(
    s: State<B>,
    mask: Seq<bool>,
    input: SimulationInput,
    cursor: Cursor<B>,
) -> (State<B>, Seq<bool>) {
    if input.add_body {
        (s.with_body(cursor.spawn), mask.push(cursor.spawn_hit))
    } else {
        (s, mask)
    }
}

/// The state and the cursor's answers after the input's wish to remove
/// the first body under the cursor has been dealt with.
pub open spec fn after_remove<B>(s: State<B>, mask: Seq<bool>, input: SimulationInput) -> (
    State<B>,
    Seq<bool>,
) {
    if input.remove_body {
        match first_set(mask) {
            Some(k) => (s.without_body(k as int), mask.remove(k as int)),
            None => (s, mask),
        }
    } else {
        (s, mask)
    }
}

/// The state after the input's wish to select the first body under the
/// cursor has been dealt with.
pub open spec fn after_select<B>(s: State<B>, mask: Seq<bool>, input: SimulationInput) -> State<B> {
    if input.selected_body {
        State { selected: first_set(mask), ..s }
    } else {
        s
    }
}

/// The state after the part of the input that needs a cursor, and the
/// indices to report: a body is added, then the first body under the cursor
/// is removed, then the bodies under the cursor are reported, then the
/// first of them is selected. Without a cursor nothing of this happens.
pub open spec fn after_cursor_input<B>(
    s: State<B>,
    input: SimulationInput,
    cursor: Option<Cursor<B>>,
) -> (State<B>, Seq<usize>) {
    match cursor {
        Some(c) => {
            let m0 = mask_of(c.hits@, s.bodies.len());
            let (s1, m1) = after_add(s, m0, input, c);
            let (s2, m2) = after_remove(s1, m1, input);
            (
                after_select(s2, m2, input),
                if input.print_body {
                    set_indices(m2)
                } else {
                    Seq::empty()
                },
            )
        },
        None => (s, Seq::empty()),
    }
}

/// The state after the input's wishes for speed: first up, then down.
pub open spec fn after_speed_input<B>(s: State<B>, input: SimulationInput) -> State<B> {
    let s1 = if input.up_speed {
        s.with_speed(s.speed + 1)
    } else {
        s
    };
    if input.down_speed {
        s1.with_speed(s1.speed - 1)
    } else {
        s1
    }
}

/// The state after the input's wish for a reset: the fresh bodies take the
/// place of all others and nothing is selected.
pub open spec fn after_reset<B>(s: State<B>, input: SimulationInput, fresh: Seq<B>) -> State<B> {
    if input.reset_contents {
        State { bodies: fresh, selected: None, ..s }
    } else {
        s
    }
}

/// The state after one frame's input.
pub open spec fn after_input<B>(
    s: State<B>,
    input: SimulationInput,
    cursor: Option<Cursor<B>>,
    fresh: Seq<B>,
) -> State<B> {
    after_reset(after_speed_input(after_cursor_input(s, input, cursor).0, input), input, fresh)
}

/// The body store of an N-body simulation, generic in what a body is. It
/// owns the bodies, knows which one is selected, and keeps the selection
/// pointing at the same body when bodies leave.
#[derive(Debug)]
pub struct Simulation<B> {
    bodies: Vec<B>,
    selected_body: Option<usize>,
    physics_speed: u32,
    collision_mode: CollisionMode,
}

impl<B> View for Simulation<B> {
    type V = State<B>;

    closed spec fn view(&self) -> State<B> {
        State {
            bodies: self.bodies@,
            selected: self.selected_body,
            speed: self.physics_speed,
            mode: self.collision_mode,
        }
    }
}

/// Between `lo` and `hi` there are no more doomed indices than indices.
proof fn lemma_count_in_bounds(doomed: Set<int>, lo: int, hi: int)
    requires
        lo <= hi,
    ensures
        0 <= count_in(doomed, lo, hi) <= hi - lo,
    decreases hi - lo,
{
    if lo < hi {
        lemma_count_in_bounds(doomed, lo + 1, hi);
    }
}

/// Where a body that is not doomed stands among the kept ones: as many
/// places down as there are doomed bodies before it.
proof fn lemma_kept_place<B>(items: Seq<B>, doomed: Set<int>, from: int, s: int)
    requires
        0 <= from <= s < items.len(),
        !doomed.contains(s),
    ensures
        0 <= s - from - count_in(doomed, from, s) < kept_from(items, doomed, from).len(),
        kept_from(items, doomed, from)[s - from - count_in(doomed, from, s)] == items[s],
    decreases s - from,
{
    if from < s {
        lemma_kept_place(items, doomed, from + 1, s);
        lemma_count_in_bounds(doomed, from + 1, s);
    }
}

/// Removing a body keeps the state well-formed, and a selection that was
/// on another body stays on that body.
pub proof fn lemma_selection_follows_removal<B>(s: State<B>, i: int)
    requires
        s.wf(),
    ensures
        s.without_body(i).wf(),
        s.selected.is_some() && s.selected.unwrap() != i ==> s.without_body(i).selected.is_some()
            && s.without_body(i).bodies[s.without_body(i).selected.unwrap() as int]
            == s.bodies[s.selected.unwrap() as int],
{
}

/// Removing the doomed bodies keeps the state well-formed, and a selection
/// that was on a body that stays is on that body afterwards.
pub proof fn lemma_selection_follows_deletion<B>(s: State<B>, doomed: Set<int>)
    requires
        s.wf(),
    ensures
        s.without_all(doomed).wf(),
        s.selected.is_some() && !doomed.contains(s.selected.unwrap() as int) ==> s.without_all(
            doomed,
        ).selected.is_some() && s.without_all(doomed).bodies[s.without_all(
            doomed,
        ).selected.unwrap() as int] == s.bodies[s.selected.unwrap() as int],
{
    if s.selected.is_some() && !doomed.contains(s.selected.unwrap() as int) {
        let k = s.selected.unwrap() as int;
        lemma_kept_place(s.bodies, doomed, 0, k);
        lemma_count_in_bounds(doomed, 0, k);
    }
}

/// `first_set_from` finds the first yes from `from` on.
proof fn lemma_first_set_from(mask: Seq<bool>, from: int)
    requires
        0 <= from,
        mask.len() <= usize::MAX,
    ensures
        match first_set_from(mask, from) {
            Some(i) => from <= i < mask.len() && mask[i as int] && forall|j: int|
                from <= j < i ==> !mask[j],
            None => forall|j: int| from <= j < mask.len() ==> !mask[j],
        },
    decreases mask.len() - from,
{
    if from < mask.len() && !mask[from] {
        lemma_first_set_from(mask, from + 1);
    }
}

/// There is one first yes in a mask, or none.
pub proof fn lemma_first_set(mask: Seq<bool>, found: Option<usize>)
    requires
        mask.len() <= usize::MAX,
    ensures
        is_first_set(mask, found) <==> found == first_set(mask),
{
    lemma_first_set_from(mask, 0);
}

/// What the indices at which a mask holds yes are: they ascend, the mask
/// holds yes at each, and none is missing.
pub proof fn lemma_set_indices(mask: Seq<bool>)
    requires
        mask.len() <= usize::MAX,
    ensures
        forall|k: int|
            0 <= k < set_indices(mask).len() ==> (#[trigger] set_indices(mask)[k]) < mask.len()
                && mask[set_indices(mask)[k] as int],
        forall|k: int, l: int|
            0 <= k < l < set_indices(mask).len() ==> set_indices(mask)[k] < set_indices(mask)[l],
        forall|i: int| 0 <= i < mask.len() && mask[i] ==> set_indices(mask).contains(i as usize),
    decreases mask.len(),
{
    if mask.len() > 0 {
        let rest = mask.drop_last();
        lemma_set_indices(rest);
        let all = set_indices(mask);
        let before = set_indices(rest);
        assert forall|i: int| 0 <= i < mask.len() && mask[i] implies all.contains(i as usize) by {
            if i < rest.len() {
                assert(rest[i]);
                let k = choose|k: int| 0 <= k < before.len() && before[k] == i as usize;
                assert(all[k] == i as usize);
            } else {
                assert(all[all.len() - 1] == i as usize);
            }
        }
    }
}

/// The indices in a list of pairs that has grown by one pair.
proof fn lemma_indices_in_push(pairs: Seq<(usize, usize)>, p: (usize, usize), i: int)
    ensures
        indices_in(pairs.push(p)).contains(i) <==> (indices_in(pairs).contains(i) || p.0 == i || p.1
            == i),
{
    let more = pairs.push(p);
    if indices_in(pairs).contains(i) {
        let k = choose|k: int| 0 <= k < pairs.len() && (pairs[k].0 == i || pairs[k].1 == i);
        assert(more[k] == pairs[k]);
    }
    if p.0 == i || p.1 == i {
        assert(more[pairs.len() as int] == p);
    }
    if indices_in(more).contains(i) {
        let k = choose|k: int| 0 <= k < more.len() && (more[k].0 == i || more[k].1 == i);
        if k < pairs.len() {
            assert(more[k] == pairs[k]);
        }
    }
}

/// The cursor's answers for `n` bodies.
fn fit_mask(hits: &Vec<bool>, n: usize) -> (mask: Vec<bool>)
    ensures
        mask@ == mask_of(hits@, n as nat),
{
    let mut mask: Vec<bool> = Vec::new();
    let mut i: usize = 0;
    while i < n
        invariant
            i <= n,
            mask@ == mask_of(hits@, i as nat),
        decreases n - i,
    {
        let hit: bool = i < hits.len() && hits[i];
        mask.push(hit);
        assert(mask@ =~= mask_of(hits@, (i + 1) as nat));
        i += 1;
    }
    mask
}

/// The first index at which the mask holds yes.
fn first_yes(mask: &Vec<bool>) -> (found: Option<usize>)
    ensures
        found == first_set(mask@),
        is_first_set(mask@, found),
{
    let n: usize = mask.len();
    let mut i: usize = 0;
    while i < n
        invariant
            i <= n,
            n == mask@.len(),
            forall|j: int| 0 <= j < i ==> !mask@[j],
        decreases n - i,
    {
        if mask[i] {
            proof {
                lemma_first_set(mask@, Some(i));
            }
            return Some(i);
        }
        i += 1;
    }
    proof {
        lemma_first_set(mask@, None);
    }
    None
}

/// The indices at which the mask holds yes, ascending.
fn yes_indices(mask: &Vec<bool>) -> (found: Vec<usize>)
    ensures
        found@ == set_indices(mask@),
{
    let n: usize = mask.len();
    let mut found: Vec<usize> = Vec::new();
    let mut i: usize = 0;
    while i < n
        invariant
            i <= n,
            n == mask@.len(),
            found@ == set_indices(mask@.subrange(0, i as int)),
        decreases n - i,
    {
        proof {
            let upto = mask@.subrange(0, i + 1);
            assert(upto.drop_last() =~= mask@.subrange(0, i as int));
            assert(upto.last() == mask@[i as int]);
        }
        if mask[i] {
            found.push(i);
        }
        i += 1;
    }
    assert(mask@.subrange(0, n as int) =~= mask@);
    found
}

impl<B> Simulation<B> {
    /// The selection, if there is one, is the index of a body.
    #[verifier::type_invariant]
    pub closed spec fn inv(&self) -> bool {
        match self.selected_body {
            Some(s) => s < self.bodies@.len(),
            None => true,
        }
    }

    /// Every simulation is in a well-formed state.
    pub proof fn lemma_view_wf(&self)
        requires
            self.inv(),
        ensures
            self@.wf(),
    {
    }

    /// A simulation of the given bodies with nothing selected. Without a
    /// speed it runs one round per tick.
    pub fn new(bodies: Vec<B>, physics_speed: Option<u32>, collision_mode: CollisionMode) -> (sim:
        Simulation<B>)
        ensures
            sim@ == (State {
                bodies: bodies@,
                selected: None,
                speed: match physics_speed {
                    Some(v) => v,
                    None => MIN_PHYSICS_SPEED,
                },
                mode: collision_mode,
            }),
    {
        let speed: u32 = match physics_speed {
            Some(v) => v,
            None => MIN_PHYSICS_SPEED,
        };
        Simulation { bodies, selected_body: None, physics_speed: speed, collision_mode }
    }

    pub fn physics_speed(&self) -> (speed: &u32)
        ensures
            *speed == self@.speed,
    {
        &self.physics_speed
    }

    /// The index of the selected body; it always is the index of a body.
    pub fn selected_body(&self) -> (selected: &Option<usize>)
        ensures
            *selected == self@.selected,
            self@.wf(),
    {
        proof {
            use_type_invariant(self);
        }
        &self.selected_body
    }

    pub fn collision_mode(&self) -> (mode: &CollisionMode)
        ensures
            *mode == self@.mode,
    {
        &self.collision_mode
    }

    pub fn bodies(&self) -> (bodies: &Vec<B>)
        ensures
            bodies@ == self@.bodies,
    {
        &self.bodies
    }

    /// The body at `i`, open to change; none if no body has that index.
    pub fn body_mut(&mut self, i: usize) -> (body: Option<&mut B>)
        ensures
            i >= old(self)@.bodies.len() ==> body.is_none() && final(self)@ == old(self)@,
            i < old(self)@.bodies.len() ==> body.is_some() && *body.unwrap() == old(self)@.bodies[i as int]
                && final(self)@ == (State {
                bodies: old(self)@.bodies.update(i as int, *final(body.unwrap())),
                ..old(self)@
            }),
    {
        proof {
            use_type_invariant(&*self);
        }
        if i < self.bodies.len() {
            Some(&mut self.bodies[i])
        } else {
            None
        }
    }

    /// Sets the number of physics rounds per tick, as far as the limits
    /// allow.
    pub fn set_physics_speed(&mut self, val: u32)
        ensures
            final(self)@ == old(self)@.with_speed(val as int),
    {
        proof {
            use_type_invariant(&*self);
        }
        self.physics_speed = if val < MIN_PHYSICS_SPEED {
            MIN_PHYSICS_SPEED
        } else if val > MAX_PHYSICS_SPEED {
            MAX_PHYSICS_SPEED
        } else {
            val
        };
    }

    /// The body at `i`, or none if no body has that index.
    pub fn get_body(&self, i: usize) -> (body: Option<&B>)
        ensures
            i < self@.bodies.len() ==> body == Some(&self@.bodies[i as int]),
            i >= self@.bodies.len() ==> body.is_none(),
    {
        if i < self.bodies.len() {
            Some(&self.bodies[i])
        } else {
            None
        }
    }

    /// Takes the bodies out, leaving an empty simulation with nothing
    /// selected.
    fn take_bodies(&mut self) -> (out: (Vec<B>, Option<usize>))
        ensures
            out.0@ == old(self)@.bodies,
            out.1 == old(self)@.selected,
            old(self)@.wf(),
            final(self)@ == (State { bodies: Seq::empty(), selected: None, ..old(self)@ }),
    {
        proof {
            use_type_invariant(&*self);
        }
        let selected = self.selected_body;
        self.selected_body = None;
        let mut bodies: Vec<B> = Vec::new();
        std::mem::swap(&mut bodies, &mut self.bodies);
        (bodies, selected)
    }

    /// Puts bodies and a selection among them in.
    fn put_bodies(&mut self, bodies: Vec<B>, selected: Option<usize>)
        requires
            old(self)@.selected.is_none(),
            match selected {
                Some(s) => s < bodies@.len(),
                None => true,
            },
        ensures
            final(self)@ == (State { bodies: bodies@, selected, ..old(self)@ }),
    {
        self.bodies = bodies;
        self.selected_body = selected;
    }

    /// Removes the body at `i` and keeps the selection on the body it was
    /// on: removing the selected body clears the selection, removing a body
    /// before it moves the selection down by one. An index that no body has
    /// changes nothing.
    pub fn remove_body(&mut self, i: usize)
        ensures
            final(self)@ == old(self)@.without_body(i as int),
    {
        if i < self.bodies.len() {
            let (mut bodies, selected) = self.take_bodies();
            bodies.remove(i);
            let selected: Option<usize> = match selected {
                Some(s) => if s == i {
                    None
                } else if i < s {
                    Some(s - 1)
                } else {
                    Some(s)
                },
                None => None,
            };
            self.put_bodies(bodies, selected);
        }
    }

    /// Adds a body after all others.
    pub fn add_body(&mut self, physics_body: B)
        ensures
            final(self)@ == old(self)@.with_body(physics_body),
    {
        let (mut bodies, selected) = self.take_bodies();
        bodies.push(physics_body);
        self.put_bodies(bodies, selected);
    }

    /// The pairs `(i, j)` for the gravity phase, in the order in which it
    /// takes them: body `i` gathers the pull of body `j`. Every body meets
    /// every other body exactly once on either side.
    pub fn gravity_pairs(&self) -> (pairs: Vec<(usize, usize)>)
        requires
            pairs_fit(self@.bodies.len()),
        ensures
            lists_ordered_pairs(pairs@, self@.bodies.len()),
    {
        index_permutations(self.bodies.len())
    }

    /// The pairs of bodies that the collision phase has to test for
    /// touching: every two bodies once where touching bodies are deleted,
    /// and none where collisions are off.
    pub fn collision_pairs(&self) -> (pairs: Vec<(usize, usize)>)
        requires
            self@.mode.is_available(),
            pairs_fit(self@.bodies.len()),
        ensures
            self@.mode == CollisionMode::Off ==> pairs@ == Seq::<(usize, usize)>::empty(),
            self@.mode == CollisionMode::Delete ==> lists_unordered_pairs(
                pairs@,
                self@.bodies.len(),
            ),
    {
        match self.collision_mode {
            CollisionMode::Delete => index_combinations(self.bodies.len()),
            _ => Vec::new(),
        }
    }

    /// The first body under the cursor, by index; `hits` says for each
    /// body whether it lies there.
    pub fn get_body_on_point_index(&self, hits: &Vec<bool>) -> (found: Option<usize>)
        ensures
            is_first_set(mask_of(hits@, self@.bodies.len()), found),
            found == first_set(mask_of(hits@, self@.bodies.len())),
    {
        let mask = fit_mask(hits, self.bodies.len());
        first_yes(&mask)
    }

    /// The indices of the bodies under the cursor, ascending; `hits` says
    /// for each body whether it lies there.
    pub fn hit_indices(&self, hits: &Vec<bool>) -> (found: Vec<usize>)
        ensures
            found@ == set_indices(mask_of(hits@, self@.bodies.len())),
    {
        let mask = fit_mask(hits, self.bodies.len());
        yes_indices(&mask)
    }

    /// The bodies under the cursor, in the order in which they were added;
    /// `hits` says for each body whether it lies there.
    pub fn get_bodies_on_point(&self, hits: &Vec<bool>) -> (found: Vec<&B>)
        ensures
            found@.len() == set_indices(mask_of(hits@, self@.bodies.len())).len(),
            forall|k: int|
                0 <= k < found@.len() ==> *(#[trigger] found@[k]) == self@.bodies[set_indices(
                    mask_of(hits@, self@.bodies.len()),
                )[k] as int],
    {
        let count: usize = self.bodies.len();
        let indices = self.hit_indices(hits);
        proof {
            lemma_set_indices(mask_of(hits@, count as nat));
        }
        let mut found: Vec<&B> = Vec::new();
        let n: usize = indices.len();
        let mut k: usize = 0;
        while k < n
            invariant
                k <= n,
                n == indices@.len(),
                found@.len() == k,
                forall|l: int| 0 <= l < n ==> (#[trigger] indices@[l]) < self.bodies@.len(),
                forall|l: int|
                    0 <= l < k ==> *(#[trigger] found@[l]) == self.bodies@[indices@[l] as int],
            decreases n - k,
        {
            found.push(&self.bodies[indices[k]]);
            k += 1;
        }
        found
    }

    /// The collision phase. `touching` lists the pairs of bodies that
    /// touch, by index. Where touching bodies are deleted, every body that
    /// occurs in a pair leaves, the highest index first, and the selection
    /// stays on the body it was on or is cleared with it. Where collisions
    /// are off, nothing happens.
    pub fn collision_tick(&mut self, touching: &Vec<(usize, usize)>)
        requires
            old(self)@.mode.is_available(),
        ensures
            final(self)@ == old(self)@.after_collisions(touching@),
    {
        proof {
            use_type_invariant(&*self);
        }
        match self.collision_mode {
            CollisionMode::Delete => {
                let n: usize = self.bodies.len();
                let ghost doomed_set = indices_in(touching@);
                let mut doomed: Vec<bool> = Vec::new();
                let mut i: usize = 0;
                while i < n
                    invariant
                        i <= n,
                        doomed@.len() == i,
                        forall|j: int| 0 <= j < i ==> !doomed@[j],
                    decreases n - i,
                {
                    doomed.push(false);
                    i += 1;
                }
                let m: usize = touching.len();
                let mut k: usize = 0;
                while k < m
                    invariant
                        k <= m,
                        m == touching@.len(),
                        doomed@.len() == n,
                        forall|j: int|
                            0 <= j < n ==> doomed@[j] == indices_in(
                                touching@.subrange(0, k as int),
                            ).contains(j),
                    decreases m - k,
                {
                    let pair: (usize, usize) = touching[k];
                    let ghost marked = doomed@;
                    if pair.0 < n {
                        doomed[pair.0] = true;
                    }
                    if pair.1 < n {
                        doomed[pair.1] = true;
                    }
                    proof {
                        let upto = touching@.subrange(0, k as int);
                        assert(touching@.subrange(0, k + 1) =~= upto.push(pair));
                        assert forall|j: int| 0 <= j < n implies doomed@[j] == indices_in(
                            touching@.subrange(0, k + 1),
                        ).contains(j) by {
                            lemma_indices_in_push(upto, pair, j);
                        }
                    }
                    k += 1;
                }
                assert(touching@.subrange(0, m as int) =~= touching@);
                let ghost start = self@;
                let mut i: usize = n;
                proof {
                    assert(self@.bodies =~= start.bodies.subrange(0, n as int) + kept_from(
                        start.bodies,
                        doomed_set,
                        n as int,
                    ));
                }
                while i > 0
                    invariant
                        i <= n,
                        n == start.bodies.len(),
                        start.wf(),
                        doomed@.len() == n,
                        doomed_set == indices_in(touching@),
                        forall|j: int| 0 <= j < n ==> doomed@[j] == doomed_set.contains(j),
                        self@.bodies == start.bodies.subrange(0, i as int) + kept_from(
                            start.bodies,
                            doomed_set,
                            i as int,
                        ),
                        self@.selected == selection_midway(start.selected, doomed_set, i as int),
                        self@.speed == start.speed,
                        self@.mode == start.mode,
                    decreases i,
                {
                    i -= 1;
                    let ghost shown = self@;
                    let ghost kept = kept_from(start.bodies, doomed_set, i + 1);
                    proof {
                        if start.selected.is_some() {
                            let s = start.selected.unwrap() as int;
                            if s > i {
                                lemma_count_in_bounds(doomed_set, i + 1, s);
                            }
                        }
                    }
                    if doomed[i] {
                        self.remove_body(i);
                        proof {
                            assert(shown.bodies.remove(i as int) =~= start.bodies.subrange(
                                0,
                                i as int,
                            ) + kept);
                        }
                    } else {
                        proof {
                            assert(shown.bodies =~= start.bodies.subrange(0, i as int) + (seq![
                                start.bodies[i as int],
                            ] + kept));
                        }
                    }
                }
                proof {
                    assert(start.bodies.subrange(0, 0) + kept_from(start.bodies, doomed_set, 0)
                        =~= kept_from(start.bodies, doomed_set, 0));
                }
            },
            _ => {},
        }
    }

    /// Deals with one frame's input. With a cursor: a body is added at it,
    /// the first body under it is removed, the bodies under it are
    /// reported and the first of them is selected, each if asked for and
    /// in this order. Then the speed goes up and down by one within its
    /// limits, and a reset replaces all bodies by `fresh` and clears the
    /// selection.
    pub fn handle_user_input(
        &mut self,
        input: SimulationInput,
        cursor: Option<Cursor<B>>,
        fresh: Vec<B>,
    ) -> (report: Report<B>)
        ensures
            final(self)@ == after_input(old(self)@, input, cursor, fresh@),
            report.under_cursor@ == after_cursor_input(old(self)@, input, cursor).1,
            input.reset_contents ==> report.replaced.is_some() && report.replaced.unwrap()@
                == after_cursor_input(old(self)@, input, cursor).0.bodies,
            !input.reset_contents ==> report.replaced.is_none(),
    {
        let mut under_cursor: Vec<usize> = Vec::new();
        if let Some(c) = cursor {
            let Cursor { hits, spawn, spawn_hit } = c;
            let mut mask: Vec<bool> = fit_mask(&hits, self.bodies.len());
            if input.add_body {
                self.add_body(spawn);
                mask.push(spawn_hit);
            }
            if input.remove_body {
                if let Some(k) = first_yes(&mask) {
                    self.remove_body(k);
                    mask.remove(k);
                }
            }
            if input.print_body {
                under_cursor = yes_indices(&mask);
            }
            if input.selected_body {
                let found = first_yes(&mask);
                let (bodies, _) = self.take_bodies();
                self.put_bodies(bodies, found);
            }
        }
        if input.up_speed {
            let speed: u32 = self.physics_speed;
            self.set_physics_speed(
                if speed >= MAX_PHYSICS_SPEED {
                    MAX_PHYSICS_SPEED
                } else {
                    speed + 1
                },
            );
        }
        if input.down_speed {
            let speed: u32 = self.physics_speed;
            self.set_physics_speed(
                if speed > 0 {
                    speed - 1
                } else {
                    MIN_PHYSICS_SPEED
                },
            );
        }
        let mut replaced: Option<Vec<B>> = None;
        if input.reset_contents {
            let (bodies, _) = self.take_bodies();
            self.put_bodies(fresh, None);
            replaced = Some(bodies);
        }
        Report { under_cursor, replaced }
    }

    /// Begins a physics tick: as many rounds of gravity, movement and
    /// collision as the physics speed says.
    pub fn physics_tick(&self) -> (tick: Tick)
        ensures
            tick.remaining() == rounds(self@.speed as nat),
    {
        Tick::new(self.physics_speed)
    }
}

} // verus!
