//! The canonical input-method-agnostic representation of received inputs.

use vstd::prelude::*;

use crate::VALUE_SCALE;
use crate::action_diff::ActionDiff;
use crate::axislike::DualAxisData;
use crate::buttonlike::ButtonState;
use crate::id_map::IdMap;
use crate::id_map::assoc_get;
use crate::id_map::lemma_assoc_get_pointwise;
use crate::id_map::lemma_has_key;
use crate::id_map::seq_has_key;
use crate::timing::Timing;

verus! {

/// The map after transforming the datum of every known action by `f`;
/// unknown actions stay unknown.
pub open spec fn map_data(m: Map<u32, ActionData>, f: spec_fn(ActionData) -> ActionData) -> Map<u32, ActionData> {
    Map::new(|a: u32| m.dom().contains(a), |a: u32| f(m[a]))
}

/// The datum stored for `a`, or the never-touched default when `a` is
/// unknown to the map.
pub open spec fn datum_or_default(m: Map<u32, ActionData>, a: u32) -> ActionData {
    if m.dom().contains(a) {
        m[a]
    } else {
        ActionData::default_spec()
    }
}

/// The state map after merging a freshly resolved `batch` into `m`: a
/// batch datum merges into an existing datum ([`ActionData::spec_merge`]),
/// is inserted verbatim for an action not yet known, and actions outside
/// the batch are left alone.
pub open spec fn spec_update(m: Map<u32, ActionData>, batch: Map<u32, ActionData>) -> Map<u32, ActionData> {
    Map::new(
        |a: u32| m.dom().contains(a) || batch.dom().contains(a),
        |a: u32|
            if batch.dom().contains(a) {
                if m.dom().contains(a) {
                    m[a].spec_merge(batch[a])
                } else {
                    batch[a]
                }
            } else {
                m[a]
            },
    )
}

/// The state map after replaying one diff: the pressed-like diffs press
/// the action and then overwrite its value (and axis sample, where one is
/// carried), the released diff releases it and clears both.  Routing every
/// diff through the press or release transform keeps replay and direct
/// manipulation consistent.
pub open spec fn spec_apply_diff(m: Map<u32, ActionData>, diff: ActionDiff) -> Map<u32, ActionData> {
    match diff {
        ActionDiff::Pressed { action } => {
            let d = datum_or_default(m, action).spec_press();
            m.insert(action, ActionData { value: VALUE_SCALE, ..d })
        },
        ActionDiff::Released { action } => {
            let d = datum_or_default(m, action).spec_release();
            m.insert(action, ActionData { value: 0, axis_pair: None, ..d })
        },
        ActionDiff::ValueChanged { action, value } => {
            let d = datum_or_default(m, action).spec_press();
            m.insert(action, ActionData { value, ..d })
        },
        ActionDiff::AxisPairChanged { action, axis_pair } => {
            let d = datum_or_default(m, action).spec_press();
            let p = DualAxisData { x: axis_pair.0, y: axis_pair.1 };
            m.insert(action, ActionData { axis_pair: Some(p), value: p.spec_length() as i64, ..d })
        },
    }
}

/// Clamping an integer to a closed interval.
pub open spec fn clamp_spec(v: int, lo: int, hi: int) -> int {
    if v < lo {
        lo
    } else if v > hi {
        hi
    } else {
        v
    }
}

fn clamp_i64(v: i64, lo: i64, hi: i64) -> (r: i64)
    requires
        lo <= hi,
    ensures
        r == clamp_spec(v as int, lo as int, hi as int),
{
    if v < lo {
        lo
    } else if v > hi {
        hi
    } else {
        v
    }
}

fn clamp_i32(v: i32, lo: i32, hi: i32) -> (r: i32)
    requires
        lo <= hi,
    ensures
        r == clamp_spec(v as int, lo as int, hi as int),
{
    if v < lo {
        lo
    } else if v > hi {
        hi
    } else {
        v
    }
}

fn vec_contains(v: &Vec<u32>, k: u32) -> (r: bool)
    ensures
        r == v@.contains(k),
{
    let n = v.len();
    let mut i: usize = 0;
    while i < n
        invariant
            i <= n,
            n == v@.len(),
            forall|j: int| 0 <= j < i ==> v@[j] != k,
        decreases n - i,
    {
        if v[i] == k {
            proof {
                assert(v@[i as int] == k);
            }
            return true;
        }
        i = i + 1;
    }
    false
}

/// Appending an element to a duplicate-free sequence that lacks it keeps
/// it duplicate-free, and extends membership by exactly that element.
proof fn lemma_push_distinct(s: Seq<u32>, k: u32)
    requires
        !s.contains(k),
        forall|p: int, q: int| 0 <= p < q < s.len() ==> s[p] != s[q],
    ensures
        forall|x: u32| #[trigger] s.push(k).contains(x) == (s.contains(x) || x == k),
        forall|p: int, q: int| 0 <= p < q < s.push(k).len() ==> s.push(k)[p] != s.push(k)[q],
{
    let t = s.push(k);
    assert forall|x: u32| #[trigger] t.contains(x) == (s.contains(x) || x == k) by {
        if t.contains(x) {
            let j = choose|j: int| 0 <= j < t.len() && t[j] == x;
            if j < s.len() {
                assert(s[j] == x);
            }
        }
        if s.contains(x) {
            let j = choose|j: int| 0 <= j < s.len() && s[j] == x;
            assert(t[j] == x);
        }
        if x == k {
            assert(t[s.len() as int] == x);
        }
    }
    assert forall|p: int, q: int| 0 <= p < q < t.len() implies t[p] != t[q] by {
        if q == s.len() {
            if s[p] == k {
                assert(s.contains(k));
            }
        }
    }
}

/// Everything the action state tracks about one action.
#[derive(Clone, Copy, Debug, PartialEq)]
pub struct ActionData {
    /// Is the action pressed or released, and did that change since the
    /// last tick?
    pub state: ButtonState,
    /// The summed value of the bindings that triggered the action, in
    /// fixed-point units of [`crate::VALUE_SCALE`].
    ///
    /// This is not clamped on construction: several simultaneous bindings
    /// add up.  Consumers wanting one unit at most should read the clamped
    /// accessors instead.
    pub value: i64,
    /// The axis sample of the binding that triggered the action, if the
    /// binding carried one.
    pub axis_pair: Option<DualAxisData>,
    /// When the action last changed state, and for how long it has held
    /// its current state.
    pub timing: Timing,
    /// Was this action consumed?  A consumed action cannot be pressed
    /// again until it is explicitly released.
    pub consumed: bool,
}

impl ActionData {
    /// The datum of an action that was never touched: released, zero
    /// value, no axis sample, fresh timing, not consumed.
    pub open spec fn default_spec() -> ActionData {
        ActionData {
            state: ButtonState::Released,
            value: 0,
            axis_pair: None,
            timing: Timing { instant_started: None, current_duration: 0, previous_duration: 0 },
            consumed: false,
        }
    }

    /// The datum after a press call.  A consumed datum is left alone; on a
    /// released one the timing flips, since this is an actual edge.
    pub open spec fn spec_press(self) -> ActionData {
        if self.consumed {
            self
        } else {
            ActionData {
                state: self.state.spec_press(),
                timing: if self.state.is_released() {
                    self.timing.spec_flip()
                } else {
                    self.timing
                },
                ..self
            }
        }
    }

    /// The datum after a release call.  Consumption is cleared; on a
    /// pressed datum the timing flips, since this is an actual edge.
    pub open spec fn spec_release(self) -> ActionData {
        ActionData {
            state: self.state.spec_release(),
            timing: if self.state.is_pressed() {
                self.timing.spec_flip()
            } else {
                self.timing
            },
            consumed: false,
            ..self
        }
    }

    /// The datum after a consume call: released, marked consumed, timing
    /// flipped unconditionally.
    pub open spec fn spec_consume(self) -> ActionData {
        ActionData {
            state: self.state.spec_release(),
            timing: self.timing.spec_flip(),
            consumed: true,
            ..self
        }
    }

    /// The datum after a tick: the button phase always advances, the
    /// timing only while the action is not consumed — consumed actions
    /// freeze their duration.
    pub open spec fn spec_tick(self, current_instant: u64, previous_instant: u64) -> ActionData {
        ActionData {
            state: self.state.spec_tick(),
            timing: if self.consumed {
                self.timing
            } else {
                self.timing.spec_tick(current_instant, previous_instant)
            },
            ..self
        }
    }

    /// The datum after merging a freshly resolved `incoming` datum into
    /// this existing one: the button phase is pressed or released along
    /// the incoming phase, value and axis sample are refreshed, and timing
    /// and consumption survive untouched.
    pub open spec fn spec_merge(self, incoming: ActionData) -> ActionData {
        ActionData {
            state: if incoming.state.is_pressed() {
                self.state.spec_press()
            } else {
                self.state.spec_release()
            },
            value: incoming.value,
            axis_pair: incoming.axis_pair,
            ..self
        }
    }
}

impl Default for ActionData {
    /// See [`ActionData::default_spec`].
    fn default() -> (r: Self)
        ensures
            r == ActionData::default_spec(),
    {
        ActionData {
            state: ButtonState::Released,
            value: 0,
            axis_pair: None,
            timing: Timing { instant_started: None, current_duration: 0, previous_duration: 0 },
            consumed: false,
        }
    }
}

/// The per-action state map: button phase, analog value, axis sample,
/// timing and consumption flag for every action that was ever touched.
///
/// An action that is absent from the map was never pressed, released or
/// updated; every query treats it as released with zero value, no axis
/// sample and fresh timing.
///
/// Viewed as a `Map<u32, ActionData>` from action identifiers to data.
#[derive(Debug)]
pub struct ActionState {
    map: IdMap<ActionData>,
}

impl View for ActionState {
    type V = Map<u32, ActionData>;

    closed spec fn view(&self) -> Map<u32, ActionData> {
        self.map@
    }
}

impl ActionState {
    /// The datum an action currently stands at: its stored datum, or the
    /// never-touched default for an action absent from the map.
    pub open spec fn spec_datum(self, action: u32) -> ActionData {
        datum_or_default(self@, action)
    }

    /// A reference to the stored datum of `action`, if the action was ever
    /// touched.
    ///
    /// Usually the direct queries (`pressed`, `value`, ...) are clearer;
    /// this accessor exposes the raw datum whole.
    pub fn action_data(&self, action: u32) -> (r: Option<&ActionData>)
        ensures
            r == (if self@.dom().contains(action) {
                Some(&self@[action])
            } else {
                None::<&ActionData>
            }),
    {
        self.map.get(action)
    }

    /// A mutable reference to the stored datum of `action`, if the action
    /// was ever touched.  Writes through it show up in the map.
    pub fn action_data_mut(&mut self, action: u32) -> (r: Option<&mut ActionData>)
        ensures
            old(self)@.dom().contains(action) ==> r is Some,
            !old(self)@.dom().contains(action) ==> r is None && final(self)@ == old(self)@,
            r matches Some(d) ==> *d == old(self)@[action] && final(self)@ == old(self)@.insert(
                action,
                *final(d),
            ),
    {
        let ghost s = self.map.entries@;
        match self.map.index_of(action) {
            Some(i) => {
                proof {
                    IdMap::<ActionData>::lemma_get_at_index(s, i as int);
                    assert forall|v: ActionData, j: u32|
                        #[trigger] assoc_get(s.update(i as int, (s[i as int].0, v)), j) == (if j
                            == action {
                            Some(v)
                        } else {
                            assoc_get(s, j)
                        }) by {
                        crate::id_map::lemma_assoc_get_update_first(s, i as int, v, j);
                    }
                    assert forall|v: ActionData|
                        crate::id_map::assoc_map(s.update(i as int, (s[i as int].0, v)))
                            =~= #[trigger] crate::id_map::assoc_map(s).insert(action, v) by {
                    }
                }
                let r = &mut self.map.entries[i].1;
                Some(r)
            }
            None => {
                proof {
                    IdMap::<ActionData>::lemma_get_absent(s, action);
                }
                None
            }
        }
    }

    /// Store `data` as the datum of `action`, replacing whatever was
    /// there.
    ///
    /// The direct mutation calls are usually clearer and less error-prone;
    /// this is useful for transferring data between action states.
    pub fn set_action_data(&mut self, action: u32, data: ActionData)
        ensures
            final(self)@ == old(self)@.insert(action, data),
    {
        self.map.set(action, data);
    }

    /// Press `action`.
    ///
    /// The datum is created on first touch.  A consumed action is left
    /// alone; otherwise the button phase is pressed, and on an actual
    /// released-to-pressed edge the timing flips.  No start instant is
    /// recorded here: the next [`ActionState::tick`] anchors it.
    pub fn press(&mut self, action: u32)
        ensures
            final(self)@ == old(self)@.insert(action, old(self).spec_datum(action).spec_press()),
    {
        let mut d = match self.map.get(action) {
            Some(d) => *d,
            None => ActionData::default(),
        };
        if !d.consumed {
            if d.state.released() {
                d.timing.flip();
            }
            d.state.press();
        }
        self.map.set(action, d);
    }

    /// Release `action`.
    ///
    /// The datum is created on first touch.  Consumption is cleared, the
    /// button phase is released, and on an actual pressed-to-released edge
    /// the timing flips.
    pub fn release(&mut self, action: u32)
        ensures
            final(self)@ == old(self)@.insert(action, old(self).spec_datum(action).spec_release()),
    {
        let mut d = match self.map.get(action) {
            Some(d) => *d,
            None => ActionData::default(),
        };
        d.consumed = false;
        if d.state.pressed() {
            d.timing.flip();
        }
        d.state.release();
        self.map.set(action, d);
    }

    /// Consume `action`: release it and suppress further presses until it
    /// is explicitly released again.
    ///
    /// The timing flips unconditionally, and while the action stays
    /// consumed its duration is frozen by [`ActionState::tick`].
    pub fn consume(&mut self, action: u32)
        ensures
            final(self)@ == old(self)@.insert(action, old(self).spec_datum(action).spec_consume()),
    {
        let mut d = match self.map.get(action) {
            Some(d) => *d,
            None => ActionData::default(),
        };
        d.consumed = true;
        d.state.release();
        d.timing.flip();
        self.map.set(action, d);
    }

    /// Is `action` currently consumed?
    pub fn consumed(&self, action: u32) -> (r: bool)
        ensures
            r == self.spec_datum(action).consumed,
    {
        match self.map.get(action) {
            Some(d) => d.consumed,
            None => false,
        }
    }

    /// Is `action` currently pressed?
    pub fn pressed(&self, action: u32) -> (r: bool)
        ensures
            r == self.spec_datum(action).state.is_pressed(),
    {
        match self.map.get(action) {
            Some(d) => d.state.pressed(),
            None => false,
        }
    }

    /// Was `action` pressed since the last tick?
    pub fn just_pressed(&self, action: u32) -> (r: bool)
        ensures
            r == (self.spec_datum(action).state is JustPressed),
    {
        match self.map.get(action) {
            Some(d) => d.state.just_pressed(),
            None => false,
        }
    }

    /// Is `action` currently released?  Always the logical negation of
    /// [`ActionState::pressed`].
    pub fn released(&self, action: u32) -> (r: bool)
        ensures
            r == self.spec_datum(action).state.is_released(),
            r == !self.spec_datum(action).state.is_pressed(),
    {
        match self.map.get(action) {
            Some(d) => d.state.released(),
            None => true,
        }
    }

    /// Was `action` released since the last tick?
    pub fn just_released(&self, action: u32) -> (r: bool)
        ensures
            r == (self.spec_datum(action).state is JustReleased),
    {
        match self.map.get(action) {
            Some(d) => d.state.just_released(),
            None => false,
        }
    }

    /// The summed value of `action`, in fixed-point units of
    /// [`crate::VALUE_SCALE`]; zero for an action never touched.
    ///
    /// Several simultaneous bindings add up, so this may exceed one unit
    /// in magnitude; see [`ActionState::clamped_value`].
    pub fn value(&self, action: u32) -> (r: i64)
        ensures
            r == self.spec_datum(action).value,
    {
        match self.map.get(action) {
            Some(d) => d.value,
            None => 0,
        }
    }

    /// The value of `action`, clamped to one unit in magnitude.
    pub fn clamped_value(&self, action: u32) -> (r: i64)
        ensures
            r == clamp_spec(self.spec_datum(action).value as int, -VALUE_SCALE as int, VALUE_SCALE as int),
    {
        clamp_i64(self.value(action), -VALUE_SCALE, VALUE_SCALE)
    }

    /// The axis sample of `action`, if its triggering binding carried one;
    /// `None` for an action never touched.
    ///
    /// Sums of several contributing bindings are not clamped; see
    /// [`ActionState::clamped_axis_pair`].
    pub fn axis_pair(&self, action: u32) -> (r: Option<DualAxisData>)
        ensures
            r == self.spec_datum(action).axis_pair,
    {
        match self.map.get(action) {
            Some(d) => d.axis_pair,
            None => None,
        }
    }

    /// The axis sample of `action` with each component clamped to one unit
    /// in magnitude.
    pub fn clamped_axis_pair(&self, action: u32) -> (r: Option<DualAxisData>)
        ensures
            r == (match self.spec_datum(action).axis_pair {
                Some(p) => Some(DualAxisData {
                    x: clamp_spec(p.x as int, -VALUE_SCALE as int, VALUE_SCALE as int) as i32,
                    y: clamp_spec(p.y as int, -VALUE_SCALE as int, VALUE_SCALE as int) as i32,
                }),
                None => None::<DualAxisData>,
            }),
    {
        match self.axis_pair(action) {
            Some(p) => {
                let lo: i32 = -(VALUE_SCALE as i32);
                let hi: i32 = VALUE_SCALE as i32;
                Some(DualAxisData::new(clamp_i32(p.x, lo, hi), clamp_i32(p.y, lo, hi)))
            }
            None => None,
        }
    }

    /// The tick timestamp at which `action` entered its current state, or
    /// `None` if the state flipped since the last tick (or the action was
    /// never touched).  Start instants always correspond to tick
    /// boundaries, never to sub-frame call moments.
    pub fn instant_started(&self, action: u32) -> (r: Option<u64>)
        ensures
            r == self.spec_datum(action).timing.instant_started,
    {
        match self.map.get(action) {
            Some(d) => d.timing.instant_started,
            None => None,
        }
    }

    /// For how long `action` has held its current state; zero for an
    /// action never touched.
    pub fn current_duration(&self, action: u32) -> (r: u64)
        ensures
            r == self.spec_datum(action).timing.current_duration,
    {
        match self.map.get(action) {
            Some(d) => d.timing.current_duration,
            None => 0,
        }
    }

    /// The duration `action` held its previous state, snapshotted when the
    /// state last flipped; zero for an action never touched.
    pub fn previous_duration(&self, action: u32) -> (r: u64)
        ensures
            r == self.spec_datum(action).timing.previous_duration,
    {
        match self.map.get(action) {
            Some(d) => d.timing.previous_duration,
            None => 0,
        }
    }

    /// Merge a freshly resolved batch of action data into the state.
    ///
    /// For each action of the batch, an existing datum has its button
    /// phase pressed or released along the incoming phase and its value
    /// and axis sample refreshed, while timing and consumption survive
    /// untouched; an action not yet known receives the incoming datum
    /// verbatim.  Actions outside the batch are left alone.
    pub fn update(&mut self, action_data: IdMap<ActionData>)
        ensures
            final(self)@ == spec_update(old(self)@, action_data@),
    {
        let ghost m0 = self@;
        let ghost bs = action_data.entries@;
        let n = action_data.entries.len();
        let mut i: usize = 0;
        while i < n
            invariant
                i <= n,
                n == action_data.entries@.len(),
                action_data.entries@ == bs,
                forall|a: u32|
                    !(#[trigger] seq_has_key(bs, i as int, a)) ==> self@.dom().contains(a)
                        == m0.dom().contains(a) && (m0.dom().contains(a) ==> self@[a] == m0[a]),
                forall|a: u32|
                    #[trigger] seq_has_key(bs, i as int, a) ==> self@.dom().contains(a) && self@[a]
                        == (if m0.dom().contains(a) {
                        m0[a].spec_merge(assoc_get(bs, a).unwrap())
                    } else {
                        assoc_get(bs, a).unwrap()
                    }),
            decreases n - i,
        {
            let kd = action_data.entries[i];
            let a = kd.0;
            let fi_opt = action_data.index_of(a);
            let fi: usize = match fi_opt {
                Some(f) => f,
                None => {
                    proof {
                        assert(bs[i as int].0 == a);
                        assert(false);
                    }
                    0
                }
            };
            if fi == i {
                proof {
                    assert(forall|m: int| 0 <= m < i ==> bs[m].0 != bs[i as int].0);
                    assert(!seq_has_key(bs, i as int, a));
                    IdMap::<ActionData>::lemma_get_at_index(bs, i as int);
                    assert(assoc_get(bs, a) == Some(kd.1));
                }
                let nd = match self.map.get(a) {
                    Some(e) => {
                        let mut x = *e;
                        if kd.1.state.pressed() {
                            x.state.press();
                        } else {
                            x.state.release();
                        }
                        x.value = kd.1.value;
                        x.axis_pair = kd.1.axis_pair;
                        x
                    }
                    None => kd.1,
                };
                self.map.set(a, nd);
            } else {
                proof {
                    assert(bs[i as int].0 == a);
                    assert(fi < i);
                    assert(seq_has_key(bs, i as int, a));
                }
            }
            proof {
                assert forall|x: u32|
                    seq_has_key(bs, i + 1, x) == (seq_has_key(bs, i as int, x) || x == a) by {
                    if seq_has_key(bs, i + 1, x) {
                        let j = choose|j: int| 0 <= j < i + 1 && (#[trigger] bs[j]).0 == x;
                        if j < i {
                            assert(seq_has_key(bs, i as int, x));
                        } else {
                            assert(bs[i as int].0 == x);
                        }
                    }
                    if x == a {
                        assert(bs[i as int].0 == x);
                        assert(seq_has_key(bs, i + 1, x));
                    }
                    if seq_has_key(bs, i as int, x) {
                        let j = choose|j: int| 0 <= j < i && (#[trigger] bs[j]).0 == x;
                        assert(seq_has_key(bs, i + 1, x));
                    }
                }
                assert forall|x: u32|
                    !(#[trigger] seq_has_key(bs, i + 1, x)) implies self@.dom().contains(x)
                        == m0.dom().contains(x) && (m0.dom().contains(x) ==> self@[x] == m0[x]) by {
                    assert(!seq_has_key(bs, i as int, x) && x != a);
                }
                assert forall|x: u32|
                    #[trigger] seq_has_key(bs, i + 1, x) implies self@.dom().contains(x) && self@[x]
                        == (if m0.dom().contains(x) {
                    m0[x].spec_merge(assoc_get(bs, x).unwrap())
                } else {
                    assoc_get(bs, x).unwrap()
                }) by {
                    if x != a {
                        assert(seq_has_key(bs, i as int, x));
                    }
                }
            }
            i = i + 1;
        }
        proof {
            let bm = action_data@;
            assert forall|x: u32|
                self@.dom().contains(x) == (m0.dom().contains(x) || bm.dom().contains(x)) by {
                lemma_has_key(bs, x);
            }
            assert forall|x: u32| self@.dom().contains(x) implies self@[x] == (if bm.dom().contains(
                x,
            ) {
                if m0.dom().contains(x) {
                    m0[x].spec_merge(bm[x])
                } else {
                    bm[x]
                }
            } else {
                m0[x]
            }) by {
                lemma_has_key(bs, x);
            }
            assert(self@ =~= spec_update(m0, bm));
        }
    }

    /// Advance one tick for every known action: button phases decay their
    /// transient `Just*` variants, and timing advances for every action
    /// that is not consumed — consumed actions freeze their duration.
    pub fn tick(&mut self, current_instant: u64, previous_instant: u64)
        ensures
            final(self)@ == map_data(
                old(self)@,
                (|d: ActionData| d.spec_tick(current_instant, previous_instant)),
            ),
    {
        let n = self.map.entries.len();
        let mut out: Vec<(u32, ActionData)> = Vec::new();
        let mut i: usize = 0;
        while i < n
            invariant
                i <= n,
                n == self.map.entries@.len(),
                out@.len() == i,
                forall|j: int|
                    0 <= j < i ==> (#[trigger] out@[j]).0 == self.map.entries@[j].0
                        && out@[j].1 == self.map.entries@[j].1.spec_tick(
                        current_instant,
                        previous_instant,
                    ),
            decreases n - i,
        {
            let kd = self.map.entries[i];
            let mut d = kd.1;
            d.state.tick();
            if !d.consumed {
                d.timing.tick(current_instant, previous_instant);
            }
            out.push((kd.0, d));
            i = i + 1;
        }
        self.map.entries = out;
        proof {
            let s0 = old(self).map.entries@;
            let f = (|d: ActionData| d.spec_tick(current_instant, previous_instant));
            assert forall|a: u32|
                assoc_get(self.map.entries@, a) == (match assoc_get(s0, a) {
                    Some(v) => Some(f(v)),
                    None => None::<ActionData>,
                }) by {
                lemma_assoc_get_pointwise(s0, self.map.entries@, f, a);
            }
            assert(self@ =~= map_data(old(self)@, f));
        }
    }

    /// Consume every known action, as [`ActionState::consume`] would.
    pub fn consume_all(&mut self)
        ensures
            final(self)@ == map_data(old(self)@, (|d: ActionData| d.spec_consume())),
    {
        let n = self.map.entries.len();
        let mut out: Vec<(u32, ActionData)> = Vec::new();
        let mut i: usize = 0;
        while i < n
            invariant
                i <= n,
                n == self.map.entries@.len(),
                out@.len() == i,
                forall|j: int|
                    0 <= j < i ==> (#[trigger] out@[j]).0 == self.map.entries@[j].0
                        && out@[j].1 == self.map.entries@[j].1.spec_consume(),
            decreases n - i,
        {
            let kd = self.map.entries[i];
            let mut d = kd.1;
            d.consumed = true;
            d.state.release();
            d.timing.flip();
            out.push((kd.0, d));
            i = i + 1;
        }
        self.map.entries = out;
        proof {
            let s0 = old(self).map.entries@;
            let f = (|d: ActionData| d.spec_consume());
            assert forall|a: u32|
                assoc_get(self.map.entries@, a) == (match assoc_get(s0, a) {
                    Some(v) => Some(f(v)),
                    None => None::<ActionData>,
                }) by {
                lemma_assoc_get_pointwise(s0, self.map.entries@, f, a);
            }
            assert(self@ =~= map_data(old(self)@, f));
        }
    }

    /// Replay one diff (usually received over the network) onto the
    /// state; see [`spec_apply_diff`].
    ///
    /// Reconstructing a state from a stream of diffs goes through here
    /// only, never through direct field writes, so that the edge-triggered
    /// press/release and timing rules hold remotely too.
    pub fn apply_diff(&mut self, action_diff: &ActionDiff)
        ensures
            final(self)@ == spec_apply_diff(old(self)@, *action_diff),
    {
        match *action_diff {
            ActionDiff::Pressed { action } => {
                self.press(action);
                let mut d = match self.map.get(action) {
                    Some(e) => *e,
                    None => ActionData::default(),
                };
                d.value = VALUE_SCALE;
                self.map.set(action, d);
                proof {
                    assert(self@ =~= spec_apply_diff(old(self)@, *action_diff));
                }
            }
            ActionDiff::Released { action } => {
                self.release(action);
                let mut d = match self.map.get(action) {
                    Some(e) => *e,
                    None => ActionData::default(),
                };
                d.value = 0;
                d.axis_pair = None;
                self.map.set(action, d);
                proof {
                    assert(self@ =~= spec_apply_diff(old(self)@, *action_diff));
                }
            }
            ActionDiff::ValueChanged { action, value } => {
                self.press(action);
                let mut d = match self.map.get(action) {
                    Some(e) => *e,
                    None => ActionData::default(),
                };
                d.value = value;
                self.map.set(action, d);
                proof {
                    assert(self@ =~= spec_apply_diff(old(self)@, *action_diff));
                }
            }
            ActionDiff::AxisPairChanged { action, axis_pair } => {
                self.press(action);
                let p = DualAxisData::from_xy(axis_pair);
                let value = p.length();
                let mut d = match self.map.get(action) {
                    Some(e) => *e,
                    None => ActionData::default(),
                };
                d.axis_pair = Some(p);
                d.value = value;
                self.map.set(action, d);
                proof {
                    assert(self@ =~= spec_apply_diff(old(self)@, *action_diff));
                }
            }
        }
    }

    /// The actions currently pressed, each once, in first-touch order.
    pub fn get_pressed(&self) -> (r: Vec<u32>)
        ensures
            forall|a: u32|
                #[trigger] r@.contains(a) == (self@.dom().contains(a)
                    && self@[a].state.is_pressed()),
            forall|p: int, q: int| 0 <= p < q < r@.len() ==> r@[p] != r@[q],
    {
        let ghost es = self.map.entries@;
        let n = self.map.entries.len();
        let mut r: Vec<u32> = Vec::new();
        let mut i: usize = 0;
        while i < n
            invariant
                i <= n,
                n == self.map.entries@.len(),
                es == self.map.entries@,
                forall|a: u32|
                    #[trigger] r@.contains(a) == (seq_has_key(es, i as int, a)
                        && self@.dom().contains(a) && self@[a].state.is_pressed()),
                forall|p: int, q: int| 0 <= p < q < r@.len() ==> r@[p] != r@[q],
            decreases n - i,
        {
            let k = self.map.entries[i].0;
            proof {
                assert(es[i as int].0 == k);
                assert(seq_has_key(es, es.len() as int, k));
                lemma_has_key(es, k);
            }
            let already = vec_contains(&r, k);
            let push_now = !already && self.pressed(k);
            let ghost r0 = r@;
            if push_now {
                r.push(k);
                proof {
                    lemma_push_distinct(r0, k);
                }
            }
            proof {
                assert forall|x: u32|
                    #[trigger] seq_has_key(es, i + 1, x) == (seq_has_key(es, i as int, x) || x
                        == k) by {
                    crate::id_map::lemma_has_key_step(es, i as int, x);
                }
            }
            i = i + 1;
        }
        proof {
            assert forall|a: u32|
                #[trigger] r@.contains(a) == (self@.dom().contains(a)
                    && self@[a].state.is_pressed()) by {
                lemma_has_key(es, a);
            }
        }
        r
    }

    /// The actions pressed since the last tick, each once, in first-touch
    /// order.
    pub fn get_just_pressed(&self) -> (r: Vec<u32>)
        ensures
            forall|a: u32|
                #[trigger] r@.contains(a) == (self@.dom().contains(a) && self@[a].state
                    is JustPressed),
            forall|p: int, q: int| 0 <= p < q < r@.len() ==> r@[p] != r@[q],
    {
        let ghost es = self.map.entries@;
        let n = self.map.entries.len();
        let mut r: Vec<u32> = Vec::new();
        let mut i: usize = 0;
        while i < n
            invariant
                i <= n,
                n == self.map.entries@.len(),
                es == self.map.entries@,
                forall|a: u32|
                    #[trigger] r@.contains(a) == (seq_has_key(es, i as int, a)
                        && self@.dom().contains(a) && self@[a].state is JustPressed),
                forall|p: int, q: int| 0 <= p < q < r@.len() ==> r@[p] != r@[q],
            decreases n - i,
        {
            let k = self.map.entries[i].0;
            proof {
                assert(es[i as int].0 == k);
                assert(seq_has_key(es, es.len() as int, k));
                lemma_has_key(es, k);
            }
            let already = vec_contains(&r, k);
            let push_now = !already && self.just_pressed(k);
            let ghost r0 = r@;
            if push_now {
                r.push(k);
                proof {
                    lemma_push_distinct(r0, k);
                }
            }
            proof {
                assert forall|x: u32|
                    #[trigger] seq_has_key(es, i + 1, x) == (seq_has_key(es, i as int, x) || x
                        == k) by {
                    crate::id_map::lemma_has_key_step(es, i as int, x);
                }
            }
            i = i + 1;
        }
        proof {
            assert forall|a: u32|
                #[trigger] r@.contains(a) == (self@.dom().contains(a) && self@[a].state
                    is JustPressed) by {
                lemma_has_key(es, a);
            }
        }
        r
    }

    /// The known actions currently released, each once, in first-touch
    /// order.  An action never touched is released too, but is not listed
    /// here, the map not knowing it.
    pub fn get_released(&self) -> (r: Vec<u32>)
        ensures
            forall|a: u32|
                #[trigger] r@.contains(a) == (self@.dom().contains(a)
                    && self@[a].state.is_released()),
            forall|p: int, q: int| 0 <= p < q < r@.len() ==> r@[p] != r@[q],
    {
        let ghost es = self.map.entries@;
        let n = self.map.entries.len();
        let mut r: Vec<u32> = Vec::new();
        let mut i: usize = 0;
        while i < n
            invariant
                i <= n,
                n == self.map.entries@.len(),
                es == self.map.entries@,
                forall|a: u32|
                    #[trigger] r@.contains(a) == (seq_has_key(es, i as int, a)
                        && self@.dom().contains(a) && self@[a].state.is_released()),
                forall|p: int, q: int| 0 <= p < q < r@.len() ==> r@[p] != r@[q],
            decreases n - i,
        {
            let k = self.map.entries[i].0;
            proof {
                assert(es[i as int].0 == k);
                assert(seq_has_key(es, es.len() as int, k));
                lemma_has_key(es, k);
            }
            let already = vec_contains(&r, k);
            let push_now = !already && self.released(k);
            let ghost r0 = r@;
            if push_now {
                r.push(k);
                proof {
                    lemma_push_distinct(r0, k);
                }
            }
            proof {
                assert forall|x: u32|
                    #[trigger] seq_has_key(es, i + 1, x) == (seq_has_key(es, i as int, x) || x
                        == k) by {
                    crate::id_map::lemma_has_key_step(es, i as int, x);
                }
            }
            i = i + 1;
        }
        proof {
            assert forall|a: u32|
                #[trigger] r@.contains(a) == (self@.dom().contains(a)
                    && self@[a].state.is_released()) by {
                lemma_has_key(es, a);
            }
        }
        r
    }

    /// The actions released since the last tick, each once, in first-touch
    /// order.
    pub fn get_just_released(&self) -> (r: Vec<u32>)
        ensures
            forall|a: u32|
                #[trigger] r@.contains(a) == (self@.dom().contains(a) && self@[a].state
                    is JustReleased),
            forall|p: int, q: int| 0 <= p < q < r@.len() ==> r@[p] != r@[q],
    {
        let ghost es = self.map.entries@;
        let n = self.map.entries.len();
        let mut r: Vec<u32> = Vec::new();
        let mut i: usize = 0;
        while i < n
            invariant
                i <= n,
                n == self.map.entries@.len(),
                es == self.map.entries@,
                forall|a: u32|
                    #[trigger] r@.contains(a) == (seq_has_key(es, i as int, a)
                        && self@.dom().contains(a) && self@[a].state is JustReleased),
                forall|p: int, q: int| 0 <= p < q < r@.len() ==> r@[p] != r@[q],
            decreases n - i,
        {
            let k = self.map.entries[i].0;
            proof {
                assert(es[i as int].0 == k);
                assert(seq_has_key(es, es.len() as int, k));
                lemma_has_key(es, k);
            }
            let already = vec_contains(&r, k);
            let push_now = !already && self.just_released(k);
            let ghost r0 = r@;
            if push_now {
                r.push(k);
                proof {
                    lemma_push_distinct(r0, k);
                }
            }
            proof {
                assert forall|x: u32|
                    #[trigger] seq_has_key(es, i + 1, x) == (seq_has_key(es, i as int, x) || x
                        == k) by {
                    crate::id_map::lemma_has_key_step(es, i as int, x);
                }
            }
            i = i + 1;
        }
        proof {
            assert forall|a: u32|
                #[trigger] r@.contains(a) == (self@.dom().contains(a) && self@[a].state
                    is JustReleased) by {
                lemma_has_key(es, a);
            }
        }
        r
    }

    /// Every action the map knows, each once, in first-touch order.
    pub fn keys(&self) -> (r: Vec<u32>)
        ensures
            forall|a: u32| #[trigger] r@.contains(a) == self@.dom().contains(a),
            forall|p: int, q: int| 0 <= p < q < r@.len() ==> r@[p] != r@[q],
    {
        let ghost es = self.map.entries@;
        let n = self.map.entries.len();
        let mut r: Vec<u32> = Vec::new();
        let mut i: usize = 0;
        while i < n
            invariant
                i <= n,
                n == self.map.entries@.len(),
                es == self.map.entries@,
                forall|a: u32| #[trigger] r@.contains(a) == seq_has_key(es, i as int, a),
                forall|p: int, q: int| 0 <= p < q < r@.len() ==> r@[p] != r@[q],
            decreases n - i,
        {
            let k = self.map.entries[i].0;
            proof {
                assert(es[i as int].0 == k);
            }
            let already = vec_contains(&r, k);
            let ghost r0 = r@;
            if !already {
                r.push(k);
                proof {
                    lemma_push_distinct(r0, k);
                }
            }
            proof {
                assert forall|x: u32|
                    #[trigger] seq_has_key(es, i + 1, x) == (seq_has_key(es, i as int, x) || x
                        == k) by {
                    crate::id_map::lemma_has_key_step(es, i as int, x);
                }
            }
            i = i + 1;
        }
        proof {
            assert forall|a: u32| #[trigger] r@.contains(a) == self@.dom().contains(a) by {
                lemma_has_key(es, a);
            }
        }
        r
    }

    /// Release every known action, as [`ActionState::release`] would; in
    /// particular this clears every consumption.
    pub fn release_all(&mut self)
        ensures
            final(self)@ == map_data(old(self)@, (|d: ActionData| d.spec_release())),
    {
        let n = self.map.entries.len();
        let mut out: Vec<(u32, ActionData)> = Vec::new();
        let mut i: usize = 0;
        while i < n
            invariant
                i <= n,
                n == self.map.entries@.len(),
                out@.len() == i,
                forall|j: int|
                    0 <= j < i ==> (#[trigger] out@[j]).0 == self.map.entries@[j].0
                        && out@[j].1 == self.map.entries@[j].1.spec_release(),
            decreases n - i,
        {
            let kd = self.map.entries[i];
            let mut d = kd.1;
            d.consumed = false;
            if d.state.pressed() {
                d.timing.flip();
            }
            d.state.release();
            out.push((kd.0, d));
            i = i + 1;
        }
        self.map.entries = out;
        proof {
            let s0 = old(self).map.entries@;
            let f = (|d: ActionData| d.spec_release());
            assert forall|a: u32|
                assoc_get(self.map.entries@, a) == (match assoc_get(s0, a) {
                    Some(v) => Some(f(v)),
                    None => None::<ActionData>,
                }) by {
                lemma_assoc_get_pointwise(s0, self.map.entries@, f, a);
            }
            assert(self@ =~= map_data(old(self)@, f));
        }
    }
}

impl Default for ActionState {
    /// A fresh action state with no action ever touched.
    fn default() -> (r: Self)
        ensures
            r@ == Map::<u32, ActionData>::empty(),
    {
        ActionState { map: IdMap::new() }
    }
}

/// The datum after ticking once for each entry of `ticks`, oldest first;
/// each entry carries a tick's current and previous instants.
pub open spec fn spec_tick_n(d: ActionData, ticks: Seq<(u64, u64)>) -> ActionData
    decreases ticks.len(),
{
    if ticks.len() == 0 {
        d
    } else {
        spec_tick_n(d, ticks.drop_last()).spec_tick(ticks.last().0, ticks.last().1)
    }
}

/// Law: pressing is idempotent within a tick window.  Pressing an action
/// any further time before the next tick leaves both its datum and the
/// whole state exactly as the first press left them, the timing having
/// flipped exactly once.
pub proof fn lemma_press_idempotent(m: Map<u32, ActionData>, a: u32)
    ensures
        datum_or_default(m, a).spec_press().spec_press() == datum_or_default(m, a).spec_press(),
        ({
            let m1 = m.insert(a, datum_or_default(m, a).spec_press());
            m1.insert(a, datum_or_default(m1, a).spec_press()) == m1
        }),
{
    let d = datum_or_default(m, a);
    let m1 = m.insert(a, d.spec_press());
    assert(datum_or_default(m1, a) == d.spec_press());
    assert(m1.insert(a, d.spec_press().spec_press()) =~= m1);
}

/// Law: releasing is idempotent within a tick window, in the same sense.
pub proof fn lemma_release_idempotent(m: Map<u32, ActionData>, a: u32)
    ensures
        datum_or_default(m, a).spec_release().spec_release() == datum_or_default(m, a).spec_release(),
        ({
            let m1 = m.insert(a, datum_or_default(m, a).spec_release());
            m1.insert(a, datum_or_default(m1, a).spec_release()) == m1
        }),
{
    let d = datum_or_default(m, a);
    let m1 = m.insert(a, d.spec_release());
    assert(datum_or_default(m1, a) == d.spec_release());
    assert(m1.insert(a, d.spec_release().spec_release()) =~= m1);
}

/// Law: a tick collapses transitions exactly once.  One tick after a
/// press the action reads as steadily pressed (and no longer just
/// pressed); one tick after a release as steadily released; and a second
/// tick without an intervening edge leaves the button phase unchanged.
pub proof fn lemma_tick_collapses_once(d: ActionData, c1: u64, p1: u64, c2: u64, p2: u64)
    ensures
        !d.consumed ==> d.spec_press().spec_tick(c1, p1).state == ButtonState::Pressed,
        d.spec_release().spec_tick(c1, p1).state == ButtonState::Released,
        d.spec_tick(c1, p1).spec_tick(c2, p2).state == d.spec_tick(c1, p1).state,
{
}

/// Law: an explicit release clears consumption.  Consuming, then
/// releasing, then pressing an action leaves it pressed: consumption does
/// not outlive a release.
pub proof fn lemma_release_clears_consumption(d: ActionData)
    ensures
        d.spec_consume().spec_release().spec_press().state.is_pressed(),
        !d.spec_consume().spec_release().spec_press().consumed,
{
}

/// Law: consumption blocks pressing.  Once an action is consumed, a
/// press changes nothing at all, and the action keeps reading as
/// released.
pub proof fn lemma_consume_blocks_press(d: ActionData)
    ensures
        d.spec_consume().spec_press() == d.spec_consume(),
        d.spec_consume().spec_press().state.is_released(),
        !d.spec_consume().spec_press().state.is_pressed(),
{
}

/// Law: consumption freezes timing.  However many ticks pass while an
/// action stays consumed, its timing — start instant and both durations —
/// does not move, and the action stays consumed.
pub proof fn lemma_consumed_freezes_timing(d: ActionData, ticks: Seq<(u64, u64)>)
    requires
        d.consumed,
    ensures
        spec_tick_n(d, ticks).consumed,
        spec_tick_n(d, ticks).timing == d.timing,
    decreases ticks.len(),
{
    if ticks.len() > 0 {
        lemma_consumed_freezes_timing(d, ticks.drop_last());
    }
}

/// Law: replaying a diff is exactly the state transformation of the
/// equivalent direct calls, in the same order: the press (or release)
/// transform of [`ActionState::press`] or [`ActionState::release`],
/// followed by storing the datum with the refreshed value and axis sample
/// as [`ActionState::set_action_data`] would.  Diff replay therefore
/// triggers the same edges as direct manipulation.
pub proof fn lemma_diff_replays_direct_calls(m: Map<u32, ActionData>, diff: ActionDiff)
    ensures
        diff matches ActionDiff::Pressed { action } ==> ({
            let m1 = m.insert(action, datum_or_default(m, action).spec_press());
            spec_apply_diff(m, diff) == m1.insert(
                action,
                ActionData { value: VALUE_SCALE, ..datum_or_default(m1, action) },
            )
        }),
        diff matches ActionDiff::Released { action } ==> ({
            let m1 = m.insert(action, datum_or_default(m, action).spec_release());
            spec_apply_diff(m, diff) == m1.insert(
                action,
                ActionData { value: 0, axis_pair: None, ..datum_or_default(m1, action) },
            )
        }),
        diff matches ActionDiff::ValueChanged { action, value } ==> ({
            let m1 = m.insert(action, datum_or_default(m, action).spec_press());
            spec_apply_diff(m, diff) == m1.insert(
                action,
                ActionData { value, ..datum_or_default(m1, action) },
            )
        }),
        diff matches ActionDiff::AxisPairChanged { action, axis_pair } ==> ({
            let m1 = m.insert(action, datum_or_default(m, action).spec_press());
            let p = DualAxisData { x: axis_pair.0, y: axis_pair.1 };
            spec_apply_diff(m, diff) == m1.insert(
                action,
                ActionData {
                    axis_pair: Some(p),
                    value: p.spec_length() as i64,
                    ..datum_or_default(m1, action)
                },
            )
        }),
{
    match diff {
        ActionDiff::Pressed { action } => {
            let m1 = m.insert(action, datum_or_default(m, action).spec_press());
            assert(datum_or_default(m1, action) == datum_or_default(m, action).spec_press());
            assert(spec_apply_diff(m, diff) =~= m1.insert(
                action,
                ActionData { value: VALUE_SCALE, ..datum_or_default(m1, action) },
            ));
        },
        ActionDiff::Released { action } => {
            let m1 = m.insert(action, datum_or_default(m, action).spec_release());
            assert(datum_or_default(m1, action) == datum_or_default(m, action).spec_release());
            assert(spec_apply_diff(m, diff) =~= m1.insert(
                action,
                ActionData { value: 0, axis_pair: None, ..datum_or_default(m1, action) },
            ));
        },
        ActionDiff::ValueChanged { action, value } => {
            let m1 = m.insert(action, datum_or_default(m, action).spec_press());
            assert(datum_or_default(m1, action) == datum_or_default(m, action).spec_press());
            assert(spec_apply_diff(m, diff) =~= m1.insert(
                action,
                ActionData { value, ..datum_or_default(m1, action) },
            ));
        },
        ActionDiff::AxisPairChanged { action, axis_pair } => {
            let m1 = m.insert(action, datum_or_default(m, action).spec_press());
            let p = DualAxisData { x: axis_pair.0, y: axis_pair.1 };
            assert(datum_or_default(m1, action) == datum_or_default(m, action).spec_press());
            assert(spec_apply_diff(m, diff) =~= m1.insert(
                action,
                ActionData {
                    axis_pair: Some(p),
                    value: p.spec_length() as i64,
                    ..datum_or_default(m1, action)
                },
            ));
        },
    }
}

/// Law: an action the state has never seen reads as fully released, with
/// zero value, no axis sample, no start instant, zero durations, and no
/// consumption.
pub proof fn lemma_untouched_defaults(m: Map<u32, ActionData>, a: u32)
    requires
        !m.dom().contains(a),
    ensures
        datum_or_default(m, a).state == ButtonState::Released,
        datum_or_default(m, a).state.is_released(),
        !datum_or_default(m, a).state.is_pressed(),
        datum_or_default(m, a).value == 0,
        datum_or_default(m, a).axis_pair is None,
        datum_or_default(m, a).timing.instant_started is None,
        datum_or_default(m, a).timing.current_duration == 0,
        datum_or_default(m, a).timing.previous_duration == 0,
        !datum_or_default(m, a).consumed,
{
}

} // verus!
