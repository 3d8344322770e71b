//! The binding map and clash resolver.
//!
//! An [`InputMap`] associates actions with bindings: chords of raw inputs
//! that must all be active at once (a single-input chord being the common
//! case).  Each tick, [`InputMap::which_pressed`] turns a snapshot of the
//! currently active raw inputs into one freshly resolved
//! [`ActionData`] per bound action, which
//! [`crate::action_state::ActionState::update`] then merges.
//!
//! The resolution is a pure function of the map, the snapshot and the
//! strategy: identical snapshots always yield identical batches.

use vstd::prelude::*;

use crate::action_state::ActionData;
use crate::axislike::DualAxisData;
use crate::buttonlike::ButtonState;
use crate::id_map::IdMap;
use crate::id_map::lemma_has_key_step;
use crate::id_map::seq_has_key;
use crate::timing::Timing;

verus! {

/// What one active raw input currently reports: its analog value, in
/// fixed-point units of [`crate::VALUE_SCALE`], and an optional
/// two-dimensional axis sample.  A raw input absent from the snapshot is
/// inactive.
#[derive(Clone, Copy, Debug, PartialEq)]
pub struct RawActivation {
    /// The input's analog value; a plain button reports
    /// [`crate::VALUE_SCALE`] while held.
    pub value: i64,
    /// The input's axis sample, where the device provides one.
    pub axis_pair: Option<DualAxisData>,
}

/// One binding: a chord of raw inputs that must all be active at once for
/// the binding to fire.  Its value and axis sample are those of its first
/// input.
#[derive(Clone, Debug)]
pub struct Binding {
    /// The raw inputs of the chord; one input is the common case.
    pub inputs: Vec<u32>,
}

impl View for Binding {
    type V = Seq<u32>;

    open spec fn view(&self) -> Seq<u32> {
        self.inputs@
    }
}

impl Binding {
    /// A binding on a single raw input.
    pub fn single(input: u32) -> (r: Self)
        ensures
            r@ == seq![input],
    {
        let r = Binding { inputs: vec![input] };
        proof {
            assert(r@ =~= seq![input]);
        }
        r
    }

    /// A chord over the given raw inputs.
    pub fn chord(inputs: Vec<u32>) -> (r: Self)
        ensures
            r@ == inputs@,
    {
        Binding { inputs }
    }
}

/// Is every input of the chord active in the snapshot?
pub open spec fn chord_active(b: Seq<u32>, snap: Map<u32, RawActivation>) -> bool {
    forall|i: int| 0 <= i < b.len() ==> snap.dom().contains(#[trigger] b[i])
}

/// Is every input of `b1` also an input of `b2`?
pub open spec fn chord_subset(b1: Seq<u32>, b2: Seq<u32>) -> bool {
    forall|i: int| 0 <= i < b1.len() ==> b2.contains(#[trigger] b1[i])
}

/// Is `b1` strictly inside `b2`, as input sets?
pub open spec fn chord_strictly_within(b1: Seq<u32>, b2: Seq<u32>) -> bool {
    chord_subset(b1, b2) && !chord_subset(b2, b1)
}

/// The value an active chord contributes: its first input's value.
pub open spec fn binding_value(b: Seq<u32>, snap: Map<u32, RawActivation>) -> i64 {
    if b.len() > 0 && snap.dom().contains(b[0]) {
        snap[b[0]].value
    } else {
        0
    }
}

/// The axis sample an active chord contributes: its first input's sample.
pub open spec fn binding_axis(b: Seq<u32>, snap: Map<u32, RawActivation>) -> Option<DualAxisData> {
    if b.len() > 0 && snap.dom().contains(b[0]) {
        snap[b[0]].axis_pair
    } else {
        None
    }
}

/// How overlapping bindings that fire from the same keystroke are
/// arbitrated.
#[derive(Clone, Copy, Debug, PartialEq, Eq)]
pub enum ClashStrategy {
    /// Every complete chord fires, clashes included.
    PressAll,
    /// A chord strictly inside another action's active chord is
    /// suppressed, so a short chord does not fire alongside the longer
    /// chord that contains it.
    PrioritizeLongest,
}

/// Addition of two values in range, saturating at the `i64` bounds.
pub open spec fn sat_add_i64(a: int, b: int) -> int {
    if a + b > i64::MAX {
        i64::MAX as int
    } else if a + b < i64::MIN {
        i64::MIN as int
    } else {
        a + b
    }
}

/// Addition of two values in range, saturating at the `i32` bounds.
pub open spec fn sat_add_i32(a: int, b: int) -> int {
    if a + b > i32::MAX {
        i32::MAX as int
    } else if a + b < i32::MIN {
        i32::MIN as int
    } else {
        a + b
    }
}

fn sat_add64(a: i64, b: i64) -> (r: i64)
    ensures
        r == sat_add_i64(a as int, b as int),
{
    if b >= 0 {
        if a > i64::MAX - b {
            i64::MAX
        } else {
            a + b
        }
    } else {
        if a < i64::MIN - b {
            i64::MIN
        } else {
            a + b
        }
    }
}

fn sat_add32(a: i32, b: i32) -> (r: i32)
    ensures
        r == sat_add_i32(a as int, b as int),
{
    if b >= 0 {
        if a > i32::MAX - b {
            i32::MAX
        } else {
            a + b
        }
    } else {
        if a < i32::MIN - b {
            i32::MIN
        } else {
            a + b
        }
    }
}

/// Is row `i`'s chord suppressed by a clash?  Only under
/// [`ClashStrategy::PrioritizeLongest`], and only where another action's
/// chord is active and strictly contains it.
pub open spec fn row_suppressed(
    rows: Seq<(u32, Seq<u32>)>,
    i: int,
    snap: Map<u32, RawActivation>,
    strategy: ClashStrategy,
) -> bool {
    strategy is PrioritizeLongest && exists|j: int|
        0 <= j < rows.len() && (#[trigger] rows[j]).0 != rows[i].0 && chord_active(rows[j].1, snap)
            && chord_strictly_within(rows[i].1, rows[j].1)
}

/// Does row `i` fire: its chord fully active and not suppressed?
pub open spec fn row_fires(
    rows: Seq<(u32, Seq<u32>)>,
    i: int,
    snap: Map<u32, RawActivation>,
    strategy: ClashStrategy,
) -> bool {
    chord_active(rows[i].1, snap) && !row_suppressed(rows, i, snap, strategy)
}

/// Is the action pressed: does one of its first `n` rows fire?
pub open spec fn action_pressed(
    rows: Seq<(u32, Seq<u32>)>,
    n: int,
    a: u32,
    snap: Map<u32, RawActivation>,
    strategy: ClashStrategy,
) -> bool {
    exists|i: int| 0 <= i < n && (#[trigger] rows[i]).0 == a && row_fires(rows, i, snap, strategy)
}

/// The action's value: the values of its firing rows among the first `n`,
/// summed in row order with saturation.
pub open spec fn action_value(
    rows: Seq<(u32, Seq<u32>)>,
    n: int,
    a: u32,
    snap: Map<u32, RawActivation>,
    strategy: ClashStrategy,
) -> int
    decreases n,
{
    if n <= 0 {
        0
    } else {
        let rest = action_value(rows, n - 1, a, snap, strategy);
        if rows[n - 1].0 == a && row_fires(rows, n - 1, snap, strategy) {
            sat_add_i64(rest, binding_value(rows[n - 1].1, snap) as int)
        } else {
            rest
        }
    }
}

/// The action's axis sample: the samples of its firing rows among the
/// first `n` that carry one, summed component-wise in row order with
/// saturation; `None` where no firing row carries one.
pub open spec fn action_axis(
    rows: Seq<(u32, Seq<u32>)>,
    n: int,
    a: u32,
    snap: Map<u32, RawActivation>,
    strategy: ClashStrategy,
) -> Option<DualAxisData>
    decreases n,
{
    if n <= 0 {
        None
    } else {
        let rest = action_axis(rows, n - 1, a, snap, strategy);
        if rows[n - 1].0 == a && row_fires(rows, n - 1, snap, strategy) {
            match binding_axis(rows[n - 1].1, snap) {
                Some(p) => match rest {
                    None => Some(p),
                    Some(q) => Some(
                        DualAxisData {
                            x: sat_add_i32(q.x as int, p.x as int) as i32,
                            y: sat_add_i32(q.y as int, p.y as int) as i32,
                        },
                    ),
                },
                None => rest,
            }
        } else {
            rest
        }
    }
}

/// The freshly resolved datum of one action: just pressed if any of its
/// rows fires, with summed value and axis sample, fresh timing and no
/// consumption; steadily released with zero value otherwise.
pub open spec fn resolved_datum(
    rows: Seq<(u32, Seq<u32>)>,
    a: u32,
    snap: Map<u32, RawActivation>,
    strategy: ClashStrategy,
) -> ActionData {
    ActionData {
        state: if action_pressed(rows, rows.len() as int, a, snap, strategy) {
            ButtonState::JustPressed
        } else {
            ButtonState::Released
        },
        value: action_value(rows, rows.len() as int, a, snap, strategy) as i64,
        axis_pair: action_axis(rows, rows.len() as int, a, snap, strategy),
        timing: Timing { instant_started: None, current_duration: 0, previous_duration: 0 },
        consumed: false,
    }
}

/// The action-to-binding associations: an ordered list of rows, each one
/// action with one chord.  One action may have several rows (they are
/// alternatives whose contributions add up), and one raw input may occur
/// under several actions.
///
/// Viewed as the sequence of rows, each an action identifier with its
/// chord's input sequence.
#[derive(Debug)]
pub struct InputMap {
    rows: Vec<(u32, Binding)>,
}

impl View for InputMap {
    type V = Seq<(u32, Seq<u32>)>;

    closed spec fn view(&self) -> Seq<(u32, Seq<u32>)> {
        self.rows@.map_values(|r: (u32, Binding)| (r.0, r.1@))
    }
}

fn vec_has(v: &Vec<u32>, k: u32) -> (r: bool)
    ensures
        r == v@.contains(k),
{
    let n = v.len();
    let mut i: usize = 0;
    while i < n
        invariant
            i <= n,
            n == v@.len(),
            forall|j: int| 0 <= j < i ==> v@[j] != k,
        decreases n - i,
    {
        if v[i] == k {
            proof {
                assert(v@[i as int] == k);
            }
            return true;
        }
        i = i + 1;
    }
    false
}

fn chord_active_exec(b: &Binding, snap: &IdMap<RawActivation>) -> (r: bool)
    ensures
        r == chord_active(b@, snap@),
{
    let n = b.inputs.len();
    let mut i: usize = 0;
    while i < n
        invariant
            i <= n,
            n == b@.len(),
            forall|j: int| 0 <= j < i ==> snap@.dom().contains(#[trigger] b@[j]),
        decreases n - i,
    {
        if snap.get(b.inputs[i]).is_none() {
            proof {
                assert(!snap@.dom().contains(b@[i as int]));
            }
            return false;
        }
        i = i + 1;
    }
    true
}

fn chord_subset_exec(b1: &Binding, b2: &Binding) -> (r: bool)
    ensures
        r == chord_subset(b1@, b2@),
{
    let n = b1.inputs.len();
    let mut i: usize = 0;
    while i < n
        invariant
            i <= n,
            n == b1@.len(),
            forall|j: int| 0 <= j < i ==> b2@.contains(#[trigger] b1@[j]),
        decreases n - i,
    {
        if !vec_has(&b2.inputs, b1.inputs[i]) {
            proof {
                assert(!b2@.contains(b1@[i as int]));
            }
            return false;
        }
        i = i + 1;
    }
    true
}

fn binding_value_exec(b: &Binding, snap: &IdMap<RawActivation>) -> (r: i64)
    ensures
        r == binding_value(b@, snap@),
{
    if b.inputs.len() > 0 {
        match snap.get(b.inputs[0]) {
            Some(rec) => rec.value,
            None => 0,
        }
    } else {
        0
    }
}

fn binding_axis_exec(b: &Binding, snap: &IdMap<RawActivation>) -> (r: Option<DualAxisData>)
    ensures
        r == binding_axis(b@, snap@),
{
    if b.inputs.len() > 0 {
        match snap.get(b.inputs[0]) {
            Some(rec) => rec.axis_pair,
            None => None,
        }
    } else {
        None
    }
}

impl InputMap {
    /// An empty binding map.
    pub fn new() -> (r: Self)
        ensures
            r@ == Seq::<(u32, Seq<u32>)>::empty(),
    {
        let r = InputMap { rows: Vec::new() };
        proof {
            assert(r@ =~= Seq::<(u32, Seq<u32>)>::empty());
        }
        r
    }

    /// Bind one more chord to `action`, after all existing rows.
    pub fn insert(&mut self, action: u32, binding: Binding)
        ensures
            final(self)@ == old(self)@.push((action, binding@)),
    {
        let ghost b = binding@;
        self.rows.push((action, binding));
        proof {
            assert(final(self)@ =~= old(self)@.push((action, b)));
        }
    }

    /// How many rows the map holds.
    pub fn len(&self) -> (r: usize)
        ensures
            r == self@.len(),
    {
        self.rows.len()
    }

    fn row_suppressed_exec(&self, i: usize, snap: &IdMap<RawActivation>, strategy: ClashStrategy) -> (r: bool)
        requires
            i < self@.len(),
        ensures
            r == row_suppressed(self@, i as int, snap@, strategy),
    {
        match strategy {
            ClashStrategy::PressAll => false,
            ClashStrategy::PrioritizeLongest => {
                let n = self.rows.len();
                let mut j: usize = 0;
                while j < n
                    invariant
                        j <= n,
                        n == self@.len(),
                        i < self@.len(),
                        strategy is PrioritizeLongest,
                        forall|m: int|
                            0 <= m < j ==> !((#[trigger] self@[m]).0 != self@[i as int].0
                                && chord_active(self@[m].1, snap@) && chord_strictly_within(
                                self@[i as int].1,
                                self@[m].1,
                            )),
                    decreases n - j,
                {
                    if self.rows[j].0 != self.rows[i].0 && chord_active_exec(&self.rows[j].1, snap)
                        && chord_subset_exec(&self.rows[i].1, &self.rows[j].1) && !chord_subset_exec(
                        &self.rows[j].1,
                        &self.rows[i].1,
                    ) {
                        proof {
                            let w: int = j as int;
                            assert(chord_active(self@[w].1, snap@));
                            assert(chord_strictly_within(self@[i as int].1, self@[w].1));
                            assert(exists|m: int|
                                0 <= m < self@.len() && (#[trigger] self@[m]).0 != self@[i as int].0
                                    && chord_active(self@[m].1, snap@) && chord_strictly_within(
                                    self@[i as int].1,
                                    self@[m].1,
                                ));
                            assert(row_suppressed(self@, i as int, snap@, strategy));
                        }
                        return true;
                    }
                    j = j + 1;
                }
                false
            }
        }
    }

    fn row_fires_exec(&self, i: usize, snap: &IdMap<RawActivation>, strategy: ClashStrategy) -> (r: bool)
        requires
            i < self@.len(),
        ensures
            r == row_fires(self@, i as int, snap@, strategy),
    {
        chord_active_exec(&self.rows[i].1, snap) && !self.row_suppressed_exec(i, snap, strategy)
    }

    /// The freshly resolved datum of one action against the snapshot;
    /// see [`resolved_datum`].
    pub fn resolve_action(&self, action: u32, snap: &IdMap<RawActivation>, strategy: ClashStrategy) -> (r: ActionData)
        ensures
            r == resolved_datum(self@, action, snap@, strategy),
    {
        let n = self.rows.len();
        let mut value: i64 = 0;
        let mut axis: Option<DualAxisData> = None;
        let mut pressed = false;
        let mut k: usize = 0;
        while k < n
            invariant
                k <= n,
                n == self@.len(),
                value == action_value(self@, k as int, action, snap@, strategy),
                axis == action_axis(self@, k as int, action, snap@, strategy),
                pressed == action_pressed(self@, k as int, action, snap@, strategy),
            decreases n - k,
        {
            if self.rows[k].0 == action && self.row_fires_exec(k, snap, strategy) {
                pressed = true;
                value = sat_add64(value, binding_value_exec(&self.rows[k].1, snap));
                axis = match (axis, binding_axis_exec(&self.rows[k].1, snap)) {
                    (rest, None) => rest,
                    (None, Some(p)) => Some(p),
                    (Some(q), Some(p)) => Some(
                        DualAxisData::new(sat_add32(q.x, p.x), sat_add32(q.y, p.y)),
                    ),
                };
                proof {
                    assert((#[trigger] self@[k as int]).0 == action && row_fires(
                        self@,
                        k as int,
                        snap@,
                        strategy,
                    ));
                    assert(action_pressed(self@, k + 1, action, snap@, strategy));
                }
            } else {
                proof {
                    if action_pressed(self@, k + 1, action, snap@, strategy) && !action_pressed(
                        self@,
                        k as int,
                        action,
                        snap@,
                        strategy,
                    ) {
                        let w = choose|w: int|
                            0 <= w < k + 1 && (#[trigger] self@[w]).0 == action && row_fires(
                                self@,
                                w,
                                snap@,
                                strategy,
                            );
                        assert(w == k);
                        assert(false);
                    }
                }
            }
            k = k + 1;
        }
        ActionData {
            state: if pressed {
                ButtonState::JustPressed
            } else {
                ButtonState::Released
            },
            value,
            axis_pair: axis,
            timing: Timing { instant_started: None, current_duration: 0, previous_duration: 0 },
            consumed: false,
        }
    }

    /// Resolve the whole map against a snapshot of the active raw inputs:
    /// one freshly resolved datum per bound action.  The result is a pure
    /// function of the map, the snapshot and the strategy; a raw input
    /// bound to no action is simply never consulted, and an action with
    /// no rows yields no datum.
    pub fn which_pressed(&self, input_snapshot: &IdMap<RawActivation>, clash_strategy: ClashStrategy) -> (r: IdMap<ActionData>)
        ensures
            forall|a: u32|
                #[trigger] r@.dom().contains(a) == seq_has_key(self@, self@.len() as int, a),
            forall|a: u32|
                r@.dom().contains(a) ==> r@[a] == resolved_datum(
                    self@,
                    a,
                    input_snapshot@,
                    clash_strategy,
                ),
    {
        let n = self.rows.len();
        let mut out: IdMap<ActionData> = IdMap::new();
        let mut i: usize = 0;
        while i < n
            invariant
                i <= n,
                n == self@.len(),
                forall|a: u32| #[trigger] out@.dom().contains(a) == seq_has_key(self@, i as int, a),
                forall|a: u32|
                    out@.dom().contains(a) ==> out@[a] == resolved_datum(
                        self@,
                        a,
                        input_snapshot@,
                        clash_strategy,
                    ),
            decreases n - i,
        {
            let a = self.rows[i].0;
            let d = self.resolve_action(a, input_snapshot, clash_strategy);
            out.set(a, d);
            proof {
                assert(self@[i as int].0 == a);
                assert forall|x: u32|
                    #[trigger] seq_has_key(self@, i + 1, x) == (seq_has_key(self@, i as int, x)
                        || x == a) by {
                    lemma_has_key_step(self@, i as int, x);
                }
            }
            i = i + 1;
        }
        out
    }
}

/// Law: under [`ClashStrategy::PressAll`] no chord is ever suppressed —
/// a row fires exactly when its chord is fully active.
pub proof fn lemma_press_all_fires_every_active_chord(
    rows: Seq<(u32, Seq<u32>)>,
    i: int,
    snap: Map<u32, RawActivation>,
)
    requires
        0 <= i < rows.len(),
    ensures
        !row_suppressed(rows, i, snap, ClashStrategy::PressAll),
        row_fires(rows, i, snap, ClashStrategy::PressAll) == chord_active(rows[i].1, snap),
{
}

impl Default for InputMap {
    /// An empty binding map.
    fn default() -> (r: Self)
        ensures
            r@ == Seq::<(u32, Seq<u32>)>::empty(),
    {
        let r = InputMap { rows: Vec::new() };
        proof {
            assert(r@ =~= Seq::<(u32, Seq<u32>)>::empty());
        }
        r
    }
}

} // verus!
