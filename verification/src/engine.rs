//! The simulation engine: a live session built from a snapshot of a circuit
//! model plus a value space of boolean slots, advanced one propagation step
//! at a time.
//!
//! One step evaluates every component once, in component order. A component
//! reads its bound input slots from the current state, computes its function,
//! and writes its output and owned slots; later components in the same step
//! observe earlier components' writes. An embedded circuit component keeps
//! the whole nested value space in its owned slots: a step copies the
//! component's inputs onto the nested input slots, runs one step of the
//! nested model, and publishes the nested output slots on the component's
//! outputs.

use vstd::prelude::*;

use crate::model::CircuitModel;
use crate::model::Component;
use crate::model::Function;

verus! {

/// The values of the slots `idxs`, read from `vals` in order.
pub open spec fn read_slots(vals: Seq<bool>, idxs: Seq<usize>) -> Seq<bool> {
    Seq::new(idxs.len(), |j: int| vals[idxs[j] as int])
}

/// `vals` after writing `xs[j]` to slot `idxs[j]` for every `j < n`, in
/// order. A write whose slot lies outside `vals` changes nothing; for a
/// well-formed circuit every slot is in range.
pub open spec fn write_upto(vals: Seq<bool>, idxs: Seq<usize>, xs: Seq<bool>, n: int) -> Seq<bool>
    decreases n,
{
    if n <= 0 {
        vals
    } else {
        let prev = write_upto(vals, idxs, xs, n - 1);
        if (idxs[n - 1] as int) < prev.len() {
            prev.update(idxs[n - 1] as int, xs[n - 1])
        } else {
            prev
        }
    }
}

/// `vals` after writing all of `xs` to the slots `idxs`, pairwise in order.
pub open spec fn write_slots(vals: Seq<bool>, idxs: Seq<usize>, xs: Seq<bool>) -> Seq<bool> {
    write_upto(vals, idxs, xs, idxs.len() as int)
}

/// The slots the model's inputs own, in input order.
pub open spec fn input_slots(m: CircuitModel) -> Seq<usize> {
    Seq::new(m.inputs@.len(), |j: int| m.inputs@[j].value_index)
}

/// The slots the model's outputs tap, in output order.
pub open spec fn output_slots(m: CircuitModel) -> Seq<usize> {
    Seq::new(m.outputs@.len(), |j: int| m.outputs@[j].value_index)
}

/// What one evaluation of `f` produces: the driven output values and the new
/// owned-state values, given the current input values `ins` and owned-state
/// values `owned`.
///
/// The gates are combinational. Each flip-flop stores one memory bit `q` in
/// its single owned slot and drives `q` on its output: `FlipFlopRS` takes
/// `(r, s)` with reset winning over set; the clocked kinds take their data
/// inputs first and the clock last, and keep `q` while the clock is low. An
/// embedded circuit runs one step of the nested model on its owned copy of
/// the nested value space, as described at module level.
pub open spec fn eval_function(f: Function, ins: Seq<bool>, owned: Seq<bool>) -> (Seq<bool>, Seq<
    bool,
>)
    decreases f, 0int,
{
    match f {
        Function::And => (seq![ins[0] && ins[1]], owned),
        Function::Or => (seq![ins[0] || ins[1]], owned),
        Function::Not => (seq![!ins[0]], owned),
        Function::Nand => (seq![!(ins[0] && ins[1])], owned),
        Function::Nor => (seq![!(ins[0] || ins[1])], owned),
        Function::FlipFlopRS => {
            let q = if ins[0] {
                false
            } else if ins[1] {
                true
            } else {
                owned[0]
            };
            (seq![q], seq![q])
        },
        Function::FlipFlopJK => {
            let q = if ins[2] {
                (ins[0] && !owned[0]) || (!ins[1] && owned[0])
            } else {
                owned[0]
            };
            (seq![q], seq![q])
        },
        Function::FlipFlopD => {
            let q = if ins[1] {
                ins[0]
            } else {
                owned[0]
            };
            (seq![q], seq![q])
        },
        Function::FlipFlopT => {
            let q = if ins[1] && ins[0] {
                !owned[0]
            } else {
                owned[0]
            };
            (seq![q], seq![q])
        },
        Function::Circuit(c) => {
            let fed = write_slots(owned, input_slots(c), ins);
            let stepped = step_upto(c, fed, c.components@.len() as int);
            (read_slots(stepped, output_slots(c)), stepped)
        },
    }
}

/// The value space after one component's evaluation: read its inputs and
/// owned state, evaluate its function, write its outputs and new owned
/// state.
pub open spec fn apply_component(vals: Seq<bool>, c: Component) -> Seq<bool>
    decreases c, 0int,
{
    let ins = read_slots(vals, c.input_value_indices@);
    let owned = read_slots(vals, c.owned_value_indices@);
    let r = eval_function(c.function, ins, owned);
    write_slots(write_slots(vals, c.output_value_indices@, r.0), c.owned_value_indices@, r.1)
}

/// The value space after evaluating the first `n` components, in order.
pub open spec fn step_upto(m: CircuitModel, vals: Seq<bool>, n: int) -> Seq<bool>
    decreases m, n,
{
    if n <= 0 || n > m.components@.len() {
        vals
    } else {
        apply_component(step_upto(m, vals, n - 1), m.components@[n - 1])
    }
}

/// The value space after one full propagation step over the whole model.
pub open spec fn step_model(m: CircuitModel, vals: Seq<bool>) -> Seq<bool> {
    step_upto(m, vals, m.components@.len() as int)
}

/// Writing slots never changes the length of the value space.
pub proof fn lemma_write_upto_len(vals: Seq<bool>, idxs: Seq<usize>, xs: Seq<bool>, n: int)
    ensures
        write_upto(vals, idxs, xs, n).len() == vals.len(),
    decreases n,
{
    if n > 0 {
        lemma_write_upto_len(vals, idxs, xs, n - 1);
    }
}

/// One component's evaluation never changes the length of the value space.
pub proof fn lemma_apply_component_len(vals: Seq<bool>, c: Component)
    ensures
        apply_component(vals, c).len() == vals.len(),
{
    let ins = read_slots(vals, c.input_value_indices@);
    let owned = read_slots(vals, c.owned_value_indices@);
    let r = eval_function(c.function, ins, owned);
    lemma_write_upto_len(vals, c.output_value_indices@, r.0, c.output_value_indices@.len() as int);
    lemma_write_upto_len(
        write_slots(vals, c.output_value_indices@, r.0),
        c.owned_value_indices@,
        r.1,
        c.owned_value_indices@.len() as int,
    );
}


/// A live simulation session: an independent snapshot of the authored model
/// plus the current value space. The snapshot never changes while the
/// session runs; only the values do.
pub struct Simulator {
    pub model: CircuitModel,
    pub values: Vec<bool>,
}

impl Simulator {
    /// The session's model is well formed and its value space has exactly
    /// the model's declared length.
    pub open spec fn wf(self) -> bool {
        &&& self.model.wf()
        &&& self.values@.len() == self.model.value_list_len
    }

    /// Builds a session over `model` with every slot at the default value
    /// `false`.
    pub fn new(model: CircuitModel) -> (r: Simulator)
        requires
            model.wf(),
        ensures
            r.wf(),
            r.model == model,
            r.values@ == Seq::new(model.value_list_len as nat, |j: int| false),
    {
        let mut values: Vec<bool> = Vec::new();
        let n = model.value_list_len;
        let mut j: usize = 0;
        while j < n
            invariant
                j <= n,
                values@.len() == j,
                forall|k: int| 0 <= k < j ==> #[trigger] values@[k] == false,
            decreases n - j,
        {
            values.push(false);
            j = j + 1;
        }
        proof {
            assert(values@ =~= Seq::new(model.value_list_len as nat, |j: int| false));
        }
        Simulator { model, values }
    }

    /// Reads one slot of the current value space.
    pub fn value_for_index(&self, index: usize) -> (r: bool)
        requires
            index < self.values@.len(),
        ensures
            r == self.values@[index as int],
    {
        self.values[index]
    }

    /// Forces the slot owned by the input at position `input` (in the
    /// model's input order) to `value`; it takes effect from the next
    /// propagation step.
    pub fn set_input(&mut self, input: usize, value: bool)
        requires
            old(self).wf(),
            input < old(self).model.inputs@.len(),
        ensures
            final(self).wf(),
            final(self).model == old(self).model,
            final(self).values@ == old(self).values@.update(
                old(self).model.inputs@[input as int].value_index as int,
                value,
            ),
    {
        let idx = self.model.inputs[input].value_index;
        self.values[idx] = value;
    }

    /// Advances the session by exactly one propagation step over the whole
    /// snapshot model.
    pub fn simulate(&mut self)
        requires
            old(self).wf(),
        ensures
            final(self).wf(),
            final(self).model == old(self).model,
            final(self).values@ == step_model(old(self).model, old(self).values@),
    {
        run_step(&self.model, &mut self.values);
    }
}

/// Evaluates `f` once: returns the driven output values and the new
/// owned-state values.
fn eval_function_exec(f: &Function, ins: &Vec<bool>, owned: &Vec<bool>) -> (r: (Vec<bool>, Vec<
    bool,
>))
    requires
        f.wf(),
        ins@.len() == f.arity(),
        owned@.len() == f.owned_count(),
    ensures
        r.0@ == eval_function(*f, ins@, owned@).0,
        r.1@ == eval_function(*f, ins@, owned@).1,
        r.0@.len() == f.out_count(),
        r.1@.len() == owned@.len(),
    decreases f, 0int,
{
    match f {
        Function::And => {
            let out = ins[0] && ins[1];
            (one(out), copy_bools(owned))
        },
        Function::Or => {
            let out = ins[0] || ins[1];
            (one(out), copy_bools(owned))
        },
        Function::Not => {
            let out = !ins[0];
            (one(out), copy_bools(owned))
        },
        Function::Nand => {
            let out = !(ins[0] && ins[1]);
            (one(out), copy_bools(owned))
        },
        Function::Nor => {
            let out = !(ins[0] || ins[1]);
            (one(out), copy_bools(owned))
        },
        Function::FlipFlopRS => {
            let q = if ins[0] {
                false
            } else if ins[1] {
                true
            } else {
                owned[0]
            };
            (one(q), one(q))
        },
        Function::FlipFlopJK => {
            let q = if ins[2] {
                (ins[0] && !owned[0]) || (!ins[1] && owned[0])
            } else {
                owned[0]
            };
            (one(q), one(q))
        },
        Function::FlipFlopD => {
            let q = if ins[1] {
                ins[0]
            } else {
                owned[0]
            };
            (one(q), one(q))
        },
        Function::FlipFlopT => {
            let q = if ins[1] && ins[0] {
                !owned[0]
            } else {
                owned[0]
            };
            (one(q), one(q))
        },
        Function::Circuit(c) => {
            let mut inner = copy_bools(owned);
            let ghost owned0 = owned@;
            let n = c.inputs.len();
            let mut j: usize = 0;
            while j < n
                invariant
                    j <= n,
                    n == c.inputs@.len(),
                    inner@ == write_upto(owned0, input_slots(*c), ins@, j as int),
                    inner@.len() == owned0.len(),
                    ins@.len() == n,
                decreases n - j,
            {
                let idx = c.inputs[j].value_index;
                if idx < inner.len() {
                    inner[idx] = ins[j];
                }
                j = j + 1;
            }
            proof {
                assert(decreases_to!(f, 0int => *c, c.components@.len() as int));
            }
            run_step(c, &mut inner);
            let mut outs: Vec<bool> = Vec::new();
            let m = c.outputs.len();
            let mut j2: usize = 0;
            while j2 < m
                invariant
                    j2 <= m,
                    m == c.outputs@.len(),
                    c.wf(),
                    inner@.len() == c.value_list_len,
                    outs@.len() == j2,
                    forall|k: int|
                        0 <= k < j2 ==> #[trigger] outs@[k] == inner@[output_slots(*c)[k] as int],
                decreases m - j2,
            {
                let idx = c.outputs[j2].value_index;
                outs.push(inner[idx]);
                j2 = j2 + 1;
            }
            proof {
                assert(outs@ =~= read_slots(inner@, output_slots(*c)));
            }
            (outs, inner)
        },
    }
}

/// One step of `m` over the value space `vals`, component by component.
fn run_step(m: &CircuitModel, vals: &mut Vec<bool>)
    requires
        m.wf(),
        old(vals)@.len() == m.value_list_len,
    ensures
        final(vals)@ == step_model(*m, old(vals)@),
        final(vals)@.len() == old(vals)@.len(),
    decreases m, 1int,
{
    let n = m.components.len();
    let mut i: usize = 0;
    while i < n
        invariant
            i <= n,
            n == m.components@.len(),
            m.wf(),
            vals@ == step_upto(*m, old(vals)@, i as int),
            vals@.len() == m.value_list_len,
        decreases n - i,
    {
        proof {
            assert(decreases_to!(m, 1int => m.components@[i as int], 0int));
            lemma_apply_component_len(vals@, m.components@[i as int]);
        }
        apply_component_exec(vals, &m.components[i]);
        i = i + 1;
    }
}

/// Evaluates one component against the value space: read, evaluate, write.
fn apply_component_exec(vals: &mut Vec<bool>, c: &Component)
    requires
        c.wf(old(vals)@.len() as nat),
    ensures
        final(vals)@ == apply_component(old(vals)@, *c),
        final(vals)@.len() == old(vals)@.len(),
    decreases c, 2int,
{
    let ghost vals0 = vals@;
    let ins = read_slots_exec(vals, &c.input_value_indices);
    let owned = read_slots_exec(vals, &c.owned_value_indices);
    proof {
        assert(decreases_to!(c, 2int => c.function, 0int));
    }
    let r = eval_function_exec(&c.function, &ins, &owned);
    let (outs, new_owned) = r;
    write_slots_exec(vals, &c.output_value_indices, &outs);
    write_slots_exec(vals, &c.owned_value_indices, &new_owned);
    proof {
        lemma_apply_component_len(vals0, *c);
    }
}

/// A one-element vector.
fn one(b: bool) -> (r: Vec<bool>)
    ensures
        r@ == seq![b],
{
    let mut r: Vec<bool> = Vec::new();
    r.push(b);
    proof {
        assert(r@ =~= seq![b]);
    }
    r
}

/// A copy of a boolean vector with the same values.
fn copy_bools(v: &Vec<bool>) -> (r: Vec<bool>)
    ensures
        r@ == v@,
{
    let mut r: Vec<bool> = Vec::new();
    let n = v.len();
    let mut i: usize = 0;
    while i < n
        invariant
            i <= n,
            n == v@.len(),
            r@.len() == i,
            forall|k: int| 0 <= k < i ==> #[trigger] r@[k] == v@[k],
        decreases n - i,
    {
        r.push(v[i]);
        i = i + 1;
    }
    proof {
        assert(r@ =~= v@);
    }
    r
}

/// Reads the slots `idxs` of `vals`, in order.
fn read_slots_exec(vals: &Vec<bool>, idxs: &Vec<usize>) -> (r: Vec<bool>)
    requires
        forall|j: int| 0 <= j < idxs@.len() ==> (#[trigger] idxs@[j] as int) < vals@.len(),
    ensures
        r@ == read_slots(vals@, idxs@),
{
    let mut r: Vec<bool> = Vec::new();
    let n = idxs.len();
    let mut j: usize = 0;
    while j < n
        invariant
            j <= n,
            n == idxs@.len(),
            forall|k: int| 0 <= k < n ==> (#[trigger] idxs@[k] as int) < vals@.len(),
            r@.len() == j,
            forall|k: int| 0 <= k < j ==> #[trigger] r@[k] == vals@[idxs@[k] as int],
        decreases n - j,
    {
        let idx = idxs[j];
        r.push(vals[idx]);
        j = j + 1;
    }
    proof {
        assert(r@ =~= read_slots(vals@, idxs@));
    }
    r
}

/// Writes `xs` pairwise to the slots `idxs` of `vals`, in order, skipping
/// any out-of-range slot.
fn write_slots_exec(vals: &mut Vec<bool>, idxs: &Vec<usize>, xs: &Vec<bool>)
    requires
        xs@.len() == idxs@.len(),
    ensures
        final(vals)@ == write_slots(old(vals)@, idxs@, xs@),
        final(vals)@.len() == old(vals)@.len(),
{
    let n = idxs.len();
    let mut j: usize = 0;
    while j < n
        invariant
            j <= n,
            n == idxs@.len(),
            xs@.len() == n,
            vals@ == write_upto(old(vals)@, idxs@, xs@, j as int),
            vals@.len() == old(vals)@.len(),
        decreases n - j,
    {
        let idx = idxs[j];
        if idx < vals.len() {
            vals[idx] = xs[j];
        }
        j = j + 1;
    }
}

} // verus!
