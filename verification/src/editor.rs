//! The interaction state machine around the authored circuit: which element
//! is selected, which add-element workflow is in progress, and whether a
//! live simulation session exists.
//!
//! Authoring and simulation are mutually exclusive: while a session runs no
//! add-element workflow is active, and starting a session discards any
//! uncommitted draft. Adds are all-or-nothing: a draft touches the committed
//! model only at a successful confirmation.

use vstd::prelude::*;

use crate::engine::Simulator;
use crate::engine::step_model;
use crate::model::CircuitModel;
use crate::model::Function;
use crate::model::all_below;
use crate::model::eq_model;

verus! {

/// Which existing element, if any, is currently inspected. The index is a
/// position in the model's respective ordered collection, not a value-space
/// slot.
#[derive(Clone, Copy, PartialEq, Eq, Structural, Debug)]
pub enum SelectedElement {
    Nothing,
    InputAt(usize),
    OutputAt(usize),
    ComponentAt(usize),
}

/// Uncommitted data for a component being added: the chosen function and the
/// user-adjustable input bindings.
pub struct ComponentDraft {
    pub function: Function,
    pub input_value_indices: Vec<usize>,
}

/// The single active add-element workflow mode, if any. `AddOutput` carries
/// the candidate slot to tap; `AddComponent` carries the draft.
pub enum AddingElement {
    Idle,
    AddInput,
    AddOutput(usize),
    AddComponent(ComponentDraft),
}

/// Why a confirmation or workflow action was rejected.
#[derive(Clone, Copy, PartialEq, Eq, Structural, Debug)]
pub enum AuthoringError {
    /// A binding would fall outside `[0, value_list_len)`, a draft's input
    /// list does not match its function's arity, or the value space cannot
    /// grow without overflowing.
    InvalidBinding,
    /// No circuit is loaded, no workflow is active, or a simulation session
    /// is running.
    IllegalModeTransition,
}

/// The editor: an optional authored circuit, the current selection, the
/// add-element workflow state, and an optional live session.
pub struct Editor {
    pub circuit: Option<CircuitModel>,
    pub selected: SelectedElement,
    pub adding: AddingElement,
    pub simulator: Option<Simulator>,
}

impl Editor {
    /// A circuit is loaded and no session is running, so authoring actions
    /// are available.
    pub open spec fn can_author(self) -> bool {
        self.circuit is Some && self.simulator is None
    }

    /// The selection refers to an existing element of the loaded circuit.
    pub open spec fn selection_ok(self) -> bool {
        match self.selected {
            SelectedElement::Nothing => true,
            SelectedElement::InputAt(i) => self.circuit is Some && (i as nat)
                < self.circuit->0.inputs@.len(),
            SelectedElement::OutputAt(i) => self.circuit is Some && (i as nat)
                < self.circuit->0.outputs@.len(),
            SelectedElement::ComponentAt(i) => self.circuit is Some && (i as nat)
                < self.circuit->0.components@.len(),
        }
    }

    /// The editor's invariant: any loaded circuit and any running session
    /// are well formed, the selection refers to an existing element, a
    /// workflow is only active while a circuit is loaded and no session
    /// runs, and a component draft's function is well formed.
    pub open spec fn wf(self) -> bool {
        &&& (self.circuit is Some ==> self.circuit->0.wf())
        &&& (self.simulator is Some ==> self.simulator->0.wf())
        &&& self.selection_ok()
        &&& (!(self.adding is Idle) ==> self.circuit is Some)
        &&& (self.simulator is Some ==> self.adding is Idle)
        &&& (match self.adding {
            AddingElement::AddComponent(draft) => draft.function.wf(),
            _ => true,
        })
    }

    /// A fresh editor: no circuit, nothing selected, no workflow, no
    /// session.
    pub fn new() -> (r: Editor)
        ensures
            r.circuit is None,
            r.selected == SelectedElement::Nothing,
            r.adding is Idle,
            r.simulator is None,
            r.wf(),
    {
        Editor {
            circuit: None,
            selected: SelectedElement::Nothing,
            adding: AddingElement::Idle,
            simulator: None,
        }
    }

    /// Replaces the authored circuit wholesale; the selection resets, and
    /// any in-progress workflow is discarded with it. A running session is
    /// unaffected: it owns an independent snapshot.
    pub fn load_model(&mut self, m: CircuitModel)
        requires
            old(self).wf(),
            m.wf(),
        ensures
            final(self).wf(),
            final(self).circuit == Some(m),
            final(self).selected == SelectedElement::Nothing,
            final(self).adding is Idle,
            final(self).simulator == old(self).simulator,
    {
        self.circuit = Some(m);
        self.selected = SelectedElement::Nothing;
        self.adding = AddingElement::Idle;
    }

    /// Replaces the authored circuit by a fresh empty one.
    pub fn new_circuit(&mut self)
        requires
            old(self).wf(),
        ensures
            final(self).wf(),
            final(self).circuit is Some,
            final(self).circuit->0.inputs@.len() == 0,
            final(self).circuit->0.outputs@.len() == 0,
            final(self).circuit->0.components@.len() == 0,
            final(self).circuit->0.value_list_len == 0,
            final(self).selected == SelectedElement::Nothing,
            final(self).adding is Idle,
            final(self).simulator == old(self).simulator,
    {
        let m = CircuitModel::new();
        self.load_model(m);
    }

    /// Starts a session over a snapshot of the loaded circuit, with every
    /// slot at `false`. With no circuit present, or with a session already
    /// running, this is a no-op: the editor is unchanged. Starting discards
    /// any uncommitted draft.
    pub fn start_simulation(&mut self)
        requires
            old(self).wf(),
        ensures
            final(self).wf(),
            final(self).circuit == old(self).circuit,
            final(self).selected == old(self).selected,
            old(self).circuit is None ==> *final(self) == *old(self),
            old(self).simulator is Some ==> *final(self) == *old(self),
            (old(self).circuit is Some && old(self).simulator is None) ==> {
                &&& final(self).simulator is Some
                &&& eq_model(old(self).circuit->0, final(self).simulator->0.model)
                &&& final(self).simulator->0.values@ == Seq::new(
                    old(self).circuit->0.value_list_len as nat,
                    |j: int| false,
                )
                &&& final(self).adding is Idle
            },
    {
        if self.simulator.is_none() {
            match &self.circuit {
                Some(c) => {
                    let snapshot = c.clone();
                    proof {
                        crate::model::lemma_eq_model_wf(*c, snapshot);
                    }
                    let sim = Simulator::new(snapshot);
                    proof {
                        crate::model::lemma_eq_model_wf(*c, sim.model);
                    }
                    self.simulator = Some(sim);
                    self.adding = AddingElement::Idle;
                },
                None => {},
            }
        }
    }

    /// Stops and discards any running session; the authored circuit is
    /// unaffected.
    pub fn stop_simulation(&mut self)
        requires
            old(self).wf(),
        ensures
            final(self).wf(),
            final(self).simulator is None,
            final(self).circuit == old(self).circuit,
            final(self).selected == old(self).selected,
            final(self).adding == old(self).adding,
    {
        self.simulator = None;
    }

    /// One scheduling tick: a running session advances by exactly one
    /// propagation step before any value is read this frame; everything
    /// else is untouched. With no session this does nothing.
    pub fn frame_tick(&mut self)
        requires
            old(self).wf(),
        ensures
            final(self).wf(),
            final(self).circuit == old(self).circuit,
            final(self).selected == old(self).selected,
            final(self).adding == old(self).adding,
            old(self).simulator is None ==> *final(self) == *old(self),
            old(self).simulator is Some ==> {
                &&& final(self).simulator is Some
                &&& final(self).simulator->0.model == old(self).simulator->0.model
                &&& final(self).simulator->0.values@ == step_model(
                    old(self).simulator->0.model,
                    old(self).simulator->0.values@,
                )
            },
    {
        match &mut self.simulator {
            Some(sim) => {
                sim.simulate();
            },
            None => {},
        }
    }

    /// Selects the input at position `index` of the loaded circuit.
    pub fn select_input(&mut self, index: usize)
        requires
            old(self).wf(),
            old(self).circuit is Some,
            (index as nat) < old(self).circuit->0.inputs@.len(),
        ensures
            final(self).wf(),
            final(self).selected == SelectedElement::InputAt(index),
            final(self).circuit == old(self).circuit,
            final(self).adding == old(self).adding,
            final(self).simulator == old(self).simulator,
    {
        self.selected = SelectedElement::InputAt(index);
    }

    /// Selects the output at position `index` of the loaded circuit.
    pub fn select_output(&mut self, index: usize)
        requires
            old(self).wf(),
            old(self).circuit is Some,
            (index as nat) < old(self).circuit->0.outputs@.len(),
        ensures
            final(self).wf(),
            final(self).selected == SelectedElement::OutputAt(index),
            final(self).circuit == old(self).circuit,
            final(self).adding == old(self).adding,
            final(self).simulator == old(self).simulator,
    {
        self.selected = SelectedElement::OutputAt(index);
    }

    /// Selects the component at position `index` of the loaded circuit.
    pub fn select_component(&mut self, index: usize)
        requires
            old(self).wf(),
            old(self).circuit is Some,
            (index as nat) < old(self).circuit->0.components@.len(),
        ensures
            final(self).wf(),
            final(self).selected == SelectedElement::ComponentAt(index),
            final(self).circuit == old(self).circuit,
            final(self).adding == old(self).adding,
            final(self).simulator == old(self).simulator,
    {
        self.selected = SelectedElement::ComponentAt(index);
    }

    /// Enters the add-input workflow, discarding any other draft. Without a
    /// loaded circuit, or while a session runs, this is a no-op.
    pub fn begin_add_input(&mut self)
        requires
            old(self).wf(),
        ensures
            final(self).wf(),
            old(self).can_author() ==> final(self).adding is AddInput,
            !old(self).can_author() ==> *final(self) == *old(self),
            final(self).circuit == old(self).circuit,
            final(self).selected == old(self).selected,
            final(self).simulator == old(self).simulator,
    {
        if self.circuit.is_some() && self.simulator.is_none() {
            self.adding = AddingElement::AddInput;
        }
    }

    /// Enters the add-output workflow with candidate slot `0`, discarding
    /// any other draft. Without a loaded circuit, or while a session runs,
    /// this is a no-op.
    pub fn begin_add_output(&mut self)
        requires
            old(self).wf(),
        ensures
            final(self).wf(),
            old(self).can_author() ==> final(self).adding == AddingElement::AddOutput(0usize),
            !old(self).can_author() ==> *final(self) == *old(self),
            final(self).circuit == old(self).circuit,
            final(self).selected == old(self).selected,
            final(self).simulator == old(self).simulator,
    {
        if self.circuit.is_some() && self.simulator.is_none() {
            self.adding = AddingElement::AddOutput(0);
        }
    }

    /// Enters the add-component workflow with the default draft: an `And`
    /// function and an empty input binding list. Without a loaded circuit,
    /// or while a session runs, this is a no-op.
    pub fn begin_add_component(&mut self)
        requires
            old(self).wf(),
        ensures
            final(self).wf(),
            old(self).can_author() ==> (match final(self).adding {
                AddingElement::AddComponent(draft) => draft.function == Function::And
                    && draft.input_value_indices@.len() == 0,
                _ => false,
            }),
            !old(self).can_author() ==> *final(self) == *old(self),
            final(self).circuit == old(self).circuit,
            final(self).selected == old(self).selected,
            final(self).simulator == old(self).simulator,
    {
        if self.circuit.is_some() && self.simulator.is_none() {
            self.adding = AddingElement::AddComponent(
                ComponentDraft { function: Function::And, input_value_indices: Vec::new() },
            );
        }
    }

    /// Adjusts the add-output candidate through the bounded selector: the
    /// selector's maximum is always `value_list_len - 1`, so the stored
    /// candidate is the requested value clamped to `[0, value_list_len - 1]`.
    /// Outside the add-output workflow, or with an empty value space, this
    /// is a no-op.
    pub fn set_output_candidate(&mut self, candidate: usize)
        requires
            old(self).wf(),
        ensures
            final(self).wf(),
            final(self).circuit == old(self).circuit,
            final(self).selected == old(self).selected,
            final(self).simulator == old(self).simulator,
            (match old(self).adding {
                AddingElement::AddOutput(_) => old(self).circuit->0.value_list_len > 0,
                _ => false,
            }) ==> {
                let max = (old(self).circuit->0.value_list_len - 1) as usize;
                final(self).adding == AddingElement::AddOutput(
                    if candidate < max {
                        candidate
                    } else {
                        max
                    },
                )
            },
            !(match old(self).adding {
                AddingElement::AddOutput(_) => old(self).circuit->0.value_list_len > 0,
                _ => false,
            }) ==> *final(self) == *old(self),
    {
        match &self.adding {
            AddingElement::AddOutput(_) => {
                match &self.circuit {
                    Some(c) => {
                        if c.value_list_len > 0 {
                            let max = c.value_list_len - 1;
                            let chosen = if candidate < max {
                                candidate
                            } else {
                                max
                            };
                            self.adding = AddingElement::AddOutput(chosen);
                        }
                    },
                    None => {},
                }
            },
            _ => {},
        }
    }
}

} // verus!

verus! {

impl Editor {
    /// A confirmation is legal: a circuit is loaded, no session runs, and an
    /// add-element workflow is active.
    pub open spec fn confirm_legal(self) -> bool {
        self.can_author() && !(self.adding is Idle)
    }

    /// The active workflow's bindings can be committed: an input needs room
    /// for one more slot; an output candidate must tap an existing slot; a
    /// component draft's input list must match its function's arity, every
    /// entry must be an existing slot, and the value space must have room
    /// for the function's output and owned slots.
    pub open spec fn binding_ok(self) -> bool {
        match self.adding {
            AddingElement::Idle => false,
            AddingElement::AddInput => self.circuit->0.value_list_len < usize::MAX,
            AddingElement::AddOutput(cand) => self.circuit->0.value_list_len > 0 && (cand as nat)
                < self.circuit->0.value_list_len as nat,
            AddingElement::AddComponent(d) => {
                &&& d.input_value_indices@.len() == d.function.arity()
                &&& forall|j: int|
                    0 <= j < d.input_value_indices@.len() ==> (
                    #[trigger] d.input_value_indices@[j] as nat) < self.circuit->0.value_list_len
                        as nat
                &&& self.circuit->0.value_list_len + d.function.out_count()
                    + d.function.owned_count() <= usize::MAX
            },
        }
    }

    /// Replaces the draft component's function when the chosen variant
    /// differs from the current one (compared by variant alone), resizing
    /// the input binding list to the new arity: the overlapping prefix is
    /// preserved and any extension is padded with slot `0`. Choosing the
    /// same variant again, or calling this outside the add-component
    /// workflow, changes nothing, so redrawing a frame never discards
    /// user-entered bindings.
    pub fn set_draft_function(&mut self, f: Function)
        requires
            old(self).wf(),
            f.wf(),
        ensures
            final(self).wf(),
            final(self).circuit == old(self).circuit,
            final(self).selected == old(self).selected,
            final(self).simulator == old(self).simulator,
            (match old(self).adding {
                AddingElement::AddComponent(d) => d.function.kind() != f.kind(),
                _ => false,
            }) ==> (match (old(self).adding, final(self).adding) {
                (AddingElement::AddComponent(d0), AddingElement::AddComponent(d1)) => {
                    &&& d1.function == f
                    &&& d1.input_value_indices@.len() == f.arity()
                    &&& forall|j: int|
                        0 <= j < f.arity() && j < d0.input_value_indices@.len()
                            ==> d1.input_value_indices@[j] == d0.input_value_indices@[j]
                    &&& forall|j: int|
                        d0.input_value_indices@.len() <= j < f.arity()
                            ==> d1.input_value_indices@[j] == 0
                },
                _ => false,
            }),
            !(match old(self).adding {
                AddingElement::AddComponent(d) => d.function.kind() != f.kind(),
                _ => false,
            }) ==> *final(self) == *old(self),
    {
        match &mut self.adding {
            AddingElement::AddComponent(draft) => {
                if draft.function.kind_index() != f.kind_index() {
                    let arity = f.input_value_count();
                    draft.function = f;
                    resize_indices(&mut draft.input_value_indices, arity);
                }
            },
            _ => {},
        }
    }

    /// Adjusts one entry of the draft component's input bindings through
    /// the bounded per-entry selector: the stored value is the requested
    /// one clamped to `[0, value_list_len - 1]`. Outside the add-component
    /// workflow, with an out-of-range entry position, or with an empty
    /// value space, this is a no-op.
    pub fn set_draft_input_index(&mut self, slot: usize, value: usize)
        requires
            old(self).wf(),
        ensures
            final(self).wf(),
            final(self).circuit == old(self).circuit,
            final(self).selected == old(self).selected,
            final(self).simulator == old(self).simulator,
            (match old(self).adding {
                AddingElement::AddComponent(d) => (slot as nat) < d.input_value_indices@.len()
                    && old(self).circuit->0.value_list_len > 0,
                _ => false,
            }) ==> (match (old(self).adding, final(self).adding) {
                (AddingElement::AddComponent(d0), AddingElement::AddComponent(d1)) => {
                    let max = (old(self).circuit->0.value_list_len - 1) as usize;
                    &&& d1.function == d0.function
                    &&& d1.input_value_indices@ == d0.input_value_indices@.update(
                        slot as int,
                        if value < max {
                            value
                        } else {
                            max
                        },
                    )
                },
                _ => false,
            }),
            !(match old(self).adding {
                AddingElement::AddComponent(d) => (slot as nat) < d.input_value_indices@.len()
                    && old(self).circuit->0.value_list_len > 0,
                _ => false,
            }) ==> *final(self) == *old(self),
    {
        match &mut self.adding {
            AddingElement::AddComponent(draft) => {
                match &self.circuit {
                    Some(c) => {
                        if slot < draft.input_value_indices.len() && c.value_list_len > 0 {
                            let max = c.value_list_len - 1;
                            let chosen = if value < max {
                                value
                            } else {
                                max
                            };
                            draft.input_value_indices[slot] = chosen;
                        }
                    },
                    None => {},
                }
            },
            _ => {},
        }
    }

    /// Replaces the nested model of a draft whose function is the `Circuit`
    /// variant, re-deriving the arity from the new model's input count and
    /// resizing the input binding list accordingly (prefix preserved, zero
    /// padded). Outside that situation this is a no-op.
    pub fn load_draft_circuit(&mut self, m: CircuitModel)
        requires
            old(self).wf(),
            m.wf(),
        ensures
            final(self).wf(),
            final(self).circuit == old(self).circuit,
            final(self).selected == old(self).selected,
            final(self).simulator == old(self).simulator,
            (match old(self).adding {
                AddingElement::AddComponent(d) => d.function is Circuit,
                _ => false,
            }) ==> (match (old(self).adding, final(self).adding) {
                (AddingElement::AddComponent(d0), AddingElement::AddComponent(d1)) => {
                    &&& d1.function == Function::Circuit(m)
                    &&& d1.input_value_indices@.len() == m.inputs@.len()
                    &&& forall|j: int|
                        0 <= j < m.inputs@.len() && j < d0.input_value_indices@.len()
                            ==> d1.input_value_indices@[j] == d0.input_value_indices@[j]
                    &&& forall|j: int|
                        d0.input_value_indices@.len() <= j < m.inputs@.len()
                            ==> d1.input_value_indices@[j] == 0
                },
                _ => false,
            }),
            !(match old(self).adding {
                AddingElement::AddComponent(d) => d.function is Circuit,
                _ => false,
            }) ==> *final(self) == *old(self),
    {
        match &mut self.adding {
            AddingElement::AddComponent(draft) => {
                match &draft.function {
                    Function::Circuit(_) => {
                        let arity = m.inputs.len();
                        draft.function = Function::Circuit(m);
                        resize_indices(&mut draft.input_value_indices, arity);
                    },
                    _ => {},
                }
            },
            _ => {},
        }
    }

    /// Commits the active workflow to the circuit, all-or-nothing, and
    /// returns to the idle mode on success. A confirmation outside a legal
    /// mode reports `IllegalModeTransition`; one whose bindings cannot be
    /// committed reports `InvalidBinding`; either way the editor is
    /// unchanged. On success the circuit changes exactly as the matching
    /// add operation describes: a new input taps a fresh slot and grows the
    /// value space by one; a new output taps the candidate slot and grows
    /// nothing; a new component grows the value space by its function's
    /// output and owned counts.
    pub fn confirm_add(&mut self) -> (r: Result<(), AuthoringError>)
        requires
            old(self).wf(),
        ensures
            final(self).wf(),
            final(self).selected == old(self).selected,
            final(self).simulator == old(self).simulator,
            r is Ok <==> (old(self).confirm_legal() && old(self).binding_ok()),
            !old(self).confirm_legal() ==> (r == Err::<(), AuthoringError>(
                AuthoringError::IllegalModeTransition,
            ) && *final(self) == *old(self)),
            (old(self).confirm_legal() && !old(self).binding_ok()) ==> (r == Err::<(
            ), AuthoringError>(AuthoringError::InvalidBinding) && *final(self) == *old(self)),
            r is Ok ==> (final(self).adding is Idle && final(self).circuit is Some && old(
                self,
            ).circuit is Some),
            (r is Ok && old(self).adding is AddInput) ==> {
                let c0 = old(self).circuit->0;
                let c1 = final(self).circuit->0;
                &&& c1.value_list_len == c0.value_list_len + 1
                &&& c1.inputs@ == c0.inputs@.push(
                    crate::model::Input { value_index: c0.value_list_len },
                )
                &&& c1.outputs@ == c0.outputs@
                &&& c1.components@ == c0.components@
            },
            (r is Ok ==> (old(self).adding matches AddingElement::AddOutput(cand) ==> {
                let c0 = old(self).circuit->0;
                let c1 = final(self).circuit->0;
                &&& c1.value_list_len == c0.value_list_len
                &&& c1.outputs@ == c0.outputs@.push(crate::model::Output { value_index: cand })
                &&& c1.inputs@ == c0.inputs@
                &&& c1.components@ == c0.components@
            })),
            (r is Ok ==> (old(self).adding matches AddingElement::AddComponent(d) ==> {
                let c0 = old(self).circuit->0;
                let c1 = final(self).circuit->0;
                &&& c1.value_list_len == c0.value_list_len + d.function.out_count()
                    + d.function.owned_count()
                &&& c1.inputs@ == c0.inputs@
                &&& c1.outputs@ == c0.outputs@
                &&& c1.components@.len() == c0.components@.len() + 1
                &&& c1.components@.subrange(0, c0.components@.len() as int) == c0.components@
                &&& c1.components@.last().function == d.function
                &&& c1.components@.last().input_value_indices@ == d.input_value_indices@
                &&& c1.components@.last().output_value_indices@ == Seq::new(
                    d.function.out_count(),
                    |j: int| (c0.value_list_len + j) as usize,
                )
                &&& c1.components@.last().owned_value_indices@ == Seq::new(
                    d.function.owned_count(),
                    |j: int| (c0.value_list_len + d.function.out_count() + j) as usize,
                )
            })),
    {
        if self.circuit.is_none() || self.simulator.is_some() {
            return Err(AuthoringError::IllegalModeTransition);
        }
        let binding_fits: bool = match (&self.adding, &self.circuit) {
            (AddingElement::Idle, _) => {
                return Err(AuthoringError::IllegalModeTransition);
            },
            (AddingElement::AddInput, Some(c)) => c.value_list_len < usize::MAX,
            (AddingElement::AddOutput(cand), Some(c)) => *cand < c.value_list_len,
            (AddingElement::AddComponent(d), Some(c)) => {
                let arity = d.function.input_value_count();
                let outc = d.function.output_value_count();
                let ownc = d.function.owned_value_count();
                d.input_value_indices.len() == arity && all_below(
                    &d.input_value_indices,
                    c.value_list_len,
                ) && outc <= usize::MAX - c.value_list_len && ownc <= usize::MAX
                    - c.value_list_len - outc
            },
            (_, None) => {
                return Err(AuthoringError::IllegalModeTransition);
            },
        };
        if !binding_fits {
            return Err(AuthoringError::InvalidBinding);
        }
        let mut taken = AddingElement::Idle;
        core::mem::swap(&mut self.adding, &mut taken);
        match taken {
            AddingElement::Idle => {},
            AddingElement::AddInput => {
                match &mut self.circuit {
                    Some(c) => {
                        c.add_input();
                    },
                    None => {},
                }
            },
            AddingElement::AddOutput(cand) => {
                match &mut self.circuit {
                    Some(c) => {
                        c.add_output(cand);
                    },
                    None => {},
                }
            },
            AddingElement::AddComponent(d) => {
                match &mut self.circuit {
                    Some(c) => {
                        c.add_component(d.function, d.input_value_indices);
                    },
                    None => {},
                }
            },
        }
        Ok(())
    }
}

/// Resizes an index list to `n` entries: the overlapping prefix is kept and
/// any extension is padded with slot `0`.
fn resize_indices(v: &mut Vec<usize>, n: usize)
    ensures
        final(v)@.len() == n,
        forall|j: int|
            0 <= j < n && j < old(v)@.len() ==> #[trigger] final(v)@[j] == old(v)@[j],
        forall|j: int| old(v)@.len() <= j < n ==> #[trigger] final(v)@[j] == 0,
{
    let mut r: Vec<usize> = Vec::new();
    let mut j: usize = 0;
    while j < n
        invariant
            j <= n,
            r@.len() == j,
            forall|k: int|
                0 <= k < j ==> #[trigger] r@[k] == (if k < v@.len() {
                    v@[k]
                } else {
                    0
                }),
        decreases n - j,
    {
        let x = if j < v.len() {
            v[j]
        } else {
            0
        };
        r.push(x);
        j = j + 1;
    }
    *v = r;
}

} // verus!
