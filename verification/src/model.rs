//! The authored circuit: ordered collections of inputs, outputs and
//! components, each bound by integer index into a shared value space of
//! boolean signal slots whose length is `value_list_len`.
//!
//! The central invariant, [`CircuitModel::wf`], is that every index appearing
//! in any binding is below `value_list_len`, and that every component's input
//! binding list has exactly the length its function's arity demands. All
//! mutating operations preserve it.

use vstd::prelude::*;

verus! {

/// An externally settable signal source. It owns exactly one value slot,
/// allocated when the input is added.
#[derive(Clone, Copy, PartialEq, Eq, Structural, Debug)]
pub struct Input {
    pub value_index: usize,
}

/// An observation point. It taps one existing value slot and allocates none.
#[derive(Clone, Copy, PartialEq, Eq, Structural, Debug)]
pub struct Output {
    pub value_index: usize,
}

/// The closed catalog of selectable component behaviors. `Circuit` embeds a
/// fully independent nested model used as a single component.
#[verifier::ext_equal]
pub enum Function {
    And,
    Or,
    Not,
    Nand,
    Nor,
    Circuit(CircuitModel),
    FlipFlopRS,
    FlipFlopJK,
    FlipFlopD,
    FlipFlopT,
}

/// An instance of a function wired into the value space: an input binding per
/// arity slot, one binding per produced output, and private owned slots for
/// internal state.
#[verifier::ext_equal]
pub struct Component {
    pub function: Function,
    pub input_value_indices: Vec<usize>,
    pub output_value_indices: Vec<usize>,
    pub owned_value_indices: Vec<usize>,
}

/// The authored circuit aggregate. `value_list_len` is the length of the
/// shared value space all bindings refer into.
#[verifier::ext_equal]
pub struct CircuitModel {
    pub inputs: Vec<Input>,
    pub outputs: Vec<Output>,
    pub components: Vec<Component>,
    pub value_list_len: usize,
}

impl Function {
    /// How many input slots this function reads. A nested circuit reads one
    /// per input of the nested model.
    pub open spec fn arity(self) -> nat {
        match self {
            Function::And => 2,
            Function::Or => 2,
            Function::Not => 1,
            Function::Nand => 2,
            Function::Nor => 2,
            Function::Circuit(c) => c.inputs@.len(),
            Function::FlipFlopRS => 2,
            Function::FlipFlopJK => 3,
            Function::FlipFlopD => 2,
            Function::FlipFlopT => 2,
        }
    }

    /// How many output slots this function drives. A nested circuit drives
    /// one per output of the nested model.
    pub open spec fn out_count(self) -> nat {
        match self {
            Function::Circuit(c) => c.outputs@.len(),
            Function::Not => 1,
            Function::And => 1,
            Function::Or => 1,
            Function::Nand => 1,
            Function::Nor => 1,
            Function::FlipFlopRS => 1,
            Function::FlipFlopJK => 1,
            Function::FlipFlopD => 1,
            Function::FlipFlopT => 1,
        }
    }

    /// How many private state slots this function owns: one memory slot for
    /// each flip-flop kind, none for a gate, and a full private copy of the
    /// nested value space for an embedded circuit.
    pub open spec fn owned_count(self) -> nat {
        match self {
            Function::Circuit(c) => c.value_list_len as nat,
            Function::FlipFlopRS => 1,
            Function::FlipFlopJK => 1,
            Function::FlipFlopD => 1,
            Function::FlipFlopT => 1,
            Function::And => 0,
            Function::Or => 0,
            Function::Not => 0,
            Function::Nand => 0,
            Function::Nor => 0,
        }
    }

    /// Position of this function's variant in the fixed catalog order, used
    /// to compare two functions by variant alone, ignoring any payload.
    pub open spec fn kind(self) -> int {
        match self {
            Function::And => 0,
            Function::Or => 1,
            Function::Not => 2,
            Function::Nand => 3,
            Function::Nor => 4,
            Function::Circuit(_) => 5,
            Function::FlipFlopRS => 6,
            Function::FlipFlopJK => 7,
            Function::FlipFlopD => 8,
            Function::FlipFlopT => 9,
        }
    }

    /// A function is well formed when any nested model it embeds is.
    pub open spec fn wf(self) -> bool
        decreases self,
    {
        match self {
            Function::Circuit(c) => c.wf(),
            _ => true,
        }
    }

    /// Executable arity lookup.
    pub fn input_value_count(&self) -> (r: usize)
        ensures
            r as nat == self.arity(),
    {
        match self {
            Function::And => 2,
            Function::Or => 2,
            Function::Not => 1,
            Function::Nand => 2,
            Function::Nor => 2,
            Function::Circuit(c) => c.inputs.len(),
            Function::FlipFlopRS => 2,
            Function::FlipFlopJK => 3,
            Function::FlipFlopD => 2,
            Function::FlipFlopT => 2,
        }
    }

    /// Executable output-count lookup.
    pub fn output_value_count(&self) -> (r: usize)
        ensures
            r as nat == self.out_count(),
    {
        match self {
            Function::Circuit(c) => c.outputs.len(),
            _ => 1,
        }
    }

    /// Executable owned-state-count lookup.
    pub fn owned_value_count(&self) -> (r: usize)
        ensures
            r as nat == self.owned_count(),
    {
        match self {
            Function::Circuit(c) => c.value_list_len,
            Function::FlipFlopRS => 1,
            Function::FlipFlopJK => 1,
            Function::FlipFlopD => 1,
            Function::FlipFlopT => 1,
            _ => 0,
        }
    }

    /// Executable catalog position, for comparing variants by tag.
    pub fn kind_index(&self) -> (r: usize)
        ensures
            r as int == self.kind(),
    {
        match self {
            Function::And => 0,
            Function::Or => 1,
            Function::Not => 2,
            Function::Nand => 3,
            Function::Nor => 4,
            Function::Circuit(_) => 5,
            Function::FlipFlopRS => 6,
            Function::FlipFlopJK => 7,
            Function::FlipFlopD => 8,
            Function::FlipFlopT => 9,
        }
    }
}

impl Component {
    /// All bindings of this component lie below `len`, its input binding list
    /// matches its function's arity, its output and owned lists match the
    /// function's declared counts, and any nested model is well formed.
    pub open spec fn wf(self, len: nat) -> bool
        decreases self,
    {
        &&& self.function.wf()
        &&& self.input_value_indices@.len() == self.function.arity()
        &&& self.output_value_indices@.len() == self.function.out_count()
        &&& self.owned_value_indices@.len() == self.function.owned_count()
        &&& forall|j: int|
            0 <= j < self.input_value_indices@.len() ==> (
            #[trigger] self.input_value_indices@[j] as nat) < len
        &&& forall|j: int|
            0 <= j < self.output_value_indices@.len() ==> (
            #[trigger] self.output_value_indices@[j] as nat) < len
        &&& forall|j: int|
            0 <= j < self.owned_value_indices@.len() ==> (
            #[trigger] self.owned_value_indices@[j] as nat) < len
    }
}

impl CircuitModel {
    /// Every index bound anywhere in the model lies below `value_list_len`,
    /// and every component is internally consistent.
    pub open spec fn wf(self) -> bool
        decreases self,
    {
        &&& forall|i: int|
            0 <= i < self.inputs@.len() ==> (
            #[trigger] self.inputs@[i].value_index as nat) < self.value_list_len as nat
        &&& forall|i: int|
            0 <= i < self.outputs@.len() ==> (
            #[trigger] self.outputs@[i].value_index as nat) < self.value_list_len as nat
        &&& forall|i: int|
            0 <= i < self.components@.len() ==> (#[trigger] self.components@[i]).wf(
                self.value_list_len as nat,
            )
    }

    /// A fresh, empty circuit with an empty value space.
    pub fn new() -> (r: CircuitModel)
        ensures
            r.inputs@.len() == 0,
            r.outputs@.len() == 0,
            r.components@.len() == 0,
            r.value_list_len == 0,
            r.wf(),
    {
        CircuitModel { inputs: Vec::new(), outputs: Vec::new(), components: Vec::new(), value_list_len: 0 }
    }

    /// Appends a new input bound to a freshly allocated slot: the new input's
    /// index equals the old value-space length, which grows by exactly one.
    pub fn add_input(&mut self)
        requires
            old(self).wf(),
            old(self).value_list_len < usize::MAX,
        ensures
            final(self).wf(),
            final(self).value_list_len == old(self).value_list_len + 1,
            final(self).inputs@ == old(self).inputs@.push(
                Input { value_index: old(self).value_list_len },
            ),
            final(self).outputs@ == old(self).outputs@,
            final(self).components@ == old(self).components@,
    {
        let idx = self.value_list_len;
        self.inputs.push(Input { value_index: idx });
        self.value_list_len = self.value_list_len + 1;
        proof {
            assert forall|i: int| 0 <= i < self.components@.len() implies (
            #[trigger] self.components@[i]).wf(self.value_list_len as nat) by {
                lemma_component_wf_grows(
                    self.components@[i],
                    old(self).value_list_len as nat,
                    self.value_list_len as nat,
                );
            }
        }
    }

    /// Appends a new output tapping the existing slot `value_index`; the
    /// value space does not grow.
    pub fn add_output(&mut self, value_index: usize)
        requires
            old(self).wf(),
            value_index < old(self).value_list_len,
        ensures
            final(self).wf(),
            final(self).value_list_len == old(self).value_list_len,
            final(self).outputs@ == old(self).outputs@.push(Output { value_index }),
            final(self).inputs@ == old(self).inputs@,
            final(self).components@ == old(self).components@,
    {
        self.outputs.push(Output { value_index });
    }

    /// Appends a component binding `function` and the caller's input indices,
    /// allocating fresh consecutive slots for the function's declared output
    /// and owned-state counts; the value space grows by exactly their sum.
    pub fn add_component(&mut self, function: Function, input_value_indices: Vec<usize>)
        requires
            old(self).wf(),
            function.wf(),
            input_value_indices@.len() == function.arity(),
            forall|j: int|
                0 <= j < input_value_indices@.len() ==> (
                #[trigger] input_value_indices@[j] as nat) < old(self).value_list_len as nat,
            old(self).value_list_len + function.out_count() + function.owned_count()
                <= usize::MAX,
        ensures
            final(self).wf(),
            final(self).value_list_len == old(self).value_list_len + function.out_count()
                + function.owned_count(),
            final(self).inputs@ == old(self).inputs@,
            final(self).outputs@ == old(self).outputs@,
            final(self).components@.len() == old(self).components@.len() + 1,
            final(self).components@.subrange(0, old(self).components@.len() as int) == old(
                self,
            ).components@,
            final(self).components@.last().function == function,
            final(self).components@.last().input_value_indices@ == input_value_indices@,
            final(self).components@.last().output_value_indices@ == Seq::new(
                function.out_count(),
                |j: int| (old(self).value_list_len + j) as usize,
            ),
            final(self).components@.last().owned_value_indices@ == Seq::new(
                function.owned_count(),
                |j: int| (old(self).value_list_len + function.out_count() + j) as usize,
            ),
    {
        let m = function.output_value_count();
        let p = function.owned_value_count();
        let base = self.value_list_len;
        let output_value_indices = consecutive_indices(base, m);
        let owned_value_indices = consecutive_indices(base + m, p);
        let comp = Component { function, input_value_indices, output_value_indices, owned_value_indices };
        self.components.push(comp);
        self.value_list_len = base + m + p;
        proof {
            let newlen = self.value_list_len as nat;
            assert(self.components@.last().wf(newlen));
            assert forall|i: int| 0 <= i < self.components@.len() implies (
            #[trigger] self.components@[i]).wf(newlen) by {
                if i < old(self).components@.len() {
                    assert(self.components@[i] == old(self).components@[i]);
                    lemma_component_wf_grows(
                        self.components@[i],
                        old(self).value_list_len as nat,
                        newlen,
                    );
                }
            }
            assert(self.components@.subrange(0, old(self).components@.len() as int) =~= old(
                self,
            ).components@);
        }
    }
}

/// A component whose bindings fit a value space of length `len` still fits
/// any longer one: growing the space never invalidates an existing binding.
pub proof fn lemma_component_wf_grows(c: Component, len: nat, longer: nat)
    requires
        c.wf(len),
        len <= longer,
    ensures
        c.wf(longer),
{
}

/// The slots `start`, `start + 1`, ..., `start + count - 1`, in order; this
/// is how an add operation allocates fresh consecutive indices.
fn consecutive_indices(start: usize, count: usize) -> (r: Vec<usize>)
    requires
        start + count <= usize::MAX,
    ensures
        r@ == Seq::new(count as nat, |j: int| (start + j) as usize),
{
    let mut r: Vec<usize> = Vec::new();
    let mut j: usize = 0;
    while j < count
        invariant
            j <= count,
            start + count <= usize::MAX,
            r@.len() == j,
            forall|k: int| 0 <= k < j ==> #[trigger] r@[k] == (start + k) as usize,
        decreases count - j,
    {
        r.push(start + j);
        j = j + 1;
    }
    proof {
        assert(r@ =~= Seq::new(count as nat, |j: int| (start + j) as usize));
    }
    r
}

} // verus!

verus! {

/// Two functions hold the same mathematical value: the same variant, and for
/// an embedded circuit, structurally identical nested models.
pub open spec fn eq_function(a: Function, b: Function) -> bool
    decreases a,
{
    match (a, b) {
        (Function::Circuit(c), Function::Circuit(d)) => eq_model(c, d),
        _ => a.kind() == b.kind(),
    }
}

/// Two components hold the same mathematical value: equal functions and
/// identical binding lists.
pub open spec fn eq_component(a: Component, b: Component) -> bool
    decreases a,
{
    &&& eq_function(a.function, b.function)
    &&& a.input_value_indices@ == b.input_value_indices@
    &&& a.output_value_indices@ == b.output_value_indices@
    &&& a.owned_value_indices@ == b.owned_value_indices@
}

/// Two circuit models hold the same mathematical value: identical element
/// lists (components compared structurally) and equal value-space lengths.
pub open spec fn eq_model(a: CircuitModel, b: CircuitModel) -> bool
    decreases a,
{
    &&& a.inputs@ == b.inputs@
    &&& a.outputs@ == b.outputs@
    &&& a.value_list_len == b.value_list_len
    &&& a.components@.len() == b.components@.len()
    &&& forall|i: int|
        0 <= i < a.components@.len() ==> eq_component(
            #[trigger] a.components@[i],
            b.components@[i],
        )
}

/// Structurally equal functions agree on every catalog attribute, and
/// well-formedness carries over.
pub proof fn lemma_eq_function_attrs(a: Function, b: Function)
    requires
        eq_function(a, b),
    ensures
        a.kind() == b.kind(),
        a.arity() == b.arity(),
        a.out_count() == b.out_count(),
        a.owned_count() == b.owned_count(),
        a.wf() ==> b.wf(),
    decreases a,
{
    match (a, b) {
        (Function::Circuit(c), Function::Circuit(d)) => {
            lemma_eq_model_wf(c, d);
        },
        _ => {},
    }
}

/// Structural equality of components carries well-formedness over, at any
/// value-space length.
pub proof fn lemma_eq_component_wf(a: Component, b: Component, len: nat)
    requires
        eq_component(a, b),
    ensures
        a.wf(len) ==> b.wf(len),
    decreases a,
{
    lemma_eq_function_attrs(a.function, b.function);
}

/// Structural equality of models carries well-formedness over.
pub proof fn lemma_eq_model_wf(a: CircuitModel, b: CircuitModel)
    requires
        eq_model(a, b),
    ensures
        a.wf() ==> b.wf(),
    decreases a,
{
    if a.wf() {
        assert forall|i: int| 0 <= i < b.components@.len() implies (
        #[trigger] b.components@[i]).wf(b.value_list_len as nat) by {
            lemma_eq_component_wf(
                a.components@[i],
                b.components@[i],
                a.value_list_len as nat,
            );
        }
    }
}




impl Clone for Function {
    /// A deep copy, structurally equal to the original, so a simulation
    /// snapshot holds exactly the authored value.
    fn clone(&self) -> (res: Self)
        ensures
            eq_function(*self, res),
        decreases self,
    {
        let res = match self {
            Function::And => Function::And,
            Function::Or => Function::Or,
            Function::Not => Function::Not,
            Function::Nand => Function::Nand,
            Function::Nor => Function::Nor,
            Function::Circuit(c) => Function::Circuit(c.clone()),
            Function::FlipFlopRS => Function::FlipFlopRS,
            Function::FlipFlopJK => Function::FlipFlopJK,
            Function::FlipFlopD => Function::FlipFlopD,
            Function::FlipFlopT => Function::FlipFlopT,
        };
        res
    }
}

impl Clone for Component {
    /// A deep copy, structurally equal to the original.
    fn clone(&self) -> (res: Self)
        ensures
            eq_component(*self, res),
        decreases self,
    {
        let res = Component {
            function: self.function.clone(),
            input_value_indices: self.input_value_indices.clone(),
            output_value_indices: self.output_value_indices.clone(),
            owned_value_indices: self.owned_value_indices.clone(),
        };
        proof {
            assert(res.input_value_indices@ =~= self.input_value_indices@);
            assert(res.output_value_indices@ =~= self.output_value_indices@);
            assert(res.owned_value_indices@ =~= self.owned_value_indices@);
        }
        res
    }
}

/// An elementwise deep copy of a component list.
fn clone_components(v: &Vec<Component>) -> (r: Vec<Component>)
    ensures
        r@.len() == v@.len(),
        forall|k: int| 0 <= k < v@.len() ==> eq_component(#[trigger] v@[k], r@[k]),
    decreases v,
{
    let mut r: Vec<Component> = Vec::new();
    let n = v.len();
    let mut i: usize = 0;
    while i < n
        invariant
            i <= n,
            n == v@.len(),
            r@.len() == i,
            forall|k: int| 0 <= k < i ==> eq_component(#[trigger] v@[k], r@[k]),
        decreases n - i,
    {
        proof {
            assert(decreases_to!(v => v@[i as int]));
        }
        r.push(v[i].clone());
        i = i + 1;
    }
    r
}

impl Clone for CircuitModel {
    /// A deep copy, structurally equal to the original; well-formedness
    /// carries over to the copy.
    fn clone(&self) -> (res: Self)
        ensures
            eq_model(*self, res),
            self.wf() ==> res.wf(),
        decreases self,
    {
        let res = CircuitModel {
            inputs: self.inputs.clone(),
            outputs: self.outputs.clone(),
            components: clone_components(&self.components),
            value_list_len: self.value_list_len,
        };
        proof {
            assert(res.inputs@ =~= self.inputs@);
            assert(res.outputs@ =~= self.outputs@);
            assert(eq_model(*self, res));
            lemma_eq_model_wf(*self, res);
        }
        res
    }
}


/// Whether every entry of `v` lies below `bound`.
pub fn all_below(v: &Vec<usize>, bound: usize) -> (r: bool)
    ensures
        r == forall|j: int| 0 <= j < v@.len() ==> (#[trigger] v@[j] as nat) < bound as nat,
{
    let n = v.len();
    let mut i: usize = 0;
    while i < n
        invariant
            i <= n,
            n == v@.len(),
            forall|k: int| 0 <= k < i ==> (#[trigger] v@[k] as nat) < bound as nat,
        decreases n - i,
    {
        if v[i] >= bound {
            return false;
        }
        i = i + 1;
    }
    true
}

} // verus!

verus! {

impl CircuitModel {
    /// The ordered input collection.
    pub fn all_inputs(&self) -> (r: &Vec<Input>)
        ensures
            r@ == self.inputs@,
    {
        &self.inputs
    }

    /// The ordered output collection.
    pub fn all_outputs(&self) -> (r: &Vec<Output>)
        ensures
            r@ == self.outputs@,
    {
        &self.outputs
    }

    /// The ordered component collection.
    pub fn all_components(&self) -> (r: &Vec<Component>)
        ensures
            r@ == self.components@,
    {
        &self.components
    }

    /// The input at position `index`.
    pub fn input(&self, index: usize) -> (r: &Input)
        requires
            (index as nat) < self.inputs@.len(),
        ensures
            *r == self.inputs@[index as int],
    {
        &self.inputs[index]
    }

    /// The output at position `index`.
    pub fn output(&self, index: usize) -> (r: &Output)
        requires
            (index as nat) < self.outputs@.len(),
        ensures
            *r == self.outputs@[index as int],
    {
        &self.outputs[index]
    }

    /// The component at position `index`.
    pub fn component(&self, index: usize) -> (r: &Component)
        requires
            (index as nat) < self.components@.len(),
        ensures
            *r == self.components@[index as int],
    {
        &self.components[index]
    }

    /// The length of the value space.
    pub fn value_list_len(&self) -> (r: usize)
        ensures
            r == self.value_list_len,
    {
        self.value_list_len
    }
}

impl Input {
    /// The slot this input owns.
    pub fn value_index(&self) -> (r: usize)
        ensures
            r == self.value_index,
    {
        self.value_index
    }
}

impl Output {
    /// The slot this output taps.
    pub fn value_index(&self) -> (r: usize)
        ensures
            r == self.value_index,
    {
        self.value_index
    }
}

impl Component {
    /// This component's function.
    pub fn function(&self) -> (r: &Function)
        ensures
            *r == self.function,
    {
        &self.function
    }

    /// The slots this component reads, in arity order.
    pub fn input_value_indices(&self) -> (r: &Vec<usize>)
        ensures
            r@ == self.input_value_indices@,
    {
        &self.input_value_indices
    }

    /// The slots this component drives, in order.
    pub fn output_value_indices(&self) -> (r: &Vec<usize>)
        ensures
            r@ == self.output_value_indices@,
    {
        &self.output_value_indices
    }

    /// The private state slots this component owns.
    pub fn owned_value_indices(&self) -> (r: &Vec<usize>)
        ensures
            r@ == self.owned_value_indices@,
    {
        &self.owned_value_indices
    }
}

} // verus!
