use crate::host::{
    find_function, input_at, input_count, invoke, output_at, output_count, pop_result,
    push_argument, result_type_hash, value_type_hash,
};
use crate::lookup::entry_get;
use crate::script::{opt_chars, VnAction, VnResult};
use crate::value::{clone_value, ValueModel, VnValue};
use vstd::prelude::*;

verus! {

/// How a native function's declared signature breaks the calling contract.
#[derive(Debug)]
pub enum SignatureError {
    /// It does not declare exactly one output.
    OutputCount,
    /// Its one output, named here, is not a control result.
    OutputType(String),
    /// The input named here is not a value.
    InputType(String),
}

/// A native function's signature as the dispatcher read it: each input and output by
/// name and type hash, and the type hashes of values and of control results.
#[derive(Debug)]
pub struct Signature {
    pub inputs: Vec<(String, u64)>,
    pub outputs: Vec<(String, u64)>,
    pub value_type: u64,
    pub result_type: u64,
}

/// Why an action could not be dispatched.
#[derive(Debug)]
pub enum DispatchErrorKind {
    /// No native function is registered under the action's name and module.
    NotFound,
    /// The function's signature, given second, breaks the calling contract.
    Signature(SignatureError, Signature),
    /// The context's stack refused an argument.
    ArgumentRejected,
    /// The function left no control result behind.
    NoResult,
}

/// A dispatch failure, with the action it concerns.
#[derive(Debug)]
pub struct DispatchError {
    pub name: String,
    pub module_name: Option<String>,
    pub kind: DispatchErrorKind,
}

/// The index of the last input whose type is not `value_type`.
pub open spec fn last_bad_input(inputs: Seq<(String, u64)>, value_type: u64) -> Option<int>
    decreases inputs.len(),
{
    if inputs.len() == 0 {
        None
    } else if inputs.last().1 != value_type {
        Some(inputs.len() - 1)
    } else {
        last_bad_input(inputs.drop_last(), value_type)
    }
}

/// What is wrong with a signature, if anything: not exactly one output; else an output
/// not of type `result_type`; else the last input not of type `value_type`.
pub open spec fn signature_problem(
    inputs: Seq<(String, u64)>,
    outputs: Seq<(String, u64)>,
    value_type: u64,
    result_type: u64,
) -> Option<SignatureError> {
    if outputs.len() != 1 {
        Some(SignatureError::OutputCount)
    } else if outputs[0].1 != result_type {
        Some(SignatureError::OutputType(outputs[0].0))
    } else {
        match last_bad_input(inputs, value_type) {
            Some(i) => Some(SignatureError::InputType(inputs[i].0)),
            None => None,
        }
    }
}

/// Checks a signature: exactly one output, of type `result_type`, and every input of
/// type `value_type`. Inputs are examined from last to first.
pub fn check_signature(
    inputs: &Vec<(String, u64)>,
    outputs: &Vec<(String, u64)>,
    value_type: u64,
    result_type: u64,
) -> (r: Result<(), SignatureError>)
    ensures
        r == match signature_problem(inputs@, outputs@, value_type, result_type) {
            Some(e) => Err(e),
            None => Ok(()),
        },
{
    if outputs.len() != 1 {
        return Err(SignatureError::OutputCount);
    }
    if outputs[0].1 != result_type {
        return Err(SignatureError::OutputType(outputs[0].0.clone()));
    }
    let mut i: usize = inputs.len();
    proof {
        assert(inputs@.take(i as int) =~= inputs@);
    }
    while i > 0
        invariant
            outputs.len() == 1,
            outputs@[0].1 == result_type,
            i <= inputs.len(),
            last_bad_input(inputs@, value_type) == last_bad_input(inputs@.take(i as int), value_type),
        decreases i,
    {
        proof {
            assert(inputs@.take(i as int).drop_last() =~= inputs@.take(i - 1));
        }
        if inputs[i - 1].1 != value_type {
            return Err(SignatureError::InputType(inputs[i - 1].0.clone()));
        }
        i = i - 1;
    }
    proof {
        assert(inputs@.take(0) =~= Seq::<(String, u64)>::empty());
    }
    Ok(())
}

/// What a declared input receives: the action's parameter of that name, else `Null`.
pub open spec fn bound_argument(params: Seq<(String, VnValue)>, name: Seq<char>) -> ValueModel {
    match entry_get(params, name) {
        Some(v) => v@,
        None => ValueModel::Null,
    }
}

/// The arguments for each declared input, in declaration order.
pub fn bind_arguments(params: &Vec<(String, VnValue)>, inputs: &Vec<(String, u64)>) -> (r: Vec<VnValue>)
    ensures
        r.len() == inputs.len(),
        forall|i: int| 0 <= i < inputs.len() ==> (#[trigger] r@[i])@ == bound_argument(params@, inputs@[i].0@),
{
    let mut out: Vec<VnValue> = Vec::new();
    let mut i: usize = 0;
    while i < inputs.len()
        invariant
            i <= inputs.len(),
            out.len() == i,
            forall|k: int| 0 <= k < i ==> (#[trigger] out@[k])@ == bound_argument(params@, inputs@[k].0@),
        decreases inputs.len() - i,
    {
        match crate::lookup::find_key(params, inputs[i].0.as_str()) {
            Some(j) => {
                out.push(clone_value(&params[j].1));
            },
            None => {
                out.push(VnValue::Null);
            },
        }
        i = i + 1;
    }
    out
}

fn clone_opt(o: &Option<String>) -> (r: Option<String>)
    ensures
        opt_chars(r) == opt_chars(*o),
{
    match o {
        Some(s) => Some(s.clone()),
        None => None,
    }
}

impl VnAction {
    fn fail(&self, kind: DispatchErrorKind) -> (r: DispatchError)
        ensures
            r.name@ == self.name@,
            opt_chars(r.module_name) == opt_chars(self.module_name),
            r.kind == kind,
    {
        DispatchError { name: self.name.clone(), module_name: clone_opt(&self.module_name), kind }
    }

    /// Dispatches the action to the native function registered under its name and
    /// module; see `dispatch`.
    pub fn evaluate(
        &self,
        context: &mut intuicio_essentials::core::context::Context,
        registry: &intuicio_essentials::core::registry::Registry,
    ) -> (r: Result<VnResult, DispatchError>)
        ensures
            r matches Err(e) ==> e.name@ == self.name@ && opt_chars(e.module_name) == opt_chars(
                self.module_name,
            ),
            r matches Err(e) ==> (e.kind is NotFound || e.kind is Signature) ==> *final(context)
                == *old(context),
            r matches Err(e) ==> e.kind is Signature ==> signature_problem(
                e.kind->Signature_1.inputs@,
                e.kind->Signature_1.outputs@,
                e.kind->Signature_1.value_type,
                e.kind->Signature_1.result_type,
            ) == Some(e.kind->Signature_0),
    {
        let module_name = match &self.module_name {
            Some(m) => Some(m.as_str()),
            None => None,
        };
        let function = find_function(registry, self.name.as_str(), module_name);
        self.dispatch(function, context, registry)
    }

    /// Dispatches the action to `function`, what the registry holds under the action's
    /// name and module: none is a `NotFound` error. Otherwise reads its signature and
    /// checks it (a failure carries the signature read); then pushes the arguments bound
    /// by name, last input first, runs the function and returns the control result it
    /// leaves. Nothing is run, and the context is left as it was, unless the function
    /// exists and its signature passes.
    pub fn dispatch(
        &self,
        function: Option<std::sync::Arc<intuicio_essentials::core::function::Function>>,
        context: &mut intuicio_essentials::core::context::Context,
        registry: &intuicio_essentials::core::registry::Registry,
    ) -> (r: Result<VnResult, DispatchError>)
        ensures
            r matches Err(e) ==> e.name@ == self.name@ && opt_chars(e.module_name) == opt_chars(
                self.module_name,
            ),
            function is None <==> (r matches Err(e) && e.kind is NotFound),
            function is None ==> *final(context) == *old(context),
            r matches Err(e) ==> e.kind is Signature ==> *final(context) == *old(context)
                && signature_problem(
                e.kind->Signature_1.inputs@,
                e.kind->Signature_1.outputs@,
                e.kind->Signature_1.value_type,
                e.kind->Signature_1.result_type,
            ) == Some(e.kind->Signature_0),
    {
        let native = match function {
            Some(f) => f,
            None => {
                return Err(self.fail(DispatchErrorKind::NotFound));
            },
        };
        let mut inputs: Vec<(String, u64)> = Vec::new();
        let n = input_count(&native);
        let mut i: usize = 0;
        while i < n
            decreases n - i,
        {
            match input_at(&native, i) {
                Some(p) => inputs.push(p),
                None => break,
            }
            i = i + 1;
        }
        let mut outputs: Vec<(String, u64)> = Vec::new();
        let m = output_count(&native);
        let mut j: usize = 0;
        while j < m
            decreases m - j,
        {
            match output_at(&native, j) {
                Some(p) => outputs.push(p),
                None => break,
            }
            j = j + 1;
        }
        let value_type = value_type_hash();
        let result_type = result_type_hash();
        match check_signature(&inputs, &outputs, value_type, result_type) {
            Ok(()) => {},
            Err(e) => {
                let signature = Signature { inputs, outputs, value_type, result_type };
                return Err(self.fail(DispatchErrorKind::Signature(e, signature)));
            },
        }
        let mut arguments = bind_arguments(&self.params, &inputs);
        while arguments.len() > 0
            invariant
                function is Some,
            decreases arguments.len(),
        {
            let argument = arguments.pop().unwrap();
            if !push_argument(context, argument) {
                return Err(self.fail(DispatchErrorKind::ArgumentRejected));
            }
        }
        invoke(&native, context, registry);
        match pop_result(context) {
            Some(result) => Ok(result),
            None => Err(self.fail(DispatchErrorKind::NoResult)),
        }
    }
}

} // verus!
