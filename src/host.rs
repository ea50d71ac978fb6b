use crate::library::Globals;
use crate::script::VnResult;
use crate::value::VnValue;
use vstd::prelude::*;

verus! {

/// The key under which the interpreter's globals live in the host's context.
pub const VN_GLOBALS: &'static str = "vn-globals";

/// intuicio's host: an execution context together with a registry of native functions.
#[verifier::external_type_specification]
#[verifier::external_body]
pub struct ExHost(intuicio_essentials::core::host::Host);

/// intuicio's execution context: the data stack and named custom data.
#[verifier::external_type_specification]
#[verifier::external_body]
pub struct ExContext(intuicio_essentials::core::context::Context);

/// intuicio's registry of types and native functions.
#[verifier::external_type_specification]
#[verifier::external_body]
pub struct ExRegistry(intuicio_essentials::core::registry::Registry);

/// A native function registered with intuicio.
#[verifier::external_type_specification]
#[verifier::external_body]
pub struct ExFunction(intuicio_essentials::core::function::Function);

/// Relies on `Context::set_custom`: stores fresh globals under `VN_GLOBALS`.
#[verifier::external_body]
pub(crate) fn install_globals(host: &mut intuicio_essentials::core::host::Host, globals: Globals) {
    host.context().set_custom(VN_GLOBALS, globals);
}

/// Relies on `Host::context_and_registry`: the host's context and registry together.
#[verifier::external_body]
pub(crate) fn context_and_registry(
    host: &mut intuicio_essentials::core::host::Host,
) -> (&mut intuicio_essentials::core::context::Context, &intuicio_essentials::core::registry::Registry) {
    host.context_and_registry()
}

/// Relies on `Registry::find_function`: a function registered under `name`, and under
/// `module_name` when one is given.
#[verifier::external_body]
pub(crate) fn find_function(
    registry: &intuicio_essentials::core::registry::Registry,
    name: &str,
    module_name: Option<&str>,
) -> Option<std::sync::Arc<intuicio_essentials::core::function::Function>> {
    registry.find_function(intuicio_essentials::core::function::FunctionQuery {
        name: Some(name.into()),
        module_name: match module_name {
            Some(m) => intuicio_essentials::core::Filter::Matching(m.into()),
            None => intuicio_essentials::core::Filter::Ignore,
        },
        ..Default::default()
    })
}

/// Relies on `Function::signature`: the number of declared inputs.
#[verifier::external_body]
pub(crate) fn input_count(
    f: &std::sync::Arc<intuicio_essentials::core::function::Function>,
) -> usize {
    f.signature().inputs.len()
}

/// Relies on `Function::signature`: the name and type hash of the declared input at `i`.
#[verifier::external_body]
pub(crate) fn input_at(
    f: &std::sync::Arc<intuicio_essentials::core::function::Function>,
    i: usize,
) -> Option<(String, u64)> {
    f.signature().inputs.get(i).map(|p| (p.name.clone(), p.type_handle.type_hash().hash()))
}

/// Relies on `Function::signature`: the number of declared outputs.
#[verifier::external_body]
pub(crate) fn output_count(
    f: &std::sync::Arc<intuicio_essentials::core::function::Function>,
) -> usize {
    f.signature().outputs.len()
}

/// Relies on `Function::signature`: the name and type hash of the declared output at `i`.
#[verifier::external_body]
pub(crate) fn output_at(
    f: &std::sync::Arc<intuicio_essentials::core::function::Function>,
    i: usize,
) -> Option<(String, u64)> {
    f.signature().outputs.get(i).map(|p| (p.name.clone(), p.type_handle.type_hash().hash()))
}

/// Relies on `TypeHash::of`: the hash under which values are registered.
#[verifier::external_body]
pub(crate) fn value_type_hash() -> u64 {
    intuicio_essentials::data::type_hash::TypeHash::of::<VnValue>().hash()
}

/// Relies on `TypeHash::of`: the hash under which control results are registered.
#[verifier::external_body]
pub(crate) fn result_type_hash() -> u64 {
    intuicio_essentials::data::type_hash::TypeHash::of::<VnResult>().hash()
}

/// Relies on `DataStack::push`: places an argument on the context's stack.
#[verifier::external_body]
pub(crate) fn push_argument(
    context: &mut intuicio_essentials::core::context::Context,
    value: VnValue,
) -> bool {
    context.stack().push(value)
}

/// Relies on `Function::invoke`: runs the native function on the context.
#[verifier::external_body]
pub(crate) fn invoke(
    f: &std::sync::Arc<intuicio_essentials::core::function::Function>,
    context: &mut intuicio_essentials::core::context::Context,
    registry: &intuicio_essentials::core::registry::Registry,
) {
    f.invoke(context, registry)
}

/// Relies on `DataStack::pop`: takes the control result off the context's stack.
#[verifier::external_body]
pub(crate) fn pop_result(
    context: &mut intuicio_essentials::core::context::Context,
) -> Option<VnResult> {
    context.stack().pop::<VnResult>()
}

} // verus!
