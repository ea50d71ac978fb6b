use vngineer::dispatch::{DispatchErrorKind, SignatureError};
use vngineer::parser::parse;
use vngineer::script::{VnAction, VnChapter, VnChapterItem, VnResult};
use vngineer::value::VnValue;
use vngineer::vm::Vm;

fn label(name: &str) -> VnChapterItem {
    VnChapterItem::Label(name.to_string())
}

fn action(name: &str, params: Vec<(&str, VnValue)>) -> VnChapterItem {
    VnChapterItem::Action(VnAction {
        name: name.to_string(),
        module_name: None,
        params: params.into_iter().map(|(k, v)| (k.to_string(), v)).collect(),
    })
}

fn say_body(context: &mut intuicio_essentials::core::context::Context, _: &intuicio_essentials::core::registry::Registry) {
    let _what = context.stack().pop::<VnValue>();
    context.stack().push(VnResult::Continue);
}

fn call_body(context: &mut intuicio_essentials::core::context::Context, _: &intuicio_essentials::core::registry::Registry) {
    let chapter = context.stack().pop::<VnValue>().unwrap();
    let target = chapter.as_text().map(|t| t.to_string());
    context.stack().push(VnResult::Enter { chapter: target, label: None });
}

fn ret_body(context: &mut intuicio_essentials::core::context::Context, _: &intuicio_essentials::core::registry::Registry) {
    context.stack().push(VnResult::Exit);
}

fn host() -> intuicio_essentials::core::host::Host {
    let mut registry = intuicio_essentials::core::registry::Registry::default();
    let value = registry.add_type(intuicio_essentials::core::types::struct_type::NativeStructBuilder::new::<VnValue>().build());
    let result = registry.add_type(intuicio_essentials::core::types::struct_type::NativeStructBuilder::new::<VnResult>().build());
    registry.add_function(intuicio_essentials::core::function::Function::new(
        intuicio_essentials::core::function::FunctionSignature::new("say")
            .with_input(intuicio_essentials::core::function::FunctionParameter::new("what", value.clone()))
            .with_output(intuicio_essentials::core::function::FunctionParameter::new("result", result.clone())),
        intuicio_essentials::core::function::FunctionBody::pointer(say_body),
    ));
    registry.add_function(intuicio_essentials::core::function::Function::new(
        intuicio_essentials::core::function::FunctionSignature::new("call")
            .with_input(intuicio_essentials::core::function::FunctionParameter::new("chapter", value.clone()))
            .with_output(intuicio_essentials::core::function::FunctionParameter::new("result", result.clone())),
        intuicio_essentials::core::function::FunctionBody::pointer(call_body),
    ));
    registry.add_function(intuicio_essentials::core::function::Function::new(
        intuicio_essentials::core::function::FunctionSignature::new("ret").with_output(intuicio_essentials::core::function::FunctionParameter::new("result", result)),
        intuicio_essentials::core::function::FunctionBody::pointer(ret_body),
    ));
    intuicio_essentials::core::host::Host::new(intuicio_essentials::core::context::Context::new(1024, 1024), registry.into())
}

fn text(s: &str) -> VnValue {
    VnValue::Text(s.to_string())
}

fn intro_chapter() -> VnChapter {
    VnChapter {
        items: vec![label("intro"), action("say", vec![("what", text("hi"))]), label("end")],
    }
}

#[test]
fn enter_starts_at_the_named_label() {
    let mut vm = Vm::new(host());
    vm.add_chapter("chapter".to_string(), intro_chapter());
    assert!(vm.enter("chapter", Some("end")));
    assert_eq!(vm.current(), Some(("chapter", 2)));
    assert!(vm.enter("chapter", Some("missing")));
    assert_eq!(vm.current(), Some(("chapter", 0)));
    assert!(!vm.enter("nowhere", None));
    assert_eq!(vm.depth(), 2);
}

#[test]
fn steps_through_labels_and_actions() {
    let mut vm = Vm::new(host());
    vm.add_chapter("chapter".to_string(), intro_chapter());
    assert!(vm.enter("chapter", None));
    vm.step().unwrap();
    assert_eq!(vm.current(), Some(("chapter", 1)));
    vm.step().unwrap();
    assert_eq!(vm.current(), Some(("chapter", 2)));
    vm.step().unwrap();
    vm.step().unwrap();
    assert!(!vm.is_running());
}

#[test]
fn nested_chapter_returns_after_the_call() {
    let mut vm = Vm::new(host());
    vm.add_chapter(
        "main".to_string(),
        VnChapter { items: vec![action("call", vec![("chapter", text("sub"))]), action("say", vec![])] },
    );
    vm.add_chapter("sub".to_string(), VnChapter { items: vec![action("say", vec![])] });
    vm.add_chapter("early".to_string(), VnChapter { items: vec![action("ret", vec![]), action("say", vec![])] });
    assert!(vm.enter("main", None));
    vm.step().unwrap();
    assert_eq!(vm.current(), Some(("sub", 0)));
    assert_eq!(vm.depth(), 2);
    vm.step().unwrap();
    vm.step().unwrap();
    assert_eq!(vm.current(), Some(("main", 1)));
    assert_eq!(vm.depth(), 1);
    assert!(vm.enter("early", None));
    vm.step().unwrap();
    assert_eq!(vm.current(), Some(("main", 2)));
}

#[test]
fn removed_chapter_frame_is_dropped() {
    let mut vm = Vm::new(host());
    vm.add_chapter("chapter".to_string(), intro_chapter());
    assert!(vm.enter("chapter", None));
    let removed = vm.remove_chapter("chapter");
    assert!(removed.is_some());
    assert!(vm.is_running());
    vm.step().unwrap();
    assert!(!vm.is_running());
}

#[test]
fn reentering_pushes_another_frame() {
    let mut vm = Vm::new(host());
    vm.add_chapter("chapter".to_string(), intro_chapter());
    assert!(vm.enter("chapter", None));
    assert!(vm.enter("chapter", Some("end")));
    assert_eq!(vm.depth(), 2);
    vm.exit();
    assert!(vm.is_running());
    assert_eq!(vm.current(), Some(("chapter", 1)));
    vm.exit();
    assert!(!vm.is_running());
}

#[test]
fn apply_follows_control_results() {
    let mut vm = Vm::new(host());
    vm.add_chapter("a".to_string(), intro_chapter());
    vm.add_chapter("b".to_string(), VnChapter { items: vec![label("x"), label("start")] });
    assert!(vm.enter("a", None));
    vm.apply(VnResult::JumpTo { chapter: Some("b".to_string()), label: Some("start".to_string()) });
    assert_eq!(vm.current(), Some(("b", 1)));
    vm.apply(VnResult::JumpTo { chapter: Some("gone".to_string()), label: None });
    assert_eq!(vm.current(), Some(("b", 2)));
    vm.apply(VnResult::Enter { chapter: None, label: Some("x".to_string()) });
    assert_eq!(vm.current(), Some(("b", 0)));
    assert_eq!(vm.depth(), 2);
    vm.apply(VnResult::Exit);
    assert_eq!(vm.current(), Some(("b", 3)));
    vm.apply(VnResult::Continue);
    assert_eq!(vm.current(), Some(("b", 4)));
}

#[test]
fn unknown_function_is_a_dispatch_error() {
    let mut vm = Vm::new(host());
    vm.add_chapter("c".to_string(), VnChapter { items: vec![action("missing", vec![])] });
    assert!(vm.enter("c", None));
    let err = vm.step().unwrap_err();
    assert_eq!(err.name, "missing");
    assert_eq!(vm.current(), Some(("c", 0)));
}

fn silent_body(_: &mut intuicio_essentials::core::context::Context, _: &intuicio_essentials::core::registry::Registry) {}

fn broken_host() -> intuicio_essentials::core::host::Host {
    let mut registry = intuicio_essentials::core::registry::Registry::default();
    let value = registry.add_type(intuicio_essentials::core::types::struct_type::NativeStructBuilder::new::<VnValue>().build());
    let result = registry.add_type(intuicio_essentials::core::types::struct_type::NativeStructBuilder::new::<VnResult>().build());
    registry.add_function(intuicio_essentials::core::function::Function::new(
        intuicio_essentials::core::function::FunctionSignature::new("silent")
            .with_output(intuicio_essentials::core::function::FunctionParameter::new("result", result.clone())),
        intuicio_essentials::core::function::FunctionBody::pointer(silent_body),
    ));
    registry.add_function(intuicio_essentials::core::function::Function::new(
        intuicio_essentials::core::function::FunctionSignature::new("no_output")
            .with_input(intuicio_essentials::core::function::FunctionParameter::new("what", value.clone())),
        intuicio_essentials::core::function::FunctionBody::pointer(silent_body),
    ));
    registry.add_function(intuicio_essentials::core::function::Function::new(
        intuicio_essentials::core::function::FunctionSignature::new("wrong_input")
            .with_input(intuicio_essentials::core::function::FunctionParameter::new("what", result.clone()))
            .with_output(intuicio_essentials::core::function::FunctionParameter::new("result", result)),
        intuicio_essentials::core::function::FunctionBody::pointer(silent_body),
    ));
    intuicio_essentials::core::host::Host::new(intuicio_essentials::core::context::Context::new(1024, 1024), registry.into())
}

#[test]
fn broken_functions_are_reported() {
    let mut vm = Vm::new(broken_host());
    vm.add_chapter(
        "c".to_string(),
        VnChapter { items: vec![action("silent", vec![]), action("no_output", vec![]), action("wrong_input", vec![])] },
    );
    assert!(vm.enter("c", None));
    assert!(matches!(vm.step().unwrap_err().kind, DispatchErrorKind::NoResult));
    vm.apply(VnResult::Continue);
    assert!(matches!(vm.step().unwrap_err().kind, DispatchErrorKind::Signature(SignatureError::OutputCount, _)));
    vm.apply(VnResult::Continue);
    assert!(matches!(
        vm.step().unwrap_err().kind,
        DispatchErrorKind::Signature(SignatureError::InputType(ref n), _) if n == "what"
    ));
}

#[test]
fn missing_function_is_not_found() {
    let action = VnAction { name: "say".to_string(), module_name: Some("vn".to_string()), params: vec![] };
    let mut host = host();
    let (context, registry) = host.context_and_registry();
    let err = action.dispatch(None, context, registry).unwrap_err();
    assert!(matches!(err.kind, DispatchErrorKind::NotFound));
    assert_eq!(err.module_name.as_deref(), Some("vn"));
    let err = action.evaluate(context, registry).unwrap_err();
    assert!(matches!(err.kind, DispatchErrorKind::NotFound));
}

#[test]
fn bad_signature_carries_what_was_read() {
    let mut vm = Vm::new(broken_host());
    vm.add_chapter("c".to_string(), VnChapter { items: vec![action("wrong_input", vec![])] });
    assert!(vm.enter("c", None));
    match vm.step().unwrap_err().kind {
        DispatchErrorKind::Signature(_, signature) => {
            assert_eq!(signature.inputs.len(), 1);
            assert_eq!(signature.outputs.len(), 1);
            assert_ne!(signature.inputs[0].1, signature.value_type);
            assert_eq!(signature.outputs[0].1, signature.result_type);
        }
        other => panic!("unexpected {:?}", other),
    }
}

#[test]
fn test_vm() {
    let story = parse(
        "chapter welcome { label start say(what: \"hello\") call(chapter: other) say() }\n\
         chapter other { say(what: \"inside\") ret() }",
    )
    .unwrap()
    .story;
    let mut vm = Vm::new(host());
    vm.add_story(&story);
    assert!(vm.enter("welcome", None));
    let mut steps = 0;
    while vm.is_running() {
        vm.step().unwrap();
        steps += 1;
        assert!(steps < 100);
    }
    assert_eq!(steps, 7);
}

#[test]
fn removing_chapters_by_predicate() {
    let mut vm = Vm::new(host());
    vm.add_chapter("keep".to_string(), intro_chapter());
    vm.add_chapter("drop_me".to_string(), intro_chapter());
    vm.add_chapter("drop_too".to_string(), intro_chapter());
    vm.remove_chapters(|name, _| name.starts_with("drop"));
    let names: Vec<&str> = vm.chapters().iter().map(|(n, _)| n.as_str()).collect();
    assert_eq!(names, vec!["keep"]);
}
