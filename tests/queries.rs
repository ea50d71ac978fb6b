use vngineer::dispatch::{bind_arguments, check_signature, SignatureError};
use vngineer::library::{delete_global, enter, exit, jump, set_global, Globals};
use vngineer::script::{VnFile, VnPackage, VnResult, VnStory};
use vngineer::value::{Decimal, VnValue};

fn num(n: i64) -> VnValue {
    VnValue::Number(Decimal::from_integer(n))
}

fn text(s: &str) -> VnValue {
    VnValue::Text(s.to_string())
}

fn globals_with_score() -> Globals {
    let mut globals = Globals::new();
    set_global(&mut globals, text("score"), num(5));
    globals
}

fn jump_if(globals: &Globals, greater_than: VnValue) -> VnResult {
    jump(
        globals,
        text("next"),
        VnValue::Null,
        text("score"),
        VnValue::Null,
        VnValue::Null,
        VnValue::Null,
        VnValue::Null,
        greater_than,
        VnValue::Null,
    )
}

#[test]
fn jump_fires_when_the_query_holds() {
    let globals = globals_with_score();
    match jump_if(&globals, num(3)) {
        VnResult::JumpTo { chapter, label } => {
            assert_eq!(chapter.as_deref(), Some("next"));
            assert_eq!(label, None);
        }
        other => panic!("unexpected {:?}", other),
    }
    assert!(matches!(jump_if(&globals, num(10)), VnResult::Continue));
    assert!(matches!(jump_if(&globals, text("3")), VnResult::Continue));
}

#[test]
fn missing_global_degrades_to_continue() {
    let mut globals = globals_with_score();
    delete_global(&mut globals, text("score"));
    assert!(globals.get("score").is_none());
    assert!(matches!(jump_if(&globals, num(3)), VnResult::Continue));
    let r = exit(&globals, VnValue::Null, VnValue::Null, VnValue::Null, VnValue::Null, VnValue::Null, VnValue::Null, VnValue::Null);
    assert!(matches!(r, VnResult::Exit));
}

#[test]
fn each_clause_of_a_query() {
    let mut globals = Globals::new();
    set_global(&mut globals, text("items"), VnValue::Array(vec![num(1), text("key")]));
    set_global(&mut globals, text("bag"), VnValue::Dict(vec![("a".to_string(), num(1)), ("b".to_string(), num(2))]));
    let guard = |global: &str, is_type: VnValue, equals: VnValue, not_equals: VnValue, less_than: VnValue, has_items: VnValue| {
        enter(&globals, text("c"), text("l"), text(global), is_type, equals, not_equals, less_than, VnValue::Null, has_items)
    };
    let fires = |r: VnResult| matches!(r, VnResult::Enter { .. });
    assert!(fires(guard("items", VnValue::Array(vec![]), VnValue::Null, VnValue::Null, VnValue::Null, VnValue::Null)));
    assert!(!fires(guard("items", num(0), VnValue::Null, VnValue::Null, VnValue::Null, VnValue::Null)));
    assert!(fires(guard("items", VnValue::Null, VnValue::Array(vec![num(1), text("key")]), VnValue::Null, VnValue::Null, VnValue::Null)));
    assert!(!fires(guard("items", VnValue::Null, VnValue::Null, VnValue::Array(vec![num(1), text("key")]), VnValue::Null, VnValue::Null)));
    assert!(!fires(guard("items", VnValue::Null, VnValue::Null, VnValue::Null, num(3), VnValue::Null)));
    assert!(fires(guard("items", VnValue::Null, VnValue::Null, VnValue::Null, VnValue::Null, VnValue::Array(vec![text("key")]))));
    assert!(!fires(guard("items", VnValue::Null, VnValue::Null, VnValue::Null, VnValue::Null, VnValue::Array(vec![num(2)]))));
    assert!(fires(guard("bag", VnValue::Null, VnValue::Null, VnValue::Null, VnValue::Null, VnValue::Dict(vec![("b".to_string(), num(2))]))));
    assert!(!fires(guard("bag", VnValue::Null, VnValue::Null, VnValue::Null, VnValue::Null, VnValue::Dict(vec![("b".to_string(), num(3))]))));
    assert!(!fires(guard("bag", VnValue::Null, VnValue::Null, VnValue::Null, VnValue::Null, VnValue::Array(vec![]))));
}

#[test]
fn arguments_bind_by_name() {
    let params = vec![("what".to_string(), text("hi")), ("extra".to_string(), num(1))];
    let inputs = vec![("who".to_string(), 7u64), ("what".to_string(), 7u64)];
    let args = bind_arguments(&params, &inputs);
    assert_eq!(args.len(), 2);
    assert!(args[0].is_none());
    assert_eq!(args[1].as_text(), Some("hi"));
}

#[test]
fn signatures_are_checked() {
    let one = vec![("result".to_string(), 2u64)];
    assert!(check_signature(&vec![("a".to_string(), 1u64)], &one, 1, 2).is_ok());
    assert!(matches!(check_signature(&vec![], &vec![], 1, 2), Err(SignatureError::OutputCount)));
    assert!(matches!(check_signature(&vec![], &vec![("r".to_string(), 9u64)], 1, 2), Err(SignatureError::OutputType(n)) if n == "r"));
    let bad = vec![("a".to_string(), 5u64), ("b".to_string(), 1u64), ("c".to_string(), 6u64)];
    assert!(matches!(check_signature(&bad, &one, 1, 2), Err(SignatureError::InputType(n)) if n == "c"));
}

fn story_with_alice(name: &str) -> VnFile {
    VnFile::parse(&format!("character alice {{ name: \"{}\" }} scene s{} {{ }}", name, name)).unwrap()
}

#[test]
fn later_document_wins_on_merge() {
    let mut package = VnPackage::new();
    let first = story_with_alice("First");
    let deps = package.add_file("a.vns".to_string(), first);
    assert!(deps.is_empty());
    package.add_file("b.vns".to_string(), story_with_alice("Second"));
    assert!(package.contains("a.vns"));
    assert!(!package.contains("c.vns"));
    let story: VnStory = package.compile();
    assert_eq!(story.characters.len(), 1);
    let alice = &story.characters[0].1;
    assert_eq!(alice.properties[0].1.as_text(), Some("Second"));
    assert_eq!(story.scenes.len(), 2);
}

#[test]
fn merge_keeps_names_unique() {
    let mut a = story_with_alice("One").story;
    a.merge(story_with_alice("Two").story);
    assert_eq!(a.characters.len(), 1);
    assert_eq!(a.characters[0].1.properties[0].1.as_text(), Some("Two"));
}
