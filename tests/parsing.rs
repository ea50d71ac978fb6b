use vngineer::parser::{parse, parse_color, VnScriptParser};
use vngineer::script::{VnChapterItem, VnFile};
use vngineer::value::VnValue;

const STORY: &str = r#"
// A small story.
import "common.vns"
import "scripts/plugin.plugin"
import "common.vns"

config application {
    title: "Demo"
    width: 1024
    fullscreen: false
    background: #1a2b3c4d
}

character alice { name: "Alice" mood: happy colors: [#ff0000ff #00ff00ff] }
scene park { image: "park.png" offset: { x: -1.5 y: 2 } }

chapter welcome {
    label intro
    say(what: "hi" who: alice)
    vn.jump(chapter: other label: start)
    label end
}
"#;

fn lookup<'a, V>(entries: &'a [(String, V)], key: &str) -> Option<&'a V> {
    entries.iter().find(|(k, _)| k == key).map(|(_, v)| v)
}

#[test]
fn test_parser() {
    let file = parse(STORY).unwrap();
    assert_eq!(file.story.chapters.len(), 1);
}

#[test]
fn imports_collapse_into_a_set() {
    let file = parse(STORY).unwrap();
    assert_eq!(file.dependencies, vec!["common.vns".to_string(), "scripts/plugin.plugin".to_string()]);
}

#[test]
fn three_imports_three_paths() {
    let file = parse("import \"a\" import \"b\" import \"c\"").unwrap();
    assert_eq!(file.dependencies.len(), 3);
    let empty = parse("   // nothing\n").unwrap();
    assert!(empty.dependencies.is_empty());
}

#[test]
fn color_literal_is_hexadecimal() {
    assert_eq!(parse_color("1a2b3c4d"), Some(0x1a2b3c4d));
    assert_eq!(parse_color("FF"), Some(0xff));
    assert_eq!(parse_color("1a2b3c4d5"), None);
    assert_eq!(parse_color("xyz"), None);
    assert_eq!(parse_color(""), None);
    let file = parse(STORY).unwrap();
    let app = lookup(&file.story.configs, "application").unwrap();
    assert_eq!(lookup(&app.properties, "background").unwrap().as_color(), Some(0x1a2b3c4d));
}

#[test]
fn values_of_each_kind() {
    let file = parse(STORY).unwrap();
    let app = lookup(&file.story.configs, "application").unwrap();
    assert_eq!(lookup(&app.properties, "title").unwrap().as_text(), Some("Demo"));
    assert_eq!(lookup(&app.properties, "width").unwrap().as_number().unwrap().mantissa(), 1024);
    assert_eq!(lookup(&app.properties, "fullscreen").unwrap().as_boolean(), Some(false));
    let alice = lookup(&file.story.characters, "alice").unwrap();
    assert_eq!(lookup(&alice.properties, "mood").unwrap().as_text(), Some("happy"));
    assert_eq!(lookup(&alice.properties, "colors").unwrap().as_array().unwrap().len(), 2);
    let park = lookup(&file.story.scenes, "park").unwrap();
    let offset = lookup(&park.properties, "offset").unwrap().as_map().unwrap();
    let x = lookup(offset, "x").unwrap().as_number().unwrap();
    assert_eq!((x.mantissa(), x.scale()), (-15, 1));
}

#[test]
fn chapter_items_in_order() {
    let file = parse(STORY).unwrap();
    let chapter = lookup(&file.story.chapters, "welcome").unwrap();
    assert_eq!(chapter.items.len(), 4);
    assert!(matches!(&chapter.items[0], VnChapterItem::Label(n) if n == "intro"));
    match &chapter.items[1] {
        VnChapterItem::Action(a) => {
            assert_eq!(a.name, "say");
            assert_eq!(a.module_name, None);
            assert_eq!(lookup(&a.params, "who").unwrap().as_text(), Some("alice"));
        }
        _ => panic!("expected an action"),
    }
    match &chapter.items[2] {
        VnChapterItem::Action(a) => {
            assert_eq!(a.name, "jump");
            assert_eq!(a.module_name.as_deref(), Some("vn"));
        }
        _ => panic!("expected an action"),
    }
    assert!(matches!(&chapter.items[3], VnChapterItem::Label(n) if n == "end"));
}

#[test]
fn escapes_are_resolved() {
    let file = parse("config c { t: \"a\\\"b\\n\" n: none }").unwrap();
    let c = lookup(&file.story.configs, "c").unwrap();
    assert_eq!(lookup(&c.properties, "t").unwrap().as_text(), Some("a\"b\n"));
    assert!(lookup(&c.properties, "n").unwrap().is_none());
}

#[test]
fn later_property_and_block_win() {
    let file = parse("character a { x: 1 x: 2 } character a { y: 3 }").unwrap();
    assert_eq!(file.story.characters.len(), 1);
    let a = lookup(&file.story.characters, "a").unwrap();
    assert!(lookup(&a.properties, "x").is_none());
    assert_eq!(lookup(&a.properties, "y").unwrap().as_number().unwrap().mantissa(), 3);
    let b = parse("scene s { x: 1 x: 2 }").unwrap();
    let s = lookup(&b.story.scenes, "s").unwrap();
    assert_eq!(s.properties.len(), 1);
    assert_eq!(lookup(&s.properties, "x").unwrap().as_number().unwrap().mantissa(), 2);
}

#[test]
fn syntax_error_names_line_and_column() {
    assert_eq!(
        parse("config a { }\n  scene s { x 1 }").unwrap_err(),
        "syntax error at line 2, column 3"
    );
    assert_eq!(parse("bogus").unwrap_err(), "syntax error at line 1, column 1");
    assert_eq!(VnFile::parse("bogus").unwrap_err(), parse("bogus").unwrap_err());
}

#[test]
fn duplicate_imports_give_one_entry() {
    let file = parse("import \"a.vns\"\nimport \"a.vns\"").unwrap();
    assert_eq!(file.dependencies, vec!["a.vns".to_string()]);
}

#[test]
fn syntax_errors_are_reported() {
    let err = parse("config c {\n  x 1 }").unwrap_err();
    assert!(err.contains("line 1"));
    assert!(VnScriptParser::parse("chapter c { say(what: \"unterminated) }").is_err());
    assert!(parse("import \"bad \\q escape\"").is_err());
    assert!(parse("color c { v: #12 }").is_err());
    assert!(parse("config c { v: 99999999999999999999 }").is_err());
    assert!(VnFile::parse("unknown thing").is_err());
    let ok = parse("config c { v: 1.25 w: -3 }").unwrap();
    let c = lookup(&ok.story.configs, "c").unwrap();
    let v = lookup(&c.properties, "v").unwrap().as_number().unwrap();
    assert_eq!((v.mantissa(), v.scale()), (125, 2));
    assert_eq!(lookup(&c.properties, "w").unwrap().as_number().unwrap().mantissa(), -3);
    assert!(matches!(lookup(&c.properties, "v"), Some(VnValue::Number(_))));
}
