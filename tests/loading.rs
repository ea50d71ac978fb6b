use vngineer::loader::{LoadRequest, LoadedDocument, VnLoader};
use vngineer::script::{VnFile, VnPackage};

fn source(path: &str) -> &'static str {
    match path {
        "main.vns" => "import \"a.vns\" import \"b.vns\" character alice { from: main }",
        "a.vns" => "import \"b.vns\" import \"main.vns\" character alice { from: a } scene park { }",
        "b.vns" => "character alice { from: b } chapter start { label begin }",
        _ => "",
    }
}

fn run(entry: &str) -> (VnPackage, Vec<String>) {
    let mut loader = VnLoader::new(entry.to_string());
    let mut unpacked = Vec::new();
    loop {
        match loader.next() {
            LoadRequest::Sanitize(path) => loader.sanitized(path.trim_start_matches("./").to_string()),
            LoadRequest::Unpack(path) => {
                unpacked.push(path.clone());
                let file = VnFile::parse(source(&path)).unwrap();
                loader.unpacked(vec![LoadedDocument { path: path.clone(), name: path, file: Some(file) }]);
            }
            LoadRequest::Join(_, relative) => loader.joined(relative),
            LoadRequest::Working => {}
            LoadRequest::Done => return (loader.into_package(), unpacked),
        }
    }
}

#[test]
fn loads_depth_first_once_per_path() {
    let (package, unpacked) = run("./main.vns");
    assert_eq!(unpacked, vec!["main.vns", "a.vns", "b.vns"]);
    let names: Vec<&str> = package.files.iter().map(|(n, _)| n.as_str()).collect();
    assert_eq!(names, vec!["main.vns", "a.vns", "b.vns"]);
}

#[test]
fn last_loaded_definition_wins() {
    let (package, _) = run("main.vns");
    let story = package.compile();
    assert_eq!(story.characters.len(), 1);
    let alice = &story.characters[0].1;
    assert_eq!(alice.properties[0].1.as_text(), Some("b"));
    assert_eq!(story.scenes.len(), 1);
    assert_eq!(story.chapters.len(), 1);
}

#[test]
fn test_script() {
    let (package, _) = run("main.vns");
    let story = package.compile();
    assert_eq!(story.chapters[0].0, "start");
}

#[test]
fn empty_documents_are_skipped() {
    let mut loader = VnLoader::new("x".to_string());
    assert!(matches!(loader.next(), LoadRequest::Sanitize(_)));
    loader.sanitized("x".to_string());
    assert!(matches!(loader.next(), LoadRequest::Unpack(_)));
    loader.unpacked(vec![LoadedDocument { path: "x".to_string(), name: "x".to_string(), file: None }]);
    assert!(matches!(loader.next(), LoadRequest::Working));
    assert!(matches!(loader.next(), LoadRequest::Working));
    assert!(matches!(loader.next(), LoadRequest::Done));
    assert!(loader.into_package().files.is_empty());
}
