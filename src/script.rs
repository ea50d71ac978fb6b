use crate::lookup::{
    entry_get, first_pos, last_defined, merge_entries, reversed_vec, unique_keys,
};
use crate::value::{clone_value, entries_view, ValueModel, VnValue};
use vstd::prelude::*;

verus! {

/// What a step of the interpreter does next, as decided by an action.
#[derive(Debug)]
pub enum VnResult {
    Continue,
    JumpTo { chapter: Option<String>, label: Option<String> },
    Enter { chapter: Option<String>, label: Option<String> },
    Exit,
}

impl Default for VnResult {
    fn default() -> (r: VnResult)
        ensures
            r is Continue,
    {
        VnResult::Continue
    }
}

/// A call of a native function with named arguments.
#[derive(Debug)]
pub struct VnAction {
    pub name: String,
    pub module_name: Option<String>,
    pub params: Vec<(String, VnValue)>,
}

/// One step of a chapter.
#[derive(Debug)]
pub enum VnChapterItem {
    Label(String),
    Action(VnAction),
}

/// The characters of an optional string.
pub open spec fn opt_chars(o: Option<String>) -> Option<Seq<char>> {
    match o {
        Some(s) => Some(s@),
        None => None,
    }
}

pub struct ActionModel {
    pub name: Seq<char>,
    pub module_name: Option<Seq<char>>,
    pub params: Seq<(Seq<char>, ValueModel)>,
}

pub enum ItemModel {
    Label(Seq<char>),
    Action(ActionModel),
}

impl View for VnAction {
    type V = ActionModel;

    open spec fn view(&self) -> ActionModel {
        ActionModel {
            name: self.name@,
            module_name: opt_chars(self.module_name),
            params: entries_view(self.params@),
        }
    }
}

impl View for VnChapterItem {
    type V = ItemModel;

    open spec fn view(&self) -> ItemModel {
        match self {
            VnChapterItem::Label(name) => ItemModel::Label(name@),
            VnChapterItem::Action(action) => ItemModel::Action(action@),
        }
    }
}

pub open spec fn items_view(items: Seq<VnChapterItem>) -> Seq<ItemModel> {
    items.map_values(|item: VnChapterItem| item@)
}

impl View for VnChapter {
    type V = Seq<ItemModel>;

    open spec fn view(&self) -> Seq<ItemModel> {
        items_view(self.items@)
    }
}

/// A copy of named values.
pub fn clone_entries(es: &Vec<(String, VnValue)>) -> (r: Vec<(String, VnValue)>)
    ensures
        entries_view(r@) == entries_view(es@),
        r@.len() == es@.len(),
        forall|i: int| 0 <= i < es@.len() ==> #[trigger] r@[i].0@ == es@[i].0@,
{
    let mut out: Vec<(String, VnValue)> = Vec::new();
    let mut i: usize = 0;
    while i < es.len()
        invariant
            i <= es.len(),
            out.len() == i,
            forall|k: int| 0 <= k < i ==> (#[trigger] out@[k]).0@ == es@[k].0@ && out@[k].1@ == es@[k].1@,
        decreases es.len() - i,
    {
        out.push((es[i].0.clone(), clone_value(&es[i].1)));
        i = i + 1;
    }
    proof {
        assert(entries_view(out@) =~= entries_view(es@));
    }
    out
}

fn clone_opt_string(o: &Option<String>) -> (r: Option<String>)
    ensures
        opt_chars(r) == opt_chars(*o),
{
    match o {
        Some(s) => Some(s.clone()),
        None => None,
    }
}

impl VnAction {
    pub fn duplicate(&self) -> (r: VnAction)
        ensures
            r@ == self@,
    {
        VnAction {
            name: self.name.clone(),
            module_name: clone_opt_string(&self.module_name),
            params: clone_entries(&self.params),
        }
    }
}

impl VnChapterItem {
    pub fn duplicate(&self) -> (r: VnChapterItem)
        ensures
            r@ == self@,
    {
        match self {
            VnChapterItem::Label(name) => VnChapterItem::Label(name.clone()),
            VnChapterItem::Action(action) => VnChapterItem::Action(action.duplicate()),
        }
    }
}

impl VnChapter {
    pub fn duplicate(&self) -> (r: VnChapter)
        ensures
            r@ == self@,
    {
        let mut items: Vec<VnChapterItem> = Vec::new();
        let mut i: usize = 0;
        while i < self.items.len()
            invariant
                i <= self.items.len(),
                items.len() == i,
                forall|k: int| 0 <= k < i ==> (#[trigger] items@[k])@ == self.items@[k]@,
            decreases self.items.len() - i,
        {
            items.push(self.items[i].duplicate());
            i = i + 1;
        }
        let r = VnChapter { items };
        proof {
            assert(r@ =~= self@);
        }
        r
    }
}

#[derive(Debug)]
pub struct VnChapter {
    pub items: Vec<VnChapterItem>,
}

#[derive(Debug)]
pub struct VnConfig {
    pub properties: Vec<(String, VnValue)>,
}

#[derive(Debug)]
pub struct VnCharacter {
    pub properties: Vec<(String, VnValue)>,
}

#[derive(Debug)]
pub struct VnScene {
    pub properties: Vec<(String, VnValue)>,
}

/// The named entities of a story; each list holds one entry per name.
#[derive(Debug)]
pub struct VnStory {
    pub configs: Vec<(String, VnConfig)>,
    pub characters: Vec<(String, VnCharacter)>,
    pub scenes: Vec<(String, VnScene)>,
    pub chapters: Vec<(String, VnChapter)>,
}

impl VnStory {
    pub open spec fn wf(&self) -> bool {
        &&& unique_keys(self.configs@)
        &&& unique_keys(self.characters@)
        &&& unique_keys(self.scenes@)
        &&& unique_keys(self.chapters@)
    }

    /// Whether every list holds each name at most once.
    pub fn has_unique_names(&self) -> (r: bool)
        ensures
            r == self.wf(),
    {
        crate::lookup::has_unique_keys(&self.configs) && crate::lookup::has_unique_keys(&self.characters)
            && crate::lookup::has_unique_keys(&self.scenes) && crate::lookup::has_unique_keys(&self.chapters)
    }

    pub fn new() -> (r: VnStory)
        ensures
            r.wf(),
            r.configs@.len() == 0,
            r.characters@.len() == 0,
            r.scenes@.len() == 0,
            r.chapters@.len() == 0,
    {
        VnStory {
            configs: Vec::new(),
            characters: Vec::new(),
            scenes: Vec::new(),
            chapters: Vec::new(),
        }
    }

    /// Takes in every entity of `other`; where both define a name, `other`'s entity stays.
    pub fn merge(&mut self, other: VnStory)
        requires
            other.wf(),
        ensures
            forall|k: Seq<char>| #[trigger]
                entry_get(final(self).configs@, k) == merged(
                    old(self).configs@,
                    other.configs@,
                    k,
                ),
            forall|k: Seq<char>| #[trigger]
                entry_get(final(self).characters@, k) == merged(
                    old(self).characters@,
                    other.characters@,
                    k,
                ),
            forall|k: Seq<char>| #[trigger]
                entry_get(final(self).scenes@, k) == merged(old(self).scenes@, other.scenes@, k),
            forall|k: Seq<char>| #[trigger]
                entry_get(final(self).chapters@, k) == merged(
                    old(self).chapters@,
                    other.chapters@,
                    k,
                ),
            old(self).wf() ==> final(self).wf(),
    {
        let VnStory { configs, characters, scenes, chapters } = other;
        merge_entries(&mut self.configs, configs);
        merge_entries(&mut self.characters, characters);
        merge_entries(&mut self.scenes, scenes);
        merge_entries(&mut self.chapters, chapters);
    }
}

/// What `key` looks up after the entries of `later` are stored over those of `earlier`.
pub open spec fn merged<V>(earlier: Seq<(String, V)>, later: Seq<(String, V)>, key: Seq<char>) -> Option<V> {
    match entry_get(later, key) {
        Some(v) => Some(v),
        None => entry_get(earlier, key),
    }
}

/// What a document holds, with names and texts as characters.
pub struct FileModel {
    pub dependencies: Seq<Seq<char>>,
    pub configs: Seq<(Seq<char>, Seq<(Seq<char>, ValueModel)>)>,
    pub characters: Seq<(Seq<char>, Seq<(Seq<char>, ValueModel)>)>,
    pub scenes: Seq<(Seq<char>, Seq<(Seq<char>, ValueModel)>)>,
    pub chapters: Seq<(Seq<char>, Seq<ItemModel>)>,
}

pub open spec fn configs_view(es: Seq<(String, VnConfig)>) -> Seq<(Seq<char>, Seq<(Seq<char>, ValueModel)>)> {
    es.map_values(|e: (String, VnConfig)| (e.0@, entries_view(e.1.properties@)))
}

pub open spec fn characters_view(es: Seq<(String, VnCharacter)>) -> Seq<(Seq<char>, Seq<(Seq<char>, ValueModel)>)> {
    es.map_values(|e: (String, VnCharacter)| (e.0@, entries_view(e.1.properties@)))
}

pub open spec fn scenes_view(es: Seq<(String, VnScene)>) -> Seq<(Seq<char>, Seq<(Seq<char>, ValueModel)>)> {
    es.map_values(|e: (String, VnScene)| (e.0@, entries_view(e.1.properties@)))
}

pub open spec fn chapters_view(es: Seq<(String, VnChapter)>) -> Seq<(Seq<char>, Seq<ItemModel>)> {
    es.map_values(|e: (String, VnChapter)| (e.0@, e.1@))
}

impl View for VnFile {
    type V = FileModel;

    open spec fn view(&self) -> FileModel {
        FileModel {
            dependencies: self.dependencies@.map_values(|d: String| d@),
            configs: configs_view(self.story.configs@),
            characters: characters_view(self.story.characters@),
            scenes: scenes_view(self.story.scenes@),
            chapters: chapters_view(self.story.chapters@),
        }
    }
}

/// A parsed document: the paths it imports, and the story it defines.
#[derive(Debug)]
pub struct VnFile {
    pub dependencies: Vec<String>,
    pub story: VnStory,
}

impl VnFile {
    /// Parses a document; see `VnScriptParser::parse`.
    pub fn parse(content: &str) -> (r: Result<VnFile, String>)
        ensures
            r is Ok <==> crate::parser::document(content@) is Some,
            r matches Ok(f) ==> crate::parser::document(content@) == Some(f@) && f.story.wf(),
            r matches Err(m) ==> m@ == crate::parser::syntax_message(
                content@,
                crate::parser::document_failure(content@),
            ),
    {
        crate::parser::parse(content)
    }
}

/// Documents in the order they were loaded, each under its name.
#[derive(Debug)]
pub struct VnPackage {
    pub files: Vec<(String, VnFile)>,
}

pub open spec fn configs_of(files: Seq<(String, VnFile)>) -> Seq<Seq<(String, VnConfig)>> {
    files.map_values(|f: (String, VnFile)| f.1.story.configs@)
}

pub open spec fn characters_of(files: Seq<(String, VnFile)>) -> Seq<Seq<(String, VnCharacter)>> {
    files.map_values(|f: (String, VnFile)| f.1.story.characters@)
}

pub open spec fn scenes_of(files: Seq<(String, VnFile)>) -> Seq<Seq<(String, VnScene)>> {
    files.map_values(|f: (String, VnFile)| f.1.story.scenes@)
}

pub open spec fn chapters_of(files: Seq<(String, VnFile)>) -> Seq<Seq<(String, VnChapter)>> {
    files.map_values(|f: (String, VnFile)| f.1.story.chapters@)
}

impl VnPackage {
    pub open spec fn wf(&self) -> bool {
        forall|i: int| 0 <= i < self.files@.len() ==> (#[trigger] self.files@[i]).1.story.wf()
    }

    pub fn new() -> (r: VnPackage)
        ensures
            r.files@.len() == 0,
    {
        VnPackage { files: Vec::new() }
    }

    /// Whether a document is loaded under `name`; a loader skips such a path.
    pub fn contains(&self, name: &str) -> (r: bool)
        ensures
            r == entry_get(self.files@, name@) is Some,
    {
        match crate::lookup::find_key(&self.files, name) {
            Some(_) => true,
            None => false,
        }
    }

    /// Records a loaded document under `name`, before its dependencies are loaded, and
    /// returns those dependencies in import order.
    pub fn add_file(&mut self, name: String, file: VnFile) -> (r: Vec<String>)
        requires
            old(self).wf(),
            file.story.wf(),
        ensures
            final(self).wf(),
            forall|k: Seq<char>| #[trigger]
                entry_get(final(self).files@, k) == if k == name@ {
                    Some(file)
                } else {
                    entry_get(old(self).files@, k)
                },
            r@ == file.dependencies@,
    {
        let mut deps: Vec<String> = Vec::new();
        let mut i: usize = 0;
        while i < file.dependencies.len()
            invariant
                i <= file.dependencies.len(),
                deps.len() == i,
                forall|k: int| 0 <= k < i ==> #[trigger] deps@[k] == file.dependencies@[k],
            decreases file.dependencies.len() - i,
        {
            deps.push(file.dependencies[i].clone());
            i = i + 1;
        }
        let ghost before = self.files@;
        let ghost entry = (name, file);
        proof {
            assert(deps@ =~= file.dependencies@);
        }
        crate::lookup::insert_entry(&mut self.files, name, file);
        proof {
            let fs = self.files@;
            assert forall|j: int| 0 <= j < fs.len() implies (#[trigger] fs[j]).1.story.wf() by {
                match first_pos(crate::lookup::keys_of_entries(before), entry.0@) {
                    Some(p) => {
                        crate::lookup::lemma_first_pos(crate::lookup::keys_of_entries(before), entry.0@);
                        assert(fs == before.update(p, entry));
                        if j != p {
                            assert(fs[j] == before[j]);
                            assert(old(self).files@[j].1.story.wf());
                        }
                    },
                    None => {
                        assert(fs == before.push(entry));
                        if j < before.len() {
                            assert(fs[j] == before[j]);
                            assert(old(self).files@[j].1.story.wf());
                        }
                    },
                }
            }
        }
        deps
    }

    /// Merges the stories of all documents, in load order: a later document's entity
    /// replaces an earlier one of the same name.
    pub fn compile(self) -> (r: VnStory)
        requires
            self.wf(),
        ensures
            r.wf(),
            forall|k: Seq<char>| #[trigger]
                entry_get(r.configs@, k) == last_defined(configs_of(self.files@), k),
            forall|k: Seq<char>| #[trigger]
                entry_get(r.characters@, k) == last_defined(characters_of(self.files@), k),
            forall|k: Seq<char>| #[trigger]
                entry_get(r.scenes@, k) == last_defined(scenes_of(self.files@), k),
            forall|k: Seq<char>| #[trigger]
                entry_get(r.chapters@, k) == last_defined(chapters_of(self.files@), k),
    {
        let ghost files = self.files@;
        let n = self.files.len();
        let mut pending = reversed_vec(self.files);
        let mut result = VnStory::new();
        let mut i: usize = 0;
        while pending.len() > 0
            invariant
                i + pending.len() == n == files.len(),
                forall|j: int| 0 <= j < files.len() ==> (#[trigger] files[j]).1.story.wf(),
                forall|j: int| 0 <= j < pending.len() ==> #[trigger] pending@[j] == files[n - 1 - j],
                result.wf(),
                forall|k: Seq<char>| #[trigger]
                    entry_get(result.configs@, k) == last_defined(configs_of(files.take(i as int)), k),
                forall|k: Seq<char>| #[trigger]
                    entry_get(result.characters@, k) == last_defined(characters_of(files.take(i as int)), k),
                forall|k: Seq<char>| #[trigger]
                    entry_get(result.scenes@, k) == last_defined(scenes_of(files.take(i as int)), k),
                forall|k: Seq<char>| #[trigger]
                    entry_get(result.chapters@, k) == last_defined(chapters_of(files.take(i as int)), k),
            decreases pending.len(),
        {
            let file = pending.pop().unwrap();
            assert(file == files[i as int]);
            proof {
                let t = files.take(i + 1);
                assert(t.drop_last() =~= files.take(i as int));
                assert(configs_of(t).drop_last() =~= configs_of(files.take(i as int)));
                assert(characters_of(t).drop_last() =~= characters_of(files.take(i as int)));
                assert(scenes_of(t).drop_last() =~= scenes_of(files.take(i as int)));
                assert(chapters_of(t).drop_last() =~= chapters_of(files.take(i as int)));
            }
            result.merge(file.1.story);
            i = i + 1;
        }
        proof {
            assert(files.take(n as int) =~= files);
        }
        result
    }
}

} // verus!
