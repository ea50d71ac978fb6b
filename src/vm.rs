use crate::dispatch::DispatchError;
use crate::host::{context_and_registry, install_globals};
use crate::library::Globals;
use crate::lookup::{
    entry_get, find_key, first_pos, insert_entry, lemma_entry_get_push, lemma_first_pos_prefix,
    lemma_first_pos_step, lemma_take_all, lemma_unique_not_before, remove_entries, str_eq,
    unique_keys,
};
use crate::script::{opt_chars, ItemModel, VnChapter, VnChapterItem, VnResult, VnStory};
use vstd::prelude::*;

verus! {

/// For each item, the label it declares, if it is a label.
pub open spec fn label_list(items: Seq<ItemModel>) -> Seq<Option<Seq<char>>> {
    items.map_values(
        |item: ItemModel|
            match item {
                ItemModel::Label(name) => Some(name),
                ItemModel::Action(_) => None,
            },
    )
}

/// Where execution starts in a chapter: at the first label named `label`, else at the top.
pub open spec fn start_position(items: Seq<ItemModel>, label: Option<Seq<char>>) -> int {
    match label {
        Some(l) => match first_pos(label_list(items), Some(l)) {
            Some(i) => i,
            None => 0,
        },
        None => 0,
    }
}

/// The items of the chapter named `name`.
pub open spec fn chapter_model(chapters: Seq<(String, VnChapter)>, name: Seq<char>) -> Option<Seq<ItemModel>> {
    match entry_get(chapters, name) {
        Some(c) => Some(c@),
        None => None,
    }
}

/// The position after `p` (a position cannot pass the largest index).
pub open spec fn next_position(p: int) -> int {
    if p < usize::MAX {
        p + 1
    } else {
        p
    }
}

/// The frames with the top one moved to its next item.
pub open spec fn advance_top(frames: Seq<(Seq<char>, int)>) -> Seq<(Seq<char>, int)> {
    if frames.len() == 0 {
        frames
    } else {
        frames.update(frames.len() - 1, (frames.last().0, next_position(frames.last().1)))
    }
}

/// The frames after returning from the top one: its caller resumes after the call.
pub open spec fn exit_frames(frames: Seq<(Seq<char>, int)>) -> Seq<(Seq<char>, int)> {
    if frames.len() == 0 {
        frames
    } else {
        advance_top(frames.drop_last())
    }
}

/// The chapter a jump or an enter aims at: the named one, else the current one.
pub open spec fn target_chapter(frames: Seq<(Seq<char>, int)>, chapter: Option<String>) -> Seq<char> {
    match opt_chars(chapter) {
        Some(c) => c,
        None => frames.last().0,
    }
}

/// The frames after the action at the top frame's position returned `result`.
pub open spec fn apply_result(
    chapters: Seq<(String, VnChapter)>,
    frames: Seq<(Seq<char>, int)>,
    result: VnResult,
) -> Seq<(Seq<char>, int)> {
    if frames.len() == 0 {
        frames
    } else {
        match result {
            VnResult::Continue => advance_top(frames),
            VnResult::JumpTo { chapter, label } => {
                let target = target_chapter(frames, chapter);
                match chapter_model(chapters, target) {
                    Some(items) => frames.update(
                        frames.len() - 1,
                        (target, start_position(items, opt_chars(label))),
                    ),
                    None => advance_top(frames),
                }
            },
            VnResult::Enter { chapter, label } => {
                let target = target_chapter(frames, chapter);
                match chapter_model(chapters, target) {
                    Some(items) => frames.push((target, start_position(items, opt_chars(label)))),
                    None => advance_top(frames),
                }
            },
            VnResult::Exit => exit_frames(frames),
        }
    }
}

/// What the next step meets.
pub enum StepKind {
    /// Nothing runs.
    Idle,
    /// The top frame's chapter is gone.
    Vanished,
    /// The top frame is past its chapter's last item.
    FellOff,
    /// The top frame is at a label.
    Label,
    /// The top frame is at an action.
    Action,
}

pub open spec fn step_kind(chapters: Seq<(String, VnChapter)>, frames: Seq<(Seq<char>, int)>) -> StepKind {
    if frames.len() == 0 {
        StepKind::Idle
    } else {
        match chapter_model(chapters, frames.last().0) {
            None => StepKind::Vanished,
            Some(items) => if frames.last().1 >= items.len() {
                StepKind::FellOff
            } else {
                match items[frames.last().1] {
                    ItemModel::Label(_) => StepKind::Label,
                    ItemModel::Action(_) => StepKind::Action,
                }
            },
        }
    }
}

/// The frames after a step that dispatches nothing.
pub open spec fn passive_step(chapters: Seq<(String, VnChapter)>, frames: Seq<(Seq<char>, int)>) -> Seq<(Seq<char>, int)> {
    match step_kind(chapters, frames) {
        StepKind::Vanished => frames.drop_last(),
        StepKind::FellOff => exit_frames(frames),
        StepKind::Label => advance_top(frames),
        _ => frames,
    }
}

/// The entries of `s` whose flag is false, in order.
pub open spec fn without_flagged<T>(s: Seq<T>, flags: Seq<bool>) -> Seq<T>
    decreases s.len(),
{
    if s.len() == 0 || flags.len() == 0 {
        s
    } else if flags[0] {
        without_flagged(s.skip(1), flags.skip(1))
    } else {
        seq![s[0]] + without_flagged(s.skip(1), flags.skip(1))
    }
}

/// `f` answered `d` for the chapter `entry`, given by its name.
pub open spec fn answered<F: Fn(&str, &VnChapter) -> bool>(f: F, entry: (String, VnChapter), d: bool) -> bool {
    exists|s: &str| s@ == entry.0@ && f.ensures((s, &entry.1), d)
}

pub open spec fn opt_str(o: Option<&str>) -> Option<Seq<char>> {
    match o {
        Some(s) => Some(s@),
        None => None,
    }
}

/// An execution cursor: a chapter and a position in it.
struct Frame {
    chapter: String,
    position: usize,
}

/// The stepping interpreter: chapters by name, and a stack of frames.
pub struct Vm {
    host: intuicio_essentials::core::host::Host,
    chapters: Vec<(String, VnChapter)>,
    state: Vec<Frame>,
}

fn next_pos(p: usize) -> (r: usize)
    ensures
        r == next_position(p as int),
{
    if p < usize::MAX {
        p + 1
    } else {
        p
    }
}

/// The position of the first label named `label` in `chapter`.
fn find_label(chapter: &VnChapter, label: &str) -> (r: Option<usize>)
    ensures
        r is None <==> first_pos(label_list(chapter@), Some(label@)) is None,
        r matches Some(i) ==> first_pos(label_list(chapter@), Some(label@)) == Some(i as int),
{
    let ghost names = label_list(chapter@);
    let mut i: usize = 0;
    while i < chapter.items.len()
        invariant
            names == label_list(chapter@),
            names.len() == chapter.items.len(),
            i <= chapter.items.len(),
            first_pos(names.take(i as int), Some(label@)) is None,
        decreases chapter.items.len() - i,
    {
        proof {
            lemma_first_pos_step(names, Some(label@), i as int);
        }
        match &chapter.items[i] {
            VnChapterItem::Label(name) => {
                if str_eq(name.as_str(), label) {
                    proof {
                        lemma_first_pos_prefix(names, Some(label@), i + 1);
                    }
                    return Some(i);
                }
            },
            VnChapterItem::Action(_) => {},
        }
        i = i + 1;
    }
    proof {
        lemma_take_all(names);
    }
    None
}

fn start_index(chapter: &VnChapter, label: Option<&str>) -> (r: usize)
    ensures
        r == start_position(chapter@, opt_str(label)),
{
    match label {
        Some(l) => match find_label(chapter, l) {
            Some(i) => i,
            None => 0,
        },
        None => 0,
    }
}

impl Vm {
    /// The frames from the bottom of the stack to the top, as chapter name and position.
    pub closed spec fn frames(&self) -> Seq<(Seq<char>, int)> {
        self.state@.map_values(|f: Frame| (f.chapter@, f.position as int))
    }

    /// The chapters by name.
    pub closed spec fn table(&self) -> Seq<(String, VnChapter)> {
        self.chapters@
    }

    pub closed spec fn wf(&self) -> bool {
        unique_keys(self.chapters@)
    }

    /// The host: its context holds the globals, its registry the native functions.
    pub closed spec fn host_state(&self) -> intuicio_essentials::core::host::Host {
        self.host
    }

    pub fn new(host: intuicio_essentials::core::host::Host) -> (r: Vm)
        ensures
            r.wf(),
            r.frames().len() == 0,
            r.table().len() == 0,
    {
        let mut host = host;
        install_globals(&mut host, Globals::new());
        let r = Vm { host, chapters: Vec::new(), state: Vec::new() };
        proof {
            assert(r.frames() =~= Seq::empty());
        }
        r
    }

    pub fn host(&self) -> &intuicio_essentials::core::host::Host {
        &self.host
    }

    pub fn host_mut(&mut self) -> &mut intuicio_essentials::core::host::Host {
        &mut self.host
    }

    /// Starts running `chapter_name` at `label` (or at its top) in a new frame; false,
    /// with nothing changed, when there is no such chapter.
    pub fn enter(&mut self, chapter_name: &str, label: Option<&str>) -> (r: bool)
        ensures
            r == chapter_model(old(self).table(), chapter_name@) is Some,
            r ==> final(self).frames() == old(self).frames().push(
                (
                    chapter_name@,
                    start_position(
                        chapter_model(old(self).table(), chapter_name@)->Some_0,
                        opt_str(label),
                    ),
                ),
            ),
            !r ==> final(self).frames() == old(self).frames(),
            final(self).table() == old(self).table(),
            final(self).wf() == old(self).wf(),
            final(self).host_state() == old(self).host_state(),
    {
        match find_key(&self.chapters, chapter_name) {
            Some(ci) => {
                let position = start_index(&self.chapters[ci].1, label);
                let ghost before = self.frames();
                self.state.push(Frame { chapter: chapter_name.to_owned(), position });
                proof {
                    assert(self.frames() =~= before.push((chapter_name@, position as int)));
                }
                true
            },
            None => false,
        }
    }

    /// Returns from the top frame; the caller resumes after its call.
    pub fn exit(&mut self)
        ensures
            final(self).frames() == exit_frames(old(self).frames()),
            final(self).table() == old(self).table(),
            final(self).wf() == old(self).wf(),
            final(self).host_state() == old(self).host_state(),
    {
        let ghost before = self.frames();
        if self.state.len() > 0 {
            self.state.pop();
            proof {
                assert(self.frames() =~= before.drop_last());
            }
            self.advance();
        }
    }

    fn advance(&mut self)
        ensures
            final(self).frames() == advance_top(old(self).frames()),
            final(self).table() == old(self).table(),
            final(self).wf() == old(self).wf(),
            final(self).host_state() == old(self).host_state(),
    {
        let ghost before = self.frames();
        let n = self.state.len();
        if n > 0 {
            let p = next_pos(self.state[n - 1].position);
            let frame = self.state.pop().unwrap();
            self.state.push(Frame { chapter: frame.chapter, position: p });
            proof {
                assert(self.frames() =~= advance_top(before));
            }
        }
    }

    /// Applies what the action at the top frame returned: see `apply_result`.
    pub fn apply(&mut self, result: VnResult)
        ensures
            final(self).frames() == apply_result(old(self).table(), old(self).frames(), result),
            final(self).table() == old(self).table(),
            final(self).wf() == old(self).wf(),
            final(self).host_state() == old(self).host_state(),
    {
        let n = self.state.len();
        if n == 0 {
            return ;
        }
        let ghost before = self.frames();
        match result {
            VnResult::Continue => {
                self.advance();
            },
            VnResult::JumpTo { chapter, label } => {
                let target = match chapter {
                    Some(c) => c,
                    None => self.state[n - 1].chapter.clone(),
                };
                let label_str: Option<&str> = match &label {
                    Some(l) => Some(l.as_str()),
                    None => None,
                };
                match find_key(&self.chapters, target.as_str()) {
                    Some(ci) => {
                        let position = start_index(&self.chapters[ci].1, label_str);
                        self.state.pop();
                        self.state.push(Frame { chapter: target, position });
                        proof {
                            assert(self.frames() =~= before.update(
                                before.len() - 1,
                                (target@, position as int),
                            ));
                        }
                    },
                    None => {
                        self.advance();
                    },
                }
            },
            VnResult::Enter { chapter, label } => {
                let target = match chapter {
                    Some(c) => c,
                    None => self.state[n - 1].chapter.clone(),
                };
                let label_str: Option<&str> = match &label {
                    Some(l) => Some(l.as_str()),
                    None => None,
                };
                match find_key(&self.chapters, target.as_str()) {
                    Some(ci) => {
                        let position = start_index(&self.chapters[ci].1, label_str);
                        self.state.push(Frame { chapter: target, position });
                        proof {
                            assert(self.frames() =~= before.push((target@, position as int)));
                        }
                    },
                    None => {
                        self.advance();
                    },
                }
            },
            VnResult::Exit => {
                self.exit();
            },
        }
    }

    /// Advances execution by one item; see `step_kind` and `passive_step`. At an action,
    /// the action is dispatched and its result applied; a dispatch failure changes nothing.
    pub fn step(&mut self) -> (r: Result<(), DispatchError>)
        ensures
            step_kind(old(self).table(), old(self).frames()) is Action ==> {
                &&& r is Ok ==> exists|res: VnResult| final(self).frames() == apply_result(
                    old(self).table(),
                    old(self).frames(),
                    res,
                )
                &&& r is Err ==> final(self).frames() == old(self).frames()
            },
            !(step_kind(old(self).table(), old(self).frames()) is Action) ==> r is Ok
                && final(self).frames() == passive_step(old(self).table(), old(self).frames())
                && final(self).host_state() == old(self).host_state(),
            final(self).table() == old(self).table(),
            final(self).wf() == old(self).wf(),
    {
        let n = self.state.len();
        if n == 0 {
            return Ok(());
        }
        let ghost before = self.frames();
        let ci = match find_key(&self.chapters, self.state[n - 1].chapter.as_str()) {
            Some(ci) => ci,
            None => {
                self.state.pop();
                proof {
                    assert(self.frames() =~= before.drop_last());
                }
                return Ok(());
            },
        };
        let position = self.state[n - 1].position;
        if position >= self.chapters[ci].1.items.len() {
            self.exit();
            return Ok(());
        }
        assert(self.chapters@[ci as int].1@[position as int] == self.chapters@[ci as int].1.items@[position as int]@);
        let outcome = match &self.chapters[ci].1.items[position] {
            VnChapterItem::Label(_) => {
                self.advance();
                return Ok(());
            },
            VnChapterItem::Action(action) => {
                let (context, registry) = context_and_registry(&mut self.host);
                action.evaluate(context, registry)
            },
        };
        match outcome {
            Ok(result) => {
                self.apply(result);
                Ok(())
            },
            Err(e) => Err(e),
        }
    }

    /// The number of frames on the stack.
    pub fn depth(&self) -> (r: usize)
        ensures
            r == self.frames().len(),
    {
        self.state.len()
    }

    /// The chapter and position of the top frame.
    pub fn current(&self) -> (r: Option<(&str, usize)>)
        ensures
            self.frames().len() == 0 <==> r is None,
            r matches Some((c, p)) ==> self.frames().last() == (c@, p as int),
    {
        let n = self.state.len();
        if n == 0 {
            None
        } else {
            Some((self.state[n - 1].chapter.as_str(), self.state[n - 1].position))
        }
    }

    pub fn is_running(&self) -> (r: bool)
        ensures
            r == (self.frames().len() > 0),
    {
        self.state.len() > 0
    }

    pub fn chapters(&self) -> (r: &[(String, VnChapter)])
        ensures
            r@ == self.table(),
    {
        self.chapters.as_slice()
    }

    /// Adds `chapter` under `name`, in place of a chapter of that name.
    pub fn add_chapter(&mut self, name: String, chapter: VnChapter)
        ensures
            forall|k: Seq<char>| #[trigger]
                entry_get(final(self).table(), k) == if k == name@ {
                    Some(chapter)
                } else {
                    entry_get(old(self).table(), k)
                },
            final(self).frames() == old(self).frames(),
            old(self).wf() ==> final(self).wf(),
            final(self).host_state() == old(self).host_state(),
    {
        insert_entry(&mut self.chapters, name, chapter);
    }

    /// Adds every chapter of `story`, in place of chapters of the same names.
    pub fn add_story(&mut self, story: &VnStory)
        requires
            story.wf(),
        ensures
            forall|k: Seq<char>| #[trigger]
                chapter_model(final(self).table(), k) == match chapter_model(story.chapters@, k) {
                    Some(c) => Some(c),
                    None => chapter_model(old(self).table(), k),
                },
            final(self).frames() == old(self).frames(),
            old(self).wf() ==> final(self).wf(),
            final(self).host_state() == old(self).host_state(),
    {
        let ghost src = story.chapters@;
        let mut i: usize = 0;
        while i < story.chapters.len()
            invariant
                src == story.chapters@,
                unique_keys(src),
                i <= src.len(),
                forall|k: Seq<char>| #[trigger]
                    chapter_model(self.table(), k) == match chapter_model(src.take(i as int), k) {
                        Some(c) => Some(c),
                        None => chapter_model(old(self).table(), k),
                    },
                self.frames() == old(self).frames(),
                self.host_state() == old(self).host_state(),
                old(self).wf() ==> self.wf(),
            decreases src.len() - i,
        {
            let name = story.chapters[i].0.clone();
            let chapter = story.chapters[i].1.duplicate();
            proof {
                assert(src.take(i + 1) =~= src.take(i as int).push(src[i as int]));
                lemma_unique_not_before(src, i as int);
                assert forall|k: Seq<char>| #[trigger] chapter_model(src.take(i + 1), k) == match chapter_model(
                    src.take(i as int),
                    k,
                ) {
                    Some(c) => Some(c),
                    None => if k == src[i as int].0@ {
                        Some(src[i as int].1@)
                    } else {
                        None
                    },
                } by {
                    lemma_entry_get_push(src.take(i as int), src[i as int], k);
                }
            }
            let ghost prev = self.table();
            let ghost key = name@;
            let ghost items = chapter@;
            self.add_chapter(name, chapter);
            proof {
                assert forall|k: Seq<char>| #[trigger] chapter_model(self.table(), k) == if k == key {
                    Some(items)
                } else {
                    chapter_model(prev, k)
                } by {
                    assert(entry_get(self.table(), k) == if k == key {
                        Some(entry_get(self.table(), k)->Some_0)
                    } else {
                        entry_get(prev, k)
                    });
                }
            }
            i = i + 1;
        }
        proof {
            assert(src.take(src.len() as int) =~= src);
        }
    }

    /// Removes every chapter for which `f` returns true; the others keep their order.
    pub fn remove_chapters<F: Fn(&str, &VnChapter) -> bool>(&mut self, f: F)
        requires
            forall|name: &str, chapter: &VnChapter| #[trigger] f.requires((name, chapter)),
        ensures
            exists|verdicts: Seq<bool>|
                {
                    &&& verdicts.len() == old(self).table().len()
                    &&& final(self).table() == without_flagged(old(self).table(), verdicts)
                    &&& forall|i: int|
                        0 <= i < verdicts.len() ==> answered(f, old(self).table()[i], #[trigger] verdicts[i])
                },
            final(self).frames() == old(self).frames(),
            old(self).wf() ==> final(self).wf(),
            final(self).host_state() == old(self).host_state(),
    {
        let ghost original = self.chapters@;
        let mut flags: Vec<bool> = Vec::new();
        let ghost mut names: Seq<&str> = Seq::empty();
        let mut i: usize = 0;
        while i < self.chapters.len()
            invariant
                original == self.chapters@,
                forall|name: &str, chapter: &VnChapter| #[trigger] f.requires((name, chapter)),
                i <= self.chapters.len(),
                flags.len() == i,
                names.len() == i,
                forall|j: int|
                    0 <= j < i ==> (#[trigger] names[j])@ == original[j].0@ && f.ensures(
                        (names[j], &original[j].1),
                        flags@[j],
                    ),
            decreases self.chapters.len() - i,
        {
            let name = self.chapters[i].0.as_str();
            let d = f(name, &self.chapters[i].1);
            flags.push(d);
            proof {
                names = names.push(name);
            }
            i = i + 1;
        }
        self.remove_flagged(&flags);
        proof {
            assert forall|j: int| 0 <= j < flags@.len() implies answered(f, original[j], #[trigger] flags@[j]) by {
                assert(names[j]@ == original[j].0@);
            }
            assert(original == old(self).table());
        }
    }

    fn remove_flagged(&mut self, flags: &Vec<bool>)
        requires
            flags.len() == old(self).table().len(),
        ensures
            final(self).table() == without_flagged(old(self).table(), flags@),
            final(self).frames() == old(self).frames(),
            old(self).wf() ==> final(self).wf(),
            final(self).host_state() == old(self).host_state(),
    {
        let ghost original = self.chapters@;
        let mut i: usize = flags.len();
        proof {
            assert(original.skip(i as int) =~= Seq::empty());
            assert(flags@.skip(i as int) =~= Seq::empty());
            assert(original.take(i as int) + Seq::empty() =~= original);
        }
        while i > 0
            invariant
                i <= flags.len() == original.len(),
                self.chapters@ == original.take(i as int) + without_flagged(
                    original.skip(i as int),
                    flags@.skip(i as int),
                ),
                self.frames() == old(self).frames(),
                self.host_state() == old(self).host_state(),
                unique_keys(original) ==> unique_keys(self.chapters@),
            decreases i,
        {
            let ghost before = self.chapters@;
            proof {
                assert(original.skip(i - 1).skip(1) =~= original.skip(i as int));
                assert(flags@.skip(i - 1).skip(1) =~= flags@.skip(i as int));
                assert(original.skip(i - 1)[0] == original[i - 1]);
                assert(flags@.skip(i - 1)[0] == flags@[i - 1]);
            }
            if flags[i - 1] {
                self.chapters.remove(i - 1);
                proof {
                    assert(self.chapters@ =~= original.take(i - 1) + without_flagged(
                        original.skip(i - 1),
                        flags@.skip(i - 1),
                    ));
                    if unique_keys(before) {
                        assert forall|a: int, b: int| 0 <= a < b < self.chapters@.len() implies self.chapters@[a].0@
                            != self.chapters@[b].0@ by {
                            let a0 = if a < i - 1 { a } else { a + 1 };
                            let b0 = if b < i - 1 { b } else { b + 1 };
                            assert(self.chapters@[a] == before[a0]);
                            assert(self.chapters@[b] == before[b0]);
                        }
                    }
                }
            } else {
                proof {
                    assert(before =~= original.take(i - 1) + without_flagged(
                        original.skip(i - 1),
                        flags@.skip(i - 1),
                    ));
                }
            }
            i = i - 1;
        }
        proof {
            assert(original.skip(0) =~= original);
            assert(flags@.skip(0) =~= flags@);
            assert(original.take(0) + without_flagged(original, flags@) =~= without_flagged(original, flags@));
        }
    }

    /// Removes the chapter named `name`, and returns it.
    pub fn remove_chapter(&mut self, name: &str) -> (r: Option<VnChapter>)
        ensures
            r == entry_get(old(self).table(), name@),
            forall|k: Seq<char>| #[trigger]
                entry_get(final(self).table(), k) == if k == name@ {
                    None
                } else {
                    entry_get(old(self).table(), k)
                },
            final(self).frames() == old(self).frames(),
            old(self).wf() ==> final(self).wf(),
            final(self).host_state() == old(self).host_state(),
    {
        remove_entries(&mut self.chapters, name)
    }
}

} // verus!
