use crate::lookup::{entry_get, last_defined};
use crate::parser::{add_dependency, document, entry_at, file_rest, skip_space};
use crate::script::{merged, VnResult};
use crate::value::{same_tag, ValueModel, VnValue};
use crate::vm::{
    advance_top, apply_result, chapter_model, next_position, passive_step, start_position,
    step_kind, target_chapter,
};
use crate::script::VnChapter;
use vstd::prelude::*;

verus! {

/// Every value has its own type; a value has the type of `Null` exactly when it is `Null`.
pub proof fn lemma_same_type(v: VnValue, x: VnValue)
    ensures
        same_tag(v@, v@),
        same_tag(ValueModel::Null, x@) <==> x is Null,
{
}

/// No path appears twice.
pub open spec fn no_duplicates(paths: Seq<Seq<char>>) -> bool {
    forall|i: int, j: int| 0 <= i < j < paths.len() ==> paths[i] != paths[j]
}

/// An import adds its path to the dependencies, once: afterwards they are the earlier
/// ones and that path, with none twice.
pub proof fn lemma_import_adds_once(deps: Seq<Seq<char>>, path: Seq<char>)
    requires
        no_duplicates(deps),
    ensures
        no_duplicates(add_dependency(deps, path)),
        forall|p: Seq<char>| #[trigger] add_dependency(deps, path).contains(p) <==> (deps.contains(p) || p == path),
{
    let r = add_dependency(deps, path);
    if !deps.contains(path) {
        assert forall|p: Seq<char>| #[trigger] r.contains(p) <==> (deps.contains(p) || p == path) by {
            if r.contains(p) {
                let k = choose|k: int| 0 <= k < r.len() && r[k] == p;
                if k < deps.len() {
                    assert(deps[k] == p);
                }
            }
            if deps.contains(p) {
                let k = choose|k: int| 0 <= k < deps.len() && deps[k] == p;
                assert(r[k] == p);
            }
            if p == path {
                assert(r[deps.len() as int] == p);
            }
        }
        assert forall|i: int, j: int| 0 <= i < j < r.len() implies r[i] != r[j] by {
            if j == deps.len() {
                assert(r[i] == deps[i]);
            }
        }
    }
}

proof fn lemma_rest_dependencies(s: Seq<char>, i: int, acc: crate::script::FileModel)
    requires
        no_duplicates(acc.dependencies),
    ensures
        file_rest(s, i, acc) matches Some(f) ==> no_duplicates(f.dependencies),
    decreases s.len() - i,
{
    if 0 <= i < s.len() {
        if let Some((next, q)) = entry_at(s, i, acc) {
            if let Some(e) = crate::parser::ident_at(s, i) {
                lemma_import_adds_once(acc.dependencies, crate::parser::text_at(s, skip_space(s, e))->Some_0.0);
            }
            let n = skip_space(s, q);
            if i < n <= s.len() {
                lemma_rest_dependencies(s, n, next);
            }
        }
    }
}

/// The path that the import statement at `i` carries, if an import stands there.
pub open spec fn import_at(s: Seq<char>, i: int) -> Option<Seq<char>> {
    match crate::parser::ident_at(s, i) {
        Some(e) => if s.subrange(i, e) == crate::parser::kw_import() {
            match crate::parser::text_at(s, skip_space(s, e)) {
                Some((t, _)) => Some(t),
                None => None,
            }
        } else {
            None
        },
        None => None,
    }
}

/// The paths of the import statements of a document from `i` on, in order, repeats
/// included.
pub open spec fn imports_from(s: Seq<char>, i: int, acc: crate::script::FileModel) -> Seq<Seq<char>>
    decreases s.len() - i,
{
    if i < 0 || i >= s.len() {
        Seq::empty()
    } else {
        match entry_at(s, i, acc) {
            Some((next, q)) => {
                let n = skip_space(s, q);
                let rest = if i < n <= s.len() {
                    imports_from(s, n, next)
                } else {
                    Seq::empty()
                };
                match import_at(s, i) {
                    Some(t) => seq![t] + rest,
                    None => rest,
                }
            },
            None => Seq::empty(),
        }
    }
}

/// The paths of all import statements of a document, in order, repeats included.
pub open spec fn imported_paths(s: Seq<char>) -> Seq<Seq<char>> {
    imports_from(s, skip_space(s, 0), crate::parser::empty_file())
}

proof fn lemma_rest_imports(s: Seq<char>, i: int, acc: crate::script::FileModel)
    requires
        no_duplicates(acc.dependencies),
    ensures
        file_rest(s, i, acc) matches Some(f) ==> forall|p: Seq<char>| #[trigger] f.dependencies.contains(p)
            <==> (acc.dependencies.contains(p) || imports_from(s, i, acc).contains(p)),
    decreases s.len() - i,
{
    if 0 <= i < s.len() {
        if let Some((next, q)) = entry_at(s, i, acc) {
            let n = skip_space(s, q);
            let rest = if i < n <= s.len() {
                imports_from(s, n, next)
            } else {
                Seq::empty()
            };
            match import_at(s, i) {
                Some(t) => {
                    lemma_import_adds_once(acc.dependencies, t);
                    assert(next.dependencies == add_dependency(acc.dependencies, t));
                },
                None => {
                    assert(next.dependencies == acc.dependencies);
                },
            }
            if i < n <= s.len() {
                lemma_rest_imports(s, n, next);
            }
            assert(imports_from(s, i, acc) == match import_at(s, i) {
                Some(t) => seq![t] + rest,
                None => rest,
            });
            if let Some(f) = file_rest(s, i, acc) {
                assert(i < n <= s.len());
                assert(file_rest(s, i, acc) == file_rest(s, n, next));
                assert forall|p: Seq<char>| #[trigger] f.dependencies.contains(p) <==> (
                acc.dependencies.contains(p) || imports_from(s, i, acc).contains(p)) by {
                    assert(f.dependencies.contains(p) <==> (next.dependencies.contains(p)
                        || rest.contains(p)));
                    match import_at(s, i) {
                        Some(t) => {
                            assert(next.dependencies.contains(p) <==> (acc.dependencies.contains(p)
                                || p == t));
                            if (seq![t] + rest).contains(p) {
                                let k = choose|k: int| 0 <= k < (seq![t] + rest).len() && (seq![t] + rest)[k] == p;
                                if k > 0 {
                                    assert(rest[k - 1] == p);
                                }
                            }
                            if p == t {
                                assert((seq![t] + rest)[0] == p);
                            }
                            if rest.contains(p) {
                                let k = choose|k: int| 0 <= k < rest.len() && rest[k] == p;
                                assert((seq![t] + rest)[k + 1] == p);
                            }
                        },
                        None => {},
                    }
                }
            }
        }
    } else if i == s.len() {
        assert forall|p: Seq<char>| !#[trigger] imports_from(s, i, acc).contains(p) by {}
    }
}

/// A parsed document's dependencies are exactly the paths of its import statements,
/// each listed once however often it is imported.
pub proof fn lemma_document_imports(s: Seq<char>)
    ensures
        document(s) matches Some(f) ==> no_duplicates(f.dependencies) && forall|p: Seq<char>|
            #[trigger] f.dependencies.contains(p) <==> imported_paths(s).contains(p),
{
    lemma_document_dependencies(s);
    lemma_rest_imports(s, skip_space(s, 0), crate::parser::empty_file());
}

/// A parsed document lists each imported path once, however often it is imported.
pub proof fn lemma_document_dependencies(s: Seq<char>)
    ensures
        document(s) matches Some(f) ==> no_duplicates(f.dependencies),
{
    lemma_rest_dependencies(s, skip_space(s, 0), crate::parser::empty_file());
}

/// When two stories are merged, a name that the later one defines has the later
/// definition.
pub proof fn lemma_later_definition_wins<V>(earlier: Seq<(String, V)>, later: Seq<(String, V)>, key: Seq<char>)
    requires
        entry_get(later, key) is Some,
    ensures
        merged(earlier, later, key) == entry_get(later, key),
{
}

/// Compiling documents: a name that the last document defines has that document's
/// definition, whatever the earlier ones define.
pub proof fn lemma_last_document_wins<V>(earlier: Seq<Seq<(String, V)>>, last: Seq<(String, V)>, key: Seq<char>)
    requires
        entry_get(last, key) is Some,
    ensures
        last_defined(earlier.push(last), key) == entry_get(last, key),
{
    assert(earlier.push(last).last() == last);
}

/// Entering a chapter from an action pushes a frame for it and leaves the caller's frame
/// as it was; when that frame is done, by `Exit` or by running off its chapter's end,
/// the caller resumes right after the action that entered.
pub proof fn lemma_enter_returns_after_call(
    chapters: Seq<(String, VnChapter)>,
    frames: Seq<(Seq<char>, int)>,
    chapter: Option<String>,
    label: Option<String>,
    callee: (Seq<char>, int),
)
    requires
        frames.len() > 0,
        chapter_model(chapters, target_chapter(frames, chapter)) is Some,
    ensures
        apply_result(chapters, frames, VnResult::Enter { chapter, label }) == frames.push(
            (
                target_chapter(frames, chapter),
                start_position(
                    chapter_model(chapters, target_chapter(frames, chapter))->Some_0,
                    crate::script::opt_chars(label),
                ),
            ),
        ),
        apply_result(chapters, frames.push(callee), VnResult::Exit) == advance_top(frames),
        step_kind(chapters, frames.push(callee)) is FellOff ==> passive_step(
            chapters,
            frames.push(callee),
        ) == advance_top(frames),
        advance_top(frames).len() == frames.len(),
        advance_top(frames).last() == (frames.last().0, next_position(frames.last().1)),
        forall|k: int| 0 <= k < frames.len() - 1 ==> #[trigger] advance_top(frames)[k] == frames[k],
{
    assert(frames.push(callee).drop_last() =~= frames);
}

/// A step whose top frame names a chapter that is gone drops that frame; with one frame,
/// nothing runs afterwards.
pub proof fn lemma_vanished_chapter_pops(chapters: Seq<(String, VnChapter)>, frames: Seq<(Seq<char>, int)>)
    requires
        frames.len() > 0,
        chapter_model(chapters, frames.last().0) is None,
    ensures
        step_kind(chapters, frames) is Vanished,
        passive_step(chapters, frames) == frames.drop_last(),
        frames.len() == 1 ==> passive_step(chapters, frames).len() == 0,
{
}

/// Entering a chapter while running adds a frame; no step removes more than one frame,
/// so execution goes on until every nested frame has been resolved.
pub proof fn lemma_frames_resolve_one_at_a_time(
    chapters: Seq<(String, VnChapter)>,
    frames: Seq<(Seq<char>, int)>,
    result: VnResult,
)
    ensures
        apply_result(chapters, frames, result).len() + 1 >= frames.len(),
        passive_step(chapters, frames).len() + 1 >= frames.len(),
        frames.len() > 1 ==> apply_result(chapters, frames, result).len() > 0,
        frames.len() > 1 ==> passive_step(chapters, frames).len() > 0,
{
}

} // verus!
