use crate::lookup::{entry_get, reversed_vec};
use crate::script::{VnFile, VnPackage};
use vstd::prelude::*;

verus! {

/// A document that a content provider loaded from `path`, to be known as `name`; `file`
/// is `None` when the path holds nothing to load.
#[derive(Debug)]
pub struct LoadedDocument {
    pub path: String,
    pub name: String,
    pub file: Option<VnFile>,
}

/// Work that a loader still has to do, innermost last.
#[derive(Debug)]
pub enum LoadTask {
    /// Load the documents at a path as written.
    Raw(String),
    /// Load the documents at a canonical path, unless it is loaded already.
    Canonical(String),
    /// Record these documents; the last one comes first.
    Documents(Vec<LoadedDocument>),
    /// Follow the imports of the document loaded from a path; the last one comes first.
    Imports(String, Vec<String>),
}

/// A loaded document's story, if any, has unique names.
pub open spec fn document_valid(d: LoadedDocument) -> bool {
    match d.file {
        Some(f) => f.story.wf(),
        None => true,
    }
}

/// Every document that a task holds has a story with unique names.
pub open spec fn tasks_valid(task: LoadTask) -> bool {
    match task {
        LoadTask::Documents(ds) => forall|k: int| 0 <= k < ds@.len() ==> document_valid(#[trigger] ds@[k]),
        _ => true,
    }
}

/// What a loader asks of the content provider next.
#[derive(Debug)]
pub enum LoadRequest {
    /// Put this path in canonical form, and answer with `sanitized`.
    Sanitize(String),
    /// Load the documents at this canonical path, and answer with `unpacked`.
    Unpack(String),
    /// Resolve an import (second) written in the document from a path (first), and
    /// answer with `joined`.
    Join(String, String),
    /// Nothing: call `next` again.
    Working,
    /// Every document is loaded.
    Done,
}

/// A depth-first loader of a document and everything it imports. Each path is loaded at
/// most once; a document is recorded before its imports are followed.
pub struct VnLoader {
    package: VnPackage,
    tasks: Vec<LoadTask>,
}

impl VnLoader {
    pub closed spec fn pending(&self) -> Seq<LoadTask> {
        self.tasks@
    }

    pub closed spec fn loaded(&self) -> VnPackage {
        self.package
    }

    pub closed spec fn wf(&self) -> bool {
        &&& self.package.wf()
        &&& forall|i: int| 0 <= i < self.tasks@.len() ==> tasks_valid(#[trigger] self.tasks@[i])
    }

    /// A loader that starts from the document at `entry`.
    pub fn new(entry: String) -> (r: VnLoader)
        ensures
            r.wf(),
            r.pending() == seq![LoadTask::Raw(entry)],
            r.loaded().files@.len() == 0,
    {
        let mut tasks: Vec<LoadTask> = Vec::new();
        tasks.push(LoadTask::Raw(entry));
        let r = VnLoader { package: VnPackage::new(), tasks };
        proof {
            assert(r.pending() =~= seq![LoadTask::Raw(entry)]);
        }
        r
    }

    /// Takes one step of the work on the innermost task.
    pub fn next(&mut self) -> (r: LoadRequest)
        requires
            old(self).wf(),
        ensures
            final(self).wf(),
            old(self).pending().len() == 0 ==> r is Done && final(self).pending() == old(self).pending()
                && final(self).loaded() == old(self).loaded(),
            old(self).pending().len() > 0 ==> match old(self).pending().last() {
                LoadTask::Raw(p) => r == LoadRequest::Sanitize(p) && final(self).pending()
                    == old(self).pending() && final(self).loaded() == old(self).loaded(),
                LoadTask::Canonical(p) => final(self).loaded() == old(self).loaded() && if entry_get(
                    old(self).loaded().files@,
                    p@,
                ) is Some {
                    r is Working && final(self).pending() == old(self).pending().drop_last()
                } else {
                    r == LoadRequest::Unpack(p) && final(self).pending() == old(self).pending()
                },
                LoadTask::Documents(ds) => r is Working && if ds.len() == 0 {
                    final(self).pending() == old(self).pending().drop_last() && final(self).loaded()
                        == old(self).loaded()
                } else {
                    let n = old(self).pending().len();
                    let d = ds@.last();
                    &&& final(self).pending().take(n - 1) == old(self).pending().drop_last()
                    &&& final(self).pending()[n - 1] matches LoadTask::Documents(rest) && rest@
                        == ds@.drop_last()
                    &&& match d.file {
                        Some(f) => {
                            &&& final(self).pending().len() == n + 1
                            &&& final(self).pending().last() matches LoadTask::Imports(base, deps) && base
                                == d.path && deps@.len() == f.dependencies@.len() && forall|k: int|
                                0 <= k < deps@.len() ==> #[trigger] deps@[k] == f.dependencies@[f.dependencies@.len()
                                    - 1 - k]
                            &&& forall|m: Seq<char>| #[trigger]
                                entry_get(final(self).loaded().files@, m) == if m == d.name@ {
                                    Some(f)
                                } else {
                                    entry_get(old(self).loaded().files@, m)
                                }
                        },
                        None => final(self).pending().len() == n && final(self).loaded() == old(
                            self,
                        ).loaded(),
                    }
                },
                LoadTask::Imports(base, deps) => final(self).loaded() == old(self).loaded() && if deps.len()
                    == 0 {
                    r is Working && final(self).pending() == old(self).pending().drop_last()
                } else {
                    &&& r == LoadRequest::Join(base, deps@.last())
                    &&& final(self).pending().len() == old(self).pending().len()
                    &&& final(self).pending().drop_last() == old(self).pending().drop_last()
                    &&& final(self).pending().last() matches LoadTask::Imports(b, rest) && b == base
                        && rest@ == deps@.drop_last()
                },
            },
    {
        let n = self.tasks.len();
        if n == 0 {
            return LoadRequest::Done;
        }
        let ghost before = self.tasks@;
        let task = self.tasks.pop().unwrap();
        proof {
            assert(self.tasks@ == before.drop_last());
        }
        match task {
            LoadTask::Raw(p) => {
                let q = p.clone();
                self.tasks.push(LoadTask::Raw(p));
                proof {
                    assert(self.tasks@ =~= before);
                }
                LoadRequest::Sanitize(q)
            },
            LoadTask::Canonical(p) => {
                if self.package.contains(p.as_str()) {
                    LoadRequest::Working
                } else {
                    let q = p.clone();
                    self.tasks.push(LoadTask::Canonical(p));
                    proof {
                        assert(self.tasks@ =~= before);
                    }
                    LoadRequest::Unpack(q)
                }
            },
            LoadTask::Documents(ds) => {
                let mut ds = ds;
                match ds.pop() {
                    None => LoadRequest::Working,
                    Some(d) => {
                        let ghost dd = d;
                        let LoadedDocument { path, name, file } = d;
                        self.tasks.push(LoadTask::Documents(ds));
                        let ghost mid = self.tasks@;
                        proof {
                            assert(mid.take(n - 1) =~= before.drop_last());
                            assert(before[n - 1] is Documents);
                            assert(tasks_valid(before[n - 1]));
                            assert forall|i: int| 0 <= i < mid.len() implies tasks_valid(#[trigger] mid[i]) by {
                                if i < n - 1 {
                                    assert(mid[i] == before[i]);
                                } else {
                                    assert forall|k: int| 0 <= k < ds@.len() implies document_valid(#[trigger] ds@[k]) by {
                                        assert(ds@[k] == before[n - 1]->Documents_0@[k]);
                                    }
                                }
                            }
                        }
                        match file {
                            Some(f) => {
                                proof {
                                    assert(document_valid(before[n - 1]->Documents_0@[before[n - 1]->Documents_0@.len() - 1]));
                                }
                                let deps = self.package.add_file(name, f);
                                let pending = reversed_vec(deps);
                                self.tasks.push(LoadTask::Imports(path, pending));
                                proof {
                                    assert(self.tasks@.take(n - 1) =~= before.drop_last());
                                    assert(self.tasks@[n - 1] == mid[n - 1]);
                                    assert forall|i: int| 0 <= i < self.tasks@.len() implies tasks_valid(#[trigger] self.tasks@[i]) by {
                                        if i < n {
                                            assert(self.tasks@[i] == mid[i]);
                                        }
                                    }
                                }
                                LoadRequest::Working
                            },
                            None => LoadRequest::Working,
                        }
                    },
                }
            },
            LoadTask::Imports(base, deps) => {
                let mut deps = deps;
                match deps.pop() {
                    None => LoadRequest::Working,
                    Some(rel) => {
                        let b = base.clone();
                        self.tasks.push(LoadTask::Imports(base, deps));
                        LoadRequest::Join(b, rel)
                    },
                }
            },
        }
    }
}

impl VnLoader {
    /// The innermost task's path in canonical form.
    pub fn sanitized(&mut self, path: String)
        requires
            old(self).wf(),
            old(self).pending().len() > 0,
            old(self).pending().last() is Raw,
        ensures
            final(self).wf(),
            final(self).pending() == old(self).pending().drop_last().push(LoadTask::Canonical(path)),
            final(self).loaded() == old(self).loaded(),
    {
        self.tasks.pop();
        self.tasks.push(LoadTask::Canonical(path));
    }

    /// The documents at the innermost task's canonical path, in the provider's order.
    pub fn unpacked(&mut self, documents: Vec<LoadedDocument>)
        requires
            old(self).wf(),
            old(self).pending().len() > 0,
            old(self).pending().last() is Canonical,
            forall|k: int| 0 <= k < documents@.len() ==> document_valid(#[trigger] documents@[k]),
        ensures
            final(self).wf(),
            final(self).pending().drop_last() == old(self).pending().drop_last(),
            final(self).pending().len() == old(self).pending().len(),
            final(self).pending().last() matches LoadTask::Documents(ds) && ds@.len()
                == documents@.len() && forall|k: int|
                0 <= k < ds@.len() ==> #[trigger] ds@[k] == documents@[documents@.len() - 1 - k],
            final(self).loaded() == old(self).loaded(),
    {
        let ghost docs = documents@;
        self.tasks.pop();
        let reversed = reversed_vec(documents);
        proof {
            assert forall|k: int| 0 <= k < reversed@.len() implies document_valid(#[trigger] reversed@[k]) by {
                assert(reversed@[k] == docs[docs.len() - 1 - k]);
            }
        }
        self.tasks.push(LoadTask::Documents(reversed));
    }

    /// The canonical-to-be path of the import that the last `Join` asked for.
    pub fn joined(&mut self, path: String)
        requires
            old(self).wf(),
        ensures
            final(self).wf(),
            final(self).pending() == old(self).pending().push(LoadTask::Raw(path)),
            final(self).loaded() == old(self).loaded(),
    {
        self.tasks.push(LoadTask::Raw(path));
    }

    /// The documents loaded so far, in load order.
    pub fn into_package(self) -> (r: VnPackage)
        requires
            self.wf(),
        ensures
            r == self.loaded(),
            r.wf(),
    {
        self.package
    }
}

} // verus!
