//! The registry of open documents: one document for each canonical path.

use vstd::prelude::*;
use crate::code::Code;
use crate::error::DocError;
use crate::history::CodeView;
use crate::strings::str_eq;

verus! {

/// The open documents, each under the canonical path of its file.
pub struct DocumentRegistry {
    paths: Vec<String>,
    docs: Vec<Code>,
}

/// `path` is one of `paths`.
pub open spec fn listed(paths: Seq<String>, path: Seq<char>) -> bool {
    exists|i: int| 0 <= i < paths.len() && (#[trigger] paths[i])@ == path
}

/// Where `path` stands among `paths`.
pub open spec fn index_of(paths: Seq<String>, path: Seq<char>) -> int {
    choose|i: int| 0 <= i < paths.len() && (#[trigger] paths[i])@ == path
}

/// No path occurs twice.
pub open spec fn distinct(paths: Seq<String>) -> bool {
    forall|i: int, j: int|
        0 <= i < j < paths.len() ==> (#[trigger] paths[i])@ != (#[trigger] paths[j])@
}

/// The documents by their paths.
pub open spec fn by_path(paths: Seq<String>, docs: Seq<Code>) -> Map<Seq<char>, CodeView> {
    Map::new(|path: Seq<char>| listed(paths, path), |path: Seq<char>| docs[index_of(paths, path)]@)
}

/// Changing the document under a path changes the map at that path alone.
proof fn lemma_update_by_path(paths: Seq<String>, docs: Seq<Code>, i: int, doc: Code)
    requires
        paths.len() == docs.len(),
        distinct(paths),
        0 <= i < paths.len(),
    ensures
        by_path(paths, docs.update(i, doc)) == by_path(paths, docs).insert(paths[i]@, doc@),
{
    let before = by_path(paths, docs);
    let after = by_path(paths, docs.update(i, doc));
    assert forall|path: Seq<char>| #[trigger] after.dom().contains(path) implies after[path]
        == before.insert(paths[i]@, doc@)[path] by {
        let j = index_of(paths, path);
        if path == paths[i]@ {
            assert(j == i);
        }
    }
    assert(after =~= before.insert(paths[i]@, doc@));
}

/// A new path with its document is one more entry of the map.
proof fn lemma_push_by_path(paths: Seq<String>, docs: Seq<Code>, path: String, doc: Code)
    requires
        paths.len() == docs.len(),
        distinct(paths),
        !listed(paths, path@),
    ensures
        distinct(paths.push(path)),
        by_path(paths.push(path), docs.push(doc)) == by_path(paths, docs).insert(path@, doc@),
{
    let before = by_path(paths, docs);
    let more = paths.push(path);
    let after = by_path(more, docs.push(doc));
    assert(distinct(more)) by {
        assert forall|i: int, j: int| 0 <= i < j < more.len() implies (#[trigger] more[i])@ != (
        #[trigger] more[j])@ by {
            if j == paths.len() {
                assert(paths[i]@ != path@);
            }
        }
    }
    assert forall|p: Seq<char>| #[trigger] after.dom().contains(p) == before.insert(
        path@,
        doc@,
    ).dom().contains(p) by {
        if listed(more, p) {
            let j = index_of(more, p);
            if j < paths.len() {
                assert(paths[j]@ == p);
            }
        }
        if listed(paths, p) {
            let j = index_of(paths, p);
            assert(more[j]@ == p);
        }
        if p == path@ {
            assert(more[paths.len() as int]@ == p);
        }
    }
    assert forall|p: Seq<char>| #[trigger] after.dom().contains(p) implies after[p]
        == before.insert(path@, doc@)[p] by {
        let j = index_of(more, p);
        if p == path@ {
            assert(more[paths.len() as int]@ == p);
            assert(j == paths.len());
        } else {
            assert(j < paths.len());
            assert(paths[j]@ == p);
            let k = index_of(paths, p);
            assert(more[k]@ == p);
            assert(k == j);
        }
    }
    assert(after =~= before.insert(path@, doc@));
}

/// Distinct paths make a map with as many entries as there are paths.
proof fn lemma_count_by_path(paths: Seq<String>, docs: Seq<Code>)
    requires
        distinct(paths),
    ensures
        by_path(paths, docs).dom().finite(),
        by_path(paths, docs).dom().len() == paths.len(),
    decreases paths.len(),
{
    let dom = by_path(paths, docs).dom();
    if paths.len() == 0 {
        assert(dom =~= Set::<Seq<char>>::empty());
    } else {
        let init = paths.drop_last();
        let last = paths.last()@;
        lemma_count_by_path(init, docs);
        let before = by_path(init, docs).dom();
        assert(!before.contains(last)) by {
            if listed(init, last) {
                let i = choose|i: int| 0 <= i < init.len() && (#[trigger] init[i])@ == last;
                assert(paths[i]@ == paths[paths.len() - 1]@);
            }
        }
        assert forall|p: Seq<char>| dom.contains(p) == before.insert(last).contains(p) by {
            if listed(paths, p) {
                let i = choose|i: int| 0 <= i < paths.len() && (#[trigger] paths[i])@ == p;
                if i < init.len() {
                    assert(init[i]@ == p);
                }
            }
            if listed(init, p) {
                let i = choose|i: int| 0 <= i < init.len() && (#[trigger] init[i])@ == p;
                assert(paths[i]@ == p);
            }
            if p == last {
                assert(paths[paths.len() - 1]@ == p);
            }
        }
        assert(dom =~= before.insert(last));
    }
}

impl View for DocumentRegistry {
    type V = Map<Seq<char>, CodeView>;

    closed spec fn view(&self) -> Map<Seq<char>, CodeView> {
        by_path(self.paths@, self.docs@)
    }
}

impl DocumentRegistry {
    /// The registry holds one document for each of its paths, and no path
    /// twice.
    pub closed spec fn wf(&self) -> bool {
        &&& self.paths@.len() == self.docs@.len()
        &&& distinct(self.paths@)
    }

    /// A registry without documents.
    pub fn new() -> (r: DocumentRegistry)
        ensures
            r.wf(),
            r@ == Map::<Seq<char>, CodeView>::empty(),
    {
        let r = DocumentRegistry { paths: Vec::new(), docs: Vec::new() };
        assert(r@ =~= Map::<Seq<char>, CodeView>::empty());
        r
    }

    /// Where the document of `path` stands, if there is one.
    fn find(&self, path: &str) -> (r: Option<usize>)
        requires
            self.wf(),
        ensures
            r is Some <==> listed(self.paths@, path@),
            r matches Some(i) ==> i < self.paths@.len() && self.paths@[i as int]@ == path@ && i
                == index_of(self.paths@, path@),
    {
        let mut i: usize = 0;
        while i < self.paths.len()
            invariant
                self.wf(),
                0 <= i <= self.paths@.len(),
                forall|j: int| 0 <= j < i ==> (#[trigger] self.paths@[j])@ != path@,
            decreases self.paths@.len() - i,
        {
            if str_eq(self.paths[i].as_str(), path) {
                return Some(i);
            }
            i += 1;
        }
        None
    }

    /// The number of documents.
    pub fn len(&self) -> (n: usize)
        requires
            self.wf(),
        ensures
            self@.dom().finite(),
            n == self@.dom().len(),
    {
        proof {
            lemma_count_by_path(self.paths@, self.docs@);
        }
        self.paths.len()
    }

    /// Whether `path` has a document.
    pub fn contains(&self, path: &str) -> (r: bool)
        requires
            self.wf(),
        ensures
            r == self@.contains_key(path@),
    {
        self.find(path).is_some()
    }

    /// The document of `path`, if there is one.
    pub fn get(&self, path: &str) -> (r: Option<&Code>)
        requires
            self.wf(),
        ensures
            r is Some <==> self@.contains_key(path@),
            r matches Some(code) ==> code@ == self@[path@],
    {
        match self.find(path) {
            Some(i) => Some(&self.docs[i]),
            None => None,
        }
    }

    /// The document of `path` for changing, if there is one. The registry
    /// holds under `path` whatever the caller makes of the document, and is
    /// otherwise as before.
    pub fn get_mut(&mut self, path: &str) -> (r: Option<&mut Code>)
        requires
            old(self).wf(),
        ensures
            final(self).wf(),
            r is Some <==> old(self)@.contains_key(path@),
            r matches Some(code) ==> code@ == old(self)@[path@] && final(self)@
                == old(self)@.insert(path@, final(code)@),
            r is None ==> final(self)@ == old(self)@,
    {
        match self.find(path) {
            Some(i) => {
                let code = &mut self.docs[i];
                proof {
                    lemma_update_by_path(old(self).paths@, old(self).docs@, i as int, *final(code));
                }
                Some(code)
            },
            None => None,
        }
    }
}

/// The document of `path` for changing, where the registry has none yet a
/// new one: empty and clean, named `path` and stored under `path`. The
/// registry holds under `path` whatever the caller makes of the document,
/// and is otherwise as before.
pub fn get_or_create_empty<'a>(f2c: &'a mut DocumentRegistry, path: &str) -> (code: &'a mut Code)
    requires
        old(f2c).wf(),
    ensures
        final(f2c).wf(),
        code@ == if old(f2c)@.contains_key(path@) {
            old(f2c)@[path@]
        } else {
            CodeView { file_name: path@, abs_path: path@, ..CodeView::empty() }
        },
        final(f2c)@ == old(f2c)@.insert(path@, final(code)@),
{
    let loaded = if f2c.contains(path) {
        Err(DocError::FileAccess)
    } else {
        let mut fresh = Code::new();
        fresh.file_name = path.to_string();
        fresh.abs_path = path.to_string();
        Ok(fresh)
    };
    match get_or_create_code(f2c, path, loaded) {
        Ok(code) => code,
        Err(_) => vstd::pervasive::unreached(),
    }
}

/// A path has one document: where a path is taken that the registry holds
/// already, whatever the spelling it was first asked for in, the registry
/// gains no entry, and what is made of the document through the one taking
/// is what the next one finds.
pub proof fn one_document_per_path(
    registry: Map<Seq<char>, CodeView>,
    path: Seq<char>,
    edited: CodeView,
)
    requires
        registry.contains_key(path),
    ensures
        registry.insert(path, edited).dom() == registry.dom(),
        registry.insert(path, edited)[path] == edited,
        forall|other: Seq<char>|
            other != path && registry.contains_key(other) ==> #[trigger] registry.insert(
                path,
                edited,
            )[other] == registry[other],
{
    assert(registry.insert(path, edited).dom() =~= registry.dom());
}

/// The document of `path` for changing. Where the registry has none yet,
/// `loaded` decides: a document that was loaded goes in under `path`, a
/// failure to load is handed on and nothing goes in. Where the registry has
/// one, `loaded` is not looked at. The registry holds under `path` whatever
/// the caller makes of the document, and is otherwise as before.
pub fn get_or_create_code<'a>(
    f2c: &'a mut DocumentRegistry,
    path: &str,
    loaded: Result<Code, DocError>,
) -> (r: Result<&'a mut Code, DocError>)
    requires
        old(f2c).wf(),
    ensures
        final(f2c).wf(),
        r is Ok <==> old(f2c)@.contains_key(path@) || loaded is Ok,
        r matches Ok(code) ==> {
            &&& code@ == if old(f2c)@.contains_key(path@) {
                old(f2c)@[path@]
            } else {
                loaded->Ok_0@
            }
            &&& final(f2c)@ == old(f2c)@.insert(path@, final(code)@)
        },
        r matches Err(e) ==> loaded == Err::<Code, DocError>(e) && final(f2c)@ == old(f2c)@,
{
    match f2c.find(path) {
        Some(i) => {
            let code = &mut f2c.docs[i];
            proof {
                lemma_update_by_path(old(f2c).paths@, old(f2c).docs@, i as int, *final(code));
            }
            Ok(code)
        },
        None => match loaded {
            Ok(fresh) => {
                let ghost fresh_view = fresh@;
                f2c.paths.push(path.to_string());
                f2c.docs.push(fresh);
                let i = f2c.docs.len() - 1;
                let ghost pushed = f2c.docs@;
                proof {
                    lemma_push_by_path(
                        old(f2c).paths@,
                        old(f2c).docs@,
                        f2c.paths@[i as int],
                        pushed[i as int],
                    );
                    assert(f2c.paths@ =~= old(f2c).paths@.push(f2c.paths@[i as int]));
                    assert(pushed =~= old(f2c).docs@.push(pushed[i as int]));
                }
                let code = &mut f2c.docs[i];
                proof {
                    lemma_update_by_path(f2c.paths@, pushed, i as int, *final(code));
                    assert(old(f2c)@.insert(path@, fresh_view).insert(path@, final(code)@)
                        =~= old(f2c)@.insert(path@, final(code)@));
                }
                Ok(code)
            },
            Err(e) => Err(e),
        },
    }
}

} // verus!
