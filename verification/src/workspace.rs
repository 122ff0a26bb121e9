//! A collection of parsed files, keyed by their paths.

use vstd::prelude::*;
use vstd::string::StringSliceAdditionalSpecFns;

use crate::parsed::{entity_nodes, schema_nodes, ParsedEntity, ParsedSchema, ParsedSource};
use crate::syntax_tree::{child_text, opt_bytes, str_eq, SyntaxNode};

verus! {

/// An entity node whose type and ID read `t` and `id`.
pub open spec fn entity_matches(n: SyntaxNode, bytes: Seq<u8>, t: Seq<u8>, id: Seq<u8>) -> bool {
    &&& child_text(n, "entity_type"@, bytes) == Some(t)
    &&& child_text(n, "entity_id"@, bytes) == Some(id)
}

/// The file defines an entity of type `t` with ID `id`.
pub open spec fn defines_entity(p: ParsedSource, t: Seq<u8>, id: Seq<u8>) -> bool {
    exists|i: int|
        0 <= i < entity_nodes(p.tree()).len() && entity_matches(
            #[trigger] entity_nodes(p.tree())[i],
            p.bytes(),
            t,
            id,
        )
}

/// The file defines a schema named `name`.
pub open spec fn defines_schema(p: ParsedSource, name: Seq<u8>) -> bool {
    exists|i: int|
        0 <= i < schema_nodes(p.tree()).len() && child_text(
            #[trigger] schema_nodes(p.tree())[i],
            "schema_name"@,
            p.bytes(),
        ) == Some(name)
}

/// No two files share a path.
pub open spec fn distinct_paths(files: Seq<ParsedSource>) -> bool {
    forall|i: int, j: int|
        0 <= i < files.len() && 0 <= j < files.len() && i != j ==> #[trigger] files[i].file()
            != #[trigger] files[j].file()
}

/// The index of the file whose path is `path`, if any.
pub open spec fn index_of_path(files: Seq<ParsedSource>, path: Seq<char>) -> Option<int> {
    if exists|i: int| 0 <= i < files.len() && #[trigger] files[i].file() == path {
        Some(choose|i: int| 0 <= i < files.len() && #[trigger] files[i].file() == path)
    } else {
        None
    }
}

/// The files after adding `parsed`: it replaces the file with the same path,
/// or comes last when there is none.
pub open spec fn with_file(files: Seq<ParsedSource>, parsed: ParsedSource) -> Seq<ParsedSource> {
    match index_of_path(files, parsed.file()) {
        Some(i) => files.update(i, parsed),
        None => files.push(parsed),
    }
}

/// The path of the first file satisfying `found`, if any.
pub open spec fn first_path_where(
    files: Seq<ParsedSource>,
    found: spec_fn(ParsedSource) -> bool,
    r: Option<String>,
) -> bool {
    match r {
        Some(p) => exists|i: int|
            0 <= i < files.len() && found(#[trigger] files[i]) && files[i].file() == p@ && forall|
                j: int,
            |
                0 <= j < i ==> !found(#[trigger] files[j]),
        None => forall|i: int| 0 <= i < files.len() ==> !found(#[trigger] files[i]),
    }
}

/// Represents a collection of files to be processed by Firm.
///
/// Each file is held under its path; adding a file with a path already
/// present replaces the earlier one.
#[derive(Debug)]
pub struct Workspace {
    files: Vec<WorkspaceFile>,
}

/// Represents a parsed file in the workspace.
#[derive(Debug)]
pub struct WorkspaceFile {
    parsed: ParsedSource,
}

impl WorkspaceFile {
    /// The parsed file.
    pub closed spec fn spec_parsed(self) -> ParsedSource {
        self.parsed
    }

    pub fn new(parsed: ParsedSource) -> (r: Self)
        ensures
            r.spec_parsed() == parsed,
    {
        Self { parsed }
    }
}

impl View for Workspace {
    type V = Seq<ParsedSource>;

    closed spec fn view(&self) -> Seq<ParsedSource> {
        self.files@.map_values(|f: WorkspaceFile| f.parsed)
    }
}

impl Default for Workspace {
    fn default() -> (r: Self)
        ensures
            r@ == Seq::<ParsedSource>::empty(),
    {
        Self::new()
    }
}

impl Workspace {
    #[verifier::type_invariant]
    closed spec fn inv(self) -> bool {
        distinct_paths(self@)
    }

    pub fn new() -> (r: Self)
        ensures
            r@ == Seq::<ParsedSource>::empty(),
    {
        let r = Self { files: Vec::new() };
        proof {
            assert(r@ =~= Seq::<ParsedSource>::empty());
        }
        r
    }

    /// Gets the number of files currently in the workspace.
    pub fn num_files(&self) -> (r: usize)
        ensures
            r == self@.len(),
    {
        self.files.len()
    }

    /// Gets all file paths in the workspace.
    pub fn file_paths(&self) -> (r: Vec<&String>)
        ensures
            r@.len() == self@.len(),
            forall|i: int| 0 <= i < r@.len() ==> (#[trigger] r@[i])@ == self@[i].file(),
            distinct_paths(self@),
    {
        proof {
            use_type_invariant(self);
        }
        let mut r: Vec<&String> = Vec::new();
        let mut i: usize = 0;
        while i < self.files.len()
            invariant
                i <= self.files@.len(),
                r@.len() == i,
                forall|j: int| 0 <= j < i ==> (#[trigger] r@[j])@ == self@[j].file(),
            decreases self.files@.len() - i,
        {
            r.push(self.files[i].parsed.path());
            i = i + 1;
        }
        r
    }

    /// Returns all parsed source files in the workspace.
    pub fn parsed_sources(&self) -> (r: Vec<&ParsedSource>)
        ensures
            r@.len() == self@.len(),
            forall|i: int| 0 <= i < r@.len() ==> *(#[trigger] r@[i]) == self@[i],
    {
        let mut r: Vec<&ParsedSource> = Vec::new();
        let mut i: usize = 0;
        while i < self.files.len()
            invariant
                i <= self.files@.len(),
                r@.len() == i,
                forall|j: int| 0 <= j < i ==> *(#[trigger] r@[j]) == self@[j],
            decreases self.files@.len() - i,
        {
            r.push(&self.files[i].parsed);
            i = i + 1;
        }
        r
    }

    /// Adds a pre-parsed source file to the workspace, replacing the file
    /// with the same path if there is one.
    pub fn add_parsed_source(&mut self, parsed: ParsedSource)
        ensures
            final(self)@ == with_file(old(self)@, parsed),
            distinct_paths(final(self)@),
    {
        proof {
            use_type_invariant(&*self);
        }
        let ghost old_view = self@;
        let mut files: Vec<WorkspaceFile> = Vec::new();
        std::mem::swap(&mut files, &mut self.files);
        let mut i: usize = 0;
        while i < files.len()
            invariant
                i <= files@.len(),
                files@.map_values(|f: WorkspaceFile| f.parsed) == old_view,
                old_view == old(self)@,
                distinct_paths(old_view),
                forall|j: int| 0 <= j < i ==> (#[trigger] old_view[j]).file() != parsed.file(),
            decreases files@.len() - i,
        {
            if *files[i].parsed.path() == *parsed.path() {
                let ghost idx = i as int;
                proof {
                    assert(old_view[idx].file() == parsed.file());
                    let c = choose|k: int|
                        0 <= k < old_view.len() && #[trigger] old_view[k].file() == parsed.file();
                    assert(c == idx);
                }
                files.set(i, WorkspaceFile::new(parsed));
                proof {
                    assert(files@.map_values(|f: WorkspaceFile| f.parsed) =~= with_file(
                        old_view,
                        parsed,
                    ));
                }
                self.files = files;
                return ;
            }
            i = i + 1;
        }
        files.push(WorkspaceFile::new(parsed));
        proof {
            assert(files@.map_values(|f: WorkspaceFile| f.parsed) =~= with_file(old_view, parsed));
        }
        self.files = files;
    }

    /// Finds the source file path for an entity by its type and ID: the path
    /// of the first file, in workspace order, that defines such an entity.
    pub fn find_entity_source(&self, entity_type: &str, entity_id: &str) -> (r: Option<String>)
        ensures
            first_path_where(
                self@,
                |p: ParsedSource| defines_entity(p, entity_type.spec_bytes(), entity_id.spec_bytes()),
                r,
            ),
    {
        let ghost found = |p: ParsedSource|
            defines_entity(p, entity_type.spec_bytes(), entity_id.spec_bytes());
        let mut i: usize = 0;
        while i < self.files.len()
            invariant
                i <= self.files@.len(),
                found == (|p: ParsedSource|
                    defines_entity(p, entity_type.spec_bytes(), entity_id.spec_bytes())),
                forall|j: int| 0 <= j < i ==> !found(#[trigger] self@[j]),
            decreases self.files@.len() - i,
        {
            let parsed = &self.files[i].parsed;
            if source_has_entity(parsed, entity_type, entity_id) {
                let p = parsed.path().clone();
                proof {
                    assert(found(self@[i as int]));
                }
                return Some(p);
            }
            i = i + 1;
        }
        None
    }

    /// Finds the source file path for a schema by its name: the path of the
    /// first file, in workspace order, that defines such a schema.
    pub fn find_schema_source(&self, schema_name: &str) -> (r: Option<String>)
        ensures
            first_path_where(
                self@,
                |p: ParsedSource| defines_schema(p, schema_name.spec_bytes()),
                r,
            ),
    {
        let ghost found = |p: ParsedSource| defines_schema(p, schema_name.spec_bytes());
        let mut i: usize = 0;
        while i < self.files.len()
            invariant
                i <= self.files@.len(),
                found == (|p: ParsedSource| defines_schema(p, schema_name.spec_bytes())),
                forall|j: int| 0 <= j < i ==> !found(#[trigger] self@[j]),
            decreases self.files@.len() - i,
        {
            let parsed = &self.files[i].parsed;
            if source_has_schema(parsed, schema_name) {
                let p = parsed.path().clone();
                proof {
                    assert(found(self@[i as int]));
                }
                return Some(p);
            }
            i = i + 1;
        }
        None
    }
}

fn opt_str_is(o: Option<&str>, s: &str) -> (r: bool)
    ensures
        r == (opt_bytes(o) == Some(s.spec_bytes())),
{
    match o {
        Some(t) => str_eq(t, s),
        None => false,
    }
}

/// Whether a file defines an entity of the given type and ID.
fn source_has_entity(parsed: &ParsedSource, entity_type: &str, entity_id: &str) -> (r: bool)
    ensures
        r == defines_entity(*parsed, entity_type.spec_bytes(), entity_id.spec_bytes()),
{
    let entities = parsed.entities();
    let ghost nodes = entity_nodes(parsed.tree());
    let mut k: usize = 0;
    while k < entities.len()
        invariant
            k <= entities@.len(),
            nodes == entity_nodes(parsed.tree()),
            entities@.map_values(|e: ParsedEntity| e.spec_node()) == nodes,
            forall|j: int| 0 <= j < entities@.len() ==> (#[trigger] entities@[j]).spec_text() == parsed.text(),
            forall|j: int|
                0 <= j < k ==> !entity_matches(
                    #[trigger] nodes[j],
                    parsed.bytes(),
                    entity_type.spec_bytes(),
                    entity_id.spec_bytes(),
                ),
        decreases entities@.len() - k,
    {
        let e = &entities[k];
        proof {
            assert(nodes[k as int] == e.spec_node());
        }
        if opt_str_is(e.entity_type(), entity_type) && opt_str_is(e.id(), entity_id) {
            proof {
                assert(entity_matches(nodes[k as int], parsed.bytes(), entity_type.spec_bytes(), entity_id.spec_bytes()));
            }
            return true;
        }
        k = k + 1;
    }
    false
}

/// Whether a file defines a schema of the given name.
fn source_has_schema(parsed: &ParsedSource, schema_name: &str) -> (r: bool)
    ensures
        r == defines_schema(*parsed, schema_name.spec_bytes()),
{
    let schemas = parsed.schemas();
    let ghost nodes = schema_nodes(parsed.tree());
    let mut k: usize = 0;
    while k < schemas.len()
        invariant
            k <= schemas@.len(),
            nodes == schema_nodes(parsed.tree()),
            schemas@.map_values(|e: ParsedSchema| e.spec_node()) == nodes,
            forall|j: int| 0 <= j < schemas@.len() ==> (#[trigger] schemas@[j]).spec_text() == parsed.text(),
            forall|j: int|
                0 <= j < k ==> child_text(#[trigger] nodes[j], "schema_name"@, parsed.bytes())
                    != Some(schema_name.spec_bytes()),
        decreases schemas@.len() - k,
    {
        let s = &schemas[k];
        proof {
            assert(nodes[k as int] == s.spec_node());
        }
        if opt_str_is(s.name(), schema_name) {
            return true;
        }
        k = k + 1;
    }
    false
}

proof fn lemma_index_of_path(files: Seq<ParsedSource>, path: Seq<char>)
    requires
        distinct_paths(files),
    ensures
        index_of_path(files, path) matches Some(i) ==> 0 <= i < files.len() && files[i].file() == path,
        index_of_path(files, path) is None ==> forall|i: int|
            0 <= i < files.len() ==> #[trigger] files[i].file() != path,
        forall|i: int|
            0 <= i < files.len() && #[trigger] files[i].file() == path ==> index_of_path(files, path)
                == Some(i),
{
}

/// Adding a file keeps the paths distinct and holds the added file under its
/// path: it replaces the file with that path, or it comes last and the
/// workspace grows by one file. Every file under another path stays.
pub proof fn law_add_holds_file_by_path(files: Seq<ParsedSource>, parsed: ParsedSource)
    requires
        distinct_paths(files),
    ensures
        distinct_paths(with_file(files, parsed)),
        with_file(files, parsed).contains(parsed),
        with_file(files, parsed).len() == files.len() + if index_of_path(files, parsed.file()) is Some {
            0int
        } else {
            1int
        },
        forall|i: int|
            0 <= i < files.len() && #[trigger] files[i].file() != parsed.file() ==> with_file(
                files,
                parsed,
            )[i] == files[i],
{
    lemma_index_of_path(files, parsed.file());
    let r = with_file(files, parsed);
    match index_of_path(files, parsed.file()) {
        Some(k) => {
            assert(r[k] == parsed);
        },
        None => {
            assert(r[files.len() as int] == parsed);
        },
    }
}

/// Adding the same file twice has the effect of adding it once.
pub proof fn law_add_is_idempotent(files: Seq<ParsedSource>, parsed: ParsedSource)
    requires
        distinct_paths(files),
    ensures
        with_file(with_file(files, parsed), parsed) == with_file(files, parsed),
{
    law_add_holds_file_by_path(files, parsed);
    let once = with_file(files, parsed);
    lemma_index_of_path(files, parsed.file());
    lemma_index_of_path(once, parsed.file());
    match index_of_path(files, parsed.file()) {
        Some(k) => {
            assert(once[k] == parsed);
            assert(with_file(once, parsed) =~= once);
        },
        None => {
            assert(once[files.len() as int] == parsed);
            assert(with_file(once, parsed) =~= once);
        },
    }
}

/// Once a file that defines an entity is added, a search for that entity
/// finds a file.
pub proof fn law_added_entity_is_found(
    files: Seq<ParsedSource>,
    parsed: ParsedSource,
    entity_type: Seq<u8>,
    entity_id: Seq<u8>,
    r: Option<String>,
)
    requires
        distinct_paths(files),
        defines_entity(parsed, entity_type, entity_id),
        first_path_where(
            with_file(files, parsed),
            |p: ParsedSource| defines_entity(p, entity_type, entity_id),
            r,
        ),
    ensures
        r is Some,
{
    law_add_holds_file_by_path(files, parsed);
    let after = with_file(files, parsed);
    let k = choose|k: int| 0 <= k < after.len() && after[k] == parsed;
    let found = |p: ParsedSource| defines_entity(p, entity_type, entity_id);
    assert(found(after[k]));
}

/// Once a file that defines a schema is added, a search for that schema
/// finds a file.
pub proof fn law_added_schema_is_found(
    files: Seq<ParsedSource>,
    parsed: ParsedSource,
    name: Seq<u8>,
    r: Option<String>,
)
    requires
        distinct_paths(files),
        defines_schema(parsed, name),
        first_path_where(with_file(files, parsed), |p: ParsedSource| defines_schema(p, name), r),
    ensures
        r is Some,
{
    law_add_holds_file_by_path(files, parsed);
    let after = with_file(files, parsed);
    let k = choose|k: int| 0 <= k < after.len() && after[k] == parsed;
    let found = |p: ParsedSource| defines_schema(p, name);
    assert(found(after[k]));
}

/// The files of a workspace that starts empty and has each of `sources`
/// added in turn.
pub open spec fn after_adds(sources: Seq<ParsedSource>) -> Seq<ParsedSource>
    decreases sources.len(),
{
    if sources.len() == 0 {
        Seq::empty()
    } else {
        with_file(after_adds(sources.drop_last()), sources.last())
    }
}

/// The distinct paths among some files.
pub open spec fn paths(files: Seq<ParsedSource>) -> Set<Seq<char>> {
    files.map_values(|p: ParsedSource| p.file()).to_set()
}

proof fn lemma_paths_contains(files: Seq<ParsedSource>, path: Seq<char>)
    ensures
        paths(files).contains(path) <==> exists|i: int|
            0 <= i < files.len() && #[trigger] files[i].file() == path,
{
    let names = files.map_values(|p: ParsedSource| p.file());
    if exists|i: int| 0 <= i < files.len() && #[trigger] files[i].file() == path {
        let i = choose|i: int| 0 <= i < files.len() && #[trigger] files[i].file() == path;
        assert(names[i] == path);
    }
}

/// A workspace that starts empty and has any sequence of files added holds
/// one file per distinct path among them: its paths are distinct, they are
/// exactly the paths added, and so the number of files (what `num_files`,
/// `file_paths` and `parsed_sources` count) is the number of distinct paths.
pub proof fn law_adds_hold_one_file_per_path(sources: Seq<ParsedSource>)
    ensures
        distinct_paths(after_adds(sources)),
        paths(after_adds(sources)) == paths(sources),
        after_adds(sources).len() == paths(sources).len(),
    decreases sources.len(),
{
    broadcast use vstd::seq_lib::seq_to_set_is_finite;

    if sources.len() == 0 {
        assert(paths(sources) =~= Set::<Seq<char>>::empty());
        assert(paths(after_adds(sources)) =~= Set::<Seq<char>>::empty());
    } else {
        let init = sources.drop_last();
        let p = sources.last();
        let f = p.file();
        law_adds_hold_one_file_per_path(init);
        let prev = after_adds(init);
        let next = after_adds(sources);
        assert(next == with_file(prev, p));
        law_add_holds_file_by_path(prev, p);
        lemma_index_of_path(prev, f);
        assert(paths(sources) =~= paths(init).insert(f)) by {
            assert forall|x: Seq<char>| paths(sources).contains(x) <==> paths(init).insert(f).contains(x) by {
                lemma_paths_contains(sources, x);
                lemma_paths_contains(init, x);
                if exists|i: int| 0 <= i < init.len() && #[trigger] init[i].file() == x {
                    let i = choose|i: int| 0 <= i < init.len() && #[trigger] init[i].file() == x;
                    assert(sources[i] == init[i]);
                }
                if x == f {
                    assert(sources[sources.len() - 1].file() == x);
                }
                if exists|i: int| 0 <= i < sources.len() && #[trigger] sources[i].file() == x {
                    let i = choose|i: int| 0 <= i < sources.len() && #[trigger] sources[i].file() == x;
                    if i < init.len() {
                        assert(init[i] == sources[i]);
                    }
                }
            }
        }
        match index_of_path(prev, f) {
            Some(k) => {
                assert(next == prev.update(k, p));
                assert(paths(next) =~= paths(prev)) by {
                    assert forall|x: Seq<char>| paths(next).contains(x) <==> paths(prev).contains(x) by {
                        lemma_paths_contains(next, x);
                        lemma_paths_contains(prev, x);
                        if exists|i: int| 0 <= i < prev.len() && #[trigger] prev[i].file() == x {
                            let i = choose|i: int| 0 <= i < prev.len() && #[trigger] prev[i].file() == x;
                            assert(next[i].file() == x);
                        }
                        if exists|i: int| 0 <= i < next.len() && #[trigger] next[i].file() == x {
                            let i = choose|i: int| 0 <= i < next.len() && #[trigger] next[i].file() == x;
                            assert(prev[i].file() == x);
                        }
                    }
                }
                lemma_paths_contains(prev, f);
                assert(paths(init).insert(f) =~= paths(init));
            },
            None => {
                assert(next == prev.push(p));
                assert(paths(next) =~= paths(prev).insert(f)) by {
                    assert forall|x: Seq<char>| paths(next).contains(x) <==> paths(prev).insert(f).contains(x) by {
                        lemma_paths_contains(next, x);
                        lemma_paths_contains(prev, x);
                        if exists|i: int| 0 <= i < prev.len() && #[trigger] prev[i].file() == x {
                            let i = choose|i: int| 0 <= i < prev.len() && #[trigger] prev[i].file() == x;
                            assert(next[i] == prev[i]);
                        }
                        if x == f {
                            assert(next[prev.len() as int].file() == x);
                        }
                        if exists|i: int| 0 <= i < next.len() && #[trigger] next[i].file() == x {
                            let i = choose|i: int| 0 <= i < next.len() && #[trigger] next[i].file() == x;
                            if i < prev.len() {
                                assert(prev[i] == next[i]);
                            }
                        }
                    }
                }
                lemma_paths_contains(prev, f);
                assert(!paths(prev).contains(f));
            },
        }
    }
}

} // verus!
