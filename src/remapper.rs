use std::collections::HashMap;
use vstd::prelude::*;
use vstd::string::*;

use crate::error::RemapError;
use crate::naming::{
    base_name, base_name_of, file_name_of, find_last, trim_end, trim_path_end, last_index_of, lemma_last_index_bounds, numbered,
    numbered_name,
};
use crate::scanner::{
    import_paths, keys_view, lemma_nothing_renamed_keeps_text, paths_view, regex_compiles,
    renamed_target, renamed_view, rewrite,
    ImportScanner, IMPORT_PATTERN,
};
use crate::table::NameTable;

verus! {

/// What duplicate resolution has seen so far: the first content stored for
/// each base name, and how many times each base name has been renamed.
pub struct RenameState {
    pub contents: Map<Seq<char>, Seq<char>>,
    pub counts: Map<Seq<char>, nat>,
}

/// The renames a base name has had so far.
pub open spec fn count_of(s: RenameState, base: Seq<char>) -> nat {
    if s.counts.contains_key(base) {
        s.counts[base]
    } else {
        0
    }
}

/// Whether a file with this base name and content keeps its name: the base
/// name is new, or the content is the one first seen under it.
pub open spec fn keeps_name(s: RenameState, base: Seq<char>, content: Seq<char>) -> bool {
    !s.contents.contains_key(base) || s.contents[base] == content
}

/// Duplicate resolution of one file: the state after it, and the file's
/// final name.
pub open spec fn resolve(s: RenameState, base: Seq<char>, content: Seq<char>) -> (
    RenameState,
    Seq<char>,
) {
    if !s.contents.contains_key(base) {
        (RenameState { contents: s.contents.insert(base, content), counts: s.counts }, base)
    } else if s.contents[base] == content {
        (s, base)
    } else {
        let n = count_of(s, base) + 1;
        (
            RenameState { contents: s.contents, counts: s.counts.insert(base, n) },
            numbered_name(base, n),
        )
    }
}

/// Two files with the same base name and the same content both keep the
/// base name, and the second changes nothing, when that content is the
/// first one seen under the base name (or the base name is new).
pub proof fn lemma_identical_files_share_name(s: RenameState, base: Seq<char>, content: Seq<char>)
    requires
        keeps_name(s, base, content),
    ensures
        resolve(s, base, content).1 == base,
        resolve(resolve(s, base, content).0, base, content).1 == base,
        resolve(resolve(s, base, content).0, base, content).0 == resolve(s, base, content).0,
{
}

/// Under a new base name, the first file keeps the name, a second file with
/// other content becomes `<base>_1`, and a third file whose content differs
/// from the first becomes `<base>_2`.
pub proof fn lemma_collisions_numbered(
    s: RenameState,
    base: Seq<char>,
    first: Seq<char>,
    second: Seq<char>,
    third: Seq<char>,
)
    requires
        !s.contents.contains_key(base),
        !s.counts.contains_key(base),
        second != first,
        third != first,
    ensures
        ({
            let (s1, n1) = resolve(s, base, first);
            let (s2, n2) = resolve(s1, base, second);
            let (s3, n3) = resolve(s2, base, third);
            &&& n1 == base
            &&& n2 == numbered_name(base, 1)
            &&& n3 == numbered_name(base, 2)
        }),
{
}

/// Resolving a file moves the counter of its own base name only, and only
/// upwards: by one when the file is renamed, not at all otherwise. What is
/// stored under other base names is untouched.
pub proof fn lemma_counters_per_name(
    s: RenameState,
    base: Seq<char>,
    content: Seq<char>,
    other: Seq<char>,
)
    requires
        other != base,
    ensures
        ({
            let (t, name) = resolve(s, base, content);
            &&& count_of(t, other) == count_of(s, other)
            &&& t.contents.contains_key(other) == s.contents.contains_key(other)
            &&& t.contents.contains_key(other) ==> t.contents[other] == s.contents[other]
            &&& keeps_name(s, base, content) ==> count_of(t, base) == count_of(s, base)
                && name == base
            &&& !keeps_name(s, base, content) ==> count_of(t, base) == count_of(s, base) + 1
                && name == numbered_name(base, count_of(t, base))
        }),
{
}

/// The extension of every output file.
pub const SOURCE_EXTENSION: &'static str = ".sol";

/// The directory holding a path's last component, after trailing
/// separators and `.` components are dropped (`/` for a component at the
/// root, empty for a bare name). The root and the empty path have none.
pub open spec fn parent_of(path: Seq<char>) -> Option<Seq<char>> {
    let t = trim_end(path);
    let i = last_index_of(t, '/');
    if t.len() == 0 || t == seq!['/'] {
        None
    } else if i < 0 {
        Some(Seq::empty())
    } else if i == 0 {
        Some(seq!['/'])
    } else {
        Some(trim_end(t.take(i)))
    }
}

/// `name` inside directory `dir`; an absolute `name` stands for itself.
pub open spec fn join(dir: Seq<char>, name: Seq<char>) -> Seq<char> {
    if dir.len() == 0 || (name.len() > 0 && name[0] == '/') {
        name
    } else if dir.last() == '/' {
        dir + name
    } else {
        dir + seq!['/'] + name
    }
}

/// A path with a base name has a parent.
pub proof fn lemma_base_name_has_parent(path: Seq<char>)
    requires
        base_name(path) is Some,
    ensures
        parent_of(path) is Some,
{
    let t = trim_end(path);
    if t == seq!['/'] {
        assert(t.last() == '/');
        assert(last_index_of(t, '/') == 0);
        assert(file_name_of(path).len() == 0);
    }
}

/// Where a file goes: its directory, its full path and its file name.
pub struct OutputPath {
    pub dir: String,
    pub path: String,
    pub file_name: String,
}

/// Flattens source files into one directory per source directory, renaming
/// files whose base names collide and rewriting imports of renamed files.
pub struct LocalRemapper {
    temp_directory: String,
    project_paths: HashMap<String, String>,
    remappings: HashMap<String, String>,
    name_counts: NameTable<u64>,
    content_by_name: NameTable<String>,
    path_map: NameTable<(String, String)>,
}

impl LocalRemapper {
    /// The name of the output directory.
    pub closed spec fn temp_directory(&self) -> Seq<char> {
        self.temp_directory@
    }

    /// The state of duplicate resolution.
    pub closed spec fn rename_state(&self) -> RenameState {
        RenameState {
            contents: self.content_by_name@.map_values(|c: String| c@),
            counts: self.name_counts@.map_values(|n: u64| n as nat),
        }
    }

    /// The project paths this remapper was given.
    pub closed spec fn project_paths_spec(&self) -> HashMap<String, String> {
        self.project_paths
    }

    /// The remapping rules this remapper was given.
    pub closed spec fn remappings_spec(&self) -> HashMap<String, String> {
        self.remappings
    }

    /// The renamed files: canonical original path to (output path, output
    /// file name).
    pub closed spec fn renamed(&self) -> Map<Seq<char>, (Seq<char>, Seq<char>)> {
        renamed_view(self.path_map@)
    }

    /// A remapper that has seen no file yet. The project paths and the
    /// remapping rules are kept for other tools; the remapping here does not
    /// consult them.
    pub fn new(
        temp_directory: &str,
        project_paths: HashMap<String, String>,
        remappings: HashMap<String, String>,
    ) -> (r: Self)
        ensures
            r.temp_directory() == temp_directory@,
            r.project_paths_spec() == project_paths,
            r.remappings_spec() == remappings,
            r.rename_state().contents == Map::<Seq<char>, Seq<char>>::empty(),
            r.rename_state().counts == Map::<Seq<char>, nat>::empty(),
            r.renamed() == Map::<Seq<char>, (Seq<char>, Seq<char>)>::empty(),
    {
        let r = LocalRemapper {
            temp_directory: temp_directory.to_string(),
            project_paths,
            remappings,
            name_counts: NameTable::new(),
            content_by_name: NameTable::new(),
            path_map: NameTable::new(),
        };
        assert(r.rename_state().contents =~= Map::<Seq<char>, Seq<char>>::empty());
        assert(r.rename_state().counts =~= Map::<Seq<char>, nat>::empty());
        assert(r.renamed() =~= Map::<Seq<char>, (Seq<char>, Seq<char>)>::empty());
        r
    }

    /// The project paths, kept for other tools.
    pub fn project_paths(&self) -> (r: &HashMap<String, String>)
        ensures
            *r == self.project_paths_spec(),
    {
        &self.project_paths
    }

    /// The remapping rules, kept for other tools.
    pub fn remappings(&self) -> (r: &HashMap<String, String>)
        ensures
            *r == self.remappings_spec(),
    {
        &self.remappings
    }

    /// The final name of the file at `path` with `source_content`: its base
    /// name, or `<base>_<n>` when an earlier file with that base name had
    /// other content. `CounterOverflow` when that base name was already
    /// renamed `u64::MAX` times. Whether the file is the main one changes
    /// nothing.
    pub fn check_and_rename_contract(
        &mut self,
        path: &str,
        source_content: &str,
        is_main_contract: bool,
    ) -> (r: Result<String, RemapError>)
        ensures
            final(self).temp_directory() == old(self).temp_directory(),
            final(self).renamed() == old(self).renamed(),
            base_name(path@) is None ==> r == Err::<String, RemapError>(RemapError::InvalidPath)
                && final(self).rename_state() == old(self).rename_state(),
            base_name(path@) matches Some(base) ==> {
                let s = old(self).rename_state();
                if !keeps_name(s, base, source_content@) && count_of(s, base) == u64::MAX {
                    r == Err::<String, RemapError>(RemapError::CounterOverflow)
                        && final(self).rename_state() == s
                } else {
                    r matches Ok(name) && (final(self).rename_state(), name@) == resolve(
                        s,
                        base,
                        source_content@,
                    )
                }
            },
    {
        let base = match base_name_of(path) {
            Some(b) => b,
            None => return Err(RemapError::InvalidPath),
        };
        let ghost s = self.rename_state();
        let content = source_content.to_string();
        let seen = match self.content_by_name.get(&base) {
            Some(existing) => Some(*existing == content),
            None => None,
        };
        match seen {
            None => {
                self.content_by_name.insert(base.clone(), content);
                assert(self.rename_state().contents =~= s.contents.insert(base@, source_content@));
                assert(self.rename_state().counts =~= s.counts);
                Ok(base)
            },
            Some(true) => {
                assert(s.contents[base@] == source_content@);
                Ok(base)
            },
            Some(false) => {
                let count: u64 = match self.name_counts.get(&base) {
                    Some(n) => *n,
                    None => 0,
                };
                assert(s.contents.contains_key(base@) && s.contents[base@] != source_content@);
                assert(count_of(s, base@) == count as nat);
                if count == u64::MAX {
                    return Err(RemapError::CounterOverflow);
                }
                let next = count + 1;
                self.name_counts.insert(base.clone(), next);
                assert(self.rename_state().counts =~= s.counts.insert(base@, next as nat));
                assert(self.rename_state().contents =~= s.contents);
                Ok(numbered(&base, next))
            },
        }
    }
}

/// The parent of `path`, as `parent_of` defines it.
fn parent_path(path: &str) -> (r: Option<String>)
    ensures
        match r {
            Some(d) => parent_of(path@) == Some(d@),
            None => parent_of(path@) is None,
        },
{
    let t = trim_path_end(path);
    let n = t.unicode_len();
    if n == 0 {
        return None;
    }
    if n == 1 && t.get_char(0) == '/' {
        assert(t@ =~= seq!['/']);
        return None;
    }
    assert(t@ != seq!['/']) by {
        if t@ == seq!['/'] {
            assert(t@[0] == '/');
        }
    }
    proof {
        lemma_last_index_bounds(t@, '/');
    }
    match find_last(t, '/') {
        None => Some(String::new()),
        Some(0) => {
            proof {
                reveal_strlit("/");
            }
            Some("/".to_string())
        },
        Some(i) => {
            let head = t.substring_char(0, i);
            assert(head@ == t@.take(i as int));
            Some(trim_path_end(head).to_string())
        },
    }
}

/// `name` inside directory `dir`, as `join` defines it.
fn join_path(dir: &String, name: &String) -> (r: String)
    ensures
        r@ == join(dir@, name@),
{
    let n = dir.as_str().unicode_len();
    if n == 0 || (name.as_str().unicode_len() > 0 && name.as_str().get_char(0) == '/') {
        return name.clone();
    }
    let mut joined = dir.clone();
    if dir.as_str().get_char(n - 1) != '/' {
        joined.append("/");
        proof {
            reveal_strlit("/");
        }
    }
    joined.append(name.as_str());
    joined
}

impl LocalRemapper {
    /// Where the file at `original_path`, named `new_contract_name`, goes:
    /// `<its parent>/<temp directory>/<name>.sol`. When the name is not the
    /// file's base name, the file was renamed, and `canonical_path` (the
    /// canonical form of `original_path`) is recorded as pointing at it. A
    /// path without a parent (the root, the empty path) is `InvalidPath`.
    pub fn get_new_path(
        &mut self,
        original_path: &str,
        canonical_path: &str,
        new_contract_name: &String,
    ) -> (r: Result<OutputPath, RemapError>)
        ensures
            final(self).temp_directory() == old(self).temp_directory(),
            final(self).rename_state() == old(self).rename_state(),
            match parent_of(original_path@) {
                None => r == Err::<OutputPath, RemapError>(RemapError::InvalidPath)
                    && final(self).renamed() == old(self).renamed(),
                Some(parent) => r matches Ok(o) && {
                    &&& o.dir@ == join(parent, old(self).temp_directory())
                    &&& o.file_name@ == new_contract_name@ + SOURCE_EXTENSION@
                    &&& o.path@ == join(o.dir@, o.file_name@)
                    &&& final(self).renamed() == if base_name(original_path@) == Some(
                        new_contract_name@,
                    ) {
                        old(self).renamed()
                    } else {
                        old(self).renamed().insert(canonical_path@, (o.path@, o.file_name@))
                    }
                },
            },
    {
        let parent = match parent_path(original_path) {
            Some(p) => p,
            None => return Err(RemapError::InvalidPath),
        };
        let dir = join_path(&parent, &self.temp_directory);
        let mut file_name = new_contract_name.clone();
        file_name.append(SOURCE_EXTENSION);
        let path = join_path(&dir, &file_name);
        let keeps = match base_name_of(original_path) {
            Some(base) => base == *new_contract_name,
            None => false,
        };
        if !keeps {
            self.path_map.insert(canonical_path.to_string(), (path.clone(), file_name.clone()));
            assert(self.renamed() =~= old(self).renamed().insert(
                canonical_path@,
                (path@, file_name@),
            ));
        }
        Ok(OutputPath { dir, path, file_name })
    }

    /// The paths written in the import statements of `source_content`, in
    /// order. Fails only if the import pattern does not compile.
    pub fn import_paths(&self, source_content: &str) -> (r: Result<Vec<String>, RemapError>)
        ensures
            r is Ok <==> regex_compiles(IMPORT_PATTERN@),
            r matches Ok(v) ==> paths_view(v@) == import_paths(IMPORT_PATTERN@, source_content@),
            r matches Err(e) ==> e == RemapError::RegexCompileError,
    {
        let scanner = ImportScanner::new(IMPORT_PATTERN)?;
        Ok(scanner.import_paths(source_content))
    }

    /// `content` with each import statement pointing at a renamed file
    /// rewritten to point at its new name. `import_keys` holds, for each
    /// import statement in order, the canonical form of the path it names,
    /// `None` where it has none (that statement is left as written). Fails
    /// only if the import pattern does not compile.
    pub fn update_content(&self, content: &str, import_keys: &Vec<Option<String>>) -> (r: Result<
        String,
        RemapError,
    >)
        ensures
            r matches Ok(s) ==> s@ == rewrite(
                IMPORT_PATTERN@,
                content@,
                keys_view(import_keys@),
                0,
                self.renamed(),
            ),
            r is Ok <==> regex_compiles(IMPORT_PATTERN@),
            r matches Err(e) ==> e == RemapError::RegexCompileError,
    {
        let scanner = ImportScanner::new(IMPORT_PATTERN)?;
        Ok(scanner.rewrite_imports(content, import_keys, &self.path_map))
    }
}

/// One source file of a bundle, with what the filesystem says of it: the
/// canonical form of its own path, and for each of its import statements in
/// order the canonical form of the path it names (`None` where it has none;
/// such a statement is never rewritten).
pub struct SourceEntry {
    pub path: String,
    pub content: String,
    pub canonical_path: String,
    pub import_keys: Vec<Option<String>>,
}

pub struct SourceView {
    pub path: Seq<char>,
    pub content: Seq<char>,
    pub canonical_path: Seq<char>,
    pub import_keys: Seq<Option<Seq<char>>>,
}

impl View for SourceEntry {
    type V = SourceView;

    open spec fn view(&self) -> SourceView {
        SourceView {
            path: self.path@,
            content: self.content@,
            canonical_path: self.canonical_path@,
            import_keys: keys_view(self.import_keys@),
        }
    }
}

/// A file to write: the directory to create first, its path, its content.
pub struct OutputFile {
    pub dir: String,
    pub path: String,
    pub content: String,
}

pub struct OutputView {
    pub dir: Seq<char>,
    pub path: Seq<char>,
    pub content: Seq<char>,
}

impl View for OutputFile {
    type V = OutputView;

    open spec fn view(&self) -> OutputView {
        OutputView { dir: self.dir@, path: self.path@, content: self.content@ }
    }
}

/// The outcome of remapping a bundle: the files to write, in bundle order,
/// and the error that stopped the remapping before the next entry, if one
/// did. The files of the entries before a failing one are still written.
pub struct RemapPlan {
    pub files: Vec<OutputFile>,
    pub error: Option<RemapError>,
}

/// Everything a remapper holds that decides its results.
pub struct RemapView {
    pub temp_directory: Seq<char>,
    pub names: RenameState,
    pub renamed: Map<Seq<char>, (Seq<char>, Seq<char>)>,
}

/// Remapping one entry from state `v`, with `pattern` as the import
/// pattern: the next state and the file to write, or the error.
pub open spec fn process(pattern: Seq<char>, v: RemapView, e: SourceView) -> Result<
    (RemapView, OutputView),
    RemapError,
> {
    match base_name(e.path) {
        None => Err(RemapError::InvalidPath),
        Some(base) => if !keeps_name(v.names, base, e.content) && count_of(v.names, base)
            == u64::MAX {
            Err(RemapError::CounterOverflow)
        } else {
            let (names, name) = resolve(v.names, base, e.content);
            let dir = join(parent_of(e.path)->Some_0, v.temp_directory);
            let file_name = name + SOURCE_EXTENSION@;
            let path = join(dir, file_name);
            let renamed = if name == base {
                v.renamed
            } else {
                v.renamed.insert(e.canonical_path, (path, file_name))
            };
            let content = rewrite(pattern, e.content, e.import_keys, 0, renamed);
            Ok(
                (
                    RemapView { temp_directory: v.temp_directory, names, renamed },
                    OutputView { dir, path, content },
                ),
            )
        },
    }
}

/// Remapping entries in order from state `v`, stopping at the first error:
/// the final state, the files of the entries done, and that error.
pub open spec fn process_all(pattern: Seq<char>, v: RemapView, es: Seq<SourceView>) -> (
    RemapView,
    Seq<OutputView>,
    Option<RemapError>,
)
    decreases es.len(),
{
    if es.len() == 0 {
        (v, Seq::empty(), None)
    } else {
        match process(pattern, v, es[0]) {
            Err(e) => (v, Seq::empty(), Some(e)),
            Ok((w, out)) => {
                let (last, outs, err) = process_all(pattern, w, es.drop_first());
                (last, seq![out] + outs, err)
            },
        }
    }
}

pub open spec fn entries_view(es: Seq<SourceEntry>) -> Seq<SourceView> {
    es.map_values(|e: SourceEntry| e@)
}

pub open spec fn outputs_view(fs: Seq<OutputFile>) -> Seq<OutputView> {
    fs.map_values(|f: OutputFile| f@)
}

/// Whether an entry has a base name and keeps it in `names`.
pub open spec fn entry_keeps_name(names: RenameState, e: SourceView) -> bool {
    match base_name(e.path) {
        Some(b) => keeps_name(names, b, e.content),
        None => false,
    }
}

/// Whether no entry of `es` collides: each has a base name that keeps its
/// name in `names`, and entries sharing a base name share their content.
pub open spec fn no_collisions(names: RenameState, es: Seq<SourceView>) -> bool {
    &&& forall|i: int| 0 <= i < es.len() ==> #[trigger] entry_keeps_name(names, es[i])
    &&& forall|i: int, j: int|
        0 <= i < j < es.len() && #[trigger] base_name(es[i].path) == #[trigger] base_name(
            es[j].path,
        ) ==> es[i].content == es[j].content
}

/// A bundle without collisions, remapped while nothing is renamed yet, is
/// copied as it is: every entry gets a file whose content is its own, at
/// `<parent>/<temp directory>/<base name>.sol`.
pub proof fn lemma_no_collisions_copies_content(
    pattern: Seq<char>,
    v: RemapView,
    es: Seq<SourceView>,
)
    requires
        v.renamed == Map::<Seq<char>, (Seq<char>, Seq<char>)>::empty(),
        no_collisions(v.names, es),
    ensures
        ({
            let (last, outs, err) = process_all(pattern, v, es);
            &&& err is None
            &&& outs.len() == es.len()
            &&& forall|i: int| 0 <= i < es.len() ==> #[trigger] outs[i].content == es[i].content
            &&& forall|i: int|
                0 <= i < es.len() ==> #[trigger] outs[i].path == kept_path(
                    v,
                    es[i].path,
                    base_name(es[i].path)->Some_0,
                )
        }),
    decreases es.len(),
{
    if es.len() > 0 {
        let e = es[0];
        let base = base_name(e.path)->Some_0;
        assert(entry_keeps_name(v.names, es[0]));
        let (names, name) = resolve(v.names, base, e.content);
        assert(name == base);
        assert forall|i: int| #[trigger] renamed_target(e.import_keys, i, v.renamed) is None by {}
        lemma_nothing_renamed_keeps_text(pattern, e.content, e.import_keys, 0, v.renamed);
        let w = process(pattern, v, e)->Ok_0.0;
        assert(w.renamed == v.renamed);
        let rest = es.drop_first();
        assert forall|i: int| 0 <= i < rest.len() implies #[trigger] entry_keeps_name(
            w.names,
            rest[i],
        ) by {
            assert(rest[i] == es[i + 1]);
            assert(entry_keeps_name(v.names, es[i + 1]));
            if base_name(es[i + 1].path) == base_name(es[0].path) {
                assert(es[0].content == es[i + 1].content);
            }
        }
        assert forall|i: int, j: int|
            0 <= i < j < rest.len() && #[trigger] base_name(rest[i].path) == #[trigger] base_name(
                rest[j].path,
            ) implies rest[i].content == rest[j].content by {
            assert(rest[i] == es[i + 1] && rest[j] == es[j + 1]);
            assert(base_name(es[i + 1].path) == base_name(es[j + 1].path));
        }
        lemma_no_collisions_copies_content(pattern, w, rest);
        let (last, outs, err) = process_all(pattern, v, es);
        let (last2, outs2, err2) = process_all(pattern, w, rest);
        assert forall|i: int| 0 <= i < es.len() implies #[trigger] outs[i].content
            == es[i].content by {
            if i > 0 {
                assert(outs[i] == outs2[i - 1]);
                assert(rest[i - 1] == es[i]);
            }
        }
        assert forall|i: int| 0 <= i < es.len() implies #[trigger] outs[i].path == kept_path(
            v,
            es[i].path,
            base_name(es[i].path)->Some_0,
        ) by {
            if i > 0 {
                assert(outs[i] == outs2[i - 1]);
                assert(rest[i - 1] == es[i]);
            }
        }
    }
}

/// Where an entry's file goes when it keeps its base name `base`.
pub open spec fn kept_path(v: RemapView, path: Seq<char>, base: Seq<char>) -> Seq<char> {
    join(join(parent_of(path)->Some_0, v.temp_directory), base + SOURCE_EXTENSION@)
}

/// Whether every entry of `es` with base name `base` has content `content`.
pub open spec fn shares_content(es: Seq<SourceView>, base: Seq<char>, content: Seq<char>) -> bool {
    forall|i: int|
        0 <= i < es.len() && #[trigger] base_name(es[i].path) == Some(base) ==> es[i].content
            == content
}

/// Across a whole bundle, files with base name `base` that all share one
/// content (the one first seen under it, if any) all keep that name, each
/// written as `<parent>/<temp directory>/<base>.sol`, and the counter of
/// `base` never moves.
pub proof fn lemma_shared_content_keeps_name(
    pattern: Seq<char>,
    v: RemapView,
    es: Seq<SourceView>,
    base: Seq<char>,
    content: Seq<char>,
)
    requires
        keeps_name(v.names, base, content),
        shares_content(es, base, content),
    ensures
        ({
            let (last, outs, err) = process_all(pattern, v, es);
            &&& outs.len() <= es.len()
            &&& last.temp_directory == v.temp_directory
            &&& count_of(last.names, base) == count_of(v.names, base)
            &&& forall|i: int|
                0 <= i < outs.len() && #[trigger] base_name(es[i].path) == Some(base)
                    ==> outs[i].path == kept_path(v, es[i].path, base)
        }),
    decreases es.len(),
{
    if es.len() > 0 {
        let e = es[0];
        match process(pattern, v, e) {
            Err(_) => {},
            Ok((w, out)) => {
                let b = base_name(e.path)->Some_0;
                if b == base {
                    assert(e.content == content);
                } else {
                    lemma_counters_per_name(v.names, b, e.content, base);
                }
                let rest = es.drop_first();
                assert forall|i: int|
                    0 <= i < rest.len() && #[trigger] base_name(rest[i].path) == Some(base)
                        implies rest[i].content == content by {
                    assert(rest[i] == es[i + 1]);
                }
                lemma_shared_content_keeps_name(pattern, w, rest, base, content);
                let (last, outs, err) = process_all(pattern, v, es);
                let (last2, outs2, err2) = process_all(pattern, w, rest);
                assert forall|i: int|
                    0 <= i < outs.len() && #[trigger] base_name(es[i].path) == Some(base)
                        implies outs[i].path == kept_path(v, es[i].path, base) by {
                    if i > 0 {
                        assert(outs[i] == outs2[i - 1]);
                        assert(rest[i - 1] == es[i]);
                    }
                }
            },
        }
    }
}

/// How many entries of `es` have base name `base` and content other than
/// `first`.
pub open spec fn renames_in(es: Seq<SourceView>, base: Seq<char>, first: Seq<char>) -> nat
    decreases es.len(),
{
    if es.len() == 0 {
        0
    } else {
        (if base_name(es[0].path) == Some(base) && es[0].content != first {
            1nat
        } else {
            0nat
        }) + renames_in(es.drop_first(), base, first)
    }
}

/// Where an entry's file goes when it is renamed to `name`.
pub open spec fn renamed_path(v: RemapView, path: Seq<char>, name: Seq<char>) -> Seq<char> {
    join(join(parent_of(path)->Some_0, v.temp_directory), name + SOURCE_EXTENSION@)
}

/// Across a whole bundle, under a base name first seen with content
/// `first`: a file with that content keeps the name, and the `k`-th file
/// with other content (counting in bundle order) becomes `<base>_<c + k>`,
/// where `c` is the counter of the base name when the bundle starts. The
/// numbering depends on these files alone, not on files of other names.
pub proof fn lemma_renames_numbered_in_order(
    pattern: Seq<char>,
    v: RemapView,
    es: Seq<SourceView>,
    base: Seq<char>,
    first: Seq<char>,
)
    requires
        v.names.contents.contains_key(base),
        v.names.contents[base] == first,
    ensures
        ({
            let (last, outs, err) = process_all(pattern, v, es);
            &&& outs.len() <= es.len()
            &&& last.temp_directory == v.temp_directory
            &&& forall|i: int|
                0 <= i < outs.len() && #[trigger] base_name(es[i].path) == Some(base) ==> {
                    if es[i].content == first {
                        outs[i].path == kept_path(v, es[i].path, base)
                    } else {
                        outs[i].path == renamed_path(
                            v,
                            es[i].path,
                            numbered_name(
                                base,
                                count_of(v.names, base) + renames_in(es.take(i + 1), base, first),
                            ),
                        )
                    }
                }
        }),
    decreases es.len(),
{
    if es.len() > 0 {
        let e = es[0];
        match process(pattern, v, e) {
            Err(_) => {},
            Ok((w, out)) => {
                let b = base_name(e.path)->Some_0;
                if b != base {
                    lemma_counters_per_name(v.names, b, e.content, base);
                }
                let rest = es.drop_first();
                lemma_renames_numbered_in_order(pattern, w, rest, base, first);
                let (last, outs, err) = process_all(pattern, v, es);
                let (last2, outs2, err2) = process_all(pattern, w, rest);
                assert(es.take(1).drop_first().len() == 0);
                assert(renames_in(es.take(1).drop_first(), base, first) == 0);
                assert forall|i: int|
                    0 <= i < outs.len() && #[trigger] base_name(es[i].path) == Some(base) implies {
                    if es[i].content == first {
                        outs[i].path == kept_path(v, es[i].path, base)
                    } else {
                        outs[i].path == renamed_path(
                            v,
                            es[i].path,
                            numbered_name(
                                base,
                                count_of(v.names, base) + renames_in(es.take(i + 1), base, first),
                            ),
                        )
                    }
                } by {
                    if i > 0 {
                        assert(outs[i] == outs2[i - 1]);
                        assert(rest[i - 1] == es[i]);
                        assert(es.take(i + 1).drop_first() == rest.take(i));
                        assert(es.take(i + 1)[0] == e);
                    } else {
                        assert(es.take(1)[0] == e);
                    }
                }
            },
        }
    }
}

impl LocalRemapper {
    /// Everything this remapper holds that decides its results.
    pub open spec fn state(&self) -> RemapView {
        RemapView {
            temp_directory: self.temp_directory(),
            names: self.rename_state(),
            renamed: self.renamed(),
        }
    }

    /// Remaps the entries of a bundle in order with `scanner` finding the
    /// import statements, stopping at the first entry that fails. Whether an
    /// entry is the main one changes nothing.
    pub fn apply_with_scanner(
        &mut self,
        scanner: &ImportScanner,
        sources: &Vec<SourceEntry>,
        main_contract_path: &String,
    ) -> (r: RemapPlan)
        ensures
            ({
                let (last, outs, err) = process_all(
                    scanner.pattern(),
                    old(self).state(),
                    entries_view(sources@),
                );
                &&& final(self).state() == last
                &&& outputs_view(r.files@) == outs
                &&& r.error == err
            }),
    {
        let ghost p = scanner.pattern();
        let ghost es = entries_view(sources@);
        let ghost goal = process_all(p, self.state(), es);
        let mut files: Vec<OutputFile> = Vec::new();
        let mut i: usize = 0;
        assert(es.subrange(0, es.len() as int) == es);
        assert(outputs_view(files@) == Seq::<OutputView>::empty());
        assert(Seq::<OutputView>::empty() + goal.1 == goal.1);
        while i < sources.len()
            invariant
                p == scanner.pattern(),
                goal == process_all(p, old(self).state(), es),
                es == entries_view(sources@),
                i <= sources@.len(),
                ({
                    let (last, outs, err) = process_all(p, self.state(), es.subrange(
                        i as int,
                        es.len() as int,
                    ));
                    goal == (last, outputs_view(files@) + outs, err)
                }),
            decreases sources@.len() - i,
        {
            let e = &sources[i];
            let ghost rest = es.subrange(i as int, es.len() as int);
            let ghost before = self.state();
            assert(rest[0] == e@);
            assert(rest.drop_first() == es.subrange(i + 1, es.len() as int));
            let is_main = e.path == *main_contract_path;
            let name = match self.check_and_rename_contract(
                e.path.as_str(),
                e.content.as_str(),
                is_main,
            ) {
                Ok(n) => n,
                Err(err) => {
                    assert(self.state() == before);
                    assert(process(p, before, rest[0]) == Err::<(RemapView, OutputView), RemapError>(
                        err,
                    ));
                    assert(outputs_view(files@) + Seq::<OutputView>::empty() == outputs_view(
                        files@,
                    ));
                    return RemapPlan { files, error: Some(err) };
                },
            };
            proof {
                lemma_base_name_has_parent(e.path@);
            }
            let out = match self.get_new_path(e.path.as_str(), e.canonical_path.as_str(), &name) {
                Ok(o) => o,
                Err(_) => {
                    assert(false);
                    return RemapPlan { files, error: None };
                },
            };
            let content = scanner.rewrite_imports(e.content.as_str(), &e.import_keys, &self.path_map);
            let file = OutputFile { dir: out.dir, path: out.path, content };
            let ghost fv = outputs_view(files@);
            files.push(file);
            assert(outputs_view(files@) == fv.push(file@));
            i = i + 1;
        }
        assert(es.subrange(i as int, es.len() as int).len() == 0);
        assert(outputs_view(files@) + Seq::<OutputView>::empty() == outputs_view(files@));
        RemapPlan { files, error: None }
    }

    /// Remaps the entries of a bundle in order, stopping at the first entry
    /// that fails; `RegexCompileError` when the import pattern does not
    /// compile. Whether an entry is the main one changes nothing.
    pub fn apply_local_remapping(
        &mut self,
        sources: &Vec<SourceEntry>,
        main_contract_path: &String,
    ) -> (r: RemapPlan)
        ensures
            !regex_compiles(IMPORT_PATTERN@) ==> r.error == Some(RemapError::RegexCompileError)
                && r.files@.len() == 0 && final(self).state() == old(self).state(),
            regex_compiles(IMPORT_PATTERN@) ==> (
                final(self).state(),
                outputs_view(r.files@),
                r.error,
            ) == process_all(IMPORT_PATTERN@, old(self).state(), entries_view(sources@)),
    {
        match ImportScanner::new(IMPORT_PATTERN) {
            Ok(scanner) => self.apply_with_scanner(&scanner, sources, main_contract_path),
            Err(e) => RemapPlan { files: Vec::new(), error: Some(e) },
        }
    }
}

} // verus!
