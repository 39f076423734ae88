use vstd::prelude::*;
use vstd::string::*;

use crate::error::RemapError;
use crate::table::NameTable;

verus! {

#[verifier::external_type_specification]
#[verifier::external_body]
pub struct ExRegex(regex::Regex);

#[verifier::external_type_specification]
#[verifier::external_body]
pub struct ExRegexError(regex::Error);

/// The leftmost-first match of the regular expression `pattern` in `text`,
/// as (text before it, matched text, group `items`, group `path`, text
/// after it); `None` when nothing matches.
pub uninterp spec fn first_capture(pattern: Seq<char>, text: Seq<char>) -> Option<
    (Seq<char>, Seq<char>, Option<Seq<char>>, Option<Seq<char>>, Seq<char>),
>;

/// Whether the regular expression `pattern` compiles.
pub uninterp spec fn regex_compiles(pattern: Seq<char>) -> bool;

/// Matches an import statement: the keyword, an optional `{...} from`
/// clause, then a single- or double-quoted path and a `;`.
pub const IMPORT_PATTERN: &'static str = r#"import\s+(?P<items>\{.*?\}\s+from\s+)?["'](?P<path>[^"']+)["'];"#;

pub open spec fn chars_of(o: Option<String>) -> Option<Seq<char>> {
    match o {
        Some(s) => Some(s@),
        None => None,
    }
}

/// One match of a pattern, cut out of the text it was found in.
pub struct Capture {
    pub before: String,
    pub whole: String,
    pub items: Option<String>,
    pub path: Option<String>,
    pub after: String,
}

/// Relies on `regex::Regex::new`: compiles `pattern`, or gives the reason
/// it cannot; which of the two depends on the pattern alone.
#[verifier::external_body]
fn compile_regex(pattern: &str) -> (r: Result<regex::Regex, regex::Error>)
    ensures
        r is Ok <==> regex_compiles(pattern@),
{
    regex::Regex::new(pattern)
}

/// A compiled regular expression together with its source text.
pub struct ImportScanner {
    pattern: String,
    re: regex::Regex,
}

impl ImportScanner {
    /// The source text that this scanner was compiled from.
    pub closed spec fn pattern(&self) -> Seq<char> {
        self.pattern@
    }

    /// Compiles `pattern`; a pattern that does not compile gives
    /// `RegexCompileError`.
    pub fn new(pattern: &str) -> (r: Result<Self, RemapError>)
        ensures
            r is Ok <==> regex_compiles(pattern@),
            r matches Ok(s) ==> s.pattern() == pattern@,
            r matches Err(e) ==> e == RemapError::RegexCompileError,
    {
        match compile_regex(pattern) {
            Ok(re) => Ok(ImportScanner { pattern: pattern.to_string(), re }),
            Err(_) => Err(RemapError::RegexCompileError),
        }
    }

    /// Relies on `regex::Regex::captures` (with `Captures::get`,
    /// `Captures::name` and `Match::as_str`): the first match in `text` of
    /// the regex held here, which `new` compiled from `self.pattern`. A match
    /// is a slice of `text` at its byte offsets, so the pieces put together
    /// give `text` back.
    #[verifier::external_body]
    fn first_capture(&self, text: &str) -> (r: Option<Capture>)
        ensures
            match r {
                None => first_capture(self.pattern(), text@) is None,
                Some(c) => {
                    &&& first_capture(self.pattern(), text@) == Some(
                        (c.before@, c.whole@, chars_of(c.items), chars_of(c.path), c.after@),
                    )
                    &&& c.before@ + c.whole@ + c.after@ == text@
                },
            },
    {
        let caps = self.re.captures(text)?;
        let whole = caps.get(0)?;
        Some(Capture {
            before: text[..whole.start()].to_string(),
            whole: whole.as_str().to_string(),
            items: caps.name("items").map(|m| m.as_str().to_string()),
            path: caps.name("path").map(|m| m.as_str().to_string()),
            after: text[whole.end()..].to_string(),
        })
    }
}

/// Whether a capture splits `text` into pieces, the matched one non-empty.
pub open spec fn splits(
    c: (Seq<char>, Seq<char>, Option<Seq<char>>, Option<Seq<char>>, Seq<char>),
    text: Seq<char>,
) -> bool {
    c.1.len() > 0 && c.0 + c.1 + c.4 == text
}

/// The paths of the successive import statements in `text`. The pattern has
/// no anchors and no look-around, so searching what follows a match finds
/// the next match of a scan over the whole text.
pub open spec fn import_paths(pattern: Seq<char>, text: Seq<char>) -> Seq<Seq<char>>
    decreases text.len(),
{
    match first_capture(pattern, text) {
        Some(c) => if splits(c, text) {
            seq![
                match c.3 {
                    Some(p) => p,
                    None => Seq::empty(),
                },
            ] + import_paths(pattern, c.4)
        } else {
            Seq::empty()
        },
        None => Seq::empty(),
    }
}

/// The file name that the `k`-th import statement must point at instead,
/// when its lookup key `keys[k]` names a renamed file. A statement without
/// a key (its path could not be canonicalized) points at nothing new.
pub open spec fn renamed_target(
    keys: Seq<Option<Seq<char>>>,
    k: int,
    renamed: Map<Seq<char>, (Seq<char>, Seq<char>)>,
) -> Option<Seq<char>> {
    if 0 <= k < keys.len() && keys[k] is Some && renamed.contains_key(keys[k]->Some_0) {
        Some(renamed[keys[k]->Some_0].1)
    } else {
        None
    }
}

/// An import statement pointing at `file_name` in the same directory, with
/// the named-import clause `items` kept as it was.
pub open spec fn sibling_import(items: Option<Seq<char>>, file_name: Seq<char>) -> Seq<char> {
    let clause = match items {
        Some(i) => i,
        None => Seq::empty(),
    };
    "import "@ + clause + "\"./"@ + file_name + "\";"@
}

/// `text` with each import statement whose key names a renamed file pointing
/// at that file's new name; `k` is the position of the first statement of
/// `text` among all of them. Everything else is left as it was.
pub open spec fn rewrite(
    pattern: Seq<char>,
    text: Seq<char>,
    keys: Seq<Option<Seq<char>>>,
    k: int,
    renamed: Map<Seq<char>, (Seq<char>, Seq<char>)>,
) -> Seq<char>
    decreases text.len(),
{
    match first_capture(pattern, text) {
        Some(c) => if splits(c, text) {
            let statement = match renamed_target(keys, k, renamed) {
                Some(f) => sibling_import(c.2, f),
                None => c.1,
            };
            c.0 + statement + rewrite(pattern, c.4, keys, k + 1, renamed)
        } else {
            text
        },
        None => text,
    }
}

/// An import statement whose key names a renamed file is replaced by one
/// that imports the new file name from the same directory, with its
/// named-import clause kept; the text before it is kept as it is.
pub proof fn lemma_renamed_import_rewritten(
    pattern: Seq<char>,
    text: Seq<char>,
    keys: Seq<Option<Seq<char>>>,
    k: int,
    renamed: Map<Seq<char>, (Seq<char>, Seq<char>)>,
)
    requires
        first_capture(pattern, text) matches Some(c) && splits(c, text),
        renamed_target(keys, k, renamed) is Some,
    ensures
        ({
            let c = first_capture(pattern, text)->Some_0;
            rewrite(pattern, text, keys, k, renamed) == c.0 + sibling_import(
                c.2,
                renamed_target(keys, k, renamed)->Some_0,
            ) + rewrite(pattern, c.4, keys, k + 1, renamed)
        }),
{
}

/// An import statement whose key names no renamed file is kept exactly as
/// it was written, quotes included.
pub proof fn lemma_other_import_kept(
    pattern: Seq<char>,
    text: Seq<char>,
    keys: Seq<Option<Seq<char>>>,
    k: int,
    renamed: Map<Seq<char>, (Seq<char>, Seq<char>)>,
)
    requires
        first_capture(pattern, text) matches Some(c) && splits(c, text),
        renamed_target(keys, k, renamed) is None,
    ensures
        ({
            let c = first_capture(pattern, text)->Some_0;
            rewrite(pattern, text, keys, k, renamed) == c.0 + c.1 + rewrite(
                pattern,
                c.4,
                keys,
                k + 1,
                renamed,
            )
        }),
{
}

/// When no key names a renamed file (as when no file was renamed), the text
/// comes out exactly as it went in.
pub proof fn lemma_nothing_renamed_keeps_text(
    pattern: Seq<char>,
    text: Seq<char>,
    keys: Seq<Option<Seq<char>>>,
    k: int,
    renamed: Map<Seq<char>, (Seq<char>, Seq<char>)>,
)
    requires
        forall|i: int| #[trigger] renamed_target(keys, i, renamed) is None,
    ensures
        rewrite(pattern, text, keys, k, renamed) == text,
    decreases text.len(),
{
    if let Some(c) = first_capture(pattern, text) {
        if splits(c, text) {
            lemma_nothing_renamed_keeps_text(pattern, c.4, keys, k + 1, renamed);
            assert(c.0 + c.1 + c.4 == text);
        }
    }
}

/// The renamed-file table with its names as character sequences.
pub open spec fn renamed_view(m: Map<Seq<char>, (String, String)>) -> Map<
    Seq<char>,
    (Seq<char>, Seq<char>),
> {
    m.map_values(|v: (String, String)| (v.0@, v.1@))
}

pub open spec fn paths_view(paths: Seq<String>) -> Seq<Seq<char>> {
    paths.map_values(|s: String| s@)
}

pub open spec fn keys_view(keys: Seq<Option<String>>) -> Seq<Option<Seq<char>>> {
    keys.map_values(|k: Option<String>| chars_of(k))
}

impl ImportScanner {
    /// The paths of the import statements of `text`, in order.
    pub fn import_paths(&self, text: &str) -> (r: Vec<String>)
        ensures
            paths_view(r@) == import_paths(self.pattern(), text@),
    {
        let mut out: Vec<String> = Vec::new();
        let mut rest: String = text.to_string();
        loop
            invariant
                paths_view(out@) + import_paths(self.pattern(), rest@) == import_paths(
                    self.pattern(),
                    text@,
                ),
            decreases rest@.len(),
        {
            match self.first_capture(rest.as_str()) {
                Some(c) => {
                    if c.whole.unicode_len() == 0 {
                        return out;
                    }
                    let ghost before = paths_view(out@);
                    let path = match c.path {
                        Some(p) => p,
                        None => String::new(),
                    };
                    out.push(path);
                    assert(paths_view(out@) == before.push(path@));
                    rest = c.after;
                },
                None => {
                    assert(paths_view(out@) + Seq::<Seq<char>>::empty() == paths_view(out@));
                    return out;
                },
            }
        }
    }
}

/// The text that stands for a matched import statement: one importing
/// `new_file_name` from the same directory, with the named-import clause
/// kept, when the statement points at a renamed file; the statement as it
/// was written otherwise.
pub fn render_import(capture: &Capture, new_file_name: Option<&String>) -> (r: String)
    ensures
        r@ == match new_file_name {
            Some(f) => sibling_import(chars_of(capture.items), f@),
            None => capture.whole@,
        },
{
    match new_file_name {
        Some(f) => {
            let mut s = String::new();
            s.append("import ");
            match &capture.items {
                Some(i) => s.append(i.as_str()),
                None => {},
            }
            s.append("\"./");
            s.append(f.as_str());
            s.append("\";");
            proof {
                reveal_strlit("import ");
                reveal_strlit("\"./");
                reveal_strlit("\";");
                assert(s@ == sibling_import(chars_of(capture.items), f@));
            }
            s
        },
        None => capture.whole.clone(),
    }
}

impl ImportScanner {
    /// `text` with every import statement whose lookup key (`keys`, one per
    /// statement, in order) names a file in `renamed` pointing at that
    /// file's new name in the same directory.
    pub fn rewrite_imports(
        &self,
        text: &str,
        keys: &Vec<Option<String>>,
        renamed: &NameTable<(String, String)>,
    ) -> (r: String)
        ensures
            r@ == rewrite(self.pattern(), text@, keys_view(keys@), 0, renamed_view(renamed@)),
    {
        let ghost p = self.pattern();
        let ghost kv = keys_view(keys@);
        let ghost rv = renamed_view(renamed@);
        let ghost goal = rewrite(p, text@, kv, 0, rv);
        let mut out: String = String::new();
        let mut rest: String = text.to_string();
        let mut k: usize = 0;
        let ghost mut pos: int = 0;
        loop
            invariant
                p == self.pattern(),
                kv == keys_view(keys@),
                rv == renamed_view(renamed@),
                goal == rewrite(p, text@, kv, 0, rv),
                0 <= pos,
                k <= keys@.len(),
                k == pos || (k == keys@.len() && pos >= keys@.len()),
                kv.len() == keys@.len(),
                out@ + rewrite(p, rest@, kv, pos, rv) == goal,
            decreases rest@.len(),
        {
            match self.first_capture(rest.as_str()) {
                Some(c) => {
                    if c.whole.unicode_len() == 0 {
                        assert(rewrite(p, rest@, kv, pos, rv) == rest@);
                        out.append(rest.as_str());
                        return out;
                    }
                    let target = if k < keys.len() {
                        match &keys[k] {
                            Some(key) => renamed.get(key),
                            None => None,
                        }
                    } else {
                        None
                    };
                    out.append(c.before.as_str());
                    let statement = render_import(&c, match target {
                        Some(t) => Some(&t.1),
                        None => None,
                    });
                    proof {
                        match target {
                            Some(t) => assert(renamed_target(kv, pos, rv) == Some(t.1@)),
                            None => assert(renamed_target(kv, pos, rv) is None),
                        }
                    }
                    out.append(statement.as_str());
                    rest = c.after;
                    proof {
                        pos = pos + 1;
                    }
                    if k < keys.len() {
                        k = k + 1;
                    }
                },
                None => {
                    assert(rewrite(p, rest@, kv, pos, rv) == rest@);
                    out.append(rest.as_str());
                    return out;
                },
            }
        }
    }
}

} // verus!
