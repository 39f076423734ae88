use vstd::prelude::*;
use vstd::string::*;

verus! {

/// Position of the last `c` in `s`, or -1 when `s` holds none.
pub open spec fn last_index_of(s: Seq<char>, c: char) -> int
    decreases s.len(),
{
    if s.len() == 0 {
        -1
    } else if s.last() == c {
        s.len() - 1
    } else {
        last_index_of(s.drop_last(), c)
    }
}

/// A path without its trailing separators and trailing `.` components,
/// which name no further component (`a/b/` and `a/b/.` stand for `a/b`).
/// A lone `/` stays.
pub open spec fn trim_end(path: Seq<char>) -> Seq<char>
    decreases path.len(),
{
    if path.len() >= 2 && (path.last() == '/' || (path.last() == '.' && path[path.len() - 2]
        == '/')) {
        trim_end(path.drop_last())
    } else {
        path
    }
}

/// The last component of a path: what follows the last `/` once trailing
/// separators and `.` components are dropped.
pub open spec fn file_name_of(path: Seq<char>) -> Seq<char> {
    let t = trim_end(path);
    t.subrange(last_index_of(t, '/') + 1, t.len() as int)
}

/// The base name of a path: its file name without the extension (the part
/// from the last `.` on, unless that `.` opens the name). A path whose file
/// name is empty, `.` or `..` has none.
pub open spec fn base_name(path: Seq<char>) -> Option<Seq<char>> {
    let name = file_name_of(path);
    if name.len() == 0 || name == seq!['.'] || name == seq!['.', '.'] {
        None
    } else if last_index_of(name, '.') > 0 {
        Some(name.take(last_index_of(name, '.')))
    } else {
        Some(name)
    }
}

/// The decimal digits of `n`, most significant first.
pub open spec fn decimal(n: nat) -> Seq<char>
    decreases n,
{
    let digit = seq!['0', '1', '2', '3', '4', '5', '6', '7', '8', '9'][(n % 10) as int];
    if n < 10 {
        seq![digit]
    } else {
        decimal(n / 10).push(digit)
    }
}

/// The name given to the `n`-th differently-contented file called `base`.
pub open spec fn numbered_name(base: Seq<char>, n: nat) -> Seq<char> {
    base + seq!['_'] + decimal(n)
}

proof fn lemma_last_index_prefix(s: Seq<char>, i: int, c: char)
    requires
        0 <= i <= s.len(),
        forall|j: int| i <= j < s.len() ==> s[j] != c,
    ensures
        last_index_of(s, c) == last_index_of(s.take(i), c),
    decreases s.len(),
{
    if s.len() > i {
        assert(s.drop_last().take(i) == s.take(i));
        lemma_last_index_prefix(s.drop_last(), i, c);
    } else {
        assert(s.take(i) == s);
    }
}

pub(crate) proof fn lemma_last_index_bounds(s: Seq<char>, c: char)
    ensures
        -1 <= last_index_of(s, c) < s.len(),
        last_index_of(s, c) >= 0 ==> s[last_index_of(s, c)] == c,
    decreases s.len(),
{
    if s.len() > 0 && s.last() != c {
        lemma_last_index_bounds(s.drop_last(), c);
    }
}

/// `path` without its trailing separators and `.` components.
pub fn trim_path_end(path: &str) -> (r: &str)
    ensures
        r@ == trim_end(path@),
{
    let mut n: usize = path.unicode_len();
    assert(path@.take(n as int) == path@);
    while n >= 2 && (path.get_char(n - 1) == '/' || (path.get_char(n - 1) == '.'
        && path.get_char(n - 2) == '/'))
        invariant
            n <= path@.len(),
            trim_end(path@) == trim_end(path@.take(n as int)),
        decreases n,
    {
        assert(path@.take(n as int).drop_last() == path@.take(n - 1));
        n = n - 1;
    }
    assert(path@.take(n as int) == path@.subrange(0, n as int));
    path.substring_char(0, n)
}

/// Position of the last `c` in `s`, or `None`.
pub(crate) fn find_last(s: &str, c: char) -> (r: Option<usize>)
    ensures
        match r {
            Some(i) => i as int == last_index_of(s@, c),
            None => last_index_of(s@, c) == -1,
        },
{
    let mut i: usize = s.unicode_len();
    while i > 0
        invariant
            i <= s@.len(),
            forall|j: int| i <= j < s@.len() ==> s@[j] != c,
        decreases i,
    {
        if s.get_char(i - 1) == c {
            proof {
                lemma_last_index_prefix(s@, i as int, c);
                assert(s@.take(i as int).last() == c);
            }
            return Some(i - 1);
        }
        i = i - 1;
    }
    proof {
        lemma_last_index_prefix(s@, 0, c);
    }
    None
}

/// The base name of `path`, as `base_name` defines it.
pub fn base_name_of(path: &str) -> (r: Option<String>)
    ensures
        match r {
            Some(b) => base_name(path@) == Some(b@),
            None => base_name(path@) is None,
        },
{
    let t = trim_path_end(path);
    proof {
        lemma_last_index_bounds(t@, '/');
    }
    let len = t.unicode_len();
    let start = match find_last(t, '/') {
        Some(i) => i + 1,
        None => 0,
    };
    let name = t.substring_char(start, len);
    assert(name@ == file_name_of(path@));
    let n = name.unicode_len();
    if n == 0 || (n == 1 && name.get_char(0) == '.') || (n == 2 && name.get_char(0) == '.'
        && name.get_char(1) == '.') {
        proof {
            if n == 1 {
                assert(name@ =~= seq!['.']);
            }
            if n == 2 {
                assert(name@ =~= seq!['.', '.']);
            }
        }
        return None;
    }
    assert(name@ != seq!['.'] && name@ != seq!['.', '.']) by {
        if name@ == seq!['.'] {
            assert(name@[0] == '.');
        }
        if name@ == seq!['.', '.'] {
            assert(name@[0] == '.' && name@[1] == '.');
        }
    }
    proof {
        lemma_last_index_bounds(name@, '.');
    }
    match find_last(name, '.') {
        Some(d) if d > 0 => Some(name.substring_char(0, d).to_string()),
        _ => Some(name.to_string()),
    }
}

/// Relies on `u64::to_string` (std's `Display` for integers): the decimal
/// digits of `n`, with no sign and no leading zero.
#[verifier::external_body]
fn decimal_string(n: u64) -> (r: String)
    ensures
        r@ == decimal(n as nat),
{
    n.to_string()
}

/// `base` followed by `_` and the decimal digits of `n`.
pub fn numbered(base: &String, n: u64) -> (r: String)
    ensures
        r@ == numbered_name(base@, n as nat),
{
    let digits = decimal_string(n);
    let mut name = base.clone();
    name.append("_");
    name.append(digits.as_str());
    proof {
        reveal_strlit("_");
    }
    name
}

} // verus!
