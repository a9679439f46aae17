use vstd::prelude::*;

verus! {

/// Which files and directories are left out of tracking, by base name.
#[derive(Clone, Debug)]
pub struct Exclude {
    pub paths: Vec<String>,
    pub files: Vec<String>,
}

/// The settings of a tracking session.
#[derive(Clone, Debug)]
pub struct Config {
    pub store_path: String,
    pub watch_path: String,
    pub debounce_time: u64,
    pub exclude: Exclude,
}

/// One of `names` is `c`.
pub open spec fn contains_name(names: Seq<String>, c: Seq<char>) -> bool {
    exists|k: int| 0 <= k < names.len() && names[k]@ == c
}

/// The characters `i..j` of `path` are a directory component: they hold no
/// separator, follow a separator or the start, and a separator follows them.
pub open spec fn is_dir_segment(path: Seq<char>, i: int, j: int) -> bool {
    &&& 0 <= i <= j < path.len()
    &&& path[j] == '/'
    &&& (i == 0 || path[i - 1] == '/')
    &&& forall|m: int| i <= m < j ==> path[m] != '/'
}

/// The position where the last component of the first `n` characters of
/// `path` starts.
pub open spec fn component_start(path: Seq<char>, n: int) -> int
    decreases n,
{
    if n <= 0 {
        0
    } else if path[n - 1] == '/' {
        n
    } else {
        component_start(path, n - 1)
    }
}

/// The base name of `path`: what follows its last separator.
pub open spec fn base_name(path: Seq<char>) -> Seq<char> {
    path.subrange(component_start(path, path.len() as int), path.len() as int)
}

/// Some directory component of `path` is named in `dirs`.
pub open spec fn excluded_by_dirs(path: Seq<char>, dirs: Seq<String>) -> bool {
    exists|i: int, j: int| is_dir_segment(path, i, j) && contains_name(dirs, #[trigger] path.subrange(i, j))
}

/// `path` is left out: its base name is in `files`, or a directory on its
/// way is in `dirs`.
pub open spec fn is_excluded_spec(path: Seq<char>, files: Seq<String>, dirs: Seq<String>) -> bool {
    contains_name(files, base_name(path)) || excluded_by_dirs(path, dirs)
}

/// Whether `names` holds `c`.
fn holds_name(names: &Vec<String>, c: &str) -> (r: bool)
    ensures
        r == contains_name(names@, c@),
{
    let key = c.to_owned();
    let mut k: usize = 0;
    while k < names.len()
        invariant
            k <= names.len(),
            key@ == c@,
            forall|m: int| 0 <= m < k ==> names@[m]@ != c@,
        decreases names.len() - k,
    {
        if names[k] == key {
            return true;
        }
        k = k + 1;
    }
    false
}

proof fn lemma_component_start(path: Seq<char>, n: int)
    requires
        0 <= n <= path.len(),
    ensures
        0 <= component_start(path, n) <= n,
        component_start(path, n) == 0 || path[component_start(path, n) - 1] == '/',
        forall|m: int| component_start(path, n) <= m < n ==> path[m] != '/',
    decreases n,
{
    if n > 0 && path[n - 1] != '/' {
        lemma_component_start(path, n - 1);
    }
}

/// Whether `path` is left out of tracking by the base names in `files` and
/// `dirs`.
pub fn is_excluded(path: &str, files: &Vec<String>, dirs: &Vec<String>) -> (r: bool)
    ensures
        r == is_excluded_spec(path@, files@, dirs@),
{
    let n = path.unicode_len();
    let ghost p = path@;
    let mut start: usize = 0;
    let mut found = false;
    let mut i: usize = 0;
    while i < n
        invariant
            n == p.len(),
            p == path@,
            i <= n,
            start as int == component_start(p, i as int),
            found <==> exists|a: int, b: int|
                b < i && is_dir_segment(p, a, b) && contains_name(dirs@, #[trigger] p.subrange(a, b)),
        decreases n - i,
    {
        proof {
            lemma_component_start(p, i as int);
        }
        if path.get_char(i) == '/' {
            let segment = path.substring_char(start, i);
            let named = holds_name(dirs, segment);
            proof {
                assert(is_dir_segment(p, start as int, i as int));
                assert forall|a: int| is_dir_segment(p, a, i as int) implies a == start by {
                    if a < start {
                        assert(p[start - 1] == '/');
                    } else if a > start {
                        assert(p[a - 1] == '/');
                    }
                }
            }
            if named {
                found = true;
            }
            start = i + 1;
        }
        i = i + 1;
    }
    proof {
        lemma_component_start(p, n as int);
    }
    let base = path.substring_char(start, n);
    holds_name(files, base) || found
}

} // verus!
