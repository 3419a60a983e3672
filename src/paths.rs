use vstd::prelude::*;

verus! {

pub open spec fn is_separator(c: char) -> bool {
    c == '/' || c == '\\'
}

/// `seg` is one whole segment of `path` at position `i`.
pub open spec fn segment_at(path: Seq<char>, seg: Seq<char>, i: int) -> bool {
    &&& 0 <= i
    &&& i + seg.len() <= path.len()
    &&& path.subrange(i, i + seg.len()) == seg
    &&& (i == 0 || is_separator(path[i - 1]))
    &&& (i + seg.len() == path.len() || is_separator(path[i + seg.len()]))
}

/// `seg` is one of the segments of `path`.
pub open spec fn has_segment(path: Seq<char>, seg: Seq<char>) -> bool {
    exists|i: int| segment_at(path, seg, i)
}

/// The file name of `path` ends in `.` followed by `ext`, with something before the dot.
pub open spec fn has_extension(path: Seq<char>, ext: Seq<char>) -> bool {
    let n = path.len() as int;
    let e = ext.len() as int;
    &&& n >= e + 2
    &&& path.subrange(n - e, n) == ext
    &&& path[n - e - 1] == '.'
    &&& !is_separator(path[n - e - 2])
}

/// A path is scanned when it names a TypeScript or TSX source and none of its
/// segments is excluded.
pub open spec fn is_candidate(path: Seq<char>, excluded: Seq<Seq<char>>) -> bool {
    &&& (has_extension(path, seq!['t', 's']) || has_extension(path, seq!['t', 's', 'x']))
    &&& forall|k: int| 0 <= k < excluded.len() ==> !has_segment(path, #[trigger] excluded[k])
}

fn chars_of(s: &str) -> (r: Vec<char>)
    ensures
        r@ == s@,
{
    let n = s.unicode_len();
    let mut r: Vec<char> = Vec::new();
    let mut i: usize = 0;
    while i < n
        invariant
            n == s@.len(),
            i <= n,
            r@ == s@.subrange(0, i as int),
        decreases n - i,
    {
        r.push(s.get_char(i));
        i = i + 1;
        assert(r@ =~= s@.subrange(0, i as int));
    }
    r
}

fn matches_at(path: &Vec<char>, seg: &Vec<char>, i: usize) -> (r: bool)
    requires
        i + seg@.len() <= path@.len(),
    ensures
        r == (path@.subrange(i as int, i + seg@.len()) == seg@),
{
    let n = path.len();
    let mut k: usize = 0;
    while k < seg.len()
        invariant
            n == path@.len(),
            i + seg@.len() <= path@.len(),
            k <= seg@.len(),
            forall|m: int| 0 <= m < k ==> path@[i + m] == seg@[m],
        decreases seg@.len() - k,
    {
        if path[i + k] != seg[k] {
            assert(path@.subrange(i as int, i + seg@.len())[k as int] != seg@[k as int]);
            return false;
        }
        k = k + 1;
    }
    assert(path@.subrange(i as int, i + seg@.len()) =~= seg@);
    true
}

fn segment_here(path: &Vec<char>, seg: &Vec<char>, i: usize) -> (r: bool)
    requires
        i + seg@.len() <= path@.len(),
    ensures
        r == segment_at(path@, seg@, i as int),
{
    let n = path.len();
    let m = seg.len();
    let starts = i == 0 || path[i - 1] == '/' || path[i - 1] == '\\';
    let ends = i + m == n || path[i + m] == '/' || path[i + m] == '\\';
    starts && ends && matches_at(path, seg, i)
}

fn contains_segment(path: &Vec<char>, seg: &Vec<char>) -> (r: bool)
    ensures
        r == has_segment(path@, seg@),
{
    let n = path.len();
    let m = seg.len();
    if m > n {
        return false;
    }
    let mut i: usize = 0;
    while i < n - m
        invariant
            n == path@.len(),
            m == seg@.len(),
            m <= n,
            i <= n - m,
            forall|j: int| 0 <= j < i ==> !segment_at(path@, seg@, j),
        decreases n - m - i,
    {
        if segment_here(path, seg, i) {
            return true;
        }
        i = i + 1;
    }
    if segment_here(path, seg, n - m) {
        return true;
    }
    assert forall|j: int| !segment_at(path@, seg@, j) by {
        if 0 <= j < i {
        }
    }
    false
}

fn ends_with_extension(path: &Vec<char>, ext: &Vec<char>) -> (r: bool)
    ensures
        r == has_extension(path@, ext@),
{
    let n = path.len();
    let e = ext.len();
    if n < 2 || e > n - 2 {
        return false;
    }
    if path[n - e - 1] != '.' || path[n - e - 2] == '/' || path[n - e - 2] == '\\' {
        return false;
    }
    matches_at(path, ext, n - e)
}

/// Whether the file at `path` is to be scanned: its extension is `ts` or `tsx`
/// and no segment of the path is one of `excluded`.
pub fn is_candidate_path(path: &str, excluded: &Vec<String>) -> (r: bool)
    ensures
        r == is_candidate(path@, excluded@.map_values(|s: String| s@)),
{
    let p = chars_of(path);
    let ts: Vec<char> = vec!['t', 's'];
    let tsx: Vec<char> = vec!['t', 's', 'x'];
    assert(ts@ =~= seq!['t', 's']);
    assert(tsx@ =~= seq!['t', 's', 'x']);
    if !ends_with_extension(&p, &ts) && !ends_with_extension(&p, &tsx) {
        return false;
    }
    let ghost views = excluded@.map_values(|s: String| s@);
    let mut k: usize = 0;
    while k < excluded.len()
        invariant
            p@ == path@,
            views == excluded@.map_values(|s: String| s@),
            k <= excluded@.len(),
            forall|j: int| 0 <= j < k ==> !has_segment(p@, #[trigger] views[j]),
        decreases excluded@.len() - k,
    {
        let seg = chars_of(excluded[k].as_str());
        assert(views[k as int] == seg@);
        if contains_segment(&p, &seg) {
            return false;
        }
        k = k + 1;
    }
    true
}

/// The directories that are never scanned: dependencies, build output,
/// version control, editor and CI settings.
pub fn default_excluded_segments() -> (r: Vec<String>)
    ensures
        r@.len() == 10,
        r@[0]@ == "node_modules"@,
        r@[1]@ == "dist"@,
        r@[2]@ == ".nx"@,
        r@[3]@ == "build"@,
        r@[4]@ == ".github"@,
        r@[5]@ == ".azuredevops"@,
        r@[6]@ == ".vscode"@,
        r@[7]@ == ".git"@,
        r@[8]@ == ".yarn"@,
        r@[9]@ == ".npm"@,
{
    let mut r: Vec<String> = Vec::new();
    r.push(String::from_str("node_modules"));
    r.push(String::from_str("dist"));
    r.push(String::from_str(".nx"));
    r.push(String::from_str("build"));
    r.push(String::from_str(".github"));
    r.push(String::from_str(".azuredevops"));
    r.push(String::from_str(".vscode"));
    r.push(String::from_str(".git"));
    r.push(String::from_str(".yarn"));
    r.push(String::from_str(".npm"));
    r
}

} // verus!
