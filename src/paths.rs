use vstd::prelude::*;
use vstd::string::*;

verus! {

/// `a` and `b` joined as path segments.
pub open spec fn join_path(a: Seq<char>, b: Seq<char>) -> Seq<char> {
    a + seq!['/'] + b
}

/// Where an object is staged: `root/bucket/key`.
pub open spec fn staged_path(root: Seq<char>, bucket: Seq<char>, key: Seq<char>) -> Seq<char> {
    join_path(join_path(root, bucket), key)
}

/// Whether `path` lies below the directory `dir`.
pub open spec fn is_below(dir: Seq<char>, path: Seq<char>) -> bool {
    &&& path.len() > dir.len() + 1
    &&& path.subrange(0, dir.len() as int) == dir
    &&& path[dir.len() as int] == '/'
}

/// `path` relative to `dir`, when it lies below it.
pub open spec fn relative_path(dir: Seq<char>, path: Seq<char>) -> Option<Seq<char>> {
    if is_below(dir, path) {
        Some(path.subrange(dir.len() as int + 1, path.len() as int))
    } else {
        None
    }
}

pub open spec fn starts_segment(k: Seq<char>, i: int) -> bool {
    i == 0 || k[i - 1] == '/'
}

/// A segment of `k` starting at `i` is `.` or `..`.
pub open spec fn dot_segment(k: Seq<char>, i: int) -> bool {
    &&& k[i] == '.'
    &&& {
        ||| i + 1 == k.len()
        ||| k[i + 1] == '/'
        ||| (k[i + 1] == '.' && (i + 2 == k.len() || k[i + 2] == '/'))
    }
}

pub open spec fn fine_at(k: Seq<char>, i: int) -> bool {
    &&& k[i] == '/' ==> (0 < i < k.len() - 1 && k[i + 1] != '/')
    &&& starts_segment(k, i) ==> !dot_segment(k, i)
}

/// A key that names a file strictly inside the staging directory: not empty,
/// no leading or trailing separator, no empty segment, no `.` or `..` segment.
pub open spec fn safe_key(k: Seq<char>) -> bool {
    &&& k.len() > 0
    &&& forall|i: int| 0 <= i < k.len() ==> #[trigger] fine_at(k, i)
}

/// The position of the last separator of `p`, or -1.
pub open spec fn last_separator(p: Seq<char>) -> int
    decreases p.len(),
{
    if p.len() == 0 {
        -1
    } else if p.last() == '/' {
        p.len() - 1
    } else {
        last_separator(p.drop_last())
    }
}

/// The directory that holds `p`, when `p` has a separator.
pub open spec fn parent_path(p: Seq<char>) -> Option<Seq<char>> {
    if last_separator(p) < 0 {
        None
    } else {
        Some(p.subrange(0, last_separator(p)))
    }
}

fn slash() -> (r: &'static str)
    ensures
        r@ == seq!['/'],
{
    let s = "/";
    proof {
        reveal_strlit("/");
    }
    assert(s@ =~= seq!['/']);
    s
}

/// `a/b`.
pub fn join(a: &str, b: &str) -> (r: String)
    ensures
        r@ == join_path(a@, b@),
{
    let mut r = String::from_str(a);
    r.append(slash());
    r.append(b);
    r
}

/// The directory that holds the staged objects of `bucket`: `root/bucket`.
pub fn staging_dir(root: &str, bucket: &str) -> (r: String)
    ensures
        r@ == join_path(root@, bucket@),
{
    join(root, bucket)
}

/// The local path of an object: `root/bucket/key`, segment-joined.
pub fn download_path(root: &str, bucket: &str, key: &str) -> (r: String)
    ensures
        r@ == staged_path(root@, bucket@, key@),
{
    let dir = staging_dir(root, bucket);
    join(dir.as_str(), key)
}

/// The key of a file found below `dir`: its path relative to `dir`.
pub fn relative_key(dir: &str, path: &str) -> (r: Option<String>)
    ensures
        r is Some <==> relative_path(dir@, path@) is Some,
        r is Some ==> r->0@ == relative_path(dir@, path@)->0,
{
    let d = dir.unicode_len();
    let n = path.unicode_len();
    if n <= d || n - d <= 1 {
        return None;
    }
    let mut i: usize = 0;
    while i < d
        invariant
            d == dir@.len(),
            n == path@.len(),
            n > d + 1,
            i <= d,
            forall|j: int| 0 <= j < i ==> path@[j] == dir@[j],
        decreases d - i,
    {
        if path.get_char(i) != dir.get_char(i) {
            return None;
        }
        i += 1;
    }
    assert(path@.subrange(0, d as int) =~= dir@);
    if path.get_char(d) != '/' {
        return None;
    }
    let rest = path.substring_char(d + 1, n);
    Some(String::from_str(rest))
}

/// Whether `key` can be staged: see `safe_key`.
pub fn is_safe_key(key: &str) -> (r: bool)
    ensures
        r == safe_key(key@),
{
    let n = key.unicode_len();
    if n == 0 {
        return false;
    }
    let mut i: usize = 0;
    while i < n
        invariant
            n == key@.len(),
            i <= n,
            forall|j: int| 0 <= j < i ==> #[trigger] fine_at(key@, j),
        decreases n - i,
    {
        let c = key.get_char(i);
        if c == '/' {
            if i == 0 || i + 1 == n {
                assert(!fine_at(key@, i as int));
                return false;
            }
            if key.get_char(i + 1) == '/' {
                assert(!fine_at(key@, i as int));
                return false;
            }
        }
        let starts = i == 0 || key.get_char(i - 1) == '/';
        if starts && c == '.' {
            if i + 1 == n {
                assert(!fine_at(key@, i as int));
                return false;
            }
            let c1 = key.get_char(i + 1);
            if c1 == '/' {
                assert(!fine_at(key@, i as int));
                return false;
            }
            if c1 == '.' && (i + 2 == n || key.get_char(i + 2) == '/') {
                assert(!fine_at(key@, i as int));
                return false;
            }
        }
        assert(fine_at(key@, i as int));
        i += 1;
    }
    true
}

/// The directory holding `path`: everything before its last separator.
pub fn parent_dir(path: &str) -> (r: Option<String>)
    ensures
        r is Some <==> parent_path(path@) is Some,
        r is Some ==> r->0@ == parent_path(path@)->0,
{
    let n = path.unicode_len();
    let mut i: usize = n;
    assert(path@.subrange(0, n as int) == path@);
    while i > 0
        invariant
            n == path@.len(),
            i <= n,
            last_separator(path@) == last_separator(path@.subrange(0, i as int)),
        decreases i,
    {
        let ghost pre = path@.subrange(0, i as int);
        assert(pre.drop_last() == path@.subrange(0, i - 1));
        if path.get_char(i - 1) == '/' {
            assert(pre.last() == '/');
            return Some(String::from_str(path.substring_char(0, i - 1)));
        }
        i -= 1;
    }
    assert(path@.subrange(0, 0).len() == 0);
    None
}

/// Staging an object and walking the staging directory of its bucket gives
/// back the object's key: downloading, then uploading, keeps every key.
pub proof fn lemma_path_round_trip(root: Seq<char>, bucket: Seq<char>, key: Seq<char>)
    requires
        key.len() > 0,
    ensures
        relative_path(join_path(root, bucket), staged_path(root, bucket, key)) == Some(key),
{
    let dir = join_path(root, bucket);
    let p = staged_path(root, bucket, key);
    assert(p.subrange(0, dir.len() as int) =~= dir);
    assert(p.subrange(dir.len() as int + 1, p.len() as int) =~= key);
}

} // verus!
