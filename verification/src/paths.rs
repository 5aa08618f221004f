//! Asset path rules: separator normalization, the configured asset root, and turning catalog
//! URIs into paths the asset server accepts.
use vstd::prelude::*;
use vstd::string::*;
use crate::catalog::ascii_lower;

verus! {

/// `s` with every backslash turned into a forward slash.
pub open spec fn forward_slashes(s: Seq<char>) -> Seq<char> {
    s.map_values(|c: char| if c == '\\' { '/' } else { c })
}

/// `s` without its leading slashes.
pub open spec fn trim_leading_slashes(s: Seq<char>) -> Seq<char>
    decreases s.len(),
{
    if s.len() > 0 && s[0] == '/' {
        trim_leading_slashes(s.skip(1))
    } else {
        s
    }
}

/// `s` without its trailing slashes.
pub open spec fn trim_trailing_slashes(s: Seq<char>) -> Seq<char>
    decreases s.len(),
{
    if s.len() > 0 && s.last() == '/' {
        trim_trailing_slashes(s.drop_last())
    } else {
        s
    }
}

/// Two characters are the same, with ASCII case ignored when `ignore_ascii_case` holds.
pub open spec fn same_char(a: char, b: char, ignore_ascii_case: bool) -> bool {
    if ignore_ascii_case { ascii_lower(a) == ascii_lower(b) } else { a == b }
}

/// `normalized` lies under `root`: it starts with `root` (ASCII case ignored when
/// `ignore_ascii_case` holds), and the root ends there, at a slash, or with a slash of its
/// own.
pub open spec fn starts_under(normalized: Seq<char>, root: Seq<char>, ignore_ascii_case: bool) -> bool {
    &&& root.len() <= normalized.len()
    &&& forall|j: int| 0 <= j < root.len() ==> #[trigger] same_char(normalized[j], root[j], ignore_ascii_case)
    &&& (normalized.len() == root.len() || normalized[root.len() as int] == '/' || (root.len() > 0 && root.last() == '/'))
}

/// What lies under `root` in `normalized`, without leading slashes; nothing when
/// `normalized` is not under `root` or nothing is left.
pub open spec fn under_root(normalized: Seq<char>, root: Seq<char>, ignore_ascii_case: bool) -> Option<Seq<char>> {
    if starts_under(normalized, root, ignore_ascii_case) {
        let rest = trim_leading_slashes(normalized.skip(root.len() as int));
        if rest.len() == 0 { None } else { Some(rest) }
    } else {
        None
    }
}

/// The path handed to the asset server for the normalized path `normalized`, given whether
/// it is absolute and the configured asset root.
pub open spec fn relativized(normalized: Seq<char>, absolute: bool, root: Option<Seq<char>>, ignore_ascii_case: bool) -> Seq<char> {
    if !absolute {
        normalized
    } else {
        match root {
            Some(r) => match under_root(normalized, r, ignore_ascii_case) {
                Some(rel) => rel,
                None => normalized,
            },
            None => normalized,
        }
    }
}

/// `String::push`: appends `c` at the end of `s`.
#[verifier::external_body]
pub(crate) fn push_char(s: &mut String, c: char)
    ensures
        final(s)@ == old(s)@.push(c),
{
    s.push(c);
}

/// `std::path::Path::is_absolute` on `path`. On Unix a path is absolute when it starts with
/// the root; on Windows when it has a prefix (a drive such as `c:`, or a `\\`-introduced
/// one) followed by the root. So a path that does not start with a slash and holds no colon
/// is absolute on neither; beyond that the answer depends on the platform and is not stated.
#[verifier::external_body]
fn path_is_absolute(path: &str) -> (absolute: bool)
    ensures
        (path@.len() == 0 || (path@[0] != '/' && path@[0] != '\\')) && !path@.contains(':') ==> !absolute,
{
    std::path::Path::new(path).is_absolute()
}

/// The characters of `s` from position `from` on.
fn suffix_from(s: &str, from: usize) -> (r: String)
    requires
        from <= s@.len(),
    ensures
        r@ == s@.skip(from as int),
{
    let n = s.unicode_len();
    let mut r = String::new();
    let mut i: usize = from;
    while i < n
        invariant
            from <= i <= n,
            n == s@.len(),
            r@ == s@.subrange(from as int, i as int),
        decreases n - i,
    {
        push_char(&mut r, s.get_char(i));
        assert(s@.subrange(from as int, i + 1) =~= s@.subrange(from as int, i as int).push(s@[i as int]));
        i = i + 1;
    }
    assert(s@.subrange(from as int, n as int) =~= s@.skip(from as int));
    r
}

/// `path` with every backslash turned into a forward slash.
pub fn normalize_separators(path: &str) -> (r: String)
    ensures
        r@ == forward_slashes(path@),
{
    let n = path.unicode_len();
    let mut r = String::new();
    let mut i: usize = 0;
    while i < n
        invariant
            i <= n,
            n == path@.len(),
            r@ == forward_slashes(path@.take(i as int)),
        decreases n - i,
    {
        let c = path.get_char(i);
        push_char(&mut r, if c == '\\' { '/' } else { c });
        assert(forward_slashes(path@.take(i + 1)) =~= forward_slashes(path@.take(i as int)).push(if c == '\\' { '/' } else { c }));
        i = i + 1;
    }
    assert(path@.take(n as int) =~= path@);
    r
}

/// Whether `a` and `b` are the same character, with ASCII case ignored when
/// `ignore_ascii_case` holds.
fn chars_match(a: char, b: char, ignore_ascii_case: bool) -> (r: bool)
    ensures
        r == same_char(a, b, ignore_ascii_case),
{
    if !ignore_ascii_case {
        return a == b;
    }
    let la = if 'A' <= a && a <= 'Z' { ((a as u8) + 32) as char } else { a };
    let lb = if 'A' <= b && b <= 'Z' { ((b as u8) + 32) as char } else { b };
    assert(la == ascii_lower(a) && lb == ascii_lower(b));
    la == lb
}

/// Strip `root` from the front of `normalized` (both with forward slashes), with the slashes
/// that follow it. `None` when `normalized` is not under `root` (the root must end at a slash
/// or at the end of the path), or is `root` itself. Where the platform's paths ignore ASCII
/// case (`ignore_ascii_case`), so does the comparison.
pub fn strip_asset_root_prefix(normalized: &str, root: &str, ignore_ascii_case: bool) -> (r: Option<String>)
    ensures
        match r {
            Some(rest) => under_root(normalized@, root@, ignore_ascii_case) == Some(rest@),
            None => under_root(normalized@, root@, ignore_ascii_case) is None,
        },
{
    let n = normalized.unicode_len();
    let m = root.unicode_len();
    if m > n {
        return None;
    }
    let mut i: usize = 0;
    while i < m
        invariant
            i <= m <= n,
            n == normalized@.len(),
            m == root@.len(),
            forall|j: int| 0 <= j < i ==> #[trigger] same_char(normalized@[j], root@[j], ignore_ascii_case),
        decreases m - i,
    {
        if !chars_match(normalized.get_char(i), root.get_char(i), ignore_ascii_case) {
            return None;
        }
        i = i + 1;
    }
    let ends_root = m == n || normalized.get_char(m) == '/' || (m > 0 && root.get_char(m - 1) == '/');
    if !ends_root {
        return None;
    }
    assert(starts_under(normalized@, root@, ignore_ascii_case));
    let mut k: usize = m;
    while k < n && normalized.get_char(k) == '/'
        invariant
            m <= k <= n,
            n == normalized@.len(),
            trim_leading_slashes(normalized@.skip(m as int)) == trim_leading_slashes(normalized@.skip(k as int)),
        decreases n - k,
    {
        assert(normalized@.skip(k as int).skip(1) =~= normalized@.skip(k + 1));
        k = k + 1;
    }
    assert(trim_leading_slashes(normalized@.skip(k as int)) == normalized@.skip(k as int));
    if k == n {
        assert(normalized@.skip(k as int).len() == 0);
        return None;
    }
    Some(suffix_from(normalized, k))
}

/// The path the asset server gets for the normalized path `normalized`: a relative path as
/// it is; an absolute one with the configured root stripped when it lies under that root,
/// and as it is otherwise.
pub fn relativize_normalized(normalized: String, absolute: bool, configured_root: Option<&str>, ignore_ascii_case: bool) -> (r: String)
    ensures
        r@ == relativized(normalized@, absolute, match configured_root {
            Some(root) => Some(root@),
            None => None,
        }, ignore_ascii_case),
{
    if !absolute {
        return normalized;
    }
    match configured_root {
        Some(root) => match strip_asset_root_prefix(normalized.as_str(), root, ignore_ascii_case) {
            Some(rel) => rel,
            None => normalized,
        },
        None => normalized,
    }
}

/// Convert a catalog URI to a path the asset server accepts: backslashes become forward
/// slashes; a relative path is then kept as it is; an absolute one under the configured asset
/// root loses that root; any other absolute path is kept as it is. Where the platform's
/// paths ignore ASCII case (`ignore_ascii_case`, as on Windows), the root is compared so.
pub fn relativize_asset_path(path: &str, configured_root: Option<&str>, ignore_ascii_case: bool) -> (r: String)
    ensures
        ({
            let root = match configured_root {
                Some(root) => Some(root@),
                None => None,
            };
            r@ == relativized(forward_slashes(path@), false, root, ignore_ascii_case)
                || r@ == relativized(forward_slashes(path@), true, root, ignore_ascii_case)
        }),
        (forward_slashes(path@).len() == 0 || forward_slashes(path@)[0] != '/') && !forward_slashes(path@).contains(':')
            ==> r@ == forward_slashes(path@),
{
    let normalized = normalize_separators(path);
    let absolute = path_is_absolute(normalized.as_str());
    relativize_normalized(normalized, absolute, configured_root, ignore_ascii_case)
}

/// The form in which the asset root is recorded: forward slashes, no trailing slash.
pub fn normalize_asset_root(root: Option<&str>) -> (r: Option<String>)
    ensures
        match root {
            Some(s) => r is Some && r->0@ == trim_trailing_slashes(forward_slashes(s@)),
            None => r is None,
        },
{
    match root {
        Some(s) => {
            let normalized = normalize_separators(s);
            let n = normalized.as_str().unicode_len();
            let mut end: usize = n;
            assert(normalized@.take(n as int) =~= normalized@);
            while end > 0 && normalized.as_str().get_char(end - 1) == '/'
                invariant
                    end <= n,
                    n == normalized@.len(),
                    trim_trailing_slashes(normalized@) == trim_trailing_slashes(normalized@.take(end as int)),
                decreases end,
            {
                assert(normalized@.take(end as int).drop_last() =~= normalized@.take(end - 1));
                end = end - 1;
            }
            assert(trim_trailing_slashes(normalized@.take(end as int)) == normalized@.take(end as int));
            let mut r = String::new();
            let mut i: usize = 0;
            while i < end
                invariant
                    i <= end <= n,
                    n == normalized@.len(),
                    r@ == normalized@.take(i as int),
                decreases end - i,
            {
                push_char(&mut r, normalized.as_str().get_char(i));
                assert(normalized@.take(i + 1) =~= normalized@.take(i as int).push(normalized@[i as int]));
                i = i + 1;
            }
            Some(r)
        },
        None => None,
    }
}

/// The name given to a duplicate: the original name followed by " Copy".
pub fn duplicate_name(name: &str) -> (r: String)
    ensures
        r@ == name@ + seq![' ', 'C', 'o', 'p', 'y'],
{
    let mut r = suffix_from(name, 0);
    assert(name@.skip(0) =~= name@);
    push_char(&mut r, ' ');
    push_char(&mut r, 'C');
    push_char(&mut r, 'o');
    push_char(&mut r, 'p');
    push_char(&mut r, 'y');
    assert(r@ =~= name@ + seq![' ', 'C', 'o', 'p', 'y']);
    r
}

} // verus!
