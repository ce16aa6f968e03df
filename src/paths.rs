use vstd::prelude::*;

verus! {

/// The operating-system families whose shared-library file extension differs.
#[derive(Debug, Clone, Copy, PartialEq, Eq, Hash, Structural)]
pub enum LibraryPlatform {
    /// `.dll`
    Windows,
    /// `.dylib`
    MacOs,
    /// `.so`
    Unix,
}

/// The shared-library extension of a platform, without the dot.
pub open spec fn library_extension(p: LibraryPlatform) -> Seq<char> {
    match p {
        LibraryPlatform::Windows => "dll"@,
        LibraryPlatform::MacOs => "dylib"@,
        LibraryPlatform::Unix => "so"@,
    }
}

/// The position of the last `c` in `s`, or -1 when there is none.
pub open spec fn last_pos(s: Seq<char>, c: char) -> int
    decreases s.len(),
{
    if s.len() == 0 {
        -1
    } else if s.last() == c {
        s.len() - 1
    } else {
        last_pos(s.drop_last(), c)
    }
}

/// The final component of a path: what follows its last `/`.
pub open spec fn file_name(p: Seq<char>) -> Seq<char> {
    p.subrange(last_pos(p, '/') + 1, p.len() as int)
}

/// The extension of a path: what follows the last `.` of its file name,
/// where a dot that starts the file name (a hidden file) does not count.
pub open spec fn extension(p: Seq<char>) -> Option<Seq<char>> {
    let name = file_name(p);
    let d = last_pos(name, '.');
    if d <= 0 {
        None
    } else {
        Some(name.subrange(d + 1, name.len() as int))
    }
}

/// ASCII case folding of one character, as a code point.
pub open spec fn fold(c: char) -> u32 {
    if 'A' <= c && c <= 'Z' {
        (c as u32 + 32) as u32
    } else {
        c as u32
    }
}

/// Equality of two texts up to ASCII case.
pub open spec fn eq_ignore_case(a: Seq<char>, b: Seq<char>) -> bool {
    a.len() == b.len() && forall|i: int| 0 <= i < a.len() ==> fold(#[trigger] a[i]) == fold(b[i])
}

/// Whether a path names a shared library of the given platform.
pub open spec fn is_library_path(p: Seq<char>, platform: LibraryPlatform) -> bool {
    match extension(p) {
        Some(e) => eq_ignore_case(e, library_extension(platform)),
        None => false,
    }
}

proof fn lemma_last_pos_suffix(s: Seq<char>, c: char, k: int)
    requires
        0 <= k <= s.len(),
    ensures
        last_pos(s.subrange(k, s.len() as int), c) == (if last_pos(s, c) >= k {
            last_pos(s, c) - k
        } else {
            -1
        }),
    decreases s.len(),
{
    let t = s.subrange(k, s.len() as int);
    lemma_last_pos_bounds(s, c);
    if s.len() > k {
        assert(t.last() == s.last());
        if s.last() != c {
            assert(t.drop_last() == s.drop_last().subrange(k, s.len() - 1));
            lemma_last_pos_suffix(s.drop_last(), c, k);
        }
    }
}

proof fn lemma_last_pos_bounds(s: Seq<char>, c: char)
    ensures
        -1 <= last_pos(s, c) < s.len(),
        last_pos(s, c) >= 0 ==> s[last_pos(s, c)] == c,
        forall|j: int| last_pos(s, c) < j < s.len() ==> s[j] != c,
    decreases s.len(),
{
    if s.len() > 0 && s.last() != c {
        lemma_last_pos_bounds(s.drop_last(), c);
        assert forall|j: int| last_pos(s, c) < j < s.len() implies s[j] != c by {
            if j < s.len() - 1 {
                assert(s.drop_last()[j] == s[j]);
            }
        }
    }
}

fn fold_char(c: char) -> (r: u32)
    ensures
        r == fold(c),
{
    let x = c as u32;
    if 65 <= x && x <= 90 {
        x + 32
    } else {
        x
    }
}

/// Position of the last `c` in `s[..end]`, or `None`.
fn find_last(s: &str, end: usize, c: char) -> (r: Option<usize>)
    requires
        end <= s@.len(),
    ensures
        r == (if last_pos(s@.subrange(0, end as int), c) < 0 {
            None::<usize>
        } else {
            Some(last_pos(s@.subrange(0, end as int), c) as usize)
        }),
{
    let mut i: usize = end;
    while i > 0
        invariant
            i <= end <= s@.len(),
            last_pos(s@.subrange(0, end as int), c) == last_pos(s@.subrange(0, i as int), c),
        decreases i,
    {
        let ch = s.get_char(i - 1);
        let ghost pre = s@.subrange(0, i as int);
        assert(pre.drop_last() == s@.subrange(0, i - 1));
        if ch == c {
            return Some(i - 1);
        }
        i = i - 1;
    }
    None
}

/// Whether `s[from..]` equals `e` up to ASCII case.
fn tail_eq_ignore_case(s: &str, from: usize, e: &str) -> (r: bool)
    requires
        from <= s@.len(),
    ensures
        r == eq_ignore_case(s@.subrange(from as int, s@.len() as int), e@),
{
    let n = s.unicode_len();
    let m = e.unicode_len();
    let ghost t = s@.subrange(from as int, s@.len() as int);
    if n - from != m {
        return false;
    }
    let mut i: usize = 0;
    while i < m
        invariant
            n == s@.len(),
            m == e@.len(),
            n - from == m,
            from <= n,
            t == s@.subrange(from as int, n as int),
            i <= m,
            forall|j: int| 0 <= j < i ==> fold(#[trigger] t[j]) == fold(e@[j]),
        decreases m - i,
    {
        let a = s.get_char(from + i);
        let b = e.get_char(i);
        if fold_char(a) != fold_char(b) {
            assert(t[i as int] == a);
            return false;
        }
        i = i + 1;
    }
    true
}

impl LibraryPlatform {
    /// The shared-library extension of this platform, without the dot.
    pub fn extension(self) -> (r: &'static str)
        ensures
            r@ == library_extension(self),
    {
        match self {
            LibraryPlatform::Windows => "dll",
            LibraryPlatform::MacOs => "dylib",
            LibraryPlatform::Unix => "so",
        }
    }
}

/// Whether `path` names a shared library of `platform`: its extension equals the
/// platform's, ignoring ASCII case.
pub fn is_dynamic_library(path: &str, platform: LibraryPlatform) -> (r: bool)
    ensures
        r == is_library_path(path@, platform),
{
    let n = path.unicode_len();
    proof {
        assert(path@.subrange(0, n as int) == path@);
        lemma_last_pos_bounds(path@, '/');
        lemma_last_pos_bounds(path@, '.');
    }
    let start: usize = match find_last(path, n, '/') {
        Some(k) => k + 1,
        None => 0,
    };
    proof {
        lemma_last_pos_suffix(path@, '.', start as int);
    }
    match find_last(path, n, '.') {
        Some(q) => {
            if q > start {
                let ghost name = file_name(path@);
                assert(name.subrange(q - start + 1, name.len() as int) == path@.subrange(
                    q + 1,
                    n as int,
                ));
                tail_eq_ignore_case(path, q + 1, platform.extension())
            } else {
                false
            }
        },
        None => false,
    }
}

} // verus!
