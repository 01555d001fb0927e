//! Character-level helpers for the slash-separated paths and file names
//! the store works with.
use vstd::prelude::*;

verus! {

/// The index of the last occurrence of `c` in `s`, or -1 when `c` does
/// not occur.
pub open spec fn rfind_spec(s: Seq<char>, c: char) -> int
    decreases s.len(),
{
    if s.len() == 0 {
        -1
    } else if s.last() == c {
        s.len() - 1
    } else {
        rfind_spec(s.drop_last(), c)
    }
}

pub proof fn lemma_rfind(s: Seq<char>, c: char)
    ensures
        -1 <= rfind_spec(s, c) < s.len(),
        rfind_spec(s, c) == -1 ==> forall|i: int| 0 <= i < s.len() ==> s[i] != c,
        rfind_spec(s, c) >= 0 ==> s[rfind_spec(s, c)] == c,
        rfind_spec(s, c) >= 0 ==> forall|i: int| rfind_spec(s, c) < i < s.len() ==> s[i] != c,
    decreases s.len(),
{
    if s.len() > 0 && s.last() != c {
        lemma_rfind(s.drop_last(), c);
        assert(forall|i: int| 0 <= i < s.len() - 1 ==> s[i] == s.drop_last()[i]);
    }
}

/// Any position that holds `c` with nothing but non-`c` characters after
/// it is the position `rfind_spec` names.
pub proof fn lemma_rfind_unique(s: Seq<char>, c: char, i: int)
    requires
        0 <= i < s.len(),
        s[i] == c,
        forall|k: int| i < k < s.len() ==> s[k] != c,
    ensures
        rfind_spec(s, c) == i,
    decreases s.len(),
{
    if i == s.len() - 1 {
    } else {
        assert(s.last() != c);
        assert(s.drop_last()[i] == c);
        assert(forall|k: int| i < k < s.len() - 1 ==> s.drop_last()[k] != c);
        lemma_rfind_unique(s.drop_last(), c, i);
    }
}

/// Finds the last occurrence of `c` in `s`.
pub fn rfind(s: &str, c: char) -> (r: Option<usize>)
    ensures
        match r {
            Some(i) => rfind_spec(s@, c) == i as int,
            None => rfind_spec(s@, c) == -1,
        },
{
    let n = s.unicode_len();
    let mut i: usize = n;
    while i > 0
        invariant
            i <= n,
            n == s@.len(),
            forall|k: int| i <= k < s@.len() ==> s@[k] != c,
        decreases i,
    {
        i = i - 1;
        if s.get_char(i) == c {
            proof {
                lemma_rfind_unique(s@, c, i as int);
            }
            return Some(i);
        }
    }
    proof {
        lemma_rfind(s@, c);
    }
    None
}

/// The extension of a file name: what follows the final dot, provided
/// the dot is neither absent nor the name's first character.
pub open spec fn extension_of(name: Seq<char>) -> Option<Seq<char>> {
    let d = rfind_spec(name, '.');
    if d <= 0 {
        None
    } else {
        Some(name.skip(d + 1))
    }
}

/// Extracts the extension of a file name.
pub fn name_extension(name: &str) -> (r: Option<String>)
    ensures
        match r {
            Some(e) => extension_of(name@) == Some(e@),
            None => extension_of(name@) is None,
        },
{
    match rfind(name, '.') {
        None => None,
        Some(d) => {
            if d == 0 {
                None
            } else {
                let n = name.unicode_len();
                proof {
                    lemma_rfind(name@, '.');
                }
                let e = name.substring_char(d + 1, n);
                proof {
                    assert(name@.subrange(d + 1, name@.len() as int) =~= name@.skip(d + 1));
                }
                Some(e.to_owned())
            }
        },
    }
}

/// The file-name part of a slash-separated path: what follows the final
/// slash, or the whole path when it has none.
pub open spec fn file_name_of(path: Seq<char>) -> Seq<char> {
    path.skip(rfind_spec(path, '/') + 1)
}

/// Extracts the file-name part of a slash-separated path.
pub fn path_file_name(path: &str) -> (r: String)
    ensures
        r@ == file_name_of(path@),
{
    let n = path.unicode_len();
    proof {
        lemma_rfind(path@, '/');
    }
    let from = match rfind(path, '/') {
        None => 0,
        Some(i) => i + 1,
    };
    let r = path.substring_char(from, n);
    proof {
        assert(path@.subrange(from as int, path@.len() as int) =~= path@.skip(
            rfind_spec(path@, '/') + 1,
        ));
    }
    r.to_owned()
}

/// The case-folded value of a character, for ASCII-insensitive
/// comparisons: upper-case ASCII letters map onto their lower-case
/// counterparts, everything else onto itself.
pub open spec fn lower_code(c: char) -> int {
    if 'A' <= c && c <= 'Z' {
        c as int + 32
    } else {
        c as int
    }
}

/// Whether two strings are equal up to ASCII case.
pub open spec fn eq_ignore_ascii_case_spec(s: Seq<char>, t: Seq<char>) -> bool {
    s.len() == t.len() && (forall|i: int| 0 <= i < s.len() ==> lower_code(s[i]) == lower_code(t[i]))
}

/// Compares two strings ignoring ASCII case.
pub fn eq_ignore_ascii_case(s: &str, t: &str) -> (r: bool)
    ensures
        r <==> eq_ignore_ascii_case_spec(s@, t@),
{
    let sn = s.unicode_len();
    let tn = t.unicode_len();
    if sn != tn {
        return false;
    }
    let mut i: usize = 0;
    while i < sn
        invariant
            i <= sn,
            sn == s@.len(),
            sn == t@.len(),
            forall|k: int| 0 <= k < i ==> lower_code(s@[k]) == lower_code(t@[k]),
        decreases sn - i,
    {
        let sc = s.get_char(i);
        let tc = t.get_char(i);
        let sl: u32 = if 'A' <= sc && sc <= 'Z' {
            sc as u32 + 32
        } else {
            sc as u32
        };
        let tl: u32 = if 'A' <= tc && tc <= 'Z' {
            tc as u32 + 32
        } else {
            tc as u32
        };
        if sl != tl {
            return false;
        }
        i += 1;
    }
    true
}

/// Compares two strings character by character.
pub fn str_eq(a: &str, b: &str) -> (r: bool)
    ensures
        r <==> a@ == b@,
{
    let an = a.unicode_len();
    let bn = b.unicode_len();
    if an != bn {
        return false;
    }
    let mut i: usize = 0;
    while i < an
        invariant
            i <= an,
            an == a@.len(),
            an == b@.len(),
            forall|k: int| 0 <= k < i ==> a@[k] == b@[k],
        decreases an - i,
    {
        if a.get_char(i) != b.get_char(i) {
            return false;
        }
        i += 1;
    }
    proof {
        assert(a@ =~= b@);
    }
    true
}

/// Appends one path segment to a base path, separated by a slash.
pub fn join_path(base: &str, segment: &str) -> (r: String)
    ensures
        r@ == base@ + "/"@ + segment@,
{
    let mut out = base.to_owned();
    out.append("/");
    out.append(segment);
    out
}

} // verus!
