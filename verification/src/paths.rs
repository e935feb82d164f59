//! Paths as plain slash-separated strings: the file name, stem, extension
//! and parent reads that the pipeline's transforms work from.

use vstd::prelude::*;
use crate::strutil::push_char;
use crate::strutil::push_subrange;

verus! {

/// Index of the last `/`, when the path has one.
pub open spec fn last_sep(p: Seq<char>) -> Option<int>
    decreases p.len(),
{
    if p.len() == 0 {
        None
    } else if p.last() == '/' {
        Some(p.len() - 1)
    } else {
        last_sep(p.drop_last())
    }
}

proof fn lemma_last_sep_at(p: Seq<char>, b: int)
    requires
        0 <= b <= p.len(),
        forall|j: int| b <= j < p.len() ==> p[j] != '/',
        b > 0 ==> p[b - 1] == '/',
    ensures
        last_sep(p) == if b > 0 {
            Some(b - 1)
        } else {
            None::<int>
        },
    decreases p.len() - b,
{
    if b == p.len() {
        if b > 0 {
        }
    } else {
        lemma_last_sep_at(p.drop_last(), b);
    }
}

/// A last slash, when there is one, lies inside the path.
pub proof fn lemma_last_sep_range(p: Seq<char>)
    ensures
        match last_sep(p) {
            Some(i) => 0 <= i < p.len() && p[i] == '/',
            None => true,
        },
    decreases p.len(),
{
    if p.len() > 0 && p.last() != '/' {
        lemma_last_sep_range(p.drop_last());
    }
}

/// The part after the last slash: the file name, possibly empty.
pub open spec fn file_name_spec(p: Seq<char>) -> Seq<char> {
    match last_sep(p) {
        Some(i) => p.skip(i + 1),
        None => p,
    }
}

/// Everything before the last slash: the parent, empty for a bare name.
pub open spec fn parent_spec(p: Seq<char>) -> Seq<char> {
    match last_sep(p) {
        Some(i) => p.take(i),
        None => Seq::empty(),
    }
}

/// Index of the last `.` in a file name.
pub open spec fn last_dot(nm: Seq<char>) -> Option<int>
    decreases nm.len(),
{
    if nm.len() == 0 {
        None
    } else if nm.last() == '.' {
        Some(nm.len() - 1)
    } else {
        last_dot(nm.drop_last())
    }
}

proof fn lemma_last_dot_at(nm: Seq<char>, b: int)
    requires
        0 <= b <= nm.len(),
        forall|j: int| b <= j < nm.len() ==> nm[j] != '.',
        b > 0 ==> nm[b - 1] == '.',
    ensures
        last_dot(nm) == if b > 0 {
            Some(b - 1)
        } else {
            None::<int>
        },
    decreases nm.len() - b,
{
    if b < nm.len() {
        lemma_last_dot_at(nm.drop_last(), b);
    }
}

/// The file name without its extension. A name whose only dot leads it,
/// or that has no dot, is its own stem.
pub open spec fn stem_of_name(nm: Seq<char>) -> Seq<char> {
    match last_dot(nm) {
        Some(i) => if i == 0 {
            nm
        } else {
            nm.take(i)
        },
        None => nm,
    }
}

/// The extension after the last dot, when the stem is proper.
pub open spec fn ext_of_name(nm: Seq<char>) -> Option<Seq<char>> {
    match last_dot(nm) {
        Some(i) => if i == 0 {
            None
        } else {
            Some(nm.skip(i + 1))
        },
        None => None,
    }
}

/// The stem of a path's file name.
pub open spec fn file_stem_spec(p: Seq<char>) -> Seq<char> {
    stem_of_name(file_name_spec(p))
}

/// The extension of a path's file name.
pub open spec fn extension_spec(p: Seq<char>) -> Option<Seq<char>> {
    ext_of_name(file_name_spec(p))
}

/// A path with the extension of its file name swapped for `ext`. A path
/// without a file name is left alone.
pub open spec fn set_extension_spec(p: Seq<char>, ext: Seq<char>) -> Seq<char> {
    let nm = file_name_spec(p);
    if nm.len() == 0 {
        p
    } else {
        p.take(p.len() - nm.len()) + stem_of_name(nm) + seq!['.'] + ext
    }
}

/// Two paths joined with a single slash; an empty left side yields the
/// right side alone.
pub open spec fn join_spec(a: Seq<char>, b: Seq<char>) -> Seq<char> {
    if a.len() == 0 {
        b
    } else if a.last() == '/' {
        a + b
    } else {
        a + seq!['/'] + b
    }
}

/// Index just past the last slash, scanning backwards.
fn scan_name_start(p: &str) -> (r: usize)
    ensures
        r <= p@.len(),
        last_sep(p@) == if r > 0 {
            Some(r - 1)
        } else {
            None::<int>
        },
{
    let n = p.unicode_len();
    let mut b: usize = n;
    while b > 0 && p.get_char(b - 1) != '/'
        invariant
            n == p@.len(),
            0 <= b <= n,
            forall|j: int| b <= j < n ==> p@[j] != '/',
        decreases b,
    {
        b = b - 1;
    }
    proof {
        lemma_last_sep_at(p@, b as int);
    }
    b
}

/// The file name of a path, when it has a non-empty one.
pub fn path_file_name(p: &str) -> (r: Option<String>)
    ensures
        match r {
            Some(nm) => nm@ == file_name_spec(p@) && nm@.len() > 0,
            None => file_name_spec(p@).len() == 0,
        },
{
    let n = p.unicode_len();
    let b = scan_name_start(p);
    if b == n {
        proof {
            if last_sep(p@) is Some {
                assert(file_name_spec(p@) =~= p@.skip(n as int));
            }
        }
        return None;
    }
    let nm = p.substring_char(b, n);
    proof {
        assert(p@.subrange(b as int, n as int) =~= file_name_spec(p@));
    }
    Some(nm.to_owned())
}

/// The parent of a path: what stands before the last slash, possibly
/// empty; nothing for an empty path.
pub fn path_parent(p: &str) -> (r: Option<String>)
    ensures
        match r {
            Some(par) => p@.len() > 0 && par@ == parent_spec(p@),
            None => p@.len() == 0,
        },
{
    let n = p.unicode_len();
    if n == 0 {
        return None;
    }
    let b = scan_name_start(p);
    if b == 0 {
        let r = String::new();
        proof {
            assert(parent_spec(p@) =~= Seq::<char>::empty());
        }
        return Some(r);
    }
    let par = p.substring_char(0, b - 1);
    proof {
        assert(p@.subrange(0, b - 1) =~= parent_spec(p@));
    }
    Some(par.to_owned())
}

/// Index of the character after the last dot of the file name part, or 0.
fn scan_dot_start(nm: &str) -> (r: usize)
    ensures
        r <= nm@.len(),
        last_dot(nm@) == if r > 0 {
            Some(r - 1)
        } else {
            None::<int>
        },
{
    let n = nm.unicode_len();
    let mut b: usize = n;
    while b > 0 && nm.get_char(b - 1) != '.'
        invariant
            n == nm@.len(),
            0 <= b <= n,
            forall|j: int| b <= j < n ==> nm@[j] != '.',
        decreases b,
    {
        b = b - 1;
    }
    proof {
        lemma_last_dot_at(nm@, b as int);
    }
    b
}

/// The stem of a path's file name, when the path has a file name.
pub fn path_file_stem(p: &str) -> (r: Option<String>)
    ensures
        match r {
            Some(st) => st@ == file_stem_spec(p@) && file_name_spec(p@).len() > 0,
            None => file_name_spec(p@).len() == 0,
        },
{
    match path_file_name(p) {
        Some(nm) => {
            let d = scan_dot_start(nm.as_str());
            if d <= 1 {
                proof {
                    assert(stem_of_name(nm@) == nm@);
                }
                Some(nm)
            } else {
                let st = nm.as_str().substring_char(0, d - 1);
                proof {
                    assert(nm@.subrange(0, d - 1) =~= stem_of_name(nm@));
                }
                Some(st.to_owned())
            }
        },
        None => None,
    }
}

/// The extension of a path's file name, when it has a proper one.
pub fn path_extension(p: &str) -> (r: Option<String>)
    ensures
        match r {
            Some(ext) => extension_spec(p@) == Some(ext@),
            None => extension_spec(p@) is None,
        },
{
    match path_file_name(p) {
        Some(nm) => {
            let d = scan_dot_start(nm.as_str());
            if d <= 1 {
                None
            } else {
                let n = nm.as_str().unicode_len();
                let ext = nm.as_str().substring_char(d, n);
                proof {
                    assert(nm@.subrange(d as int, n as int) =~= nm@.skip(d as int));
                }
                Some(ext.to_owned())
            }
        },
        None => None,
    }
}

/// Swap the extension of a path's file name for `ext`; a path without a
/// file name is returned alone.
pub fn path_set_extension(p: &str, ext: &str) -> (r: String)
    ensures
        r@ == set_extension_spec(p@, ext@),
{
    let n = p.unicode_len();
    let b = scan_name_start(p);
    if b == n {
        proof {
            if last_sep(p@) is Some {
                assert(file_name_spec(p@) =~= p@.skip(n as int));
            }
        }
        return p.to_owned();
    }
    let nm = p.substring_char(b, n);
    proof {
        assert(p@.subrange(b as int, n as int) =~= file_name_spec(p@));
    }
    let d = scan_dot_start(nm);
    let mut out = String::new();
    push_subrange(&mut out, p, 0, b);
    if d <= 1 {
        proof {
            assert(stem_of_name(nm@) == nm@);
        }
        out.append(nm);
    } else {
        push_subrange(&mut out, nm, 0, d - 1);
        proof {
            assert(nm@.subrange(0, d - 1) =~= stem_of_name(nm@));
        }
    }
    push_char(&mut out, '.');
    out.append(ext);
    proof {
        assert(p@.subrange(0, b as int) =~= p@.take(p@.len() - file_name_spec(p@).len()));
        assert(out@ =~= set_extension_spec(p@, ext@));
    }
    out
}

/// Join two paths with a single slash.
pub fn path_join(a: &str, b: &str) -> (r: String)
    ensures
        r@ == join_spec(a@, b@),
{
    let n = a.unicode_len();
    if n == 0 {
        return b.to_owned();
    }
    let mut out = a.to_owned();
    if a.get_char(n - 1) != '/' {
        push_char(&mut out, '/');
    }
    out.append(b);
    out
}

} // verus!
