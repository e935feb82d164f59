//! Small string helpers shared by the text-processing modules: pushing a
//! character, collecting characters, equality and lexicographic comparison.

use vstd::prelude::*;

verus! {

/// Relies on String::push: appends one character to the end of the string.
#[verifier::external_body]
pub fn push_char(s: &mut String, c: char)
    ensures
        final(s)@ == old(s)@.push(c),
{
    s.push(c)
}

/// Append a subrange of characters of `src` to `out`.
pub fn push_subrange(out: &mut String, src: &str, from: usize, to: usize)
    requires
        from <= to <= src@.len(),
    ensures
        final(out)@ == old(out)@ + src@.subrange(from as int, to as int),
{
    let sub = src.substring_char(from, to);
    out.append(sub);
}

/// Character-sequence equality of two string slices.
pub fn str_eq(a: &str, b: &str) -> (r: bool)
    ensures
        r == (a@ == b@),
{
    let n = a.unicode_len();
    let m = b.unicode_len();
    if n != m {
        assert(a@.len() != b@.len());
        return false;
    }
    let mut i: usize = 0;
    while i < n
        invariant
            n == a@.len(),
            n == b@.len(),
            0 <= i <= n,
            forall|j: int| 0 <= j < i ==> a@[j] == b@[j],
        decreases n - i,
    {
        if a.get_char(i) != b.get_char(i) {
            return false;
        }
        i = i + 1;
    }
    assert(a@ =~= b@);
    true
}

/// Lexicographic order on character sequences by Unicode code point,
/// with a prefix ordered before its extensions.
pub open spec fn lex_le(a: Seq<char>, b: Seq<char>) -> bool
    decreases a.len(),
{
    if a.len() == 0 {
        true
    } else if b.len() == 0 {
        false
    } else if a[0] == b[0] {
        lex_le(a.skip(1), b.skip(1))
    } else {
        (a[0] as int) < (b[0] as int)
    }
}

/// When two sequences agree on their first `i` characters, their order is
/// decided by the remainders.
proof fn lemma_lex_le_skip(a: Seq<char>, b: Seq<char>, i: int)
    requires
        0 <= i <= a.len(),
        0 <= i <= b.len(),
        forall|j: int| 0 <= j < i ==> a[j] == b[j],
    ensures
        lex_le(a, b) == lex_le(a.skip(i), b.skip(i)),
    decreases i,
{
    if i > 0 {
        assert(a.len() > 0 && b.len() > 0);
        assert(a[0] == b[0]);
        lemma_lex_le_skip(a.skip(1), b.skip(1), i - 1);
        assert(a.skip(1).skip(i - 1) =~= a.skip(i));
        assert(b.skip(1).skip(i - 1) =~= b.skip(i));
    } else {
        assert(a.skip(0) =~= a);
        assert(b.skip(0) =~= b);
    }
}

/// Code-point comparison of two characters.
pub fn char_lt(a: char, b: char) -> (r: bool)
    ensures
        r == ((a as int) < (b as int)),
{
    (a as u32) < (b as u32)
}

/// Lexicographic comparison of two string slices.
pub fn str_le(a: &str, b: &str) -> (r: bool)
    ensures
        r == lex_le(a@, b@),
{
    let n = a.unicode_len();
    let m = b.unicode_len();
    let mut i: usize = 0;
    loop
        invariant
            n == a@.len(),
            m == b@.len(),
            0 <= i <= n,
            0 <= i <= m,
            forall|j: int| 0 <= j < i ==> a@[j] == b@[j],
        decreases n - i,
    {
        proof {
            lemma_lex_le_skip(a@, b@, i as int);
        }
        if i >= n {
            assert(a@.skip(i as int).len() == 0);
            return true;
        }
        if i >= m {
            assert(b@.skip(i as int).len() == 0);
            assert(a@.skip(i as int).len() > 0);
            return false;
        }
        let ca = a.get_char(i);
        let cb = b.get_char(i);
        assert(a@.skip(i as int)[0] == ca);
        assert(b@.skip(i as int)[0] == cb);
        if ca != cb {
            return char_lt(ca, cb);
        }
        proof {
            lemma_lex_le_skip(a@, b@, i as int + 1);
        }
        i = i + 1;
    }
}

/// Offset of the first occurrence of `c` at or after `j`.
pub open spec fn char_off(s: Seq<char>, c: char, j: int) -> Option<nat>
    decreases s.len() - j,
{
    if j < 0 || j >= s.len() {
        None
    } else if s[j] == c {
        Some(0nat)
    } else {
        match char_off(s, c, j + 1) {
            Some(k) => Some((k + 1) as nat),
            None => None,
        }
    }
}

pub proof fn lemma_char_off_in_range(s: Seq<char>, c: char, j: int)
    ensures
        match char_off(s, c, j) {
            Some(k) => 0 <= j && j + k < s.len() && s[j + k] == c && forall|l: int|
                j <= l < j + k ==> s[l] != c,
            None => j >= 0 ==> forall|l: int| j <= l < s.len() ==> s[l] != c,
        },
    decreases s.len() - j,
{
    if 0 <= j < s.len() && s[j] != c {
        lemma_char_off_in_range(s, c, j + 1);
    }
}

/// The pieces of a sequence from position `i` on, cut at every occurrence
/// of the separator. A separator at the end yields a final empty piece.
pub open spec fn split_from(s: Seq<char>, sep: char, i: int) -> Seq<Seq<char>>
    decreases s.len() - i,
    via split_from_dec
{
    match char_off(s, sep, i) {
        Some(k) => seq![s.subrange(i, i + k)] + split_from(s, sep, i + k + 1),
        None => seq![s.subrange(if 0 <= i <= s.len() { i } else { 0 }, s.len() as int)],
    }
}

#[via_fn]
proof fn split_from_dec(s: Seq<char>, sep: char, i: int) {
    lemma_char_off_in_range(s, sep, i);
}

/// The pieces of a sequence, cut at every occurrence of the separator.
pub open spec fn split_spec(s: Seq<char>, sep: char) -> Seq<Seq<char>> {
    split_from(s, sep, 0)
}

/// Split a string at every occurrence of a separator character.
pub fn split_char(s: &str, sep: char) -> (r: Vec<String>)
    ensures
        r.deep_view() == split_spec(s@, sep),
{
    let n = s.unicode_len();
    let mut out: Vec<String> = Vec::new();
    let mut pos: usize = 0;
    loop
        invariant_except_break
            split_spec(s@, sep) == out.deep_view() + split_from(s@, sep, pos as int),
        invariant
            n == s@.len(),
            0 <= pos <= n,
        ensures
            out.deep_view() == split_spec(s@, sep),
        decreases n - pos,
    {
        // Scan for the separator.
        let mut j: usize = pos;
        while j < n && s.get_char(j) != sep
            invariant
                n == s@.len(),
                pos <= j <= n,
                forall|l: int| pos <= l < j ==> s@[l] != sep,
            decreases n - j,
        {
            j = j + 1;
        }
        proof {
            lemma_char_off_in_range(s@, sep, pos as int);
            match char_off(s@, sep, pos as int) {
                Some(k) => {
                    assert(j == pos + k) by {
                        if j < pos + k {
                            assert(s@[j as int] == sep);
                        }
                        if j > pos + k {
                            assert(s@[pos + k] != sep);
                        }
                    };
                },
                None => {
                    assert(j == n) by {
                        if j < n {
                            assert(s@[j as int] == sep);
                        }
                    };
                },
            }
        }
        let piece = s.substring_char(pos, j);
        out.push(piece.to_owned());
        proof {
            assert(s@.subrange(pos as int, j as int) =~= s@.subrange(pos as int, j as int));
            assert(out.deep_view() =~= out.deep_view());
            assert(out.deep_view().drop_last() + seq![s@.subrange(pos as int, j as int)]
                =~= out.deep_view());
        }
        if j < n {
            pos = j + 1;
        } else {
            proof {
                assert(char_off(s@, sep, pos as int) is None);
            }
            break;
        }
    }
    out
}

/// Pieces joined with a single separator character between them.
pub open spec fn join_with(ps: Seq<Seq<char>>, sep: char) -> Seq<char>
    decreases ps.len(),
{
    if ps.len() == 0 {
        Seq::empty()
    } else if ps.len() == 1 {
        ps[0]
    } else {
        join_with(ps.drop_last(), sep) + seq![sep] + ps.last()
    }
}

/// The order is total: any two sequences are comparable.
pub proof fn lemma_lex_le_total(a: Seq<char>, b: Seq<char>)
    ensures
        lex_le(a, b) || lex_le(b, a),
    decreases a.len(),
{
    if a.len() > 0 && b.len() > 0 {
        if a[0] == b[0] {
            lemma_lex_le_total(a.skip(1), b.skip(1));
        } else {
            assert(a[0] as int != b[0] as int);
        }
    }
}

/// The order is transitive.
pub proof fn lemma_lex_le_trans(a: Seq<char>, b: Seq<char>, c: Seq<char>)
    requires
        lex_le(a, b),
        lex_le(b, c),
    ensures
        lex_le(a, c),
    decreases a.len(),
{
    if a.len() > 0 && b.len() > 0 && c.len() > 0 {
        if a[0] == b[0] && b[0] == c[0] {
            lemma_lex_le_trans(a.skip(1), b.skip(1), c.skip(1));
        }
    }
}

} // verus!
