//! A token-substitution micro-engine: `{key}` and `:key` tokens in a
//! template are swapped for their parts; unknown tokens stay verbatim, so
//! a partly configured template degrades instead of failing.

use vstd::prelude::*;
use crate::strutil::char_off;
use crate::strutil::lemma_char_off_in_range;
use crate::strutil::push_char;

verus! {

/// The shapes of a sequence of template parts.
pub open spec fn parts_view(ps: Seq<(String, String)>) -> Seq<(Seq<char>, Seq<char>)> {
    Seq::new(
        ps.len(),
        |i: int|
            if 0 <= i < ps.len() {
                (ps[i].0@, ps[i].1@)
            } else {
                (Seq::empty(), Seq::empty())
            },
    )
}

/// The first part bound to a key.
pub open spec fn part_for(ps: Seq<(Seq<char>, Seq<char>)>, k: Seq<char>) -> Option<Seq<char>>
    decreases ps.len(),
{
    if ps.len() == 0 {
        None
    } else if ps[0].0 == k {
        Some(ps[0].1)
    } else {
        part_for(ps.skip(1), k)
    }
}

proof fn lemma_part_for_skip(ps: Seq<(Seq<char>, Seq<char>)>, k: Seq<char>, i: int)
    requires
        0 <= i <= ps.len(),
        forall|j: int| 0 <= j < i ==> ps[j].0 != k,
    ensures
        part_for(ps, k) == part_for(ps.skip(i), k),
    decreases i,
{
    if i > 0 {
        lemma_part_for_skip(ps.skip(1), k, i - 1);
        assert(ps.skip(1).skip(i - 1) =~= ps.skip(i));
    } else {
        assert(ps.skip(0) =~= ps);
    }
}

/// One sequence leading another.
pub open spec fn is_prefix(a: Seq<char>, b: Seq<char>) -> bool {
    a.len() <= b.len() && b.take(a.len() as int) == a
}

/// Among the parts, the one whose non-empty key leads `rest` and is the
/// longest such; the earliest wins a tie.
pub open spec fn colon_match(ps: Seq<(Seq<char>, Seq<char>)>, rest: Seq<char>) -> Option<
    (Seq<char>, Seq<char>),
>
    decreases ps.len(),
{
    if ps.len() == 0 {
        None
    } else {
        let prev = colon_match(ps.drop_last(), rest);
        let last = ps.last();
        if last.0.len() > 0 && is_prefix(last.0, rest) {
            match prev {
                Some(p) => if p.0.len() >= last.0.len() {
                    Some(p)
                } else {
                    Some(last)
                },
                None => Some(last),
            }
        } else {
            prev
        }
    }
}

proof fn lemma_colon_match_prefix(ps: Seq<(Seq<char>, Seq<char>)>, rest: Seq<char>)
    ensures
        match colon_match(ps, rest) {
            Some(p) => 1 <= p.0.len() <= rest.len(),
            None => true,
        },
    decreases ps.len(),
{
    if ps.len() > 0 {
        lemma_colon_match_prefix(ps.drop_last(), rest);
    }
}

/// The template from position `i` on with every known token substituted:
/// `{key}` and `:key` become their parts; an unknown or unclosed token
/// keeps its text.
pub open spec fn render_from(t: Seq<char>, ps: Seq<(Seq<char>, Seq<char>)>, i: int) -> Seq<char>
    decreases t.len() - i,
    via render_from_dec
{
    if i < 0 || i >= t.len() {
        Seq::empty()
    } else if t[i] == '{' {
        match char_off(t, '}', i + 1) {
            Some(k) => {
                let inner = t.subrange(i + 1, i + 1 + k);
                match part_for(ps, inner) {
                    Some(v) => v + render_from(t, ps, i + k + 2),
                    None => seq!['{'] + render_from(t, ps, i + 1),
                }
            },
            None => seq!['{'] + render_from(t, ps, i + 1),
        }
    } else if t[i] == ':' {
        match colon_match(ps, t.skip(i + 1)) {
            Some(p) => p.1 + render_from(t, ps, i + 1 + p.0.len()),
            None => seq![':'] + render_from(t, ps, i + 1),
        }
    } else {
        seq![t[i]] + render_from(t, ps, i + 1)
    }
}

#[via_fn]
proof fn render_from_dec(t: Seq<char>, ps: Seq<(Seq<char>, Seq<char>)>, i: int) {
    lemma_char_off_in_range(t, '}', i + 1);
    if 0 <= i < t.len() {
        lemma_colon_match_prefix(ps, t.skip(i + 1));
    }
}

/// The whole template with every known token substituted.
pub open spec fn render_spec(t: Seq<char>, ps: Seq<(Seq<char>, Seq<char>)>) -> Seq<char> {
    render_from(t, ps, 0)
}

/// Whether `key` leads the characters of `t` from `pos` on.
fn prefix_at(t: &str, pos: usize, key: &str) -> (r: bool)
    requires
        pos <= t@.len(),
    ensures
        r == is_prefix(key@, t@.skip(pos as int)),
{
    let n = t.unicode_len();
    let m = key.unicode_len();
    if m > n - pos {
        return false;
    }
    let mut i: usize = 0;
    while i < m
        invariant
            n == t@.len(),
            m == key@.len(),
            pos <= n,
            m <= n - pos,
            0 <= i <= m,
            forall|j: int| 0 <= j < i ==> key@[j] == t@[pos + j],
        decreases m - i,
    {
        if key.get_char(i) != t.get_char(pos + i) {
            assert(t@.skip(pos as int).take(m as int)[i as int] != key@[i as int]);
            return false;
        }
        i = i + 1;
    }
    proof {
        assert(t@.skip(pos as int).take(m as int) =~= key@);
    }
    true
}

/// Render a template, swapping every `{key}` or `:key` whose key is bound
/// among the parts for its value; tokens without a binding stay verbatim.
#[verifier::loop_isolation(false)]
pub fn render(template: &str, parts: &Vec<(String, String)>) -> (r: String)
    ensures
        r@ == render_spec(template@, parts_view(parts@)),
{
    let ghost pv = parts_view(parts@);
    let n = template.unicode_len();
    let mut out = String::new();
    let mut i: usize = 0;
    while i < n
        invariant
            0 <= i <= n,
            render_spec(template@, pv) == out@ + render_from(template@, pv, i as int),
        decreases n - i,
    {
        let c = template.get_char(i);
        if c == '{' {
            // Scan for the closing brace.
            let mut j: usize = i + 1;
            while j < n && template.get_char(j) != '}'
                invariant
                    i + 1 <= j <= n,
                    forall|l: int| i + 1 <= l < j ==> template@[l] != '}',
                decreases n - j,
            {
                j = j + 1;
            }
            proof {
                lemma_char_off_in_range(template@, '}', i + 1);
                match char_off(template@, '}', i + 1) {
                    Some(k) => {
                        assert(j == i + 1 + k) by {
                            if j < i + 1 + k {
                                assert(template@[j as int] == '}');
                            }
                            if j > i + 1 + k {
                                assert(template@[i + 1 + k] != '}');
                            }
                        };
                    },
                    None => {
                        assert(j == n) by {
                            if j < n {
                                assert(template@[j as int] == '}');
                            }
                        };
                    },
                }
            }
            let mut replaced: bool = false;
            if j < n {
                // A closed token: look its key up among the parts.
                let key = template.substring_char(i + 1, j);
                proof {
                    assert(key@ =~= template@.subrange(i + 1, j as int));
                }
                let m = parts.len();
                let mut p: usize = 0;
                while p < m && !replaced
                    invariant
                        0 <= p <= m,
                        m == parts@.len(),
                        !replaced ==> forall|l: int| 0 <= l < p ==> pv[l].0 != key@,
                        replaced ==> render_spec(template@, pv) == out@ + render_from(
                            template@,
                            pv,
                            j + 1,
                        ),
                        !replaced ==> render_spec(template@, pv) == out@ + render_from(
                            template@,
                            pv,
                            i as int,
                        ),
                    decreases m - p + (if replaced { 0int } else { 1int }),
                {
                    if crate::strutil::str_eq(parts[p].0.as_str(), key) {
                        proof {
                            lemma_part_for_skip(pv, key@, p as int);
                            assert(pv.skip(p as int)[0] == pv[p as int]);
                            assert(part_for(pv, key@) == Some(pv[p as int].1));
                            assert(render_from(template@, pv, i as int) == pv[p as int].1
                                + render_from(template@, pv, j + 1));
                        }
                        out.append(parts[p].1.as_str());
                        replaced = true;
                        proof {
                            assert(out@ + render_from(template@, pv, j + 1) =~= render_spec(
                                template@,
                                pv,
                            ));
                        }
                    } else {
                        p = p + 1;
                    }
                }
                proof {
                    if !replaced {
                        lemma_part_for_skip(pv, key@, m as int);
                    }
                }
            }
            if replaced {
                i = j + 1;
            } else {
                push_char(&mut out, '{');
                i = i + 1;
                proof {
                    assert(out@.drop_last() + (seq!['{'] + render_from(template@, pv, i as int))
                        =~= out@ + render_from(template@, pv, i as int));
                }
            }
        } else if c == ':' {
            // Find the longest part key that leads the rest.
            let m = parts.len();
            let mut p: usize = 0;
            let mut best: usize = 0;
            let mut best_len: usize = 0;
            let mut found: bool = false;
            while p < m
                invariant
                    0 <= p <= m,
                    m == parts@.len(),
                    i < n,
                    found ==> best < m && colon_match(pv.take(p as int), template@.skip(i + 1))
                        == Some(pv[best as int]) && best_len == pv[best as int].0.len(),
                    !found ==> colon_match(pv.take(p as int), template@.skip(i + 1)) is None,
                decreases m - p,
            {
                let kl = parts[p].0.as_str().unicode_len();
                let ok = if kl > 0 {
                    prefix_at(template, i + 1, parts[p].0.as_str())
                } else {
                    false
                };
                proof {
                    let t = pv.take(p as int + 1);
                    assert(t.drop_last() =~= pv.take(p as int));
                    assert(t.last() == pv[p as int]);
                }
                if ok && (!found || kl > best_len) {
                    best = p;
                    best_len = kl;
                    found = true;
                }
                p = p + 1;
            }
            proof {
                assert(pv.take(m as int) =~= pv);
            }
            if found {
                proof {
                    lemma_colon_match_prefix(pv, template@.skip(i + 1));
                }
                out.append(parts[best].1.as_str());
                i = i + 1 + best_len;
            } else {
                push_char(&mut out, ':');
                i = i + 1;
                proof {
                    assert(out@.drop_last() + (seq![':'] + render_from(template@, pv, i as int))
                        =~= out@ + render_from(template@, pv, i as int));
                }
            }
        } else {
            push_char(&mut out, c);
            i = i + 1;
            proof {
                assert(out@.drop_last() + (seq![c] + render_from(template@, pv, i as int)) =~= out@
                    + render_from(template@, pv, i as int));
            }
        }
    }
    out
}

} // verus!
