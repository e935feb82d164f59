//! Text utilities: first-sentence extraction, truncation, and slugging.
//! Pure functions over characters, with no state.

use vstd::prelude::*;
use vstd::seq_lib::*;
use crate::strutil::push_char;
use crate::strutil::push_subrange;

verus! {

/// Unicode whitespace, as `str::trim` and `str::split_whitespace` see it.
pub open spec fn is_space(c: char) -> bool {
    ||| c == ' '
    ||| c == '\t'
    ||| c == '\n'
    ||| c == '\r'
    ||| c as u32 == 0x0B
    ||| c as u32 == 0x0C
    ||| c as u32 == 0x85
    ||| c as u32 == 0xA0
    ||| c as u32 == 0x1680
    ||| (0x2000 <= c as u32 && c as u32 <= 0x200A)
    ||| c as u32 == 0x2028
    ||| c as u32 == 0x2029
    ||| c as u32 == 0x202F
    ||| c as u32 == 0x205F
    ||| c as u32 == 0x3000
}

fn is_space_char(c: char) -> (r: bool)
    ensures
        r == is_space(c),
{
    c == ' ' || c == '\t' || c == '\n' || c == '\r' || c as u32 == 0x0B || c as u32 == 0x0C
        || c as u32 == 0x85 || c as u32 == 0xA0 || c as u32 == 0x1680 || (0x2000 <= c as u32
        && c as u32 <= 0x200A) || c as u32 == 0x2028 || c as u32 == 0x2029 || c as u32 == 0x202F
        || c as u32 == 0x205F || c as u32 == 0x3000
}

/// Punctuation that never survives into a slug.
pub open spec fn is_non_slug_char(c: char) -> bool {
    ||| c == '[' ||| c == ']' ||| c == '(' ||| c == ')' ||| c == '{' ||| c == '}'
    ||| c == '<' ||| c == '>' ||| c == ':' ||| c == ',' ||| c == ';' ||| c == '?'
    ||| c == '!' ||| c == '^' ||| c == '&' ||| c == '%' ||| c == '$' ||| c == '#'
    ||| c == '@' ||| c == '\'' ||| c == '"' ||| c == '|' ||| c == '*' ||| c == '~'
}

fn is_non_slug_char_exec(c: char) -> (r: bool)
    ensures
        r == is_non_slug_char(c),
{
    c == '[' || c == ']' || c == '(' || c == ')' || c == '{' || c == '}' || c == '<' || c == '>'
        || c == ':' || c == ',' || c == ';' || c == '?' || c == '!' || c == '^' || c == '&'
        || c == '%' || c == '$' || c == '#' || c == '@' || c == '\'' || c == '"' || c == '|'
        || c == '*' || c == '~'
}

/// What is left of a sequence after dropping leading whitespace.
pub open spec fn trim_front(s: Seq<char>) -> Seq<char>
    decreases s.len(),
{
    if s.len() > 0 && is_space(s[0]) {
        trim_front(s.skip(1))
    } else {
        s
    }
}

/// What is left of a sequence after dropping trailing whitespace.
pub open spec fn trim_back(s: Seq<char>) -> Seq<char>
    decreases s.len(),
{
    if s.len() > 0 && is_space(s.last()) {
        trim_back(s.drop_last())
    } else {
        s
    }
}

/// Whitespace trimmed from both ends, as `str::trim` does.
pub open spec fn trim_spec(s: Seq<char>) -> Seq<char> {
    trim_back(trim_front(s))
}

proof fn lemma_trim_front_at(s: Seq<char>, a: int)
    requires
        0 <= a <= s.len(),
        forall|j: int| 0 <= j < a ==> is_space(s[j]),
        a < s.len() ==> !is_space(s[a]),
    ensures
        trim_front(s) == s.skip(a),
    decreases a,
{
    if a == 0 {
        assert(s.skip(0) =~= s);
    } else {
        assert(is_space(s[0]));
        lemma_trim_front_at(s.skip(1), a - 1);
        assert(s.skip(1).skip(a - 1) =~= s.skip(a));
    }
}

proof fn lemma_trim_back_at(s: Seq<char>, b: int)
    requires
        0 <= b <= s.len(),
        forall|j: int| b <= j < s.len() ==> is_space(s[j]),
        b > 0 ==> !is_space(s[b - 1]),
    ensures
        trim_back(s) == s.take(b),
    decreases s.len() - b,
{
    if b == s.len() {
        assert(s.take(b) =~= s);
        if s.len() > 0 {
            assert(!is_space(s.last()));
        }
    } else {
        assert(is_space(s[s.len() - 1]));
        lemma_trim_back_at(s.drop_last(), b);
        assert(s.drop_last().take(b) =~= s.take(b));
    }
}

/// Both ends trimmed; `trim_spec` of the view, as an owned string.
pub fn trim(s: &str) -> (r: String)
    ensures
        r@ == trim_spec(s@),
{
    let n = s.unicode_len();
    let mut a: usize = 0;
    while a < n && is_space_char(s.get_char(a))
        invariant
            n == s@.len(),
            0 <= a <= n,
            forall|j: int| 0 <= j < a ==> is_space(s@[j]),
        decreases n - a,
    {
        a = a + 1;
    }
    proof {
        lemma_trim_front_at(s@, a as int);
    }
    let mut b: usize = n;
    while b > a && is_space_char(s.get_char(b - 1))
        invariant
            n == s@.len(),
            a <= b <= n,
            forall|j: int| b <= j < n ==> is_space(s@[j]),
        decreases b,
    {
        b = b - 1;
    }
    let sub = s.substring_char(a, b);
    let r = sub.to_owned();
    proof {
        let f = s@.skip(a as int);
        if b == a {
            lemma_trim_back_at(f, 0);
        } else {
            lemma_trim_back_at(f, b - a);
        }
        assert(f.take(b - a) =~= s@.subrange(a as int, b as int));
    }
    r
}

/// The longest prefix holding no period: everything before the first `.`,
/// or the whole text when it has none.
pub open spec fn first_sentence_spec(s: Seq<char>) -> Seq<char> {
    match s.index_of_first('.') {
        Some(i) => s.take(i),
        None => s,
    }
}

/// Extract the first sentence from a string.
pub fn first_sentence(plain_text: &str) -> (r: String)
    ensures
        r@ == first_sentence_spec(plain_text@),
{
    let n = plain_text.unicode_len();
    let mut i: usize = 0;
    while i < n && plain_text.get_char(i) != '.'
        invariant
            n == plain_text@.len(),
            0 <= i <= n,
            forall|j: int| 0 <= j < i ==> plain_text@[j] != '.',
        decreases n - i,
    {
        i = i + 1;
    }
    let sub = plain_text.substring_char(0, i);
    let r = sub.to_owned();
    proof {
        plain_text@.index_of_first_ensures('.');
        match plain_text@.index_of_first('.') {
            Some(k) => {
                assert(plain_text@[k] == '.');
                assert(k == i);
            },
            None => {
                assert(i == n) by {
                    if i < n {
                        assert(plain_text@[i as int] == '.');
                        assert(plain_text@.contains('.'));
                    }
                };
            },
        }
        assert(plain_text@.subrange(0, i as int) =~= plain_text@.take(i as int));
        if plain_text@.index_of_first('.') is None {
            assert(plain_text@.take(i as int) =~= plain_text@);
        }
    }
    r
}

proof fn lemma_trim_front_le(s: Seq<char>)
    ensures
        trim_front(s).len() <= s.len(),
    decreases s.len(),
{
    if s.len() > 0 && is_space(s[0]) {
        lemma_trim_front_le(s.skip(1));
    }
}

proof fn lemma_trim_back_le(s: Seq<char>)
    ensures
        trim_back(s).len() <= s.len(),
    decreases s.len(),
{
    if s.len() > 0 && is_space(s.last()) {
        lemma_trim_back_le(s.drop_last());
    }
}

/// The maximal run of non-whitespace characters at the end of a sequence.
pub open spec fn tail_word(s: Seq<char>) -> Seq<char>
    decreases s.len(),
{
    if s.len() == 0 || is_space(s.last()) {
        Seq::empty()
    } else {
        tail_word(s.drop_last()).push(s.last())
    }
}

/// The whitespace-separated words of a sequence, in order, each word a
/// maximal run of non-whitespace characters.
pub open spec fn words_spec(s: Seq<char>) -> Seq<Seq<char>>
    decreases s.len(),
{
    if s.len() == 0 {
        Seq::empty()
    } else if is_space(s.last()) {
        words_spec(s.drop_last())
    } else if tail_word(s.drop_last()).len() == 0 {
        words_spec(s.drop_last()).push(tail_word(s))
    } else {
        let prev = words_spec(s.drop_last());
        prev.update(prev.len() - 1, tail_word(s))
    }
}

proof fn lemma_words_last(s: Seq<char>)
    ensures
        tail_word(s).len() > 0 ==> words_spec(s).len() > 0 && words_spec(s).last() == tail_word(s),
    decreases s.len(),
{
    if s.len() > 0 {
        lemma_words_last(s.drop_last());
    }
}

/// Split a string into its whitespace-separated words.
fn split_words(s: &str) -> (r: Vec<String>)
    ensures
        r.deep_view() == words_spec(s@),
{
    let n = s.unicode_len();
    let mut ws: Vec<String> = Vec::new();
    let mut cur = String::new();
    let mut i: usize = 0;
    while i < n
        invariant
            n == s@.len(),
            0 <= i <= n,
            cur@ == tail_word(s@.take(i as int)),
            cur@.len() == 0 ==> ws.deep_view() == words_spec(s@.take(i as int)),
            cur@.len() > 0 ==> words_spec(s@.take(i as int)) == ws.deep_view().push(cur@),
        decreases n - i,
    {
        let c = s.get_char(i);
        let ghost prefix = s@.take(i as int);
        let ghost next = s@.take(i as int + 1);
        proof {
            assert(next.drop_last() =~= prefix);
            assert(next.last() == c);
            lemma_words_last(prefix);
        }
        if is_space_char(c) {
            if cur.unicode_len() > 0 {
                ws.push(cur);
                cur = String::new();
                proof {
                    assert(ws.deep_view() =~= words_spec(next));
                }
            }
        } else {
            push_char(&mut cur, c);
            proof {
                if tail_word(prefix).len() == 0 {
                    assert(words_spec(next) == words_spec(prefix).push(tail_word(next)));
                } else {
                    let prev = words_spec(prefix);
                    assert(words_spec(next) == prev.update(prev.len() - 1, tail_word(next)));
                    assert(prev == ws.deep_view().push(tail_word(prefix)));
                    assert(prev.update(prev.len() - 1, tail_word(next)) =~= ws.deep_view().push(
                        cur@,
                    ));
                }
            }
        }
        i = i + 1;
    }
    proof {
        assert(s@.take(n as int) =~= s@);
        lemma_words_last(s@);
    }
    if cur.unicode_len() > 0 {
        ws.push(cur);
        proof {
            assert(ws.deep_view() =~= words_spec(s@));
        }
    }
    ws
}

/// The result of truncation: the trimmed text when it fits, else all but
/// the last of the words among the first `max - 1` characters, joined
/// with single spaces, with the suffix appended. Truncation is total by
/// design: where no word fits — a cut of zero, or nothing but whitespace
/// before the cut — the suffix alone comes back rather than a failure.
pub open spec fn truncate_spec(s: Seq<char>, max: int, suffix: Seq<char>) -> Seq<char> {
    let t = trim_spec(s);
    if t.len() <= max {
        t
    } else {
        let sub = s.take(if max == 0 { 0 } else { max - 1 });
        let ws = words_spec(sub);
        if ws.len() == 0 {
            suffix
        } else {
            crate::strutil::join_with(ws.drop_last(), ' ') + suffix
        }
    }
}

/// Truncate a string to a maximum number of characters, appending a suffix
/// when the text had to be cut. Total on every input: where no whole word
/// fits before the cut, the suffix alone comes back.
pub fn truncate(text: &str, max_chars: usize, suffix: &str) -> (r: String)
    ensures
        r@ == truncate_spec(text@, max_chars as int, suffix@),
{
    let stripped = trim(text);
    if stripped.as_str().unicode_len() <= max_chars {
        return stripped;
    }
    proof {
        lemma_trim_front_le(text@);
        lemma_trim_back_le(trim_front(text@));
    }
    let take_n = if max_chars == 0 {
        0
    } else {
        max_chars - 1
    };
    let sub = text.substring_char(0, take_n);
    proof {
        assert(text@.subrange(0, take_n as int) =~= text@.take(take_n as int));
    }
    let ws = split_words(sub);
    let ghost wsv = words_spec(text@.take(take_n as int));
    let mut out = String::new();
    if ws.len() == 0 {
        let r = suffix.to_owned();
        return r;
    }
    let m = ws.len() - 1;
    let mut k: usize = 0;
    while k < m
        invariant
            m == ws.deep_view().len() - 1,
            ws.deep_view() == wsv,
            0 <= k <= m,
            out@ == crate::strutil::join_with(wsv.take(k as int), ' '),
        decreases m - k,
    {
        if k > 0 {
            push_char(&mut out, ' ');
        }
        let w = &ws[k];
        out.append(w.as_str());
        proof {
            assert(ws.deep_view()[k as int] == ws@[k as int]@);
            let t = wsv.take(k as int + 1);
            assert(t.drop_last() =~= wsv.take(k as int));
            assert(t.last() == wsv[k as int]);
            if k == 0 {
                assert(crate::strutil::join_with(t, ' ') == t[0]);
                assert(out@ == t[0]);
            } else {
                assert(crate::strutil::join_with(t, ' ') == crate::strutil::join_with(t.drop_last(), ' ') + seq![' '] + t.last());
            }
        }
        k = k + 1;
    }
    out.append(suffix);
    proof {
        assert(wsv.take(m as int) =~= wsv.drop_last());
    }
    out
}

/// Truncate a string to 280 characters, appending an ellipsis if truncated.
pub fn truncate_280(text: &str) -> (r: String)
    ensures
        r@ == truncate_spec(text@, 280, "…"@),
{
    truncate(text, 280, "…")
}

/// Spaces swapped for a separator; all other characters kept.
pub open spec fn space_swap(s: Seq<char>, sep: char) -> Seq<char> {
    s.map_values(|c: char| if c == ' ' { sep } else { c })
}

/// The characters that survive slugging: everything but the reserved
/// punctuation, in order.
pub open spec fn strip_non_slug(s: Seq<char>) -> Seq<char>
    decreases s.len(),
{
    if s.len() == 0 {
        Seq::empty()
    } else if is_non_slug_char(s.last()) {
        strip_non_slug(s.drop_last())
    } else {
        strip_non_slug(s.drop_last()).push(s.last())
    }
}

/// Remove reserved punctuation characters from a string.
pub fn remove_non_slug_chars(s: &str) -> (r: String)
    ensures
        r@ == strip_non_slug(s@),
{
    let n = s.unicode_len();
    let mut out = String::new();
    let mut i: usize = 0;
    while i < n
        invariant
            n == s@.len(),
            0 <= i <= n,
            out@ == strip_non_slug(s@.take(i as int)),
        decreases n - i,
    {
        let c = s.get_char(i);
        if !is_non_slug_char_exec(c) {
            push_char(&mut out, c);
        }
        i = i + 1;
        proof {
            let t = s@.take(i as int);
            assert(t.len() > 0);
            assert(t.drop_last() =~= s@.take(i - 1));
            assert(t.last() == c);
            assert(strip_non_slug(t) == if is_non_slug_char(t.last()) {
                strip_non_slug(t.drop_last())
            } else {
                strip_non_slug(t.drop_last()).push(t.last())
            });
        }
    }
    proof {
        assert(s@.take(n as int) =~= s@);
    }
    out
}

/// Stands for what `str::to_lowercase` returns: the lowercase mapping of a
/// sequence of characters.
pub uninterp spec fn lower_of(s: Seq<char>) -> Seq<char>;

/// Relies on str::to_lowercase: the result depends on the characters alone,
/// and an empty string stays empty.
#[verifier::external_body]
pub fn lowercase(s: &str) -> (r: String)
    ensures
        r@ == lower_of(s@),
        s@.len() == 0 ==> r@.len() == 0,
{
    s.to_lowercase()
}

/// A slug: the text trimmed and lowercased, spaces swapped for the
/// separator, and reserved punctuation removed.
pub open spec fn slug_with_sep(s: Seq<char>, sep: char) -> Seq<char> {
    strip_non_slug(space_swap(lower_of(trim_spec(s)), sep))
}

/// Slug body shared by `to_slug` and the tag form: swaps spaces for `sep`
/// and strips reserved punctuation from an already-lowercased text.
pub(crate) fn swap_and_strip(s: &str, sep: char) -> (r: String)
    requires
        !is_non_slug_char(sep),
        sep != ' ',
    ensures
        r@ == strip_non_slug(space_swap(s@, sep)),
{
    let n = s.unicode_len();
    let mut out = String::new();
    let mut i: usize = 0;
    while i < n
        invariant
            n == s@.len(),
            0 <= i <= n,
            !is_non_slug_char(sep),
            out@ == strip_non_slug(space_swap(s@.take(i as int), sep)),
        decreases n - i,
    {
        let c = s.get_char(i);
        let c2 = if c == ' ' {
            sep
        } else {
            c
        };
        if !is_non_slug_char_exec(c2) {
            push_char(&mut out, c2);
        }
        i = i + 1;
        proof {
            let prev = space_swap(s@.take(i - 1), sep);
            let cur = space_swap(s@.take(i as int), sep);
            assert(cur.len() == i);
            assert(cur.drop_last() =~= prev);
            assert(cur.last() == c2);
            assert(strip_non_slug(cur) == if is_non_slug_char(cur.last()) {
                strip_non_slug(cur.drop_last())
            } else {
                strip_non_slug(cur.drop_last()).push(cur.last())
            });
        }
    }
    proof {
        assert(s@.take(n as int) =~= s@);
    }
    out
}

/// Turn text into a URL-friendly slug: trimmed, lowercased, spaces become
/// dashes, reserved punctuation removed.
pub fn to_slug(s: &str) -> (r: String)
    ensures
        r@ == slug_with_sep(s@, '-'),
{
    let t = trim(s);
    let lo = lowercase(t.as_str());
    swap_and_strip(lo.as_str(), '-')
}

} // verus!
