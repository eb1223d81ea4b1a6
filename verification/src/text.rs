//! Character-level text operations that the tracker's rules are written in:
//! the binary ordering of stored text, SQL `LIKE` matching, and trimming.
use vstd::prelude::*;
use vstd::string::StrSliceExecFns;

verus! {

/// The characters of `s`, in order.
pub fn chars_of(s: &str) -> (v: Vec<char>)
    ensures
        v@ == s@,
{
    let mut v: Vec<char> = Vec::new();
    for c in it: s.chars()
        invariant
            v@ == it.seq().take(it.index() as int),
            it.seq() == s@,
    {
        v.push(c);
    }
    v
}

// ── Binary ordering of text ─────────────────────────────────

/// `a` sorts strictly before `b` when text is compared character by
/// character by code point (the order of the UTF-8 bytes), a proper prefix
/// sorting first.
pub open spec fn text_lt(a: Seq<char>, b: Seq<char>) -> bool
    decreases a.len(),
{
    if a.len() == 0 {
        b.len() > 0
    } else if b.len() == 0 {
        false
    } else if a[0] != b[0] {
        a[0] < b[0]
    } else {
        text_lt(a.drop_first(), b.drop_first())
    }
}

/// No text sorts before itself.
pub proof fn lemma_text_lt_irreflexive(a: Seq<char>)
    ensures
        !text_lt(a, a),
    decreases a.len(),
{
    if a.len() > 0 {
        lemma_text_lt_irreflexive(a.drop_first());
    }
}

/// The text order is transitive.
pub proof fn lemma_text_lt_transitive(a: Seq<char>, b: Seq<char>, c: Seq<char>)
    requires
        text_lt(a, b),
        text_lt(b, c),
    ensures
        text_lt(a, c),
    decreases a.len(),
{
    if a.len() > 0 && b.len() > 0 && c.len() > 0 {
        if a[0] == b[0] && b[0] == c[0] {
            lemma_text_lt_transitive(a.drop_first(), b.drop_first(), c.drop_first());
        }
    }
}

/// Any two different texts are ordered one way or the other.
pub proof fn lemma_text_lt_total(a: Seq<char>, b: Seq<char>)
    ensures
        a == b || text_lt(a, b) || text_lt(b, a),
    decreases a.len(),
{
    if a.len() > 0 && b.len() > 0 {
        if a[0] == b[0] {
            lemma_text_lt_total(a.drop_first(), b.drop_first());
            if a.drop_first() == b.drop_first() {
                assert(a =~= seq![a[0]] + a.drop_first());
                assert(b =~= seq![b[0]] + b.drop_first());
            }
        } else {
            assert(a[0] < b[0] || b[0] < a[0]);
        }
    } else if a.len() == 0 && b.len() == 0 {
        assert(a =~= b);
    }
}

/// The text order is asymmetric.
pub proof fn lemma_text_lt_asymmetric(a: Seq<char>, b: Seq<char>)
    requires
        text_lt(a, b),
    ensures
        !text_lt(b, a),
{
    if text_lt(b, a) {
        lemma_text_lt_transitive(a, b, a);
        lemma_text_lt_irreflexive(a);
    }
}

/// Whether `a` sorts strictly before `b` in the binary text order.
pub fn text_less(a: &Vec<char>, b: &Vec<char>) -> (r: bool)
    ensures
        r == text_lt(a@, b@),
{
    let mut i: usize = 0;
    assert(a@.skip(0) =~= a@);
    assert(b@.skip(0) =~= b@);
    while i < a.len() && i < b.len()
        invariant
            i <= a.len(),
            i <= b.len(),
            text_lt(a@, b@) == text_lt(a@.skip(i as int), b@.skip(i as int)),
        decreases a.len() - i,
    {
        assert(a@.skip(i as int)[0] == a@[i as int]);
        assert(b@.skip(i as int)[0] == b@[i as int]);
        if a[i] != b[i] {
            return a[i] < b[i];
        }
        assert(a@.skip(i as int).drop_first() =~= a@.skip(i + 1));
        assert(b@.skip(i as int).drop_first() =~= b@.skip(i + 1));
        i = i + 1;
    }
    i == a.len() && i < b.len()
}

/// Whether two character sequences are the same.
pub fn text_equal(a: &Vec<char>, b: &Vec<char>) -> (r: bool)
    ensures
        r == (a@ == b@),
{
    if a.len() != b.len() {
        return false;
    }
    let mut i: usize = 0;
    while i < a.len()
        invariant
            i <= a.len(),
            a.len() == b.len(),
            a@.take(i as int) == b@.take(i as int),
        decreases a.len() - i,
    {
        if a[i] != b[i] {
            assert(a@[i as int] != b@[i as int]);
            return false;
        }
        assert(a@.take(i + 1) =~= a@.take(i as int).push(a@[i as int]));
        assert(b@.take(i + 1) =~= b@.take(i as int).push(b@[i as int]));
        i = i + 1;
    }
    assert(a@ =~= a@.take(i as int));
    assert(b@ =~= b@.take(i as int));
    true
}

// ── LIKE matching ───────────────────────────────────────────

/// A character as `LIKE` compares it: ASCII capitals fold to lower case,
/// every other character stands for itself.
pub open spec fn like_fold(c: char) -> int {
    if 'A' <= c && c <= 'Z' {
        (c as u32) + 32
    } else {
        c as u32 as int
    }
}

/// Whether `text` matches the `LIKE` pattern `pat`: `%` matches any run of
/// characters (the empty one too), `_` matches exactly one character, and
/// every other pattern character matches one text character that equals it
/// up to ASCII case.
pub open spec fn like_matches(pat: Seq<char>, text: Seq<char>) -> bool
    decreases pat.len() + text.len(),
{
    if pat.len() == 0 {
        text.len() == 0
    } else if pat[0] == '%' {
        like_matches(pat.drop_first(), text) || (text.len() > 0 && like_matches(
            pat,
            text.drop_first(),
        ))
    } else if text.len() == 0 {
        false
    } else if pat[0] == '_' {
        like_matches(pat.drop_first(), text.drop_first())
    } else {
        like_fold(pat[0]) == like_fold(text[0]) && like_matches(pat.drop_first(), text.drop_first())
    }
}

/// The pattern that a search for `query` uses: the query with `%` on both
/// sides, so that it matches wherever the query occurs.
pub open spec fn contains_pattern(query: Seq<char>) -> Seq<char> {
    seq!['%'] + query + seq!['%']
}

fn fold_char(c: char) -> (r: u32)
    ensures
        r == like_fold(c),
{
    if 'A' <= c && c <= 'Z' {
        (c as u32) + 32
    } else {
        c as u32
    }
}

/// `n` copies of `false`.
fn falses(n: usize) -> (v: Vec<bool>)
    ensures
        v.len() == n,
        forall|i: int| 0 <= i < n ==> !(#[trigger] v@[i]),
{
    let mut v: Vec<bool> = Vec::new();
    while v.len() < n
        invariant
            v.len() <= n,
            forall|i: int| 0 <= i < v.len() ==> !(#[trigger] v@[i]),
        decreases n - v.len(),
    {
        v.push(false);
    }
    v
}

/// Whether `text` matches the `LIKE` pattern `pat`.
pub fn like(pat: &Vec<char>, text: &Vec<char>) -> (r: bool)
    ensures
        r == like_matches(pat@, text@),
{
    let m = pat.len();
    let n = text.len();
    // For the pattern suffix pat[i..]: `next[k]` tells whether text[k..]
    // matches it, for k < n, and `next_end` whether the empty rest does.
    let mut next = falses(n);
    let mut next_end = true;
    proof {
        assert(pat@.skip(m as int) =~= Seq::<char>::empty());
        assert(text@.skip(n as int) =~= Seq::<char>::empty());
    }
    proof {
        assert forall|q: int| 0 <= q < n implies #[trigger] next@[q] == like_matches(
            pat@.skip(m as int),
            text@.skip(q),
        ) by {
            assert(text@.skip(q).len() > 0);
        }
    }
    let mut i: usize = m;
    while i > 0
        invariant
            i <= m,
            n == text.len(),
            m == pat.len(),
            next.len() == n,
            next_end == like_matches(pat@.skip(i as int), text@.skip(n as int)),
            forall|q: int|
                0 <= q < n ==> #[trigger] next@[q] == like_matches(pat@.skip(i as int), text@.skip(q)),
        decreases i,
    {
        let p = pat[i - 1];
        let ghost cur_pat = pat@.skip(i - 1);
        proof {
            assert(cur_pat.drop_first() =~= pat@.skip(i as int));
            assert(cur_pat[0] == p);
            assert(text@.skip(n as int).len() == 0);
        }
        let cur_end = p == '%' && next_end;
        let mut cur = falses(n);
        let mut q: usize = n;
        while q > 0
            invariant
                q <= n,
                n == text.len(),
                m == pat.len(),
                0 < i <= m,
                p == pat@[i - 1],
                cur_pat == pat@.skip(i - 1),
                cur_pat.drop_first() == pat@.skip(i as int),
                cur_pat[0] == p,
                next.len() == n,
                cur.len() == n,
                next_end == like_matches(pat@.skip(i as int), text@.skip(n as int)),
                cur_end == like_matches(cur_pat, text@.skip(n as int)),
                forall|r: int|
                    0 <= r < n ==> #[trigger] next@[r] == like_matches(
                        pat@.skip(i as int),
                        text@.skip(r),
                    ),
                forall|r: int| q <= r < n ==> #[trigger] cur@[r] == like_matches(cur_pat, text@.skip(r)),
            decreases q,
        {
            q = q - 1;
            let ghost rest = text@.skip(q as int);
            proof {
                assert(rest.drop_first() =~= text@.skip(q + 1));
                assert(rest[0] == text@[q as int]);
            }
            let after_next = if q + 1 < n {
                next[q + 1]
            } else {
                next_end
            };
            let after_cur = if q + 1 < n {
                cur[q + 1]
            } else {
                cur_end
            };
            let v = if p == '%' {
                next[q] || after_cur
            } else if p == '_' {
                after_next
            } else {
                fold_char(p) == fold_char(text[q]) && after_next
            };
            cur.set(q, v);
        }
        next = cur;
        next_end = cur_end;
        i = i - 1;
    }
    proof {
        assert(pat@.skip(0) =~= pat@);
        assert(text@.skip(0) =~= text@);
    }
    if n == 0 {
        next_end
    } else {
        next[0]
    }
}

// ── Trimming ────────────────────────────────────────────────

/// The characters that have the Unicode `White_Space` property, which is
/// what `char::is_whitespace` and `str::trim` go by.
pub open spec fn is_white_space(c: char) -> bool {
    let u = c as u32;
    (0x09 <= u && u <= 0x0D) || u == 0x20 || u == 0x85 || u == 0xA0 || u == 0x1680 || (0x2000
        <= u && u <= 0x200A) || u == 0x2028 || u == 0x2029 || u == 0x202F || u == 0x205F || u
        == 0x3000
}

fn white_space(c: char) -> (r: bool)
    ensures
        r == is_white_space(c),
{
    let u = c as u32;
    (0x09 <= u && u <= 0x0D) || u == 0x20 || u == 0x85 || u == 0xA0 || u == 0x1680 || (0x2000
        <= u && u <= 0x200A) || u == 0x2028 || u == 0x2029 || u == 0x202F || u == 0x205F || u
        == 0x3000
}

/// `s` with its leading and trailing white space removed: the run that
/// starts at the first character that is not white space and ends at the
/// last one (empty when every character is white space).
pub open spec fn trimmed(s: Seq<char>) -> Seq<char> {
    if forall|i: int| 0 <= i < s.len() ==> is_white_space(#[trigger] s[i]) {
        Seq::empty()
    } else {
        let a = choose|a: int|
            0 <= a < s.len() && !is_white_space(s[a]) && forall|i: int|
                0 <= i < a ==> is_white_space(#[trigger] s[i]);
        let b = choose|b: int|
            0 <= b < s.len() && !is_white_space(s[b]) && forall|i: int|
                b < i < s.len() ==> is_white_space(#[trigger] s[i]);
        s.subrange(a, b + 1)
    }
}

/// Removes leading and trailing white space, as `str::trim` does.
pub fn trim(s: &str) -> (r: String)
    ensures
        r@ == trimmed(s@),
{
    let v = chars_of(s);
    let n = v.len();
    let mut a: usize = 0;
    while a < n && white_space(v[a])
        invariant
            a <= n,
            n == v.len(),
            v@ == s@,
            forall|i: int| 0 <= i < a ==> is_white_space(#[trigger] v@[i]),
        decreases n - a,
    {
        a = a + 1;
    }
    if a == n {
        return String::new();
    }
    let mut b: usize = n - 1;
    while white_space(v[b])
        invariant
            a <= b < n,
            n == v.len(),
            v@ == s@,
            !is_white_space(v@[a as int]),
            forall|i: int| b < i < n ==> is_white_space(#[trigger] v@[i]),
        decreases b,
    {
        b = b - 1;
    }
    proof {
        let ghost sv = s@;
        assert(!(forall|i: int| 0 <= i < sv.len() ==> is_white_space(#[trigger] sv[i])));
        let ca = choose|x: int|
            0 <= x < sv.len() && !is_white_space(sv[x]) && forall|i: int|
                0 <= i < x ==> is_white_space(#[trigger] sv[i]);
        let cb = choose|x: int|
            0 <= x < sv.len() && !is_white_space(sv[x]) && forall|i: int|
                x < i < sv.len() ==> is_white_space(#[trigger] sv[i]);
        assert(ca == a as int) by {
            if ca < a {
                assert(is_white_space(sv[ca]));
            }
            if ca > a {
                assert(is_white_space(sv[a as int]));
            }
        }
        assert(cb == b as int) by {
            if cb < b {
                assert(is_white_space(sv[b as int]));
            }
            if cb > b {
                assert(is_white_space(sv[cb]));
            }
        }
    }
    s.substring_char(a, b + 1).to_owned()
}

// ── What a search pattern matches ───────────────────────────

/// Whether `query` occurs in `text` starting at position `i`, each
/// character compared up to ASCII case.
pub open spec fn occurs_folded_at(query: Seq<char>, text: Seq<char>, i: int) -> bool {
    &&& 0 <= i
    &&& i + query.len() <= text.len()
    &&& forall|j: int| 0 <= j < query.len() ==> like_fold(#[trigger] query[j]) == like_fold(text[i + j])
}

/// Whether `query` occurs in `text` at some position, each character
/// compared up to ASCII case.
pub open spec fn occurs_folded(query: Seq<char>, text: Seq<char>) -> bool {
    exists|i: int| #[trigger] occurs_folded_at(query, text, i)
}

/// Two characters compare equal in a search exactly when they are the same
/// character or the same ASCII letter in upper and lower case.
pub proof fn law_like_fold_is_ascii_case(a: char, b: char)
    ensures
        like_fold(a) == like_fold(b) <==> (a == b || ('A' <= a <= 'Z' && (b as u32) == (a as u32) + 32) || (
        'A' <= b <= 'Z' && (a as u32) == (b as u32) + 32)),
{
}

/// Whether `query` holds neither of the `LIKE` wildcards `%` and `_`.
pub open spec fn free_of_wildcards(query: Seq<char>) -> bool {
    forall|j: int| 0 <= j < query.len() ==> #[trigger] query[j] != '%' && query[j] != '_'
}

proof fn lemma_percent_matches_all(text: Seq<char>)
    ensures
        like_matches(seq!['%'], text),
    decreases text.len(),
{
    let pat = seq!['%'];
    assert(pat.len() == 1 && pat[0] == '%');
    assert(pat.drop_first() =~= Seq::<char>::empty());
    if text.len() > 0 {
        lemma_percent_matches_all(text.drop_first());
    } else {
        assert(like_matches(pat.drop_first(), text));
    }
}

proof fn lemma_prefix_pattern(query: Seq<char>, text: Seq<char>)
    requires
        free_of_wildcards(query),
    ensures
        like_matches(query + seq!['%'], text) <==> (query.len() <= text.len() && forall|j: int|
            0 <= j < query.len() ==> like_fold(#[trigger] query[j]) == like_fold(text[j])),
    decreases query.len(),
{
    let pat = query + seq!['%'];
    if query.len() == 0 {
        assert(pat =~= seq!['%']);
        lemma_percent_matches_all(text);
    } else {
        assert(pat[0] == query[0]);
        assert(query[0] != '%' && query[0] != '_');
        let rest = query.drop_first();
        assert(pat.drop_first() =~= rest + seq!['%']);
        assert(free_of_wildcards(rest)) by {
            assert forall|j: int| 0 <= j < rest.len() implies #[trigger] rest[j] != '%' && rest[j] != '_' by {
                assert(rest[j] == query[j + 1]);
            }
        }
        if text.len() > 0 {
            lemma_prefix_pattern(rest, text.drop_first());
            let t1 = text.drop_first();
            if like_matches(pat, text) {
                assert forall|j: int| 0 <= j < query.len() implies like_fold(#[trigger] query[j]) == like_fold(text[j]) by {
                    if j > 0 {
                        assert(rest[j - 1] == query[j]);
                        assert(t1[j - 1] == text[j]);
                    }
                }
            }
            if query.len() <= text.len() && forall|j: int|
                0 <= j < query.len() ==> like_fold(#[trigger] query[j]) == like_fold(text[j]) {
                assert forall|j: int| 0 <= j < rest.len() implies like_fold(#[trigger] rest[j]) == like_fold(t1[j]) by {
                    assert(rest[j] == query[j + 1]);
                    assert(t1[j] == text[j + 1]);
                }
            }
        }
    }
}

/// A search pattern built from a query without wildcards matches a text
/// exactly when the query occurs in it, ignoring ASCII case.
pub proof fn law_contains_pattern_is_occurrence(query: Seq<char>, text: Seq<char>)
    requires
        free_of_wildcards(query),
    ensures
        like_matches(contains_pattern(query), text) <==> occurs_folded(query, text),
    decreases text.len(),
{
    let pat = contains_pattern(query);
    assert(pat[0] == '%');
    assert(pat.drop_first() =~= query + seq!['%']);
    lemma_prefix_pattern(query, text);
    if like_matches(query + seq!['%'], text) {
        assert(occurs_folded_at(query, text, 0));
    }
    if text.len() > 0 {
        let t1 = text.drop_first();
        law_contains_pattern_is_occurrence(query, t1);
        if occurs_folded(query, t1) {
            let i = choose|i: int| #[trigger] occurs_folded_at(query, t1, i);
            assert forall|j: int| 0 <= j < query.len() implies like_fold(#[trigger] query[j]) == like_fold(text[(i + 1) + j]) by {
                assert(t1[i + j] == text[i + 1 + j]);
            }
            assert(occurs_folded_at(query, text, i + 1));
        }
    }
    if occurs_folded(query, text) {
        let i = choose|i: int| #[trigger] occurs_folded_at(query, text, i);
        if i == 0 {
            assert forall|j: int| 0 <= j < query.len() implies like_fold(#[trigger] query[j]) == like_fold(text[j]) by {
                assert(text[0 + j] == text[j]);
            }
        } else {
            let t1 = text.drop_first();
            assert forall|j: int| 0 <= j < query.len() implies like_fold(#[trigger] query[j]) == like_fold(t1[(i - 1) + j]) by {
                assert(t1[i - 1 + j] == text[i + j]);
            }
            assert(occurs_folded_at(query, t1, i - 1));
        }
    }
}

} // verus!
