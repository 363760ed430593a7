//! Query sanitising: the text handed to the full-text query parser keeps only
//! letters, digits, whitespace, `-` and `_`.
use vstd::prelude::*;
use crate::text::{
    alphanumeric, chars_of, is_alphanumeric, is_whitespace, string_of, trim, trim_end,
    trim_range, trim_start, trim_str, white_space,
};

verus! {

/// Characters that the query parser reads as plain text.
pub open spec fn query_char_kept(c: char) -> bool {
    alphanumeric(c) || white_space(c) || c == '-' || c == '_'
}

/// The characters of `s` that are kept, in order.
pub open spec fn kept_query_chars(s: Seq<char>) -> Seq<char>
    decreases s.len(),
{
    if s.len() == 0 {
        Seq::empty()
    } else {
        let rest = kept_query_chars(s.drop_last());
        if query_char_kept(s.last()) {
            rest.push(s.last())
        } else {
            rest
        }
    }
}

/// The sanitised query: the kept characters, trimmed; when nothing but
/// whitespace is kept, the trimmed input instead.
pub open spec fn sanitize_spec(raw: Seq<char>) -> Seq<char> {
    let t = trim(kept_query_chars(raw));
    if t.len() == 0 {
        trim(raw)
    } else {
        t
    }
}

/// Strips characters that break the full-text query parser (operators,
/// quotes, parentheses, brackets, colons, ...) while keeping letters, digits,
/// whitespace, `-` and `_`. When that leaves nothing but whitespace, the
/// trimmed input is returned instead.
pub fn sanitize_query(raw: &str) -> (r: String)
    ensures
        r@ == sanitize_spec(raw@),
{
    let v = chars_of(raw);
    let mut kept: Vec<char> = Vec::new();
    let mut i: usize = 0;
    while i < v.len()
        invariant
            i <= v.len(),
            kept@ == kept_query_chars(v@.take(i as int)),
        decreases v.len() - i,
    {
        let c = v[i];
        assert(v@.take(i + 1).drop_last() == v@.take(i as int));
        if is_alphanumeric(c) || is_whitespace(c) || c == '-' || c == '_' {
            kept.push(c);
        }
        i += 1;
    }
    assert(v@.take(v.len() as int) == v@);
    let (a, b) = trim_range(&kept, 0, kept.len());
    assert(kept@.subrange(0, kept@.len() as int) == kept@);
    if a == b {
        trim_str(raw)
    } else {
        string_of(&kept, a, b)
    }
}

/// `trim_start(s)` drops exactly the leading whitespace of `s`.
pub proof fn lemma_trim_start_shape(s: Seq<char>) -> (a: int)
    ensures
        0 <= a <= s.len(),
        trim_start(s) == s.skip(a),
        forall|k: int| 0 <= k < a ==> white_space(#[trigger] s[k]),
        a < s.len() ==> !white_space(s[a]),
    decreases s.len(),
{
    if s.len() > 0 && white_space(s[0]) {
        let a1 = lemma_trim_start_shape(s.drop_first());
        assert(s.drop_first().skip(a1) == s.skip(a1 + 1));
        assert forall|k: int| 0 <= k < a1 + 1 implies white_space(#[trigger] s[k]) by {
            if k > 0 {
                assert(s[k] == s.drop_first()[k - 1]);
            }
        }
        if a1 + 1 < s.len() {
            assert(s[a1 + 1] == s.drop_first()[a1]);
        }
        a1 + 1
    } else {
        assert(s.skip(0) == s);
        0
    }
}

/// `trim_end(t)` drops exactly the trailing whitespace of `t`.
pub proof fn lemma_trim_end_shape(t: Seq<char>) -> (b: int)
    ensures
        0 <= b <= t.len(),
        trim_end(t) == t.take(b),
        forall|k: int| b <= k < t.len() ==> white_space(#[trigger] t[k]),
        b > 0 ==> !white_space(t[b - 1]),
    decreases t.len(),
{
    if t.len() > 0 && white_space(t.last()) {
        let u = t.drop_last();
        let b1 = lemma_trim_end_shape(u);
        assert(u.take(b1) == t.take(b1));
        assert forall|k: int| b1 <= k < t.len() implies white_space(#[trigger] t[k]) by {
            if k < t.len() - 1 {
                assert(t[k] == u[k]);
            }
        }
        if b1 > 0 {
            assert(t[b1 - 1] == u[b1 - 1]);
        }
        b1
    } else {
        assert(t.take(t.len() as int) == t);
        t.len() as int
    }
}

/// `trim(s)` is the part of `s` between its leading and trailing whitespace.
pub proof fn lemma_trim_shape(s: Seq<char>) -> (r: (int, int))
    ensures
        0 <= r.0 <= r.1 <= s.len(),
        trim(s) == s.subrange(r.0, r.1),
        forall|k: int| 0 <= k < r.0 ==> white_space(#[trigger] s[k]),
        forall|k: int| r.1 <= k < s.len() ==> white_space(#[trigger] s[k]),
        r.0 < r.1 ==> !white_space(s[r.0]) && !white_space(s[r.1 - 1]),
        r.0 == r.1 ==> forall|k: int| 0 <= k < s.len() ==> white_space(#[trigger] s[k]),
{
    let a = lemma_trim_start_shape(s);
    let t = s.skip(a);
    let b = lemma_trim_end_shape(t);
    assert(t.take(b) == s.subrange(a, a + b));
    assert forall|k: int| a + b <= k < s.len() implies white_space(#[trigger] s[k]) by {
        assert(s[k] == t[k - a]);
    }
    if b > 0 {
        assert(s[a + b - 1] == t[b - 1]);
    }
    if b == 0 {
        assert forall|k: int| 0 <= k < s.len() implies white_space(#[trigger] s[k]) by {
            if k >= a {
                assert(s[k] == t[k - a]);
            }
        }
    }
    (a, a + b)
}

/// Trimming twice is trimming once.
pub proof fn lemma_trim_idempotent(s: Seq<char>)
    ensures
        trim(trim(s)) == trim(s),
{
    let (a, b) = lemma_trim_shape(s);
    let u = trim(s);
    if u.len() > 0 {
        assert(u[0] == s[a]);
        assert(u.last() == s[b - 1]);
        assert(trim_start(u) == u);
        assert(trim_end(u) == u);
    } else {
        assert(trim_start(u) == u);
        assert(trim_end(u) == u);
    }
}

/// A string whose characters are all whitespace trims to nothing, and only
/// such a string does.
pub proof fn lemma_trim_empty(s: Seq<char>)
    ensures
        trim(s).len() == 0 <==> forall|k: int| 0 <= k < s.len() ==> white_space(#[trigger] s[k]),
{
    let (a, b) = lemma_trim_shape(s);
    if a < b {
        assert(!white_space(s[a]));
    }
}

/// Every kept character comes from the input and is kept; an input made of
/// kept characters only is its own kept sequence.
proof fn lemma_kept_query_chars(s: Seq<char>)
    ensures
        forall|k: int| 0 <= k < kept_query_chars(s).len() ==> query_char_kept(
            #[trigger] kept_query_chars(s)[k],
        ) && s.contains(kept_query_chars(s)[k]),
        (forall|k: int| 0 <= k < s.len() ==> query_char_kept(#[trigger] s[k])) ==> kept_query_chars(s)
            == s,
    decreases s.len(),
{
    if s.len() > 0 {
        let p = s.drop_last();
        lemma_kept_query_chars(p);
        let q = kept_query_chars(s);
        assert forall|k: int| 0 <= k < q.len() implies query_char_kept(#[trigger] q[k]) && s.contains(
            q[k],
        ) by {
            if k < kept_query_chars(p).len() {
                assert(q[k] == kept_query_chars(p)[k]);
                let j = choose|j: int| 0 <= j < p.len() && p[j] == q[k];
                assert(s[j] == q[k]);
            } else {
                assert(q[k] == s.last());
                assert(s[s.len() - 1] == q[k]);
            }
        }
        if forall|k: int| 0 <= k < s.len() ==> query_char_kept(#[trigger] s[k]) {
            assert forall|k: int| 0 <= k < p.len() implies query_char_kept(#[trigger] p[k]) by {
                assert(p[k] == s[k]);
            }
            assert(query_char_kept(s[s.len() - 1]));
            assert(p.push(s.last()) == s);
        }
    }
}

/// Sanitising is idempotent: a sanitised query sanitises to itself.
pub proof fn lemma_sanitize_idempotent(raw: Seq<char>)
    ensures
        sanitize_spec(sanitize_spec(raw)) == sanitize_spec(raw),
{
    let c = kept_query_chars(raw);
    let t = trim(c);
    lemma_kept_query_chars(raw);
    let (a, b) = lemma_trim_shape(c);
    if t.len() > 0 {
        assert forall|k: int| 0 <= k < t.len() implies query_char_kept(#[trigger] t[k]) by {
            assert(t[k] == c[a + k]);
        }
        lemma_kept_query_chars(t);
        lemma_trim_idempotent(c);
    } else {
        let u = trim(raw);
        let (ra, rb) = lemma_trim_shape(raw);
        lemma_trim_empty(c);
        lemma_kept_query_chars(u);
        let cu = kept_query_chars(u);
        assert forall|k: int| 0 <= k < cu.len() implies white_space(#[trigger] cu[k]) by {
            let x = cu[k];
            assert(u.contains(x));
            let j = choose|j: int| 0 <= j < u.len() && u[j] == x;
            assert(raw[ra + j] == x);
            assert(query_char_kept(x));
            lemma_kept_in(raw, ra + j);
            let i = choose|i: int| 0 <= i < c.len() && c[i] == x;
            assert(white_space(c[i]));
        }
        lemma_trim_empty(cu);
        lemma_trim_idempotent(raw);
    }
}

/// A kept character of the input occurs among the kept characters.
proof fn lemma_kept_in(s: Seq<char>, j: int)
    requires
        0 <= j < s.len(),
        query_char_kept(s[j]),
    ensures
        kept_query_chars(s).contains(s[j]),
    decreases s.len(),
{
    let p = s.drop_last();
    if j < s.len() - 1 {
        assert(p[j] == s[j]);
        lemma_kept_in(p, j);
        let i = choose|i: int| 0 <= i < kept_query_chars(p).len() && kept_query_chars(p)[i] == s[j];
        if query_char_kept(s.last()) {
            assert(kept_query_chars(s)[i] == s[j]);
        }
    } else {
        let q = kept_query_chars(s);
        assert(q[q.len() - 1] == s[j]);
    }
}

/// A sanitised query is empty exactly when the input is nothing but
/// whitespace.
pub proof fn lemma_sanitize_empty(raw: Seq<char>)
    ensures
        sanitize_spec(raw).len() == 0 <==> trim(raw).len() == 0,
{
    let c = kept_query_chars(raw);
    lemma_kept_query_chars(raw);
    lemma_trim_empty(raw);
    lemma_trim_empty(c);
    if trim(c).len() > 0 {
        let k = choose|k: int| 0 <= k < c.len() && !white_space(#[trigger] c[k]);
        let j = choose|j: int| 0 <= j < raw.len() && raw[j] == c[k];
        assert(!white_space(raw[j]));
    }
}

/// A sanitised query is either the trimmed input (when nothing but
/// whitespace was kept) or made of kept characters only.
pub proof fn lemma_sanitized_chars(raw: Seq<char>)
    ensures
        sanitize_spec(raw) == trim(raw) || forall|k: int|
            0 <= k < sanitize_spec(raw).len() ==> query_char_kept(#[trigger] sanitize_spec(raw)[k]),
{
    let c = kept_query_chars(raw);
    lemma_kept_query_chars(raw);
    let (a, b) = lemma_trim_shape(c);
    if trim(c).len() > 0 {
        assert forall|k: int| 0 <= k < trim(c).len() implies query_char_kept(#[trigger] trim(c)[k]) by {
            assert(trim(c)[k] == c[a + k]);
        }
    }
}

/// What sanitising keeps: when the input holds a letter, digit, `-` or `_`,
/// the sanitised query is made of letters, digits, whitespace, `-` and `_`
/// only, and holds every letter, digit, `-` and `_` of the input; quotes,
/// operators, parentheses, brackets, colons and every other character are
/// dropped.
pub proof fn lemma_sanitize_keeps_plain_text(raw: Seq<char>)
    ensures
        (exists|j: int|
            0 <= j < raw.len() && !white_space(#[trigger] raw[j]) && (alphanumeric(raw[j]) || raw[j]
                == '-' || raw[j] == '_')) ==> {
            &&& forall|k: int|
                0 <= k < sanitize_spec(raw).len() ==> {
                    let c = #[trigger] sanitize_spec(raw)[k];
                    alphanumeric(c) || white_space(c) || c == '-' || c == '_'
                }
            &&& forall|j: int|
                0 <= j < raw.len() && !white_space(#[trigger] raw[j]) && (alphanumeric(raw[j])
                    || raw[j] == '-' || raw[j] == '_') ==> sanitize_spec(raw).contains(raw[j])
        },
{
    let c = kept_query_chars(raw);
    if exists|j: int|
        0 <= j < raw.len() && !white_space(#[trigger] raw[j]) && (alphanumeric(raw[j]) || raw[j] == '-'
            || raw[j] == '_') {
        let j0 = choose|j: int|
            0 <= j < raw.len() && !white_space(#[trigger] raw[j]) && (alphanumeric(raw[j]) || raw[j]
                == '-' || raw[j] == '_');
        lemma_kept_in(raw, j0);
        lemma_kept_query_chars(raw);
        let (a, b) = lemma_trim_shape(c);
        let i0 = choose|i: int| 0 <= i < c.len() && c[i] == raw[j0];
        assert(a <= i0 < b);
        assert(trim(c).len() > 0);
        assert(sanitize_spec(raw) == trim(c));
        assert forall|k: int| 0 <= k < sanitize_spec(raw).len() implies {
            let x = #[trigger] sanitize_spec(raw)[k];
            alphanumeric(x) || white_space(x) || x == '-' || x == '_'
        } by {
            assert(trim(c)[k] == c[a + k]);
            assert(query_char_kept(c[a + k]));
        }
        assert forall|j: int|
            0 <= j < raw.len() && !white_space(#[trigger] raw[j]) && (alphanumeric(raw[j]) || raw[j]
                == '-' || raw[j] == '_') implies sanitize_spec(raw).contains(raw[j]) by {
            lemma_kept_in(raw, j);
            let i = choose|i: int| 0 <= i < c.len() && c[i] == raw[j];
            assert(a <= i < b);
            assert(trim(c)[i - a] == raw[j]);
        }
    }
}

} // verus!
