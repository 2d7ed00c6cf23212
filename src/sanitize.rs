//! Normalisation of untrusted file names before they are joined onto a
//! trusted directory.
use vstd::prelude::*;

verus! {

/// Whether `char::is_alphanumeric` holds of `c` (Unicode alphabetic or numeric).
pub uninterp spec fn alphanumeric(c: char) -> bool;

/// Relies on `char::is_alphanumeric`: Unicode's alphabetic-or-numeric test.
#[verifier::external_body]
fn is_alphanumeric(c: char) -> (r: bool)
    ensures
        r == alphanumeric(c),
{
    c.is_alphanumeric()
}

/// Relies on `String::push`: appends one character at the end.
#[verifier::external_body]
pub(crate) fn push_char(s: &mut String, c: char)
    ensures
        final(s)@ == old(s)@.push(c),
{
    s.push(c)
}

/// `s` with every `..` removed, matches taken left to right without overlap.
pub open spec fn without_parent_refs(s: Seq<char>) -> Seq<char>
    decreases s.len(),
{
    if s.len() < 2 {
        s
    } else if s[0] == '.' && s[1] == '.' {
        without_parent_refs(s.subrange(2, s.len() as int))
    } else {
        seq![s[0]] + without_parent_refs(s.subrange(1, s.len() as int))
    }
}

/// What one character becomes once `..` is gone, given whether it is
/// alphanumeric: separators turn into `_`, a null byte is dropped, and
/// anything outside alphanumerics, `.`, `_` and `-` turns into `_`.
pub open spec fn cleaned_with(c: char, alnum: bool) -> Seq<char> {
    if c == '/' || c == '\\' {
        seq!['_']
    } else if c == '\0' {
        Seq::empty()
    } else if alnum || c == '.' || c == '_' || c == '-' {
        seq![c]
    } else {
        seq!['_']
    }
}

pub open spec fn cleaned_char(c: char) -> Seq<char> {
    cleaned_with(c, alphanumeric(c))
}

/// The character that `c` becomes in a sanitised name, or `None` where it
/// is dropped, given whether `c` is alphanumeric.
pub fn replacement_for(c: char, alnum: bool) -> (r: Option<char>)
    ensures
        match r {
            Some(d) => cleaned_with(c, alnum) == seq![d],
            None => cleaned_with(c, alnum) == Seq::<char>::empty(),
        },
{
    if c == '/' || c == '\\' {
        Some('_')
    } else if c == '\0' {
        None
    } else if alnum || c == '.' || c == '_' || c == '-' {
        Some(c)
    } else {
        Some('_')
    }
}

pub open spec fn cleaned(s: Seq<char>) -> Seq<char>
    decreases s.len(),
{
    if s.len() == 0 {
        Seq::empty()
    } else {
        cleaned_char(s[0]) + cleaned(s.subrange(1, s.len() as int))
    }
}

/// `s` with every null byte removed.
pub open spec fn without_nul(s: Seq<char>) -> Seq<char>
    decreases s.len(),
{
    if s.len() == 0 {
        s
    } else if s.last() == '\0' {
        without_nul(s.drop_last())
    } else {
        without_nul(s.drop_last()).push(s.last())
    }
}

/// The sanitised form of a file name: null bytes dropped, then every `..`
/// stripped, then each character cleaned.
pub open spec fn sanitized(s: Seq<char>) -> Seq<char> {
    cleaned(without_parent_refs(without_nul(s)))
}

pub open spec fn has_no_nul(s: Seq<char>) -> bool {
    forall|k: int| 0 <= k < s.len() ==> s[k] != '\0'
}

pub open spec fn has_no_dot_pair(s: Seq<char>) -> bool {
    forall|k: int| 0 <= k < s.len() - 1 ==> !(s[k] == '.' && #[trigger] s[k + 1] == '.')
}

proof fn lemma_without_nul(s: Seq<char>)
    ensures
        has_no_nul(without_nul(s)),
    decreases s.len(),
{
    if s.len() > 0 {
        lemma_without_nul(s.drop_last());
    }
}

proof fn lemma_strip_head(t: Seq<char>)
    requires
        t.len() > 0,
        t[0] != '.',
    ensures
        without_parent_refs(t).len() > 0,
        without_parent_refs(t)[0] == t[0],
{
}

proof fn lemma_strip_safe(s: Seq<char>)
    requires
        has_no_nul(s),
    ensures
        has_no_nul(without_parent_refs(s)),
        has_no_dot_pair(without_parent_refs(s)),
    decreases s.len(),
{
    if s.len() >= 2 {
        if s[0] == '.' && s[1] == '.' {
            lemma_strip_safe(s.subrange(2, s.len() as int));
        } else {
            let tail = s.subrange(1, s.len() as int);
            lemma_strip_safe(tail);
            let st = without_parent_refs(tail);
            let out = seq![s[0]] + st;
            assert(without_parent_refs(s) == out);
            if s[0] == '.' {
                assert(tail[0] == s[1]);
                lemma_strip_head(tail);
            }
            assert forall|k: int| 0 <= k < out.len() - 1 implies !(out[k] == '.' && #[trigger] out[k
                + 1] == '.') by {
                if k > 0 {
                    assert(out[k] == st[k - 1] && out[k + 1] == st[k]);
                    assert(!(st[k - 1] == '.' && st[(k - 1) + 1] == '.'));
                } else {
                    assert(out[0] == s[0] && out[1] == st[0]);
                }
            }
            assert forall|k: int| 0 <= k < out.len() implies out[k] != '\0' by {
                if k > 0 {
                    assert(out[k] == st[k - 1]);
                }
            }
        }
    }
}

proof fn lemma_cleaned_keeps_dots(t: Seq<char>)
    requires
        has_no_nul(t),
    ensures
        cleaned(t).len() == t.len(),
        forall|k: int| 0 <= k < t.len() ==> (cleaned(t)[k] == '.' <==> t[k] == '.'),
    decreases t.len(),
{
    if t.len() > 0 {
        let tail = t.subrange(1, t.len() as int);
        lemma_cleaned_keeps_dots(tail);
        assert forall|k: int| 0 <= k < t.len() implies (cleaned(t)[k] == '.' <==> t[k] == '.') by {
            if k > 0 {
                assert(cleaned(t)[k] == cleaned(tail)[k - 1]);
                assert(tail[k - 1] == t[k]);
            }
        }
    }
}

proof fn lemma_cleaned_prepend(c: char, t: Seq<char>)
    ensures
        cleaned(seq![c] + t) == cleaned_char(c) + cleaned(t),
{
    let u = seq![c] + t;
    assert(u.subrange(1, u.len() as int) =~= t);
}

proof fn lemma_cleaned_has_no_separator(s: Seq<char>)
    ensures
        forall|k: int|
            0 <= k < cleaned(s).len() ==> cleaned(s)[k] != '/' && cleaned(s)[k] != '\\'
                && cleaned(s)[k] != '\0',
    decreases s.len(),
{
    if s.len() > 0 {
        let tail = s.subrange(1, s.len() as int);
        lemma_cleaned_has_no_separator(tail);
        let head = cleaned_char(s[0]);
        assert(cleaned(s) == head + cleaned(tail));
        assert forall|k: int| 0 <= k < cleaned(s).len() implies cleaned(s)[k] != '/'
            && cleaned(s)[k] != '\\' && cleaned(s)[k] != '\0' by {
            if k >= head.len() {
                assert(cleaned(s)[k] == cleaned(tail)[k - head.len()]);
            }
        }
    }
}

/// Makes an untrusted file name safe to join onto a trusted directory: drops
/// null bytes, strips every `..`, turns `/` and `\` into `_`, and replaces
/// any other character that is not alphanumeric, `.`, `_` or `-` with `_`.
/// The result holds no separator, no null byte and no `..`.
pub fn sanitize_filename(filename: &str) -> (r: String)
    ensures
        r@ == sanitized(filename@),
        forall|k: int| 0 <= k < r@.len() ==> r@[k] != '/' && r@[k] != '\\' && r@[k] != '\0',
        has_no_dot_pair(r@),
{
    let n = filename.unicode_len();
    let ghost s0 = filename@;
    let mut chars: Vec<char> = Vec::new();
    let mut j: usize = 0;
    while j < n
        invariant
            n == s0.len(),
            s0 == filename@,
            j <= n,
            chars@ == without_nul(s0.subrange(0, j as int)),
        decreases n - j,
    {
        let c = filename.get_char(j);
        assert(s0.subrange(0, j + 1).drop_last() =~= s0.subrange(0, j as int));
        if c != '\0' {
            chars.push(c);
        }
        j = j + 1;
    }
    assert(s0.subrange(0, n as int) =~= s0);
    let ghost s = chars@;
    let m = chars.len();
    let mut out = String::new();
    let mut i: usize = 0;
    assert(s.subrange(0, m as int) =~= s);
    assert(out@ + cleaned(without_parent_refs(s)) =~= sanitized(s0));
    while i < m
        invariant
            m == s.len(),
            s == chars@,
            s == without_nul(s0),
            i <= m,
            out@ + cleaned(without_parent_refs(s.subrange(i as int, m as int))) == sanitized(s0),
        decreases m - i,
    {
        let ghost rest = s.subrange(i as int, m as int);
        let c = chars[i];
        if i + 1 < m && c == '.' && chars[i + 1] == '.' {
            assert(rest.subrange(2, rest.len() as int) =~= s.subrange(i + 2, m as int));
            i = i + 2;
        } else {
            let ghost tail = s.subrange(i + 1, m as int);
            assert(rest.subrange(1, rest.len() as int) =~= tail);
            proof {
                lemma_cleaned_prepend(c, without_parent_refs(tail));
            }
            let ghost before = out@;
            let alnum = is_alphanumeric(c);
            if let Some(d) = replacement_for(c, alnum) {
                push_char(&mut out, d);
            }
            assert(out@ =~= before + cleaned_char(c));
            assert(out@ + cleaned(without_parent_refs(tail)) =~= before + (cleaned_char(c)
                + cleaned(without_parent_refs(tail))));
            i = i + 1;
        }
    }
    assert(s.subrange(m as int, m as int) =~= Seq::<char>::empty());
    assert(out@ =~= sanitized(s0));
    proof {
        let st = without_parent_refs(s);
        lemma_cleaned_has_no_separator(st);
        lemma_without_nul(s0);
        lemma_strip_safe(s);
        lemma_cleaned_keeps_dots(st);
        assert forall|k: int| 0 <= k < out@.len() - 1 implies !(out@[k] == '.' && #[trigger] out@[k
            + 1] == '.') by {
            assert(!(st[k] == '.' && st[k + 1] == '.'));
        }
    }
    out
}

} // verus!
