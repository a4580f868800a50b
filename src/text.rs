use vstd::prelude::*;

verus! {

/// The in-line marker that stands for a line break in translated text.
pub const NEW_LINE: &'static str = "\\#";

/// The characters of `s`, in order.
pub fn chars_of(s: &str) -> (r: Vec<char>)
    ensures
        r@ == s@,
{
    let mut r: Vec<char> = Vec::new();
    for c in it: s.chars()
        invariant
            r@ == it.seq().take(it.index() as int),
    {
        r.push(c);
    }
    r
}

/// What `str::to_lowercase` makes of a string.
pub uninterp spec fn lower_of(s: Seq<char>) -> Seq<char>;

/// Relies on `str::to_lowercase`: the lowercase form depends on the
/// characters alone, and an empty string stays empty.
#[verifier::external_body]
pub(crate) fn to_lower(s: &str) -> (r: String)
    ensures
        r@ == lower_of(s@),
        s@.len() == 0 ==> r@.len() == 0,
{
    s.to_lowercase()
}

/// `s` with every line break replaced by the two characters `\#`.
pub open spec fn normalized(s: Seq<char>) -> Seq<char>
    decreases s.len(),
{
    if s.len() == 0 {
        seq![]
    } else if s.last() == '\n' {
        normalized(s.drop_last()) + seq!['\\', '#']
    } else {
        normalized(s.drop_last()).push(s.last())
    }
}

proof fn lemma_normalized_plain_run(s: Seq<char>, a: int, b: int)
    requires
        0 <= a <= b <= s.len(),
        forall|k: int| a <= k < b ==> s[k] != '\n',
    ensures
        normalized(s.take(b)) == normalized(s.take(a)) + s.subrange(a, b),
    decreases b - a,
{
    if a < b {
        lemma_normalized_plain_run(s, a, b - 1);
        assert(s.take(b).drop_last() == s.take(b - 1));
        assert(s.subrange(a, b) == s.subrange(a, b - 1).push(s[b - 1]));
    } else {
        assert(s.subrange(a, b) == Seq::<char>::empty());
    }
}

/// Rewrites every line break of `text` as the marker `\#`.
pub fn normalize_newlines(text: &str) -> (r: String)
    ensures
        r@ == normalized(text@),
{
    let chars = chars_of(text);
    let n = chars.len();
    let mut out = String::new();
    let mut start: usize = 0;
    let mut i: usize = 0;
    proof {
        assert(text@.take(0) == Seq::<char>::empty());
    }
    while i < n
        invariant
            chars@ == text@,
            n == text@.len(),
            start <= i <= n,
            out@ == normalized(text@.take(start as int)),
            forall|k: int| start <= k < i ==> text@[k] != '\n',
        decreases n - i,
    {
        if chars[i] == '\n' {
            let run = text.substring_char(start, i);
            out.append(run);
            out.append("\\#");
            proof {
                reveal_strlit("\\#");
                lemma_normalized_plain_run(text@, start as int, i as int);
                assert(text@.take(i + 1).drop_last() == text@.take(i as int));
            }
            start = i + 1;
        }
        i = i + 1;
    }
    let rest = text.substring_char(start, n);
    out.append(rest);
    proof {
        lemma_normalized_plain_run(text@, start as int, n as int);
        assert(text@.take(n as int) == text@);
    }
    out
}

/// A string without line breaks is left as it is.
pub proof fn lemma_normalize_no_break(s: Seq<char>)
    requires
        forall|k: int| 0 <= k < s.len() ==> s[k] != '\n',
    ensures
        normalized(s) == s,
{
    lemma_normalized_plain_run(s, 0, s.len() as int);
    assert(s.take(s.len() as int) == s);
    assert(s.take(0) == Seq::<char>::empty());
    assert(s.subrange(0, s.len() as int) == s);
}

proof fn lemma_normalized_has_no_break(s: Seq<char>)
    ensures
        forall|k: int| 0 <= k < normalized(s).len() ==> normalized(s)[k] != '\n',
    decreases s.len(),
{
    if s.len() > 0 {
        lemma_normalized_has_no_break(s.drop_last());
        let init = normalized(s.drop_last());
        if s.last() == '\n' {
            assert forall|k: int| 0 <= k < normalized(s).len() implies normalized(s)[k] != '\n' by {
                if k >= init.len() {
                    assert(seq!['\\', '#'][k - init.len()] != '\n');
                }
            }
        }
    }
}

/// Normalizing twice is normalizing once.
pub proof fn lemma_normalize_idempotent(s: Seq<char>)
    ensures
        normalized(normalized(s)) == normalized(s),
{
    lemma_normalized_has_no_break(s);
    lemma_normalize_no_break(normalized(s));
}

} // verus!
