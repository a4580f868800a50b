use vstd::prelude::*;

use crate::text::{chars_of, lower_of, to_lower};

verus! {

/// How a string is cut into tokens.
#[derive(PartialEq, Eq, Structural, Clone, Copy, Debug)]
pub enum Algorithm {
    /// Maximal runs of non-space characters.
    Words,
    /// Every run of `n` consecutive characters, in order of position.
    CharNgrams(usize),
}

/// Why a string could not be cut into tokens.
#[derive(PartialEq, Eq, Structural, Clone, Copy, Debug)]
pub enum TokenizeError {
    /// An n-gram size of zero.
    ZeroNgram,
    /// A non-empty string shorter than the n-gram size.
    TooShort,
}

/// Characters that separate words.
pub open spec fn is_space(c: char) -> bool {
    c == ' ' || c == '\t' || c == '\n' || c == '\r' || c == '\u{3000}'
}

fn space(c: char) -> (r: bool)
    ensures
        r == is_space(c),
{
    c == ' ' || c == '\t' || c == '\n' || c == '\r' || c == '\u{3000}'
}

/// The words of `s`: its maximal runs of non-space characters.
pub open spec fn words(s: Seq<char>) -> Seq<Seq<char>>
    decreases s.len(),
{
    if s.len() == 0 {
        seq![]
    } else {
        let w = words(s.drop_last());
        let c = s.last();
        if is_space(c) {
            w
        } else if s.len() >= 2 && !is_space(s[s.len() - 2]) {
            w.drop_last().push(w.last().push(c))
        } else {
            w.push(seq![c])
        }
    }
}

/// The runs of `n` consecutive characters of `s`, by position.
pub open spec fn ngrams(s: Seq<char>, n: nat) -> Seq<Seq<char>> {
    if s.len() < n {
        seq![]
    } else {
        Seq::new((s.len() - n + 1) as nat, |i: int| s.subrange(i, i + n))
    }
}

/// What tokenizing `s` under `algorithm` gives.
pub open spec fn tokens_of(s: Seq<char>, algorithm: Algorithm) -> Result<
    Seq<Seq<char>>,
    TokenizeError,
> {
    match algorithm {
        Algorithm::Words => Ok(words(s)),
        Algorithm::CharNgrams(n) => if n == 0 {
            Err(TokenizeError::ZeroNgram)
        } else if 0 < s.len() < n {
            Err(TokenizeError::TooShort)
        } else {
            Ok(ngrams(s, n as nat))
        },
    }
}

/// The text that is tokenized: `s` itself, or its lowercase form.
pub open spec fn folded(s: Seq<char>, case_sensitive: bool) -> Seq<char> {
    if case_sensitive {
        s
    } else {
        lower_of(s)
    }
}

/// The character sequences of a token list.
pub open spec fn token_views(v: Seq<Vec<char>>) -> Seq<Seq<char>> {
    v.map_values(|t: Vec<char>| t@)
}

/// What `tokenize` returns, over character sequences.
pub open spec fn tokenized(
    s: Seq<char>,
    algorithm: Algorithm,
    case_sensitive: bool,
) -> Result<Seq<Seq<char>>, TokenizeError> {
    tokens_of(folded(s, case_sensitive), algorithm)
}

/// Does a tokenize result hold exactly the given outcome?
pub open spec fn tokenize_result_is(
    r: Result<Vec<Vec<char>>, TokenizeError>,
    expected: Result<Seq<Seq<char>>, TokenizeError>,
) -> bool {
    match r {
        Ok(v) => expected == Ok::<Seq<Seq<char>>, TokenizeError>(token_views(v@)),
        Err(e) => expected == Err::<Seq<Seq<char>>, TokenizeError>(e),
    }
}

fn split_words(s: &Vec<char>) -> (r: Vec<Vec<char>>)
    ensures
        token_views(r@) == words(s@),
{
    let n = s.len();
    let mut tokens: Vec<Vec<char>> = Vec::new();
    let mut cur: Vec<char> = Vec::new();
    let mut i: usize = 0;
    while i < n
        invariant
            n == s@.len(),
            i <= n,
            cur@.len() > 0 ==> token_views(tokens@).push(cur@) == words(s@.take(i as int)),
            cur@.len() == 0 ==> token_views(tokens@) == words(s@.take(i as int)),
            cur@.len() > 0 <==> (i > 0 && !is_space(s@[i - 1])),
        decreases n - i,
    {
        let c = s[i];
        let ghost before = token_views(tokens@);
        let ghost cur_before = cur@;
        proof {
            assert(s@.take(i + 1).drop_last() == s@.take(i as int));
        }
        if space(c) {
            if cur.len() > 0 {
                let done = cur;
                tokens.push(done);
                cur = Vec::new();
                proof {
                    assert(token_views(tokens@) == before.push(done@));
                }
            }
        } else {
            cur.push(c);
            proof {
                if cur_before.len() > 0 {
                    assert(before.push(cur_before).drop_last() == before);
                    assert(before.push(cur@) == before.push(cur_before).drop_last().push(
                        before.push(cur_before).last().push(c),
                    ));
                } else {
                    assert(cur@ == seq![c]);
                }
            }
        }
        i = i + 1;
    }
    if cur.len() > 0 {
        let ghost before = token_views(tokens@);
        let done = cur;
        tokens.push(done);
        proof {
            assert(token_views(tokens@) == before.push(done@));
        }
    }
    proof {
        assert(s@.take(n as int) == s@);
    }
    tokens
}

fn split_ngrams(s: &Vec<char>, n: usize) -> (r: Vec<Vec<char>>)
    requires
        n > 0,
        s@.len() >= n,
    ensures
        token_views(r@) == ngrams(s@, n as nat),
{
    let len = s.len();
    let count = len - n + 1;
    let mut tokens: Vec<Vec<char>> = Vec::new();
    let mut i: usize = 0;
    while i < count
        invariant
            len == s@.len(),
            count == len - n + 1,
            n > 0,
            len >= n,
            i <= count,
            token_views(tokens@) == ngrams(s@, n as nat).take(i as int),
        decreases count - i,
    {
        let mut gram: Vec<char> = Vec::new();
        let mut j: usize = 0;
        while j < n
            invariant
                i < count,
                len == s@.len(),
                count == len - n + 1,
                j <= n,
                gram@ == s@.subrange(i as int, i + j),
            decreases n - j,
        {
            gram.push(s[i + j]);
            j = j + 1;
            proof {
                assert(gram@ == s@.subrange(i as int, i + j));
            }
        }
        let ghost before = token_views(tokens@);
        tokens.push(gram);
        i = i + 1;
        proof {
            assert(token_views(tokens@) == before.push(gram@));
            assert(ngrams(s@, n as nat).take(i as int) == ngrams(s@, n as nat).take(i - 1).push(
                gram@,
            ));
        }
    }
    proof {
        assert(ngrams(s@, n as nat).take(count as int) == ngrams(s@, n as nat));
    }
    tokens
}

/// Cuts `text` into tokens under `algorithm`, after lowercasing it unless
/// `case_sensitive`. Fails when the n-gram size is zero, or when a non-empty
/// text is shorter than it.
pub fn tokenize(text: &str, algorithm: Algorithm, case_sensitive: bool) -> (r: Result<
    Vec<Vec<char>>,
    TokenizeError,
>)
    ensures
        tokenize_result_is(r, tokenized(text@, algorithm, case_sensitive)),
{
    let chars = if case_sensitive {
        chars_of(text)
    } else {
        let lowered = to_lower(text);
        chars_of(lowered.as_str())
    };
    assert(chars@ == folded(text@, case_sensitive));
    match algorithm {
        Algorithm::Words => Ok(split_words(&chars)),
        Algorithm::CharNgrams(n) => {
            if n == 0 {
                Err(TokenizeError::ZeroNgram)
            } else if chars.len() == 0 {
                let none: Vec<Vec<char>> = Vec::new();
                proof {
                    assert(ngrams(chars@, n as nat) == Seq::<Seq<char>>::empty());
                    assert(token_views(none@) == Seq::<Seq<char>>::empty());
                }
                Ok(none)
            } else if chars.len() < n {
                Err(TokenizeError::TooShort)
            } else {
                Ok(split_ngrams(&chars, n))
            }
        },
    }
}

} // verus!
