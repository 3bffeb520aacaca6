//! Splitting a request line into whitespace-delimited tokens, joining token
//! sequences back together, and trimming the padding that a fixed-size read
//! buffer leaves around a request.

use vstd::prelude::*;

verus! {

/// The characters treated as token separators: the ASCII whitespace set.
pub open spec fn is_space(c: char) -> bool {
    c == ' ' || c == '\t' || c == '\n' || c == '\r' || c == '\u{c}'
}

/// Runtime test for [`is_space`].
pub fn is_space_char(c: char) -> (b: bool)
    ensures
        b == is_space(c),
{
    c == ' ' || c == '\t' || c == '\n' || c == '\r' || c == '\u{c}'
}

/// The maximal non-space prefix of `s`.
pub open spec fn first_token(s: Seq<char>) -> Seq<char>
    decreases s.len(),
{
    if s.len() == 0 || is_space(s.first()) {
        Seq::empty()
    } else {
        seq![s.first()] + first_token(s.skip(1))
    }
}

/// The tokens of `s`: the maximal runs of non-space characters, in order.
pub open spec fn tokens_of(s: Seq<char>) -> Seq<Seq<char>>
    decreases s.len(),
    when s.len() >= 0
    via tokens_of_decreases
{
    if s.len() == 0 {
        Seq::empty()
    } else if is_space(s.first()) {
        tokens_of(s.skip(1))
    } else {
        seq![first_token(s)] + tokens_of(s.skip(first_token(s).len() as int))
    }
}

#[via_fn]
proof fn tokens_of_decreases(s: Seq<char>) {
    if s.len() > 0 && !is_space(s.first()) {
        assert(first_token(s) == seq![s.first()] + first_token(s.skip(1)));
        lemma_first_token_len(s);
    }
}

/// A token taken from a non-empty string is itself non-empty and no longer
/// than the string.
proof fn lemma_first_token_len(s: Seq<char>)
    requires
        s.len() > 0,
        !is_space(s.first()),
    ensures
        1 <= first_token(s).len() <= s.len(),
    decreases s.len(),
{
    let rest = s.skip(1);
    assert(first_token(s) == seq![s.first()] + first_token(rest));
    if rest.len() > 0 && !is_space(rest.first()) {
        lemma_first_token_len(rest);
    } else {
        assert(first_token(rest) == Seq::<char>::empty());
    }
}

/// The views of a vector of owned strings.
pub open spec fn views_of(ts: Seq<String>) -> Seq<Seq<char>> {
    ts.map_values(|t: String| t@)
}

/// Skipping a separator character does not change the tokens that follow.
proof fn lemma_tokens_skip_space(s: Seq<char>, i: int)
    requires
        0 <= i < s.len(),
        is_space(s[i]),
    ensures
        tokens_of(s.skip(i)) == tokens_of(s.skip(i + 1)),
{
    let t = s.skip(i);
    assert(t.first() == s[i]);
    assert(t.skip(1) =~= s.skip(i + 1));
}

/// A run of non-space characters bounded by the end of the string or by a
/// space is exactly the first token of the suffix where the run starts.
proof fn lemma_token_span(s: Seq<char>, i: int, j: int)
    requires
        0 <= i <= j <= s.len(),
        forall|k: int| i <= k < j ==> !is_space(s[k]),
        j == s.len() || is_space(s[j]),
    ensures
        first_token(s.skip(i)) == s.subrange(i, j),
    decreases j - i,
{
    let t = s.skip(i);
    if i == j {
        assert(first_token(t) == Seq::<char>::empty());
        assert(s.subrange(i, j) =~= Seq::<char>::empty());
    } else {
        assert(t.first() == s[i]);
        assert(first_token(t) == seq![t.first()] + first_token(t.skip(1)));
        assert(t.skip(1) =~= s.skip(i + 1));
        lemma_token_span(s, i + 1, j);
        assert(seq![s[i]] + s.subrange(i + 1, j) =~= s.subrange(i, j));
    }
}

/// Reading one complete token advances the token list by one element.
proof fn lemma_tokens_at_token(s: Seq<char>, i: int, j: int)
    requires
        0 <= i < j <= s.len(),
        forall|k: int| i <= k < j ==> !is_space(s[k]),
        j == s.len() || is_space(s[j]),
    ensures
        tokens_of(s.skip(i)) == seq![s.subrange(i, j)] + tokens_of(s.skip(j)),
{
    let t = s.skip(i);
    assert(t.first() == s[i]);
    lemma_token_span(s, i, j);
    assert(tokens_of(t) == seq![first_token(t)] + tokens_of(t.skip(first_token(t).len() as int)));
    assert(first_token(t).len() == j - i);
    assert(t.skip(j - i) =~= s.skip(j));
}

/// Splits `s` into its whitespace-delimited tokens, in order.
pub fn tokenize(s: &str) -> (tokens: Vec<String>)
    ensures
        views_of(tokens@) == tokens_of(s@),
{
    let n = s.unicode_len();
    let mut tokens: Vec<String> = Vec::new();
    let mut i: usize = 0;
    proof {
        assert(s@.skip(0) =~= s@);
        assert(views_of(tokens@) =~= Seq::<Seq<char>>::empty());
        assert(Seq::<Seq<char>>::empty() + tokens_of(s@) =~= tokens_of(s@));
    }
    while i < n
        invariant
            n == s@.len(),
            i <= n,
            tokens_of(s@) == views_of(tokens@) + tokens_of(s@.skip(i as int)),
        decreases n - i,
    {
        let c = s.get_char(i);
        if is_space_char(c) {
            proof {
                lemma_tokens_skip_space(s@, i as int);
            }
            i += 1;
        } else {
            let start = i;
            let mut j = i + 1;
            while j < n && !is_space_char(s.get_char(j))
                invariant
                    n == s@.len(),
                    i < j <= n,
                    forall|k: int| i <= k < j ==> !is_space(s@[k]),
                decreases n - j,
            {
                j += 1;
            }
            let tok = s.substring_char(start, j).to_owned();
            proof {
                lemma_tokens_at_token(s@, i as int, j as int);
                assert(views_of(tokens@.push(tok)) =~= views_of(tokens@) + seq![tok@]);
                assert(views_of(tokens@) + (seq![tok@] + tokens_of(s@.skip(j as int)))
                    =~= (views_of(tokens@) + seq![tok@]) + tokens_of(s@.skip(j as int)));
            }
            tokens.push(tok);
            i = j;
        }
    }
    proof {
        assert(s@.skip(n as int) =~= Seq::<char>::empty());
        assert(tokens_of(Seq::<char>::empty()) == Seq::<Seq<char>>::empty());
        assert(views_of(tokens@) + Seq::<Seq<char>>::empty() =~= views_of(tokens@));
    }
    tokens
}

/// The parts joined by `sep`: `p1 sep p2 sep ... sep pk`, with no separator
/// around the ends and the empty sequence for no parts at all.
pub open spec fn join_with(parts: Seq<Seq<char>>, sep: Seq<char>) -> Seq<char>
    decreases parts.len(),
{
    if parts.len() == 0 {
        Seq::empty()
    } else if parts.len() == 1 {
        parts[0]
    } else {
        join_with(parts.drop_last(), sep) + sep + parts.last()
    }
}

/// Joining one more part appends a separator (except onto no parts) and the
/// part itself.
pub proof fn lemma_join_push(parts: Seq<Seq<char>>, sep: Seq<char>, part: Seq<char>)
    ensures
        join_with(parts.push(part), sep) == if parts.len() == 0 {
            part
        } else {
            join_with(parts, sep) + sep + part
        },
{
    let all = parts.push(part);
    if parts.len() == 0 {
        assert(all[0] == part);
    } else {
        assert(all.drop_last() =~= parts);
        assert(all.last() == part);
    }
}

/// A join of one or more parts, none of them empty, is not empty.
pub proof fn lemma_join_nonempty(parts: Seq<Seq<char>>, sep: Seq<char>)
    requires
        parts.len() > 0,
        forall|k: int| 0 <= k < parts.len() ==> (#[trigger] parts[k]).len() > 0,
    ensures
        join_with(parts, sep).len() > 0,
{
    if parts.len() == 1 {
        assert(parts[0].len() > 0);
    } else {
        assert(parts.last() == parts[parts.len() - 1]);
    }
}

/// Joins the tokens from position `from` onward with single spaces.
pub fn join_tokens(parts: &Vec<String>, from: usize) -> (r: String)
    requires
        from <= parts@.len(),
    ensures
        r@ == join_with(views_of(parts@).skip(from as int), seq![' ']),
{
    let ghost rest = views_of(parts@).skip(from as int);
    let mut r = String::new();
    let mut i = from;
    proof {
        assert(rest.take(0) =~= Seq::<Seq<char>>::empty());
    }
    while i < parts.len()
        invariant
            from <= i <= parts@.len(),
            rest == views_of(parts@).skip(from as int),
            r@ == join_with(rest.take(i - from), seq![' ']),
        decreases parts@.len() - i,
    {
        proof {
            reveal_strlit(" ");
            assert(" "@ =~= seq![' ']);
            assert(rest.take(i - from + 1) =~= rest.take(i - from).push(parts@[i as int]@));
            lemma_join_push(rest.take(i - from), seq![' '], parts@[i as int]@);
        }
        if i > from {
            r.append(" ");
        }
        r.append(parts[i].as_str());
        i += 1;
    }
    proof {
        assert(rest.take(parts@.len() - from) =~= rest);
    }
    r
}

/// The characters a fixed-size read buffer pads a request with: the NUL
/// bytes that fill the unused tail of the buffer, and surrounding
/// whitespace.
pub open spec fn is_pad(c: char) -> bool {
    c == '\u{0}' || is_space(c)
}

/// Runtime test for [`is_pad`].
pub fn is_pad_char(c: char) -> (b: bool)
    ensures
        b == is_pad(c),
{
    c == '\u{0}' || is_space_char(c)
}

/// `s` without its leading padding characters.
pub open spec fn drop_leading_pad(s: Seq<char>) -> Seq<char>
    decreases s.len(),
{
    if s.len() == 0 {
        s
    } else if is_pad(s.first()) {
        drop_leading_pad(s.skip(1))
    } else {
        s
    }
}

/// `s` without its trailing padding characters.
pub open spec fn drop_trailing_pad(s: Seq<char>) -> Seq<char>
    decreases s.len(),
{
    if s.len() == 0 {
        s
    } else if is_pad(s.last()) {
        drop_trailing_pad(s.drop_last())
    } else {
        s
    }
}

/// `s` without leading and trailing padding characters.
pub open spec fn trim_pad(s: Seq<char>) -> Seq<char> {
    drop_trailing_pad(drop_leading_pad(s))
}

/// Strips buffer padding from a raw request: NUL bytes and whitespace are
/// removed from both ends, and nothing else changes.
pub fn trim_request(s: &str) -> (r: String)
    ensures
        r@ == trim_pad(s@),
{
    let n = s.unicode_len();
    let mut i: usize = 0;
    proof {
        assert(s@.skip(0) =~= s@);
    }
    while i < n && is_pad_char(s.get_char(i))
        invariant
            n == s@.len(),
            i <= n,
            drop_leading_pad(s@) == drop_leading_pad(s@.skip(i as int)),
        decreases n - i,
    {
        proof {
            let t = s@.skip(i as int);
            assert(t.first() == s@[i as int]);
            assert(t.skip(1) =~= s@.skip(i as int + 1));
        }
        i += 1;
    }
    proof {
        if i < n {
            assert(s@.skip(i as int).first() == s@[i as int]);
        }
        assert(drop_leading_pad(s@) =~= s@.skip(i as int));
        assert(s@.skip(i as int) =~= s@.subrange(i as int, n as int));
    }
    let mut j: usize = n;
    while j > i && is_pad_char(s.get_char(j - 1))
        invariant
            n == s@.len(),
            i <= j <= n,
            drop_trailing_pad(s@.subrange(i as int, n as int)) == drop_trailing_pad(
                s@.subrange(i as int, j as int),
            ),
        decreases j,
    {
        proof {
            let t = s@.subrange(i as int, j as int);
            assert(t.last() == s@[j - 1]);
            assert(t.drop_last() =~= s@.subrange(i as int, j as int - 1));
        }
        j -= 1;
    }
    proof {
        let t = s@.subrange(i as int, j as int);
        if j > i {
            assert(t.last() == s@[j - 1]);
        }
        assert(drop_trailing_pad(s@.subrange(i as int, n as int)) =~= t);
    }
    s.substring_char(i, j).to_owned()
}

} // verus!
