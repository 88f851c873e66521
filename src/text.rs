//! Text handling shared by the validator and the scorer: splitting a
//! submission into expeditions and trimming white space.

use vstd::prelude::*;

verus! {

/// The characters of Unicode's `White_Space` property.
pub open spec fn is_white_space(c: char) -> bool {
    ('\u{9}' <= c && c <= '\u{d}') || c == ' ' || c == '\u{85}' || c == '\u{a0}'
        || c == '\u{1680}' || ('\u{2000}' <= c && c <= '\u{200a}') || c == '\u{2028}'
        || c == '\u{2029}' || c == '\u{202f}' || c == '\u{205f}' || c == '\u{3000}'
}

/// `s` without its leading white space.
pub open spec fn trim_start(s: Seq<char>) -> Seq<char>
    decreases s.len(),
{
    if s.len() > 0 && is_white_space(s[0]) {
        trim_start(s.drop_first())
    } else {
        s
    }
}

/// `s` without its trailing white space.
pub open spec fn trim_end(s: Seq<char>) -> Seq<char>
    decreases s.len(),
{
    if s.len() > 0 && is_white_space(s.last()) {
        trim_end(s.drop_last())
    } else {
        s
    }
}

/// `s` without white space at either end.
pub open spec fn trimmed(s: Seq<char>) -> Seq<char> {
    trim_end(trim_start(s))
}

/// The pieces of `s` between single spaces, in order. Two spaces in a row
/// give an empty piece; a text without spaces is one piece.
pub open spec fn split_spaces(s: Seq<char>) -> Seq<Seq<char>>
    decreases s.len(),
{
    if s.len() == 0 {
        seq![Seq::<char>::empty()]
    } else {
        let rest = split_spaces(s.drop_last());
        if s.last() == ' ' {
            rest.push(Seq::<char>::empty())
        } else {
            rest.update(rest.len() - 1, rest.last().push(s.last()))
        }
    }
}

/// Relies on `str::trim`: the slice of `s` without leading and trailing
/// characters of Unicode's `White_Space` property.
#[verifier::external_body]
pub(crate) fn trim_text(s: &str) -> (r: &str)
    ensures
        r@ == trimmed(s@),
{
    s.trim()
}

/// `s` without white space at either end.
pub fn trim_owned(s: &str) -> (r: String)
    ensures
        r@ == trimmed(s@),
{
    trim_text(s).to_owned()
}

/// Splitting always gives at least one piece.
pub proof fn lemma_split_nonempty(s: Seq<char>)
    ensures
        split_spaces(s).len() >= 1,
    decreases s.len(),
{
    if s.len() > 0 {
        lemma_split_nonempty(s.drop_last());
    }
}

/// Splits `line` at every single space into its pieces, in order.
pub fn split_expeditions(line: &str) -> (r: Vec<String>)
    ensures
        r@.len() == split_spaces(line@).len(),
        forall|k: int| 0 <= k < r@.len() ==> #[trigger] r@[k]@ == split_spaces(line@)[k],
{
    let n = line.unicode_len();
    let mut tokens: Vec<String> = Vec::new();
    let mut start: usize = 0;
    let mut i: usize = 0;
    for c in it: line.chars()
        invariant
            n == line@.len(),
            it.seq() == line@,
            i == it.index(),
            start <= i <= n,
            tokens@.len() + 1 == split_spaces(line@.take(i as int)).len(),
            forall|k: int|
                0 <= k < tokens@.len() ==> #[trigger] tokens@[k]@ == split_spaces(
                    line@.take(i as int),
                )[k],
            line@.subrange(start as int, i as int) == split_spaces(line@.take(i as int)).last(),
    {
        proof {
            let p = line@.take(i as int + 1);
            assert(p.drop_last() =~= line@.take(i as int));
            lemma_split_nonempty(line@.take(i as int));
        }
        if c == ' ' {
            let piece = line.substring_char(start, i).to_owned();
            tokens.push(piece);
            start = i + 1;
            proof {
                assert(line@.subrange(start as int, i as int + 1) =~= Seq::<char>::empty());
            }
        } else {
            proof {
                assert(line@.subrange(start as int, i as int + 1) =~= line@.subrange(
                    start as int,
                    i as int,
                ).push(c));
            }
        }
        i = i + 1;
    }
    proof {
        assert(line@.take(i as int) =~= line@);
    }
    let last = line.substring_char(start, i).to_owned();
    tokens.push(last);
    tokens
}

} // verus!

verus! {

/// Every character of `s` is white space (so an empty `s` is blank too).
pub open spec fn is_blank(s: Seq<char>) -> bool {
    forall|i: int| 0 <= i < s.len() ==> is_white_space(#[trigger] s[i])
}

proof fn lemma_trim_start_empty(s: Seq<char>)
    ensures
        trim_start(s).len() == 0 <==> is_blank(s),
        trim_start(s).len() > 0 ==> !is_white_space(trim_start(s)[0]),
    decreases s.len(),
{
    if s.len() > 0 && is_white_space(s[0]) {
        lemma_trim_start_empty(s.drop_first());
        if is_blank(s.drop_first()) {
            assert forall|i: int| 0 <= i < s.len() implies is_white_space(#[trigger] s[i]) by {
                if i > 0 {
                    assert(s[i] == s.drop_first()[i - 1]);
                }
            }
        } else {
            let j = choose|j: int| 0 <= j < s.len() - 1 && !is_white_space(#[trigger] s.drop_first()[j]);
            assert(s[j + 1] == s.drop_first()[j]);
        }
    } else if s.len() > 0 {
        assert(!is_white_space(s[0]));
    }
}

proof fn lemma_trim_end_keeps_first(s: Seq<char>)
    requires
        s.len() > 0,
        !is_white_space(s[0]),
    ensures
        trim_end(s).len() > 0,
    decreases s.len(),
{
    if is_white_space(s.last()) {
        assert(s.len() > 1);
        lemma_trim_end_keeps_first(s.drop_last());
    }
}

/// A text trims to nothing exactly when it is blank.
pub proof fn lemma_trimmed_empty(s: Seq<char>)
    ensures
        trimmed(s).len() == 0 <==> is_blank(s),
{
    lemma_trim_start_empty(s);
    if trim_start(s).len() > 0 {
        lemma_trim_end_keeps_first(trim_start(s));
    }
}

} // verus!

verus! {

/// The pieces `pieces` written one after another with a single space
/// between each two.
pub open spec fn join_spaces(pieces: Seq<Seq<char>>) -> Seq<char>
    decreases pieces.len(),
{
    if pieces.len() == 0 {
        Seq::<char>::empty()
    } else if pieces.len() == 1 {
        pieces[0]
    } else {
        join_spaces(pieces.drop_last()) + seq![' '] + pieces.last()
    }
}

proof fn lemma_split_append(s: Seq<char>, t: Seq<char>)
    requires
        forall|i: int| 0 <= i < t.len() ==> #[trigger] t[i] != ' ',
    ensures
        split_spaces(s + t) == split_spaces(s).update(
            split_spaces(s).len() - 1,
            split_spaces(s).last() + t,
        ),
    decreases t.len(),
{
    lemma_split_nonempty(s);
    if t.len() == 0 {
        assert(s + t =~= s);
        assert(split_spaces(s).last() + t =~= split_spaces(s).last());
        assert(split_spaces(s).update(split_spaces(s).len() - 1, split_spaces(s).last())
            =~= split_spaces(s));
    } else {
        let u = t.drop_last();
        assert forall|i: int| 0 <= i < u.len() implies #[trigger] u[i] != ' ' by {
            assert(u[i] == t[i]);
        }
        lemma_split_append(s, u);
        assert((s + t).drop_last() =~= s + u);
        assert(t.last() != ' ');
        lemma_split_nonempty(s + u);
        assert((split_spaces(s).last() + u).push(t.last()) =~= split_spaces(s).last() + t);
        assert(split_spaces(s + t) =~= split_spaces(s).update(
            split_spaces(s).len() - 1,
            split_spaces(s).last() + t,
        ));
    }
}

/// Splitting pieces that were joined with single spaces, none of which holds
/// a space, gives the pieces back.
pub proof fn lemma_split_join(pieces: Seq<Seq<char>>)
    requires
        pieces.len() >= 1,
        forall|k: int, i: int|
            0 <= k < pieces.len() && 0 <= i < pieces[k].len() ==> #[trigger] pieces[k][i] != ' ',
    ensures
        split_spaces(join_spaces(pieces)) == pieces,
    decreases pieces.len(),
{
    let e = pieces.last();
    assert forall|i: int| 0 <= i < e.len() implies #[trigger] e[i] != ' ' by {
        assert(pieces[pieces.len() - 1][i] != ' ');
    }
    if pieces.len() == 1 {
        let z = Seq::<char>::empty();
        lemma_split_append(z, e);
        assert(z + e =~= e);
        assert(split_spaces(z) == seq![z]);
        assert(seq![z].update(0, z + e) =~= pieces);
    } else {
        let rest = pieces.drop_last();
        assert forall|k: int, i: int|
            0 <= k < rest.len() && 0 <= i < rest[k].len() implies #[trigger] rest[k][i] != ' ' by {
            assert(rest[k] == pieces[k]);
        }
        lemma_split_join(rest);
        let head = join_spaces(rest) + seq![' '];
        assert(head.drop_last() =~= join_spaces(rest));
        lemma_split_append(head, e);
        assert(Seq::<char>::empty() + e =~= e);
        assert(split_spaces(head).update(split_spaces(head).len() - 1, split_spaces(head).last() + e)
            =~= pieces);
    }
}

} // verus!
