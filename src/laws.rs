//! Properties of the parsers that hold for every input.
use crate::args::{first_from, first_named, first_word, first_separator, is_separator_text, lemma_first_from_at, lemma_first_separator, lexed, named_by, names, word_of_raw, word_token, Token};
use crate::info::{ErrorV, MetaV};
use crate::params::{Argument, Command, Flag, Positional, PositionalIf};
use crate::parser::{many_parse, Optional, OrElse, Outcome, Parser, Zip};
use vstd::prelude::*;

verus! {

/// No token of `s` is named by either of two flags.
pub open spec fn unnamed_by_both<A, B>(s: Seq<Token>, fa: Flag<A>, fb: Flag<B>) -> bool {
    forall|j: int| 0 <= j < s.len() ==> !names(#[trigger] s[j], fa.shorts@, fa.longs@) && !names(s[j], fb.shorts@, fb.longs@)
}

/// Two flags with no name in common, run in sequence, give the same values and leave the
/// same tokens whichever order their tokens come in: swapping the one token of each among
/// tokens that neither names changes nothing.
pub proof fn lemma_flags_order_independent<A: Copy + DeepView, B: Copy + DeepView>(
    fa: Flag<A>,
    fb: Flag<B>,
    ta: Token,
    tb: Token,
    pre: Seq<Token>,
    mid: Seq<Token>,
    post: Seq<Token>,
)
    requires
        names(ta, fa.shorts@, fa.longs@),
        !names(ta, fb.shorts@, fb.longs@),
        names(tb, fb.shorts@, fb.longs@),
        !names(tb, fa.shorts@, fa.longs@),
        unnamed_by_both(pre, fa, fb),
        unnamed_by_both(mid, fa, fb),
        unnamed_by_both(post, fa, fb),
    ensures
        (Zip { first: fa, second: fb }).spec_parse(pre + seq![ta] + mid + seq![tb] + post)
            == (Zip { first: fa, second: fb }).spec_parse(pre + seq![tb] + mid + seq![ta] + post),
        (Zip { first: fa, second: fb }).spec_parse(pre + seq![ta] + mid + seq![tb] + post)
            == Outcome::<(A::V, B::V)>::Ok(((fa.present.deep_view(), fb.present.deep_view()), pre + mid + post)),
{
    let pa = named_by(fa.shorts@, fa.longs@);
    let pb = named_by(fb.shorts@, fb.longs@);
    let n = pre.len() as int;
    let m = mid.len() as int;
    let rest = pre + mid + post;

    let s1 = pre + seq![ta] + mid + seq![tb] + post;
    assert(s1[n] == ta);
    assert forall|j: int| 0 <= j < n implies !pa(#[trigger] s1[j]) by {
        assert(s1[j] == pre[j]);
    }
    lemma_first_from_at(s1, pa, 0, n);
    let t1 = s1.remove(n);
    assert(t1 =~= pre + mid + seq![tb] + post);
    assert(t1[n + m] == tb);
    assert forall|j: int| 0 <= j < n + m implies !pb(#[trigger] t1[j]) by {
        if j < n {
            assert(t1[j] == pre[j]);
        } else {
            assert(t1[j] == mid[j - n]);
        }
    }
    lemma_first_from_at(t1, pb, 0, n + m);
    assert(t1.remove(n + m) =~= rest);

    let s2 = pre + seq![tb] + mid + seq![ta] + post;
    assert(s2[n + 1 + m] == ta);
    assert forall|j: int| 0 <= j < n + 1 + m implies !pa(#[trigger] s2[j]) by {
        if j < n {
            assert(s2[j] == pre[j]);
        } else if j == n {
            assert(s2[j] == tb);
        } else {
            assert(s2[j] == mid[j - n - 1]);
        }
    }
    lemma_first_from_at(s2, pa, 0, n + 1 + m);
    let t2 = s2.remove(n + 1 + m);
    assert(t2 =~= pre + seq![tb] + mid + post);
    assert(t2[n] == tb);
    assert forall|j: int| 0 <= j < n implies !pb(#[trigger] t2[j]) by {
        assert(t2[j] == pre[j]);
    }
    lemma_first_from_at(t2, pb, 0, n);
    assert(t2.remove(n) =~= rest);
}

/// Repetition of a parser that, on no tokens, succeeds or reports absence gives an empty
/// list and no error.
pub proof fn lemma_many_on_nothing<P: Parser>(p: P)
    requires
        p.spec_parse(Seq::empty()) is Ok || p.spec_parse(Seq::empty()) matches Err(ErrorV::Missing(_)),
    ensures
        many_parse(p, Seq::empty()) == Outcome::<Seq<<P::Output as DeepView>::V>>::Ok((Seq::empty(), Seq::empty())),
{
}

/// Every leaf parser, on no tokens, succeeds or reports absence; so repeating it on no
/// tokens gives an empty list and no error.
pub proof fn lemma_leaves_many_on_nothing<T: Copy + DeepView, P: Parser>(
    f: Flag<T>,
    a: Argument,
    p: Positional,
    c: Command<P>,
)
    ensures
        many_parse(f, Seq::empty()) == Outcome::<Seq<T::V>>::Ok((Seq::empty(), Seq::empty())),
        many_parse(a, Seq::empty()) == Outcome::<Seq<Seq<char>>>::Ok((Seq::empty(), Seq::empty())),
        many_parse(p, Seq::empty()) == Outcome::<Seq<Seq<char>>>::Ok((Seq::empty(), Seq::empty())),
        many_parse(c, Seq::empty()) == Outcome::<Seq<<P::Output as DeepView>::V>>::Ok((Seq::empty(), Seq::empty())),
{
    lemma_many_on_nothing(f);
    lemma_many_on_nothing(a);
    lemma_many_on_nothing(p);
    lemma_many_on_nothing(c);
}

/// A parser that reports absence leaves the state as it was: made optional, it gives `None`
/// with the very same tokens, and an alternative after it sees those same tokens.
pub proof fn lemma_absence_leaves_state<P: Parser, Q: Parser<Output = P::Output>>(p: P, q: Q, s: Seq<Token>)
    requires
        p.spec_parse(s) matches Err(ErrorV::Missing(_)),
    ensures
        (Optional { inner: p }).spec_parse(s) == Outcome::<Option<<P::Output as DeepView>::V>>::Ok((None, s)),
        q.spec_parse(s) is Ok ==> (OrElse { first: p, second: q }).spec_parse(s) == q.spec_parse(s),
{
}

/// Each leaf that finds nothing of its own in the tokens fails with `Missing` naming only
/// its own grammar leaf, and consumes nothing: made optional, it gives `None` and leaves the
/// tokens exactly as they were.
pub proof fn lemma_leaf_absence_keeps_tokens<T: Copy + DeepView, F: Fn(&str) -> bool>(
    f: Flag<T>,
    a: Argument,
    p: Positional,
    q: PositionalIf<F>,
    s: Seq<Token>,
)
    ensures
        f.absent is None && first_named(s, f.shorts@, f.longs@) is None ==> {
            &&& f.spec_parse(s) == Outcome::<T::V>::Err(ErrorV::Missing(seq![MetaV::Leaf(f.item)]))
            &&& (Optional { inner: f }).spec_parse(s) == Outcome::<Option<T::V>>::Ok((None, s))
        },
        first_named(s, a.shorts@, a.longs@) is None ==> {
            &&& a.spec_parse(s) == Outcome::<Seq<char>>::Err(ErrorV::Missing(seq![MetaV::Leaf(a.item)]))
            &&& (Optional { inner: a }).spec_parse(s) == Outcome::<Option<Seq<char>>>::Ok((None, s))
        },
        first_word(s) is None ==> {
            &&& p.spec_parse(s) == Outcome::<Seq<char>>::Err(ErrorV::Missing(seq![MetaV::Leaf(p.item)]))
            &&& (Optional { inner: p }).spec_parse(s) == Outcome::<Option<Seq<char>>>::Ok((None, s))
        },
        s.len() > 0 && !(s[0] is Word) ==> {
            &&& q.spec_parse(s) == Outcome::<Option<Seq<char>>>::Err(ErrorV::Missing(seq![MetaV::Leaf(q.item)]))
            &&& (Optional { inner: q }).spec_parse(s) == Outcome::<Option<Option<Seq<char>>>>::Ok((None, s))
        },
{
}

/// Alternation is left-biased: where the first parser succeeds, its result is taken,
/// whatever the second would give.
pub proof fn lemma_or_else_left_bias<P: Parser, Q: Parser<Output = P::Output>>(p: P, q: Q, s: Seq<Token>)
    requires
        p.spec_parse(s) is Ok,
    ensures
        (OrElse { first: p, second: q }).spec_parse(s) == p.spec_parse(s),
{
}

/// After a leading `--`, every token is a plain word, whatever its dashes; a positional
/// then takes the first of them as it was written.
pub proof fn lemma_separator_makes_words(raw: Seq<Option<String>>, toks: Seq<Token>, p: Positional)
    requires
        lexed(raw, toks),
        raw.len() >= 1,
        is_separator_text(raw[0]),
    ensures
        toks.len() == raw.len() - 1,
        forall|j: int| 0 <= j < toks.len() ==> word_of_raw(#[trigger] toks[j], raw[j + 1]),
        raw.len() >= 2 && raw[1] is Some ==> p.spec_parse(toks) == Outcome::<Seq<char>>::Ok((raw[1]->0@, toks.remove(0))),
{
    lemma_first_separator(raw, 0);
    assert(first_separator(raw, 0) == 0);
    if raw.len() >= 2 {
        assert(word_of_raw(toks[0], raw[1]));
        assert(first_from(toks, word_token(), 0) == Some(0int));
    }
}

} // verus!
