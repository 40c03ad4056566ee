use crate::args::{Args, Token};
use crate::info::{Error, ErrorV, Item, Meta, MetaV};
use vstd::prelude::*;

verus! {

/// What a parse gives in the model: the value, with the tokens left, or the error.
pub type Outcome<V> = Result<(V, Seq<Token>), ErrorV>;

/// `r`, the result of running a parser, is the outcome `o`.
pub open spec fn gives<T: DeepView>(r: Result<(T, Args), Error>, o: Outcome<T::V>) -> bool {
    match r {
        Ok((v, a)) => o == Outcome::<T::V>::Ok((v.deep_view(), a@)),
        Err(e) => o == Outcome::<T::V>::Err(e@),
    }
}

/// A reusable parser: a function from a consumption state to a value and the state left,
/// together with the grammar it accepts.
pub trait Parser {
    type Output: DeepView;

    /// The parser is well formed: what it was built from behaves as a pure function.
    spec fn wf(&self) -> bool;

    /// The grammar this parser accepts.
    spec fn spec_meta(&self) -> MetaV;

    /// What parsing the tokens `s` gives.
    spec fn spec_parse(&self, s: Seq<Token>) -> Outcome<<Self::Output as DeepView>::V>;

    fn meta(&self) -> (r: Meta)
        requires
            self.wf(),
        ensures
            r@ == self.spec_meta(),
    ;

    fn run(&self, args: Args) -> (r: Result<(Self::Output, Args), Error>)
        requires
            self.wf(),
        ensures
            gives(r, self.spec_parse(args@)),
            r matches Ok((_, a)) ==> a.spec_separated() == args.spec_separated(),
    ;
}

/// The same item, marked as not required.
pub open spec fn unrequired(i: Item) -> Item {
    Item { required: false, ..i }
}

/// The grammar of a parser whose absence is tolerated: every leaf in it becomes optional.
pub open spec fn optional_meta(m: MetaV) -> MetaV
    decreases m,
{
    match m {
        MetaV::Leaf(i) => MetaV::Leaf(unrequired(i)),
        MetaV::Alternatives(v) => MetaV::Alternatives(
            Seq::new(v.len(), |k: int| if 0 <= k < v.len() { optional_meta(v[k]) } else { m }),
        ),
        MetaV::Sequence(v) => MetaV::Sequence(
            Seq::new(v.len(), |k: int| if 0 <= k < v.len() { optional_meta(v[k]) } else { m }),
        ),
    }
}

fn make_optional(m: Meta) -> (r: Meta)
    ensures
        r@ == optional_meta(m@),
    decreases m,
{
    match m {
        Meta::Leaf(i) => Meta::Leaf(Item { required: false, ..i }),
        Meta::Alternatives(v) => {
            let ghost mv = m@;
            let r = Meta::Alternatives(make_all_optional(v));
            assert(r@->Alternatives_0 =~= optional_meta(mv)->Alternatives_0);
            r
        },
        Meta::Sequence(v) => {
            let ghost mv = m@;
            let r = Meta::Sequence(make_all_optional(v));
            assert(r@->Sequence_0 =~= optional_meta(mv)->Sequence_0);
            r
        },
    }
}

fn make_all_optional(v: Vec<Meta>) -> (r: Vec<Meta>)
    ensures
        r@.len() == v@.len(),
        forall|k: int| 0 <= k < v@.len() ==> (#[trigger] r@[k])@ == optional_meta(v@[k]@),
    decreases v,
{
    let ghost v0 = v;
    let mut src = v;
    let mut out: Vec<Meta> = Vec::new();
    let n = src.len();
    let mut i: usize = 0;
    while i < n
        invariant
            n == v0@.len(),
            v0 == v,
            i <= n,
            src@ == v0@.skip(i as int),
            out@.len() == i,
            forall|k: int| 0 <= k < i ==> (#[trigger] out@[k])@ == optional_meta(v0@[k]@),
        decreases n - i,
    {
        let x = src.remove(0);
        assert(x == v0@[i as int]);
        out.push(make_optional(x));
        assert(src@ =~= v0@.skip(i + 1));
        i = i + 1;
    }
    out
}

/// Two parsers run one after the other on the same evolving state.
pub struct Zip<A, B> {
    pub first: A,
    pub second: B,
}

/// Runs `first`, then `second` on what `first` left; both must succeed.
pub fn zip<A: Parser, B: Parser>(first: A, second: B) -> (r: Zip<A, B>)
    ensures
        r.first == first,
        r.second == second,
{
    Zip { first, second }
}

impl<A: Parser, B: Parser> Parser for Zip<A, B> {
    type Output = (A::Output, B::Output);

    open spec fn wf(&self) -> bool {
        self.first.wf() && self.second.wf()
    }

    open spec fn spec_meta(&self) -> MetaV {
        MetaV::Sequence(seq![self.first.spec_meta(), self.second.spec_meta()])
    }

    open spec fn spec_parse(&self, s: Seq<Token>) -> Outcome<(<A::Output as DeepView>::V, <B::Output as DeepView>::V)> {
        match self.first.spec_parse(s) {
            Ok((v1, s1)) => match self.second.spec_parse(s1) {
                Ok((v2, s2)) => Ok(((v1, v2), s2)),
                Err(e) => Err(e),
            },
            Err(e) => Err(e),
        }
    }

    fn meta(&self) -> (r: Meta) {
        let v = vec![self.first.meta(), self.second.meta()];
        let r = Meta::Sequence(v);
        assert(r@->Sequence_0 =~= seq![self.first.spec_meta(), self.second.spec_meta()]);
        r
    }

    fn run(&self, args: Args) -> (r: Result<(Self::Output, Args), Error>) {
        match self.first.run(args) {
            Ok((v1, a1)) => match self.second.run(a1) {
                Ok((v2, a2)) => Ok(((v1, v2), a2)),
                Err(e) => Err(e),
            },
            Err(e) => Err(e),
        }
    }
}

/// Left-biased alternation.
pub struct OrElse<A, B> {
    pub first: A,
    pub second: B,
}

/// Tries `first`; where it reports absence, tries `second` on the same starting state.
pub fn or_else<A: Parser, B: Parser<Output = A::Output>>(first: A, second: B) -> (r: OrElse<A, B>)
    ensures
        r.first == first,
        r.second == second,
{
    OrElse { first, second }
}

impl<A: Parser, B: Parser<Output = A::Output>> Parser for OrElse<A, B> {
    type Output = A::Output;

    open spec fn wf(&self) -> bool {
        self.first.wf() && self.second.wf()
    }

    open spec fn spec_meta(&self) -> MetaV {
        MetaV::Alternatives(seq![self.first.spec_meta(), self.second.spec_meta()])
    }

    open spec fn spec_parse(&self, s: Seq<Token>) -> Outcome<<A::Output as DeepView>::V> {
        match self.first.spec_parse(s) {
            Err(ErrorV::Missing(m1)) => match self.second.spec_parse(s) {
                Err(ErrorV::Missing(m2)) => Err(ErrorV::Missing(m1 + m2)),
                other => other,
            },
            other => other,
        }
    }

    fn meta(&self) -> (r: Meta) {
        let v = vec![self.first.meta(), self.second.meta()];
        let r = Meta::Alternatives(v);
        assert(r@->Alternatives_0 =~= seq![self.first.spec_meta(), self.second.spec_meta()]);
        r
    }

    fn run(&self, args: Args) -> (r: Result<(Self::Output, Args), Error>) {
        let again = args.duplicate();
        match self.first.run(args) {
            Err(Error::Missing(mut m1)) => match self.second.run(again) {
                Err(Error::Missing(mut m2)) => {
                    let ghost v1 = m1@;
                    let ghost v2 = m2@;
                    m1.append(&mut m2);
                    assert(m1@.map_values(|m: Meta| m@) =~= v1.map_values(|m: Meta| m@) + v2.map_values(|m: Meta| m@));
                    Err(Error::Missing(m1))
                },
                other => other,
            },
            other => other,
        }
    }
}

/// A parser whose absence gives `None`.
pub struct Optional<P> {
    pub inner: P,
}

/// Turns absence of `inner` into `None`; other failures still fail.
pub fn optional<P: Parser>(inner: P) -> (r: Optional<P>)
    ensures
        r.inner == inner,
{
    Optional { inner }
}

impl<P: Parser> Parser for Optional<P> {
    type Output = Option<P::Output>;

    open spec fn wf(&self) -> bool {
        self.inner.wf()
    }

    open spec fn spec_meta(&self) -> MetaV {
        optional_meta(self.inner.spec_meta())
    }

    open spec fn spec_parse(&self, s: Seq<Token>) -> Outcome<Option<<P::Output as DeepView>::V>> {
        match self.inner.spec_parse(s) {
            Ok((v, s1)) => Ok((Some(v), s1)),
            Err(ErrorV::Missing(_)) => Ok((None, s)),
            Err(e) => Err(e),
        }
    }

    fn meta(&self) -> (r: Meta) {
        make_optional(self.inner.meta())
    }

    fn run(&self, args: Args) -> (r: Result<(Self::Output, Args), Error>) {
        let again = args.duplicate();
        match self.inner.run(args) {
            Ok((v, a)) => Ok((Some(v), a)),
            Err(Error::Missing(_)) => Ok((None, again)),
            Err(e) => Err(e),
        }
    }
}

/// A parser whose absence gives a fixed value.
pub struct Fallback<P: Parser> {
    pub inner: P,
    pub default: P::Output,
}

/// Turns absence of `inner` into `default`; other failures still fail.
pub fn fallback<P: Parser>(inner: P, default: P::Output) -> (r: Fallback<P>)
    where
        P::Output: Copy,
    ensures
        r.inner == inner,
        r.default == default,
{
    Fallback { inner, default }
}

impl<P: Parser> Parser for Fallback<P> where P::Output: Copy {
    type Output = P::Output;

    open spec fn wf(&self) -> bool {
        self.inner.wf()
    }

    open spec fn spec_meta(&self) -> MetaV {
        optional_meta(self.inner.spec_meta())
    }

    open spec fn spec_parse(&self, s: Seq<Token>) -> Outcome<<P::Output as DeepView>::V> {
        match self.inner.spec_parse(s) {
            Err(ErrorV::Missing(_)) => Ok((self.default.deep_view(), s)),
            other => other,
        }
    }

    fn meta(&self) -> (r: Meta) {
        make_optional(self.inner.meta())
    }

    fn run(&self, args: Args) -> (r: Result<(Self::Output, Args), Error>) {
        let again = args.duplicate();
        match self.inner.run(args) {
            Err(Error::Missing(_)) => Ok((self.default, again)),
            other => other,
        }
    }
}

/// Repetition: what `inner` gives, again and again, while it succeeds and consumes tokens.
pub open spec fn many_parse<P: Parser>(p: P, s: Seq<Token>) -> Outcome<Seq<<P::Output as DeepView>::V>>
    decreases s.len(),
{
    match p.spec_parse(s) {
        Ok((v, s1)) => if s1.len() < s.len() {
            match many_parse(p, s1) {
                Ok((vs, s2)) => Ok((seq![v] + vs, s2)),
                Err(e) => Err(e),
            }
        } else {
            Ok((Seq::empty(), s))
        },
        Err(ErrorV::Missing(_)) => Ok((Seq::empty(), s)),
        Err(e) => Err(e),
    }
}

/// A parser run repeatedly, collecting its values in order.
pub struct Many<P> {
    pub inner: P,
}

/// Runs `inner` until it reports absence; zero matches give an empty list. A run that
/// succeeds without consuming a token ends the repetition, so that it always stops.
pub fn many<P: Parser>(inner: P) -> (r: Many<P>)
    ensures
        r.inner == inner,
{
    Many { inner }
}

impl<P: Parser> Parser for Many<P> {
    type Output = Vec<P::Output>;

    open spec fn wf(&self) -> bool {
        self.inner.wf()
    }

    open spec fn spec_meta(&self) -> MetaV {
        optional_meta(self.inner.spec_meta())
    }

    open spec fn spec_parse(&self, s: Seq<Token>) -> Outcome<Seq<<P::Output as DeepView>::V>> {
        many_parse(self.inner, s)
    }

    fn meta(&self) -> (r: Meta) {
        make_optional(self.inner.meta())
    }

    fn run(&self, args: Args) -> (r: Result<(Self::Output, Args), Error>) {
        let ghost s0 = args@;
        let mut out: Vec<P::Output> = Vec::new();
        let mut cur = args;
        loop
            invariant
                self.inner.wf(),
                s0 == args@,
                cur.spec_separated() == args.spec_separated(),
                match many_parse(self.inner, cur@) {
                    Ok((vs, s2)) => many_parse(self.inner, s0) == Outcome::<Seq<<P::Output as DeepView>::V>>::Ok((out.deep_view() + vs, s2)),
                    Err(e) => many_parse(self.inner, s0) == Outcome::<Seq<<P::Output as DeepView>::V>>::Err(e),
                },
            decreases cur@.len(),
        {
            let before = cur.len();
            let again = cur.duplicate();
            let ghost sc = cur@;
            match self.inner.run(cur) {
                Ok((v, a)) => {
                    if a.len() < before {
                        let ghost old_out = out.deep_view();
                        out.push(v);
                        proof {
                            assert(out.deep_view() =~= old_out + seq![v.deep_view()]);
                            match many_parse(self.inner, a@) {
                                Ok((vs, s2)) => {
                                    assert(old_out + (seq![v.deep_view()] + vs) =~= out.deep_view() + vs);
                                },
                                Err(e) => {},
                            }
                        }
                        cur = a;
                    } else {
                        proof {
                            assert(many_parse(self.inner, sc) == Outcome::<Seq<<P::Output as DeepView>::V>>::Ok((Seq::empty(), sc)));
                            assert(out.deep_view() + Seq::empty() =~= out.deep_view());
                        }
                        return Ok((out, again));
                    }
                },
                Err(Error::Missing(_)) => {
                    proof {
                        assert(out.deep_view() + Seq::empty() =~= out.deep_view());
                    }
                    return Ok((out, again));
                },
                Err(e) => {
                    assert(many_parse(self.inner, sc) == Outcome::<Seq<<P::Output as DeepView>::V>>::Err(e@));
                    return Err(e);
                },
            }
        }
    }
}

/// `f` can be called on any value and gives the same result, up to its deep view, for
/// values with the same deep view.
pub open spec fn pure_map<T: DeepView, U: DeepView, F: Fn(T) -> U>(f: F) -> bool {
    &&& forall|x: T| f.requires((x,))
    &&& forall|x: T, y: T, a: U, b: U|
        x.deep_view() == y.deep_view() && f.ensures((x,), a) && f.ensures((y,), b)
            ==> a.deep_view() == b.deep_view()
}

/// What `f` gives, in the model, for a value whose deep view is `v`.
pub open spec fn mapped<T: DeepView, U: DeepView, F: Fn(T) -> U>(f: F, v: T::V) -> U::V {
    let (x, u) = choose|x: T, u: U| x.deep_view() == v && #[trigger] f.ensures((x,), u);
    u.deep_view()
}

proof fn lemma_mapped<T: DeepView, U: DeepView, F: Fn(T) -> U>(f: F, x: T, u: U)
    requires
        pure_map(f),
        f.ensures((x,), u),
    ensures
        mapped(f, x.deep_view()) == u.deep_view(),
{
    assert(exists|x2: T, u2: U| x2.deep_view() == x.deep_view() && #[trigger] f.ensures((x2,), u2));
}

/// A parser whose value goes through a pure function.
pub struct Mapped<P, F> {
    pub inner: P,
    pub f: F,
}

/// Applies `f` to what `inner` gives; failures are those of `inner`, and the grammar is
/// that of `inner`.
pub fn map<P: Parser, U: DeepView, F: Fn(P::Output) -> U>(inner: P, f: F) -> (r: Mapped<P, F>)
    requires
        pure_map(f),
    ensures
        r.inner == inner,
        r.f == f,
        r.wf() == inner.wf(),
{
    Mapped { inner, f }
}

impl<P: Parser, U: DeepView, F: Fn(P::Output) -> U> Parser for Mapped<P, F> {
    type Output = U;

    open spec fn wf(&self) -> bool {
        self.inner.wf() && pure_map(self.f)
    }

    open spec fn spec_meta(&self) -> MetaV {
        self.inner.spec_meta()
    }

    open spec fn spec_parse(&self, s: Seq<Token>) -> Outcome<U::V> {
        match self.inner.spec_parse(s) {
            Ok((v, s1)) => Ok((mapped(self.f, v), s1)),
            Err(e) => Err(e),
        }
    }

    fn meta(&self) -> (r: Meta) {
        self.inner.meta()
    }

    fn run(&self, args: Args) -> (r: Result<(U, Args), Error>) {
        match self.inner.run(args) {
            Ok((v, a)) => {
                let u = (self.f)(v);
                proof {
                    lemma_mapped(self.f, v, u);
                }
                Ok((u, a))
            },
            Err(e) => Err(e),
        }
    }
}

/// `f` can be called on any value, and on values with the same deep view it accepts both or
/// neither, with the same value or the same message.
pub open spec fn pure_check_map<T: DeepView, U: DeepView, F: Fn(T) -> Result<U, String>>(f: F) -> bool {
    &&& forall|x: T| f.requires((x,))
    &&& forall|x: T, y: T, a: Result<U, String>, b: Result<U, String>|
        x.deep_view() == y.deep_view() && f.ensures((x,), a) && f.ensures((y,), b)
            ==> checked_view(a) == checked_view(b)
}

/// The model of what a fallible transform gives: a value's deep view or a message's text.
pub open spec fn checked_view<U: DeepView>(r: Result<U, String>) -> Result<U::V, Seq<char>> {
    match r {
        Ok(u) => Ok(u.deep_view()),
        Err(m) => Err(m@),
    }
}

/// What the fallible transform `f` gives, in the model, for a value whose deep view is `v`.
pub open spec fn checked<T: DeepView, U: DeepView, F: Fn(T) -> Result<U, String>>(f: F, v: T::V) -> Result<U::V, Seq<char>> {
    let (x, u) = choose|x: T, u: Result<U, String>| x.deep_view() == v && #[trigger] f.ensures((x,), u);
    checked_view(u)
}

proof fn lemma_checked<T: DeepView, U: DeepView, F: Fn(T) -> Result<U, String>>(f: F, x: T, u: Result<U, String>)
    requires
        pure_check_map(f),
        f.ensures((x,), u),
    ensures
        checked(f, x.deep_view()) == checked_view(u),
{
    assert(exists|x2: T, u2: Result<U, String>| x2.deep_view() == x.deep_view() && #[trigger] f.ensures((x2,), u2));
}

/// A parser whose value goes through a function that may reject it.
pub struct ParseWith<P, F> {
    pub inner: P,
    pub f: F,
}

/// Applies `f` to what `inner` gives; where `f` rejects the value, the parse fails with
/// `Message` holding `f`'s text, telling a present but invalid value from an absent one.
pub fn parse<P: Parser, U: DeepView, F: Fn(P::Output) -> Result<U, String>>(inner: P, f: F) -> (r: ParseWith<P, F>)
    requires
        pure_check_map(f),
    ensures
        r.inner == inner,
        r.f == f,
        r.wf() == inner.wf(),
{
    ParseWith { inner, f }
}

impl<P: Parser, U: DeepView, F: Fn(P::Output) -> Result<U, String>> Parser for ParseWith<P, F> {
    type Output = U;

    open spec fn wf(&self) -> bool {
        self.inner.wf() && pure_check_map(self.f)
    }

    open spec fn spec_meta(&self) -> MetaV {
        self.inner.spec_meta()
    }

    open spec fn spec_parse(&self, s: Seq<Token>) -> Outcome<U::V> {
        match self.inner.spec_parse(s) {
            Ok((v, s1)) => match checked(self.f, v) {
                Ok(w) => Ok((w, s1)),
                Err(m) => Err(ErrorV::Message(m)),
            },
            Err(e) => Err(e),
        }
    }

    fn meta(&self) -> (r: Meta) {
        self.inner.meta()
    }

    fn run(&self, args: Args) -> (r: Result<(U, Args), Error>) {
        match self.inner.run(args) {
            Ok((v, a)) => {
                let u = (self.f)(v);
                proof {
                    lemma_checked(self.f, v, u);
                }
                match u {
                    Ok(w) => Ok((w, a)),
                    Err(m) => Err(Error::Message(m)),
                }
            },
            Err(e) => Err(e),
        }
    }
}

} // verus!
