use crate::info::{Error, ErrorV};
use vstd::prelude::*;
use vstd::string::*;

verus! {

/// A plain value taken from the command line.
#[derive(Clone, Debug)]
pub struct Word {
    /// The value as text, or `None` where it is not valid UTF-8.
    pub utf8: Option<String>,
}

/// One classified command-line token.
#[derive(Clone, Debug)]
pub enum Token {
    /// A plain value.
    Word(Word),
    /// `-x`, or `-xVALUE` with an attached value.
    Short(char, Option<Word>),
    /// `--name`, or `--name=VALUE` with an attached value.
    Long(String, Option<Word>),
    /// The literal `--`, after which every token is a plain value.
    Separator,
}

/// `w` holds the text `s`.
pub open spec fn word_text(w: Word, s: Seq<char>) -> bool {
    w.utf8 is Some && w.utf8->0@ == s
}

/// `v` is what follows the name of a flag, where `rest` is the text after the name
/// and `present` says whether an attached value was written.
pub open spec fn attached_text(v: Option<Word>, present: bool, rest: Seq<char>) -> bool {
    if present {
        v is Some && word_text(v->0, rest)
    } else {
        v is None
    }
}

/// Index of the first `c` in `s` at or after `i`, or the length of `s`.
pub open spec fn first_index_of(s: Seq<char>, c: char, i: int) -> int
    decreases s.len() - i,
{
    if i < 0 || i >= s.len() {
        s.len() as int
    } else if s[i] == c {
        i
    } else {
        first_index_of(s, c, i + 1)
    }
}

/// `t` is the classification of the raw argument `s`.
pub open spec fn classifies(t: Token, s: Seq<char>) -> bool {
    if s == seq!['-', '-'] {
        t is Separator
    } else if s.len() >= 3 && s[0] == '-' && s[1] == '-' {
        let body = s.skip(2);
        let e = first_index_of(body, '=', 0);
        match t {
            Token::Long(n, v) => n@ == body.take(e) && attached_text(v, e < body.len(), body.skip(e + 1)),
            _ => false,
        }
    } else if s.len() >= 2 && s[0] == '-' {
        match t {
            Token::Short(c, v) => c == s[1] && attached_text(v, s.len() > 2, s.skip(2)),
            _ => false,
        }
    } else {
        t is Word && word_text(t->Word_0, s)
    }
}

fn text_word(s: &str) -> (w: Word)
    ensures
        word_text(w, s@),
{
    Word { utf8: Some(String::from_str(s)) }
}

/// Classifies one raw argument.
pub fn classify(s: &str) -> (t: Token)
    ensures
        classifies(t, s@),
{
    let n = s.unicode_len();
    if n >= 2 && s.get_char(0) == '-' && s.get_char(1) == '-' {
        if n == 2 {
            assert(s@ =~= seq!['-', '-']);
            return Token::Separator;
        }
        let ghost body = s@.skip(2);
        let mut e: usize = 2;
        while e < n && s.get_char(e) != '='
            invariant
                2 <= e <= n,
                n == s@.len(),
                body == s@.skip(2),
                first_index_of(body, '=', 0) == first_index_of(body, '=', e - 2),
            decreases n - e,
        {
            assert(body[e - 2] == s@[e as int]);
            e = e + 1;
        }
        assert(e < n ==> body[e - 2] == s@[e as int]);
        let name = String::from_str(s.substring_char(2, e));
        assert(name@ =~= body.take(e - 2));
        if e < n {
            let v = text_word(s.substring_char(e + 1, n));
            assert(body.skip(e - 2 + 1) =~= s@.subrange(e + 1, n as int));
            Token::Long(name, Some(v))
        } else {
            Token::Long(name, None)
        }
    } else if n >= 2 && s.get_char(0) == '-' {
        assert(s@ != seq!['-', '-']);
        let c = s.get_char(1);
        if n > 2 {
            let v = text_word(s.substring_char(2, n));
            assert(s@.skip(2) =~= s@.subrange(2, n as int));
            Token::Short(c, Some(v))
        } else {
            Token::Short(c, None)
        }
    } else {
        assert(s@ != seq!['-', '-']);
        Token::Word(text_word(s))
    }
}

impl Word {
    /// A copy equal to `self`.
    pub fn copy(&self) -> (r: Word)
        ensures
            r == *self,
    {
        match &self.utf8 {
            Some(s) => Word { utf8: Some(s.clone()) },
            None => Word { utf8: None },
        }
    }
}

fn copy_attached(v: &Option<Word>) -> (r: Option<Word>)
    ensures
        r == *v,
{
    match v {
        Some(w) => Some(w.copy()),
        None => None,
    }
}

impl Token {
    /// A copy equal to `self`.
    pub fn copy(&self) -> (r: Token)
        ensures
            r == *self,
    {
        match self {
            Token::Word(w) => Token::Word(w.copy()),
            Token::Short(c, v) => Token::Short(*c, copy_attached(v)),
            Token::Long(n, v) => Token::Long(n.clone(), copy_attached(v)),
            Token::Separator => Token::Separator,
        }
    }
}

/// `t` is a flag named by one of `shorts` or `longs`.
pub open spec fn names(t: Token, shorts: Seq<char>, longs: Seq<String>) -> bool {
    match t {
        Token::Short(c, _) => shorts.contains(c),
        Token::Long(n, _) => exists|i: int| 0 <= i < longs.len() && #[trigger] longs[i]@ == n@,
        _ => false,
    }
}

/// `t` is the word `name`.
pub open spec fn is_word_text(t: Token, name: Seq<char>) -> bool {
    t is Word && word_text(t->Word_0, name)
}

/// Index of the first token of `s` at or after `i` that `p` holds of.
pub open spec fn first_from(s: Seq<Token>, p: spec_fn(Token) -> bool, i: int) -> Option<int>
    decreases s.len() - i,
{
    if i < 0 || i >= s.len() {
        None
    } else if p(s[i]) {
        Some(i)
    } else {
        first_from(s, p, i + 1)
    }
}

pub open spec fn named_by(shorts: Seq<char>, longs: Seq<String>) -> spec_fn(Token) -> bool {
    |t: Token| names(t, shorts, longs)
}

pub open spec fn word_token() -> spec_fn(Token) -> bool {
    |t: Token| t is Word
}

/// Index of the first flag of `s` named by `shorts` or `longs`.
pub open spec fn first_named(s: Seq<Token>, shorts: Seq<char>, longs: Seq<String>) -> Option<int> {
    first_from(s, named_by(shorts, longs), 0)
}

/// Index of the first word of `s`.
pub open spec fn first_word(s: Seq<Token>) -> Option<int> {
    first_from(s, word_token(), 0)
}

pub proof fn lemma_first_from_bounds(s: Seq<Token>, p: spec_fn(Token) -> bool, i: int)
    ensures
        first_from(s, p, i) matches Some(k) ==> i <= k < s.len() && p(s[k])
            && forall|j: int| i <= j < k ==> !p(#[trigger] s[j]),
        first_from(s, p, i) is None ==> forall|j: int| 0 <= i <= j < s.len() ==> !p(#[trigger] s[j]),
    decreases s.len() - i,
{
    if 0 <= i < s.len() && !p(s[i]) {
        lemma_first_from_bounds(s, p, i + 1);
    }
}

fn contains_char(v: &Vec<char>, c: char) -> (r: bool)
    ensures
        r == v@.contains(c),
{
    let mut i: usize = 0;
    while i < v.len()
        invariant
            i <= v@.len(),
            forall|j: int| 0 <= j < i ==> v@[j] != c,
        decreases v.len() - i,
    {
        if v[i] == c {
            assert(v@[i as int] == c);
            return true;
        }
        i = i + 1;
    }
    false
}

fn contains_name(v: &Vec<String>, n: &String) -> (r: bool)
    ensures
        r == exists|i: int| 0 <= i < v@.len() && #[trigger] v@[i]@ == n@,
{
    let mut i: usize = 0;
    while i < v.len()
        invariant
            i <= v@.len(),
            forall|j: int| 0 <= j < i ==> v@[j]@ != n@,
        decreases v.len() - i,
    {
        if v[i] == *n {
            assert(v@[i as int]@ == n@);
            return true;
        }
        i = i + 1;
    }
    false
}

/// Where `p` holds at `k` and at no index from `i` up to `k`, the search from `i` finds `k`.
pub proof fn lemma_first_from_at(s: Seq<Token>, p: spec_fn(Token) -> bool, i: int, k: int)
    requires
        0 <= i <= k < s.len(),
        p(s[k]),
        forall|j: int| i <= j < k ==> !p(#[trigger] s[j]),
    ensures
        first_from(s, p, i) == Some(k),
    decreases k - i,
{
    if i < k {
        lemma_first_from_at(s, p, i + 1, k);
    }
}

/// Tells whether `t` is a flag named by one of `shorts` or `longs`.
fn short_or_long_flag(t: &Token, shorts: &Vec<char>, longs: &Vec<String>) -> (r: bool)
    ensures
        r == names(*t, shorts@, longs@),
{
    match t {
        Token::Short(c, _) => contains_char(shorts, *c),
        Token::Long(n, _) => contains_name(longs, n),
        _ => false,
    }
}

/// The tokens that are left to be consumed.
#[derive(Debug)]
pub struct Args {
    items: Vec<Token>,
    separated: bool,
}

impl View for Args {
    type V = Seq<Token>;

    closed spec fn view(&self) -> Seq<Token> {
        self.items@
    }
}

/// `a` is the raw argument `--`.
pub open spec fn is_separator_text(a: Option<String>) -> bool {
    a matches Some(t) && t@ == seq!['-', '-']
}

/// Index of the first `--` in `raw` at or after `i`, or the length of `raw`.
pub open spec fn first_separator(raw: Seq<Option<String>>, i: int) -> int
    decreases raw.len() - i,
{
    if i < 0 || i >= raw.len() {
        raw.len() as int
    } else if is_separator_text(raw[i]) {
        i
    } else {
        first_separator(raw, i + 1)
    }
}

pub proof fn lemma_first_separator(raw: Seq<Option<String>>, i: int)
    requires
        0 <= i <= raw.len(),
    ensures
        i <= first_separator(raw, i) <= raw.len(),
        first_separator(raw, i) < raw.len() ==> is_separator_text(raw[first_separator(raw, i)]),
        forall|j: int| i <= j < first_separator(raw, i) ==> !is_separator_text(#[trigger] raw[j]),
    decreases raw.len() - i,
{
    if i < raw.len() && !is_separator_text(raw[i]) {
        lemma_first_separator(raw, i + 1);
    }
}

/// `t` is the classification of the raw argument `a`, where `None` stands for an argument
/// that is not valid UTF-8: such an argument is a word without text.
pub open spec fn classifies_raw(t: Token, a: Option<String>) -> bool {
    match a {
        Some(s) => classifies(t, s@),
        None => t is Word && t->Word_0.utf8 is None,
    }
}

/// `t` is the raw argument `a` taken as a plain word.
pub open spec fn word_of_raw(t: Token, a: Option<String>) -> bool {
    match a {
        Some(s) => is_word_text(t, s@),
        None => t is Word && t->Word_0.utf8 is None,
    }
}

/// `toks` is what the raw arguments `raw` classify to: before the first `--` each one as
/// `classify` gives it; that `--` dropped; everything after it a word.
pub open spec fn lexed(raw: Seq<Option<String>>, toks: Seq<Token>) -> bool {
    let p = first_separator(raw, 0);
    &&& toks.len() == if p < raw.len() { raw.len() - 1 } else { raw.len() as int }
    &&& forall|j: int| 0 <= j < p ==> classifies_raw(#[trigger] toks[j], raw[j])
    &&& forall|j: int| p <= j < toks.len() ==> word_of_raw(#[trigger] toks[j], raw[j + 1])
}

/// Arguments that all decoded as UTF-8.
pub open spec fn decoded(raw: Seq<String>) -> Seq<Option<String>> {
    raw.map_values(|t: String| Some(t))
}

/// The value attached to a flag token.
pub open spec fn attached_of(t: Token) -> Option<Word> {
    match t {
        Token::Short(_, v) => v,
        Token::Long(_, v) => v,
        _ => None,
    }
}

impl Args {
    /// Whether a `--` was passed while the state was classified.
    pub closed spec fn spec_separated(&self) -> bool {
        self.separated
    }

    /// Classifies raw arguments into a fresh state; `None` stands for an argument that is
    /// not valid UTF-8.
    pub fn from_raw(raw: &Vec<Option<String>>) -> (r: Args)
        ensures
            lexed(raw@, r@),
            r.spec_separated() == (first_separator(raw@, 0) < raw@.len()),
    {
        let mut items: Vec<Token> = Vec::new();
        let mut separated = false;
        let mut i: usize = 0;
        let ghost p = first_separator(raw@, 0);
        proof {
            lemma_first_separator(raw@, 0);
        }
        while i < raw.len()
            invariant
                i <= raw@.len(),
                p == first_separator(raw@, 0),
                0 <= p <= raw@.len(),
                p < raw@.len() ==> is_separator_text(raw@[p]),
                forall|j: int| 0 <= j < p ==> !is_separator_text(#[trigger] raw@[j]),
                separated == (p < i),
                !separated ==> items@.len() == i,
                separated ==> items@.len() == i - 1,
                forall|j: int| 0 <= j < items@.len() && j < p ==> classifies_raw(#[trigger] items@[j], raw@[j]),
                forall|j: int| p <= j < items@.len() ==> word_of_raw(#[trigger] items@[j], raw@[j + 1]),
            decreases raw.len() - i,
        {
            match &raw[i] {
                None => {
                    items.push(Token::Word(Word { utf8: None }));
                },
                Some(a) => {
                    if separated {
                        items.push(Token::Word(text_word(a.as_str())));
                    } else {
                        let t = classify(a.as_str());
                        if matches!(t, Token::Separator) {
                            separated = true;
                        } else {
                            items.push(t);
                        }
                    }
                },
            }
            i = i + 1;
        }
        Args { items, separated }
    }

    /// Classifies raw arguments, all valid UTF-8, into a fresh state.
    pub fn from_strings(raw: &Vec<String>) -> (r: Args)
        ensures
            lexed(decoded(raw@), r@),
            r.spec_separated() == (first_separator(decoded(raw@), 0) < raw@.len()),
    {
        let mut opt: Vec<Option<String>> = Vec::new();
        let mut i: usize = 0;
        while i < raw.len()
            invariant
                i <= raw@.len(),
                opt@ =~= decoded(raw@).take(i as int),
            decreases raw.len() - i,
        {
            opt.push(Some(raw[i].clone()));
            i = i + 1;
        }
        assert(opt@ =~= decoded(raw@));
        Args::from_raw(&opt)
    }

    /// A state holding `items`, in order, with no `--` passed.
    pub fn from_tokens(items: Vec<Token>) -> (r: Args)
        ensures
            r@ == items@,
            !r.spec_separated(),
    {
        Args { items, separated: false }
    }

    /// Whether a `--` was passed while the state was classified.
    pub fn separated(&self) -> (r: bool)
        ensures
            r == self.spec_separated(),
    {
        self.separated
    }

    /// The number of tokens left.
    pub fn len(&self) -> (r: usize)
        ensures
            r == self@.len(),
    {
        self.items.len()
    }

    /// The tokens left, in order.
    pub fn into_tokens(self) -> (r: Vec<Token>)
        ensures
            r@ == self@,
    {
        self.items
    }

    /// A state equal to this one.
    pub fn duplicate(&self) -> (r: Args)
        ensures
            r@ == self@,
            r.spec_separated() == self.spec_separated(),
    {
        let mut items: Vec<Token> = Vec::new();
        let mut i: usize = 0;
        while i < self.items.len()
            invariant
                i <= self.items@.len(),
                items@ == self.items@.take(i as int),
            decreases self.items.len() - i,
        {
            items.push(self.items[i].copy());
            i = i + 1;
            assert(items@ =~= self.items@.take(i as int));
        }
        assert(self.items@.take(i as int) =~= self.items@);
        Args { items, separated: self.separated }
    }

    /// The earliest token left, without taking it.
    pub fn peek(&self) -> (r: Option<&Token>)
        ensures
            match r {
                Some(t) => self@.len() > 0 && *t == self@[0],
                None => self@.len() == 0,
            },
    {
        if self.items.len() > 0 {
            Some(&self.items[0])
        } else {
            None
        }
    }

    /// Index of the first flag named by `shorts` or `longs`.
    fn find_named(&self, shorts: &Vec<char>, longs: &Vec<String>) -> (r: Option<usize>)
        ensures
            match first_named(self@, shorts@, longs@) {
                Some(k) => r is Some && r->0 == k && k < self@.len(),
                None => r is None,
            },
    {
        proof {
            lemma_first_from_bounds(self@, named_by(shorts@, longs@), 0);
        }
        let ghost p = named_by(shorts@, longs@);
        let mut i: usize = 0;
        while i < self.items.len()
            invariant
                i <= self@.len(),
                p == named_by(shorts@, longs@),
                first_from(self@, p, 0) == first_from(self@, p, i as int),
            decreases self.items.len() - i,
        {
            if short_or_long_flag(&self.items[i], shorts, longs) {
                return Some(i);
            }
            i = i + 1;
        }
        None
    }

    /// Takes the first flag named by `shorts` or `longs`, and tells whether there was one.
    pub fn take_flag(&mut self, shorts: &Vec<char>, longs: &Vec<String>) -> (r: bool)
        ensures
            final(self).spec_separated() == old(self).spec_separated(),
            match first_named(old(self)@, shorts@, longs@) {
                Some(k) => r && final(self)@ == old(self)@.remove(k),
                None => !r && final(self)@ == old(self)@,
            },
    {
        let found = self.find_named(shorts, longs);
        assert(self@ == self.items@);
        match found {
            Some(k) => {
                self.items.remove(k);
                true
            },
            None => false,
        }
    }

    /// Takes the first word, wherever it stands among the flags.
    pub fn take_positional_word(&mut self) -> (r: Option<Word>)
        ensures
            final(self).spec_separated() == old(self).spec_separated(),
            match first_word(old(self)@) {
                Some(k) => r == Some(old(self)@[k]->Word_0) && final(self)@ == old(self)@.remove(k),
                None => r is None && final(self)@ == old(self)@,
            },
    {
        proof {
            lemma_first_from_bounds(self@, word_token(), 0);
        }
        let ghost p = word_token();
        let mut i: usize = 0;
        while i < self.items.len()
            invariant
                i <= self@.len(),
                self@ == old(self)@,
                self.separated == old(self).separated,
                p == word_token(),
                first_from(self@, p, 0) == first_from(self@, p, i as int),
            decreases self.items.len() - i,
        {
            if matches!(self.items[i], Token::Word(_)) {
                let t = self.items.remove(i);
                return match t {
                    Token::Word(w) => Some(w),
                    _ => None,
                };
            }
            i = i + 1;
        }
        None
    }

    /// Takes the earliest token where it is the word `name`.
    pub fn take_cmd(&mut self, name: &str) -> (r: bool)
        ensures
            final(self).spec_separated() == old(self).spec_separated(),
            r == (old(self)@.len() > 0 && is_word_text(old(self)@[0], name@)),
            r ==> final(self)@ == old(self)@.remove(0),
            !r ==> final(self)@ == old(self)@,
    {
        if self.items.len() == 0 {
            return false;
        }
        let hit = match &self.items[0] {
            Token::Word(w) => match &w.utf8 {
                Some(s) => str_eq(s.as_str(), name),
                None => false,
            },
            _ => false,
        };
        if hit {
            self.items.remove(0);
        }
        hit
    }
}

impl Args {
    /// Takes the first flag named by `shorts` or `longs` together with its value: the value
    /// attached to it, or else the word right after it.
    pub fn take_arg(&mut self, shorts: &Vec<char>, longs: &Vec<String>) -> (r: Result<Option<Word>, Error>)
        ensures
            final(self).spec_separated() == old(self).spec_separated(),
            match first_named(old(self)@, shorts@, longs@) {
                None => r matches Ok(None) && final(self)@ == old(self)@,
                Some(k) => match value_for(old(self)@, k) {
                    Some(w) => r == Ok::<Option<Word>, Error>(Some(w)) && final(self)@ == after_arg(old(self)@, k),
                    None => r is Err && r->Err_0@ == ErrorV::Message(needs_value_text()) && final(self)@ == old(self)@,
                },
            },
    {
        let found = self.find_named(shorts, longs);
        assert(self@ == self.items@);
        match found {
            None => Ok(None),
            Some(k) => {
                let attached = match &self.items[k] {
                    Token::Short(_, Some(_)) => true,
                    Token::Long(_, Some(_)) => true,
                    _ => false,
                };
                if attached {
                    let t = self.items.remove(k);
                    match t {
                        Token::Short(_, v) => Ok(v),
                        Token::Long(_, v) => Ok(v),
                        _ => Ok(None),
                    }
                } else if k < self.items.len() - 1 && matches!(self.items[k + 1], Token::Word(_)) {
                    let ghost s = self@;
                    let _flag = self.items.remove(k);
                    let t = self.items.remove(k);
                    assert(self.items@ =~= s.take(k as int) + s.skip(k + 2));
                    match t {
                        Token::Word(w) => Ok(Some(w)),
                        _ => Ok(None),
                    }
                } else {
                    Err(Error::Message(String::from_str("option requires a value")))
                }
            },
        }
    }
}

/// Text of the error for a flag that has no value.
pub open spec fn needs_value_text() -> Seq<char> {
    "option requires a value"@
}

/// The value that goes with the flag at `k`: the one attached to it, or else the word after it.
pub open spec fn value_for(s: Seq<Token>, k: int) -> Option<Word> {
    if attached_of(s[k]) is Some {
        attached_of(s[k])
    } else if k + 1 < s.len() && s[k + 1] is Word {
        Some(s[k + 1]->Word_0)
    } else {
        None
    }
}

/// Tells whether two strings hold the same characters.
fn str_eq(a: &str, b: &str) -> (r: bool)
    ensures
        r == (a@ == b@),
{
    let n = a.unicode_len();
    if n != b.unicode_len() {
        return false;
    }
    let mut i: usize = 0;
    while i < n
        invariant
            i <= n,
            n == a@.len(),
            n == b@.len(),
            forall|j: int| 0 <= j < i ==> a@[j] == b@[j],
        decreases n - i,
    {
        if a.get_char(i) != b.get_char(i) {
            return false;
        }
        i = i + 1;
    }
    assert(a@ =~= b@);
    true
}

/// What a state holds after `take_arg` finds the flag at `i` and reads its value.
pub open spec fn after_arg(s: Seq<Token>, i: int) -> Seq<Token> {
    if attached_of(s[i]) is Some {
        s.remove(i)
    } else {
        s.take(i) + s.skip(i + 2)
    }
}

} // verus!
