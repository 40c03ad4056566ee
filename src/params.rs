//! Leaf parsers: flags, switches, arguments, positionals and commands.
use crate::args::{
    after_arg, first_named, first_word, is_word_text, needs_value_text, value_for, Args, Token, Word,
};
use crate::info::{Error, ErrorV, Item, ItemKind, Meta, MetaV};
use crate::parser::{Outcome, Parser};
use vstd::prelude::*;
use vstd::string::*;

verus! {

/// Text of the error for a value that is not valid UTF-8.
pub open spec fn not_utf8_text() -> Seq<char> {
    "not utf8"@
}

fn not_utf8() -> (e: Error)
    ensures
        e@ == ErrorV::Message(not_utf8_text()),
{
    Error::Message(String::from_str("not utf8"))
}

/// The error for an absent required leaf.
fn missing(item: &Item) -> (e: Error)
    ensures
        e@ == ErrorV::Missing(seq![MetaV::Leaf(*item)]),
{
    let e = Error::Missing(vec![Meta::Leaf(item.copy())]);
    assert(e@->Missing_0 =~= seq![MetaV::Leaf(*item)]);
    e
}

/// A named thing used to create a flag, a switch or an argument.
#[derive(Clone, Debug)]
pub struct Named {
    pub short: Vec<char>,
    pub long: Vec<String>,
    pub help: Option<String>,
}

/// A flag, switch or argument with the short name `short`.
pub fn short(name: char) -> (r: Named)
    ensures
        r.short@ == seq![name],
        r.long@.len() == 0,
        r.help is None,
{
    Named { short: vec![name], long: Vec::new(), help: None }
}

/// A flag, switch or argument with the long name `long`.
pub fn long(name: &str) -> (r: Named)
    ensures
        r.short@.len() == 0,
        r.long@.len() == 1,
        r.long@[0]@ == name@,
        r.help is None,
{
    Named { short: Vec::new(), long: vec![String::from_str(name)], help: None }
}

/// The leaf item for a named thing: its first short and first long name, the rest being
/// hidden aliases.
pub open spec fn named_item(shorts: Seq<char>, longs: Seq<String>, help: Option<String>, metavar: Option<String>, required: bool) -> Item {
    Item {
        kind: ItemKind::Flag,
        short: if shorts.len() > 0 { Some(shorts[0]) } else { None },
        long: if longs.len() > 0 { Some(longs[0]) } else { None },
        metavar,
        help,
        required,
    }
}

fn make_named_item(shorts: &Vec<char>, longs: &Vec<String>, help: Option<String>, metavar: Option<String>, required: bool) -> (r: Item)
    ensures
        r == named_item(shorts@, longs@, help, metavar, required),
{
    Item {
        kind: ItemKind::Flag,
        short: if shorts.len() > 0 { Some(shorts[0]) } else { None },
        long: if longs.len() > 0 { Some(longs[0].clone()) } else { None },
        metavar,
        help,
        required,
    }
}

impl Named {
    /// Adds a short name; names past the first are hidden aliases.
    pub fn short(self, name: char) -> (r: Named)
        ensures
            r.short@ == self.short@.push(name),
            r.long@ == self.long@,
            r.help == self.help,
    {
        let mut r = self;
        r.short.push(name);
        r
    }

    /// Adds a long name; names past the first are hidden aliases.
    pub fn long(self, name: &str) -> (r: Named)
        ensures
            r.short@ == self.short@,
            r.long@.len() == self.long@.len() + 1,
            r.long@.take(self.long@.len() as int) == self.long@,
            r.long@.last()@ == name@,
            r.help == self.help,
    {
        let mut r = self;
        r.long.push(String::from_str(name));
        assert(r.long@.take(self.long@.len() as int) =~= self.long@);
        r
    }

    /// Sets the help text.
    pub fn help(self, text: &str) -> (r: Named)
        ensures
            r.short@ == self.short@,
            r.long@ == self.long@,
            r.help is Some && r.help->0@ == text@,
    {
        let mut r = self;
        r.help = Some(String::from_str(text));
        r
    }

    /// A boolean flag: `true` where present, `false` where absent.
    pub fn switch(self) -> (r: Flag<bool>)
        ensures
            r.present == true,
            r.absent == Some(false),
            r.shorts == self.short,
            r.longs == self.long,
            r.item == named_item(self.short@, self.long@, self.help, None, false),
    {
        build_flag_parser(true, Some(false), self.short, self.long, self.help)
    }

    /// A flag that gives `present` where present and `absent` where absent.
    pub fn flag<T: Copy + DeepView>(self, present: T, absent: T) -> (r: Flag<T>)
        ensures
            r.present == present,
            r.absent == Some(absent),
            r.shorts == self.short,
            r.longs == self.long,
            r.item == named_item(self.short@, self.long@, self.help, None, false),
    {
        build_flag_parser(present, Some(absent), self.short, self.long, self.help)
    }

    /// A required flag that gives `present`, and fails where absent.
    pub fn req_flag<T: Copy + DeepView>(self, present: T) -> (r: Flag<T>)
        ensures
            r.present == present,
            r.absent is None,
            r.shorts == self.short,
            r.longs == self.long,
            r.item == named_item(self.short@, self.long@, self.help, None, true),
    {
        build_flag_parser(present, None, self.short, self.long, self.help)
    }

    /// A required named argument whose value must be valid UTF-8.
    pub fn argument(self, metavar: &str) -> (r: Argument)
        ensures
            r.shorts == self.short,
            r.longs == self.long,
            r.item.metavar is Some && r.item.metavar->0@ == metavar@,
            r.item == named_item(self.short@, self.long@, self.help, r.item.metavar, true),
    {
        build_argument(self.short, self.long, self.help, metavar)
    }
}

/// A flag or switch.
pub struct Flag<T> {
    pub present: T,
    pub absent: Option<T>,
    pub shorts: Vec<char>,
    pub longs: Vec<String>,
    pub item: Item,
}

fn build_flag_parser<T: Copy + DeepView>(
    present: T,
    absent: Option<T>,
    shorts: Vec<char>,
    longs: Vec<String>,
    help: Option<String>,
) -> (r: Flag<T>)
    ensures
        r.present == present,
        r.absent == absent,
        r.shorts == shorts,
        r.longs == longs,
        r.item == named_item(shorts@, longs@, help, None, absent is None),
{
    let required = absent.is_none();
    let item = make_named_item(&shorts, &longs, help, None, required);
    Flag { present, absent, shorts, longs, item }
}

impl<T: Copy + DeepView> Parser for Flag<T> {
    type Output = T;

    open spec fn wf(&self) -> bool {
        true
    }

    open spec fn spec_meta(&self) -> MetaV {
        MetaV::Leaf(self.item)
    }

    open spec fn spec_parse(&self, s: Seq<Token>) -> Outcome<T::V> {
        match first_named(s, self.shorts@, self.longs@) {
            Some(k) => Ok((self.present.deep_view(), s.remove(k))),
            None => match self.absent {
                Some(a) => Ok((a.deep_view(), s)),
                None => Err(ErrorV::Missing(seq![MetaV::Leaf(self.item)])),
            },
        }
    }

    fn meta(&self) -> (r: Meta) {
        Meta::Leaf(self.item.copy())
    }

    fn run(&self, args: Args) -> (r: Result<(T, Args), Error>) {
        let mut args = args;
        if args.take_flag(&self.shorts, &self.longs) {
            Ok((self.present, args))
        } else {
            match self.absent {
                Some(a) => Ok((a, args)),
                None => Err(missing(&self.item)),
            }
        }
    }
}

/// A named argument.
pub struct Argument {
    pub shorts: Vec<char>,
    pub longs: Vec<String>,
    pub item: Item,
}

fn build_argument(shorts: Vec<char>, longs: Vec<String>, help: Option<String>, metavar: &str) -> (r: Argument)
    ensures
        r.shorts == shorts,
        r.longs == longs,
        r.item.metavar is Some && r.item.metavar->0@ == metavar@,
        r.item == named_item(shorts@, longs@, help, r.item.metavar, true),
{
    let item = make_named_item(&shorts, &longs, help, Some(String::from_str(metavar)), true);
    Argument { shorts, longs, item }
}

impl Parser for Argument {
    type Output = String;

    open spec fn wf(&self) -> bool {
        true
    }

    open spec fn spec_meta(&self) -> MetaV {
        MetaV::Leaf(self.item)
    }

    open spec fn spec_parse(&self, s: Seq<Token>) -> Outcome<Seq<char>> {
        match first_named(s, self.shorts@, self.longs@) {
            None => Err(ErrorV::Missing(seq![MetaV::Leaf(self.item)])),
            Some(k) => match value_for(s, k) {
                None => Err(ErrorV::Message(needs_value_text())),
                Some(w) => match w.utf8 {
                    Some(t) => Ok((t@, after_arg(s, k))),
                    None => Err(ErrorV::Message(not_utf8_text())),
                },
            },
        }
    }

    fn meta(&self) -> (r: Meta) {
        Meta::Leaf(self.item.copy())
    }

    fn run(&self, args: Args) -> (r: Result<(String, Args), Error>) {
        let mut args = args;
        match args.take_arg(&self.shorts, &self.longs) {
            Ok(Some(w)) => match w.utf8 {
                Some(t) => Ok((t, args)),
                None => Err(not_utf8()),
            },
            Ok(None) => Err(missing(&self.item)),
            Err(e) => Err(e),
        }
    }
}

/// The leaf item of a positional with the placeholder `metavar`.
pub open spec fn positional_item(metavar: Seq<char>, item: Item, required: bool) -> bool {
    &&& item.kind == ItemKind::Positional
    &&& item.short is None
    &&& item.long is None
    &&& item.metavar is Some && item.metavar->0@ == metavar
    &&& item.help is None
    &&& item.required == required
}

fn make_positional_item(metavar: &str, required: bool) -> (r: Item)
    ensures
        positional_item(metavar@, r, required),
{
    Item {
        kind: ItemKind::Positional,
        short: None,
        long: None,
        metavar: Some(String::from_str(metavar)),
        help: None,
        required,
    }
}

/// A required positional value.
pub struct Positional {
    pub item: Item,
}

/// A required positional value that must be valid UTF-8.
pub fn positional(metavar: &str) -> (r: Positional)
    ensures
        positional_item(metavar@, r.item, true),
{
    build_positional(metavar)
}

fn build_positional(metavar: &str) -> (r: Positional)
    ensures
        positional_item(metavar@, r.item, true),
{
    Positional { item: make_positional_item(metavar, true) }
}

impl Parser for Positional {
    type Output = String;

    open spec fn wf(&self) -> bool {
        true
    }

    open spec fn spec_meta(&self) -> MetaV {
        MetaV::Leaf(self.item)
    }

    open spec fn spec_parse(&self, s: Seq<Token>) -> Outcome<Seq<char>> {
        match first_word(s) {
            None => Err(ErrorV::Missing(seq![MetaV::Leaf(self.item)])),
            Some(k) => match s[k]->Word_0.utf8 {
                Some(t) => Ok((t@, s.remove(k))),
                None => Err(ErrorV::Message(not_utf8_text())),
            },
        }
    }

    fn meta(&self) -> (r: Meta) {
        Meta::Leaf(self.item.copy())
    }

    fn run(&self, args: Args) -> (r: Result<(String, Args), Error>) {
        let mut args = args;
        match args.take_positional_word() {
            Some(w) => match w.utf8 {
                Some(t) => Ok((t, args)),
                None => Err(not_utf8()),
            },
            None => Err(missing(&self.item)),
        }
    }
}

/// `check` accepts the text `t`.
pub open spec fn accepts<F: Fn(&str) -> bool>(check: F, t: Seq<char>) -> bool {
    exists|x: &str| x@ == t && check.ensures((x,), true)
}

/// `check` can be called on any text and answers the same for the same text.
pub open spec fn pure_check<F: Fn(&str) -> bool>(check: F) -> bool {
    &&& forall|x: &str| check.requires((x,))
    &&& forall|x: &str, y: &str, a: bool, b: bool|
        x@ == y@ && check.ensures((x,), a) && check.ensures((y,), b) ==> a == b
}

/// A positional value taken only where the earliest token is a word that passes a check.
pub struct PositionalIf<F> {
    pub item: Item,
    pub check: F,
}

/// A positional value taken only where the earliest token left is a UTF-8 word that `check`
/// accepts; otherwise nothing is consumed and the result is `None`.
pub fn positional_if<F: Fn(&str) -> bool>(metavar: &str, check: F) -> (r: PositionalIf<F>)
    requires
        pure_check(check),
    ensures
        positional_item(metavar@, r.item, false),
        r.check == check,
        r.wf(),
{
    build_positional_if(metavar, check)
}

fn build_positional_if<F: Fn(&str) -> bool>(metavar: &str, check: F) -> (r: PositionalIf<F>)
    requires
        pure_check(check),
    ensures
        positional_item(metavar@, r.item, false),
        r.check == check,
{
    PositionalIf { item: make_positional_item(metavar, false), check }
}

impl<F: Fn(&str) -> bool> Parser for PositionalIf<F> {
    type Output = Option<String>;

    open spec fn wf(&self) -> bool {
        pure_check(self.check)
    }

    open spec fn spec_meta(&self) -> MetaV {
        MetaV::Leaf(self.item)
    }

    open spec fn spec_parse(&self, s: Seq<Token>) -> Outcome<Option<Seq<char>>> {
        if s.len() == 0 {
            Ok((None, s))
        } else if s[0] is Word {
            let w = s[0]->Word_0;
            if w.utf8 is Some && accepts(self.check, w.utf8->0@) {
                Ok((Some(w.utf8->0@), s.remove(0)))
            } else {
                Ok((None, s))
            }
        } else {
            Err(ErrorV::Missing(seq![MetaV::Leaf(self.item)]))
        }
    }

    fn meta(&self) -> (r: Meta) {
        Meta::Leaf(self.item.copy())
    }

    fn run(&self, args: Args) -> (r: Result<(Option<String>, Args), Error>) {
        let mut args = args;
        let take = match args.peek() {
            Some(Token::Word(w)) => match &w.utf8 {
                Some(t) => {
                    let x = t.as_str();
                    let ok = (self.check)(x);
                    proof {
                        if !ok && accepts(self.check, t@) {
                            let y = choose|y: &str| y@ == t@ && self.check.ensures((y,), true);
                            assert(self.check.ensures((y,), true));
                        }
                    }
                    ok
                },
                None => false,
            },
            Some(_) => {
                return Err(missing(&self.item));
            },
            None => false,
        };
        if take {
            match args.take_positional_word() {
                Some(Word { utf8: Some(t) }) => Ok((Some(t), args)),
                _ => Ok((None, args)),
            }
        } else {
            Ok((None, args))
        }
    }
}

/// A subcommand: a leading word that hands the tokens after it to its own parser.
pub struct Command<P> {
    pub name: String,
    pub item: Item,
    pub sub: P,
}

/// The leaf item of a command named `name`.
pub open spec fn command_item(name: Seq<char>, help: Option<Seq<char>>, item: Item) -> bool {
    &&& item.kind == ItemKind::Command
    &&& item.short is None
    &&& item.long is Some && item.long->0@ == name
    &&& item.metavar is None
    &&& match help {
        Some(h) => item.help is Some && item.help->0@ == h,
        None => item.help is None,
    }
    &&& item.required
}

/// A subcommand `name`, with its own help text, whose tokens `subparser` parses.
pub fn command<P: Parser>(name: &str, help: Option<&str>, subparser: P) -> (r: Command<P>)
    ensures
        r.name@ == name@,
        command_item(name@, match help { Some(h) => Some(h@), None => None }, r.item),
        r.sub == subparser,
{
    let item = Item {
        kind: ItemKind::Command,
        short: None,
        long: Some(String::from_str(name)),
        metavar: None,
        help: match help {
            Some(h) => Some(String::from_str(h)),
            None => None,
        },
        required: true,
    };
    Command { name: String::from_str(name), item, sub: subparser }
}

impl<P: Parser> Parser for Command<P> {
    type Output = P::Output;

    open spec fn wf(&self) -> bool {
        self.sub.wf()
    }

    open spec fn spec_meta(&self) -> MetaV {
        MetaV::Leaf(self.item)
    }

    open spec fn spec_parse(&self, s: Seq<Token>) -> Outcome<<P::Output as DeepView>::V> {
        if s.len() > 0 && is_word_text(s[0], self.name@) {
            self.sub.spec_parse(s.remove(0))
        } else {
            Err(ErrorV::Missing(seq![MetaV::Leaf(self.item)]))
        }
    }

    fn meta(&self) -> (r: Meta) {
        Meta::Leaf(self.item.copy())
    }

    fn run(&self, args: Args) -> (r: Result<(P::Output, Args), Error>) {
        let mut args = args;
        if args.take_cmd(self.name.as_str()) {
            self.sub.run(args)
        } else {
            Err(missing(&self.item))
        }
    }
}

} // verus!
