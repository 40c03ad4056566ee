use bpaf::{
    classify, command, fallback, long, many, optional, or_else, parse, positional, positional_if, short,
    zip, Args, Error, Item, ItemKind, Meta, Parser, Token,
};

fn args(v: &[&str]) -> Args {
    let raw: Vec<String> = v.iter().map(|s| s.to_string()).collect();
    Args::from_strings(&raw)
}

fn missing_longs(e: &Error) -> Vec<String> {
    match e {
        Error::Missing(metas) => metas
            .iter()
            .map(|m| match m {
                Meta::Leaf(Item { long: Some(l), .. }) => l.clone(),
                Meta::Leaf(Item { short: Some(c), .. }) => c.to_string(),
                _ => String::from("?"),
            })
            .collect(),
        _ => panic!("expected Missing, got {:?}", e),
    }
}

#[test]
fn long_flag_present() {
    let p = long("flag").flag(true, false);
    let (v, rest) = p.run(args(&["--flag"])).unwrap();
    assert!(v);
    assert_eq!(rest.len(), 0);
}

#[test]
fn long_flag_absent() {
    let p = long("flag").flag(true, false);
    let (v, rest) = p.run(args(&[])).unwrap();
    assert!(!v);
    assert_eq!(rest.len(), 0);
}

#[test]
fn short_argument_takes_next_word() {
    let p = short('n').argument("N");
    let (v, rest) = p.run(args(&["-n", "5"])).unwrap();
    assert_eq!(v, "5");
    assert_eq!(rest.len(), 0);
}

#[test]
fn short_argument_without_value_is_message() {
    let p = short('n').argument("N");
    match p.run(args(&["-n"])) {
        Err(Error::Message(m)) => assert_eq!(m, "option requires a value"),
        other => panic!("expected Message, got {:?}", other.map(|(v, _)| v)),
    }
}

#[test]
fn command_hands_tail_to_subparser() {
    let ws = long("workspace").help("Check all packages").switch();
    let check = command("check", Some("Check a package"), ws);
    let (v, rest) = check.run(args(&["check", "--workspace"])).unwrap();
    assert!(v);
    assert_eq!(rest.len(), 0);
}

#[test]
fn command_other_word_is_missing_with_name() {
    let ws = long("workspace").switch();
    let check = command("check", None, ws);
    match check.run(args(&["other"])) {
        Err(Error::Missing(metas)) => {
            assert_eq!(metas.len(), 1);
            match &metas[0] {
                Meta::Leaf(item) => {
                    assert_eq!(item.long.as_deref(), Some("check"));
                    assert_eq!(item.kind, ItemKind::Command);
                }
                _ => panic!("expected a leaf"),
            }
        }
        _ => panic!("expected Missing"),
    }
}

#[test]
fn sequenced_flags_order_independent() {
    let p = zip(short('a').switch(), short('b').switch());
    let (v1, r1) = p.run(args(&["-a", "-b"])).unwrap();
    let (v2, r2) = p.run(args(&["-b", "-a"])).unwrap();
    assert_eq!(v1, (true, true));
    assert_eq!(v1, v2);
    assert_eq!(r1.len(), 0);
    assert_eq!(r2.len(), 0);
}

#[test]
fn many_on_nothing_is_empty() {
    let (v, _) = many(short('v').req_flag(())).run(args(&[])).unwrap();
    assert!(v.is_empty());
    let (w, _) = many(positional("FILE")).run(args(&[])).unwrap();
    assert!(w.is_empty());
    let (x, _) = many(long("name").argument("N")).run(args(&[])).unwrap();
    assert!(x.is_empty());
}

#[test]
fn many_counts_repetitions() {
    let (v, rest) = many(short('v').req_flag(())).run(args(&["-v", "x", "-v", "-v"])).unwrap();
    assert_eq!(v.len(), 3);
    assert_eq!(rest.len(), 1);
}

#[test]
fn many_stops_where_nothing_is_consumed() {
    let (v, rest) = many(short('q').switch()).run(args(&["a"])).unwrap();
    assert!(v.is_empty());
    assert_eq!(rest.len(), 1);
}

#[test]
fn many_propagates_message() {
    let r = many(short('n').argument("N")).run(args(&["-n", "1", "-n"]));
    assert!(matches!(r, Err(Error::Message(_))));
}

#[test]
fn failed_leaf_leaves_state_alone() {
    let p = optional(long("name").argument("N"));
    let (v, rest) = p.run(args(&["a", "-x", "b"])).unwrap();
    assert_eq!(v, None);
    let toks = rest.into_tokens();
    assert_eq!(toks.len(), 3);
    assert!(matches!(&toks[0], Token::Word(w) if w.utf8.as_deref() == Some("a")));
    assert!(matches!(&toks[1], Token::Short('x', None)));
    assert!(matches!(&toks[2], Token::Word(w) if w.utf8.as_deref() == Some("b")));
}

#[test]
fn or_else_prefers_first() {
    let p = or_else(positional("A"), positional("B"));
    let (v, rest) = p.run(args(&["x", "y"])).unwrap();
    assert_eq!(v, "x");
    assert_eq!(rest.len(), 1);
    let q = or_else(long("on").req_flag(1u8), long("off").req_flag(2u8));
    let (w, _) = q.run(args(&["--off", "--on"])).unwrap();
    assert_eq!(w, 1);
}

#[test]
fn or_else_falls_back_to_second_on_original_state() {
    let q = or_else(long("on").req_flag(1u8), long("off").req_flag(2u8));
    let (w, rest) = q.run(args(&["--off"])).unwrap();
    assert_eq!(w, 2);
    assert_eq!(rest.len(), 0);
}

#[test]
fn or_else_joins_missing() {
    let q = or_else(long("on").req_flag(1u8), long("off").req_flag(2u8));
    match q.run(args(&[])) {
        Err(e) => assert_eq!(missing_longs(&e), vec!["on".to_string(), "off".to_string()]),
        Ok(_) => panic!("expected an error"),
    }
}

#[test]
fn or_else_does_not_mask_message() {
    let q = or_else(long("name").argument("N"), positional("P"));
    let r = q.run(args(&["x", "--name"]));
    assert!(matches!(r, Err(Error::Message(_))));
}

#[test]
fn separator_forces_words() {
    let (v, rest) = positional("X").run(args(&["--", "-x"])).unwrap();
    assert_eq!(v, "-x");
    assert_eq!(rest.len(), 0);
}

#[test]
fn separator_flag_is_recorded() {
    assert!(args(&["a", "--", "b"]).separated());
    assert!(!args(&["a", "b"]).separated());
}

#[test]
fn fallback_gives_default() {
    let p = fallback(long("level").req_flag(3u32), 7u32);
    assert_eq!(p.run(args(&[])).unwrap().0, 7);
    assert_eq!(p.run(args(&["--level"])).unwrap().0, 3);
}

#[test]
fn optional_gives_value() {
    let p = optional(short('o').argument("OUT"));
    assert_eq!(p.run(args(&["-oout.txt"])).unwrap().0, Some("out.txt".to_string()));
}

#[test]
fn long_argument_with_attached_value() {
    let p = short('n').long("name").argument("NAME");
    let (v, rest) = p.run(args(&["a", "--name=bob", "c"])).unwrap();
    assert_eq!(v, "bob");
    assert_eq!(rest.len(), 2);
}

#[test]
fn hidden_alias_matches() {
    let p = short('f').short('F').long("flag").long("Flag").switch();
    assert!(p.run(args(&["-F"])).unwrap().0);
    assert!(p.run(args(&["--Flag"])).unwrap().0);
    assert!(!p.run(args(&["--flags"])).unwrap().0);
    match p.meta() {
        Meta::Leaf(item) => {
            assert_eq!(item.short, Some('f'));
            assert_eq!(item.long.as_deref(), Some("flag"));
            assert!(!item.required);
        }
        _ => panic!("expected a leaf"),
    }
}

#[test]
fn argument_value_not_utf8() {
    let toks = vec![
        Token::Short('n', None),
        Token::Word(bpaf::Word { utf8: None }),
    ];
    let r = short('n').argument("N").run(Args::from_tokens(toks));
    match r {
        Err(Error::Message(m)) => assert_eq!(m, "not utf8"),
        _ => panic!("expected Message"),
    }
}

#[test]
fn required_positional_missing() {
    let r = positional("FILE").run(args(&["-x"]));
    match r {
        Err(Error::Missing(metas)) => match &metas[0] {
            Meta::Leaf(item) => {
                assert_eq!(item.metavar.as_deref(), Some("FILE"));
                assert_eq!(item.kind, ItemKind::Positional);
                assert!(item.required);
            }
            _ => panic!("expected a leaf"),
        },
        _ => panic!("expected Missing"),
    }
}

#[test]
fn positional_skips_flags() {
    let (v, rest) = positional("FILE").run(args(&["-x", "main.rs"])).unwrap();
    assert_eq!(v, "main.rs");
    assert_eq!(rest.len(), 1);
}

#[test]
fn positional_if_checks_first_word() {
    let p = positional_if("INPUT", |s: &str| s.len() < 4);
    let (v, rest) = p.run(args(&["abc", "d"])).unwrap();
    assert_eq!(v, Some("abc".to_string()));
    assert_eq!(rest.len(), 1);
    let (w, rest) = p.run(args(&["abcdef"])).unwrap();
    assert_eq!(w, None);
    assert_eq!(rest.len(), 1);
    let (x, _) = p.run(args(&[])).unwrap();
    assert_eq!(x, None);
    assert!(matches!(p.run(args(&["-q", "a"])), Err(Error::Missing(_))));
}

#[test]
fn req_flag_absent_is_missing() {
    let p = short('v').req_flag(());
    match p.run(args(&["x"])) {
        Err(e) => assert_eq!(missing_longs(&e), vec!["v".to_string()]),
        Ok(_) => panic!("expected an error"),
    }
}

#[test]
fn zip_meta_is_sequence() {
    let p = zip(short('a').switch(), positional("X"));
    match p.meta() {
        Meta::Sequence(v) => assert_eq!(v.len(), 2),
        _ => panic!("expected a sequence"),
    }
    let q = or_else(short('a').req_flag(1u8), short('b').req_flag(2u8));
    match q.meta() {
        Meta::Alternatives(v) => assert_eq!(v.len(), 2),
        _ => panic!("expected alternatives"),
    }
    match optional(positional("X")).meta() {
        Meta::Leaf(item) => assert!(!item.required),
        _ => panic!("expected a leaf"),
    }
}

#[test]
fn classify_tokens() {
    assert!(matches!(classify("-x"), Token::Short('x', None)));
    assert!(matches!(classify("-xval"), Token::Short('x', Some(w)) if w.utf8.as_deref() == Some("val")));
    assert!(matches!(classify("--name"), Token::Long(n, None) if n == "name"));
    assert!(matches!(classify("--name=v=w"), Token::Long(n, Some(w)) if n == "name" && w.utf8.as_deref() == Some("v=w")));
    assert!(matches!(classify("--"), Token::Separator));
    assert!(matches!(classify("-"), Token::Word(w) if w.utf8.as_deref() == Some("-")));
    assert!(matches!(classify("plain"), Token::Word(w) if w.utf8.as_deref() == Some("plain")));
}

#[test]
fn take_cmd_only_at_front() {
    let sub = short('q').switch();
    let p = command("build", None, sub);
    assert!(matches!(p.run(args(&["-q", "build"])), Err(Error::Missing(_))));
}

#[test]
fn map_counts_flags() {
    let p = bpaf::parser::map(many(short('v').req_flag(())), |v: Vec<()>| v.len());
    assert_eq!(p.run(args(&["-v", "-v", "-v"])).unwrap().0, 3);
    assert_eq!(p.run(args(&[])).unwrap().0, 0);
}

#[test]
fn map_keeps_missing() {
    let p = bpaf::parser::map(long("name").argument("N"), |s: String| s.len());
    assert!(matches!(p.run(args(&[])), Err(Error::Missing(_))));
}

#[test]
fn parse_rejects_with_message() {
    let p = parse(short('n').argument("N"), |s: String| {
        s.parse::<u32>().map_err(|_| "not a number".to_string())
    });
    assert_eq!(p.run(args(&["-n", "42"])).unwrap().0, 42);
    match p.run(args(&["-n", "x"])) {
        Err(Error::Message(m)) => assert_eq!(m, "not a number"),
        _ => panic!("expected Message"),
    }
    assert!(matches!(p.run(args(&[])), Err(Error::Missing(_))));
}

#[test]
fn raw_non_utf8_is_word_without_text() {
    let raw = vec![Some("-q".to_string()), None, Some("--".to_string()), None];
    let a = Args::from_raw(&raw);
    assert!(a.separated());
    let toks = a.into_tokens();
    assert_eq!(toks.len(), 3);
    assert!(matches!(&toks[0], Token::Short('q', None)));
    assert!(matches!(&toks[1], Token::Word(w) if w.utf8.is_none()));
    assert!(matches!(&toks[2], Token::Word(w) if w.utf8.is_none()));
}

#[test]
fn positional_if_declines_non_utf8_word() {
    let p = positional_if("INPUT", |s: &str| s.len() < 4);
    let a = Args::from_raw(&vec![None]);
    let (v, rest) = p.run(a).unwrap();
    assert_eq!(v, None);
    assert_eq!(rest.len(), 1);
    let r = positional("X").run(Args::from_raw(&vec![None]));
    match r {
        Err(Error::Message(m)) => assert_eq!(m, "not utf8"),
        _ => panic!("expected Message"),
    }
}

#[test]
fn optional_marks_nested_leaves() {
    let p = optional(zip(short('a').req_flag(1u8), positional("X")));
    match p.meta() {
        Meta::Sequence(v) => {
            assert_eq!(v.len(), 2);
            for m in v.iter() {
                match m {
                    Meta::Leaf(item) => assert!(!item.required),
                    _ => panic!("expected a leaf"),
                }
            }
        }
        _ => panic!("expected a sequence"),
    }
}

#[test]
fn sequenced_flags_order_independent_among_words() {
    let p = zip(short('a').flag(1u8, 0u8), long("bee").flag(2u8, 0u8));
    let (v1, r1) = p.run(args(&["x", "-a", "y", "--bee", "z"])).unwrap();
    let (v2, r2) = p.run(args(&["x", "--bee", "y", "-a", "z"])).unwrap();
    assert_eq!(v1, (1, 2));
    assert_eq!(v1, v2);
    let w1: Vec<Option<String>> = r1.into_tokens().into_iter().map(|t| match t {
        Token::Word(w) => w.utf8,
        _ => None,
    }).collect();
    let w2: Vec<Option<String>> = r2.into_tokens().into_iter().map(|t| match t {
        Token::Word(w) => w.utf8,
        _ => None,
    }).collect();
    assert_eq!(w1, vec![Some("x".to_string()), Some("y".to_string()), Some("z".to_string())]);
    assert_eq!(w1, w2);
}
