use kobler::parser::{Arg, InvalidArgument};

fn toks(s: &str) -> Vec<String> {
    kobler::parser::tokenize(s)
}

#[test]
fn parser() {
    assert_eq!(
        Arg::try_parse(&toks("wzorzec --chojraczka")).ok(),
        Some(vec![
            Arg::Plain("wzorzec".to_owned()),
            Arg::Long("chojraczka".to_owned(), vec![])
        ])
    );
    assert_eq!(
        Arg::try_parse(&toks("broń dodaj -n rozkurwiator -wC --zasięg B")).ok(),
        Some(vec![
            Arg::Plain("broń".to_owned()),
            Arg::Plain("dodaj".to_owned()),
            Arg::Short('n', vec!["rozkurwiator".to_owned()]),
            Arg::Short('w', vec!["c".to_owned()]),
            Arg::Long("zasięg".to_owned(), vec!["b".to_owned()])
        ])
    );
    assert_eq!(
        Arg::try_parse(&toks("próba -s -nK")).ok(),
        Some(vec![
            Arg::Plain("próba".to_owned()),
            Arg::Short('s', vec![]),
            Arg::Short('n', vec!["k".to_owned()]),
        ])
    );
    assert_eq!(
        Arg::try_parse(&toks("bitwa -m 1")).ok(),
        Some(vec![
            Arg::Plain("bitwa".to_owned()),
            Arg::Short('m', vec!["1".to_owned()]),
        ])
    );
    assert_eq!(
        Arg::try_parse(&toks("zanik 2 -z")).ok(),
        Some(vec![
            Arg::Plain("zanik".to_owned()),
            Arg::Plain("2".to_owned()),
            Arg::Short('z', vec![]),
        ])
    );
}

#[test]
fn parser_lone_dash_is_malformed() {
    assert!(Arg::try_parse(&toks("zanik - 2")).is_err());
    assert!(Arg::try_parse(&toks("-")).is_err());
}

#[test]
fn parser_uppercase_is_lowered() {
    assert_eq!(
        Arg::try_parse(&toks("WZORZEC --CHOJRACZKA Tak")).ok(),
        Some(vec![
            Arg::Plain("wzorzec".to_owned()),
            Arg::Long("chojraczka".to_owned(), vec!["tak".to_owned()])
        ])
    );
}

#[test]
fn parser_short_key_lowered_and_attached_value_split() {
    assert_eq!(
        Arg::try_parse(&toks("-Wcd xyz -p")).ok(),
        Some(vec![
            Arg::Short('w', vec!["cd".to_owned(), "xyz".to_owned()]),
            Arg::Short('p', vec![]),
        ])
    );
}

#[test]
fn parser_double_dash_alone_is_long_with_empty_name() {
    assert_eq!(
        Arg::try_parse(&toks("-- abc")).ok(),
        Some(vec![Arg::Long("".to_owned(), vec!["abc".to_owned()])])
    );
}

#[test]
fn invalid_argument_message() {
    let e = InvalidArgument::new("xyz".to_owned());
    assert_eq!(e.message(), "niepoprawny argument: xyz");
}

#[test]
fn tokenize_splits_on_spaces() {
    assert_eq!(
        kobler::parser::tokenize("a  b c"),
        vec!["a".to_owned(), "b".to_owned(), "c".to_owned()]
    );
    assert_eq!(kobler::parser::tokenize(""), Vec::<String>::new());
    assert_eq!(kobler::parser::tokenize("   "), Vec::<String>::new());
    assert_eq!(kobler::parser::tokenize(" zanik 2 "), vec!["zanik".to_owned(), "2".to_owned()]);
}
