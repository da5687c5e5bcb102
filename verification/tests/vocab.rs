use kobler::fuzzy::fuzzy_match;
use kobler::mira::{Archetype, Group, Quality, Range, Tool, Weight};
use kobler::parser::Arg;
use kobler::resolve::{
    parse_isize, parse_usize, resolve_fach, resolve_modifier, resolve_name, resolve_narzedzie,
};
use kobler::zug::{Bron, Fach, Narzedzie, Waga, Wzorzec, Zasieg};

fn toks(s: &str) -> Vec<String> {
    kobler::parser::tokenize(s)
}

fn parse(s: &str) -> Vec<Arg> {
    Arg::try_parse(&toks(s)).unwrap()
}

#[test]
fn fuzzy_self_match_and_symmetry() {
    assert!(fuzzy_match("zasięg", "zasięg", 1));
    assert!(fuzzy_match("", "", 1));
    for (a, b) in [("szelma", "szelam"), ("kapłan", "kaplan"), ("plus", "minus")] {
        for t in 1..5 {
            assert_eq!(fuzzy_match(a, b, t), fuzzy_match(b, a, t));
        }
    }
}

#[test]
fn fuzzy_transposition_within_two() {
    // one adjacent transposition is distance 1, below a threshold of 2
    assert!(fuzzy_match("szelam", "szelma", 2));
    assert!(fuzzy_match("wojwonik", "wojownik", 2));
    assert!(!fuzzy_match("abc", "xyz", 3));
}

#[test]
fn archetype_parse_accepts_shorthand_and_misspellings() {
    assert_eq!(Archetype::parse("w"), Some(Archetype::Fighter));
    assert_eq!(Archetype::parse("WOJOWNIK"), Some(Archetype::Fighter));
    assert_eq!(Archetype::parse("wojwnik"), Some(Archetype::Fighter));
    assert_eq!(Archetype::parse("złodziej"), Some(Archetype::Thief));
    assert_eq!(Archetype::parse("kapłan"), Some(Archetype::Priest));
    assert_eq!(Archetype::parse("qqqqqqqqqq"), None);
}

#[test]
fn tool_codes_parse_case_insensitively() {
    assert_eq!(Tool::parse_tool(Some("fa")), Ok(Tool::Pure(Quality::Fine, Group::Agile)));
    assert_eq!(Tool::parse_tool(Some("DC")), Ok(Tool::Pure(Quality::Decent, Group::Clever)));
    assert_eq!(
        Tool::parse_tool(None).unwrap_err(),
        "nie podano argumentu narzędzia. "
    );
    assert_eq!(
        Tool::parse_tool(Some("fx")).unwrap_err(),
        "niepoprawny argument narzędzia: fx. "
    );
    assert_eq!(
        Tool::parse_weapon(Some("xba")).unwrap_err(),
        "niepoprawny argument broni: xba. "
    );
    assert!(Tool::parse_tool(Some("f")).is_err());
    assert!(Tool::parse_tool(Some("fx")).is_err());
    assert!(Tool::parse_tool(Some("fab")).is_err());
    assert!(Tool::parse_tool(None).is_err());
}

#[test]
fn weapon_codes_reduce_via_the_table() {
    // the extremes of the reduction table
    assert_eq!(Tool::parse_weapon(Some("cba")), Ok(Tool::Pure(Quality::Fine, Group::Agile)));
    assert_eq!(Tool::parse_weapon(Some("lda")), Ok(Tool::Pure(Quality::Crude, Group::Agile)));
    // the mixed combinations both land on the middle tier
    assert_eq!(Tool::parse_weapon(Some("cdb")), Ok(Tool::Pure(Quality::Decent, Group::Brute)));
    assert_eq!(Tool::parse_weapon(Some("lbc")), Ok(Tool::Pure(Quality::Decent, Group::Clever)));
    assert!(Tool::parse_weapon(Some("xba")).is_err());
    assert!(Tool::parse_weapon(None).is_err());
}

#[test]
fn tool_simplify_is_the_table() {
    let t = Tool::Weapon(Weight::Heavy, Range::Melee, Group::Brute);
    assert_eq!(t.simplify(), Tool::Pure(Quality::Fine, Group::Brute));
    assert_eq!(Tool::Bare.simplify(), Tool::Bare);
}

#[test]
fn wzorzec_resolution() {
    let args = parse("wzorzec --chojraczka");
    assert_eq!(Wzorzec::try_parse(&args[1]), Some(Wzorzec::Chojrak));
    let args = parse("wzorzec --szelma");
    assert_eq!(Wzorzec::try_parse(&args[1]), Some(Wzorzec::Szelma));
    let args = parse("wzorzec -w");
    assert_eq!(Wzorzec::try_parse(&args[1]), Some(Wzorzec::Szelma));
    let args = parse("wzorzec -c");
    assert_eq!(Wzorzec::try_parse(&args[1]), Some(Wzorzec::Chojrak));
    assert_eq!(Wzorzec::try_parse(&Arg::Plain("chojrak".to_owned())), None);
}

#[test]
fn fach_last_match_wins() {
    let args = parse("próba -s -b");
    assert_eq!(resolve_fach(&args), Fach::Biegly);
    let args = parse("próba -b -s");
    assert_eq!(resolve_fach(&args), Fach::Szkolony);
    let args = parse("próba");
    assert_eq!(resolve_fach(&args), Fach::Zielony);
    assert_eq!(Fach::default(), Fach::Zielony);
}

#[test]
fn narzedzie_resolution() {
    let args = parse("próba -s -nK");
    // -n is a name flag, not a quality; only -s and -nK are present
    assert_eq!(resolve_narzedzie(&args), None);
    let args = parse("próba -z");
    assert_eq!(resolve_narzedzie(&args), Some(Narzedzie::Znakomite));
    let args = parse("próba -k -p");
    assert_eq!(resolve_narzedzie(&args), Some(Narzedzie::Przyzwoite));
    let args = parse("próba --znakomita");
    assert_eq!(resolve_narzedzie(&args), Some(Narzedzie::Znakomite));
    assert_eq!(Narzedzie::default(), Narzedzie::Przyzwoite);
}

#[test]
fn bron_parse_last_match_wins() {
    let args = parse("broń dodaj -n rozkurwiator --zasięg ciężka -zb");
    let b = Bron::try_parse(&args).unwrap();
    assert_eq!(b.waga, Waga::Ciezka);
    assert_eq!(b.zasieg, Zasieg::Biala);
    assert_eq!(b.waga_str(), "ciężka");
    assert_eq!(b.zasieg_str(), "biała");

    let args = parse("broń -zl -zm");
    // the later -zm overrides the range; the weight stays from the last
    // value that names one
    let b = Bron::try_parse(&args).unwrap();
    assert_eq!(b.waga, Waga::Lekka);
    assert_eq!(b.zasieg, Zasieg::Miotajaca);

    let args = parse("broń dodaj");
    let e = Bron::try_parse(&args).unwrap_err();
    assert_eq!(e.message(), "niepoprawny argument: nie podano argumentu wagi.");
}

#[test]
fn bron_reduction_table() {
    let args = parse("x -zc -zb");
    let b = Bron::try_parse(&args).unwrap();
    assert_eq!(b.waga, Waga::Ciezka);
    assert_eq!(b.zasieg, Zasieg::Biala);
    assert_eq!(Narzedzie::from(b), Narzedzie::Znakomite);
    let args = parse("x -zl -zz");
    let b = Bron::try_parse(&args).unwrap();
    assert_eq!(Narzedzie::from(b), Narzedzie::Kiepskie);
}

#[test]
fn name_resolution() {
    let args = parse("broń dodaj -n rozkurwiator -wC --zasięg B");
    assert_eq!(resolve_name(&args), Some("rozkurwiator".to_owned()));
    let args = parse("broń --nazwa miecz topór");
    assert_eq!(resolve_name(&args), Some("topór".to_owned()));
    let args = parse("broń dodaj");
    assert_eq!(resolve_name(&args), None);
    // a later bare name flag overrides an earlier valued one
    let args = parse("broń -n miecz -n");
    assert_eq!(resolve_name(&args), None);
}

#[test]
fn modifier_resolution() {
    let args = parse("bitwa -m 1");
    assert_eq!(resolve_modifier(&args), -1);
    let args = parse("bitwa -p 3 -m 1");
    assert_eq!(resolve_modifier(&args), 2);
    let args = parse("bitwa --plus 2 --plus 4");
    assert_eq!(resolve_modifier(&args), 6);
    let args = parse("bitwa -p abc");
    assert_eq!(resolve_modifier(&args), 0);
    let args = parse("bitwa");
    assert_eq!(resolve_modifier(&args), 0);
}

#[test]
fn decimal_parsing_matches_std() {
    for s in ["42", "-7", "+5", "0", "-0", "abc", "", "+", "-", "1x", "99999999999999999999999999"] {
        assert_eq!(parse_isize(s), s.parse::<isize>().ok(), "isize {s:?}");
        assert_eq!(parse_usize(s), s.parse::<usize>().ok(), "usize {s:?}");
    }
    assert_eq!(parse_isize("9223372036854775807"), Some(isize::MAX));
    assert_eq!(parse_isize("-9223372036854775808"), Some(isize::MIN));
    assert_eq!(parse_isize("9223372036854775808"), None);
}
