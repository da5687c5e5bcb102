use kobler::arsenal::{dodaj, find_bron, opis, przestaw, usun, BronGracza};
use kobler::mira::{dice, Archetype, Field, Group, Quality, Range, Tool, Weight};
use kobler::parser::Arg;
use kobler::zug::{
    bitwa, decay_outcome, proba, zanik, Bron, DecayComputationError, Fach, Narzedzie, Wzorzec,
};

const SEP: &str = "   =>>   ";

fn split_reply(r: &str) -> (String, String) {
    let i = r.find(SEP).expect("reply carries the separator");
    (r[..i].to_string(), r[i + SEP.len()..].to_string())
}

fn check_reply(r: &str, pool: usize, tool: bool, alphabet: &str) {
    let (detailed, concise) = split_reply(r);
    // exactly `pool` bracketed tokens, and one parenthesized when a
    // tool die was rolled (no face table holds bracket characters)
    assert_eq!(detailed.matches('[').count(), pool, "{detailed:?}");
    assert_eq!(detailed.matches(']').count(), pool);
    assert_eq!(detailed.matches('(').count(), usize::from(tool));
    if tool {
        assert!(detailed.ends_with(')'), "tool die comes last: {detailed:?}");
    } else if pool > 0 {
        assert!(detailed.ends_with(']'), "{detailed:?}");
    }
    // the concise summary is sorted and restricted to the alphabet
    let chars: Vec<char> = concise.chars().collect();
    for w in chars.windows(2) {
        assert!(w[0] <= w[1], "concise not sorted: {concise:?}");
    }
    for c in &chars {
        assert!(alphabet.contains(*c), "foreign symbol {c:?}");
    }
    // it aggregates exactly the recognized symbols of the drawn faces
    let mut drawn: Vec<char> = detailed.chars().filter(|c| alphabet.contains(*c)).collect();
    drawn.sort();
    assert_eq!(drawn, chars);
}

#[test]
fn dice_counts_and_summary() {
    for _ in 0..20 {
        let r = dice(&Archetype::Fighter, &Field::Untrained, &Tool::Bare);
        check_reply(&r, 3, false, "ABCR");
        let r = dice(
            &Archetype::Priest,
            &Field::Proficient,
            &Tool::Pure(Quality::Crude, Group::Brute),
        );
        check_reply(&r, 5, true, "ABCR");
        let r = dice(
            &Archetype::Thief,
            &Field::Trained,
            &Tool::Weapon(Weight::Heavy, Range::Melee, Group::Clever),
        );
        check_reply(&r, 4, true, "ABCR");
    }
}

#[test]
fn proba_counts_and_summary() {
    let alpha = "\u{1d6af}\u{1d6b2}";
    for _ in 0..20 {
        let r = proba(Wzorzec::Chojrak, Fach::Zielony, None);
        check_reply(&r, 4, false, alpha);
        let r = proba(Wzorzec::Szelma, Fach::Biegly, Some(Narzedzie::Kiepskie));
        check_reply(&r, 6, true, alpha);
    }
}

#[test]
fn bitwa_counts_and_clamping() {
    let alpha = "\u{1d6af}\u{1d6b2}";
    let args = Arg::try_parse(&kobler::parser::tokenize("x -zc -zb")).unwrap();
    let b = Bron::try_parse(&args).unwrap();
    for _ in 0..10 {
        let r = bitwa(Wzorzec::Chojrak, &vec![], 0);
        check_reply(&r, 4, false, alpha);
        let r = bitwa(Wzorzec::Chojrak, &vec![b, b], 2);
        let (detailed, _) = split_reply(&r);
        assert_eq!(detailed.matches('[').count(), 6);
        assert_eq!(detailed.matches('(').count(), 2);
        assert!(detailed.ends_with(')'));
        // a deeply negative modifier clamps the pool to zero dice
        let r = bitwa(Wzorzec::Szelma, &vec![], -10);
        assert_eq!(r, SEP);
        let r = bitwa(Wzorzec::Szelma, &vec![b], -100);
        let (detailed, _) = split_reply(&r);
        assert_eq!(detailed.matches('[').count(), 0);
        assert_eq!(detailed.matches('(').count(), 1);
    }
}

#[test]
fn zanik_zero_durability_always_degrades() {
    for q in [Narzedzie::Kiepskie, Narzedzie::Przyzwoite, Narzedzie::Znakomite] {
        assert_eq!(
            zanik(0, q),
            Ok("porażka! trwałość twojego sprzętu maleje. ".to_owned())
        );
    }
}

#[test]
fn zanik_rejects_unrepresentable_durability() {
    let too_big = (i32::MAX as usize) + 1;
    assert_eq!(zanik(too_big, Narzedzie::Przyzwoite), Err(DecayComputationError));
    let r = zanik(3, Narzedzie::Znakomite).unwrap();
    assert!(
        r == "porażka! trwałość twojego sprzętu maleje. "
            || r == "sukces! twój sprzęt utrzymuje trwałość. "
    );
}

#[test]
fn decay_outcome_is_monotone_in_blanks() {
    // all draws blank for the crude die, none for the fine one
    assert!(decay_outcome(&vec![0, 0, 0], 1));
    assert!(!decay_outcome(&vec![1], 1));
    assert!(decay_outcome(&vec![1, 2, 0], 3));
    assert!(!decay_outcome(&vec![3], 3));
    assert!(decay_outcome(&vec![], 1));
    // whenever the fine die degrades, the crude one would too
    for draws in [vec![0], vec![0, 0], vec![2, 1], vec![3, 0]] {
        if decay_outcome(&draws, 1) {
            assert!(decay_outcome(&draws, 3));
        }
    }
}

#[test]
fn arsenal_fuzzy_toggle_and_removal() {
    let args = Arg::try_parse(&kobler::parser::tokenize("x -zl -zm")).unwrap();
    let b = Bron::try_parse(&args).unwrap();
    let mut list: Vec<BronGracza> = Vec::new();
    dodaj(&mut list, BronGracza { bron: b, aktywna: false, nazwa: "rozkurwiator".to_owned() });
    dodaj(&mut list, BronGracza { bron: b, aktywna: false, nazwa: "miecz".to_owned() });
    // a transposed misspelling still finds the weapon
    assert_eq!(find_bron(&list, "rozkurwiatro"), Some(0));
    assert_eq!(find_bron(&list, "topór"), None);
    assert!(przestaw(&mut list, "miecz", true));
    assert!(list[1].aktywna);
    assert_eq!(opis(&list[1]), "miecz (wybrana) : miotająca, lekka)");
    assert!(przestaw(&mut list, "miecz", false));
    assert_eq!(opis(&list[1]), "miecz (schowana) : miotająca, lekka)");
    assert!(usun(&mut list, "rozkurwiator"));
    assert_eq!(list.len(), 1);
    assert_eq!(list[0].nazwa, "miecz");
    assert!(!przestaw(&mut list, "nieznana", true));
}
