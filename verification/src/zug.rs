//! The second bot variant: patterns with astral-symbol face tables,
//! training levels, tool qualities with the durability decay model,
//! owned weapons with their reduction table, and the pooled rolls.
use vstd::prelude::*;
use crate::fuzzy::{fuzzy_match, fuzzy_spec};
use crate::parser::{Arg, ArgModel, InvalidArgument};

verus! {

/// A character pattern: owns the 6-face symbol table of its dice.
#[derive(Clone, Copy, Debug, PartialEq, Eq, Structural)]
pub enum Wzorzec {
    Chojrak,
    Szelma,
}

/// Which pattern an argument node denotes: a one-letter short flag, or
/// a long flag fuzzy-matched against the canonical names.
pub open spec fn wzorzec_of(a: ArgModel) -> Option<Wzorzec> {
    match a {
        ArgModel::Short(c, _) => if c == 'c' {
            Some(Wzorzec::Chojrak)
        } else if c == 'w' {
            Some(Wzorzec::Szelma)
        } else {
            None
        },
        ArgModel::Long(w, _) => if fuzzy_spec(w, "chojrak"@, 4) || fuzzy_spec(
            w,
            "chojraczka"@,
            4,
        ) {
            Some(Wzorzec::Chojrak)
        } else if fuzzy_spec(w, "szelma"@, 4) {
            Some(Wzorzec::Szelma)
        } else {
            None
        },
        ArgModel::Plain(_) => None,
    }
}

impl Wzorzec {
    /// Resolves one argument node to a pattern, if it names one.
    pub fn try_parse(arg: &Arg) -> (r: Option<Self>)
        ensures
            r == wzorzec_of(arg@),
    {
        match arg {
            Arg::Short(c, _) => if *c == 'c' {
                Some(Self::Chojrak)
            } else if *c == 'w' {
                Some(Self::Szelma)
            } else {
                None
            },
            Arg::Long(word, _) => if fuzzy_match(word.as_str(), "chojrak", 4) || fuzzy_match(
                word.as_str(),
                "chojraczka",
                4,
            ) {
                Some(Self::Chojrak)
            } else if fuzzy_match(word.as_str(), "szelma", 4) {
                Some(Self::Szelma)
            } else {
                None
            },
            Arg::Plain(_) => None,
        }
    }
}

/// The 6-face symbol table of a pattern's die; the empty face is blank.
pub open spec fn wzorzec_faces(w: Wzorzec) -> Seq<Seq<char>> {
    match w {
        Wzorzec::Chojrak => seq![
            seq!['\u{1d6af}'],
            seq!['\u{1d6af}'],
            seq!['\u{1d6af}'],
            seq!['\u{1d6b2}'],
            seq!['\u{1d6b2}'],
            seq![],
        ],
        Wzorzec::Szelma => seq![
            seq!['\u{1d6af}'],
            seq!['\u{1d6af}'],
            seq!['\u{1d6b2}'],
            seq!['\u{1d6b2}'],
            seq!['\u{1d6b2}'],
            seq![],
        ],
    }
}

impl Wzorzec {
    /// The pattern's face table.
    pub fn die(self) -> (r: [&'static str; 6])
        ensures
            r@.map_values(|s: &str| s@) =~~= wzorzec_faces(self),
    {
        proof {
            reveal_strlit("\u{1d6af}");
            reveal_strlit("\u{1d6b2}");
            reveal_strlit("");
        }
        let r = match self {
            Self::Chojrak => ["\u{1d6af}", "\u{1d6af}", "\u{1d6af}", "\u{1d6b2}", "\u{1d6b2}", ""],
            Self::Szelma => ["\u{1d6af}", "\u{1d6af}", "\u{1d6b2}", "\u{1d6b2}", "\u{1d6b2}", ""],
        };
        proof {
            assert(r@.map_values(|s: &str| s@) =~~= wzorzec_faces(self));
        }
        r
    }
}

impl Wzorzec {
    /// The pattern's display name.
    pub fn name_str(self) -> (r: &'static str)
        ensures
            match self {
                Wzorzec::Chojrak => r@ == "Chojrak"@,
                Wzorzec::Szelma => r@ == "Szelma"@,
            },
    {
        match self {
            Self::Chojrak => "Chojrak",
            Self::Szelma => "Szelma",
        }
    }
}

/// A training level: selects the base dice-pool size.
#[derive(Clone, Copy, Debug, PartialEq, Eq, Structural)]
pub enum Fach {
    Zielony,
    Szkolony,
    Biegly,
}

pub open spec fn fach_of(a: ArgModel) -> Option<Fach> {
    match a {
        ArgModel::Short(c, _) => if c == 's' {
            Some(Fach::Szkolony)
        } else if c == 'b' {
            Some(Fach::Biegly)
        } else {
            None
        },
        ArgModel::Long(w, _) => if fuzzy_spec(w, "znakomita"@, 4) {
            Some(Fach::Szkolony)
        } else if fuzzy_spec(w, "przyzwoita"@, 4) {
            Some(Fach::Biegly)
        } else {
            None
        },
        ArgModel::Plain(_) => None,
    }
}

impl Fach {
    pub open spec fn spec_dice(self) -> usize {
        match self {
            Self::Zielony => 4,
            Self::Szkolony => 5,
            Self::Biegly => 6,
        }
    }

    /// Base number of pattern dice granted by this training level.
    pub fn dice(self) -> (n: usize)
        ensures
            n == self.spec_dice(),
            4 <= n <= 6,
    {
        match self {
            Self::Zielony => 4,
            Self::Szkolony => 5,
            Self::Biegly => 6,
        }
    }

    /// Resolves one argument node to a training level, if it names one.
    pub fn try_parse(arg: &Arg) -> (r: Option<Self>)
        ensures
            r == fach_of(arg@),
    {
        match arg {
            Arg::Short(c, _) => if *c == 's' {
                Some(Self::Szkolony)
            } else if *c == 'b' {
                Some(Self::Biegly)
            } else {
                None
            },
            Arg::Long(word, _) => if fuzzy_match(word.as_str(), "znakomita", 4) {
                Some(Self::Szkolony)
            } else if fuzzy_match(word.as_str(), "przyzwoita", 4) {
                Some(Self::Biegly)
            } else {
                None
            },
            Arg::Plain(_) => None,
        }
    }
}

impl Default for Fach {
    /// The untrained level is the default.
    fn default() -> (r: Self)
        ensures
            r == Fach::Zielony,
    {
        Self::Zielony
    }
}

/// A tool's quality tier; its blank-face ratio drives the decay model.
#[derive(Clone, Copy, Debug, PartialEq, Eq, Structural)]
pub enum Narzedzie {
    Kiepskie,
    Przyzwoite,
    Znakomite,
}

pub open spec fn narzedzie_of(a: ArgModel) -> Option<Narzedzie> {
    match a {
        ArgModel::Short(c, _) => if c == 'z' {
            Some(Narzedzie::Znakomite)
        } else if c == 'p' {
            Some(Narzedzie::Przyzwoite)
        } else if c == 'k' {
            Some(Narzedzie::Kiepskie)
        } else {
            None
        },
        ArgModel::Long(w, _) => if fuzzy_spec(w, "znakomita"@, 4) {
            Some(Narzedzie::Znakomite)
        } else if fuzzy_spec(w, "przyzwoita"@, 4) {
            Some(Narzedzie::Przyzwoite)
        } else if fuzzy_spec(w, "kiepska"@, 4) {
            Some(Narzedzie::Kiepskie)
        } else {
            None
        },
        ArgModel::Plain(_) => None,
    }
}

impl Narzedzie {
    /// Resolves one argument node to a quality tier, if it names one.
    pub fn try_parse(arg: &Arg) -> (r: Option<Self>)
        ensures
            r == narzedzie_of(arg@),
    {
        match arg {
            Arg::Short(c, _) => if *c == 'z' {
                Some(Self::Znakomite)
            } else if *c == 'p' {
                Some(Self::Przyzwoite)
            } else if *c == 'k' {
                Some(Self::Kiepskie)
            } else {
                None
            },
            Arg::Long(word, _) => if fuzzy_match(word.as_str(), "znakomita", 4) {
                Some(Self::Znakomite)
            } else if fuzzy_match(word.as_str(), "przyzwoita", 4) {
                Some(Self::Przyzwoite)
            } else if fuzzy_match(word.as_str(), "kiepska", 4) {
                Some(Self::Kiepskie)
            } else {
                None
            },
            Arg::Plain(_) => None,
        }
    }
}

impl Default for Narzedzie {
    /// The decent tier is the default.
    fn default() -> (r: Self)
        ensures
            r == Narzedzie::Przyzwoite,
    {
        Self::Przyzwoite
    }
}

/// The 4-face table of a quality tier; empty faces are the blanks that
/// drive the decay probability: one blank for the finest tier, two for
/// the decent, three for the crudest.
pub open spec fn narzedzie_faces(n: Narzedzie) -> Seq<Seq<char>> {
    match n {
        Narzedzie::Znakomite => seq![seq!['X', 'X'], seq!['X'], seq!['X'], seq![]],
        Narzedzie::Przyzwoite => seq![seq!['X', 'X'], seq!['X'], seq![], seq![]],
        Narzedzie::Kiepskie => seq![seq!['X', 'X'], seq![], seq![], seq![]],
    }
}

/// How many of the four faces are blank.
pub open spec fn spec_blanks(n: Narzedzie) -> nat {
    match n {
        Narzedzie::Znakomite => 1,
        Narzedzie::Przyzwoite => 2,
        Narzedzie::Kiepskie => 3,
    }
}

impl Narzedzie {
    /// The quality's face table.
    pub fn die(self) -> (r: [&'static str; 4])
        ensures
            r@.map_values(|s: &str| s@) =~~= narzedzie_faces(self),
    {
        proof {
            reveal_strlit("XX");
            reveal_strlit("X");
            reveal_strlit("");
        }
        let r = match self {
            Self::Znakomite => ["XX", "X", "X", ""],
            Self::Przyzwoite => ["XX", "X", "", ""],
            Self::Kiepskie => ["XX", "", "", ""],
        };
        proof {
            assert(r@.map_values(|s: &str| s@) =~~= narzedzie_faces(self));
        }
        r
    }

    /// The number of blank faces on the quality's die: the numerator of
    /// its per-trial decay probability (out of four faces).
    pub fn blanks(self) -> (b: usize)
        ensures
            b == spec_blanks(self),
            1 <= b <= 3,
    {
        match self {
            Self::Znakomite => 1,
            Self::Przyzwoite => 2,
            Self::Kiepskie => 3,
        }
    }
}

} // verus!

verus! {

/// A weapon's range class: melee or thrown.
#[derive(Clone, Copy, Debug, PartialEq, Eq, Structural)]
pub enum Zasieg {
    Biala,
    Miotajaca,
}

/// Which range class the last value of a `-z` flag denotes.
pub open spec fn zasieg_of(a: ArgModel) -> Option<Zasieg> {
    match a {
        ArgModel::Short(c, vs) => if c == 'z' && vs.len() > 0 {
            if vs.last() == seq!['b'] {
                Some(Zasieg::Biala)
            } else if vs.last() == seq!['m'] || vs.last() == seq!['z'] {
                Some(Zasieg::Miotajaca)
            } else {
                None
            }
        } else {
            None
        },
        _ => None,
    }
}

impl Zasieg {
    /// Resolves one argument node to a range class, if it names one.
    pub fn try_parse(arg: &Arg) -> (r: Option<Self>)
        ensures
            r == zasieg_of(arg@),
    {
        match arg {
            Arg::Short(c, params) => {
                if *c == 'z' && params.len() > 0 {
                    let s = params[params.len() - 1].as_str();
                    proof {
                        assert(params.deep_view().last() == params[params.len() - 1]@);
                    }
                    if crate::mira::str_is_char(s, 'b') {
                        Some(Self::Biala)
                    } else if crate::mira::str_is_char(s, 'm') || crate::mira::str_is_char(
                        s,
                        'z',
                    ) {
                        Some(Self::Miotajaca)
                    } else {
                        None
                    }
                } else {
                    None
                }
            },
            _ => None,
        }
    }
}

/// A weapon's weight class.
#[derive(Clone, Copy, Debug, PartialEq, Eq, Structural)]
pub enum Waga {
    Lekka,
    Ciezka,
}

/// Which weight class the last value token denotes: its one-letter
/// shorthand, or a fuzzy match on the canonical word.
pub open spec fn waga_params(vs: Seq<Seq<char>>) -> Option<Waga> {
    if vs.len() == 0 {
        None
    } else if vs.last() == seq!['l'] || fuzzy_spec(vs.last(), "lekka"@, 3) {
        Some(Waga::Lekka)
    } else if vs.last() == seq!['c'] || fuzzy_spec(vs.last(), "ciężka"@, 3) {
        Some(Waga::Ciezka)
    } else {
        None
    }
}

pub open spec fn waga_of(a: ArgModel) -> Option<Waga> {
    match a {
        ArgModel::Short(c, vs) => if c == 'z' {
            waga_params(vs)
        } else {
            None
        },
        ArgModel::Long(p, vs) => if fuzzy_spec(p, "zasięg"@, 3) {
            waga_params(vs)
        } else {
            None
        },
        ArgModel::Plain(_) => None,
    }
}

impl Waga {
    fn parse_helper(params: &Vec<String>) -> (r: Option<Self>)
        ensures
            r == waga_params(params.deep_view()),
    {
        if params.len() == 0 {
            None
        } else {
            let s = params[params.len() - 1].as_str();
            proof {
                assert(params.deep_view().last() == params[params.len() - 1]@);
            }
            if crate::mira::str_is_char(s, 'l') || fuzzy_match(s, "lekka", 3) {
                Some(Self::Lekka)
            } else if crate::mira::str_is_char(s, 'c') || fuzzy_match(s, "ciężka", 3) {
                Some(Self::Ciezka)
            } else {
                None
            }
        }
    }

    /// Resolves one argument node to a weight class, if it names one.
    pub fn try_parse(arg: &Arg) -> (r: Option<Self>)
        ensures
            r == waga_of(arg@),
    {
        match arg {
            Arg::Short(c, params) => if *c == 'z' {
                Self::parse_helper(params)
            } else {
                None
            },
            Arg::Long(p, params) => if fuzzy_match(p.as_str(), "zasięg", 3) {
                Self::parse_helper(params)
            } else {
                None
            },
            Arg::Plain(_) => None,
        }
    }
}

/// An owned weapon: a weight and a range class.
#[derive(Clone, Copy, Debug, PartialEq, Eq, Structural)]
pub struct Bron {
    pub waga: Waga,
    pub zasieg: Zasieg,
}

/// The fixed Waga x Zasieg -> Narzedzie reduction table.
pub open spec fn bron_quality(b: Bron) -> Narzedzie {
    match (b.waga, b.zasieg) {
        (Waga::Lekka, Zasieg::Miotajaca) => Narzedzie::Kiepskie,
        (Waga::Ciezka, Zasieg::Miotajaca) => Narzedzie::Przyzwoite,
        (Waga::Lekka, Zasieg::Biala) => Narzedzie::Przyzwoite,
        (Waga::Ciezka, Zasieg::Biala) => Narzedzie::Znakomite,
    }
}

/// The weight named last among the argument nodes, scanning for the
/// last-match-wins policy.
pub open spec fn last_waga(args: Seq<Arg>) -> Option<Waga>
    decreases args.len(),
{
    if args.len() == 0 {
        None
    } else {
        match waga_of(args.last()@) {
            Some(w) => Some(w),
            None => last_waga(args.drop_last()),
        }
    }
}

pub open spec fn last_zasieg(args: Seq<Arg>) -> Option<Zasieg>
    decreases args.len(),
{
    if args.len() == 0 {
        None
    } else {
        match zasieg_of(args.last()@) {
            Some(z) => Some(z),
            None => last_zasieg(args.drop_last()),
        }
    }
}

impl Bron {
    /// Builds a weapon from the parsed arguments: the last weight and
    /// the last range named win; a missing one is rejected, the weight
    /// checked first.
    pub fn try_parse(args: &Vec<Arg>) -> (r: Result<Self, InvalidArgument>)
        ensures
            match r {
                Ok(b) => Some(b.waga) == last_waga(args@) && Some(b.zasieg) == last_zasieg(
                    args@,
                ),
                Err(e) => if last_waga(args@) is None {
                    e.0@ == "nie podano argumentu wagi."@
                } else {
                    last_zasieg(args@) is None && e.0@ == "nie podano argumentu zasięgu."@
                },
            },
    {
        let mut w: Option<Waga> = None;
        let mut z: Option<Zasieg> = None;
        let mut i: usize = 0;
        proof {
            assert(args@.take(0) =~= Seq::<Arg>::empty());
        }
        while i < args.len()
            invariant
                i <= args.len(),
                w == last_waga(args@.take(i as int)),
                z == last_zasieg(args@.take(i as int)),
            decreases args.len() - i,
        {
            let arg = &args[i];
            if let Some(x) = Waga::try_parse(arg) {
                w = Some(x);
            }
            if let Some(x) = Zasieg::try_parse(arg) {
                z = Some(x);
            }
            proof {
                assert(args@.take(i as int + 1).drop_last() =~= args@.take(i as int));
                assert(args@.take(i as int + 1).last() == args@[i as int]);
            }
            i += 1;
        }
        proof {
            assert(args@.take(args.len() as int) =~= args@);
        }
        match w {
            Some(waga) => match z {
                Some(zasieg) => Ok(Self { waga, zasieg }),
                None => {
                    let mut m = String::new();
                    m.append("nie podano argumentu zasięgu.");
                    Err(InvalidArgument::new(m))
                },
            },
            None => {
                let mut m = String::new();
                m.append("nie podano argumentu wagi.");
                Err(InvalidArgument::new(m))
            },
        }
    }

    /// The face table of the weapon's die, via the reduction table.
    pub fn die(self) -> (r: [&'static str; 4])
        ensures
            r@.map_values(|s: &str| s@) =~~= narzedzie_faces(bron_quality(self)),
    {
        Narzedzie::from(self).die()
    }

    /// The weight's display name.
    pub fn waga_str(self) -> (r: &'static str)
        ensures
            match self.waga {
                Waga::Lekka => r@ == "lekka"@,
                Waga::Ciezka => r@ == "ciężka"@,
            },
    {
        match self.waga {
            Waga::Lekka => "lekka",
            Waga::Ciezka => "ciężka",
        }
    }

    /// The range's display name.
    pub fn zasieg_str(self) -> (r: &'static str)
        ensures
            match self.zasieg {
                Zasieg::Biala => r@ == "biała"@,
                Zasieg::Miotajaca => r@ == "miotająca"@,
            },
    {
        match self.zasieg {
            Zasieg::Biala => "biała",
            Zasieg::Miotajaca => "miotająca",
        }
    }
}

impl From<Bron> for Narzedzie {
    /// Reduces a weapon to its equivalent tool quality.
    fn from(b: Bron) -> (r: Self) {
        match (b.waga, b.zasieg) {
            (Waga::Lekka, Zasieg::Miotajaca) => Self::Kiepskie,
            (Waga::Ciezka, Zasieg::Miotajaca) => Self::Przyzwoite,
            (Waga::Lekka, Zasieg::Biala) => Self::Przyzwoite,
            (Waga::Ciezka, Zasieg::Biala) => Self::Znakomite,
        }
    }
}

impl vstd::std_specs::convert::FromSpecImpl<Bron> for Narzedzie {
    open spec fn obeys_from_spec() -> bool {
        true
    }

    open spec fn from_spec(b: Bron) -> Self {
        bron_quality(b)
    }
}

/// The weapon reduction table is total and deterministic, with the
/// heavy melee weapon the finest extreme and the light thrown weapon
/// the crudest.
pub proof fn lemma_bron_reduction_total()
    ensures
        forall|w: Waga, z: Zasieg|
            #[trigger] bron_quality(Bron { waga: w, zasieg: z }) == match (w, z) {
                (Waga::Lekka, Zasieg::Miotajaca) => Narzedzie::Kiepskie,
                (Waga::Ciezka, Zasieg::Miotajaca) => Narzedzie::Przyzwoite,
                (Waga::Lekka, Zasieg::Biala) => Narzedzie::Przyzwoite,
                (Waga::Ciezka, Zasieg::Biala) => Narzedzie::Znakomite,
            },
        bron_quality(Bron { waga: Waga::Ciezka, zasieg: Zasieg::Biala }) == Narzedzie::Znakomite,
        bron_quality(Bron { waga: Waga::Lekka, zasieg: Zasieg::Miotajaca })
            == Narzedzie::Kiepskie,
{
}

} // verus!

verus! {

use crate::outside::rand_below;
use crate::roll::{
    draw_n, draw_one_arr, from_table, reply, reply_spec, roll_shape, views_of,
};

/// The recognized symbol alphabet of this variant, ascending.
pub open spec fn znaki_alphabet() -> Seq<char> {
    seq!['\u{1d6af}', '\u{1d6b2}']
}

pub open spec fn narzedzie_faces_opt(o: Option<Narzedzie>) -> Option<Seq<Seq<char>>> {
    match o {
        Some(n) => Some(narzedzie_faces(n)),
        None => None,
    }
}

/// One skill check: draws the training level's number of pattern dice,
/// one tool die when a tool quality is given, and assembles the reply
/// with its concise summary over the recognized alphabet.
pub fn proba(wzor: Wzorzec, fach: Fach, maybe_narzedzie: Option<Narzedzie>) -> (r: String)
    ensures
        exists|parts: Seq<Seq<char>>|
            #[trigger] roll_shape(
                parts,
                wzorzec_faces(wzor),
                narzedzie_faces_opt(maybe_narzedzie),
                fach.spec_dice() as nat,
            ) && r@ == reply_spec(parts, znaki_alphabet()),
{
    let faces = wzor.die();
    proof {
        assert(views_of(faces@) =~~= wzorzec_faces(wzor));
    }
    let n = fach.dice();
    let mut parts = draw_n(&faces, n);
    match maybe_narzedzie {
        Some(narzedzie) => {
            let tf = narzedzie.die();
            proof {
                assert(views_of(tf@) =~~= narzedzie_faces(narzedzie));
            }
            let p = draw_one_arr(&tf, true);
            let ghost pre = parts.deep_view();
            parts.push(p);
            proof {
                assert(parts.deep_view() =~= pre.push(p@));
            }
        },
        None => {},
    }
    let alphabet: Vec<char> = vec!['\u{1d6af}', '\u{1d6b2}'];
    let out = reply(&parts, &alphabet);
    proof {
        assert(alphabet@ =~= znaki_alphabet());
        assert(roll_shape(
            parts.deep_view(),
            wzorzec_faces(wzor),
            narzedzie_faces_opt(maybe_narzedzie),
            fach.spec_dice() as nat,
        ));
    }
    out
}

/// The battle pool size: four dice plus the modifier, clamped at zero
/// so that a deeply negative modifier contributes no dice.
pub open spec fn effective_pool(m: int) -> nat {
    if 4 + m <= 0 {
        0
    } else {
        (4 + m) as nat
    }
}

/// The shape of a battle reply's token list: the clamped pool of
/// pattern dice in brackets, then one parenthesized die per weapon, in
/// the weapons' order.
pub open spec fn bitwa_shape(
    parts: Seq<Seq<char>>,
    w: Wzorzec,
    bronie: Seq<Bron>,
    n: nat,
) -> bool {
    &&& parts.len() == n + bronie.len()
    &&& forall|k: int| 0 <= k < n ==> #[trigger] from_table(parts[k], wzorzec_faces(w), false)
    &&& forall|m: int|
        0 <= m < bronie.len() ==> #[trigger] from_table(
            parts[n + m],
            narzedzie_faces(bron_quality(bronie[m])),
            true,
        )
}

/// One battle roll: the clamped pool of pattern dice, then one die per
/// active weapon, each reduced to its tool quality.
pub fn bitwa(wzor: Wzorzec, bronie: &Vec<Bron>, modyfikator: isize) -> (r: String)
    requires
        modyfikator <= isize::MAX - 4,
    ensures
        exists|parts: Seq<Seq<char>>|
            #[trigger] bitwa_shape(parts, wzor, bronie@, effective_pool(modyfikator as int))
                && r@ == reply_spec(parts, znaki_alphabet()),
{
    let eff: usize = if modyfikator <= -4 {
        0
    } else {
        (4 + modyfikator) as usize
    };
    proof {
        assert(eff == effective_pool(modyfikator as int));
    }
    let faces = wzor.die();
    proof {
        assert(views_of(faces@) =~~= wzorzec_faces(wzor));
    }
    let mut parts = draw_n(&faces, eff);
    let mut b: usize = 0;
    while b < bronie.len()
        invariant
            b <= bronie.len(),
            eff == effective_pool(modyfikator as int),
            parts.deep_view().len() == eff + b,
            forall|k: int|
                0 <= k < eff ==> #[trigger] from_table(
                    parts.deep_view()[k],
                    wzorzec_faces(wzor),
                    false,
                ),
            forall|m: int|
                0 <= m < b ==> #[trigger] from_table(
                    parts.deep_view()[eff + m],
                    narzedzie_faces(bron_quality(bronie@[m])),
                    true,
                ),
        decreases bronie.len() - b,
    {
        let tf = bronie[b].die();
        proof {
            assert(views_of(tf@) =~~= narzedzie_faces(bron_quality(bronie@[b as int])));
        }
        let p = draw_one_arr(&tf, true);
        let ghost pre = parts.deep_view();
        parts.push(p);
        proof {
            assert(parts.deep_view() =~= pre.push(p@));
        }
        b += 1;
    }
    let alphabet: Vec<char> = vec!['\u{1d6af}', '\u{1d6b2}'];
    let out = reply(&parts, &alphabet);
    proof {
        assert(alphabet@ =~= znaki_alphabet());
        assert(bitwa_shape(
            parts.deep_view(),
            wzor,
            bronie@,
            effective_pool(modyfikator as int),
        ));
    }
    out
}

} // verus!

verus! {

/// The durability exponent could not be represented: the decay
/// probability is not computable for such a durability.
#[derive(Debug, PartialEq, Eq, Structural)]
pub struct DecayComputationError;

/// The deterministic decay decision: the item degrades exactly when
/// every one of the `durability` uniform draws (out of four) lands on a
/// blank face of the quality's die. With no draws at all the item
/// always degrades.
pub open spec fn spec_decays(draws: Seq<usize>, blanks: nat) -> bool {
    forall|i: int| 0 <= i < draws.len() ==> (#[trigger] draws[i] as nat) < blanks
}

/// Decides the decay outcome from the already-made draws.
pub fn decay_outcome(draws: &Vec<usize>, blanks: usize) -> (b: bool)
    ensures
        b == spec_decays(draws@, blanks as nat),
{
    let mut i: usize = 0;
    while i < draws.len()
        invariant
            i <= draws.len(),
            forall|k: int| 0 <= k < i ==> (#[trigger] draws@[k] as nat) < blanks as nat,
        decreases draws.len() - i,
    {
        if draws[i] >= blanks {
            return false;
        }
        i += 1;
    }
    true
}

/// One durability check: with probability `(blanks/4) ^ durability` the
/// item degrades. A durability of zero therefore always degrades; a
/// durability beyond the supported exponent range is a computation
/// error, not a random outcome.
pub fn zanik(durability: usize, quality: Narzedzie) -> (r: Result<String, DecayComputationError>)
    ensures
        r is Err <==> durability > i32::MAX as usize,
        durability == 0 ==> (r matches Ok(m) && m@ == "porażka! trwałość twojego sprzętu maleje. "@),
        r matches Ok(m) ==> m@ == "porażka! trwałość twojego sprzętu maleje. "@ || m@
            == "sukces! twój sprzęt utrzymuje trwałość. "@,
{
    if durability > (i32::MAX as usize) {
        return Err(DecayComputationError);
    }
    let blanks = quality.blanks();
    let mut i: usize = 0;
    while i < durability
        invariant
            durability <= i32::MAX as usize,
        decreases durability - i,
    {
        let d = rand_below(4);
        if d >= blanks {
            return Ok(String::from_str("sukces! twój sprzęt utrzymuje trwałość. "));
        }
        i += 1;
    }
    Ok(String::from_str("porażka! trwałość twojego sprzętu maleje. "))
}

/// Decay is monotone in the blank count: on the same draws, a finer
/// quality (fewer blanks) degrades only where a cruder one would too.
pub proof fn lemma_decay_monotone(draws: Seq<usize>, fine: Narzedzie, crude: Narzedzie)
    requires
        spec_blanks(fine) <= spec_blanks(crude),
        spec_decays(draws, spec_blanks(fine)),
    ensures
        spec_decays(draws, spec_blanks(crude)),
{
    assert forall|i: int| 0 <= i < draws.len() implies (#[trigger] draws[i] as nat) < spec_blanks(
        crude,
    ) by {
        assert((draws[i] as nat) < spec_blanks(fine));
    }
}

/// And strictly so: for every durability of at least one there are
/// draws on which the crudest quality degrades while the finest holds,
/// so the finest tier's degrade probability is strictly lower.
pub proof fn lemma_decay_strict(d: nat)
    requires
        d >= 1,
    ensures
        exists|draws: Seq<usize>|
            #![trigger draws.len()]
            draws.len() == d && spec_decays(draws, spec_blanks(Narzedzie::Kiepskie))
                && !spec_decays(draws, spec_blanks(Narzedzie::Znakomite)),
{
    let w = Seq::new(d, |i: int| 1usize);
    assert(spec_decays(w, spec_blanks(Narzedzie::Kiepskie)));
    assert(w[0] == 1usize);
    assert(!spec_decays(w, spec_blanks(Narzedzie::Znakomite)));
    assert(w.len() == d && spec_decays(w, spec_blanks(Narzedzie::Kiepskie)) && !spec_decays(
        w,
        spec_blanks(Narzedzie::Znakomite),
    ));
}

} // verus!

verus! {

use crate::roll::{bracket_free, count_in, lemma_count_absent};

/// No pattern face of this variant holds a bracket character, so the
/// bracketed-token count law applies to every roll.
pub proof fn lemma_wzorzec_faces_clean(w: Wzorzec)
    ensures
        bracket_free(wzorzec_faces(w)),
{
    let faces = wzorzec_faces(w);
    assert forall|j: int| 0 <= j < faces.len() implies count_in(#[trigger] faces[j], '[') == 0
        && count_in(faces[j], '(') == 0 by {
        lemma_count_absent(faces[j], '[');
        lemma_count_absent(faces[j], '(');
    }
}

/// Nor does any quality face.
pub proof fn lemma_narzedzie_faces_clean(n: Narzedzie)
    ensures
        bracket_free(narzedzie_faces(n)),
{
    let faces = narzedzie_faces(n);
    assert forall|j: int| 0 <= j < faces.len() implies count_in(#[trigger] faces[j], '[') == 0
        && count_in(faces[j], '(') == 0 by {
        lemma_count_absent(faces[j], '[');
        lemma_count_absent(faces[j], '(');
    }
}

} // verus!

verus! {

use crate::roll::{join_spaced, lemma_roll_token_counts};

/// The bracketed-token count law for this variant's skill checks: a
/// reply shaped by `proba` shows exactly `n` bracketed pattern tokens,
/// and one parenthesized tool token exactly when a tool die was rolled.
pub proof fn lemma_proba_token_counts(
    parts: Seq<Seq<char>>,
    w: Wzorzec,
    t: Option<Narzedzie>,
    n: nat,
)
    requires
        roll_shape(parts, wzorzec_faces(w), narzedzie_faces_opt(t), n),
    ensures
        count_in(join_spaced(parts), '[') == n,
        count_in(join_spaced(parts), '(') == if t is Some {
            1nat
        } else {
            0nat
        },
{
    lemma_wzorzec_faces_clean(w);
    match t {
        Some(q) => lemma_narzedzie_faces_clean(q),
        None => (),
    }
    lemma_roll_token_counts(parts, wzorzec_faces(w), narzedzie_faces_opt(t), n);
}

} // verus!

verus! {

use crate::roll::{lemma_from_table_counts, lemma_join_counts, lemma_sum_counts_snoc};

/// The token-count law for battle rolls: the reply shows exactly the
/// clamped pool's number of bracketed tokens and one parenthesized
/// token per weapon.
pub proof fn lemma_bitwa_token_counts(parts: Seq<Seq<char>>, w: Wzorzec, bronie: Seq<Bron>, n: nat)
    requires
        bitwa_shape(parts, w, bronie, n),
    ensures
        count_in(join_spaced(parts), '[') == n,
        count_in(join_spaced(parts), '(') == bronie.len(),
    decreases bronie.len(),
{
    lemma_wzorzec_faces_clean(w);
    if bronie.len() == 0 {
        assert(roll_shape(parts, wzorzec_faces(w), None::<Seq<Seq<char>>>, n));
        crate::roll::lemma_roll_token_counts(parts, wzorzec_faces(w), None, n);
    } else {
        let parts2 = parts.drop_last();
        let bronie2 = bronie.drop_last();
        assert(parts2.len() == n + bronie2.len());
        assert(bitwa_shape(parts2, w, bronie2, n)) by {
            assert(forall|k: int| 0 <= k < parts2.len() ==> parts2[k] == parts[k]);
            assert(forall|m: int| 0 <= m < bronie2.len() ==> bronie2[m] == bronie[m]);
            assert forall|m: int| 0 <= m < bronie2.len() implies #[trigger] from_table(
                parts2[n + m],
                narzedzie_faces(bron_quality(bronie2[m])),
                true,
            ) by {
                assert(from_table(parts[n + m], narzedzie_faces(bron_quality(bronie[m])), true));
            }
        }
        lemma_bitwa_token_counts(parts2, w, bronie2, n);
        let last_q = bron_quality(bronie.last());
        lemma_narzedzie_faces_clean(last_q);
        assert(from_table(parts[n + bronie.len() - 1], narzedzie_faces(last_q), true));
        assert(parts.last() == parts[n + bronie.len() - 1]);
        lemma_from_table_counts(parts.last(), narzedzie_faces(last_q), true);
        assert(parts2.push(parts.last()) =~= parts);
        lemma_sum_counts_snoc(parts2, parts.last(), '[');
        lemma_sum_counts_snoc(parts2, parts.last(), '(');
        lemma_join_counts(parts, '[');
        lemma_join_counts(parts, '(');
        lemma_join_counts(parts2, '[');
        lemma_join_counts(parts2, '(');
    }
}

} // verus!
