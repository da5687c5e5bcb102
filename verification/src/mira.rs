//! The first bot variant's domain vocabulary and dice engine: character
//! archetypes with 6-face symbol tables, tool qualities and groups, the
//! weapon reduction table, and the pooled roll.
use vstd::prelude::*;
use crate::fuzzy::{fuzzy_match, fuzzy_spec};
use crate::outside::{lower_of, lowercase};

verus! {

/// A character archetype: owns the 6-face symbol table of its dice.
#[derive(Clone, Copy, Debug, PartialEq, Eq, Structural)]
pub enum Archetype {
    Fighter,
    Thief,
    Priest,
}

/// Training level: selects the base dice-pool size.
#[derive(Clone, Copy, Debug, PartialEq, Eq, Structural)]
pub enum Field {
    Untrained,
    Trained,
    Proficient,
}

impl Field {
    pub open spec fn spec_dice(self) -> usize {
        match self {
            Self::Untrained => 3,
            Self::Trained => 4,
            Self::Proficient => 5,
        }
    }

    /// Base number of pattern dice granted by this training level.
    pub fn dice(&self) -> (n: usize)
        ensures
            n == self.spec_dice(),
            3 <= n <= 5,
    {
        match self {
            Self::Untrained => 3,
            Self::Trained => 4,
            Self::Proficient => 5,
        }
    }
}

/// Which archetype a (lower-cased) word denotes: its one-letter
/// shorthand, or a fuzzy match on the canonical name within distance 4.
pub open spec fn archetype_of(w: Seq<char>) -> Option<Archetype> {
    if w == seq!['w'] || fuzzy_spec(w, seq!['w', 'o', 'j', 'o', 'w', 'n', 'i', 'k'], 4) {
        Some(Archetype::Fighter)
    } else if w == seq!['z'] || fuzzy_spec(
        w,
        seq!['z', '\u{142}', 'o', 'd', 'z', 'i', 'e', 'j'],
        4,
    ) {
        Some(Archetype::Thief)
    } else if w == seq!['k'] || fuzzy_spec(w, seq!['k', 'a', 'p', '\u{142}', 'a', 'n'], 4) {
        Some(Archetype::Priest)
    } else {
        None
    }
}

/// Is the string exactly the one given character?
pub(crate) fn str_is_char(s: &str, c: char) -> (b: bool)
    ensures
        b == (s@ =~= seq![c]),
{
    let n = s.unicode_len();
    if n == 1 {
        let r = s.get_char(0) == c;
        proof {
            if s@[0] == c {
                assert(s@ =~= seq![c]);
            }
        }
        r
    } else {
        false
    }
}

impl Archetype {
    /// Resolves a user-typed word to an archetype, case-insensitively.
    pub fn parse(arg: &str) -> (r: Option<Self>)
        ensures
            r == archetype_of(lower_of(arg@)),
    {
        proof {
            reveal_strlit("wojownik");
            reveal_strlit("z\u{142}odziej");
            reveal_strlit("kap\u{142}an");
            assert("wojownik"@ =~= seq!['w', 'o', 'j', 'o', 'w', 'n', 'i', 'k']);
            assert("z\u{142}odziej"@ =~= seq!['z', '\u{142}', 'o', 'd', 'z', 'i', 'e', 'j']);
            assert("kap\u{142}an"@ =~= seq!['k', 'a', 'p', '\u{142}', 'a', 'n']);
        }
        let low = lowercase(arg);
        let w = low.as_str();
        if str_is_char(w, 'w') || fuzzy_match(w, "wojownik", 4) {
            Some(Self::Fighter)
        } else if str_is_char(w, 'z') || fuzzy_match(w, "z\u{142}odziej", 4) {
            Some(Self::Thief)
        } else if str_is_char(w, 'k') || fuzzy_match(w, "kap\u{142}an", 4) {
            Some(Self::Priest)
        } else {
            None
        }
    }
}

impl Archetype {
    /// The archetype's display name.
    pub fn name_str(self) -> (r: &'static str)
        ensures
            match self {
                Archetype::Fighter => r@ == "Wojownik"@,
                Archetype::Thief => r@ == "Złodziej"@,
                Archetype::Priest => r@ == "Kapłan"@,
            },
    {
        match self {
            Self::Fighter => "Wojownik",
            Self::Thief => "Złodziej",
            Self::Priest => "Kapłan",
        }
    }
}

/// The 6-face symbol table of an archetype's pattern die.
pub open spec fn archetype_faces(a: Archetype) -> Seq<Seq<char>> {
    match a {
        Archetype::Fighter => seq![
            seq!['B', 'B'],
            seq!['B'],
            seq!['B'],
            seq!['A'],
            seq!['A'],
            seq!['C'],
        ],
        Archetype::Thief => seq![
            seq!['A', 'A'],
            seq!['A'],
            seq!['A'],
            seq!['C'],
            seq!['C'],
            seq!['B'],
        ],
        Archetype::Priest => seq![
            seq!['C', 'C'],
            seq!['C'],
            seq!['C'],
            seq!['B'],
            seq!['B'],
            seq!['A'],
        ],
    }
}

impl Archetype {
    /// The archetype's face table.
    pub fn die(&self) -> (r: [&'static str; 6])
        ensures
            r@.map_values(|s: &str| s@) =~~= archetype_faces(*self),
    {
        proof {
            reveal_strlit("BB");
            reveal_strlit("AA");
            reveal_strlit("CC");
            reveal_strlit("A");
            reveal_strlit("B");
            reveal_strlit("C");
        }
        let r = match self {
            Self::Fighter => ["BB", "B", "B", "A", "A", "C"],
            Self::Thief => ["AA", "A", "A", "C", "C", "B"],
            Self::Priest => ["CC", "C", "C", "B", "B", "A"],
        };
        proof {
            assert(r@.map_values(|s: &str| s@) =~~= archetype_faces(*self));
        }
        r
    }
}

} // verus!

verus! {

/// A tool's categorical group; its sigil brands the tool die's faces.
#[derive(Clone, Copy, Debug, PartialEq, Eq, Structural)]
pub enum Group {
    Agile,
    Brute,
    Clever,
}

/// Which group a one-character code denotes.
pub open spec fn group_of(s: Seq<char>) -> Option<Group> {
    if s == seq!['a'] {
        Some(Group::Agile)
    } else if s == seq!['b'] {
        Some(Group::Brute)
    } else if s == seq!['c'] {
        Some(Group::Clever)
    } else {
        None
    }
}

pub open spec fn group_sigil(g: Group) -> char {
    match g {
        Group::Agile => 'A',
        Group::Brute => 'B',
        Group::Clever => 'C',
    }
}

impl Group {
    /// Does the string name a group?
    pub fn valid(c: &str) -> (b: bool)
        ensures
            b == (group_of(c@) is Some),
    {
        str_is_char(c, 'a') || str_is_char(c, 'b') || str_is_char(c, 'c')
    }

    /// The group named by a valid one-character code.
    pub fn parse(c: &str) -> (r: Self)
        requires
            group_of(c@) is Some,
        ensures
            Some(r) == group_of(c@),
    {
        if str_is_char(c, 'a') {
            Self::Agile
        } else if str_is_char(c, 'b') {
            Self::Brute
        } else {
            proof {
                assert(c@ =~= seq!['c']);
            }
            Self::Clever
        }
    }

    /// The one-character sigil substituted into a quality face template.
    pub fn sigil(&self) -> (r: char)
        ensures
            r == group_sigil(*self),
    {
        match self {
            Self::Agile => 'A',
            Self::Brute => 'B',
            Self::Clever => 'C',
        }
    }
}

/// A tool's quality tier.
#[derive(Clone, Copy, Debug, PartialEq, Eq, Structural)]
pub enum Quality {
    Fine,
    Decent,
    Crude,
}

pub open spec fn quality_of(s: Seq<char>) -> Option<Quality> {
    if s == seq!['f'] {
        Some(Quality::Fine)
    } else if s == seq!['d'] {
        Some(Quality::Decent)
    } else if s == seq!['c'] {
        Some(Quality::Crude)
    } else {
        None
    }
}

/// The 6-face template of a quality tier; `X` is the placeholder the
/// group sigil replaces, a space is a blank face.
pub open spec fn quality_faces(q: Quality) -> Seq<Seq<char>> {
    match q {
        Quality::Fine => seq![
            seq!['X', 'X'],
            seq!['X'],
            seq!['X'],
            seq!['X'],
            seq![' '],
            seq![' '],
        ],
        Quality::Decent => seq![
            seq!['X', 'X'],
            seq!['X'],
            seq!['X'],
            seq![' '],
            seq![' '],
            seq![' '],
        ],
        Quality::Crude => seq![
            seq!['X', 'X'],
            seq!['X'],
            seq![' '],
            seq![' '],
            seq![' '],
            seq![' '],
        ],
    }
}

impl Quality {
    /// Does the string name a quality tier?
    pub fn valid(c: &str) -> (b: bool)
        ensures
            b == (quality_of(c@) is Some),
    {
        str_is_char(c, 'f') || str_is_char(c, 'd') || str_is_char(c, 'c')
    }

    /// The quality named by a valid one-character code.
    pub fn parse(c: &str) -> (r: Self)
        requires
            quality_of(c@) is Some,
        ensures
            Some(r) == quality_of(c@),
    {
        if str_is_char(c, 'f') {
            Self::Fine
        } else if str_is_char(c, 'd') {
            Self::Decent
        } else {
            proof {
                assert(c@ =~= seq!['c']);
            }
            Self::Crude
        }
    }

    /// The quality's face template.
    pub fn die(&self) -> (r: [&'static str; 6])
        ensures
            r@.map_values(|s: &str| s@) =~~= quality_faces(*self),
    {
        proof {
            reveal_strlit("XX");
            reveal_strlit("X");
            reveal_strlit(" ");
        }
        let r = match self {
            Self::Fine => ["XX", "X", "X", "X", " ", " "],
            Self::Decent => ["XX", "X", "X", " ", " ", " "],
            Self::Crude => ["XX", "X", " ", " ", " ", " "],
        };
        proof {
            assert(r@.map_values(|s: &str| s@) =~~= quality_faces(*self));
        }
        r
    }
}

/// A weapon's range class.
#[derive(Clone, Copy, Debug, PartialEq, Eq, Structural)]
pub enum Range {
    Melee,
    Ranged,
}

pub open spec fn range_of(s: Seq<char>) -> Option<Range> {
    if s == seq!['b'] {
        Some(Range::Melee)
    } else if s == seq!['d'] {
        Some(Range::Ranged)
    } else {
        None
    }
}

impl Range {
    /// Does the string name a range class?
    pub fn valid(c: &str) -> (b: bool)
        ensures
            b == (range_of(c@) is Some),
    {
        str_is_char(c, 'b') || str_is_char(c, 'd')
    }

    /// The range class named by a valid one-character code.
    pub fn parse(c: &str) -> (r: Self)
        requires
            range_of(c@) is Some,
        ensures
            Some(r) == range_of(c@),
    {
        if str_is_char(c, 'b') {
            Self::Melee
        } else {
            proof {
                assert(c@ =~= seq!['d']);
            }
            Self::Ranged
        }
    }
}

/// A weapon's weight class.
#[derive(Clone, Copy, Debug, PartialEq, Eq, Structural)]
pub enum Weight {
    Light,
    Heavy,
}

pub open spec fn weight_of(s: Seq<char>) -> Option<Weight> {
    if s == seq!['l'] {
        Some(Weight::Light)
    } else if s == seq!['c'] {
        Some(Weight::Heavy)
    } else {
        None
    }
}

impl Weight {
    /// Does the string name a weight class?
    pub fn valid(c: &str) -> (b: bool)
        ensures
            b == (weight_of(c@) is Some),
    {
        str_is_char(c, 'l') || str_is_char(c, 'c')
    }

    /// The weight class named by a valid one-character code.
    pub fn parse(c: &str) -> (r: Self)
        requires
            weight_of(c@) is Some,
        ensures
            Some(r) == weight_of(c@),
    {
        if str_is_char(c, 'l') {
            Self::Light
        } else {
            proof {
                assert(c@ =~= seq!['c']);
            }
            Self::Heavy
        }
    }
}

} // verus!

verus! {

/// A tool modifier: a pure quality+group tool, a weapon reducible to
/// one, or bare hands (no extra die).
#[derive(Clone, Copy, Debug, PartialEq, Eq, Structural)]
pub enum Tool {
    Pure(Quality, Group),
    Weapon(Weight, Range, Group),
    Bare,
}

/// The fixed Weight x Range -> Quality reduction table.
pub open spec fn weapon_quality(w: Weight, r: Range) -> Quality {
    match (w, r) {
        (Weight::Light, Range::Ranged) => Quality::Crude,
        (Weight::Heavy, Range::Ranged) => Quality::Decent,
        (Weight::Light, Range::Melee) => Quality::Decent,
        (Weight::Heavy, Range::Melee) => Quality::Fine,
    }
}

pub open spec fn spec_simplify(t: Tool) -> Tool {
    match t {
        Tool::Pure(q, g) => Tool::Pure(q, g),
        Tool::Weapon(w, r, g) => Tool::Pure(weapon_quality(w, r), g),
        Tool::Bare => Tool::Bare,
    }
}

/// Which pure tool a two-character quality+group code denotes.
pub open spec fn tool_of(s: Seq<char>) -> Option<Tool> {
    if s.len() == 2 && quality_of(seq![s[0]]) is Some && group_of(seq![s[1]]) is Some {
        Some(Tool::Pure(quality_of(seq![s[0]]).unwrap(), group_of(seq![s[1]]).unwrap()))
    } else {
        None
    }
}

/// Which reduced weapon a three-character weight+range+group code
/// denotes.
pub open spec fn weapon_of(s: Seq<char>) -> Option<Tool> {
    if s.len() == 3 && weight_of(seq![s[0]]) is Some && range_of(seq![s[1]]) is Some && group_of(
        seq![s[2]],
    ) is Some {
        Some(
            spec_simplify(
                Tool::Weapon(
                    weight_of(seq![s[0]]).unwrap(),
                    range_of(seq![s[1]]).unwrap(),
                    group_of(seq![s[2]]).unwrap(),
                ),
            ),
        )
    } else {
        None
    }
}

impl Tool {
    /// Reduces a weapon to its equivalent pure tool via the fixed
    /// Weight x Range table; other tools are unchanged.
    pub fn simplify(&self) -> (r: Self)
        ensures
            r == spec_simplify(*self),
    {
        match self {
            Self::Pure(q, g) => Self::Pure(*q, *g),
            Self::Weapon(w, r, g) => match (w, r) {
                (Weight::Light, Range::Ranged) => Self::Pure(Quality::Crude, *g),
                (Weight::Heavy, Range::Ranged) => Self::Pure(Quality::Decent, *g),
                (Weight::Light, Range::Melee) => Self::Pure(Quality::Decent, *g),
                (Weight::Heavy, Range::Melee) => Self::Pure(Quality::Fine, *g),
            },
            Self::Bare => Self::Bare,
        }
    }

    /// Parses a quality+group code (such as `fa`) into a pure tool,
    /// case-insensitively; rejects anything else with a message naming
    /// the offending argument.
    pub fn parse_tool(arg: Option<&str>) -> (r: Result<Self, String>)
        ensures
            match arg {
                Some(a) => match tool_of(lower_of(a@)) {
                    Some(t) => r == Ok::<Tool, String>(t),
                    None => r matches Err(m) && m@ == "niepoprawny argument narz\u{119}dzia: "@
                        + a@ + ". "@,
                },
                None => (r matches Err(m) && m@ == "nie podano argumentu narz\u{119}dzia. "@),
            },
    {
        match arg {
            Some(a) => {
                let low = lowercase(a);
                let w = low.as_str();
                let n = w.unicode_len();
                if n == 2 {
                    let q = w.substring_char(0, 1);
                    let g = w.substring_char(1, 2);
                    proof {
                        assert(q@ =~= seq![low@[0]]);
                        assert(g@ =~= seq![low@[1]]);
                    }
                    if Quality::valid(q) && Group::valid(g) {
                        Ok(Self::Pure(Quality::parse(q), Group::parse(g)))
                    } else {
                        let mut m = String::new();
                        m.append("niepoprawny argument narz\u{119}dzia: ");
                        m.append(a);
                        m.append(". ");
                        Err(m)
                    }
                } else {
                    let mut m = String::new();
                    m.append("niepoprawny argument narz\u{119}dzia: ");
                    m.append(a);
                    m.append(". ");
                    Err(m)
                }
            },
            None => {
                let mut m = String::new();
                m.append("nie podano argumentu narz\u{119}dzia. ");
                Err(m)
            },
        }
    }

    /// Parses a weight+range+group code (such as `lba`) into the
    /// equivalent pure tool, case-insensitively; rejects anything else
    /// with a message naming the offending argument.
    pub fn parse_weapon(arg: Option<&str>) -> (r: Result<Self, String>)
        ensures
            match arg {
                Some(a) => match weapon_of(lower_of(a@)) {
                    Some(t) => r == Ok::<Tool, String>(t),
                    None => r matches Err(m) && m@ == "niepoprawny argument broni: "@ + a@
                        + ". "@,
                },
                None => (r matches Err(m) && m@ == "nie podano argumentu broni. "@),
            },
    {
        match arg {
            Some(a) => {
                let low = lowercase(a);
                let s = low.as_str();
                let n = s.unicode_len();
                if n == 3 {
                    let w = s.substring_char(0, 1);
                    let r = s.substring_char(1, 2);
                    let g = s.substring_char(2, 3);
                    proof {
                        assert(w@ =~= seq![low@[0]]);
                        assert(r@ =~= seq![low@[1]]);
                        assert(g@ =~= seq![low@[2]]);
                    }
                    if Weight::valid(w) && Range::valid(r) && Group::valid(g) {
                        Ok(
                            Self::Weapon(
                                Weight::parse(w),
                                Range::parse(r),
                                Group::parse(g),
                            ).simplify(),
                        )
                    } else {
                        let mut m = String::new();
                        m.append("niepoprawny argument broni: ");
                        m.append(a);
                        m.append(". ");
                        Err(m)
                    }
                } else {
                    let mut m = String::new();
                    m.append("niepoprawny argument broni: ");
                    m.append(a);
                    m.append(". ");
                    Err(m)
                }
            },
            None => {
                let mut m = String::new();
                m.append("nie podano argumentu broni. ");
                Err(m)
            },
        }
    }
}

/// P8, the reduction table law: every Weight x Range pair reduces to
/// exactly one Quality, with Heavy+Melee the finest and Light+Ranged the
/// crudest extreme.
pub proof fn lemma_weapon_quality_total()
    ensures
        forall|w: Weight, r: Range|
            #[trigger] spec_simplify(Tool::Weapon(w, r, Group::Agile)) matches Tool::Pure(q, _)
                && q == weapon_quality(w, r),
        weapon_quality(Weight::Heavy, Range::Melee) == Quality::Fine,
        weapon_quality(Weight::Light, Range::Ranged) == Quality::Crude,
{
}

} // verus!

verus! {

use crate::outside::push_char;
use crate::roll::{
    draw_n, draw_one, encap, from_table, reply, reply_spec, roll_shape, views_of,
};

/// A quality face with every placeholder replaced by the group sigil.
pub open spec fn sub_sigil(s: Seq<char>, sig: char) -> Seq<char> {
    s.map_values(
        |c: char|
            if c == 'X' {
                sig
            } else {
                c
            },
    )
}

/// Substitutes the group sigil for every placeholder in a face.
fn substitute(s: &str, sig: char) -> (r: String)
    ensures
        r@ == sub_sigil(s@, sig),
{
    let n = s.unicode_len();
    let mut r = String::new();
    let mut q: usize = 0;
    proof {
        assert(r@ =~= sub_sigil(s@.take(0), sig));
    }
    while q < n
        invariant
            q <= n,
            n == s@.len(),
            r@ == sub_sigil(s@.take(q as int), sig),
        decreases n - q,
    {
        let c = s.get_char(q);
        if c == 'X' {
            push_char(&mut r, sig);
        } else {
            push_char(&mut r, c);
        }
        q += 1;
        proof {
            assert(r@ =~= sub_sigil(s@.take(q as int), sig));
        }
    }
    proof {
        assert(s@.take(n as int) =~= s@);
    }
    r
}

/// The branded 6-face table of a pure tool: the quality template with
/// the group's sigil in place of every placeholder.
pub open spec fn tool_face_table(q: Quality, g: Group) -> Seq<Seq<char>> {
    quality_faces(q).map_values(|f: Seq<char>| sub_sigil(f, group_sigil(g)))
}

/// The face table of a tool's extra die, when it grants one.
pub open spec fn tool_faces_opt(t: Tool) -> Option<Seq<Seq<char>>> {
    match t {
        Tool::Pure(q, g) => Some(tool_face_table(q, g)),
        Tool::Weapon(w, r, g) => Some(tool_face_table(weapon_quality(w, r), g)),
        Tool::Bare => None,
    }
}

impl Tool {
    /// The branded face table of a pure tool.
    fn die_safe(&self) -> (r: Vec<String>)
        requires
            *self matches Tool::Pure(_, _),
        ensures
            (*self matches Tool::Pure(q, g) ==> r.deep_view() =~~= tool_face_table(q, g)),
            r.len() == 6,
    {
        match self {
            Self::Pure(q, g) => {
                let faces = q.die();
                let sig = g.sigil();
                let mut r: Vec<String> = Vec::new();
                let mut i: usize = 0;
                while i < 6
                    invariant
                        i <= 6,
                        r.deep_view().len() == i,
                        faces@.map_values(|s: &str| s@) =~~= quality_faces(*q),
                        sig == group_sigil(*g),
                        forall|k: int|
                            0 <= k < i ==> r.deep_view()[k] == sub_sigil(
                                #[trigger] quality_faces(*q)[k],
                                group_sigil(*g),
                            ),
                    decreases 6 - i,
                {
                    let ghost pre = r.deep_view();
                    let f = substitute(faces[i], sig);
                    r.push(f);
                    proof {
                        assert(r.deep_view() =~= pre.push(f@));
                        assert(faces@[i as int]@ == quality_faces(*q)[i as int]);
                    }
                    i += 1;
                }
                proof {
                    assert(r.deep_view() =~~= tool_face_table(*q, *g));
                }
                r
            },
            _ => {
                // unreachable under the precondition
                proof {
                    assert(false);
                }
                Vec::new()
            },
        }
    }

    /// The face table of the tool's extra die: a pure tool's branded
    /// table, a weapon's reduced branded table, nothing for bare hands.
    pub fn die(&self) -> (r: Option<Vec<String>>)
        ensures
            match r {
                Some(v) => tool_faces_opt(*self) == Some(v.deep_view()) && v.len() == 6,
                None => *self is Bare,
            },
    {
        match self {
            Self::Pure(_q, _g) => Some(self.die_safe()),
            Self::Weapon(_w, _r, _g) => Some(self.simplify().die_safe()),
            Self::Bare => None,
        }
    }
}

/// The recognized symbol alphabet of this variant, ascending.
pub open spec fn mira_alphabet() -> Seq<char> {
    seq!['A', 'B', 'C', 'R']
}

/// One pooled roll: draws the training level's number of pattern dice
/// from the archetype's table, one branded tool die when a tool is
/// carried, and assembles the reply with its concise summary over the
/// recognized alphabet.
pub fn dice(wzor: &Archetype, field: &Field, tool: &Tool) -> (r: String)
    ensures
        exists|parts: Seq<Seq<char>>|
            #[trigger] roll_shape(
                parts,
                archetype_faces(*wzor),
                tool_faces_opt(*tool),
                field.spec_dice() as nat,
            ) && r@ == reply_spec(parts, mira_alphabet()),
{
    let faces = wzor.die();
    proof {
        assert(views_of(faces@) =~~= archetype_faces(*wzor));
    }
    let n = field.dice();
    let mut parts = draw_n(&faces, n);
    match tool.die() {
        Some(tf) => {
            let p = draw_one(&tf, true);
            let ghost pre = parts.deep_view();
            parts.push(p);
            proof {
                assert(parts.deep_view() =~= pre.push(p@));
            }
        },
        None => {},
    }
    let alphabet: Vec<char> = vec!['A', 'B', 'C', 'R'];
    let out = reply(&parts, &alphabet);
    proof {
        assert(alphabet@ =~= mira_alphabet());
        assert(roll_shape(
            parts.deep_view(),
            archetype_faces(*wzor),
            tool_faces_opt(*tool),
            field.spec_dice() as nat,
        ));
    }
    out
}

} // verus!

verus! {

use crate::roll::{bracket_free, lemma_count_absent};

/// No archetype face holds a bracket character, so the bracketed-token
/// count law applies to every roll of this variant.
pub proof fn lemma_archetype_faces_clean(a: Archetype)
    ensures
        bracket_free(archetype_faces(a)),
{
    let faces = archetype_faces(a);
    assert forall|j: int| 0 <= j < faces.len() implies crate::roll::count_in(
        #[trigger] faces[j],
        '[',
    ) == 0 && crate::roll::count_in(faces[j], '(') == 0 by {
        lemma_count_absent(faces[j], '[');
        lemma_count_absent(faces[j], '(');
    }
}

/// No branded tool face holds a bracket character either: a face is
/// made only of the group sigil and the quality template's characters.
pub proof fn lemma_tool_faces_clean(q: Quality, g: Group)
    ensures
        bracket_free(tool_face_table(q, g)),
{
    let faces = tool_face_table(q, g);
    assert forall|j: int| 0 <= j < faces.len() implies crate::roll::count_in(
        #[trigger] faces[j],
        '[',
    ) == 0 && crate::roll::count_in(faces[j], '(') == 0 by {
        let f = quality_faces(q)[j];
        assert(faces[j] == sub_sigil(f, group_sigil(g)));
        assert(forall|i: int| 0 <= i < faces[j].len() ==> faces[j][i] != '[') by {
            assert(forall|i: int|
                0 <= i < f.len() ==> sub_sigil(f, group_sigil(g))[i] == (if f[i] == 'X' {
                    group_sigil(g)
                } else {
                    f[i]
                }));
        }
        assert(forall|i: int| 0 <= i < faces[j].len() ==> faces[j][i] != '(') by {
            assert(forall|i: int|
                0 <= i < f.len() ==> sub_sigil(f, group_sigil(g))[i] == (if f[i] == 'X' {
                    group_sigil(g)
                } else {
                    f[i]
                }));
        }
        lemma_count_absent(faces[j], '[');
        lemma_count_absent(faces[j], '(');
    }
}

} // verus!

verus! {

use crate::roll::{count_in, join_spaced, lemma_roll_token_counts};

/// The bracketed-token count law for this variant's rolls: a reply
/// shaped by `dice` shows exactly `n` bracketed pattern tokens, and one
/// parenthesized tool token exactly when a tool die was rolled.
pub proof fn lemma_dice_token_counts(parts: Seq<Seq<char>>, a: Archetype, t: Tool, n: nat)
    requires
        roll_shape(parts, archetype_faces(a), tool_faces_opt(t), n),
    ensures
        count_in(join_spaced(parts), '[') == n,
        count_in(join_spaced(parts), '(') == if t is Bare {
            0nat
        } else {
            1nat
        },
{
    lemma_archetype_faces_clean(a);
    match t {
        Tool::Pure(q, g) => lemma_tool_faces_clean(q, g),
        Tool::Weapon(w, r, g) => lemma_tool_faces_clean(weapon_quality(w, r), g),
        Tool::Bare => (),
    }
    lemma_roll_token_counts(parts, archetype_faces(a), tool_faces_opt(t), n);
}

} // verus!
