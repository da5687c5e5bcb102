//! A player's owned weapons: an ordered collection where equipment is
//! added, chosen, stashed and removed by fuzzy name match, the last
//! matching entry replaced in place.
use vstd::prelude::*;
use crate::fuzzy::{fuzzy_match, fuzzy_spec};
use crate::zug::Bron;

verus! {

/// One owned weapon: the weapon itself, whether it is currently chosen
/// for battle, and its display name.
pub struct BronGracza {
    pub bron: Bron,
    pub aktywna: bool,
    pub nazwa: String,
}

/// The index of the last weapon whose name fuzzy-matches the given one
/// within distance 3, if any.
pub open spec fn match_last(list: Seq<BronGracza>, nazwa: Seq<char>) -> Option<int>
    decreases list.len(),
{
    if list.len() == 0 {
        None
    } else if fuzzy_spec(list.last().nazwa@, nazwa, 3) {
        Some(list.len() - 1)
    } else {
        match_last(list.drop_last(), nazwa)
    }
}

/// Finds the last weapon whose name fuzzy-matches.
pub fn find_bron(list: &Vec<BronGracza>, nazwa: &str) -> (r: Option<usize>)
    ensures
        match r {
            Some(i) => match_last(list@, nazwa@) == Some(i as int) && i < list.len(),
            None => match_last(list@, nazwa@) is None,
        },
{
    let mut r: Option<usize> = None;
    let mut i: usize = 0;
    proof {
        assert(list@.take(0) =~= Seq::<BronGracza>::empty());
    }
    while i < list.len()
        invariant
            i <= list.len(),
            match r {
                Some(k) => match_last(list@.take(i as int), nazwa@) == Some(k as int) && k < i,
                None => match_last(list@.take(i as int), nazwa@) is None,
            },
        decreases list.len() - i,
    {
        if fuzzy_match(list[i].nazwa.as_str(), nazwa, 3) {
            r = Some(i);
        }
        proof {
            assert(list@.take(i as int + 1).drop_last() =~= list@.take(i as int));
            assert(list@.take(i as int + 1).last() == list@[i as int]);
        }
        i += 1;
    }
    proof {
        assert(list@.take(list.len() as int) =~= list@);
    }
    r
}

/// The collection after the entry at `i` has its chosen mark replaced.
pub open spec fn set_active(list: Seq<BronGracza>, i: int, active: bool) -> Seq<BronGracza> {
    list.update(
        i,
        BronGracza { bron: list[i].bron, aktywna: active, nazwa: list[i].nazwa },
    )
}

/// Adds a weapon to the collection.
pub fn dodaj(list: &mut Vec<BronGracza>, b: BronGracza)
    ensures
        final(list)@ == old(list)@.push(b),
{
    list.push(b);
}

/// Marks the last weapon fuzzy-matching the name as chosen or stashed,
/// in place; reports whether one was found.
pub fn przestaw(list: &mut Vec<BronGracza>, nazwa: &str, active: bool) -> (ok: bool)
    ensures
        match match_last(old(list)@, nazwa@) {
            Some(i) => ok && final(list)@ =~= set_active(old(list)@, i, active),
            None => !ok && final(list)@ == old(list)@,
        },
{
    match find_bron(list, nazwa) {
        Some(i) => {
            let x = list.remove(i);
            let y = BronGracza { bron: x.bron, aktywna: active, nazwa: x.nazwa };
            list.insert(i, y);
            proof {
                let ghost l0 = old(list)@;
                assert(list@ =~= set_active(l0, i as int, active));
            }
            true
        },
        None => false,
    }
}

/// Removes the last weapon fuzzy-matching the name; reports whether
/// one was found.
pub fn usun(list: &mut Vec<BronGracza>, nazwa: &str) -> (ok: bool)
    ensures
        match match_last(old(list)@, nazwa@) {
            Some(i) => ok && final(list)@ == old(list)@.remove(i),
            None => !ok && final(list)@ == old(list)@,
        },
{
    match find_bron(list, nazwa) {
        Some(i) => {
            let _ = list.remove(i);
            true
        },
        None => false,
    }
}

/// The display line of one owned weapon: its name, whether it is
/// chosen, and its range and weight classes.
pub fn opis(b: &BronGracza) -> (r: String)
    ensures
        r@ == b.nazwa@ + (if b.aktywna {
            " (wybrana) : "@
        } else {
            " (schowana) : "@
        }) + match b.bron.zasieg {
            crate::zug::Zasieg::Biala => "biała"@,
            crate::zug::Zasieg::Miotajaca => "miotająca"@,
        } + ", "@ + (match b.bron.waga {
            crate::zug::Waga::Lekka => "lekka"@,
            crate::zug::Waga::Ciezka => "ciężka"@,
        }) + ")"@,
{
    let mut r = String::new();
    r.append(b.nazwa.as_str());
    if b.aktywna {
        r.append(" (wybrana) : ");
    } else {
        r.append(" (schowana) : ");
    }
    r.append(b.bron.zasieg_str());
    r.append(", ");
    r.append(b.bron.waga_str());
    r.append(")");
    r
}

} // verus!
