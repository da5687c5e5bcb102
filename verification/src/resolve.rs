//! Command-level resolution over a parsed argument list: last-match-wins
//! selection of domain values, name extraction, and the numeric
//! modifier summation, with a verified decimal parser.
use vstd::prelude::*;
use crate::fuzzy::{fuzzy_match, fuzzy_spec};
use crate::parser::{Arg, ArgModel};
use crate::zug::{fach_of, narzedzie_of, Fach, Narzedzie};

verus! {

/// The training level named last among the nodes, scanning from the
/// end; absent means the default applies.
pub open spec fn last_fach(args: Seq<Arg>) -> Option<Fach>
    decreases args.len(),
{
    if args.len() == 0 {
        None
    } else {
        match fach_of(args.last()@) {
            Some(f) => Some(f),
            None => last_fach(args.drop_last()),
        }
    }
}

/// Resolves the training level: the last node that names one wins, and
/// the untrained default stands when none does.
pub fn resolve_fach(args: &Vec<Arg>) -> (r: Fach)
    ensures
        r == match last_fach(args@) {
            Some(f) => f,
            None => Fach::Zielony,
        },
{
    let mut r: Option<Fach> = None;
    let mut i: usize = 0;
    proof {
        assert(args@.take(0) =~= Seq::<Arg>::empty());
    }
    while i < args.len()
        invariant
            i <= args.len(),
            r == last_fach(args@.take(i as int)),
        decreases args.len() - i,
    {
        if let Some(f) = Fach::try_parse(&args[i]) {
            r = Some(f);
        }
        proof {
            assert(args@.take(i as int + 1).drop_last() =~= args@.take(i as int));
            assert(args@.take(i as int + 1).last() == args@[i as int]);
        }
        i += 1;
    }
    proof {
        assert(args@.take(args.len() as int) =~= args@);
    }
    match r {
        Some(f) => f,
        None => Fach::Zielony,
    }
}

/// The tool quality named last among the nodes, if any.
pub open spec fn last_narzedzie(args: Seq<Arg>) -> Option<Narzedzie>
    decreases args.len(),
{
    if args.len() == 0 {
        None
    } else {
        match narzedzie_of(args.last()@) {
            Some(n) => Some(n),
            None => last_narzedzie(args.drop_last()),
        }
    }
}

/// Resolves the tool quality: the last node that names one wins;
/// absence is a normal outcome.
pub fn resolve_narzedzie(args: &Vec<Arg>) -> (r: Option<Narzedzie>)
    ensures
        r == last_narzedzie(args@),
{
    let mut r: Option<Narzedzie> = None;
    let mut i: usize = 0;
    proof {
        assert(args@.take(0) =~= Seq::<Arg>::empty());
    }
    while i < args.len()
        invariant
            i <= args.len(),
            r == last_narzedzie(args@.take(i as int)),
        decreases args.len() - i,
    {
        if let Some(n) = Narzedzie::try_parse(&args[i]) {
            r = Some(n);
        }
        proof {
            assert(args@.take(i as int + 1).drop_last() =~= args@.take(i as int));
            assert(args@.take(i as int + 1).last() == args@[i as int]);
        }
        i += 1;
    }
    proof {
        assert(args@.take(args.len() as int) =~= args@);
    }
    r
}

/// The value tokens of a name flag: `-n` or a long flag fuzzy-matching
/// the canonical word.
pub open spec fn name_flag_of(a: ArgModel) -> Option<Seq<Seq<char>>> {
    match a {
        ArgModel::Short(c, vs) => if c == 'n' {
            Some(vs)
        } else {
            None
        },
        ArgModel::Long(p, vs) => if fuzzy_spec(p, "nazwa"@, 3) {
            Some(vs)
        } else {
            None
        },
        ArgModel::Plain(_) => None,
    }
}

pub open spec fn last_name_opts(args: Seq<Arg>) -> Option<Seq<Seq<char>>>
    decreases args.len(),
{
    if args.len() == 0 {
        None
    } else {
        match name_flag_of(args.last()@) {
            Some(vs) => Some(vs),
            None => last_name_opts(args.drop_last()),
        }
    }
}

/// The equipment name the arguments carry: the last value of the last
/// name flag, absent when no name flag was given or the last one
/// carries no value.
pub open spec fn resolved_name(args: Seq<Arg>) -> Option<Seq<char>> {
    match last_name_opts(args) {
        Some(vs) => if vs.len() > 0 {
            Some(vs.last())
        } else {
            None
        },
        None => None,
    }
}

/// Resolves the equipment name the arguments carry.
pub fn resolve_name(args: &Vec<Arg>) -> (r: Option<String>)
    ensures
        match r {
            Some(s) => resolved_name(args@) == Some(s@),
            None => resolved_name(args@) is None,
        },
{
    let mut opts: Option<&Vec<String>> = None;
    let mut i: usize = 0;
    proof {
        assert(args@.take(0) =~= Seq::<Arg>::empty());
    }
    while i < args.len()
        invariant
            i <= args.len(),
            match opts {
                Some(vs) => last_name_opts(args@.take(i as int)) == Some(vs.deep_view()),
                None => last_name_opts(args@.take(i as int)) is None,
            },
        decreases args.len() - i,
    {
        match &args[i] {
            Arg::Short(c, vs) => {
                if *c == 'n' {
                    opts = Some(vs);
                }
            },
            Arg::Long(p, vs) => {
                if fuzzy_match(p.as_str(), "nazwa", 3) {
                    opts = Some(vs);
                }
            },
            Arg::Plain(_) => {},
        }
        proof {
            assert(args@.take(i as int + 1).drop_last() =~= args@.take(i as int));
            assert(args@.take(i as int + 1).last() == args@[i as int]);
        }
        i += 1;
    }
    proof {
        assert(args@.take(args.len() as int) =~= args@);
    }
    match opts {
        Some(vs) => {
            if vs.len() > 0 {
                let s = vs[vs.len() - 1].clone();
                proof {
                    assert(vs.deep_view().last() == vs@[vs.len() - 1]@);
                }
                Some(s)
            } else {
                None
            }
        },
        None => None,
    }
}

} // verus!

verus! {

pub open spec fn is_digit(c: char) -> bool {
    '0' <= c && c <= '9'
}

pub open spec fn digit_val(c: char) -> int {
    c as u32 - '0' as u32
}

pub open spec fn all_digits(s: Seq<char>) -> bool {
    forall|i: int| 0 <= i < s.len() ==> is_digit(#[trigger] s[i])
}

/// The value of a non-empty digit string, most significant first.
pub open spec fn digits_val(s: Seq<char>) -> int
    decreases s.len(),
{
    if s.len() == 0 {
        0
    } else {
        digits_val(s.drop_last()) * 10 + digit_val(s.last())
    }
}

proof fn lemma_digits_val_nonneg(s: Seq<char>)
    requires
        all_digits(s),
    ensures
        digits_val(s) >= 0,
    decreases s.len(),
{
    if s.len() > 0 {
        assert(forall|i: int| 0 <= i < s.len() - 1 ==> s.drop_last()[i] == s[i]);
        lemma_digits_val_nonneg(s.drop_last());
        assert(is_digit(s.last()));
    }
}

/// What `str::parse` for a signed integer accepts: an optional sign,
/// then at least one digit, nothing else, with the value in range.
pub open spec fn spec_parse_int(s: Seq<char>) -> Option<int> {
    let signed = s.len() > 0 && (s[0] == '+' || s[0] == '-');
    let body = if signed {
        s.drop_first()
    } else {
        s
    };
    let sign: int = if s.len() > 0 && s[0] == '-' {
        -1
    } else {
        1
    };
    if body.len() > 0 && all_digits(body) {
        Some(sign * digits_val(body))
    } else {
        None
    }
}

pub open spec fn spec_parse_isize(s: Seq<char>) -> Option<int> {
    match spec_parse_int(s) {
        Some(v) => if isize::MIN <= v <= isize::MAX {
            Some(v)
        } else {
            None
        },
        None => None,
    }
}

/// Parses a decimal integer exactly as the standard signed parse does:
/// an optional sign, one or more digits, rejecting anything else and
/// any value outside the signed machine range.
#[verifier::loop_isolation(false)]
pub fn parse_isize(s: &str) -> (r: Option<isize>)
    ensures
        match r {
            Some(v) => spec_parse_isize(s@) == Some(v as int),
            None => spec_parse_isize(s@) is None,
        },
{
    let n = s.unicode_len();
    let mut i: usize = 0;
    let mut neg = false;
    if n > 0 {
        let c0 = s.get_char(0);
        if c0 == '+' {
            i = 1;
        } else if c0 == '-' {
            neg = true;
            i = 1;
        }
    }
    if i >= n {
        return None;
    }
    let start = i;
    let ghost body = s@.skip(start as int);
    proof {
        if start == 1 {
            assert(body =~= s@.drop_first());
        } else {
            assert(body =~= s@);
        }
        assert(body.len() > 0);
        assert(s@.subrange(start as int, start as int) =~= Seq::<char>::empty());
    }
    let mut j = start;
    let mut mag: u128 = 0;
    while j < n
        invariant
            start <= j <= n,
            all_digits(s@.subrange(start as int, j as int)),
            mag <= ((isize::MAX as u128) + 1) * 10 + 9,
            (digits_val(s@.subrange(start as int, j as int)) <= isize::MAX as int + 1 ==> mag
                == digits_val(s@.subrange(start as int, j as int))),
            (digits_val(s@.subrange(start as int, j as int)) > isize::MAX as int + 1 ==> mag
                > (isize::MAX as u128) + 1),
        decreases n - j,
    {
        let c = s.get_char(j);
        if !('0' <= c && c <= '9') {
            proof {
                assert(body[j - start] == s@[j as int]);
                assert(!is_digit(body[j - start]));
            }
            return None;
        }
        let d = (c as u32 - '0' as u32) as u128;
        let ghost pref = s@.subrange(start as int, j as int);
        let ghost pref1 = s@.subrange(start as int, j as int + 1);
        proof {
            assert(pref1.drop_last() =~= pref);
            assert(pref1.last() == s@[j as int]);
            lemma_digits_val_nonneg(pref);
        }
        if mag > (isize::MAX as u128) + 1 {
            // the magnitude already exceeds every representable value
        } else {
            mag = mag * 10 + d;
        }
        j += 1;
        proof {
            assert(digits_val(pref1) == digits_val(pref) * 10 + digit_val(s@[j - 1]));
        }
    }
    proof {
        assert(s@.subrange(start as int, n as int) =~= body);
        lemma_digits_val_nonneg(body);
    }
    proof {
        assert(isize::MIN as int == -(isize::MAX as int) - 1);
        if neg {
            assert(s@[0] == '-');
            assert(spec_parse_int(s@) == Some(-1 * digits_val(body)));
        } else {
            assert(spec_parse_int(s@) == Some(1 * digits_val(body)));
        }
    }
    if neg {
        if mag <= (isize::MAX as u128) + 1 {
            proof {
                assert(digits_val(body) <= isize::MAX as int + 1);
                assert(mag == digits_val(body));
            }
            let v = (-(mag as i128)) as isize;
            proof {
                assert(v as int == -1 * digits_val(body));
            }
            Some(v)
        } else {
            proof {
                assert(digits_val(body) > isize::MAX as int + 1);
                assert(-1 * digits_val(body) < isize::MIN as int);
            }
            None
        }
    } else {
        if mag <= isize::MAX as u128 {
            proof {
                assert(digits_val(body) <= isize::MAX as int + 1);
                assert(mag == digits_val(body));
            }
            let v = mag as isize;
            proof {
                assert(v as int == digits_val(body));
            }
            Some(v)
        } else {
            proof {
                assert(digits_val(body) > isize::MAX as int);
            }
            None
        }
    }
}

/// What `str::parse` for an unsigned integer accepts: an optional plus
/// sign, then at least one digit, with the value in range.
pub open spec fn spec_parse_usize(s: Seq<char>) -> Option<int> {
    let signed = s.len() > 0 && s[0] == '+';
    let body = if signed {
        s.drop_first()
    } else {
        s
    };
    if body.len() > 0 && all_digits(body) && digits_val(body) <= usize::MAX {
        Some(digits_val(body))
    } else {
        None
    }
}

/// Parses a decimal integer exactly as the standard unsigned parse
/// does.
#[verifier::loop_isolation(false)]
pub fn parse_usize(s: &str) -> (r: Option<usize>)
    ensures
        match r {
            Some(v) => spec_parse_usize(s@) == Some(v as int),
            None => spec_parse_usize(s@) is None,
        },
{
    let n = s.unicode_len();
    let mut i: usize = 0;
    if n > 0 {
        let c0 = s.get_char(0);
        if c0 == '+' {
            i = 1;
        } else if c0 == '-' {
            return None;
        }
    }
    if i >= n {
        return None;
    }
    let start = i;
    let ghost body = s@.skip(start as int);
    proof {
        if start == 1 {
            assert(body =~= s@.drop_first());
        } else {
            assert(body =~= s@);
        }
        assert(body.len() > 0);
        assert(s@.subrange(start as int, start as int) =~= Seq::<char>::empty());
    }
    let mut j = start;
    let mut mag: u128 = 0;
    while j < n
        invariant
            start <= j <= n,
            all_digits(s@.subrange(start as int, j as int)),
            mag <= ((usize::MAX as u128) + 1) * 10 + 9,
            (digits_val(s@.subrange(start as int, j as int)) <= usize::MAX as int ==> mag
                == digits_val(s@.subrange(start as int, j as int))),
            (digits_val(s@.subrange(start as int, j as int)) > usize::MAX as int ==> mag
                > usize::MAX as u128),
        decreases n - j,
    {
        let c = s.get_char(j);
        if !('0' <= c && c <= '9') {
            proof {
                assert(body[j - start] == s@[j as int]);
                assert(!is_digit(body[j - start]));
            }
            return None;
        }
        let d = (c as u32 - '0' as u32) as u128;
        let ghost pref = s@.subrange(start as int, j as int);
        let ghost pref1 = s@.subrange(start as int, j as int + 1);
        proof {
            assert(pref1.drop_last() =~= pref);
            assert(pref1.last() == s@[j as int]);
            lemma_digits_val_nonneg(pref);
        }
        if mag > usize::MAX as u128 {
        } else {
            mag = mag * 10 + d;
        }
        j += 1;
        proof {
            assert(digits_val(pref1) == digits_val(pref) * 10 + digit_val(s@[j - 1]));
        }
    }
    proof {
        assert(s@.subrange(start as int, n as int) =~= body);
        lemma_digits_val_nonneg(body);
    }
    if mag <= usize::MAX as u128 {
        Some(mag as usize)
    } else {
        None
    }
}

} // verus!

verus! {

/// A value clamped to the signed machine range.
pub open spec fn sat_isize(v: int) -> int {
    if v > isize::MAX as int {
        isize::MAX as int
    } else if v < isize::MIN as int {
        isize::MIN as int
    } else {
        v
    }
}

/// The numeric value a modifier flag carries: the parse of its last
/// value token, absent when it has none or the token is not a number.
pub open spec fn flag_val(vs: Seq<Seq<char>>) -> Option<int> {
    if vs.len() == 0 {
        None
    } else {
        spec_parse_isize(vs.last())
    }
}

pub open spec fn plus_val(a: ArgModel) -> Option<int> {
    match a {
        ArgModel::Short(c, vs) => if c == 'p' {
            flag_val(vs)
        } else {
            None
        },
        ArgModel::Long(p, vs) => if fuzzy_spec(p, "plus"@, 3) {
            flag_val(vs)
        } else {
            None
        },
        ArgModel::Plain(_) => None,
    }
}

pub open spec fn minus_val(a: ArgModel) -> Option<int> {
    match a {
        ArgModel::Short(c, vs) => if c == 'm' {
            flag_val(vs)
        } else {
            None
        },
        ArgModel::Long(p, vs) => if fuzzy_spec(p, "minus"@, 3) {
            flag_val(vs)
        } else {
            None
        },
        ArgModel::Plain(_) => None,
    }
}

/// The sum of all plus-modifier values, clamped at every step.
pub open spec fn sum_plus(args: Seq<Arg>) -> int
    decreases args.len(),
{
    if args.len() == 0 {
        0
    } else {
        match plus_val(args.last()@) {
            Some(v) => sat_isize(sum_plus(args.drop_last()) + v),
            None => sum_plus(args.drop_last()),
        }
    }
}

/// The sum of all minus-modifier values, clamped at every step.
pub open spec fn sum_minus(args: Seq<Arg>) -> int
    decreases args.len(),
{
    if args.len() == 0 {
        0
    } else {
        match minus_val(args.last()@) {
            Some(v) => sat_isize(sum_minus(args.drop_last()) + v),
            None => sum_minus(args.drop_last()),
        }
    }
}

fn sat_add(a: isize, b: isize) -> (r: isize)
    ensures
        r as int == sat_isize(a as int + b as int),
{
    let t: i128 = a as i128 + b as i128;
    if t > isize::MAX as i128 {
        isize::MAX
    } else if t < isize::MIN as i128 {
        isize::MIN
    } else {
        t as isize
    }
}

/// Resolves the battle-pool modifier: every plus flag's value added,
/// every minus flag's value subtracted, each step and the final
/// difference clamped to the machine range.
#[verifier::loop_isolation(false)]
pub fn resolve_modifier(args: &Vec<Arg>) -> (r: isize)
    ensures
        r as int == sat_isize(sum_plus(args@) - sum_minus(args@)),
{
    let mut p: isize = 0;
    let mut m: isize = 0;
    let mut i: usize = 0;
    proof {
        assert(args@.take(0) =~= Seq::<Arg>::empty());
    }
    while i < args.len()
        invariant
            i <= args.len(),
            p as int == sum_plus(args@.take(i as int)),
            m as int == sum_minus(args@.take(i as int)),
        decreases args.len() - i,
    {
        let arg = &args[i];
        let mut pv: Option<isize> = None;
        let mut mv: Option<isize> = None;
        match arg {
            Arg::Short(c, vs) => {
                if *c == 'p' && vs.len() > 0 {
                    proof {
                        assert(vs.deep_view().last() == vs@[vs.len() - 1]@);
                    }
                    pv = parse_isize(vs[vs.len() - 1].as_str());
                } else if *c == 'm' && vs.len() > 0 {
                    proof {
                        assert(vs.deep_view().last() == vs@[vs.len() - 1]@);
                    }
                    mv = parse_isize(vs[vs.len() - 1].as_str());
                }
            },
            Arg::Long(w, vs) => {
                if fuzzy_match(w.as_str(), "plus", 3) && vs.len() > 0 {
                    proof {
                        assert(vs.deep_view().last() == vs@[vs.len() - 1]@);
                    }
                    pv = parse_isize(vs[vs.len() - 1].as_str());
                }
                if fuzzy_match(w.as_str(), "minus", 3) && vs.len() > 0 {
                    proof {
                        assert(vs.deep_view().last() == vs@[vs.len() - 1]@);
                    }
                    mv = parse_isize(vs[vs.len() - 1].as_str());
                }
            },
            Arg::Plain(_) => {},
        }
        if let Some(v) = pv {
            p = sat_add(p, v);
        }
        if let Some(v) = mv {
            m = sat_add(m, v);
        }
        proof {
            assert(args@.take(i as int + 1).drop_last() =~= args@.take(i as int));
            assert(args@.take(i as int + 1).last() == args@[i as int]);
        }
        i += 1;
    }
    proof {
        assert(args@.take(args.len() as int) =~= args@);
    }
    let t: i128 = p as i128 - m as i128;
    if t > isize::MAX as i128 {
        isize::MAX
    } else if t < isize::MIN as i128 {
        isize::MIN
    } else {
        t as isize
    }
}

} // verus!
