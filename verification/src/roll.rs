//! The dice-pool rendering engine shared by both bot variants: wraps
//! drawn faces in brackets (pattern dice) or parentheses (tool dice),
//! joins them in draw order, and derives the concise summary (all drawn
//! symbols, sorted, restricted to the recognized alphabet).
use vstd::prelude::*;

verus! {

/// A face wrapped for display: brackets for a pattern die, parentheses
/// for a tool die.
pub open spec fn encap(s: Seq<char>, tool: bool) -> Seq<char> {
    if tool {
        seq!['('] + s + seq![')']
    } else {
        seq!['['] + s + seq![']']
    }
}

/// Wraps one drawn face for display.
pub fn encapsulate(s: &str, i: bool) -> (r: String)
    ensures
        r@ == encap(s@, i),
{
    proof {
        reveal_strlit("(");
        reveal_strlit(")");
        reveal_strlit("[");
        reveal_strlit("]");
        assert("("@ =~= seq!['(']);
        assert(")"@ =~= seq![')']);
        assert("["@ =~= seq!['[']);
        assert("]"@ =~= seq![']']);
    }
    let mut r = String::new();
    if i {
        r.append("(");
        r.append(s);
        r.append(")");
    } else {
        r.append("[");
        r.append(s);
        r.append("]");
    }
    proof {
        assert(r@ =~= encap(s@, i));
    }
    r
}

/// The drawn tokens joined by single spaces, in draw order.
pub open spec fn join_spaced(parts: Seq<Seq<char>>) -> Seq<char>
    decreases parts.len(),
{
    if parts.len() == 0 {
        Seq::empty()
    } else if parts.len() == 1 {
        parts[0]
    } else {
        parts[0] + seq![' '] + join_spaced(parts.drop_first())
    }
}

proof fn lemma_join_snoc(parts: Seq<Seq<char>>, x: Seq<char>)
    ensures
        join_spaced(parts.push(x)) == if parts.len() == 0 {
            x
        } else {
            join_spaced(parts) + seq![' '] + x
        },
    decreases parts.len(),
{
    let p = parts.push(x);
    if parts.len() == 0 {
        assert(p.len() == 1);
        assert(p[0] == x);
    } else {
        assert(p[0] == parts[0]);
        assert(p.drop_first() =~= parts.drop_first().push(x));
        lemma_join_snoc(parts.drop_first(), x);
        if parts.len() == 1 {
            assert(join_spaced(p) == parts[0] + seq![' '] + x);
            assert(join_spaced(parts) == parts[0]);
        } else {
            assert(join_spaced(p) == parts[0] + seq![' '] + (join_spaced(parts.drop_first())
                + seq![' '] + x));
            assert(parts[0] + seq![' '] + (join_spaced(parts.drop_first()) + seq![' '] + x)
                =~= (parts[0] + seq![' '] + join_spaced(parts.drop_first())) + seq![' '] + x);
        }
    }
}

/// Joins the wrapped tokens with single spaces.
pub fn join_parts(parts: &Vec<String>) -> (r: String)
    ensures
        r@ == join_spaced(parts.deep_view()),
{
    proof {
        reveal_strlit(" ");
        assert(" "@ =~= seq![' ']);
    }
    let ghost dv = parts.deep_view();
    let mut r = String::new();
    let mut i: usize = 0;
    proof {
        assert(dv.take(0) =~= Seq::<Seq<char>>::empty());
    }
    while i < parts.len()
        invariant
            i <= parts.len(),
            dv == parts.deep_view(),
            r@ == join_spaced(dv.take(i as int)),
        decreases parts.len() - i,
    {
        let ghost pre = r@;
        if i > 0 {
            r.append(" ");
            proof {
                reveal_strlit(" ");
                assert(r@ == pre + " "@);
                assert((" "@).len() == 1);
                assert((" "@)[0] == ' ');
                assert(" "@ =~= seq![' ']);
                assert(r@ =~= pre + seq![' ']);
            }
        }
        let ghost mid = r@;
        r.append(parts[i].as_str());
        proof {
            assert(r@ == mid + parts[i as int]@);
            assert(dv[i as int] == parts[i as int]@);
            assert(dv.take(i as int + 1) =~= dv.take(i as int).push(dv[i as int]));
            lemma_join_snoc(dv.take(i as int), dv[i as int]);
            if i > 0 {
                assert(r@ =~= pre + seq![' '] + dv[i as int]);
            } else {
                assert(r@ =~= dv[i as int]);
            }
        }
        i += 1;
    }
    proof {
        assert(dv.take(parts.len() as int) =~= dv);
    }
    r
}

/// How many times a character occurs in a sequence.
pub open spec fn count_in(s: Seq<char>, c: char) -> nat
    decreases s.len(),
{
    if s.len() == 0 {
        0
    } else {
        count_in(s.drop_last(), c) + (if s.last() == c {
            1nat
        } else {
            0nat
        })
    }
}

pub proof fn lemma_count_in_push(s: Seq<char>, x: char, c: char)
    ensures
        count_in(s.push(x), c) == count_in(s, c) + (if x == c {
            1nat
        } else {
            0nat
        }),
{
    assert(s.push(x).drop_last() =~= s);
    assert(s.push(x).last() == x);
}

pub proof fn lemma_count_in_concat(a: Seq<char>, b: Seq<char>, c: char)
    ensures
        count_in(a + b, c) == count_in(a, c) + count_in(b, c),
    decreases b.len(),
{
    if b.len() == 0 {
        assert(a + b =~= a);
    } else {
        assert(a + b =~= (a + b.drop_last()).push(b.last()));
        lemma_count_in_concat(a, b.drop_last(), c);
        lemma_count_in_push(a + b.drop_last(), b.last(), c);
    }
}

/// All drawn tokens concatenated, in draw order.
pub open spec fn concat_all(parts: Seq<Seq<char>>) -> Seq<char>
    decreases parts.len(),
{
    if parts.len() == 0 {
        Seq::empty()
    } else {
        concat_all(parts.drop_last()) + parts.last()
    }
}

pub open spec fn repeat_char(c: char, n: nat) -> Seq<char> {
    Seq::new(n, |i: int| c)
}

/// The concise summary: for each recognized symbol, in alphabet order,
/// as many copies as were drawn in total. Since the alphabet is listed
/// in ascending order, this is exactly the sorted, alphabet-filtered
/// aggregate of all drawn characters.
pub open spec fn concise_spec(all: Seq<char>, alpha: Seq<char>) -> Seq<char>
    decreases alpha.len(),
{
    if alpha.len() == 0 {
        Seq::empty()
    } else {
        repeat_char(alpha[0], count_in(all, alpha[0])) + concise_spec(all, alpha.drop_first())
    }
}

} // verus!

verus! {

use crate::outside::push_char;

/// Builds the concise summary of the drawn tokens over the given
/// recognized alphabet, listed in ascending order.
pub fn concise(parts: &Vec<String>, alphabet: &Vec<char>) -> (r: String)
    ensures
        r@ == concise_spec(concat_all(parts.deep_view()), alphabet@),
{
    let ghost dv = parts.deep_view();
    let ghost all = concat_all(dv);
    let mut r = String::new();
    let mut a: usize = 0;
    proof {
        assert(alphabet@.skip(0) =~= alphabet@);
        assert(Seq::<char>::empty() + concise_spec(all, alphabet@) =~= concise_spec(all, alphabet@));
    }
    while a < alphabet.len()
        invariant
            a <= alphabet.len(),
            dv == parts.deep_view(),
            all == concat_all(dv),
            r@ + concise_spec(all, alphabet@.skip(a as int)) == concise_spec(all, alphabet@),
        decreases alphabet.len() - a,
    {
        let c = alphabet[a];
        let ghost base = r@;
        let mut p: usize = 0;
        proof {
            assert(dv.take(0) =~= Seq::<Seq<char>>::empty());
            assert(repeat_char(c, 0) =~= Seq::<char>::empty());
            assert(base + repeat_char(c, 0) =~= base);
        }
        while p < parts.len()
            invariant
                p <= parts.len(),
                dv == parts.deep_view(),
                r@ == base + repeat_char(c, count_in(concat_all(dv.take(p as int)), c)),
            decreases parts.len() - p,
        {
            let s: &String = &parts[p];
            let m = s.as_str().unicode_len();
            let ghost done = concat_all(dv.take(p as int));
            let mut q: usize = 0;
            proof {
                assert(s@.take(0) =~= Seq::<char>::empty());
                assert(done + Seq::<char>::empty() =~= done);
            }
            while q < m
                invariant
                    q <= m,
                    m == s@.len(),
                    done == concat_all(dv.take(p as int)),
                    r@ == base + repeat_char(c, count_in(done + s@.take(q as int), c)),
                decreases m - q,
            {
                let ch = s.as_str().get_char(q);
                if ch == c {
                    push_char(&mut r, c);
                }
                proof {
                    assert((done + s@.take(q as int)).push(s@[q as int]) =~= done + s@.take(
                        q as int + 1,
                    ));
                    lemma_count_in_push(done + s@.take(q as int), s@[q as int], c);
                    if ch == c {
                        assert(repeat_char(
                            c,
                            count_in(done + s@.take(q as int), c) + 1,
                        ) =~= repeat_char(c, count_in(done + s@.take(q as int), c)).push(c));
                        assert(base + repeat_char(c, count_in(done + s@.take(q as int), c)).push(c)
                            =~= (base + repeat_char(
                            c,
                            count_in(done + s@.take(q as int), c),
                        )).push(c));
                    }
                }
                q += 1;
            }
            proof {
                assert(s@.take(m as int) =~= s@);
                assert(dv.take(p as int + 1) =~= dv.take(p as int).push(dv[p as int]));
                assert(dv.take(p as int + 1).drop_last() =~= dv.take(p as int));
                assert(dv[p as int] == s@);
                assert(concat_all(dv.take(p as int + 1)) == done + s@);
            }
            p += 1;
        }
        proof {
            assert(dv.take(parts.len() as int) =~= dv);
            let rest = alphabet@.skip(a as int);
            assert(rest[0] == alphabet@[a as int]);
            assert(rest.drop_first() =~= alphabet@.skip(a as int + 1));
            assert(concise_spec(all, rest) == repeat_char(c, count_in(all, c)) + concise_spec(
                all,
                alphabet@.skip(a as int + 1),
            ));
            assert(base + (repeat_char(c, count_in(all, c)) + concise_spec(
                all,
                alphabet@.skip(a as int + 1),
            )) =~= (base + repeat_char(c, count_in(all, c))) + concise_spec(
                all,
                alphabet@.skip(a as int + 1),
            ));
        }
        a += 1;
    }
    proof {
        assert(alphabet@.skip(alphabet.len() as int) =~= Seq::<char>::empty());
        assert(r@ + concise_spec(all, Seq::<char>::empty()) =~= r@);
    }
    r
}

} // verus!

verus! {

pub open spec fn sorted_chars(s: Seq<char>) -> bool {
    forall|i: int, j: int| 0 <= i < j < s.len() ==> (s[i] as u32) <= (s[j] as u32)
}

pub open spec fn strictly_increasing(alpha: Seq<char>) -> bool {
    forall|i: int, j: int| 0 <= i < j < alpha.len() ==> (alpha[i] as u32) < (alpha[j] as u32)
}

/// The concise summary is sorted ascending, and holds only characters of
/// the recognized alphabet.
pub proof fn lemma_concise_sorted(all: Seq<char>, alpha: Seq<char>)
    requires
        strictly_increasing(alpha),
    ensures
        sorted_chars(concise_spec(all, alpha)),
        forall|i: int|
            0 <= i < concise_spec(all, alpha).len() ==> alpha.contains(
                #[trigger] concise_spec(all, alpha)[i],
            ),
    decreases alpha.len(),
{
    if alpha.len() == 0 {
    } else {
        let alpha2 = alpha.drop_first();
        assert(forall|m: int| 0 <= m < alpha2.len() ==> alpha2[m] == alpha[m + 1]);
        lemma_concise_sorted(all, alpha2);
        let block = repeat_char(alpha[0], count_in(all, alpha[0]));
        let tail = concise_spec(all, alpha2);
        let whole = concise_spec(all, alpha);
        assert(whole == block + tail);
        assert forall|i: int| 0 <= i < whole.len() implies alpha.contains(#[trigger] whole[i]) by {
            if i < block.len() {
                assert(whole[i] == alpha[0]);
            } else {
                assert(whole[i] == tail[i - block.len()]);
                assert(alpha2.contains(tail[i - block.len()]));
                let j = choose|j: int| 0 <= j < alpha2.len() && alpha2[j] == tail[i - block.len()];
                assert(alpha[j + 1] == whole[i]);
            }
        }
        assert forall|i: int, j: int| 0 <= i < j < whole.len() implies (whole[i] as u32) <= (
        whole[j] as u32) by {
            if j < block.len() {
            } else if i < block.len() {
                assert(whole[i] == alpha[0]);
                let e = tail[j - block.len()];
                assert(alpha2.contains(e));
                let m = choose|m: int| 0 <= m < alpha2.len() && alpha2[m] == e;
                assert((alpha[0] as u32) < (alpha[m + 1] as u32));
            } else {
                assert(whole[i] == tail[i - block.len()]);
                assert(whole[j] == tail[j - block.len()]);
            }
        }
    }
}

proof fn lemma_count_repeat(c: char, n: nat, d: char)
    ensures
        count_in(repeat_char(c, n), d) == if c == d {
            n
        } else {
            0nat
        },
    decreases n,
{
    if n == 0 {
    } else {
        assert(repeat_char(c, n).drop_last() =~= repeat_char(c, (n - 1) as nat));
        assert(repeat_char(c, n).last() == c);
        lemma_count_repeat(c, (n - 1) as nat, d);
    }
}

/// The concise summary is, as a multiset, exactly the drawn characters
/// restricted to the recognized alphabet: a character of the alphabet
/// keeps its full count, every other character is dropped.
pub proof fn lemma_concise_counts(all: Seq<char>, alpha: Seq<char>, c: char)
    requires
        strictly_increasing(alpha),
    ensures
        count_in(concise_spec(all, alpha), c) == if alpha.contains(c) {
            count_in(all, c)
        } else {
            0nat
        },
    decreases alpha.len(),
{
    if alpha.len() == 0 {
        assert(!alpha.contains(c));
    } else {
        let alpha2 = alpha.drop_first();
        assert(forall|m: int| 0 <= m < alpha2.len() ==> alpha2[m] == alpha[m + 1]);
        lemma_concise_counts(all, alpha2, c);
        let block = repeat_char(alpha[0], count_in(all, alpha[0]));
        let tail = concise_spec(all, alpha2);
        lemma_count_in_concat(block, tail, c);
        lemma_count_repeat(alpha[0], count_in(all, alpha[0]), c);
        if c == alpha[0] {
            assert(alpha.contains(c));
            if alpha2.contains(c) {
                let m = choose|m: int| 0 <= m < alpha2.len() && alpha2[m] == c;
                assert((alpha[0] as u32) < (alpha[m + 1] as u32));
                assert(false);
            }
        } else {
            if alpha.contains(c) {
                let m = choose|m: int| 0 <= m < alpha.len() && alpha[m] == c;
                assert(alpha2[m - 1] == c);
                assert(alpha2.contains(c));
            }
            if alpha2.contains(c) {
                let m = choose|m: int| 0 <= m < alpha2.len() && alpha2[m] == c;
                assert(alpha[m + 1] == c);
                assert(alpha.contains(c));
            }
        }
    }
}

/// The total count of a character across the drawn tokens.
pub open spec fn sum_counts(parts: Seq<Seq<char>>, c: char) -> nat
    decreases parts.len(),
{
    if parts.len() == 0 {
        0
    } else {
        count_in(parts[0], c) + sum_counts(parts.drop_first(), c)
    }
}

/// Joining with single spaces keeps the per-token counts of every
/// non-space character.
pub proof fn lemma_join_counts(parts: Seq<Seq<char>>, c: char)
    requires
        c != ' ',
    ensures
        count_in(join_spaced(parts), c) == sum_counts(parts, c),
    decreases parts.len(),
{
    if parts.len() == 0 {
        assert(count_in(Seq::<char>::empty(), c) == 0);
    } else if parts.len() == 1 {
        assert(parts.drop_first().len() == 0);
        assert(sum_counts(parts.drop_first(), c) == 0);
        assert(sum_counts(parts, c) == count_in(parts[0], c));
        assert(join_spaced(parts) == parts[0]);
    } else {
        let rest = parts.drop_first();
        let sp: Seq<char> = seq![' '];
        lemma_join_counts(rest, c);
        lemma_count_in_concat(parts[0] + sp, join_spaced(rest), c);
        lemma_count_in_concat(parts[0], sp, c);
        assert(sp.len() == 1);
        assert(sp.last() == ' ');
        assert(sp.drop_last() =~= Seq::<char>::empty());
        assert(count_in(Seq::<char>::empty(), c) == 0);
        assert(count_in(sp, c) == 0);
        assert(join_spaced(parts) == (parts[0] + sp) + join_spaced(rest));
        assert(sum_counts(parts, c) == count_in(parts[0], c) + sum_counts(rest, c));
        assert(count_in((parts[0] + sp) + join_spaced(rest), c) == count_in(parts[0] + sp, c)
            + count_in(join_spaced(rest), c));
    }
}

} // verus!

verus! {

/// The separator between the detailed results and the concise summary.
pub open spec fn sep_seq() -> Seq<char> {
    seq![' ', ' ', ' ', '=', '>', '>', ' ', ' ', ' ']
}

/// The full reply for one roll: the wrapped tokens in draw order, the
/// separator, then the concise summary.
pub open spec fn reply_spec(parts: Seq<Seq<char>>, alpha: Seq<char>) -> Seq<char> {
    join_spaced(parts) + sep_seq() + concise_spec(concat_all(parts), alpha)
}

/// Assembles the reply string from the wrapped tokens.
pub fn reply(parts: &Vec<String>, alphabet: &Vec<char>) -> (r: String)
    ensures
        r@ == reply_spec(parts.deep_view(), alphabet@),
{
    let mut r = join_parts(parts);
    proof {
        reveal_strlit("   =>>   ");
        assert("   =>>   "@ =~= sep_seq());
    }
    r.append("   =>>   ");
    let c = concise(parts, alphabet);
    r.append(c.as_str());
    proof {
        assert(r@ =~= reply_spec(parts.deep_view(), alphabet@));
    }
    r
}

/// The shape every roll reply's token list has: `n` pattern dice drawn
/// from `faces` and wrapped in brackets, then, when a tool die is
/// present, one face drawn from the tool's table and wrapped in
/// parentheses as the last token.
/// The token is some face of the table, wrapped.
pub open spec fn from_table(part: Seq<char>, faces: Seq<Seq<char>>, tool: bool) -> bool {
    exists|j: int| 0 <= j < faces.len() && part == encap(#[trigger] faces[j], tool)
}

pub open spec fn roll_shape(
    parts: Seq<Seq<char>>,
    faces: Seq<Seq<char>>,
    tool: Option<Seq<Seq<char>>>,
    n: nat,
) -> bool {
    &&& parts.len() == n + (if tool is Some {
        1nat
    } else {
        0nat
    })
    &&& forall|k: int| 0 <= k < n ==> #[trigger] from_table(parts[k], faces, false)
    &&& match tool {
        Some(tf) => from_table(parts[n as int], tf, true),
        None => true,
    }
}

pub open spec fn bracket_free(faces: Seq<Seq<char>>) -> bool {
    forall|j: int|
        0 <= j < faces.len() ==> count_in(#[trigger] faces[j], '[') == 0 && count_in(
            faces[j],
            '(',
        ) == 0
}

proof fn lemma_count_singleton(x: char, c: char)
    ensures
        count_in(seq![x], c) == if x == c {
            1nat
        } else {
            0nat
        },
{
    let s: Seq<char> = seq![x];
    assert(s.len() == 1);
    assert(s.last() == x);
    assert(s.drop_last() =~= Seq::<char>::empty());
    assert(count_in(Seq::<char>::empty(), c) == 0);
}

proof fn lemma_encap_counts(f: Seq<char>, tool: bool, c: char)
    ensures
        count_in(encap(f, tool), c) == count_in(f, c) + (if (tool && c == '(') || (!tool && c
            == '[') {
            1nat
        } else {
            0nat
        }) + (if (tool && c == ')') || (!tool && c == ']') {
            1nat
        } else {
            0nat
        }),
{
    let open_c: char = if tool {
        '('
    } else {
        '['
    };
    let close_c: char = if tool {
        ')'
    } else {
        ']'
    };
    assert(encap(f, tool) == (seq![open_c] + f) + seq![close_c]);
    lemma_count_in_concat(seq![open_c] + f, seq![close_c], c);
    lemma_count_in_concat(seq![open_c], f, c);
    lemma_count_singleton(open_c, c);
    lemma_count_singleton(close_c, c);
}

proof fn lemma_shape_sums(
    parts: Seq<Seq<char>>,
    faces: Seq<Seq<char>>,
    tool: Option<Seq<Seq<char>>>,
    n: nat,
)
    requires
        roll_shape(parts, faces, tool, n),
        bracket_free(faces),
        match tool {
            Some(tf) => bracket_free(tf),
            None => true,
        },
    ensures
        sum_counts(parts, '[') == n,
        sum_counts(parts, '(') == if tool is Some {
            1nat
        } else {
            0nat
        },
    decreases n,
{
    if n == 0 {
        match tool {
            Some(tf) => {
                assert(parts.len() == 1);
                assert(from_table(parts[0], tf, true));
                let j = choose|j: int| 0 <= j < tf.len() && parts[0] == encap(#[trigger] tf[j], true);
                lemma_encap_counts(tf[j], true, '[');
                lemma_encap_counts(tf[j], true, '(');
                assert(parts.drop_first().len() == 0);
                assert(sum_counts(parts.drop_first(), '[') == 0);
                assert(sum_counts(parts.drop_first(), '(') == 0);
            },
            None => {
                assert(parts.len() == 0);
            },
        }
    } else {
        let rest = parts.drop_first();
        assert(forall|m: int| 0 <= m < rest.len() ==> rest[m] == parts[m + 1]);
        assert(roll_shape(rest, faces, tool, (n - 1) as nat)) by {
            assert forall|k: int| 0 <= k < n - 1 implies #[trigger] from_table(
                rest[k],
                faces,
                false,
            ) by {
                assert(from_table(parts[k + 1], faces, false));
                assert(rest[k] == parts[k + 1]);
            }
        }
        lemma_shape_sums(rest, faces, tool, (n - 1) as nat);
        assert(from_table(parts[0], faces, false));
        let j = choose|j: int| 0 <= j < faces.len() && parts[0] == encap(#[trigger] faces[j], false);
        lemma_encap_counts(faces[j], false, '[');
        lemma_encap_counts(faces[j], false, '(');
    }
}

/// Bracketed-token count: a roll of `n` pattern dice shows exactly `n`
/// bracket-opened tokens in the detailed results, plus exactly one
/// parenthesis-opened token when (and only when) a tool die was rolled,
/// provided the face tables themselves hold no bracket characters.
pub proof fn lemma_roll_token_counts(
    parts: Seq<Seq<char>>,
    faces: Seq<Seq<char>>,
    tool: Option<Seq<Seq<char>>>,
    n: nat,
)
    requires
        roll_shape(parts, faces, tool, n),
        bracket_free(faces),
        match tool {
            Some(tf) => bracket_free(tf),
            None => true,
        },
    ensures
        count_in(join_spaced(parts), '[') == n,
        count_in(join_spaced(parts), '(') == if tool is Some {
            1nat
        } else {
            0nat
        },
{
    lemma_shape_sums(parts, faces, tool, n);
    lemma_join_counts(parts, '[');
    lemma_join_counts(parts, '(');
}

} // verus!

verus! {

use crate::outside::rand_below;

/// The face table as character sequences.
pub open spec fn views_of(faces: Seq<&str>) -> Seq<Seq<char>> {
    faces.map_values(|s: &str| s@)
}

/// Draws `n` pattern dice uniformly (with replacement) from the face
/// table and wraps each in brackets.
pub fn draw_n<const N: usize>(faces: &[&'static str; N], n: usize) -> (parts: Vec<String>)
    requires
        N >= 1,
    ensures
        parts.deep_view().len() == n,
        forall|k: int|
            0 <= k < n ==> #[trigger] from_table(parts.deep_view()[k], views_of(faces@), false),
{
    let ghost table = views_of(faces@);
    let mut parts: Vec<String> = Vec::new();
    let mut i: usize = 0;
    while i < n
        invariant
            i <= n,
            N >= 1,
            table == views_of(faces@),
            parts.deep_view().len() == i,
            forall|k: int| 0 <= k < i ==> #[trigger] from_table(parts.deep_view()[k], table, false),
        decreases n - i,
    {
        let j = rand_below(N);
        let p = encapsulate(faces[j], false);
        let ghost pre = parts.deep_view();
        parts.push(p);
        proof {
            assert(parts.deep_view() =~= pre.push(p@));
            assert(table[j as int] == faces@[j as int]@);
            assert(from_table(p@, table, false));
        }
        i += 1;
    }
    parts
}

/// Draws one tool-die face uniformly and wraps it in parentheses.
pub fn draw_one(faces: &Vec<String>, tool: bool) -> (p: String)
    requires
        faces.len() >= 1,
    ensures
        from_table(p@, faces.deep_view(), tool),
{
    let j = rand_below(faces.len());
    let p = encapsulate(faces[j].as_str(), tool);
    proof {
        assert(faces.deep_view()[j as int] == faces[j as int]@);
        assert(from_table(p@, faces.deep_view(), tool));
    }
    p
}

} // verus!

verus! {

/// Draws one face uniformly from a fixed table and wraps it.
pub fn draw_one_arr<const N: usize>(faces: &[&'static str; N], tool: bool) -> (p: String)
    requires
        N >= 1,
    ensures
        from_table(p@, views_of(faces@), tool),
{
    let j = rand_below(N);
    let p = encapsulate(faces[j], tool);
    proof {
        assert(views_of(faces@)[j as int] == faces@[j as int]@);
        assert(from_table(p@, views_of(faces@), tool));
    }
    p
}

} // verus!

verus! {

/// A character absent from a sequence never counts.
pub proof fn lemma_count_absent(s: Seq<char>, c: char)
    requires
        forall|i: int| 0 <= i < s.len() ==> s[i] != c,
    ensures
        count_in(s, c) == 0,
    decreases s.len(),
{
    if s.len() > 0 {
        assert(forall|i: int| 0 <= i < s.len() - 1 ==> s.drop_last()[i] == s[i]);
        lemma_count_absent(s.drop_last(), c);
    }
}

} // verus!

verus! {

/// Appending one more token adds its count.
pub proof fn lemma_sum_counts_snoc(s: Seq<Seq<char>>, x: Seq<char>, c: char)
    ensures
        sum_counts(s.push(x), c) == sum_counts(s, c) + count_in(x, c),
    decreases s.len(),
{
    let p = s.push(x);
    if s.len() == 0 {
        assert(p[0] == x);
        assert(p.drop_first() =~= Seq::<Seq<char>>::empty());
        assert(sum_counts(p.drop_first(), c) == 0);
    } else {
        assert(p[0] == s[0]);
        assert(p.drop_first() =~= s.drop_first().push(x));
        lemma_sum_counts_snoc(s.drop_first(), x, c);
    }
}

/// The count a wrapped table face contributes: one for its own opening
/// character, none for the other kind, provided the table is clean.
pub proof fn lemma_from_table_counts(part: Seq<char>, faces: Seq<Seq<char>>, tool: bool)
    requires
        from_table(part, faces, tool),
        bracket_free(faces),
    ensures
        count_in(part, '[') == if tool {
            0nat
        } else {
            1nat
        },
        count_in(part, '(') == if tool {
            1nat
        } else {
            0nat
        },
{
    let j = choose|j: int| 0 <= j < faces.len() && part == encap(#[trigger] faces[j], tool);
    lemma_encap_counts(faces[j], tool, '[');
    lemma_encap_counts(faces[j], tool, '(');
}

} // verus!
