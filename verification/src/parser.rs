//! Command-line tokenizer and argument parser: turns a sequence of
//! whitespace-delimited tokens into an order-preserving list of typed
//! argument nodes (positional words, short flags, long flags), each flag
//! carrying the value tokens that follow it.
use vstd::prelude::*;
use crate::outside::{lower_of, lowercase};

verus! {

/// A dash-prefixed token had no key character after the dash.
#[derive(Debug)]
pub struct InvalidArgument(pub String);

impl InvalidArgument {
    pub fn new(string: String) -> (r: Self)
        ensures
            r.0@ == string@,
    {
        Self(string)
    }

    /// The user-facing text of the error.
    pub fn message(&self) -> (r: String)
        ensures
            r@ == "niepoprawny argument: "@ + self.0@,
    {
        let mut r = String::new();
        r.append("niepoprawny argument: ");
        r.append(self.0.as_str());
        r
    }
}

/// One parsed argument node.
#[derive(Debug, PartialEq, Eq)]
pub enum Arg {
    /// A lower-cased word that belongs to no flag.
    Plain(String),
    /// A one-character flag with its trailing value tokens.
    Short(char, Vec<String>),
    /// A named flag (lower-cased) with its trailing value tokens.
    Long(String, Vec<String>),
}

/// The mathematical shape of an argument node.
pub enum ArgModel {
    Plain(Seq<char>),
    Short(char, Seq<Seq<char>>),
    Long(Seq<char>, Seq<Seq<char>>),
}

impl View for Arg {
    type V = ArgModel;

    open spec fn view(&self) -> ArgModel {
        match self {
            Arg::Plain(w) => ArgModel::Plain(w@),
            Arg::Short(c, vs) => ArgModel::Short(*c, vs.deep_view()),
            Arg::Long(w, vs) => ArgModel::Long(w@, vs.deep_view()),
        }
    }
}

pub open spec fn models(args: Seq<Arg>) -> Seq<ArgModel> {
    args.map_values(|a: Arg| a@)
}

/// A token is a flag iff it starts with a dash.
pub open spec fn is_flag_tok(t: Seq<char>) -> bool {
    t.len() >= 1 && t[0] == '-'
}

/// A token with two leading dashes names a long flag.
pub open spec fn is_long_tok(t: Seq<char>) -> bool {
    t.len() >= 2 && t[0] == '-' && t[1] == '-'
}

/// A token with exactly one leading dash names a short flag.
pub open spec fn is_short_tok(t: Seq<char>) -> bool {
    is_flag_tok(t) && !is_long_tok(t)
}

/// ASCII lowercasing of a single flag-key character.
pub open spec fn lower_char(c: char) -> char {
    if 'A' <= c && c <= 'Z' {
        (((c as u32) + 32) as u8) as char
    } else {
        c
    }
}

/// How many leading tokens a flag consumes as values: every token up to
/// the next flag token or the end of input.
pub open spec fn count_leading_values(toks: Seq<Seq<char>>) -> nat
    decreases toks.len(),
{
    if toks.len() == 0 || is_flag_tok(toks[0]) {
        0
    } else {
        1 + count_leading_values(toks.drop_first())
    }
}

pub open spec fn lowered(toks: Seq<Seq<char>>) -> Seq<Seq<char>> {
    toks.map_values(|t: Seq<char>| lower_of(t))
}

/// What the parser returns on a given token sequence; `None` is the
/// `MalformedFlag` failure, raised exactly by a lone-dash token.
pub open spec fn parse_spec(toks: Seq<Seq<char>>) -> Option<Seq<ArgModel>>
    decreases toks.len(),
{
    if toks.len() == 0 {
        Some(Seq::empty())
    } else {
        let t = toks[0];
        let rest = toks.drop_first();
        if !is_flag_tok(t) {
            match parse_spec(rest) {
                Some(nodes) => Some(seq![ArgModel::Plain(lower_of(t))] + nodes),
                None => None,
            }
        } else if is_long_tok(t) {
            let k = value_take(rest);
            match parse_spec(rest.skip(k)) {
                Some(nodes) => Some(
                    seq![ArgModel::Long(lower_of(t.skip(2)), lowered(rest.take(k)))] + nodes,
                ),
                None => None,
            }
        } else if t.len() == 1 {
            None
        } else {
            let k = value_take(rest);
            let attached: Seq<Seq<char>> = if t.len() > 2 {
                seq![lower_of(t.skip(2))]
            } else {
                seq![]
            };
            match parse_spec(rest.skip(k)) {
                Some(nodes) => Some(
                    seq![ArgModel::Short(lower_char(t[1]), attached + lowered(rest.take(k)))]
                        + nodes,
                ),
                None => None,
            }
        }
    }
}

/// The value count, clamped so that taking it from the sequence is
/// always meaningful.
pub open spec fn value_take(toks: Seq<Seq<char>>) -> int {
    if count_leading_values(toks) <= toks.len() {
        count_leading_values(toks) as int
    } else {
        toks.len() as int
    }
}

pub proof fn lemma_count_leading_le(toks: Seq<Seq<char>>)
    ensures
        count_leading_values(toks) <= toks.len(),
    decreases toks.len(),
{
    if toks.len() == 0 || is_flag_tok(toks[0]) {
    } else {
        lemma_count_leading_le(toks.drop_first());
    }
}

/// The value count is the position of the first flag token (or the
/// length, when none follows).
pub proof fn lemma_count_leading_exact(toks: Seq<Seq<char>>, k: int)
    requires
        0 <= k <= toks.len(),
        forall|m: int| 0 <= m < k ==> !is_flag_tok(toks[m]),
        k == toks.len() || is_flag_tok(toks[k]),
    ensures
        count_leading_values(toks) == k,
    decreases k,
{
    if k == 0 {
    } else {
        assert(!is_flag_tok(toks[0]));
        let rest = toks.drop_first();
        assert(forall|m: int| 0 <= m < k - 1 ==> rest[m] == toks[m + 1]);
        lemma_count_leading_exact(rest, k - 1);
    }
}

/// Every token inside the consumed-values prefix is a non-flag token.
pub proof fn lemma_count_leading_prefix(toks: Seq<Seq<char>>)
    ensures
        forall|m: int|
            0 <= m < count_leading_values(toks) ==> !is_flag_tok(#[trigger] toks[m]),
    decreases toks.len(),
{
    lemma_count_leading_le(toks);
    if toks.len() == 0 || is_flag_tok(toks[0]) {
    } else {
        let rest = toks.drop_first();
        lemma_count_leading_prefix(rest);
        assert(forall|m: int| 1 <= m < toks.len() ==> toks[m] == rest[m - 1]);
    }
}

pub open spec fn prepend_all(nodes: Seq<ArgModel>, r: Option<Seq<ArgModel>>) -> Option<
    Seq<ArgModel>,
> {
    match r {
        Some(rest) => Some(nodes + rest),
        None => None,
    }
}


/// Decides whether a token is a flag token (leading dash).
pub fn is_flag_token(t: &String) -> (b: bool)
    ensures
        b == is_flag_tok(t@),
{
    let tlen = t.as_str().unicode_len();
    tlen >= 1 && t.as_str().get_char(0) == '-'
}

impl Arg {
    /// Parses whitespace-delimited tokens into argument nodes, exactly as
    /// `parse_spec` states: positional words stand alone, a flag consumes
    /// the non-flag tokens after it as values, everything is lower-cased,
    /// and a lone dash is the `MalformedFlag` failure.
    pub fn try_parse(tokens: &Vec<String>) -> (r: Result<Vec<Arg>, InvalidArgument>)
        ensures
            match r {
                Ok(args) => parse_spec(tokens.deep_view()) == Some(models(args@)),
                Err(_) => parse_spec(tokens.deep_view()) is None,
            },
    {
        let ghost toks = tokens.deep_view();
        let n = tokens.len();
        let mut out: Vec<Arg> = Vec::new();
        let mut i: usize = 0;
        proof {
            assert(toks.skip(0) =~= toks);
            assert(models(out@) =~= Seq::<ArgModel>::empty());
        }
        while i < n
            invariant
                i <= n,
                n == tokens.len(),
                toks == tokens.deep_view(),
                parse_spec(toks) == prepend_all(models(out@), parse_spec(toks.skip(i as int))),
            decreases n - i,
        {
            let ghost rem = toks.skip(i as int);
            let ghost rest = toks.skip(i as int + 1);
            proof {
                assert(rem[0] == toks[i as int]);
                assert(rem.drop_first() =~= rest);
            }
            let t: &String = &tokens[i];
            let tlen = t.as_str().unicode_len();
            assert(tlen == toks[i as int].len());
            let is_flag = tlen >= 1 && t.as_str().get_char(0) == '-';
            let is_long = tlen >= 2 && is_flag && t.as_str().get_char(1) == '-';
            if !is_flag {
                let w = lowercase(t.as_str());
                out.push(Arg::Plain(w));
                i += 1;
                proof {
                    assert(models(out@) =~= models(out@.drop_last()) + seq![out@.last()@]);
                    assert(models(out@.drop_last()) + seq![ArgModel::Plain(lower_of(rem[0]))]
                        + parse_spec(rest).unwrap() =~= models(out@.drop_last()) + (seq![
                        ArgModel::Plain(lower_of(rem[0])),
                    ] + parse_spec(rest).unwrap())) by {
                        if parse_spec(rest) is Some {
                        }
                    }
                }
            } else if tlen == 1 {
                // a dash with no key character: MalformedFlag
                let w = lowercase(t.as_str());
                return Err(InvalidArgument::new(w));
            } else {
                // collect the trailing value tokens
                let mut vals: Vec<String> = Vec::new();
                if is_long {
                } else if tlen > 2 {
                    let att = t.as_str().substring_char(2, tlen);
                    let low = lowercase(att);
                    vals.push(low);
                    proof {
                        assert(rem[0].skip(2) =~= toks[i as int].subrange(2, rem[0].len() as int));
                        assert(vals.deep_view() =~= seq![lower_of(toks[i as int].skip(2))]);
                    }
                }
                let start = i + 1;
                let mut j = start;
                while j < n && !is_flag_token(&tokens[j])
                    invariant
                        start <= j <= n,
                        n == tokens.len(),
                        toks == tokens.deep_view(),
                        forall|m: int| start <= m < j ==> !is_flag_tok(toks[m]),
                        vals.deep_view() =~= pending_vals(toks, i as int, start as int, j as int),
                    decreases n - j,
                {
                    let ghost pre = vals.deep_view();
                    let u = lowercase(tokens[j].as_str());
                    proof {
                        assert(u@ == lower_of(toks[j as int]));
                    }
                    vals.push(u);
                    proof {
                        assert(vals.deep_view() =~= pre.push(lower_of(toks[j as int])));
                    }
                    j += 1;
                    proof {
                        assert(vals.deep_view() =~= pending_vals(
                            toks,
                            i as int,
                            start as int,
                            j as int,
                        ));
                    }
                }
                proof {
                    assert(forall|m: int| 0 <= m < j - start ==> rest[m] == toks[start + m]);
                    lemma_count_leading_exact(rest, j - start);
                    lemma_count_leading_le(rest);
                    assert(value_take(rest) == j - start);
                    assert(lowered(rest.take(j - start)) =~= Seq::new(
                        (j - start) as nat,
                        |m: int| lower_of(toks[start + m]),
                    ));
                }
                if is_long {
                    let name = t.as_str().substring_char(2, tlen);
                    let low = lowercase(name);
                    proof {
                        assert(rem[0].skip(2) =~= toks[i as int].subrange(2, rem[0].len() as int));
                    }
                    out.push(Arg::Long(low, vals));
                } else {
                    let key = t.as_str().get_char(1);
                    let k = if 'A' <= key && key <= 'Z' {
                        (((key as u32) + 32) as u8) as char
                    } else {
                        key
                    };
                    out.push(Arg::Short(k, vals));
                }
                proof {
                    assert(rest.skip(j - start) =~= toks.skip(j as int));
                    assert(models(out@) =~= models(out@.drop_last()) + seq![out@.last()@]);
                }
                i = j;
                proof {
                    let node = out@.last()@;
                    if parse_spec(toks.skip(i as int)) is Some {
                        assert(models(out@.drop_last()) + seq![node] + parse_spec(
                            toks.skip(i as int),
                        ).unwrap() =~= models(out@.drop_last()) + (seq![node] + parse_spec(
                            toks.skip(i as int),
                        ).unwrap()));
                    }
                }
            }
        }
        proof {
            assert(toks.skip(n as int) =~= Seq::<Seq<char>>::empty());
            assert(models(out@) + Seq::<ArgModel>::empty() =~= models(out@));
        }
        Ok(out)
    }
}

pub open spec fn pending_vals(toks: Seq<Seq<char>>, i: int, start: int, j: int) -> Seq<
    Seq<char>,
> {
    if toks[i].len() > 2 && is_short_tok(toks[i]) {
        seq![lower_of(toks[i].skip(2))] + Seq::new((j - start) as nat, |m: int| lower_of(toks[start + m]))
    } else {
        Seq::new((j - start) as nat, |m: int| lower_of(toks[start + m]))
    }
}

} // verus!

verus! {

/// How many input tokens a node accounts for: itself (its key or word)
/// plus one per value token.
pub open spec fn node_budget(m: ArgModel) -> nat {
    match m {
        ArgModel::Plain(_) => 1,
        ArgModel::Short(_, vs) => 1 + vs.len(),
        ArgModel::Long(_, vs) => 1 + vs.len(),
    }
}

pub open spec fn budget(nodes: Seq<ArgModel>) -> nat
    decreases nodes.len(),
{
    if nodes.len() == 0 {
        0
    } else {
        node_budget(nodes[0]) + budget(nodes.drop_first())
    }
}

proof fn lemma_budget_cons(m: ArgModel, ns: Seq<ArgModel>)
    ensures
        budget(seq![m] + ns) == node_budget(m) + budget(ns),
{
    assert((seq![m] + ns).drop_first() =~= ns);
    assert((seq![m] + ns)[0] == m);
}

/// Token budget: when no short flag carries an attached value (no token
/// of the shape `-xy...`), the node count plus the total count of value
/// tokens never exceeds the number of input tokens.
pub proof fn lemma_parse_budget(toks: Seq<Seq<char>>)
    requires
        forall|i: int| 0 <= i < toks.len() && is_short_tok(#[trigger] toks[i]) ==> toks[i].len() <= 2,
    ensures
        match parse_spec(toks) {
            Some(nodes) => budget(nodes) <= toks.len(),
            None => true,
        },
    decreases toks.len(),
{
    if toks.len() == 0 {
    } else {
        let t = toks[0];
        let rest = toks.drop_first();
        assert(forall|m: int| 0 <= m < rest.len() ==> rest[m] == toks[m + 1]);
        if !is_flag_tok(t) {
            lemma_parse_budget(rest);
            if parse_spec(rest) is Some {
                lemma_budget_cons(ArgModel::Plain(lower_of(t)), parse_spec(rest).unwrap());
            }
        } else {
            let k = value_take(rest);
            lemma_count_leading_le(rest);
            let tail = rest.skip(k);
            assert(forall|m: int| 0 <= m < tail.len() ==> tail[m] == toks[m + 1 + k]);
            lemma_parse_budget(tail);
            if is_long_tok(t) {
                if parse_spec(tail) is Some {
                    let node = ArgModel::Long(lower_of(t.skip(2)), lowered(rest.take(k)));
                    lemma_budget_cons(node, parse_spec(tail).unwrap());
                    assert(node_budget(node) == 1 + k);
                }
            } else if t.len() == 1 {
            } else {
                assert(t.len() <= 2);
                if parse_spec(tail) is Some {
                    let node = ArgModel::Short(lower_char(t[1]), lowered(rest.take(k)));
                    assert(seq![] + lowered(rest.take(k)) =~= lowered(rest.take(k)));
                    lemma_budget_cons(node, parse_spec(tail).unwrap());
                    assert(node_budget(node) == 1 + k);
                }
            }
        }
    }
}

/// The tokens a node re-joins to: its key (or word) followed by its
/// values, all as stored.
pub open spec fn flat_node(m: ArgModel) -> Seq<Seq<char>> {
    match m {
        ArgModel::Plain(w) => seq![w],
        ArgModel::Short(c, vs) => seq![seq![c]] + vs,
        ArgModel::Long(nm, vs) => seq![nm] + vs,
    }
}

pub open spec fn flatten(nodes: Seq<ArgModel>) -> Seq<Seq<char>>
    decreases nodes.len(),
{
    if nodes.len() == 0 {
        Seq::empty()
    } else {
        flat_node(nodes[0]) + flatten(nodes.drop_first())
    }
}

/// What a single input token becomes once stored in a node: dashes
/// stripped, the body lower-cased (a short key by its own ASCII rule).
pub open spec fn strip_lower(t: Seq<char>) -> Seq<char> {
    if is_long_tok(t) {
        lower_of(t.skip(2))
    } else if is_short_tok(t) {
        seq![lower_char(t[1])]
    } else {
        lower_of(t)
    }
}

proof fn lemma_flatten_cons(m: ArgModel, ns: Seq<ArgModel>)
    ensures
        flatten(seq![m] + ns) == flat_node(m) + flatten(ns),
{
    assert((seq![m] + ns).drop_first() =~= ns);
    assert((seq![m] + ns)[0] == m);
}

/// Order preservation: when no short flag carries an attached value,
/// re-joining the parsed nodes' keys and values gives back the input
/// tokens, in their original left-to-right order, each dash-stripped and
/// lower-cased.
pub proof fn lemma_parse_order(toks: Seq<Seq<char>>)
    requires
        forall|i: int| 0 <= i < toks.len() && is_short_tok(#[trigger] toks[i]) ==> toks[i].len() <= 2,
    ensures
        match parse_spec(toks) {
            Some(nodes) => flatten(nodes) == toks.map_values(|t: Seq<char>| strip_lower(t)),
            None => true,
        },
    decreases toks.len(),
{
    let f = |t: Seq<char>| strip_lower(t);
    if toks.len() == 0 {
        assert(flatten(Seq::empty()) =~= toks.map_values(f));
    } else {
        let t = toks[0];
        let rest = toks.drop_first();
        assert(forall|m: int| 0 <= m < rest.len() ==> rest[m] == toks[m + 1]);
        if !is_flag_tok(t) {
            lemma_parse_order(rest);
            if parse_spec(rest) is Some {
                let node = ArgModel::Plain(lower_of(t));
                lemma_flatten_cons(node, parse_spec(rest).unwrap());
                assert(flat_node(node) + rest.map_values(f) =~= toks.map_values(f));
            }
        } else {
            let k = value_take(rest);
            lemma_count_leading_le(rest);
            let tail = rest.skip(k);
            assert(forall|m: int| 0 <= m < tail.len() ==> tail[m] == toks[m + 1 + k]);
            lemma_parse_order(tail);
            if parse_spec(tail) is Some {
                let vals = lowered(rest.take(k));
                lemma_count_leading_prefix(rest);
                assert(forall|m: int| 0 <= m < k ==> !is_flag_tok(#[trigger] rest[m]));
                assert(forall|m: int| 0 <= m < k ==> vals[m] == strip_lower(toks[m + 1]));
                if is_long_tok(t) {
                    let node = ArgModel::Long(lower_of(t.skip(2)), vals);
                    lemma_flatten_cons(node, parse_spec(tail).unwrap());
                    assert(flat_node(node) + tail.map_values(f) =~= toks.map_values(f));
                } else if t.len() == 1 {
                } else {
                    assert(t.len() == 2);
                    let node = ArgModel::Short(lower_char(t[1]), seq![] + vals);
                    assert(seq![] + vals =~= vals);
                    lemma_flatten_cons(node, parse_spec(tail).unwrap());
                    assert(flat_node(node) + tail.map_values(f) =~= toks.map_values(f));
                }
            }
        }
    }
}

} // verus!

verus! {

/// The length of the leading word: every character up to the first
/// space or the end of input.
pub open spec fn word_len(s: Seq<char>) -> nat
    decreases s.len(),
{
    if s.len() == 0 || s[0] == ' ' {
        0
    } else {
        1 + word_len(s.drop_first())
    }
}

/// The word length, clamped so that taking it is always meaningful.
pub open spec fn word_take(s: Seq<char>) -> int {
    if word_len(s) <= s.len() {
        word_len(s) as int
    } else {
        s.len() as int
    }
}

pub proof fn lemma_word_len_le(s: Seq<char>)
    ensures
        word_len(s) <= s.len(),
    decreases s.len(),
{
    if s.len() == 0 || s[0] == ' ' {
    } else {
        lemma_word_len_le(s.drop_first());
    }
}

/// The word length is the position of the first space (or the length,
/// when none occurs).
pub proof fn lemma_word_len_exact(s: Seq<char>, k: int)
    requires
        0 <= k <= s.len(),
        forall|m: int| 0 <= m < k ==> s[m] != ' ',
        k == s.len() || s[k] == ' ',
    ensures
        word_len(s) == k,
    decreases k,
{
    if k == 0 {
    } else {
        let rest = s.drop_first();
        assert(forall|m: int| 0 <= m < k - 1 ==> rest[m] == s[m + 1]);
        lemma_word_len_exact(rest, k - 1);
    }
}

/// The whitespace-delimited tokens of a line: maximal runs of
/// non-space characters, in order, empty runs dropped.
pub open spec fn split_spaces(s: Seq<char>) -> Seq<Seq<char>>
    decreases s.len(),
{
    if s.len() == 0 {
        Seq::empty()
    } else if s[0] == ' ' {
        split_spaces(s.drop_first())
    } else {
        let k = word_take(s);
        seq![s.take(k)] + split_spaces(s.skip(k))
    }
}

/// Splits a raw command line into its whitespace-delimited tokens.
#[verifier::loop_isolation(false)]
pub fn tokenize(line: &str) -> (r: Vec<String>)
    ensures
        r.deep_view() == split_spaces(line@),
{
    let n = line.unicode_len();
    let mut out: Vec<String> = Vec::new();
    let mut i: usize = 0;
    proof {
        assert(line@.skip(0) =~= line@);
        assert(out.deep_view() + split_spaces(line@) =~= split_spaces(line@));
    }
    while i < n
        invariant
            i <= n,
            split_spaces(line@) == out.deep_view() + split_spaces(line@.skip(i as int)),
        decreases n - i,
    {
        let ghost rem = line@.skip(i as int);
        let c = line.get_char(i);
        proof {
            assert(rem[0] == line@[i as int]);
        }
        if c == ' ' {
            proof {
                assert(rem.drop_first() =~= line@.skip(i as int + 1));
            }
            i += 1;
        } else {
            let mut j = i + 1;
            while j < n && line.get_char(j) != ' '
                invariant
                    i < j <= n,
                    forall|m: int| i < m < j ==> line@[m] != ' ',
                decreases n - j,
            {
                j += 1;
            }
            proof {
                assert(forall|m: int| 0 <= m < j - i ==> rem[m] == line@[i + m]);
                lemma_word_len_exact(rem, j - i);
                lemma_word_len_le(rem);
                assert(word_take(rem) == j - i);
            }
            let w = line.substring_char(i, j);
            let word = String::from_str(w);
            let ghost pre = out.deep_view();
            out.push(word);
            proof {
                assert(out.deep_view() =~= pre.push(word@));
                assert(word@ =~= rem.take(j - i));
                assert(rem.skip(j - i) =~= line@.skip(j as int));
                assert(pre.push(rem.take(j - i)) =~= pre + seq![rem.take(j - i)]);
                assert(pre + (seq![rem.take(j - i)] + split_spaces(line@.skip(j as int))) =~= (pre
                    + seq![rem.take(j - i)]) + split_spaces(line@.skip(j as int)));
            }
            i = j;
        }
    }
    proof {
        assert(line@.skip(n as int) =~= Seq::<char>::empty());
        assert(out.deep_view() + Seq::<Seq<char>>::empty() =~= out.deep_view());
    }
    out
}

} // verus!
