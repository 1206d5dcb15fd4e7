//! Laws of the pass over the tokens.
use crate::opt::Form;
use crate::optz::{first_match, form_matches, is_lone_dash, is_option_like, lemma_first_match_from, record, run};
use vstd::prelude::*;

verus! {

/// A token that the pass looks up among the options.
pub open spec fn looked_up(t: Seq<char>) -> bool {
    is_option_like(t) && !is_lone_dash(t)
}

/// Two tokens that pick the same option, such as its long and its short
/// form, have the same effect wherever they stand at the start of what is
/// left of the pass.
pub proof fn lemma_alias_equivalence(
    forms: Seq<Form>,
    a: Seq<char>,
    b: Seq<char>,
    post: Seq<Seq<char>>,
    vals: Seq<Seq<Seq<char>>>,
    rest: Seq<Seq<char>>,
)
    requires
        looked_up(a),
        looked_up(b),
        first_match(forms, a) is Some,
        first_match(forms, a) == first_match(forms, b),
    ensures
        run(forms, seq![a] + post, vals, rest) == run(forms, seq![b] + post, vals, rest),
{
    assert((seq![a] + post).drop_first() =~= post);
    assert((seq![b] + post).drop_first() =~= post);
}

/// Naming a flag that does not take several values twice in a row, by
/// either of its forms, stores what naming it once does.
pub proof fn lemma_repeated_flag(
    forms: Seq<Form>,
    a: Seq<char>,
    b: Seq<char>,
    post: Seq<Seq<char>>,
    vals: Seq<Seq<Seq<char>>>,
    rest: Seq<Seq<char>>,
)
    requires
        looked_up(a),
        looked_up(b),
        first_match(forms, a) matches Some(j) && !forms[j].takes_value && !forms[j].multiple,
        first_match(forms, a) == first_match(forms, b),
        vals.len() == forms.len(),
    ensures
        run(forms, seq![a, b] + post, vals, rest) == run(forms, seq![a] + post, vals, rest),
{
    let j = first_match(forms, a)->Some_0;
    lemma_first_match_from(forms, a, 0);
    let once = vals.update(j, record(vals[j], false, "true"@));
    assert((seq![a, b] + post).drop_first() =~= seq![b] + post);
    assert((seq![b] + post).drop_first() =~= post);
    assert((seq![a] + post).drop_first() =~= post);
    assert(once.update(j, record(once[j], false, "true"@)) =~= once);
    assert(run(forms, seq![a, b] + post, vals, rest) == run(forms, seq![b] + post, once, rest));
    assert(run(forms, seq![b] + post, once, rest) == run(forms, post, once, rest));
    assert(run(forms, seq![a] + post, vals, rest) == run(forms, post, once, rest));
}

/// Tokens that are no options go to the positional tokens, in the order
/// they came, and change no value.
pub proof fn lemma_positional_prefix(
    forms: Seq<Form>,
    pre: Seq<Seq<char>>,
    post: Seq<Seq<char>>,
    vals: Seq<Seq<Seq<char>>>,
    rest: Seq<Seq<char>>,
)
    requires
        forall|i: int| 0 <= i < pre.len() ==> !is_option_like(#[trigger] pre[i]),
    ensures
        run(forms, pre + post, vals, rest) == run(forms, post, vals, rest + pre),
    decreases pre.len(),
{
    if pre.len() == 0 {
        assert(pre + post =~= post);
        assert(rest + pre =~= rest);
    } else {
        assert(!is_option_like(pre[0]));
        assert((pre + post).drop_first() =~= pre.drop_first() + post);
        assert(rest.push(pre[0]) + pre.drop_first() =~= rest + pre);
        lemma_positional_prefix(forms, pre.drop_first(), post, vals, rest.push(pre[0]));
    }
}

/// An option that no token names keeps the values it started with, a
/// default among them.
pub proof fn lemma_untouched_keeps_values(
    forms: Seq<Form>,
    toks: Seq<Seq<char>>,
    vals: Seq<Seq<Seq<char>>>,
    rest: Seq<Seq<char>>,
    j: int,
)
    requires
        0 <= j < forms.len(),
        vals.len() == forms.len(),
        forall|i: int| 0 <= i < toks.len() ==> !form_matches(forms[j], #[trigger] toks[i]),
    ensures
        run(forms, toks, vals, rest) matches Some(out) ==> out.0[j] == vals[j],
    decreases toks.len(),
{
    if toks.len() > 0 {
        let tok = toks[0];
        let tail = toks.drop_first();
        assert(forall|i: int| 0 <= i < tail.len() ==> tail[i] == toks[i + 1]);
        if is_lone_dash(tok) {
            lemma_untouched_keeps_values(forms, tail, vals, rest, j);
        } else if is_option_like(tok) {
            lemma_first_match_from(forms, tok, 0);
            match first_match(forms, tok) {
                None => lemma_untouched_keeps_values(forms, tail, vals, rest, j),
                Some(k) => {
                    assert(k != j);
                    if !forms[k].takes_value {
                        let v2 = vals.update(k, record(vals[k], forms[k].multiple, "true"@));
                        lemma_untouched_keeps_values(forms, tail, v2, rest, j);
                    } else if tail.len() > 0 {
                        let v2 = vals.update(k, record(vals[k], forms[k].multiple, tail[0]));
                        let t2 = tail.drop_first();
                        assert(forall|i: int| 0 <= i < t2.len() ==> t2[i] == toks[i + 2]);
                        lemma_untouched_keeps_values(forms, t2, v2, rest, j);
                    }
                },
            }
        } else {
            lemma_untouched_keeps_values(forms, tail, vals, rest.push(tok), j);
        }
    }
}

/// An option that takes a value, named by the last token, fails the pass.
pub proof fn lemma_missing_argument(
    forms: Seq<Form>,
    tok: Seq<char>,
    vals: Seq<Seq<Seq<char>>>,
    rest: Seq<Seq<char>>,
)
    requires
        looked_up(tok),
        first_match(forms, tok) matches Some(j) && forms[j].takes_value,
    ensures
        run(forms, seq![tok], vals, rest) is None,
{
    lemma_first_match_from(forms, tok, 0);
}

/// Naming an option that takes a value twice stores both values, in order,
/// where it takes several, and the second alone where it does not.
pub proof fn lemma_multiplicity(
    forms: Seq<Form>,
    a: Seq<char>,
    x: Seq<char>,
    b: Seq<char>,
    y: Seq<char>,
    post: Seq<Seq<char>>,
    vals: Seq<Seq<Seq<char>>>,
    rest: Seq<Seq<char>>,
)
    requires
        looked_up(a),
        looked_up(b),
        first_match(forms, a) matches Some(j) && forms[j].takes_value,
        first_match(forms, a) == first_match(forms, b),
        vals.len() == forms.len(),
    ensures
        ({
            let j = first_match(forms, a)->Some_0;
            run(forms, seq![a, x, b, y] + post, vals, rest) == run(
                forms,
                post,
                vals.update(
                    j,
                    if forms[j].multiple {
                        vals[j] + seq![x, y]
                    } else {
                        seq![y]
                    },
                ),
                rest,
            )
        }),
{
    let j = first_match(forms, a)->Some_0;
    lemma_first_match_from(forms, a, 0);
    let toks = seq![a, x, b, y] + post;
    assert(toks.drop_first() =~= seq![x, b, y] + post);
    assert(toks.drop_first().drop_first() =~= seq![b, y] + post);
    assert((seq![b, y] + post).drop_first() =~= seq![y] + post);
    assert((seq![y] + post).drop_first() =~= post);
    let once = vals.update(j, record(vals[j], forms[j].multiple, x));
    let twice = once.update(j, record(once[j], forms[j].multiple, y));
    assert(vals[j].push(x).push(y) =~= vals[j] + seq![x, y]);
    assert(run(forms, toks, vals, rest) == run(forms, seq![b, y] + post, once, rest));
    assert(run(forms, seq![b, y] + post, once, rest) == run(forms, post, twice, rest));
    assert(twice =~= vals.update(
        j,
        if forms[j].multiple {
            vals[j] + seq![x, y]
        } else {
            seq![y]
        },
    ));
}

/// A token that names no option, and the lone `-`, are dropped: they
/// change no value and are no positional token.
pub proof fn lemma_unknown_dropped(
    forms: Seq<Form>,
    tok: Seq<char>,
    post: Seq<Seq<char>>,
    vals: Seq<Seq<Seq<char>>>,
    rest: Seq<Seq<char>>,
)
    requires
        is_option_like(tok),
        is_lone_dash(tok) || first_match(forms, tok) is None,
    ensures
        run(forms, seq![tok] + post, vals, rest) == run(forms, post, vals, rest),
{
    assert((seq![tok] + post).drop_first() =~= post);
}

/// How many tokens the pass takes at `tok`: two where it names an option
/// that takes a value, one otherwise.
pub open spec fn width(forms: Seq<Form>, tok: Seq<char>) -> int {
    if looked_up(tok) && (first_match(forms, tok) matches Some(j) && forms[j].takes_value) {
        2
    } else {
        1
    }
}

/// Whether the pass over `toks` starts a step at position `p`, that is,
/// `toks[p]` is not taken as the value of an option.
pub open spec fn reaches(forms: Seq<Form>, toks: Seq<Seq<char>>, p: int) -> bool
    decreases toks.len(),
{
    if p == 0 {
        true
    } else if p < 0 || toks.len() == 0 {
        false
    } else {
        let w = width(forms, toks[0]);
        if w > toks.len() {
            false
        } else {
            reaches(forms, toks.subrange(w, toks.len() as int), p - w)
        }
    }
}

/// The positional tokens of `toks`: those that do not start with `-` and
/// are not taken as the value of an option, in input order.
pub open spec fn kept(forms: Seq<Form>, toks: Seq<Seq<char>>) -> Seq<Seq<char>>
    decreases toks.len(),
{
    if toks.len() == 0 {
        Seq::empty()
    } else if !is_option_like(toks[0]) {
        seq![toks[0]] + kept(forms, toks.drop_first())
    } else if width(forms, toks[0]) == 2 && toks.len() >= 2 {
        kept(forms, toks.subrange(2, toks.len() as int))
    } else {
        kept(forms, toks.drop_first())
    }
}

/// The pass reaches the last token, and it names an option that takes a value.
pub open spec fn fails(forms: Seq<Form>, toks: Seq<Seq<char>>) -> bool {
    toks.len() > 0 && reaches(forms, toks, toks.len() - 1) && width(forms, toks.last()) == 2
}

/// The pass fails exactly where it reaches the last token and that token
/// names an option that takes a value; where it succeeds, the positional
/// tokens it adds are exactly `kept`, in input order.
pub proof fn lemma_pass_shape(
    forms: Seq<Form>,
    toks: Seq<Seq<char>>,
    vals: Seq<Seq<Seq<char>>>,
    rest: Seq<Seq<char>>,
)
    ensures
        run(forms, toks, vals, rest) is None <==> fails(forms, toks),
        run(forms, toks, vals, rest) matches Some(out) ==> out.1 == rest + kept(forms, toks),
    decreases toks.len(),
{
    if toks.len() == 0 {
        assert(rest + Seq::<Seq<char>>::empty() =~= rest);
    } else {
        let tok = toks[0];
        let tail = toks.drop_first();
        let w = width(forms, tok);
        lemma_first_match_from(forms, tok, 0);
        if w == 2 {
            let j = first_match(forms, tok)->Some_0;
            if tail.len() == 0 {
                assert(reaches(forms, toks, 0));
            } else {
                let sub = toks.subrange(2, toks.len() as int);
                assert(tail.drop_first() =~= sub);
                let v2 = vals.update(j, record(vals[j], forms[j].multiple, tail[0]));
                lemma_pass_shape(forms, sub, v2, rest);
                if toks.len() > 2 {
                    assert(sub.last() == toks.last());
                    assert(sub.len() - 1 == toks.len() - 1 - 2);
                } else {
                    assert(!reaches(forms, sub, -1));
                    assert(!reaches(forms, toks, 1));
                }
            }
        } else {
            assert(tail =~= toks.subrange(1, toks.len() as int));
            let (v2, r2) = if is_lone_dash(tok) {
                (vals, rest)
            } else if is_option_like(tok) {
                match first_match(forms, tok) {
                    None => (vals, rest),
                    Some(j) => (vals.update(j, record(vals[j], forms[j].multiple, "true"@)), rest),
                }
            } else {
                (vals, rest.push(tok))
            };
            assert(run(forms, toks, vals, rest) == run(forms, tail, v2, r2));
            lemma_pass_shape(forms, tail, v2, r2);
            if toks.len() > 1 {
                assert(tail.last() == toks.last());
            } else {
                assert(reaches(forms, toks, 0));
            }
            if !is_option_like(tok) {
                assert(rest.push(tok) + kept(forms, tail) =~= rest + kept(forms, toks));
            }
        }
    }
}

/// Two tokens that pick the same option have the same effect wherever the
/// pass starts a step at them, not only at the front.
pub proof fn lemma_alias_anywhere(
    forms: Seq<Form>,
    pre: Seq<Seq<char>>,
    a: Seq<char>,
    b: Seq<char>,
    post: Seq<Seq<char>>,
    vals: Seq<Seq<Seq<char>>>,
    rest: Seq<Seq<char>>,
)
    requires
        reaches(forms, pre + seq![a] + post, pre.len() as int),
        looked_up(a),
        looked_up(b),
        first_match(forms, a) is Some,
        first_match(forms, a) == first_match(forms, b),
    ensures
        run(forms, pre + seq![a] + post, vals, rest) == run(forms, pre + seq![b] + post, vals, rest),
    decreases pre.len(),
{
    let ta = pre + seq![a] + post;
    let tb = pre + seq![b] + post;
    if pre.len() == 0 {
        assert(ta =~= seq![a] + post);
        assert(tb =~= seq![b] + post);
        lemma_alias_equivalence(forms, a, b, post, vals, rest);
    } else {
        let tok = pre[0];
        assert(ta[0] == tok && tb[0] == tok);
        let w = width(forms, tok);
        lemma_first_match_from(forms, tok, 0);
        assert(w <= ta.len());
        assert(reaches(forms, ta.subrange(w, ta.len() as int), pre.len() - w));
        if pre.len() < w {
            assert(!reaches(forms, ta.subrange(w, ta.len() as int), pre.len() - w));
        }
        let pre2 = pre.subrange(w, pre.len() as int);
        assert(ta.subrange(w, ta.len() as int) =~= pre2 + seq![a] + post);
        if w == 2 {
            let j = first_match(forms, tok)->Some_0;
            assert(ta.drop_first().drop_first() =~= pre2 + seq![a] + post);
            assert(tb.drop_first().drop_first() =~= pre2 + seq![b] + post);
            assert(ta.drop_first()[0] == pre[1] && tb.drop_first()[0] == pre[1]);
            let v2 = vals.update(j, record(vals[j], forms[j].multiple, pre[1]));
            lemma_alias_anywhere(forms, pre2, a, b, post, v2, rest);
        } else {
            assert(ta.drop_first() =~= pre2 + seq![a] + post);
            assert(tb.drop_first() =~= pre2 + seq![b] + post);
            let (v2, r2) = if is_lone_dash(tok) {
                (vals, rest)
            } else if is_option_like(tok) {
                match first_match(forms, tok) {
                    None => (vals, rest),
                    Some(j) => (vals.update(j, record(vals[j], forms[j].multiple, "true"@)), rest),
                }
            } else {
                (vals, rest.push(tok))
            };
            assert(run(forms, ta, vals, rest) == run(forms, ta.drop_first(), v2, r2));
            assert(run(forms, tb, vals, rest) == run(forms, tb.drop_first(), v2, r2));
            lemma_alias_anywhere(forms, pre2, a, b, post, v2, r2);
        }
    }
}

/// Once a flag that does not take several values holds `["true"]`, the
/// rest of the pass leaves it so.
pub proof fn lemma_flag_stays_set(
    forms: Seq<Form>,
    toks: Seq<Seq<char>>,
    vals: Seq<Seq<Seq<char>>>,
    rest: Seq<Seq<char>>,
    j: int,
)
    requires
        0 <= j < forms.len(),
        vals.len() == forms.len(),
        !forms[j].takes_value,
        !forms[j].multiple,
        vals[j] == seq!["true"@],
    ensures
        run(forms, toks, vals, rest) matches Some(out) ==> out.0[j] == seq!["true"@],
    decreases toks.len(),
{
    if toks.len() > 0 {
        let tok = toks[0];
        let tail = toks.drop_first();
        lemma_first_match_from(forms, tok, 0);
        if is_lone_dash(tok) {
            lemma_flag_stays_set(forms, tail, vals, rest, j);
        } else if is_option_like(tok) {
            match first_match(forms, tok) {
                None => lemma_flag_stays_set(forms, tail, vals, rest, j),
                Some(k) => {
                    if !forms[k].takes_value {
                        let v2 = vals.update(k, record(vals[k], forms[k].multiple, "true"@));
                        lemma_flag_stays_set(forms, tail, v2, rest, j);
                    } else if tail.len() > 0 {
                        let v2 = vals.update(k, record(vals[k], forms[k].multiple, tail[0]));
                        lemma_flag_stays_set(forms, tail.drop_first(), v2, rest, j);
                    }
                },
            }
        } else {
            lemma_flag_stays_set(forms, tail, vals, rest.push(tok), j);
        }
    }
}

/// A flag that does not take several values, named at least once by any of
/// its forms where the pass starts a step, ends up holding exactly
/// `["true"]`, however often and by whichever forms it was named.
pub proof fn lemma_flag_named_once_or_more(
    forms: Seq<Form>,
    toks: Seq<Seq<char>>,
    vals: Seq<Seq<Seq<char>>>,
    rest: Seq<Seq<char>>,
    p: int,
)
    requires
        0 <= p < toks.len(),
        reaches(forms, toks, p),
        looked_up(toks[p]),
        first_match(forms, toks[p]) matches Some(j) && !forms[j].takes_value && !forms[j].multiple,
        vals.len() == forms.len(),
    ensures
        run(forms, toks, vals, rest) matches Some(out) ==> out.0[first_match(forms, toks[p])->Some_0]
            == seq!["true"@],
    decreases toks.len(),
{
    let j = first_match(forms, toks[p])->Some_0;
    let tok = toks[0];
    let tail = toks.drop_first();
    lemma_first_match_from(forms, tok, 0);
    lemma_first_match_from(forms, toks[p], 0);
    if p == 0 {
        let v2 = vals.update(j, record(vals[j], false, "true"@));
        lemma_flag_stays_set(forms, tail, v2, rest, j);
    } else {
        let w = width(forms, tok);
        let sub = toks.subrange(w, toks.len() as int);
        assert(w <= toks.len());
        assert(reaches(forms, sub, p - w));
        if p < w {
            assert(!reaches(forms, sub, p - w));
        }
        assert(sub[p - w] == toks[p]);
        if w == 2 {
            let k = first_match(forms, tok)->Some_0;
            assert(tail.drop_first() =~= sub);
            let v2 = vals.update(k, record(vals[k], forms[k].multiple, tail[0]));
            lemma_flag_named_once_or_more(forms, sub, v2, rest, p - 2);
        } else {
            assert(tail =~= sub);
            let (v2, r2) = if is_lone_dash(tok) {
                (vals, rest)
            } else if is_option_like(tok) {
                match first_match(forms, tok) {
                    None => (vals, rest),
                    Some(k) => (vals.update(k, record(vals[k], forms[k].multiple, "true"@)), rest),
                }
            } else {
                (vals, rest.push(tok))
            };
            assert(run(forms, toks, vals, rest) == run(forms, tail, v2, r2));
            lemma_flag_named_once_or_more(forms, tail, v2, r2, p - 1);
        }
    }
}

} // verus!
