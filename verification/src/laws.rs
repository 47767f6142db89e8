use vstd::prelude::*;
use crate::env::{lookup_v, EnvV};
use crate::error::ErrorV;
use crate::eval::{cond_v, eval_v, unbound_error};
use crate::expr::{nil_v, print_v, true_v, ExprV};
use crate::primitives::{prim_apply};
use crate::read::{
    is_sep, lemma_sym_len_is, lemma_sym_len_le, parse_all_v, parse_expr_v, parse_list_v,
    quote_sym, read_v, sym_len, tokenize_v, TokenV,
};

verus! {

/// `eq` is reflexive: a value equals itself.
pub proof fn lemma_eq_reflexive(a: ExprV)
    ensures
        prim_apply(crate::expr::PrimKind::Eq, seq![a, a]) == Ok::<ExprV, ErrorV>(true_v()),
{
}

/// `eq` is symmetric: the order of the two arguments plays no part.
pub proof fn lemma_eq_symmetric(a: ExprV, b: ExprV)
    ensures
        prim_apply(crate::expr::PrimKind::Eq, seq![a, b]) == prim_apply(
            crate::expr::PrimKind::Eq,
            seq![b, a],
        ),
{
}

/// `eq` is structural: it answers canonical true exactly on equal values and
/// canonical nil otherwise.
pub proof fn lemma_eq_structural(a: ExprV, b: ExprV)
    ensures
        prim_apply(crate::expr::PrimKind::Eq, seq![a, b]) == Ok::<ExprV, ErrorV>(
            if a == b {
                true_v()
            } else {
                nil_v()
            },
        ),
{
}

/// `car`/`cdr`/`cons` round trip: for any non-empty list, consing its first
/// element back onto the rest yields the list itself.
pub proof fn lemma_cons_car_cdr(l: ExprV)
    requires
        l matches ExprV::List(items) && items.len() > 0,
    ensures
        ({
            let first = prim_apply(crate::expr::PrimKind::Car, seq![l])->Ok_0;
            let rest = prim_apply(crate::expr::PrimKind::Cdr, seq![l])->Ok_0;
            prim_apply(crate::expr::PrimKind::Cons, seq![first, rest]) == Ok::<ExprV, ErrorV>(l)
        }),
{
    let items = l->List_0;
    assert(seq![items[0]] + items.subrange(1, items.len() as int) =~= items);
}

/// `cond` ignores everything about a branch whose condition evaluates to
/// nil except that condition: the branch's consequent is never consulted,
/// and evaluation moves on to the branches after it.
pub proof fn lemma_cond_only_later_branches(
    fuel: nat,
    b1: Seq<ExprV>,
    b2: Seq<ExprV>,
    i: int,
    env: EnvV,
    cur: Option<int>,
)
    requires
        b1.len() == b2.len(),
        forall|j: int| i <= j < b1.len() ==> b1[j] == b2[j],
    ensures
        cond_v(fuel, b1, i, env, cur) == cond_v(fuel, b2, i, env, cur),
    decreases fuel,
{
    if fuel > 0 && i < b1.len() {
        match b1[i] {
            ExprV::List(br) => {
                if br.len() == 2 {
                    let (env2, c) = eval_v((fuel - 1) as nat, br[0], env, cur);
                    match c {
                        Ok(v) => {
                            if v == nil_v() {
                                lemma_cond_only_later_branches(
                                    (fuel - 1) as nat,
                                    b1,
                                    b2,
                                    i + 1,
                                    env2,
                                    cur,
                                );
                            }
                        },
                        Err(_) => {},
                    }
                }
            },
            _ => {},
        }
    }
}

/// `cond` short-circuits left to right: when a branch's condition evaluates
/// to nil, the result is the same whatever consequent that branch carries —
/// it is never evaluated — and equals the run over the remaining branches
/// in the environment the condition left behind.
pub proof fn lemma_cond_short_circuits(
    fuel: nat,
    branches: Seq<ExprV>,
    i: int,
    env: EnvV,
    cur: Option<int>,
    other: ExprV,
)
    requires
        fuel > 0,
        0 <= i < branches.len(),
        branches[i] matches ExprV::List(br) && br.len() == 2,
        eval_v((fuel - 1) as nat, branches[i]->List_0[0], env, cur).1 == Ok::<ExprV, ErrorV>(
            nil_v(),
        ),
    ensures
        ({
            let br = branches[i]->List_0;
            let env2 = eval_v((fuel - 1) as nat, br[0], env, cur).0;
            &&& cond_v(fuel, branches, i, env, cur) == cond_v(
                (fuel - 1) as nat,
                branches,
                i + 1,
                env2,
                cur,
            )
            &&& cond_v(fuel, branches.update(i, ExprV::List(seq![br[0], other])), i, env, cur)
                == cond_v(fuel, branches, i, env, cur)
        }),
{
    let br = branches[i]->List_0;
    let env2 = eval_v((fuel - 1) as nat, br[0], env, cur).0;
    let swapped = branches.update(i, ExprV::List(seq![br[0], other]));
    assert(swapped[i]->List_0 == seq![br[0], other]);
    assert(seq![br[0], other][0] == br[0]);
    lemma_cond_only_later_branches((fuel - 1) as nat, swapped, branches, i + 1, env2, cur);
}

/// `cond` takes the first branch whose condition evaluates to anything but
/// nil: the result is the evaluation of that branch's consequent in the
/// environment the condition left behind.
pub proof fn lemma_cond_takes_truthy(
    fuel: nat,
    branches: Seq<ExprV>,
    i: int,
    env: EnvV,
    cur: Option<int>,
)
    requires
        fuel > 0,
        0 <= i < branches.len(),
        branches[i] matches ExprV::List(br) && br.len() == 2,
        eval_v((fuel - 1) as nat, branches[i]->List_0[0], env, cur).1 matches Ok(v) && v != nil_v(),
    ensures
        ({
            let br = branches[i]->List_0;
            let env2 = eval_v((fuel - 1) as nat, br[0], env, cur).0;
            cond_v(fuel, branches, i, env, cur) == eval_v((fuel - 1) as nat, br[1], env2, cur)
        }),
{
}

/// An unbound symbol evaluates to an evaluation error naming it, never to a
/// default value; a bound one evaluates to its binding, and the environment
/// is untouched either way.
pub proof fn lemma_symbol_evaluation(fuel: nat, name: Seq<char>, env: EnvV, cur: Option<int>)
    requires
        fuel > 0,
    ensures
        lookup_v(env, cur, ExprV::Atom(name)) is None ==> eval_v(
            fuel,
            ExprV::Atom(name),
            env,
            cur,
        ) == (env, Err::<ExprV, ErrorV>(unbound_error(name))) && unbound_error(name) is EvalError,
        lookup_v(env, cur, ExprV::Atom(name)) matches Some(v) ==> eval_v(
            fuel,
            ExprV::Atom(name),
            env,
            cur,
        ) == (env, Ok::<ExprV, ErrorV>(v)),
{
}

/// Reader-level quote sugar: a quote mark followed by any parse of `toks`
/// parses to exactly the two-element `quote` form around it, errors and
/// leftovers untouched.
pub proof fn lemma_quote_sugar_tokens(toks: Seq<TokenV>)
    ensures
        parse_expr_v(seq![TokenV::Quote] + toks) == (match parse_expr_v(toks) {
            Ok((e, rest)) => Ok::<(ExprV, Seq<TokenV>), ErrorV>(
                (ExprV::List(seq![quote_sym(), e]), rest),
            ),
            Err(er) => Err(er),
        }),
{
    let whole = seq![TokenV::Quote] + toks;
    assert(whole[0] == TokenV::Quote);
    assert(whole.subrange(1, whole.len() as int) =~= toks);
}

/// A name the tokenizer would hand back unchanged: non-empty, with no
/// separator characters in it.
pub open spec fn sym_name_ok(name: Seq<char>) -> bool {
    name.len() > 0 && (forall|i: int| 0 <= i < name.len() ==> !is_sep(name[i]))
}

/// A value the grammar can produce and the printer can round-trip: symbols
/// are valid tokens, no function values anywhere, and no list headed by the
/// quote symbol with more than one element after it — the printer's quote
/// sugar would drop the extras.
pub open spec fn readable_v(e: ExprV) -> bool
    decreases e,
{
    match e {
        ExprV::Atom(name) => sym_name_ok(name),
        ExprV::List(items) => readables_v(items) && !(items.len() >= 3 && items[0]
            == quote_sym()),
        ExprV::Func(_) => false,
    }
}

/// Every element of a sequence is readable.
pub open spec fn readables_v(s: Seq<ExprV>) -> bool
    decreases s,
{
    s.len() == 0 || (readable_v(s[0]) && readables_v(s.subrange(1, s.len() as int)))
}

pub proof fn lemma_readables(s: Seq<ExprV>)
    ensures
        readables_v(s) <==> (forall|i: int| 0 <= i < s.len() ==> readable_v(s[i])),
    decreases s,
{
    if s.len() > 0 {
        lemma_readables(s.subrange(1, s.len() as int));
        if readables_v(s) {
            assert forall|i: int| 0 <= i < s.len() implies readable_v(s[i]) by {
                if i > 0 {
                    assert(s.subrange(1, s.len() as int)[i - 1] == s[i]);
                }
            }
        } else {
            if (forall|i: int| 0 <= i < s.len() ==> readable_v(s[i])) {
                assert forall|i: int|
                    0 <= i < s.subrange(1, s.len() as int).len() implies readable_v(
                    s.subrange(1, s.len() as int)[i],
                ) by {
                    assert(s.subrange(1, s.len() as int)[i] == s[i + 1]);
                }
                assert(readable_v(s[0]));
                assert(false);
            }
        }
    }
}

/// The token sequence the printed form of a value comes back as.
pub open spec fn toks_of(e: ExprV) -> Seq<TokenV>
    decreases e, 0int,
{
    match e {
        ExprV::Atom(name) => seq![TokenV::Sym(name)],
        ExprV::List(items) => {
            if items.len() >= 2 && items[0] == quote_sym() {
                seq![TokenV::Quote] + toks_of(items[1])
            } else {
                seq![TokenV::LParen] + toks_of_items(items, 0) + seq![TokenV::RParen]
            }
        },
        ExprV::Func(_) => Seq::empty(),
    }
}

/// The tokens of the elements of a list from position `i` on, concatenated.
pub open spec fn toks_of_items(items: Seq<ExprV>, i: int) -> Seq<TokenV>
    decreases items, items.len() - i,
{
    if i < 0 || i >= items.len() {
        Seq::empty()
    } else {
        toks_of(items[i]) + toks_of_items(items, i + 1)
    }
}

/// A readable value prints to at least one token, and never to a closing
/// parenthesis first.
pub proof fn lemma_toks_of_shape(e: ExprV)
    requires
        readable_v(e),
    ensures
        toks_of(e).len() >= 1,
        toks_of(e)[0] != TokenV::RParen,
{
}

/// Tokenizing a valid symbol name followed by a separator (or nothing)
/// yields one symbol token and the tokens of what follows.
pub proof fn lemma_tokenize_sym(name: Seq<char>, rest: Seq<char>)
    requires
        sym_name_ok(name),
        rest.len() == 0 || is_sep(rest[0]),
    ensures
        tokenize_v(name + rest) == seq![TokenV::Sym(name)] + tokenize_v(rest),
{
    let whole = name + rest;
    assert(whole[0] == name[0]);
    let s1 = whole.subrange(1, whole.len() as int);
    assert forall|l: int| 0 <= l < name.len() - 1 implies !is_sep(s1[l]) by {
        assert(s1[l] == name[l + 1]);
    }
    if name.len() - 1 < s1.len() {
        assert(s1[name.len() - 1] == rest[0]);
    }
    lemma_sym_len_is(s1, name.len() - 1);
    assert(whole.subrange(0, name.len() as int) =~= name);
    assert(whole.subrange(name.len() as int, whole.len() as int) =~= rest);
}

/// Tokenizing the printed form of a readable value, followed by a separator
/// (or nothing), yields its token sequence and the tokens of what follows.
pub proof fn lemma_tokenize_print(e: ExprV, rest: Seq<char>)
    requires
        readable_v(e),
        rest.len() == 0 || is_sep(rest[0]),
    ensures
        tokenize_v(print_v(e) + rest) == toks_of(e) + tokenize_v(rest),
    decreases e, 2int, 0int,
{
    match e {
        ExprV::Atom(name) => {
            lemma_tokenize_sym(name, rest);
        },
        ExprV::List(items) => {
            lemma_readables(items);
            if items.len() >= 2 && items[0] == quote_sym() {
                let whole = (seq!['\''] + print_v(items[1])) + rest;
                assert(whole[0] == '\'');
                assert(whole.subrange(1, whole.len() as int) =~= print_v(items[1]) + rest);
                lemma_tokenize_print(items[1], rest);
                assert(tokenize_v(whole) =~= toks_of(e) + tokenize_v(rest));
            } else {
                proof_tokenize_print_list(e, items, rest);
            }
        },
        ExprV::Func(_) => {},
    }
}

/// The parenthesised case of `lemma_tokenize_print`.
proof fn proof_tokenize_print_list(e: ExprV, items: Seq<ExprV>, rest: Seq<char>)
    requires
        readable_v(e),
        e == ExprV::List(items),
        !(items.len() >= 2 && items[0] == quote_sym()),
        rest.len() == 0 || is_sep(rest[0]),
    ensures
        tokenize_v(print_v(e) + rest) == toks_of(e) + tokenize_v(rest),
    decreases e, 1int, 0int,
{
    reveal_strlit("(");
    reveal_strlit(")");
    lemma_readables(items);
    let middle = crate::expr::print_items_from(items, 0);
    let close = ")"@ + rest;
    let whole = ("("@ + middle + ")"@) + rest;
    assert(whole[0] == '(');
    assert(whole.subrange(1, whole.len() as int) =~= middle + close);
    assert(close[0] == ')');
    lemma_tokenize_print_items(items, 0, close);
    assert(close.subrange(1, close.len() as int) =~= rest);
    assert(tokenize_v(close) =~= seq![TokenV::RParen] + tokenize_v(rest));
    assert(tokenize_v(whole) =~= toks_of(e) + tokenize_v(rest));
}

/// Tokenizing the printed elements of a list from position `i` on, followed
/// by a separator, yields their concatenated tokens and what follows.
proof fn lemma_tokenize_print_items(items: Seq<ExprV>, i: int, tail: Seq<char>)
    requires
        forall|j: int| 0 <= j < items.len() ==> readable_v(items[j]),
        tail.len() > 0 && is_sep(tail[0]),
    ensures
        tokenize_v(crate::expr::print_items_from(items, i) + tail) == toks_of_items(items, i)
            + tokenize_v(tail),
    decreases items, 0int, items.len() - i,
{
    reveal_strlit(" ");
    if i < 0 || i >= items.len() {
        assert(crate::expr::print_items_from(items, i) + tail =~= tail);
    } else if i == items.len() - 1 {
        lemma_tokenize_print(items[i], tail);
        assert(toks_of_items(items, i + 1) =~= Seq::<TokenV>::empty());
        assert(toks_of_items(items, i) =~= toks_of(items[i]) + Seq::<TokenV>::empty());
        assert(toks_of_items(items, i) =~= toks_of(items[i]));
    } else {
        let later = crate::expr::print_items_from(items, i + 1);
        let sep_tail = " "@ + (later + tail);
        assert(sep_tail[0] == ' ');
        lemma_tokenize_print(items[i], sep_tail);
        assert(sep_tail.subrange(1, sep_tail.len() as int) =~= later + tail);
        lemma_tokenize_print_items(items, i + 1, tail);
        assert(tokenize_v(sep_tail) == tokenize_v(later + tail));
        assert(crate::expr::print_items_from(items, i) + tail =~= print_v(items[i]) + sep_tail);
        assert(toks_of(items[i]) + (toks_of_items(items, i + 1) + tokenize_v(tail)) =~= toks_of_items(
            items,
            i,
        ) + tokenize_v(tail));
    }
}

/// Parsing the token sequence of a readable value, with anything after it,
/// yields exactly that value and the leftover tokens.
pub proof fn lemma_parse_toks(e: ExprV, rest: Seq<TokenV>)
    requires
        readable_v(e),
    ensures
        parse_expr_v(toks_of(e) + rest) == Ok::<(ExprV, Seq<TokenV>), ErrorV>((e, rest)),
    decreases e, 0int,
{
    let whole = toks_of(e) + rest;
    match e {
        ExprV::Atom(name) => {
            assert(whole[0] == TokenV::Sym(name));
            assert(whole.subrange(1, whole.len() as int) =~= rest);
        },
        ExprV::List(items) => {
            lemma_readables(items);
            if items.len() >= 2 && items[0] == quote_sym() {
                assert(whole[0] == TokenV::Quote);
                assert(whole.subrange(1, whole.len() as int) =~= toks_of(items[1]) + rest);
                lemma_parse_toks(items[1], rest);
                assert(seq![items[0], items[1]] =~= items);
            } else {
                assert(whole[0] == TokenV::LParen);
                assert(whole.subrange(1, whole.len() as int) =~= toks_of_items(items, 0) + (seq![
                    TokenV::RParen,
                ] + rest));
                lemma_parse_toks_items(items, 0, rest);
                assert(items.subrange(0, items.len() as int) =~= items);
            }
        },
        ExprV::Func(_) => {},
    }
}

/// Parsing the concatenated tokens of a list's elements from position `i`
/// on, a closing parenthesis, and anything after, yields those elements and
/// the leftover tokens.
proof fn lemma_parse_toks_items(items: Seq<ExprV>, i: int, rest: Seq<TokenV>)
    requires
        forall|j: int| 0 <= j < items.len() ==> readable_v(items[j]),
        0 <= i <= items.len(),
    ensures
        parse_list_v(toks_of_items(items, i) + (seq![TokenV::RParen] + rest)) == Ok::<
            (Seq<ExprV>, Seq<TokenV>),
            ErrorV,
        >((items.subrange(i, items.len() as int), rest)),
    decreases items, 2int, items.len() - i,
{
    let whole = toks_of_items(items, i) + (seq![TokenV::RParen] + rest);
    if i >= items.len() {
        assert(whole =~= seq![TokenV::RParen] + rest);
        assert(whole[0] == TokenV::RParen);
        assert(whole.subrange(1, whole.len() as int) =~= rest);
        assert(items.subrange(i, items.len() as int) =~= Seq::<ExprV>::empty());
    } else {
        lemma_toks_of_shape(items[i]);
        let after_i = toks_of_items(items, i + 1) + (seq![TokenV::RParen] + rest);
        assert(whole =~= toks_of(items[i]) + after_i);
        assert(whole[0] == toks_of(items[i])[0]);
        assert(whole[0] != TokenV::RParen);
        lemma_parse_toks(items[i], after_i);
        assert(after_i.len() < whole.len());
        lemma_parse_toks_items(items, i + 1, rest);
        assert(seq![items[i]] + items.subrange(i + 1, items.len() as int) =~= items.subrange(
            i,
            items.len() as int,
        ));
    }
}

/// Reader round-trip: printing any value the grammar can produce and reading
/// it back yields exactly that value, as the one top-level expression.
pub proof fn lemma_print_read_round_trip(e: ExprV)
    requires
        readable_v(e),
    ensures
        read_v(print_v(e)) == Ok::<Seq<ExprV>, ErrorV>(seq![e]),
{
    lemma_tokenize_print(e, Seq::empty());
    assert(print_v(e) + Seq::<char>::empty() =~= print_v(e));
    assert(tokenize_v(Seq::empty()) =~= Seq::<TokenV>::empty());
    assert(toks_of(e) + Seq::<TokenV>::empty() =~= toks_of(e));
    lemma_parse_toks(e, Seq::empty());
}

/// Quote sugar equivalence at the text level: reading `'x` and reading
/// `(quote x)` produce the same parsed structure, the two-element `quote`
/// form, for any readable `x`.
pub proof fn lemma_quote_sugar_read(x: ExprV)
    requires
        readable_v(x),
    ensures
        read_v(seq!['\''] + print_v(x)) == Ok::<Seq<ExprV>, ErrorV>(
            seq![ExprV::List(seq![quote_sym(), x])],
        ),
        read_v("(quote "@ + print_v(x) + ")"@) == Ok::<Seq<ExprV>, ErrorV>(
            seq![ExprV::List(seq![quote_sym(), x])],
        ),
{
    reveal_strlit("(quote ");
    reveal_strlit(")");
    reveal_strlit("quote");
    // the sugared spelling
    let sugared = seq!['\''] + print_v(x);
    assert(sugared[0] == '\'');
    assert(sugared.subrange(1, sugared.len() as int) =~= print_v(x) + Seq::<char>::empty());
    lemma_tokenize_print(x, Seq::empty());
    assert(tokenize_v(Seq::empty()) =~= Seq::<TokenV>::empty());
    assert(toks_of(x) + Seq::<TokenV>::empty() =~= toks_of(x));
    assert(tokenize_v(sugared) =~= seq![TokenV::Quote] + toks_of(x));
    lemma_quote_sugar_tokens(toks_of(x));
    lemma_parse_toks(x, Seq::empty());
    // the spelled-out form
    let spelled = "(quote "@ + print_v(x) + ")"@;
    assert(spelled[0] == '(');
    let after_paren = "quote "@ + print_v(x) + ")"@;
    proof_quote_spelled(x, spelled, after_paren);
}

/// The spelled-out half of `lemma_quote_sugar_read`.
proof fn proof_quote_spelled(x: ExprV, spelled: Seq<char>, after_paren: Seq<char>)
    requires
        readable_v(x),
        spelled == "(quote "@ + print_v(x) + ")"@,
        after_paren == "quote "@ + print_v(x) + ")"@,
    ensures
        read_v(spelled) == Ok::<Seq<ExprV>, ErrorV>(seq![ExprV::List(seq![quote_sym(), x])]),
{
    reveal_strlit("(quote ");
    reveal_strlit("quote ");
    reveal_strlit("quote");
    reveal_strlit(")");
    reveal_strlit(" ");
    assert(spelled[0] == '(');
    assert(spelled.subrange(1, spelled.len() as int) =~= after_paren);
    // "quote" is one symbol token
    let name = "quote"@;
    assert(name.len() == 5);
    assert forall|i: int| 0 <= i < name.len() implies !is_sep(name[i]) by {
        assert(name[0] == 'q' && name[1] == 'u' && name[2] == 'o' && name[3] == 't' && name[4]
            == 'e');
    }
    let sep_tail = " "@ + (print_v(x) + ")"@);
    assert(after_paren =~= name + sep_tail);
    assert(sep_tail[0] == ' ');
    lemma_tokenize_sym(name, sep_tail);
    assert(sep_tail.subrange(1, sep_tail.len() as int) =~= print_v(x) + ")"@);
    assert(")"@.len() == 1 && ")"@[0] == ')');
    lemma_tokenize_print(x, ")"@);
    assert(")"@.subrange(1, 1) =~= Seq::<char>::empty());
    assert(tokenize_v(Seq::<char>::empty()) =~= Seq::<TokenV>::empty());
    assert(tokenize_v(")"@) =~= seq![TokenV::RParen]);
    assert(tokenize_v(spelled) =~= seq![TokenV::LParen, TokenV::Sym(name)] + toks_of(x) + seq![
        TokenV::RParen,
    ]);
    // parsing those tokens
    let toks = tokenize_v(spelled);
    assert(toks[0] == TokenV::LParen);
    let inner = seq![TokenV::Sym(name)] + (toks_of(x) + seq![TokenV::RParen]);
    assert(toks.subrange(1, toks.len() as int) =~= inner);
    assert(inner[0] == TokenV::Sym(name));
    lemma_toks_of_shape(x);
    assert(inner[0] != TokenV::RParen);
    assert(inner.subrange(1, inner.len() as int) =~= toks_of(x) + seq![TokenV::RParen]);
    lemma_parse_toks_items(seq![x], 0, Seq::empty());
    assert(toks_of_items(seq![x], 1) =~= Seq::<TokenV>::empty()) by {
        reveal_with_fuel(toks_of_items, 2);
    }
    assert(toks_of_items(seq![x], 0) =~= toks_of(x)) by {
        reveal_with_fuel(toks_of_items, 2);
        assert(seq![x][0] == x);
        assert(toks_of_items(seq![x], 1) =~= Seq::<TokenV>::empty());
    }
    assert(toks_of_items(seq![x], 0) + (seq![TokenV::RParen] + Seq::<TokenV>::empty()) =~= toks_of(
        x,
    ) + seq![TokenV::RParen]);
    assert(seq![x].subrange(0, 1) =~= seq![x]);
    assert(parse_list_v(toks_of(x) + seq![TokenV::RParen]) == Ok::<
        (Seq<ExprV>, Seq<TokenV>),
        ErrorV,
    >((seq![x], Seq::empty())));
    assert(parse_expr_v(inner) == Ok::<(ExprV, Seq<TokenV>), ErrorV>(
        (quote_sym(), inner.subrange(1, inner.len() as int)),
    ));
    assert(parse_list_v(inner) == Ok::<(Seq<ExprV>, Seq<TokenV>), ErrorV>(
        (seq![quote_sym()] + seq![x], Seq::empty()),
    ));
    assert(seq![quote_sym()] + seq![x] =~= seq![quote_sym(), x]);
    assert(parse_expr_v(toks) == Ok::<(ExprV, Seq<TokenV>), ErrorV>(
        (ExprV::List(seq![quote_sym(), x]), Seq::empty()),
    ));
    assert(parse_all_v(toks) == Ok::<Seq<ExprV>, ErrorV>(seq![ExprV::List(seq![quote_sym(), x])]));
}

/// Environment sharing: a definition grows the shared top-level scopes, so
/// it is visible from every scope chain whose local frames do not bind the
/// name — closures made before the definition included. This is what makes
/// forward references between definitions resolve.
pub proof fn lemma_definition_visible_everywhere(env: EnvV, cur: Option<int>, k: ExprV, v: ExprV)
    requires
        crate::env::frames_lookup(env.frames, cur, k) is None,
    ensures
        lookup_v(crate::env::env_push_top(env, k, v), cur, k) == Some(v),
        lookup_v(crate::env::env_push_top(env, k, v), None, k) == Some(v),
{
    let env2 = crate::env::env_push_top(env, k, v);
    assert(env2.top[env2.top.len() - 1] == seq![(k, v)]);
    assert(seq![(k, v)][0].0 == k);
}

/// Every symbol token the tokenizer hands out is a valid token name.
pub open spec fn toks_wf(toks: Seq<TokenV>) -> bool {
    forall|i: int|
        0 <= i < toks.len() ==> (#[trigger] toks[i] matches TokenV::Sym(n) ==> sym_name_ok(n))
}

/// The characters inside the leading symbol run are no separators.
proof fn lemma_sym_len_chars(s: Seq<char>)
    ensures
        forall|l: int| 0 <= l < sym_len(s) ==> !is_sep(s[l]),
    decreases s,
{
    lemma_sym_len_le(s);
    if s.len() > 0 && !is_sep(s[0]) {
        let s2 = s.subrange(1, s.len() as int);
        lemma_sym_len_chars(s2);
        assert forall|l: int| 0 <= l < sym_len(s) implies !is_sep(s[l]) by {
            if l > 0 {
                assert(s2[l - 1] == s[l]);
            }
        }
    }
}

/// The tokenizer only hands out valid symbol tokens.
pub proof fn lemma_tokenize_wf(s: Seq<char>)
    ensures
        toks_wf(tokenize_v(s)),
    decreases s.len(),
{
    if s.len() > 0 {
        if crate::read::is_ws(s[0]) || s[0] == '(' || s[0] == ')' || s[0] == '\'' {
            lemma_tokenize_wf(s.subrange(1, s.len() as int));
        } else {
            let s2 = s.subrange(1, s.len() as int);
            lemma_sym_len_le(s2);
            let j = 1 + sym_len(s2);
            lemma_sym_len_chars(s2);
            let name = s.subrange(0, j as int);
            assert forall|l: int| 0 <= l < name.len() implies !is_sep(name[l]) by {
                if l > 0 {
                    assert(s2[l - 1] == s[l]);
                }
            }
            lemma_tokenize_wf(s.subrange(j as int, s.len() as int));
        }
    }
}

/// The shape of a value the reader can hand out: symbols carry valid token
/// names, and there are no function values.
pub open spec fn from_reader(e: ExprV) -> bool
    decreases e,
{
    match e {
        ExprV::Atom(name) => sym_name_ok(name),
        ExprV::List(items) => from_reader_all(items),
        ExprV::Func(_) => false,
    }
}

/// Every element of a sequence has the reader's shape.
pub open spec fn from_reader_all(s: Seq<ExprV>) -> bool
    decreases s,
{
    s.len() == 0 || (from_reader(s[0]) && from_reader_all(s.subrange(1, s.len() as int)))
}

proof fn lemma_from_reader_all(s: Seq<ExprV>)
    ensures
        from_reader_all(s) <==> (forall|i: int| 0 <= i < s.len() ==> from_reader(s[i])),
    decreases s,
{
    if s.len() > 0 {
        lemma_from_reader_all(s.subrange(1, s.len() as int));
        if from_reader_all(s) {
            assert forall|i: int| 0 <= i < s.len() implies from_reader(s[i]) by {
                if i > 0 {
                    assert(s.subrange(1, s.len() as int)[i - 1] == s[i]);
                }
            }
        } else {
            if (forall|i: int| 0 <= i < s.len() ==> from_reader(s[i])) {
                assert forall|i: int|
                    0 <= i < s.subrange(1, s.len() as int).len() implies from_reader(
                    s.subrange(1, s.len() as int)[i],
                ) by {
                    assert(s.subrange(1, s.len() as int)[i] == s[i + 1]);
                }
                assert(false);
            }
        }
    }
}

/// Parsing valid tokens yields values of the reader's shape, and hands valid
/// tokens on.
proof fn lemma_parse_from_reader(toks: Seq<TokenV>)
    requires
        toks_wf(toks),
    ensures
        parse_expr_v(toks) matches Ok((e, rest)) ==> from_reader(e) && toks_wf(rest),
        parse_list_v(toks) matches Ok((es, rest)) ==> from_reader_all(es) && toks_wf(rest),
    decreases toks.len(), 2int,
{
    reveal_strlit("quote");
    if toks.len() > 0 {
        let tail = toks.subrange(1, toks.len() as int);
        assert forall|i: int|
            0 <= i < tail.len() implies (#[trigger] tail[i] matches TokenV::Sym(n)
            ==> sym_name_ok(n)) by {
            assert(tail[i] == toks[i + 1]);
        }
        crate::read::lemma_parse_advances(toks);
        crate::read::lemma_parse_advances(tail);
        lemma_parse_from_reader(tail);
        match toks[0] {
            TokenV::Quote => {
                if parse_expr_v(toks) is Ok {
                    let (inner, _) = parse_expr_v(tail)->Ok_0;
                    assert(sym_name_ok("quote"@));
                    lemma_from_reader_all(seq![quote_sym(), inner]);
                }
            },
            TokenV::Sym(name) => {
                assert(toks[0] matches TokenV::Sym(n) ==> sym_name_ok(n));
            },
            _ => {},
        }
        if !(toks[0] == TokenV::RParen) && parse_expr_v(toks) is Ok {
            let (e, rest) = parse_expr_v(toks)->Ok_0;
            if rest.len() < toks.len() {
                lemma_parse_from_reader(rest);
                if parse_list_v(rest) is Ok {
                    let (es, rest2) = parse_list_v(rest)->Ok_0;
                    lemma_from_reader_all(es);
                    lemma_from_reader_all(seq![e] + es);
                }
            }
        }
    }
}

/// Every top-level value the reader yields has the reader's shape.
pub proof fn lemma_read_from_reader(src: Seq<char>)
    ensures
        read_v(src) matches Ok(es) ==> from_reader_all(es),
{
    lemma_tokenize_wf(src);
    lemma_parse_all_from_reader(tokenize_v(src));
}

proof fn lemma_parse_all_from_reader(toks: Seq<TokenV>)
    requires
        toks_wf(toks),
    ensures
        parse_all_v(toks) matches Ok(es) ==> from_reader_all(es),
    decreases toks.len(),
{
    lemma_parse_from_reader(toks);
    crate::read::lemma_parse_advances(toks);
    if parse_all_v(toks) is Ok {
        let (e, rest) = parse_expr_v(toks)->Ok_0;
        if rest.len() == 0 {
            lemma_from_reader_all(seq![e]);
        } else {
            lemma_parse_all_from_reader(rest);
            let es = parse_all_v(rest)->Ok_0;
            lemma_from_reader_all(es);
            lemma_from_reader_all(seq![e] + es);
        }
    }
}

/// Every `quote`-headed list in the value keeps at most one element after
/// the head. This is the one shape the printer's quote sugar cannot
/// round-trip.
pub open spec fn quote_forms_short(e: ExprV) -> bool
    decreases e,
{
    match e {
        ExprV::List(items) => !(items.len() >= 3 && items[0] == quote_sym())
            && quote_forms_short_all(items),
        _ => true,
    }
}

/// The same, over every element of a sequence.
pub open spec fn quote_forms_short_all(s: Seq<ExprV>) -> bool
    decreases s,
{
    s.len() == 0 || (quote_forms_short(s[0]) && quote_forms_short_all(
        s.subrange(1, s.len() as int),
    ))
}

/// A value of the reader's shape whose quote forms are short is readable: so
/// the round trip covers everything the grammar produces, except values
/// holding a `quote`-headed list with two or more elements after the head.
pub proof fn lemma_from_reader_readable(e: ExprV)
    requires
        from_reader(e),
        quote_forms_short(e),
    ensures
        readable_v(e),
    decreases e,
{
    match e {
        ExprV::List(items) => {
            lemma_from_reader_readable_all(items);
            lemma_readables(items);
        },
        _ => {},
    }
}

proof fn lemma_from_reader_readable_all(s: Seq<ExprV>)
    requires
        from_reader_all(s),
        quote_forms_short_all(s),
    ensures
        forall|i: int| 0 <= i < s.len() ==> readable_v(s[i]),
    decreases s,
{
    if s.len() > 0 {
        lemma_from_reader_readable(s[0]);
        lemma_from_reader_readable_all(s.subrange(1, s.len() as int));
        assert forall|i: int| 0 <= i < s.len() implies readable_v(s[i]) by {
            if i > 0 {
                assert(s.subrange(1, s.len() as int)[i - 1] == s[i]);
            }
        }
    }
}

/// Reader round-trip, end to end: any top-level value the reader yields,
/// short quote forms assumed, prints to text that reads back as exactly that
/// one value.
pub proof fn lemma_reader_round_trip(src: Seq<char>, i: int)
    requires
        read_v(src) matches Ok(es) && 0 <= i < es.len() && quote_forms_short(es[i]),
    ensures
        read_v(print_v(read_v(src)->Ok_0[i])) == Ok::<Seq<ExprV>, ErrorV>(
            seq![read_v(src)->Ok_0[i]],
        ),
{
    let es = read_v(src)->Ok_0;
    lemma_read_from_reader(src);
    lemma_from_reader_all(es);
    lemma_from_reader_readable(es[i]);
    lemma_print_read_round_trip(es[i]);
}

/// Malformed source fails in the reading phase: every error the parser can
/// yield is a read error.
pub proof fn lemma_parse_errors_are_read_errors(toks: Seq<TokenV>)
    ensures
        parse_expr_v(toks) matches Err(er) ==> er is ReadError,
        parse_list_v(toks) matches Err(er) ==> er is ReadError,
    decreases toks.len(), 2int,
{
    if toks.len() > 0 {
        crate::read::lemma_parse_advances(toks);
        lemma_parse_errors_are_read_errors(toks.subrange(1, toks.len() as int));
        if !(toks[0] == TokenV::RParen) && parse_expr_v(toks) is Ok {
            let (e, rest) = parse_expr_v(toks)->Ok_0;
            if rest.len() < toks.len() {
                lemma_parse_errors_are_read_errors(rest);
            }
        }
    }
}

/// Malformed input fails with a read error before any evaluation begins: a
/// failed read is the whole outcome of the entry point, and its error is a
/// read error.
pub proof fn lemma_read_failure_precedes_evaluation(src: Seq<char>)
    requires
        read_v(src) is Err,
    ensures
        read_v(src)->Err_0 is ReadError,
        crate::read_eval_v(src) == Err::<Seq<char>, ErrorV>(read_v(src)->Err_0),
{
    lemma_parse_all_errors_are_read_errors(tokenize_v(src));
}

proof fn lemma_parse_all_errors_are_read_errors(toks: Seq<TokenV>)
    ensures
        parse_all_v(toks) matches Err(er) ==> er is ReadError,
    decreases toks.len(),
{
    lemma_parse_errors_are_read_errors(toks);
    crate::read::lemma_parse_advances(toks);
    if parse_expr_v(toks) is Ok {
        let (e, rest) = parse_expr_v(toks)->Ok_0;
        if rest.len() != 0 {
            lemma_parse_all_errors_are_read_errors(rest);
        }
    }
}

} // verus!
