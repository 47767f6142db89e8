use vstd::prelude::*;
use vstd::string::StrSliceExecFns;
use vstd::string::StringExecFns;
use crate::error::{Error, ErrorV};
use crate::expr::{views_of, Atom, Expr, ExprV};
use crate::list::List;

verus! {

/// One token of source text: a parenthesis, a quote mark, or a symbol run.
#[derive(Debug)]
pub enum Token {
    LParen,
    RParen,
    Quote,
    Sym(String),
}

/// Mathematical image of a token.
#[verifier::ext_equal]
pub enum TokenV {
    LParen,
    RParen,
    Quote,
    Sym(Seq<char>),
}

impl Token {
    pub open spec fn view(self) -> TokenV {
        match self {
            Token::LParen => TokenV::LParen,
            Token::RParen => TokenV::RParen,
            Token::Quote => TokenV::Quote,
            Token::Sym(s) => TokenV::Sym(s@),
        }
    }
}

/// Pointwise image of a token sequence.
pub open spec fn tokens_view(s: Seq<Token>) -> Seq<TokenV>
    decreases s,
{
    if s.len() == 0 {
        Seq::empty()
    } else {
        seq![s[0].view()] + tokens_view(s.subrange(1, s.len() as int))
    }
}

pub broadcast proof fn lemma_tokens_view(s: Seq<Token>)
    ensures
        (#[trigger] tokens_view(s)).len() == s.len(),
        forall|i: int| 0 <= i < s.len() ==> tokens_view(s)[i] == s[i].view(),
    decreases s,
{
    if s.len() > 0 {
        lemma_tokens_view(s.subrange(1, s.len() as int));
    }
}

/// The whitespace characters that separate tokens.
pub open spec fn is_ws(c: char) -> bool {
    c == ' ' || c == '\t' || c == '\n' || c == '\r'
}

/// The three characters that are tokens by themselves.
pub open spec fn is_delim(c: char) -> bool {
    c == '(' || c == ')' || c == '\''
}

/// A separator ends a symbol run.
pub open spec fn is_sep(c: char) -> bool {
    is_ws(c) || is_delim(c)
}

/// The length of the leading symbol run: the number of characters before the
/// first separator.
pub open spec fn sym_len(s: Seq<char>) -> nat
    decreases s,
{
    if s.len() == 0 || is_sep(s[0]) {
        0
    } else {
        1 + sym_len(s.subrange(1, s.len() as int))
    }
}

pub proof fn lemma_sym_len_le(s: Seq<char>)
    ensures
        sym_len(s) <= s.len(),
    decreases s,
{
    if s.len() > 0 && !is_sep(s[0]) {
        lemma_sym_len_le(s.subrange(1, s.len() as int));
    }
}

/// What pins the symbol-run length down: every character before it is no
/// separator, and it stops at the end or at a separator.
pub proof fn lemma_sym_len_is(s: Seq<char>, k: int)
    requires
        0 <= k <= s.len(),
        forall|l: int| 0 <= l < k ==> !is_sep(s[l]),
        k < s.len() ==> is_sep(s[k]),
    ensures
        sym_len(s) == k,
    decreases s,
{
    if s.len() == 0 || is_sep(s[0]) {
    } else {
        let s2 = s.subrange(1, s.len() as int);
        lemma_sym_len_is(s2, k - 1);
    }
}

/// The token sequence of source text: whitespace is skipped, each delimiter
/// is one token, and each maximal run of other characters is one symbol
/// token.
pub open spec fn tokenize_v(s: Seq<char>) -> Seq<TokenV>
    decreases s.len(),
    via tokenize_v_decreases
{
    if s.len() == 0 {
        Seq::empty()
    } else if is_ws(s[0]) {
        tokenize_v(s.subrange(1, s.len() as int))
    } else if s[0] == '(' {
        seq![TokenV::LParen] + tokenize_v(s.subrange(1, s.len() as int))
    } else if s[0] == ')' {
        seq![TokenV::RParen] + tokenize_v(s.subrange(1, s.len() as int))
    } else if s[0] == '\'' {
        seq![TokenV::Quote] + tokenize_v(s.subrange(1, s.len() as int))
    } else {
        let j = 1 + sym_len(s.subrange(1, s.len() as int));
        seq![TokenV::Sym(s.subrange(0, j as int))] + tokenize_v(s.subrange(j as int, s.len() as int))
    }
}

#[via_fn]
proof fn tokenize_v_decreases(s: Seq<char>) {
    if s.len() > 0 && !is_sep(s[0]) {
        lemma_sym_len_le(s.subrange(1, s.len() as int));
    }
}

/// Whether a character separates tokens.
fn is_sep_char(c: char) -> (r: bool)
    ensures
        r == is_sep(c),
{
    c == ' ' || c == '\t' || c == '\n' || c == '\r' || c == '(' || c == ')' || c == '\''
}

/// Split source text into tokens.
fn tokenize(src: &str) -> (r: Vec<Token>)
    ensures
        tokens_view(r@) == tokenize_v(src@),
{
    let n = src.unicode_len();
    let mut out: Vec<Token> = Vec::new();
    let mut i: usize = 0;
    proof {
        assert(src@.subrange(0, n as int) =~= src@);
        assert(tokens_view(out@) =~= Seq::<TokenV>::empty());
    }
    while i < n
        invariant
            n == src@.len(),
            i <= n,
            tokenize_v(src@) == tokens_view(out@) + tokenize_v(src@.subrange(i as int, n as int)),
        decreases n - i,
    {
        let ghost shere = src@.subrange(i as int, n as int);
        proof {
            assert(shere[0] == src@[i as int]);
            assert(shere.subrange(1, shere.len() as int) =~= src@.subrange(i + 1, n as int));
            lemma_tokens_view(out@);
        }
        let c = src.get_char(i);
        if c == ' ' || c == '\t' || c == '\n' || c == '\r' {
            i = i + 1;
        } else if c == '(' || c == ')' || c == '\'' {
            let t = if c == '(' {
                Token::LParen
            } else if c == ')' {
                Token::RParen
            } else {
                Token::Quote
            };
            let ghost out0 = out@;
            out.push(t);
            i = i + 1;
            proof {
                lemma_tokens_view(out@);
                lemma_tokens_view(out0);
                assert(tokens_view(out@) =~= tokens_view(out0).push(t.view()));
                assert(tokens_view(out@) + tokenize_v(src@.subrange(i as int, n as int)) =~=
                    tokenize_v(src@));
            }
        } else {
            let mut j: usize = i + 1;
            while j < n
                invariant
                    n == src@.len(),
                    i + 1 <= j <= n,
                    forall|l: int| i < l < j ==> !is_sep(src@[l]),
                ensures
                    i + 1 <= j <= n,
                    forall|l: int| i < l < j ==> !is_sep(src@[l]),
                    j < n ==> is_sep(src@[j as int]),
                decreases n - j,
            {
                let d = src.get_char(j);
                if is_sep_char(d) {
                    break ;
                }
                j = j + 1;
            }
            let name = src.substring_char(i, j).to_owned();
            let t = Token::Sym(name);
            let ghost out0 = out@;
            let ghost tv = t.view();
            out.push(t);
            proof {
                let s1 = shere.subrange(1, shere.len() as int);
                assert forall|l: int| 0 <= l < j - i - 1 implies !is_sep(s1[l]) by {
                    assert(s1[l] == src@[i + 1 + l]);
                }
                if j < n {
                    assert(s1[j - i - 1] == src@[j as int]);
                }
                lemma_sym_len_is(s1, j - i - 1);
                assert(shere.subrange(0, j - i) =~= src@.subrange(i as int, j as int));
                assert(shere.subrange(j - i, shere.len() as int) =~= src@.subrange(
                    j as int,
                    n as int,
                ));
                lemma_tokens_view(out@);
                lemma_tokens_view(out0);
                assert(tokens_view(out@) =~= tokens_view(out0).push(tv));
                assert(tokens_view(out@) + tokenize_v(src@.subrange(j as int, n as int)) =~=
                    tokenize_v(src@));
            }
            i = j;
        }
    }
    proof {
        assert(src@.subrange(i as int, n as int) =~= Seq::<char>::empty());
        assert(tokens_view(out@) =~= tokenize_v(src@));
    }
    out
}

/// The quote symbol the reader inserts for the `'` sugar.
pub open spec fn quote_sym() -> ExprV {
    ExprV::Atom("quote"@)
}

/// Parse one expression from the front of a token sequence. Returns the
/// expression and the tokens left over. A quote mark wraps the next
/// expression in a `quote` form; an opening parenthesis starts a list that
/// runs to its matching closing parenthesis; a bare closing parenthesis is a
/// read error; any other token is a symbol.
pub open spec fn parse_expr_v(toks: Seq<TokenV>) -> Result<(ExprV, Seq<TokenV>), ErrorV>
    decreases toks.len(), 0int,
{
    if toks.len() == 0 {
        Err(ErrorV::ReadError("no tokens to parse"@))
    } else {
        match toks[0] {
            TokenV::Quote => match parse_expr_v(toks.subrange(1, toks.len() as int)) {
                Ok((e, rest)) => Ok((ExprV::List(seq![quote_sym(), e]), rest)),
                Err(er) => Err(er),
            },
            TokenV::LParen => match parse_list_v(toks.subrange(1, toks.len() as int)) {
                Ok((es, rest)) => Ok((ExprV::List(es), rest)),
                Err(er) => Err(er),
            },
            TokenV::RParen => Err(ErrorV::ReadError("unexpected )"@)),
            TokenV::Sym(name) => Ok((ExprV::Atom(name), toks.subrange(1, toks.len() as int))),
        }
    }
}

/// Parse list elements up to and past the closing parenthesis. Running out
/// of tokens first means the opening parenthesis was never matched.
pub open spec fn parse_list_v(toks: Seq<TokenV>) -> Result<(Seq<ExprV>, Seq<TokenV>), ErrorV>
    decreases toks.len(), 1int,
{
    if toks.len() == 0 {
        Err(ErrorV::ReadError("unmatched parens"@))
    } else if toks[0] == TokenV::RParen {
        Ok((Seq::empty(), toks.subrange(1, toks.len() as int)))
    } else {
        match parse_expr_v(toks) {
            Err(er) => Err(er),
            Ok((e, rest)) => {
                let rest1 = if rest.len() < toks.len() {
                    rest
                } else {
                    toks.subrange(1, toks.len() as int)
                };
                match parse_list_v(rest1) {
                    Err(er) => Err(er),
                    Ok((es, rest2)) => Ok((seq![e] + es, rest2)),
                }
            },
        }
    }
}

/// Parsing consumes at least one token, so the leftover is strictly shorter.
pub proof fn lemma_parse_advances(toks: Seq<TokenV>)
    ensures
        parse_expr_v(toks) matches Ok((e, rest)) ==> rest.len() < toks.len(),
        parse_list_v(toks) matches Ok((es, rest)) ==> rest.len() < toks.len(),
    decreases toks.len(), 2int,
{
    if toks.len() > 0 {
        lemma_parse_advances(toks.subrange(1, toks.len() as int));
        if !(toks[0] == TokenV::RParen) && parse_expr_v(toks) is Ok {
            let (e, rest) = parse_expr_v(toks)->Ok_0;
            if rest.len() < toks.len() {
                lemma_parse_advances(rest);
            }
        }
    }
}

/// Parse every top-level expression of a token sequence, in order. At least
/// one expression is demanded; leftover tokens start the next one.
pub open spec fn parse_all_v(toks: Seq<TokenV>) -> Result<Seq<ExprV>, ErrorV>
    decreases toks.len(),
{
    match parse_expr_v(toks) {
        Err(er) => Err(er),
        Ok((e, rest)) => {
            if rest.len() == 0 {
                Ok(seq![e])
            } else {
                let rest1 = if rest.len() < toks.len() {
                    rest
                } else {
                    toks.subrange(1, toks.len() as int)
                };
                match parse_all_v(rest1) {
                    Err(er) => Err(er),
                    Ok(es) => Ok(seq![e] + es),
                }
            }
        },
    }
}

/// What reading source text yields: the top-level expressions of its token
/// sequence, or the first read error.
pub open spec fn read_v(s: Seq<char>) -> Result<Seq<ExprV>, ErrorV> {
    parse_all_v(tokenize_v(s))
}

/// Parse one expression starting at token position `pos`. Returns the
/// expression and the position just past it.
fn parse_partial(tokens: &Vec<Token>, pos: usize) -> (r: Result<(Expr, usize), Error>)
    requires
        pos <= tokens@.len(),
    ensures
        match r {
            Ok((e, p)) => pos < p <= tokens@.len() && parse_expr_v(
                tokens_view(tokens@).subrange(pos as int, tokens@.len() as int),
            ) == Ok::<_, ErrorV>(
                (e.view(), tokens_view(tokens@).subrange(p as int, tokens@.len() as int)),
            ),
            Err(er) => parse_expr_v(
                tokens_view(tokens@).subrange(pos as int, tokens@.len() as int),
            ) == Err::<(ExprV, Seq<TokenV>), _>(er.view()),
        },
    decreases tokens@.len() - pos,
{
    let ghost tv = tokens_view(tokens@);
    let ghost n = tokens@.len() as int;
    let ghost suff = tv.subrange(pos as int, n);
    proof {
        lemma_tokens_view(tokens@);
    }
    if pos >= tokens.len() {
        proof {
            assert(suff =~= Seq::<TokenV>::empty());
        }
        return Err(Error::ReadError(String::from_str("no tokens to parse")));
    }
    proof {
        assert(suff[0] == tv[pos as int]);
        assert(suff.subrange(1, suff.len() as int) =~= tv.subrange(pos + 1, n));
    }
    match &tokens[pos] {
        Token::Quote => {
            match parse_partial(tokens, pos + 1) {
                Ok((e, p)) => {
                    let mut items: Vec<Expr> = Vec::new();
                    items.push(Expr::Atom(Atom(String::from_str("quote"))));
                    items.push(e);
                    let r = Expr::List(List::from_vec(items));
                    proof {
                        crate::expr::lemma_views_of(items@);
                        assert(r.view() ->List_0 =~= seq![quote_sym(), items@[1].view()]);
                    }
                    Ok((r, p))
                },
                Err(er) => Err(er),
            }
        },
        Token::LParen => {
            let mut items: Vec<Expr> = Vec::new();
            let mut cur: usize = pos + 1;
            let ghost start = pos + 1;
            loop
                invariant
                    tv == tokens_view(tokens@),
                    n == tokens@.len(),
                    tv.len() == n,
                    forall|l: int| 0 <= l < n ==> tv[l] == tokens@[l].view(),
                    suff == tv.subrange(pos as int, n),
                    pos < n,
                    tv[pos as int] == TokenV::LParen,
                    start == pos + 1,
                    start <= cur <= n,
                    ({
                        let orig = parse_list_v(tv.subrange(start as int, n));
                        let here = parse_list_v(tv.subrange(cur as int, n));
                        match here {
                            Ok((es, rest)) => orig == Ok::<_, ErrorV>(
                                (views_of(items@) + es, rest),
                            ),
                            Err(er) => orig == Err::<(Seq<ExprV>, Seq<TokenV>), _>(er),
                        }
                    }),
                decreases n - cur,
            {
                proof {
                    lemma_tokens_view(tokens@);
                }
                let ghost chere = tv.subrange(cur as int, n);
                if cur >= tokens.len() {
                    proof {
                        assert(chere =~= Seq::<TokenV>::empty());
                        assert(suff[0] == tv[pos as int]);
                        assert(suff.subrange(1, suff.len() as int) =~= tv.subrange(
                            start as int,
                            n,
                        ));
                    }
                    return Err(Error::ReadError(String::from_str("unmatched parens")));
                }
                proof {
                    assert(chere[0] == tv[cur as int]);
                    assert(chere.subrange(1, chere.len() as int) =~= tv.subrange(cur + 1, n));
                }
                let closing = match &tokens[cur] {
                    Token::RParen => true,
                    _ => false,
                };
                if closing {
                    let r = Expr::List(List::from_vec(items));
                    proof {
                        assert(parse_list_v(chere) == Ok::<_, ErrorV>(
                            (Seq::<ExprV>::empty(), tv.subrange(cur + 1, n)),
                        ));
                        assert(views_of(r ->List_0.items@) + Seq::<ExprV>::empty() =~= views_of(
                            r ->List_0.items@,
                        ));
                        assert(suff.subrange(1, suff.len() as int) =~= tv.subrange(start as int, n));
                    }
                    return Ok((r, cur + 1));
                }
                match parse_partial(tokens, cur) {
                    Ok((e, p)) => {
                        let ghost items0 = items@;
                        items.push(e);
                        proof {
                            crate::expr::lemma_views_of(items@);
                            crate::expr::lemma_views_of(items0);
                            assert(views_of(items@) =~= views_of(items0).push(e.view()));
                            let here = parse_list_v(chere);
                            let next = parse_list_v(tv.subrange(p as int, n));
                            assert(parse_expr_v(chere) == Ok::<_, ErrorV>(
                                (e.view(), tv.subrange(p as int, n)),
                            ));
                            match next {
                                Ok((es2, rest2)) => {
                                    assert(views_of(items0) + (seq![e.view()] + es2) =~= views_of(
                                        items@,
                                    ) + es2);
                                },
                                Err(_) => {},
                            }
                        }
                        cur = p;
                    },
                    Err(er) => {
                        proof {
                            assert(suff[0] == tv[pos as int]);
                            assert(suff.subrange(1, suff.len() as int) =~= tv.subrange(
                                start as int,
                                n,
                            ));
                        }
                        return Err(er);
                    },
                }
            }
        },
        Token::RParen => Err(Error::ReadError(String::from_str("unexpected )"))),
        Token::Sym(name) => {
            let e = Expr::Atom(Atom(name.clone()));
            Ok((e, pos + 1))
        },
    }
}

/// Parse every top-level expression of a token run, in order.
fn parse(tokens: &Vec<Token>) -> (r: Result<Vec<Expr>, Error>)
    ensures
        match r {
            Ok(es) => parse_all_v(tokens_view(tokens@)) == Ok::<_, ErrorV>(views_of(es@)),
            Err(er) => parse_all_v(tokens_view(tokens@)) == Err::<Seq<ExprV>, _>(er.view()),
        },
{
    let ghost tv = tokens_view(tokens@);
    let ghost n = tokens@.len() as int;
    proof {
        lemma_tokens_view(tokens@);
        assert(tv.subrange(0, n) =~= tv);
    }
    let mut exprs: Vec<Expr> = Vec::new();
    let mut pos: usize = 0;
    loop
        invariant
            tv == tokens_view(tokens@),
            n == tokens@.len(),
            tv.len() == n,
            pos <= n,
            ({
                let orig = parse_all_v(tv);
                let here = parse_all_v(tv.subrange(pos as int, n));
                match here {
                    Ok(es) => orig == Ok::<_, ErrorV>(views_of(exprs@) + es),
                    Err(er) => orig == Err::<Seq<ExprV>, _>(er),
                }
            }),
        decreases n - pos,
    {
        match parse_partial(tokens, pos) {
            Ok((e, p)) => {
                let ghost exprs0 = exprs@;
                exprs.push(e);
                proof {
                    crate::expr::lemma_views_of(exprs@);
                    crate::expr::lemma_views_of(exprs0);
                    assert(views_of(exprs@) =~= views_of(exprs0).push(e.view()));
                    let here = parse_all_v(tv.subrange(pos as int, n));
                    if p < n {
                        let next = parse_all_v(tv.subrange(p as int, n));
                        match next {
                            Ok(es2) => {
                                assert(views_of(exprs0) + (seq![e.view()] + es2) =~= views_of(
                                    exprs@,
                                ) + es2);
                            },
                            Err(_) => {},
                        }
                    } else {
                        assert(tv.subrange(pos as int, n).len() > 0);
                        assert(views_of(exprs0) + seq![e.view()] =~= views_of(exprs@));
                        assert(views_of(exprs@) + Seq::<ExprV>::empty() =~= views_of(exprs@));
                    }
                }
                if p >= tokens.len() {
                    proof {
                        assert(parse_all_v(tv) == Ok::<_, ErrorV>(views_of(exprs@)));
                    }
                    return Ok(exprs);
                }
                pos = p;
            },
            Err(er) => {
                return Err(er);
            },
        }
    }
}

/// Read source text into its sequence of top-level expressions, or fail with
/// the first read error: an unmatched or stray parenthesis, or an exhausted
/// token stream.
pub fn read(src: String) -> (r: Result<Vec<Expr>, Error>)
    ensures
        match r {
            Ok(es) => read_v(src@) == Ok::<_, ErrorV>(views_of(es@)),
            Err(er) => read_v(src@) == Err::<Seq<ExprV>, _>(er.view()),
        },
{
    let tokens = tokenize(src.as_str());
    parse(&tokens)
}

/// What the reader yields contains no function values, so it is well formed
/// against an arena of any size.
pub proof fn lemma_parse_wf(toks: Seq<TokenV>, n: int)
    ensures
        parse_expr_v(toks) matches Ok((e, rest)) ==> crate::expr::expr_wf(e, n),
        parse_list_v(toks) matches Ok((es, rest)) ==> crate::expr::exprs_wf(es, n),
    decreases toks.len(), 2int,
{
    if toks.len() > 0 {
        lemma_parse_advances(toks);
        lemma_parse_advances(toks.subrange(1, toks.len() as int));
        lemma_parse_wf(toks.subrange(1, toks.len() as int), n);
        match toks[0] {
            TokenV::Quote => {
                if parse_expr_v(toks) is Ok {
                    let (e, rest) = parse_expr_v(toks)->Ok_0;
                    let (inner, _) = parse_expr_v(toks.subrange(1, toks.len() as int))->Ok_0;
                    crate::expr::lemma_exprs_wf(seq![quote_sym(), inner], n);
                }
            },
            _ => {},
        }
        if !(toks[0] == TokenV::RParen) && parse_expr_v(toks) is Ok {
            let (e, rest) = parse_expr_v(toks)->Ok_0;
            if rest.len() < toks.len() {
                lemma_parse_wf(rest, n);
                if parse_list_v(rest) is Ok {
                    let (es, rest2) = parse_list_v(rest)->Ok_0;
                    crate::expr::lemma_exprs_wf(es, n);
                    crate::expr::lemma_exprs_wf(seq![e] + es, n);
                }
            }
        }
        if parse_list_v(toks) is Ok && toks[0] == TokenV::RParen {
            assert(crate::expr::exprs_wf(Seq::<ExprV>::empty(), n));
        }
        if parse_expr_v(toks) is Ok && toks[0] is LParen {
            let (es, _) = parse_list_v(toks.subrange(1, toks.len() as int))->Ok_0;
        }
    }
}

/// Every top-level expression the reader yields is well formed against an
/// arena of any size.
pub proof fn lemma_parse_all_wf(toks: Seq<TokenV>, n: int)
    ensures
        parse_all_v(toks) matches Ok(es) ==> crate::expr::exprs_wf(es, n),
    decreases toks.len(),
{
    lemma_parse_wf(toks, n);
    lemma_parse_advances(toks);
    if parse_all_v(toks) is Ok {
        let (e, rest) = parse_expr_v(toks)->Ok_0;
        if rest.len() == 0 {
            crate::expr::lemma_exprs_wf(seq![e], n);
        } else {
            lemma_parse_all_wf(rest, n);
            let es = parse_all_v(rest)->Ok_0;
            crate::expr::lemma_exprs_wf(es, n);
            crate::expr::lemma_exprs_wf(seq![e] + es, n);
        }
    }
}

} // verus!
