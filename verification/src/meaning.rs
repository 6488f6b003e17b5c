//! What a formula's text is worth, said of the texts that it is made of.

use vstd::prelude::*;

use crate::alike::{
    is_stop_byte, joined, lemma_comparison, lemma_factor, lemma_joined, lemma_spaces_first,
    lemma_spaces_twice, lemma_sum, lemma_term, relation_text, stands_in, sum_value,
};
use crate::ascii::{
    alphas_end, bytes_of, is_alpha, is_digit, lemma_digits_end_from, lemma_digits_value_same,
    lemma_spaces_end, row_number, spaces_end, upper_all, COMMA, EQUALS, LPAREN, MINUS, PLUS, RPAREN,
    SLASH, SPACE, STAR, UPPER_A,
};
use crate::decimal::{dec, lemma_dec_digits, lemma_dec_value};
use crate::fixed::{magnitude, ONE};
use crate::formula::{
    argument_at, classified, column, comparison_at, eval, factor_at, formula, formula_value,
    function_named, name_at, row_at, sum_at, sum_rest, term_at, term_rest, Binary, Expr, Function,
    Relation, Unary,
};
use crate::grid::{on_grid, Kind};
use crate::labels::cell_name;

verus! {

/// The expression that a text is as a factor, from end to end.
pub open spec fn factor_of(x: Seq<u8>) -> Option<Expr> {
    match factor_at(x, 0) {
        Some((e, q)) => if q == x.len() {
            Some(e)
        } else {
            None
        },
        None => None,
    }
}

/// The value of a text that is a factor from end to end.
pub open spec fn factor_value(x: Seq<u8>, vals: Seq<i64>, nums: Seq<bool>) -> Option<i64> {
    match factor_of(x) {
        Some(e) => eval(e, vals, nums),
        None => None,
    }
}

/// The expression that a text is as a term, from end to end.
pub open spec fn term_of(x: Seq<u8>) -> Option<Expr> {
    match term_at(x, 0) {
        Some((e, q)) => if q == x.len() {
            Some(e)
        } else {
            None
        },
        None => None,
    }
}

/// The value of a text that is a term from end to end.
pub open spec fn term_value(x: Seq<u8>, vals: Seq<i64>, nums: Seq<bool>) -> Option<i64> {
    match term_of(x) {
        Some(e) => eval(e, vals, nums),
        None => None,
    }
}

/// The expression that a text is as a comparison, from end to end.
pub open spec fn side_of(x: Seq<u8>) -> Option<Expr> {
    match comparison_at(x, 0) {
        Some((e, q)) => if q == x.len() {
            Some(e)
        } else {
            None
        },
        None => None,
    }
}

/// The value of a text that is a comparison, or a sum, from end to end.
pub open spec fn side_value(x: Seq<u8>, vals: Seq<i64>, nums: Seq<bool>) -> Option<i64> {
    match side_of(x) {
        Some(e) => eval(e, vals, nums),
        None => None,
    }
}

/// Two texts with a byte between them.
pub open spec fn between(x: Seq<u8>, c: u8, y: Seq<u8>) -> Seq<u8> {
    x + seq![c] + y
}

/// A text in brackets behind a word.
pub open spec fn called(word: Seq<u8>, arguments: Seq<u8>) -> Seq<u8> {
    word + seq![LPAREN] + arguments + seq![RPAREN]
}

/// A text stands where it was put.
pub proof fn lemma_placed(b: Seq<u8>, c: Seq<u8>, n: int)
    requires
        0 <= n,
        n + c.len() <= b.len(),
        b.subrange(n, n + c.len()) == c,
        n + c.len() == b.len() || is_stop_byte(b[n + c.len()]),
    ensures
        stands_in(c, b, n),
{
    assert forall|i: int| 0 <= i < c.len() implies crate::ascii::upper(#[trigger] c[i])
        == crate::ascii::upper(b[n + i]) by {
        assert(b.subrange(n, n + c.len())[i] == b[n + i]);
    }
}

// ---------------------------------------------------------------------------
// From the smaller parts to the larger
// ---------------------------------------------------------------------------

/// A factor is a term of the same value.
pub proof fn law_factor_is_term(x: Seq<u8>, vals: Seq<i64>, nums: Seq<bool>)
    requires
        factor_of(x) is Some,
    ensures
        term_of(x) == factor_of(x),
        term_value(x, vals, nums) == factor_value(x, vals, nums),
{
    let e = factor_of(x)->Some_0;
    lemma_placed_whole(x);
    lemma_factor(x, x, 0, 0);
    let n = x.len() as int;
    assert(spaces_end(x, n) == n);
    assert(term_rest(x, e, n) == Some((e, n)));
}

/// A term is a sum of the same value.
pub proof fn law_term_is_sum(x: Seq<u8>, vals: Seq<i64>, nums: Seq<bool>)
    requires
        term_of(x) is Some,
    ensures
        sum_at(x, 0) == Some((term_of(x)->Some_0, x.len() as int)),
        sum_value(x, vals, nums) == term_value(x, vals, nums),
{
    let e = term_of(x)->Some_0;
    lemma_placed_whole(x);
    lemma_term(x, x, 0, 0);
    let n = x.len() as int;
    assert(spaces_end(x, n) == n);
    assert(sum_rest(x, e, n) == Some((e, n)));
}

/// A sum is worth the same where a comparison may stand.
pub proof fn law_sum_is_side(x: Seq<u8>, vals: Seq<i64>, nums: Seq<bool>)
    requires
        sum_at(x, 0) matches Some((e, q)) && q == x.len(),
    ensures
        side_of(x) == Some(sum_at(x, 0)->Some_0.0),
        side_value(x, vals, nums) == sum_value(x, vals, nums),
{
    lemma_placed_whole(x);
    lemma_sum(x, x, 0, 0);
    let n = x.len() as int;
    assert(spaces_end(x, n) == n);
}

/// A cell with `=` before a comparison or a sum shows its value as a number,
/// or an error if it has none.
pub proof fn law_cell_shows_value(x: Seq<u8>, vals: Seq<i64>, nums: Seq<bool>)
    requires
        side_of(x) is Some,
    ensures
        formula(x) == side_of(x),
        formula_value(x, vals, nums) == side_value(x, vals, nums),
        classified(seq![EQUALS] + x, vals, nums) == match side_value(x, vals, nums) {
            Some(v) => (v, Kind::Num),
            None => (0i64, Kind::Error),
        },
{
    let n = x.len() as int;
    lemma_spaces_first(x);
    assert(spaces_end(x, n) == n);
    assert(formula(x) == side_of(x));
    let raw = seq![EQUALS] + x;
    assert(raw.subrange(1, raw.len() as int) =~= x);
}

pub proof fn lemma_placed_whole(x: Seq<u8>)
    ensures
        stands_in(x, x, 0),
{
    assert(x.subrange(0, x.len() as int) =~= x);
    lemma_placed(x, x, 0);
}

// ---------------------------------------------------------------------------
// Arithmetic
// ---------------------------------------------------------------------------

/// The texts on both sides of a byte stand in the whole.
pub proof fn lemma_between(x: Seq<u8>, c: u8, y: Seq<u8>)
    requires
        is_stop_byte(c),
    ensures
        ({
            let b = between(x, c, y);
            &&& b.len() == x.len() + 1 + y.len()
            &&& b[x.len() as int] == c
            &&& stands_in(x, b, 0)
            &&& stands_in(y, b, x.len() as int + 1)
        }),
{
    let b = between(x, c, y);
    assert(b[x.len() as int] == c);
    assert(b.subrange(0, x.len() as int) =~= x);
    assert(b.subrange(x.len() as int + 1, b.len() as int) =~= y);
    lemma_placed(b, x, 0);
    lemma_placed(b, y, x.len() as int + 1);
}

/// A sum and a term with a sign between are one sum.
#[verifier::rlimit(40)]
pub proof fn lemma_sum_grows(x: Seq<u8>, c: u8, y: Seq<u8>)
    requires
        c == PLUS || c == MINUS,
        sum_at(x, 0) matches Some((l, q)) && q == x.len(),
        term_of(y) is Some,
    ensures
        sum_at(between(x, c, y), 0) == Some(
            (
                Expr::Two(
                    if c == PLUS {
                        Binary::Add
                    } else {
                        Binary::Sub
                    },
                    Box::new(sum_at(x, 0)->Some_0.0),
                    Box::new(term_of(y)->Some_0),
                ),
                between(x, c, y).len() as int,
            ),
        ),
{
    let b = between(x, c, y);
    let n = x.len() as int;
    let (l, q) = sum_at(x, 0)->Some_0;
    lemma_between(x, c, y);
    lemma_sum(x, b, 0, 0);
    lemma_term(y, b, n + 1, 0);
    assert(sum_at(b, 0) == sum_rest(b, l, n));
    assert(spaces_end(b, n) == n);
    let end = b.len() as int;
    assert(spaces_end(b, end) == end);
    let more = Expr::Two(
        if c == PLUS {
            Binary::Add
        } else {
            Binary::Sub
        },
        Box::new(l),
        Box::new(term_of(y)->Some_0),
    );
    assert(term_at(b, n + 1) == Some((term_of(y)->Some_0, end)));
    assert(sum_rest(b, more, end) == Some((more, end)));
}

/// Adding: the text of a sum, a plus and the text of a term is worth what the
/// two are worth together, or an error if that does not fit.
pub proof fn law_sum_adds(x: Seq<u8>, y: Seq<u8>, vals: Seq<i64>, nums: Seq<bool>)
    requires
        sum_value(x, vals, nums) is Some,
        term_value(y, vals, nums) is Some,
    ensures
        ({
            let a = sum_value(x, vals, nums)->Some_0;
            let b = term_value(y, vals, nums)->Some_0;
            let c = sum_value(between(x, PLUS, y), vals, nums);
            &&& c is Some <==> i64::MIN <= a + b <= i64::MAX
            &&& c is Some ==> c->Some_0 == a + b
            &&& side_of(between(x, PLUS, y)) is Some
            &&& side_value(between(x, PLUS, y), vals, nums) == c
        }),
{
    lemma_sum_grows(x, PLUS, y);
    law_sum_is_side(between(x, PLUS, y), vals, nums);
}

/// Subtracting: the text of a sum, a minus and the text of a term is worth what
/// gives the sum when the term is added to it, or an error if that does not
/// fit.
pub proof fn law_difference_subtracts(x: Seq<u8>, y: Seq<u8>, vals: Seq<i64>, nums: Seq<bool>)
    requires
        sum_value(x, vals, nums) is Some,
        term_value(y, vals, nums) is Some,
    ensures
        ({
            let a = sum_value(x, vals, nums)->Some_0;
            let b = term_value(y, vals, nums)->Some_0;
            let d = sum_value(between(x, MINUS, y), vals, nums);
            &&& d is Some <==> i64::MIN <= a - b <= i64::MAX
            &&& d is Some ==> d->Some_0 + b == a
            &&& side_of(between(x, MINUS, y)) is Some
            &&& side_value(between(x, MINUS, y), vals, nums) == d
        }),
{
    lemma_sum_grows(x, MINUS, y);
    law_sum_is_side(between(x, MINUS, y), vals, nums);
}

/// Subtracting a term and adding it again gives the sum that there was.
pub proof fn law_adding_undoes_subtracting(
    x: Seq<u8>,
    y: Seq<u8>,
    vals: Seq<i64>,
    nums: Seq<bool>,
)
    requires
        sum_value(x, vals, nums) is Some,
        term_value(y, vals, nums) is Some,
        sum_value(between(x, MINUS, y), vals, nums) is Some,
    ensures
        sum_value(between(between(x, MINUS, y), PLUS, y), vals, nums) == sum_value(x, vals, nums),
        classified(seq![EQUALS] + between(between(x, MINUS, y), PLUS, y), vals, nums) == (
            sum_value(x, vals, nums)->Some_0,
            Kind::Num,
        ),
{
    law_difference_subtracts(x, y, vals, nums);
    law_sum_adds(between(x, MINUS, y), y, vals, nums);
    law_cell_shows_value(between(between(x, MINUS, y), PLUS, y), vals, nums);
}

/// A term and a factor with a sign between are one term.
#[verifier::rlimit(40)]
proof fn lemma_term_grows(x: Seq<u8>, c: u8, y: Seq<u8>)
    requires
        c == STAR || c == SLASH,
        term_of(x) is Some,
        factor_of(y) is Some,
    ensures
        term_of(between(x, c, y)) == Some(
            Expr::Two(
                if c == STAR {
                    Binary::Mul
                } else {
                    Binary::Div
                },
                Box::new(term_of(x)->Some_0),
                Box::new(factor_of(y)->Some_0),
            ),
        ),
{
    let b = between(x, c, y);
    let n = x.len() as int;
    let l = term_of(x)->Some_0;
    lemma_between(x, c, y);
    lemma_term(x, b, 0, 0);
    lemma_factor(y, b, n + 1, 0);
    assert(term_at(b, 0) == term_rest(b, l, n));
    assert(spaces_end(b, n) == n);
    let end = b.len() as int;
    assert(spaces_end(b, end) == end);
    let more = Expr::Two(
        if c == STAR {
            Binary::Mul
        } else {
            Binary::Div
        },
        Box::new(l),
        Box::new(factor_of(y)->Some_0),
    );
    assert(factor_at(b, n + 1) == Some((factor_of(y)->Some_0, end)));
    assert(term_rest(b, more, end) == Some((more, end)));
}

/// Multiplying: the text of a term, a star and the text of a factor is worth
/// their product, both being scaled by `ONE`, cut off toward zero; an error if
/// the scaled product is beyond 64 bits.
pub proof fn law_product_multiplies(x: Seq<u8>, y: Seq<u8>, vals: Seq<i64>, nums: Seq<bool>)
    requires
        term_value(x, vals, nums) is Some,
        factor_value(y, vals, nums) is Some,
    ensures
        ({
            let a = term_value(x, vals, nums)->Some_0;
            let b = factor_value(y, vals, nums)->Some_0;
            let p = term_value(between(x, STAR, y), vals, nums);
            let exact = magnitude(a as int) * magnitude(b as int);
            &&& term_of(between(x, STAR, y)) is Some
            &&& p is Some <==> exact <= u64::MAX
            &&& p is Some ==> magnitude(p->Some_0 as int) * ONE <= exact < (magnitude(
                p->Some_0 as int,
            ) + 1) * ONE
            &&& p is Some && p->Some_0 != 0 ==> (p->Some_0 < 0 <==> (a < 0) != (b < 0))
        }),
{
    lemma_term_grows(x, STAR, y);
    let a = term_value(x, vals, nums)->Some_0;
    let b = factor_value(y, vals, nums)->Some_0;
    if crate::fixed::product(a as int, b as int) is Some {
        crate::fixed::law_product_cuts_toward_zero(a, b);
    }
}

/// Dividing: the text of a term, a slash and the text of a factor is worth
/// their quotient, scaled by `ONE` and cut off toward zero; an error if the
/// divisor is zero or a scaled number does not fit.
pub proof fn law_quotient_divides(x: Seq<u8>, y: Seq<u8>, vals: Seq<i64>, nums: Seq<bool>)
    requires
        term_value(x, vals, nums) is Some,
        factor_value(y, vals, nums) is Some,
    ensures
        ({
            let a = term_value(x, vals, nums)->Some_0;
            let b = factor_value(y, vals, nums)->Some_0;
            let q = term_value(between(x, SLASH, y), vals, nums);
            let top = magnitude(a as int) * ONE;
            let m = magnitude(b as int);
            &&& term_of(between(x, SLASH, y)) is Some
            &&& q is Some <==> b != 0 && top <= u64::MAX && top < (i64::MAX + 1) * m
            &&& q is Some ==> magnitude(q->Some_0 as int) * m <= top < (magnitude(
                q->Some_0 as int,
            ) + 1) * m
            &&& q is Some && q->Some_0 != 0 ==> (q->Some_0 < 0 <==> (a < 0) != (b < 0))
        }),
{
    lemma_term_grows(x, SLASH, y);
    let a = term_value(x, vals, nums)->Some_0;
    let b = factor_value(y, vals, nums)->Some_0;
    let top = magnitude(a as int) * ONE;
    let m = magnitude(b as int);
    if b != 0 {
        let k = top / m;
        assert(k * m <= top < (k + 1) * m && 0 <= k) by (nonlinear_arith)
            requires
                k == top / m,
                m > 0,
                top >= 0,
        ;
        assert(k <= i64::MAX <==> top < (i64::MAX + 1) * m) by (nonlinear_arith)
            requires
                k * m <= top < (k + 1) * m,
                m > 0,
        ;
    }
}

/// A minus before a factor negates it, unless that does not fit; a plus does
/// nothing.
pub proof fn law_sign_before_factor(y: Seq<u8>, vals: Seq<i64>, nums: Seq<bool>)
    requires
        factor_value(y, vals, nums) is Some,
    ensures
        ({
            let v = factor_value(y, vals, nums)->Some_0;
            let m = factor_value(seq![MINUS] + y, vals, nums);
            &&& factor_of(seq![MINUS] + y) is Some
            &&& m is Some <==> v != i64::MIN
            &&& m is Some ==> m->Some_0 + v == 0
            &&& factor_value(seq![PLUS] + y, vals, nums) == Some(v)
        }),
{
    lemma_signed(MINUS, y);
    lemma_signed(PLUS, y);
}

proof fn lemma_signed(c: u8, y: Seq<u8>)
    requires
        c == MINUS || c == PLUS,
        factor_of(y) is Some,
    ensures
        factor_of(seq![c] + y) == Some(
            if c == MINUS {
                Expr::One(Unary::Neg, Box::new(factor_of(y)->Some_0))
            } else {
                factor_of(y)->Some_0
            },
        ),
{
    let b = seq![c] + y;
    assert(b.subrange(1, b.len() as int) =~= y);
    lemma_placed(b, y, 1);
    lemma_factor(y, b, 1, 0);
    assert(b[0] == c);
    assert(spaces_end(b, 0) == 0);
}

/// Comparing: with a relation between, two sums are worth one if their values
/// stand in that relation, and zero if not.
pub proof fn law_relation_compares(
    x: Seq<u8>,
    rel: Relation,
    y: Seq<u8>,
    vals: Seq<i64>,
    nums: Seq<bool>,
)
    requires
        sum_value(x, vals, nums) is Some,
        sum_value(y, vals, nums) is Some,
    ensures
        ({
            let a = sum_value(x, vals, nums)->Some_0;
            let b = sum_value(y, vals, nums)->Some_0;
            let stands = match rel {
                Relation::Eq => a == b,
                Relation::Ne => a != b,
                Relation::Lt => a < b,
                Relation::Le => a <= b,
                Relation::Gt => b < a,
                Relation::Ge => b <= a,
            };
            let op = match rel {
                Relation::Eq => bytes_of("="),
                Relation::Ne => bytes_of("<>"),
                Relation::Lt => bytes_of("<"),
                Relation::Le => bytes_of("<="),
                Relation::Gt => bytes_of(">"),
                Relation::Ge => bytes_of(">="),
            };
            side_value(x + op + y, vals, nums) == Some(
                if stands {
                    ONE
                } else {
                    0
                },
            )
        }),
{
    reveal_strlit("=");
    reveal_strlit("<>");
    reveal_strlit("<");
    reveal_strlit("<=");
    reveal_strlit(">");
    reveal_strlit(">=");
    let op = match rel {
        Relation::Eq => bytes_of("="),
        Relation::Ne => bytes_of("<>"),
        Relation::Lt => bytes_of("<"),
        Relation::Le => bytes_of("<="),
        Relation::Gt => bytes_of(">"),
        Relation::Ge => bytes_of(">="),
    };
    assert(op =~= relation_text(rel));
    crate::alike::lemma_compared(x, rel, y, vals, nums);
    assert(joined(x, rel, y) == x + op + y);
}

// ---------------------------------------------------------------------------
// Brackets and functions
// ---------------------------------------------------------------------------

/// A comparison is an argument before the byte that closes it.
pub proof fn lemma_closed(b: Seq<u8>, n: int, c: Seq<u8>, ch: u8)
    requires
        0 <= n,
        n + c.len() < b.len(),
        b.subrange(n, n + c.len()) == c,
        b[n + c.len()] == ch,
        ch == RPAREN || ch == COMMA,
        side_of(c) is Some,
    ensures
        argument_at(b, n, ch) == Some((side_of(c)->Some_0, n + c.len() + 1)),
{
    lemma_placed(b, c, n);
    lemma_comparison(c, b, n, 0);
    let q = n + c.len();
    assert(spaces_end(b, q) == q);
}

/// Brackets around a comparison or a sum keep its value.
pub proof fn law_brackets_keep_value(c: Seq<u8>, vals: Seq<i64>, nums: Seq<bool>)
    requires
        side_of(c) is Some,
    ensures
        factor_of(called(seq![], c)) is Some,
        factor_value(called(seq![], c), vals, nums) == side_value(c, vals, nums),
{
    let b = called(seq![], c);
    assert(b[0] == LPAREN);
    assert(b.subrange(1, 1 + c.len() as int) =~= c);
    assert(b[1 + c.len() as int] == RPAREN);
    lemma_closed(b, 1, c, RPAREN);
    assert(spaces_end(b, 0) == 0);
}

/// A word of letters before a bracket is read as that word.
pub proof fn lemma_call_head(word: Seq<u8>, b: Seq<u8>)
    requires
        word.len() > 0,
        word.len() < b.len(),
        b.subrange(0, word.len() as int) == word,
        b[word.len() as int] == LPAREN,
        forall|i: int| 0 <= i < word.len() ==> is_alpha(#[trigger] word[i]),
    ensures
        alphas_end(b, 0) == word.len(),
        factor_at(b, 0) == name_at(b, 0),
{
    let w = word.len() as int;
    assert forall|i: int| 0 <= i < w implies is_alpha(#[trigger] b[i]) by {
        assert(b.subrange(0, w)[i] == word[i]);
    }
    crate::repoint::lemma_alphas_from(b, 0, w);
    assert(alphas_end(b, w) == w);
    assert(is_alpha(b[0]));
    assert(spaces_end(b, 0) == 0);
}

/// The names of the functions.
pub proof fn lemma_function_names()
    ensures
        function_named(bytes_of("IF")) == Some(Function::If),
        function_named(bytes_of("ABS")) == Some(Function::Abs),
        function_named(bytes_of("ROUND")) == Some(Function::Round),
        function_named(bytes_of("INT")) == Some(Function::Int),
        function_named(bytes_of("MOD")) == Some(Function::Mod),
        forall|i: int| 0 <= i < bytes_of("IF").len() ==> is_alpha(#[trigger] bytes_of("IF")[i]),
        forall|i: int| 0 <= i < bytes_of("ABS").len() ==> is_alpha(#[trigger] bytes_of("ABS")[i]),
        forall|i: int|
            0 <= i < bytes_of("ROUND").len() ==> is_alpha(#[trigger] bytes_of("ROUND")[i]),
        forall|i: int| 0 <= i < bytes_of("INT").len() ==> is_alpha(#[trigger] bytes_of("INT")[i]),
        forall|i: int| 0 <= i < bytes_of("MOD").len() ==> is_alpha(#[trigger] bytes_of("MOD")[i]),
        bytes_of("IF").len() == 2,
        bytes_of("ABS").len() == 3,
        bytes_of("ROUND").len() == 5,
        bytes_of("INT").len() == 3,
        bytes_of("MOD").len() == 3,
{
    reveal_strlit("IF");
    reveal_strlit("ABS");
    reveal_strlit("ROUND");
    reveal_strlit("INT");
    reveal_strlit("MOD");
    assert(upper_all(bytes_of("IF")) =~= bytes_of("IF"));
    assert(upper_all(bytes_of("ABS")) =~= bytes_of("ABS"));
    assert(upper_all(bytes_of("ROUND")) =~= bytes_of("ROUND"));
    assert(upper_all(bytes_of("INT")) =~= bytes_of("INT"));
    assert(upper_all(bytes_of("MOD")) =~= bytes_of("MOD"));
    assert(bytes_of("ABS")[0] != bytes_of("INT")[0]);
    assert(bytes_of("ABS")[0] != bytes_of("MOD")[0]);
    assert(bytes_of("INT")[0] != bytes_of("MOD")[0]);
}

/// The call of a function of one argument.
#[verifier::rlimit(40)]
proof fn lemma_call_one(word: Seq<u8>, c: Seq<u8>)
    requires
        word.len() > 0,
        forall|i: int| 0 <= i < word.len() ==> is_alpha(#[trigger] word[i]),
        side_of(c) is Some,
        function_named(word) == Some(Function::Abs) || function_named(word) == Some(
            Function::Round,
        ) || function_named(word) == Some(Function::Int),
    ensures
        ({
            let e = Box::new(side_of(c)->Some_0);
            factor_of(called(word, c)) == Some(
                match function_named(word)->Some_0 {
                    Function::Abs => Expr::One(Unary::Abs, e),
                    Function::Round => Expr::One(Unary::Round, e),
                    _ => Expr::One(Unary::Int, e),
                },
            )
        }),
{
    let b = called(word, c);
    let w = word.len() as int;
    assert(b[w] == LPAREN);
    assert(b.subrange(0, w) =~= word);
    assert(b.subrange(w + 1, w + 1 + c.len() as int) =~= c);
    assert(b[w + 1 + c.len() as int] == RPAREN);
    lemma_call_head(word, b);
    lemma_closed(b, w + 1, c, RPAREN);
}

/// `ABS` gives the distance from zero.
pub proof fn law_abs_is_distance(c: Seq<u8>, vals: Seq<i64>, nums: Seq<bool>)
    requires
        side_value(c, vals, nums) is Some,
    ensures
        ({
            let v = side_value(c, vals, nums)->Some_0;
            let a = factor_value(called(bytes_of("ABS"), c), vals, nums);
            &&& factor_of(called(bytes_of("ABS"), c)) is Some
            &&& a is Some <==> v != i64::MIN
            &&& a is Some ==> a->Some_0 >= 0 && (a->Some_0 == v || a->Some_0 + v == 0)
        }),
{
    lemma_function_names();
    lemma_call_one(bytes_of("ABS"), c);
}

/// `INT` gives the whole number that is not above the value and less than one
/// below it.
pub proof fn law_int_is_floor(c: Seq<u8>, vals: Seq<i64>, nums: Seq<bool>)
    requires
        side_value(c, vals, nums) is Some,
    ensures
        ({
            let v = side_value(c, vals, nums)->Some_0;
            let w = factor_value(called(bytes_of("INT"), c), vals, nums);
            &&& factor_of(called(bytes_of("INT"), c)) is Some
            &&& w is Some ==> w->Some_0 % ONE == 0 && w->Some_0 <= v < w->Some_0 + ONE
            &&& v >= i64::MIN + ONE ==> w is Some
        }),
{
    lemma_function_names();
    lemma_call_one(bytes_of("INT"), c);
    let v = side_value(c, vals, nums)->Some_0;
    if crate::fixed::floor_whole(v as int) is Some {
        crate::fixed::law_floor_is_next_below(v);
    }
}

/// `ROUND` gives the nearest whole number, of two the one farther from zero.
pub proof fn law_round_is_nearest_whole(c: Seq<u8>, vals: Seq<i64>, nums: Seq<bool>)
    requires
        side_value(c, vals, nums) is Some,
    ensures
        ({
            let v = side_value(c, vals, nums)->Some_0;
            let w = factor_value(called(bytes_of("ROUND"), c), vals, nums);
            &&& factor_of(called(bytes_of("ROUND"), c)) is Some
            &&& w is Some ==> {
                &&& w->Some_0 % ONE == 0
                &&& -ONE <= 2 * (w->Some_0 - v) <= ONE
                &&& 2 * (w->Some_0 - v) == ONE ==> v > 0
                &&& 2 * (w->Some_0 - v) == -ONE ==> v < 0
            }
            &&& i64::MIN + ONE <= v <= i64::MAX - ONE ==> w is Some
        }),
{
    lemma_function_names();
    lemma_call_one(bytes_of("ROUND"), c);
    let v = side_value(c, vals, nums)->Some_0;
    if crate::fixed::nearest_whole(v as int) is Some {
        crate::fixed::law_round_is_nearest(v);
    }
}

/// The call of `MOD`.
#[verifier::rlimit(40)]
proof fn lemma_call_mod(c: Seq<u8>, d: Seq<u8>)
    requires
        side_of(c) is Some,
        side_of(d) is Some,
    ensures
        factor_of(called(bytes_of("MOD"), between(c, COMMA, d))) == Some(
            Expr::Two(Binary::Mod, Box::new(side_of(c)->Some_0), Box::new(side_of(d)->Some_0)),
        ),
{
    lemma_function_names();
    let word = bytes_of("MOD");
    let b = called(word, between(c, COMMA, d));
    let m = 4 + c.len() as int;
    assert(b.subrange(0, 3) == word && b[3] == LPAREN && b.len() > 4) by {
        assert(b.subrange(0, 3) =~= word);
    }
    assert(argument_at(b, 4, COMMA) == Some((side_of(c)->Some_0, m + 1))) by {
        assert(b.subrange(4, m) =~= c);
        assert(b[m] == COMMA);
        lemma_closed(b, 4, c, COMMA);
    }
    assert(argument_at(b, m + 1, RPAREN) == Some((side_of(d)->Some_0, b.len() as int))) by {
        assert(b.subrange(m + 1, m + 1 + d.len()) =~= d);
        assert(b[m + 1 + d.len()] == RPAREN);
        lemma_closed(b, m + 1, d, RPAREN);
    }
    assert(m + 1 <= b.len());
    lemma_call_head(word, b);
}

/// `MOD` gives what is left of its first argument after whole multiples of the
/// second: less than that in magnitude, and of its sign. A second argument of
/// zero is an error.
pub proof fn law_mod_is_remainder(c: Seq<u8>, d: Seq<u8>, vals: Seq<i64>, nums: Seq<bool>)
    requires
        side_value(c, vals, nums) is Some,
        side_value(d, vals, nums) is Some,
    ensures
        ({
            let a = side_value(c, vals, nums)->Some_0;
            let b = side_value(d, vals, nums)->Some_0;
            let r = factor_value(called(bytes_of("MOD"), between(c, COMMA, d)), vals, nums);
            &&& factor_of(called(bytes_of("MOD"), between(c, COMMA, d))) is Some
            &&& r is Some <==> b != 0
            &&& r is Some ==> {
                &&& magnitude(r->Some_0 as int) < magnitude(b as int)
                &&& r->Some_0 != 0 ==> (r->Some_0 < 0 <==> b < 0)
                &&& (a - r->Some_0) % b as int == 0
            }
        }),
{
    lemma_call_mod(c, d);
    let y = side_value(d, vals, nums)->Some_0;
    if y != 0 {
        crate::fixed::law_mod_takes_sign_of_divisor(side_value(c, vals, nums)->Some_0, y);
    }
}

/// The call of `IF`.
#[verifier::rlimit(40)]
proof fn lemma_call_if(c: Seq<u8>, x: Seq<u8>, y: Seq<u8>)
    requires
        side_of(c) is Some,
        side_of(x) is Some,
        side_of(y) is Some,
    ensures
        factor_of(called(bytes_of("IF"), between(between(c, COMMA, x), COMMA, y))) == Some(
            Expr::If(
                Box::new(side_of(c)->Some_0),
                Box::new(side_of(x)->Some_0),
                Box::new(side_of(y)->Some_0),
            ),
        ),
{
    lemma_function_names();
    let word = bytes_of("IF");
    let inner = between(between(c, COMMA, x), COMMA, y);
    let b = called(word, inner);
    let m = 3 + c.len() as int;
    let k = m + 1 + x.len();
    assert(b.subrange(0, 2) == word && b[2] == LPAREN && b.len() > 3) by {
        assert(b.subrange(0, 2) =~= word);
    }
    assert(argument_at(b, 3, COMMA) == Some((side_of(c)->Some_0, m + 1))) by {
        assert(b.subrange(3, m) =~= c);
        assert(b[m] == COMMA);
        lemma_closed(b, 3, c, COMMA);
    }
    assert(argument_at(b, m + 1, COMMA) == Some((side_of(x)->Some_0, k + 1))) by {
        assert(b.subrange(m + 1, k) =~= x);
        assert(b[k] == COMMA);
        lemma_closed(b, m + 1, x, COMMA);
    }
    assert(argument_at(b, k + 1, RPAREN) == Some((side_of(y)->Some_0, b.len() as int))) by {
        assert(b.subrange(k + 1, k + 1 + y.len()) =~= y);
        assert(b[k + 1 + y.len()] == RPAREN);
        lemma_closed(b, k + 1, y, RPAREN);
    }
    assert(m + 1 <= b.len() && k + 1 <= b.len());
    lemma_call_head(word, b);
}

/// `IF` gives its second argument where the first is not zero, else the third;
/// an error if any of the three is one.
pub proof fn law_if_chooses(
    c: Seq<u8>,
    x: Seq<u8>,
    y: Seq<u8>,
    vals: Seq<i64>,
    nums: Seq<bool>,
)
    requires
        side_of(c) is Some,
        side_of(x) is Some,
        side_of(y) is Some,
    ensures
        ({
            let text = called(bytes_of("IF"), between(between(c, COMMA, x), COMMA, y));
            let v = factor_value(text, vals, nums);
            let test = side_value(c, vals, nums);
            &&& factor_of(text) is Some
            &&& v is Some <==> test is Some && side_value(x, vals, nums) is Some && side_value(
                y,
                vals,
                nums,
            ) is Some
            &&& v is Some && test != Some(0i64) ==> v == side_value(x, vals, nums)
            &&& v is Some && test == Some(0i64) ==> v == side_value(y, vals, nums)
        }),
{
    lemma_call_if(c, x, y);
}

// ---------------------------------------------------------------------------
// References
// ---------------------------------------------------------------------------

/// A cell's name in a text is read as that cell.
pub proof fn lemma_name_read(b: Seq<u8>, n: int, col: int, row: int)
    requires
        on_grid(col, row),
        0 <= n,
        n + cell_name(col, row).len() <= b.len(),
        b.subrange(n, n + cell_name(col, row).len()) == cell_name(col, row),
        n + cell_name(col, row).len() == b.len() || !is_digit(b[n + cell_name(col, row).len()]),
    ensures
        is_alpha(b[n]),
        column(b[n]) == col,
        row_at(b, n + 1) == Some((row, n + cell_name(col, row).len())),
        alphas_end(b, n) == n + 1,
        is_digit(b[n + 1]),
        n + 1 < n + cell_name(col, row).len(),
{
    let name = cell_name(col, row);
    let digits = dec((row + 1) as nat);
    let q = n + name.len();
    lemma_dec_digits((row + 1) as nat);
    lemma_dec_value((row + 1) as nat);
    assert(b[n] == b.subrange(n, q)[0]);
    assert forall|m: int| 0 <= m < digits.len() implies #[trigger] digits[0 + m] == b[n + 1
        + m] by {
        assert(b.subrange(n, q)[1 + m] == b[n + 1 + m]);
        assert(name[1 + m] == digits[m]);
    }
    assert forall|i: int| n + 1 <= i < q implies is_digit(#[trigger] b[i]) by {
        assert(digits[0 + (i - n - 1)] == b[n + 1 + (i - n - 1)]);
    }
    lemma_digits_end_from(b, n + 1, q);
    assert(crate::ascii::digits_end(b, q) == q);
    lemma_digits_value_same(digits, 0, digits.len() as int, b, n + 1);
    assert(row_number(b, n + 1, q) == row + 1);
    assert(alphas_end(b, n + 1) == n + 1);
}

/// A cell's name, its letter and its row counted from one, is worth what the
/// cell is worth.
pub proof fn law_reference_reads_cell(col: int, row: int, vals: Seq<i64>, nums: Seq<bool>)
    requires
        0 <= col < 26,
        0 <= row < 50,
    ensures
        ({
            let name = seq![(UPPER_A + col) as u8] + dec((row + 1) as nat);
            &&& factor_of(name) == Some(Expr::Cell { col, row })
            &&& factor_value(name, vals, nums) == Some(vals[26 * row + col])
        }),
{
    let b = cell_name(col, row);
    assert(b == seq![(UPPER_A + col) as u8] + dec((row + 1) as nat));
    assert(b.subrange(0, b.len() as int) =~= b);
    lemma_name_read(b, 0, col, row);
    assert(spaces_end(b, 0) == 0);
    assert(is_alpha(b[0]));
    assert(b[1] != LPAREN);
    assert(name_at(b, 0) == Some((Expr::Cell { col, row }, b.len() as int)));
    assert(factor_at(b, 0) == name_at(b, 0));
}

// ---------------------------------------------------------------------------
// Errors
// ---------------------------------------------------------------------------

/// An operation on something without a value has none.
pub proof fn law_error_spreads(
    x: Seq<u8>,
    c: u8,
    y: Seq<u8>,
    vals: Seq<i64>,
    nums: Seq<bool>,
)
    ensures
        (c == PLUS || c == MINUS) && (sum_at(x, 0) matches Some((e, q)) && q == x.len())
            && term_of(y) is Some && (sum_value(x, vals, nums) is None || term_value(y, vals, nums)
            is None) ==> sum_value(between(x, c, y), vals, nums) is None,
        (c == STAR || c == SLASH) && term_of(x) is Some && factor_of(y) is Some && (term_value(
            x,
            vals,
            nums,
        ) is None || factor_value(y, vals, nums) is None) ==> term_value(
            between(x, c, y),
            vals,
            nums,
        ) is None,
        (c == PLUS || c == MINUS) && factor_of(y) is Some && factor_value(y, vals, nums) is None
            ==> factor_value(seq![c] + y, vals, nums) is None,
{
    if (c == PLUS || c == MINUS) && (sum_at(x, 0) matches Some((e, q)) && q == x.len())
        && term_of(y) is Some {
        lemma_sum_grows(x, c, y);
    }
    if (c == STAR || c == SLASH) && term_of(x) is Some && factor_of(y) is Some {
        lemma_term_grows(x, c, y);
    }
    if (c == PLUS || c == MINUS) && factor_of(y) is Some {
        lemma_signed(c, y);
    }
}

/// A comparison of something without a value has none.
pub proof fn law_error_spreads_over_relation(
    x: Seq<u8>,
    rel: Relation,
    y: Seq<u8>,
    vals: Seq<i64>,
    nums: Seq<bool>,
)
    requires
        sum_at(x, 0) matches Some((e, q)) && q == x.len(),
        sum_at(y, 0) matches Some((e, q)) && q == y.len(),
        sum_value(x, vals, nums) is None || sum_value(y, vals, nums) is None,
    ensures
        side_of(joined(x, rel, y)) is Some,
        side_value(joined(x, rel, y), vals, nums) is None,
{
    let e = lemma_joined(x, rel, y);
}

/// A function of something without a value has none.
pub proof fn law_error_spreads_over_functions(
    c: Seq<u8>,
    d: Seq<u8>,
    vals: Seq<i64>,
    nums: Seq<bool>,
)
    requires
        side_of(c) is Some,
        side_of(d) is Some,
        side_value(c, vals, nums) is None,
    ensures
        factor_value(called(bytes_of("ABS"), c), vals, nums) is None,
        factor_value(called(bytes_of("INT"), c), vals, nums) is None,
        factor_value(called(bytes_of("ROUND"), c), vals, nums) is None,
        factor_value(called(bytes_of("MOD"), between(c, COMMA, d)), vals, nums) is None,
        factor_value(called(bytes_of("MOD"), between(d, COMMA, c)), vals, nums) is None,
{
    lemma_function_names();
    lemma_call_one(bytes_of("ABS"), c);
    lemma_call_one(bytes_of("INT"), c);
    lemma_call_one(bytes_of("ROUND"), c);
    lemma_call_mod(c, d);
    lemma_call_mod(d, c);
}

/// What a cell shows for a formula that cannot be read.
pub open spec fn is_refused(x: Seq<u8>) -> bool {
    forall|vals: Seq<i64>, nums: Seq<bool>| #[trigger]
        classified(seq![EQUALS] + x, vals, nums) == (0i64, Kind::Error)
}

proof fn lemma_refused(x: Seq<u8>)
    requires
        formula(x) is None,
    ensures
        is_refused(x),
{
    let raw = seq![EQUALS] + x;
    assert(raw.subrange(1, raw.len() as int) =~= x);
}

/// A formula ends with its expression: a closing bracket, a comma or a colon
/// behind it is an error.
pub proof fn law_rest_is_refused(x: Seq<u8>, c: u8)
    requires
        side_of(x) is Some,
        c == RPAREN || c == COMMA || c == crate::ascii::COLON,
    ensures
        is_refused(x.push(c)),
{
    let b = x.push(c);
    let n = x.len() as int;
    assert(b.subrange(0, n) =~= x);
    lemma_placed(b, x, 0);
    lemma_comparison(x, b, 0, 0);
    lemma_spaces_first(b);
    assert(spaces_end(b, n) == n);
    lemma_refused(b);
}

/// Spaces before an expression make no difference.
#[verifier::rlimit(40)]
proof fn lemma_spaces_skipped(b: Seq<u8>, p: int, p2: int)
    requires
        0 <= p <= p2 <= b.len(),
        spaces_end(b, p) == spaces_end(b, p2),
    ensures
        factor_at(b, p) == factor_at(b, p2),
        term_at(b, p) == term_at(b, p2),
        sum_at(b, p) == sum_at(b, p2),
        comparison_at(b, p) == comparison_at(b, p2),
{
    lemma_placed_whole(b);
    assert(factor_at(b, p) == factor_at(b, p2));
    if factor_at(b, p) is Some {
        lemma_factor(b, b, 0, p);
        lemma_factor(b, b, 0, p2);
        assert(term_at(b, p) == term_at(b, p2));
        if term_at(b, p) is Some {
            lemma_term(b, b, 0, p);
            lemma_term(b, b, 0, p2);
            assert(sum_at(b, p) == sum_at(b, p2));
            if sum_at(b, p) is Some {
                lemma_sum(b, b, 0, p);
                lemma_sum(b, b, 0, p2);
            }
        }
    }
}

/// An operator with nothing behind it is an error.
#[verifier::rlimit(40)]
pub proof fn law_missing_operand_is_refused(x: Seq<u8>, c: u8)
    requires
        (c == PLUS || c == MINUS) && (sum_at(x, 0) matches Some((e, q)) && q == x.len()) || (c
            == STAR || c == SLASH) && term_of(x) is Some,
    ensures
        is_refused(x.push(c)),
{
    let b = x.push(c);
    let n = x.len() as int;
    assert(b.subrange(0, n) =~= x);
    lemma_placed(b, x, 0);
    assert(spaces_end(b, n) == n);
    assert(spaces_end(b, n + 1) == n + 1);
    assert(factor_at(b, n + 1) is None);
    assert(term_at(b, n + 1) is None);
    if c == PLUS || c == MINUS {
        lemma_sum(x, b, 0, 0);
        let l = sum_at(x, 0)->Some_0.0;
        assert(sum_rest(b, l, n) is None);
    } else {
        lemma_term(x, b, 0, 0);
        let l = term_of(x)->Some_0;
        assert(term_rest(b, l, n) is None);
        assert(term_at(b, 0) is None);
    }
    assert(sum_at(b, 0) is None);
    assert(comparison_at(b, 0) is None);
    lemma_spaces_end(b, 0);
    lemma_spaces_twice(b, 0);
    lemma_spaces_skipped(b, 0, spaces_end(b, 0));
    lemma_refused(b);
}

/// A space before a factor, a term or a sum does not change it.
#[verifier::rlimit(40)]
pub proof fn law_space_before_is_ignored(y: Seq<u8>)
    ensures
        factor_of(y) is Some ==> factor_of(seq![SPACE] + y) == factor_of(y),
        term_of(y) is Some ==> term_of(seq![SPACE] + y) == term_of(y),
        side_of(y) is Some ==> side_of(seq![SPACE] + y) == side_of(y),
{
    let b = seq![SPACE] + y;
    assert(b.subrange(1, b.len() as int) =~= y);
    lemma_placed(b, y, 1);
    assert(b[0] == SPACE);
    assert(spaces_end(b, 0) == spaces_end(b, 1));
    lemma_spaces_skipped(b, 0, 1);
    if factor_of(y) is Some {
        lemma_factor(y, b, 1, 0);
    }
    if term_of(y) is Some {
        lemma_term(y, b, 1, 0);
        let n = b.len() as int;
        assert(spaces_end(b, n) == n);
        assert(term_rest(b, term_of(y)->Some_0, n) == Some((term_of(y)->Some_0, n)));
    }
    if side_of(y) is Some {
        lemma_comparison(y, b, 1, 0);
    }
}

/// Letters and then a number name a cell only if it is one letter, and a row
/// from one to fifty: anything else is an error.
pub proof fn law_only_cells_have_names(word: Seq<u8>, n: nat)
    requires
        word.len() > 0,
        forall|i: int| 0 <= i < word.len() ==> is_alpha(#[trigger] word[i]),
        word.len() > 1 || n < 1 || n > 50,
    ensures
        is_refused(word + dec(n)),
{
    let b = word + dec(n);
    let w = word.len() as int;
    let end = b.len() as int;
    lemma_dec_digits(n);
    lemma_dec_value(n);
    assert forall|i: int| 0 <= i < w implies is_alpha(#[trigger] b[i]) by {
        assert(b[i] == word[i]);
    }
    assert forall|i: int| w <= i < end implies is_digit(#[trigger] b[i]) by {
        assert(b[i] == dec(n)[i - w]);
    }
    crate::repoint::lemma_alphas_from(b, 0, w);
    assert(!is_alpha(b[w]) && b[w] != LPAREN) by {
        assert(is_digit(b[w]));
    }
    assert(alphas_end(b, w) == w);
    assert forall|m: int| 0 <= m < dec(n).len() implies #[trigger] dec(n)[0 + m] == b[w + m] by {}
    lemma_digits_value_same(dec(n), 0, dec(n).len() as int, b, w);
    lemma_digits_end_from(b, w, end);
    assert(crate::ascii::digits_end(b, end) == end);
    assert(name_at(b, 0) is None);
    assert(is_alpha(b[0]));
    assert(spaces_end(b, 0) == 0);
    assert(factor_at(b, 0) is None);
    assert(term_at(b, 0) is None);
    assert(sum_at(b, 0) is None);
    assert(comparison_at(b, 0) is None);
    lemma_refused(b);
}

/// A word that is no function's name cannot be called.
pub proof fn law_unknown_function_is_refused(word: Seq<u8>, rest: Seq<u8>)
    requires
        word.len() > 0,
        forall|i: int| 0 <= i < word.len() ==> is_alpha(#[trigger] word[i]),
        ({
            let w = upper_all(word);
            &&& w != bytes_of("IF") && w != bytes_of("ABS") && w != bytes_of("ROUND")
            &&& w != bytes_of("INT") && w != bytes_of("MOD") && w != bytes_of("SUM")
            &&& w != bytes_of("AVG") && w != bytes_of("MIN") && w != bytes_of("MAX")
            &&& w != bytes_of("COUNT")
        }),
    ensures
        is_refused(word + seq![LPAREN] + rest),
{
    let b = word + seq![LPAREN] + rest;
    let w = word.len() as int;
    assert(b.subrange(0, w) =~= word);
    assert(b[w] == LPAREN);
    lemma_call_head(word, b);
    assert(name_at(b, 0) is None);
    assert(term_at(b, 0) is None);
    assert(sum_at(b, 0) is None);
    assert(comparison_at(b, 0) is None);
    lemma_spaces_end(b, 0);
    lemma_spaces_twice(b, 0);
    lemma_spaces_skipped(b, 0, spaces_end(b, 0));
    lemma_refused(b);
}

} // verus!
