//! Polynomial expressions in the entries of a row of columns, and the check
//! that several of them vanish on every row that counts.

use crate::field::{
    Fr, all_in_field, fadd, fmul, fsub, in_field, lemma_view_in_field, residue, signed_lift_to_fr,
    vals,
};
use crate::poly::{
    lemma_on_add, lemma_on_const, lemma_on_lin, lemma_on_mul, lemma_on_sub, lemma_poly_mul, lin,
    poly, poly_add, poly_mul, poly_sub,
};
use crate::ring::{
    group_in_field, lemma_fadd_zero, lemma_fmul_one, lemma_residue_add, lemma_residue_id,
    lemma_residue_in_field, lemma_residue_mul, lemma_residue_sub,
};
use crate::sumcheck::{CellIdentity, cell_at, cell_line, lemma_total_zero, total};
use vstd::prelude::*;

verus! {

/// An expression in the entries of a row.
pub enum Expr {
    /// The entry of a column.
    Col(usize),
    /// An integer constant.
    Num(i128),
    Sum(Box<Expr>, Box<Expr>),
    Diff(Box<Expr>, Box<Expr>),
    Prod(Box<Expr>, Box<Expr>),
}

/// The value at a row of residues. Columns beyond the row read as zero.
pub open spec fn field_value(e: Expr, row: Seq<int>) -> int
    decreases e,
{
    match e {
        Expr::Col(k) => if k < row.len() {
            row[k as int]
        } else {
            0
        },
        Expr::Num(c) => residue(c as int),
        Expr::Sum(a, b) => fadd(field_value(*a, row), field_value(*b, row)),
        Expr::Diff(a, b) => fsub(field_value(*a, row), field_value(*b, row)),
        Expr::Prod(a, b) => fmul(field_value(*a, row), field_value(*b, row)),
    }
}

/// The value at a row of integers.
pub open spec fn int_value(e: Expr, row: Seq<int>) -> int
    decreases e,
{
    match e {
        Expr::Col(k) => if k < row.len() {
            row[k as int]
        } else {
            0
        },
        Expr::Num(c) => c as int,
        Expr::Sum(a, b) => int_value(*a, row) + int_value(*b, row),
        Expr::Diff(a, b) => int_value(*a, row) - int_value(*b, row),
        Expr::Prod(a, b) => int_value(*a, row) * int_value(*b, row),
    }
}

/// A bound of the degree in the row's entries.
pub open spec fn expr_degree(e: Expr) -> nat
    decreases e,
{
    match e {
        Expr::Col(_) => 1,
        Expr::Num(_) => 0,
        Expr::Sum(a, b) | Expr::Diff(a, b) => max_nat(expr_degree(*a), expr_degree(*b)),
        Expr::Prod(a, b) => expr_degree(*a) + expr_degree(*b),
    }
}

/// The larger of two numbers.
pub open spec fn max_nat(a: nat, b: nat) -> nat {
    if a >= b {
        a
    } else {
        b
    }
}

/// The residues of a row of integers.
pub open spec fn residues(row: Seq<int>) -> Seq<int> {
    Seq::new(row.len(), |i: int| residue(row[i]))
}

/// An expression commutes with taking residues.
pub proof fn law_expr_residue(e: Expr, row: Seq<int>)
    ensures
        field_value(e, residues(row)) == residue(int_value(e, row)),
    decreases e,
{
    match e {
        Expr::Col(k) => {
            if k >= row.len() {
                lemma_residue_id(0);
            }
        },
        Expr::Num(c) => {},
        Expr::Sum(a, b) => {
            law_expr_residue(*a, row);
            law_expr_residue(*b, row);
            lemma_residue_add(int_value(*a, row), int_value(*b, row));
        },
        Expr::Diff(a, b) => {
            law_expr_residue(*a, row);
            law_expr_residue(*b, row);
            lemma_residue_sub(int_value(*a, row), int_value(*b, row));
        },
        Expr::Prod(a, b) => {
            law_expr_residue(*a, row);
            law_expr_residue(*b, row);
            lemma_residue_mul(int_value(*a, row), int_value(*b, row));
        },
    }
}

/// Along a line of rows an expression is a polynomial of its degree.
pub proof fn law_expr_on_line(e: Expr, lo: Seq<int>, hi: Seq<int>) -> (c: Seq<int>)
    requires
        lo.len() == hi.len(),
        all_in_field(lo),
        all_in_field(hi),
    ensures
        c.len() <= expr_degree(e) + 1,
        forall|t: int|
            in_field(t) ==> field_value(e, #[trigger] cell_line(lo, hi, t)) == residue(poly(c, t)),
    decreases e,
{
    match e {
        Expr::Col(k) => {
            let c = if k < lo.len() {
                lin(lo[k as int], hi[k as int])
            } else {
                seq![0int]
            };
            assert forall|t: int| in_field(t) implies field_value(
                e,
                #[trigger] cell_line(lo, hi, t),
            ) == residue(poly(c, t)) by {
                if k < lo.len() {
                    lemma_on_lin(lo[k as int], hi[k as int], t);
                } else {
                    lemma_on_const(0, t);
                }
            }
            c
        },
        Expr::Num(v) => {
            let c = seq![residue(v as int)];
            assert forall|t: int| in_field(t) implies field_value(
                e,
                #[trigger] cell_line(lo, hi, t),
            ) == residue(poly(c, t)) by {
                lemma_residue_in_field(v as int);
                lemma_on_const(residue(v as int), t);
            }
            c
        },
        Expr::Sum(a, b) => {
            let p = law_expr_on_line(*a, lo, hi);
            let q = law_expr_on_line(*b, lo, hi);
            let c = poly_add(p, q);
            assert forall|t: int| in_field(t) implies field_value(
                e,
                #[trigger] cell_line(lo, hi, t),
            ) == residue(poly(c, t)) by {
                let x = cell_line(lo, hi, t);
                lemma_on_add(field_value(*a, x), p, field_value(*b, x), q, t);
            }
            c
        },
        Expr::Diff(a, b) => {
            let p = law_expr_on_line(*a, lo, hi);
            let q = law_expr_on_line(*b, lo, hi);
            let c = poly_sub(p, q);
            assert forall|t: int| in_field(t) implies field_value(
                e,
                #[trigger] cell_line(lo, hi, t),
            ) == residue(poly(c, t)) by {
                let x = cell_line(lo, hi, t);
                lemma_on_sub(field_value(*a, x), p, field_value(*b, x), q, t);
            }
            c
        },
        Expr::Prod(a, b) => {
            let p = law_expr_on_line(*a, lo, hi);
            let q = law_expr_on_line(*b, lo, hi);
            let c = poly_mul(p, q);
            lemma_poly_mul(p, q, 0);
            assert forall|t: int| in_field(t) implies field_value(
                e,
                #[trigger] cell_line(lo, hi, t),
            ) == residue(poly(c, t)) by {
                let x = cell_line(lo, hi, t);
                lemma_on_mul(field_value(*a, x), p, field_value(*b, x), q, t);
            }
            c
        },
    }
}

/// The entry of a column.
#[verifier::allow_in_spec]
pub fn e_col(k: usize) -> Expr
    returns
        Expr::Col(k),
{
    Expr::Col(k)
}

/// A constant.
#[verifier::allow_in_spec]
pub fn e_num(c: i128) -> Expr
    returns
        Expr::Num(c),
{
    Expr::Num(c)
}

/// A sum.
#[verifier::allow_in_spec]
pub fn e_sum(a: Expr, b: Expr) -> Expr
    returns
        Expr::Sum(Box::new(a), Box::new(b)),
{
    Expr::Sum(Box::new(a), Box::new(b))
}

/// A difference.
#[verifier::allow_in_spec]
pub fn e_diff(a: Expr, b: Expr) -> Expr
    returns
        Expr::Diff(Box::new(a), Box::new(b)),
{
    Expr::Diff(Box::new(a), Box::new(b))
}

/// A product.
#[verifier::allow_in_spec]
pub fn e_prod(a: Expr, b: Expr) -> Expr
    returns
        Expr::Prod(Box::new(a), Box::new(b)),
{
    Expr::Prod(Box::new(a), Box::new(b))
}

/// Evaluate an expression at a row.
pub fn eval_expr(e: &Expr, row: &Vec<Fr>) -> (r: Fr)
    ensures
        r@ == field_value(*e, vals(row@)),
    decreases e,
{
    match e {
        Expr::Col(k) => if *k < row.len() {
            row[*k]
        } else {
            Fr::from_u64(0)
        },
        Expr::Num(c) => signed_lift_to_fr(*c),
        Expr::Sum(a, b) => eval_expr(a, row).add(eval_expr(b, row)),
        Expr::Diff(a, b) => eval_expr(a, row).sub(eval_expr(b, row)),
        Expr::Prod(a, b) => eval_expr(a, row).mul(eval_expr(b, row)),
    }
}

// ---- Combinations ----

/// A coefficient; those that were not given are zero.
pub open spec fn coefficient(rhos: Seq<int>, k: int) -> int {
    if 0 <= k < rhos.len() {
        rhos[k]
    } else {
        0
    }
}

/// The first of `k` expressions plus the others, each times its coefficient.
pub open spec fn combination(rhos: Seq<int>, exprs: Seq<Expr>, row: Seq<int>, k: nat) -> int
    decreases k,
{
    if k == 0 {
        0
    } else if k == 1 {
        field_value(exprs[0], row)
    } else {
        fadd(
            combination(rhos, exprs, row, (k - 1) as nat),
            fmul(coefficient(rhos, k - 2), field_value(exprs[k - 1], row)),
        )
    }
}

/// The largest degree of the first `k` expressions.
pub open spec fn top_degree(exprs: Seq<Expr>, k: nat) -> nat
    decreases k,
{
    if k == 0 {
        0
    } else {
        max_nat(top_degree(exprs, (k - 1) as nat), expr_degree(exprs[k - 1]))
    }
}

/// A combination of expressions, weighted by the product of the first two
/// columns: the weights of a random point, and the mask of the rows that count.
/// There are `columns` more.
pub struct MaskedCombination {
    pub columns: usize,
    pub exprs: Vec<Expr>,
    pub rhos: Vec<Fr>,
}

/// The weighted combination at a row.
pub open spec fn masked_value(rhos: Seq<int>, exprs: Seq<Expr>, row: Seq<int>) -> int {
    fmul(fmul(row[0], row[1]), combination(rhos, exprs, row, exprs.len()))
}

/// Along a line of rows a combination is a polynomial.
proof fn lemma_combination_line(
    rhos: Seq<int>,
    exprs: Seq<Expr>,
    lo: Seq<int>,
    hi: Seq<int>,
    k: nat,
) -> (c: Seq<int>)
    requires
        lo.len() == hi.len(),
        all_in_field(lo),
        all_in_field(hi),
        all_in_field(rhos),
        k <= exprs.len(),
    ensures
        c.len() <= top_degree(exprs, k) + 1,
        forall|t: int|
            in_field(t) ==> combination(rhos, exprs, #[trigger] cell_line(lo, hi, t), k) == residue(
                poly(c, t),
            ),
    decreases k,
{
    if k == 0 {
        let c = seq![0int];
        assert forall|t: int| in_field(t) implies combination(
            rhos,
            exprs,
            #[trigger] cell_line(lo, hi, t),
            k,
        ) == residue(poly(c, t)) by {
            lemma_on_const(0, t);
        }
        c
    } else if k == 1 {
        let c = law_expr_on_line(exprs[0], lo, hi);
        assert(top_degree(exprs, 1) >= expr_degree(exprs[0]));
        c
    } else {
        let p = lemma_combination_line(rhos, exprs, lo, hi, (k - 1) as nat);
        let q = law_expr_on_line(exprs[k - 1], lo, hi);
        let rho = coefficient(rhos, k - 2);
        let s = poly_mul(seq![rho], q);
        lemma_poly_mul(seq![rho], q, 0);
        let c = poly_add(p, s);
        assert forall|t: int| in_field(t) implies combination(
            rhos,
            exprs,
            #[trigger] cell_line(lo, hi, t),
            k,
        ) == residue(poly(c, t)) by {
            let x = cell_line(lo, hi, t);
            lemma_on_const(rho, t);
            let v = field_value(exprs[k - 1], x);
            lemma_on_mul(rho, seq![rho], v, q, t);
            lemma_on_add(combination(rhos, exprs, x, (k - 1) as nat), p, fmul(rho, v), s, t);
        }
        c
    }
}

impl CellIdentity for MaskedCombination {
    open spec fn arity(&self) -> nat {
        2 + self.columns as nat
    }

    open spec fn degree(&self) -> nat {
        2 + top_degree(self.exprs@, self.exprs@.len())
    }

    open spec fn at(&self, cell: Seq<int>) -> int {
        masked_value(vals(self.rhos@), self.exprs@, cell)
    }

    proof fn lemma_line(&self, lo: Seq<int>, hi: Seq<int>) -> (c: Seq<int>) {
        broadcast use lemma_view_in_field;

        let rv = vals(self.rhos@);
        let ev = self.exprs@;
        let p = lemma_combination_line(rv, ev, lo, hi, ev.len());
        let l0 = lin(lo[0], hi[0]);
        let l1 = lin(lo[1], hi[1]);
        let w = poly_mul(l0, l1);
        let c = poly_mul(w, p);
        lemma_poly_mul(l0, l1, 0);
        lemma_poly_mul(w, p, 0);
        assert forall|t: int| in_field(t) implies self.at(#[trigger] cell_line(lo, hi, t))
            == residue(poly(c, t)) by {
            let x = cell_line(lo, hi, t);
            lemma_on_lin(lo[0], hi[0], t);
            lemma_on_lin(lo[1], hi[1], t);
            lemma_on_mul(x[0], l0, x[1], l1, t);
            lemma_on_mul(fmul(x[0], x[1]), w, combination(rv, ev, x, ev.len()), p, t);
        }
        c
    }

    fn eval(&self, cell: &Vec<Fr>) -> (r: Fr) {
        let ghost rv = vals(self.rhos@);
        let ghost ev = self.exprs@;
        let ghost cv = vals(cell@);
        let mut acc: Fr = Fr::from_u64(0);
        let mut k: usize = 0;
        while k < self.exprs.len()
            invariant
                k <= self.exprs@.len(),
                rv == vals(self.rhos@),
                ev == self.exprs@,
                cv == vals(cell@),
                acc@ == combination(rv, ev, cv, k as nat),
            decreases self.exprs@.len() - k,
        {
            let v: Fr = eval_expr(&self.exprs[k], cell);
            if k == 0 {
                acc = v;
            } else {
                let rho: Fr = if k - 1 < self.rhos.len() {
                    self.rhos[k - 1]
                } else {
                    Fr::from_u64(0)
                };
                acc = acc.add(rho.mul(v));
            }
            k += 1;
        }
        cell[0].mul(cell[1]).mul(acc)
    }
}

/// Where every expression vanishes, so does their combination.
proof fn lemma_combination_zero(rhos: Seq<int>, exprs: Seq<Expr>, row: Seq<int>, k: nat)
    requires
        k <= exprs.len(),
        all_in_field(rhos),
        forall|i: int| 0 <= i < k ==> field_value(#[trigger] exprs[i], row) == 0,
    ensures
        combination(rhos, exprs, row, k) == 0,
    decreases k,
{
    if k >= 2 {
        lemma_combination_zero(rhos, exprs, row, (k - 1) as nat);
        assert(field_value(exprs[k - 1], row) == 0);
        lemma_fmul_one(coefficient(rhos, k - 2));
        lemma_fadd_zero(0);
    } else if k == 1 {
        assert(field_value(exprs[0], row) == 0);
    }
}

/// A combination sums to zero where, on every row, the mask is zero or the row
/// is made of the residues of integers at which every expression vanishes.
pub proof fn lemma_masked_total(
    ident: &MaskedCombination,
    cols: Seq<Seq<int>>,
    rows: Seq<Seq<int>>,
    n: nat,
)
    requires
        cols.len() == ident.arity(),
        forall|i: int|
            0 <= i < n ==> cols[1][i] == 0 || {
                &&& forall|k: int|
                    0 <= k < ident.exprs@.len() ==> int_value(
                        #[trigger] ident.exprs@[k],
                        rows[i],
                    ) == 0
                &&& cell_at(cols, i) == residues(#[trigger] rows[i])
            },
    ensures
        total(ident, cols, n) == 0,
{
    broadcast use lemma_view_in_field, group_in_field;

    let rv = vals(ident.rhos@);
    let ev = ident.exprs@;
    assert forall|i: int| 0 <= i < n implies ident.at(#[trigger] cell_at(cols, i)) == 0 by {
        let row = cell_at(cols, i);
        assert(row[1] == cols[1][i]);
        reveal(fmul);
        if cols[1][i] == 0 {
            assert(row[0] * 0 == 0);
            assert(0 * combination(rv, ev, row, ev.len()) == 0);
        } else {
            assert(row == residues(rows[i]));
            assert forall|k: int| 0 <= k < ev.len() implies field_value(#[trigger] ev[k], row)
                == 0 by {
                law_expr_residue(ev[k], rows[i]);
                lemma_residue_id(0);
            }
            lemma_combination_zero(rv, ev, row, ev.len());
            assert(fmul(row[0], row[1]) * 0 == 0);
        }
    }
    lemma_total_zero(ident, cols, n);
}

} // verus!
