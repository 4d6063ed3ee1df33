//! Policy expressions: boolean expression trees over named attributes and
//! literals.
//!
//! Leaves are literals and identifiers. An operation is a list whose first
//! item is the identifier of the operator: `(and a b)`, `(or a b)`,
//! `(not a)`, `(= a b)`, `(!= a b)`, `(< a b)`, `(> a b)`, `(member? x xs)`.

use vstd::prelude::*;

verus! {

/// An expression.
#[derive(Debug, PartialEq, Eq)]
pub enum Expr {
    /// A text literal.
    Str(String),
    /// An integer literal.
    Int(i64),
    /// A boolean literal.
    Bool(bool),
    /// The name of an attribute or of an operator.
    Ident(String),
    /// A literal sequence of values.
    Sequence(Vec<Expr>),
    /// An operation: the operator, then its operands.
    List(Vec<Expr>),
}

/// What an expression stands for.
pub enum ExprView {
    Str(Seq<char>),
    Int(i64),
    Bool(bool),
    Ident(Seq<char>),
    Sequence(Seq<ExprView>),
    List(Seq<ExprView>),
}

impl Expr {
    /// What this expression stands for.
    pub open spec fn model(&self) -> ExprView
        decreases self,
    {
        match self {
            Expr::Str(s) => ExprView::Str(s@),
            Expr::Int(n) => ExprView::Int(*n),
            Expr::Bool(b) => ExprView::Bool(*b),
            Expr::Ident(s) => ExprView::Ident(s@),
            Expr::Sequence(items) => ExprView::Sequence(
                Seq::new(
                    items@.len(),
                    |i: int|
                        if 0 <= i < items@.len() {
                            items@[i].model()
                        } else {
                            ExprView::Bool(false)
                        },
                ),
            ),
            Expr::List(items) => ExprView::List(
                Seq::new(
                    items@.len(),
                    |i: int|
                        if 0 <= i < items@.len() {
                            items@[i].model()
                        } else {
                            ExprView::Bool(false)
                        },
                ),
            ),
        }
    }
}

impl View for Expr {
    type V = ExprView;

    open spec fn view(&self) -> ExprView {
        self.model()
    }
}

/// What a vector of expressions stands for.
pub open spec fn views_of(items: Seq<Expr>) -> Seq<ExprView> {
    Seq::new(items.len(), |i: int| items[i]@)
}

/// The items of a sequence or of a list stand for the views of the items.
pub proof fn lemma_items_view(e: Expr)
    ensures
        e matches Expr::Sequence(items) ==> e@ == ExprView::Sequence(views_of(items@)),
        e matches Expr::List(items) ==> e@ == ExprView::List(views_of(items@)),
{
    match e {
        Expr::Sequence(items) => {
            assert forall|i: int| 0 <= i < items@.len() implies e@->Sequence_0[i] == views_of(
                items@,
            )[i] by {
                assert(e.model()->Sequence_0[i] == items@[i].model());
            }
            assert(e@->Sequence_0 =~= views_of(items@));
        },
        Expr::List(items) => {
            assert forall|i: int| 0 <= i < items@.len() implies e@->List_0[i] == views_of(
                items@,
            )[i] by {
                assert(e.model()->List_0[i] == items@[i].model());
            }
            assert(e@->List_0 =~= views_of(items@));
        },
        _ => {},
    }
}

fn clone_items(items: &Vec<Expr>) -> (r: Vec<Expr>)
    ensures
        views_of(r@) == views_of(items@),
    decreases items,
{
    let mut out: Vec<Expr> = Vec::new();
    let mut i: usize = 0;
    while i < items.len()
        invariant
            i <= items@.len(),
            out@.len() == i,
            forall|j: int| 0 <= j < i ==> out@[j]@ == items@[j]@,
        decreases items.len() - i,
    {
        let item = items[i].clone();
        out.push(item);
        i = i + 1;
    }
    assert(views_of(out@) =~= views_of(items@));
    out
}

impl Clone for Expr {
    fn clone(&self) -> (r: Expr)
        ensures
            r@ == self@,
        decreases self,
    {
        match self {
            Expr::Str(s) => Expr::Str(s.clone()),
            Expr::Int(n) => Expr::Int(*n),
            Expr::Bool(b) => Expr::Bool(*b),
            Expr::Ident(s) => Expr::Ident(s.clone()),
            Expr::Sequence(items) => {
                let r = Expr::Sequence(clone_items(items));
                proof {
                    lemma_items_view(r);
                    lemma_items_view(*self);
                }
                r
            },
            Expr::List(items) => {
                let r = Expr::List(clone_items(items));
                proof {
                    lemma_items_view(r);
                    lemma_items_view(*self);
                }
                r
            },
        }
    }
}

fn items_equal(a: &Vec<Expr>, b: &Vec<Expr>) -> (r: bool)
    ensures
        r == (views_of(a@) == views_of(b@)),
    decreases a,
{
    if a.len() != b.len() {
        assert(views_of(a@).len() != views_of(b@).len());
        return false;
    }
    let mut i: usize = 0;
    while i < a.len()
        invariant
            i <= a@.len(),
            a@.len() == b@.len(),
            forall|j: int| 0 <= j < i ==> a@[j]@ == b@[j]@,
        decreases a.len() - i,
    {
        if !a[i].equals(&b[i]) {
            assert(views_of(a@)[i as int] != views_of(b@)[i as int]);
            return false;
        }
        i = i + 1;
    }
    assert(views_of(a@) =~= views_of(b@));
    true
}

impl Expr {
    /// Whether two expressions are structurally equal.
    pub fn equals(&self, other: &Expr) -> (b: bool)
        ensures
            b == (self@ == other@),
        decreases self,
    {
        proof {
            lemma_items_view(*self);
            lemma_items_view(*other);
        }
        match self {
            Expr::Str(a) => match other {
                Expr::Str(b) => *a == *b,
                _ => false,
            },
            Expr::Int(a) => match other {
                Expr::Int(b) => *a == *b,
                _ => false,
            },
            Expr::Bool(a) => match other {
                Expr::Bool(b) => *a == *b,
                _ => false,
            },
            Expr::Ident(a) => match other {
                Expr::Ident(b) => *a == *b,
                _ => false,
            },
            Expr::Sequence(a) => match other {
                Expr::Sequence(b) => items_equal(a, b),
                _ => false,
            },
            Expr::List(a) => match other {
                Expr::List(b) => items_equal(a, b),
                _ => false,
            },
        }
    }
}

/// The view of the operation `operator` on `operands`.
pub open spec fn operation(operator: Seq<char>, operands: Seq<ExprView>) -> ExprView {
    ExprView::List(seq![ExprView::Ident(operator)] + operands)
}

fn apply(operator: &str, operands: Vec<Expr>) -> (e: Expr)
    ensures
        e@ == operation(operator@, views_of(operands@)),
{
    let mut items: Vec<Expr> = Vec::new();
    items.push(Expr::Ident(operator.to_owned()));
    let mut operands = operands;
    let ghost given = operands@;
    items.append(&mut operands);
    let e = Expr::List(items);
    proof {
        lemma_items_view(e);
        assert(views_of(items@) =~= seq![ExprView::Ident(operator@)] + views_of(given));
    }
    e
}

/// The text literal `s`.
pub fn str(s: &str) -> (e: Expr)
    ensures
        e@ == ExprView::Str(s@),
{
    Expr::Str(s.to_owned())
}

/// The integer literal `n`.
pub fn int_lit(n: i64) -> (e: Expr)
    ensures
        e@ == ExprView::Int(n),
{
    Expr::Int(n)
}

/// The boolean literal `true`.
pub fn t() -> (e: Expr)
    ensures
        e@ == ExprView::Bool(true),
{
    Expr::Bool(true)
}

/// The boolean literal `false`.
pub fn f() -> (e: Expr)
    ensures
        e@ == ExprView::Bool(false),
{
    Expr::Bool(false)
}

/// The identifier `name`.
pub fn ident(name: &str) -> (e: Expr)
    ensures
        e@ == ExprView::Ident(name@),
{
    Expr::Ident(name.to_owned())
}

/// The literal sequence of `items`.
pub fn seq_lit(items: Vec<Expr>) -> (e: Expr)
    ensures
        e@ == ExprView::Sequence(views_of(items@)),
{
    let e = Expr::Sequence(items);
    proof {
        lemma_items_view(e);
    }
    e
}

/// The conjunction of `operands`.
pub fn and(operands: Vec<Expr>) -> (e: Expr)
    ensures
        e@ == operation("and"@, views_of(operands@)),
{
    apply("and", operands)
}

/// The disjunction of `operands`.
pub fn or(operands: Vec<Expr>) -> (e: Expr)
    ensures
        e@ == operation("or"@, views_of(operands@)),
{
    apply("or", operands)
}

/// The negation of `operand`.
pub fn not(operand: Expr) -> (e: Expr)
    ensures
        e@ == operation("not"@, seq![operand@]),
{
    let mut operands: Vec<Expr> = Vec::new();
    operands.push(operand);
    assert(views_of(operands@) =~= seq![operand@]);
    apply("not", operands)
}

/// The comparison of `operands` for equality.
pub fn eq(operands: Vec<Expr>) -> (e: Expr)
    ensures
        e@ == operation("="@, views_of(operands@)),
{
    apply("=", operands)
}

/// The comparison of `operands` for inequality.
pub fn ne(operands: Vec<Expr>) -> (e: Expr)
    ensures
        e@ == operation("!="@, views_of(operands@)),
{
    apply("!=", operands)
}

/// The comparison of `operands` for ascending order.
pub fn lt(operands: Vec<Expr>) -> (e: Expr)
    ensures
        e@ == operation("<"@, views_of(operands@)),
{
    apply("<", operands)
}

/// The comparison of `operands` for descending order.
pub fn gt(operands: Vec<Expr>) -> (e: Expr)
    ensures
        e@ == operation(">"@, views_of(operands@)),
{
    apply(">", operands)
}

/// The test whether `item` is one of the items of `items`.
pub fn member(item: Expr, items: Expr) -> (e: Expr)
    ensures
        e@ == operation("member?"@, seq![item@, items@]),
{
    let mut operands: Vec<Expr> = Vec::new();
    operands.push(item);
    operands.push(items);
    assert(views_of(operands@) =~= seq![item@, items@]);
    apply("member?", operands)
}

} // verus!
