//! The abstract syntax tree: expressions and declarations, with their
//! mathematical mirrors.  Unary minus is carried as `Minus(Number(0), e)`,
//! exactly as the parser builds it.

use vstd::prelude::*;

verus! {

/// The mathematical content of an [`Expression`].
pub enum SpecExpr {
    Number(u64),
    StrLit(Seq<char>),
    True,
    False,
    Nil,
    Not(Box<SpecExpr>),
    Equal(Box<SpecExpr>, Box<SpecExpr>),
    NotEqual(Box<SpecExpr>, Box<SpecExpr>),
    Less(Box<SpecExpr>, Box<SpecExpr>),
    LessEqual(Box<SpecExpr>, Box<SpecExpr>),
    Greater(Box<SpecExpr>, Box<SpecExpr>),
    GreaterEqual(Box<SpecExpr>, Box<SpecExpr>),
    Plus(Box<SpecExpr>, Box<SpecExpr>),
    Minus(Box<SpecExpr>, Box<SpecExpr>),
    Multiply(Box<SpecExpr>, Box<SpecExpr>),
    Divide(Box<SpecExpr>, Box<SpecExpr>),
    Paren(Box<SpecExpr>),
    Variable(Seq<char>),
    Assignment(Seq<char>, Box<SpecExpr>),
    And(Box<SpecExpr>, Box<SpecExpr>),
    Or(Box<SpecExpr>, Box<SpecExpr>),
    Call(Box<SpecExpr>, Seq<SpecExpr>),
}

/// An expression.  A number literal carries the encoding of its double; a
/// string literal carries its content without the quotes.
#[derive(Debug)]
pub enum Expression {
    Number(u64),
    StrLit(String),
    True,
    False,
    Nil,
    Not(Box<Expression>),
    Equal(Box<Expression>, Box<Expression>),
    NotEqual(Box<Expression>, Box<Expression>),
    Less(Box<Expression>, Box<Expression>),
    LessEqual(Box<Expression>, Box<Expression>),
    Greater(Box<Expression>, Box<Expression>),
    GreaterEqual(Box<Expression>, Box<Expression>),
    Plus(Box<Expression>, Box<Expression>),
    Minus(Box<Expression>, Box<Expression>),
    Multiply(Box<Expression>, Box<Expression>),
    Divide(Box<Expression>, Box<Expression>),
    Paren(Box<Expression>),
    Variable(String),
    Assignment(String, Box<Expression>),
    And(Box<Expression>, Box<Expression>),
    Or(Box<Expression>, Box<Expression>),
    Call(Box<Expression>, Vec<Expression>),
}

pub open spec fn sexpr(e: Expression) -> SpecExpr
    decreases e,
{
    match e {
        Expression::Number(b) => SpecExpr::Number(b),
        Expression::StrLit(s) => SpecExpr::StrLit(s@),
        Expression::True => SpecExpr::True,
        Expression::False => SpecExpr::False,
        Expression::Nil => SpecExpr::Nil,
        Expression::Not(a) => SpecExpr::Not(Box::new(sexpr(*a))),
        Expression::Equal(a, b) => SpecExpr::Equal(Box::new(sexpr(*a)), Box::new(sexpr(*b))),
        Expression::NotEqual(a, b) => SpecExpr::NotEqual(Box::new(sexpr(*a)), Box::new(sexpr(*b))),
        Expression::Less(a, b) => SpecExpr::Less(Box::new(sexpr(*a)), Box::new(sexpr(*b))),
        Expression::LessEqual(a, b) => SpecExpr::LessEqual(
            Box::new(sexpr(*a)),
            Box::new(sexpr(*b)),
        ),
        Expression::Greater(a, b) => SpecExpr::Greater(Box::new(sexpr(*a)), Box::new(sexpr(*b))),
        Expression::GreaterEqual(a, b) => SpecExpr::GreaterEqual(
            Box::new(sexpr(*a)),
            Box::new(sexpr(*b)),
        ),
        Expression::Plus(a, b) => SpecExpr::Plus(Box::new(sexpr(*a)), Box::new(sexpr(*b))),
        Expression::Minus(a, b) => SpecExpr::Minus(Box::new(sexpr(*a)), Box::new(sexpr(*b))),
        Expression::Multiply(a, b) => SpecExpr::Multiply(Box::new(sexpr(*a)), Box::new(sexpr(*b))),
        Expression::Divide(a, b) => SpecExpr::Divide(Box::new(sexpr(*a)), Box::new(sexpr(*b))),
        Expression::Paren(a) => SpecExpr::Paren(Box::new(sexpr(*a))),
        Expression::Variable(n) => SpecExpr::Variable(n@),
        Expression::Assignment(n, a) => SpecExpr::Assignment(n@, Box::new(sexpr(*a))),
        Expression::And(a, b) => SpecExpr::And(Box::new(sexpr(*a)), Box::new(sexpr(*b))),
        Expression::Or(a, b) => SpecExpr::Or(Box::new(sexpr(*a)), Box::new(sexpr(*b))),
        Expression::Call(f, args) => SpecExpr::Call(Box::new(sexpr(*f)), sexprs(args@)),
    }
}

pub open spec fn sexprs(es: Seq<Expression>) -> Seq<SpecExpr>
    decreases es,
{
    if es.len() == 0 {
        Seq::empty()
    } else {
        seq![sexpr(es[0])] + sexprs(es.drop_first())
    }
}

impl View for Expression {
    type V = SpecExpr;

    open spec fn view(&self) -> SpecExpr {
        sexpr(*self)
    }
}

/// The mathematical content of a [`Declaration`].
pub enum SpecDecl {
    Expression(SpecExpr),
    Print(SpecExpr),
    Var(Seq<char>, Option<SpecExpr>),
    Block(Seq<SpecDecl>),
    If(SpecExpr, Box<SpecDecl>, Option<Box<SpecDecl>>),
    While(SpecExpr, Box<SpecDecl>),
    Function(Seq<char>, Seq<Seq<char>>, Box<SpecDecl>),
    Return(SpecExpr),
}

/// A declaration: a statement or a binding form.
#[derive(Debug)]
pub enum Declaration {
    Expression(Expression),
    Print(Expression),
    Var(String, Option<Expression>),
    Block(Vec<Declaration>),
    If(Expression, Box<Declaration>, Option<Box<Declaration>>),
    While(Expression, Box<Declaration>),
    Function(String, Vec<String>, Box<Declaration>),
    Return(Expression),
}

pub open spec fn names_view(ns: Seq<String>) -> Seq<Seq<char>> {
    ns.map_values(|n: String| n@)
}

pub open spec fn sdecl(d: Declaration) -> SpecDecl
    decreases d,
{
    match d {
        Declaration::Expression(e) => SpecDecl::Expression(sexpr(e)),
        Declaration::Print(e) => SpecDecl::Print(sexpr(e)),
        Declaration::Var(n, init) => SpecDecl::Var(
            n@,
            match init {
                Some(e) => Some(sexpr(e)),
                None => None,
            },
        ),
        Declaration::Block(ds) => SpecDecl::Block(sdecls(ds@)),
        Declaration::If(c, t, e) => SpecDecl::If(
            sexpr(c),
            Box::new(sdecl(*t)),
            match e {
                Some(d2) => Some(Box::new(sdecl(*d2))),
                None => None,
            },
        ),
        Declaration::While(c, b) => SpecDecl::While(sexpr(c), Box::new(sdecl(*b))),
        Declaration::Function(n, params, body) => SpecDecl::Function(
            n@,
            names_view(params@),
            Box::new(sdecl(*body)),
        ),
        Declaration::Return(e) => SpecDecl::Return(sexpr(e)),
    }
}

pub open spec fn sdecls(ds: Seq<Declaration>) -> Seq<SpecDecl>
    decreases ds,
{
    if ds.len() == 0 {
        Seq::empty()
    } else {
        seq![sdecl(ds[0])] + sdecls(ds.drop_first())
    }
}

impl View for Declaration {
    type V = SpecDecl;

    open spec fn view(&self) -> SpecDecl {
        sdecl(*self)
    }
}

/// Sequence views distribute over push.
pub proof fn lemma_sexprs_push(es: Seq<Expression>, e: Expression)
    ensures
        sexprs(es.push(e)) =~= sexprs(es).push(sexpr(e)),
    decreases es,
{
    if es.len() == 0 {
        assert(es.push(e).drop_first() =~= Seq::<Expression>::empty());
        assert(sexprs(Seq::<Expression>::empty()) =~= Seq::<SpecExpr>::empty());
    } else {
        assert(es.push(e)[0] == es[0]);
        assert(es.push(e).drop_first() =~= es.drop_first().push(e));
        lemma_sexprs_push(es.drop_first(), e);
        assert(sexprs(es) == seq![sexpr(es[0])] + sexprs(es.drop_first()));
    }
}

pub proof fn lemma_sdecls_push(ds: Seq<Declaration>, d: Declaration)
    ensures
        sdecls(ds.push(d)) =~= sdecls(ds).push(sdecl(d)),
    decreases ds,
{
    if ds.len() == 0 {
        assert(ds.push(d).drop_first() =~= Seq::<Declaration>::empty());
        assert(sdecls(Seq::<Declaration>::empty()) =~= Seq::<SpecDecl>::empty());
    } else {
        assert(ds.push(d)[0] == ds[0]);
        assert(ds.push(d).drop_first() =~= ds.drop_first().push(d));
        lemma_sdecls_push(ds.drop_first(), d);
        assert(sdecls(ds) == seq![sdecl(ds[0])] + sdecls(ds.drop_first()));
    }
}

/// The view of a two-element declaration sequence.
pub proof fn lemma_sdecls_two(a: Declaration, b: Declaration)
    ensures
        sdecls(seq![a, b]) =~= seq![sdecl(a), sdecl(b)],
{
    assert(seq![a, b].drop_first() =~= seq![b]);
    assert(seq![b].drop_first() =~= Seq::<Declaration>::empty());
    assert(sdecls(Seq::<Declaration>::empty()) =~= Seq::<SpecDecl>::empty());
    assert(sdecls(seq![b]) =~= seq![sdecl(b)]);
}

pub proof fn lemma_sexprs_len(es: Seq<Expression>)
    ensures
        sexprs(es).len() == es.len(),
    decreases es,
{
    if es.len() > 0 {
        lemma_sexprs_len(es.drop_first());
    }
}

pub proof fn lemma_sdecls_len(ds: Seq<Declaration>)
    ensures
        sdecls(ds).len() == ds.len(),
    decreases ds,
{
    if ds.len() > 0 {
        lemma_sdecls_len(ds.drop_first());
    }
}

/// An exact copy of an expression, sharing nothing with the original.
pub fn clone_expression(e: &Expression) -> (r: Expression)
    ensures
        r@ == e@,
    decreases *e,
{
    match e {
        Expression::Number(b) => Expression::Number(*b),
        Expression::StrLit(s) => Expression::StrLit(s.clone()),
        Expression::True => Expression::True,
        Expression::False => Expression::False,
        Expression::Nil => Expression::Nil,
        Expression::Not(a) => Expression::Not(Box::new(clone_expression(a))),
        Expression::Equal(a, b) => Expression::Equal(
            Box::new(clone_expression(a)),
            Box::new(clone_expression(b)),
        ),
        Expression::NotEqual(a, b) => Expression::NotEqual(
            Box::new(clone_expression(a)),
            Box::new(clone_expression(b)),
        ),
        Expression::Less(a, b) => Expression::Less(
            Box::new(clone_expression(a)),
            Box::new(clone_expression(b)),
        ),
        Expression::LessEqual(a, b) => Expression::LessEqual(
            Box::new(clone_expression(a)),
            Box::new(clone_expression(b)),
        ),
        Expression::Greater(a, b) => Expression::Greater(
            Box::new(clone_expression(a)),
            Box::new(clone_expression(b)),
        ),
        Expression::GreaterEqual(a, b) => Expression::GreaterEqual(
            Box::new(clone_expression(a)),
            Box::new(clone_expression(b)),
        ),
        Expression::Plus(a, b) => Expression::Plus(
            Box::new(clone_expression(a)),
            Box::new(clone_expression(b)),
        ),
        Expression::Minus(a, b) => Expression::Minus(
            Box::new(clone_expression(a)),
            Box::new(clone_expression(b)),
        ),
        Expression::Multiply(a, b) => Expression::Multiply(
            Box::new(clone_expression(a)),
            Box::new(clone_expression(b)),
        ),
        Expression::Divide(a, b) => Expression::Divide(
            Box::new(clone_expression(a)),
            Box::new(clone_expression(b)),
        ),
        Expression::Paren(a) => Expression::Paren(Box::new(clone_expression(a))),
        Expression::Variable(n) => Expression::Variable(n.clone()),
        Expression::Assignment(n, a) => Expression::Assignment(
            n.clone(),
            Box::new(clone_expression(a)),
        ),
        Expression::And(a, b) => Expression::And(
            Box::new(clone_expression(a)),
            Box::new(clone_expression(b)),
        ),
        Expression::Or(a, b) => Expression::Or(
            Box::new(clone_expression(a)),
            Box::new(clone_expression(b)),
        ),
        Expression::Call(f, args) => {
            let cf = clone_expression(f);
            let mut cargs: Vec<Expression> = Vec::new();
            let mut i: usize = 0;
            while i < args.len()
                invariant
                    i <= args@.len(),
                    sexprs(cargs@) =~= sexprs(args@.take(i as int)),
                    (*e) is Call,
                    (*e)->Call_1 == *args,
                decreases args@.len() - i,
            {
                let ghost gpre = args@.take(i as int);
                proof {
                    assert(decreases_to!(*e => (*e)->Call_1));
                    assert(decreases_to!((*e)->Call_1 => (*e)->Call_1@));
                    assert(decreases_to!((*e)->Call_1@ => (*e)->Call_1@[i as int]));
                    assert((*e)->Call_1@[i as int] == args@[i as int]);
                }
                let ce = clone_expression(&args[i]);
                proof {
                    lemma_sexprs_push(cargs@, ce);
                    lemma_sexprs_push(gpre, args@[i as int]);
                    assert(gpre.push(args@[i as int]) =~= args@.take(i as int + 1));
                }
                cargs.push(ce);
                i = i + 1;
            }
            proof {
                assert(args@.take(args@.len() as int) =~= args@);
            }
            Expression::Call(Box::new(cf), cargs)
        },
    }
}

/// Name views distribute over push.
pub proof fn lemma_names_push(s: Seq<String>, x: String)
    ensures
        names_view(s.push(x)) =~= names_view(s).push(x@),
{
    assert forall|j: int| 0 <= j < s.len() + 1 implies names_view(s.push(x))[j] == names_view(
        s,
    ).push(x@)[j] by {
        if j < s.len() {
            assert(s.push(x)[j] == s[j]);
        } else {
            assert(s.push(x)[j] == x);
        }
    }
}

/// An exact copy of a names list.
pub fn clone_names(ns: &Vec<String>) -> (r: Vec<String>)
    ensures
        names_view(r@) == names_view(ns@),
{
    let mut out: Vec<String> = Vec::new();
    let mut i: usize = 0;
    while i < ns.len()
        invariant
            i <= ns@.len(),
            names_view(out@) =~= names_view(ns@.take(i as int)),
        decreases ns@.len() - i,
    {
        let ghost gout = out@;
        let c = ns[i].clone();
        let ghost gc = c;
        out.push(c);
        proof {
            lemma_names_push(gout, gc);
            lemma_names_push(ns@.take(i as int), ns@[i as int]);
            assert(ns@.take(i as int + 1) =~= ns@.take(i as int).push(ns@[i as int]));
            assert(names_view(out@) =~= names_view(ns@.take(i as int + 1)));
        }
        i = i + 1;
    }
    proof {
        assert(ns@.take(ns@.len() as int) =~= ns@);
    }
    out
}

/// An exact copy of a declaration, sharing nothing with the original.
pub fn clone_declaration(d: &Declaration) -> (r: Declaration)
    ensures
        r@ == d@,
    decreases *d,
{
    match d {
        Declaration::Expression(e) => Declaration::Expression(clone_expression(e)),
        Declaration::Print(e) => Declaration::Print(clone_expression(e)),
        Declaration::Var(n, init) => Declaration::Var(
            n.clone(),
            match init {
                Some(e) => Some(clone_expression(e)),
                None => None,
            },
        ),
        Declaration::Block(ds) => {
            let mut cds: Vec<Declaration> = Vec::new();
            let mut i: usize = 0;
            while i < ds.len()
                invariant
                    i <= ds@.len(),
                    sdecls(cds@) =~= sdecls(ds@.take(i as int)),
                    (*d) is Block,
                    (*d)->Block_0 == *ds,
                decreases ds@.len() - i,
            {
                let ghost gpre = ds@.take(i as int);
                proof {
                    assert(decreases_to!(*d => (*d)->Block_0));
                    assert(decreases_to!((*d)->Block_0 => (*d)->Block_0@));
                    assert(decreases_to!((*d)->Block_0@ => (*d)->Block_0@[i as int]));
                    assert((*d)->Block_0@[i as int] == ds@[i as int]);
                }
                let cd = clone_declaration(&ds[i]);
                proof {
                    lemma_sdecls_push(cds@, cd);
                    lemma_sdecls_push(gpre, ds@[i as int]);
                    assert(gpre.push(ds@[i as int]) =~= ds@.take(i as int + 1));
                }
                cds.push(cd);
                i = i + 1;
            }
            proof {
                assert(ds@.take(ds@.len() as int) =~= ds@);
            }
            Declaration::Block(cds)
        },
        Declaration::If(c, t, e) => Declaration::If(
            clone_expression(c),
            Box::new(clone_declaration(t)),
            match e {
                Some(d2) => Some(Box::new(clone_declaration(d2))),
                None => None,
            },
        ),
        Declaration::While(c, b) => Declaration::While(
            clone_expression(c),
            Box::new(clone_declaration(b)),
        ),
        Declaration::Function(n, params, body) => Declaration::Function(
            n.clone(),
            clone_names(params),
            Box::new(clone_declaration(body)),
        ),
        Declaration::Return(e) => Declaration::Return(clone_expression(e)),
    }
}

/// Each element's view stands at its place.
pub proof fn lemma_sexprs_index(es: Seq<Expression>, i: int)
    requires
        0 <= i < es.len(),
    ensures
        sexprs(es)[i] == sexpr(es[i]),
    decreases i,
{
    lemma_sexprs_len(es);
    if i == 0 {
    } else {
        lemma_sexprs_index(es.drop_first(), i - 1);
        lemma_sexprs_len(es.drop_first());
    }
}

/// Each element's view stands at its place.
pub proof fn lemma_sdecls_index(ds: Seq<Declaration>, i: int)
    requires
        0 <= i < ds.len(),
    ensures
        sdecls(ds)[i] == sdecl(ds[i]),
    decreases i,
{
    lemma_sdecls_len(ds);
    if i == 0 {
    } else {
        lemma_sdecls_index(ds.drop_first(), i - 1);
        lemma_sdecls_len(ds.drop_first());
    }
}

/// The number of nodes in an expression, for recursion measures.
pub open spec fn expr_size(e: SpecExpr) -> nat
    decreases e, 0nat,
{
    match e {
        SpecExpr::Number(_) => 1,
        SpecExpr::StrLit(_) => 1,
        SpecExpr::True => 1,
        SpecExpr::False => 1,
        SpecExpr::Nil => 1,
        SpecExpr::Not(a) => 1 + expr_size(*a),
        SpecExpr::Equal(a, b) => 1 + expr_size(*a) + expr_size(*b),
        SpecExpr::NotEqual(a, b) => 1 + expr_size(*a) + expr_size(*b),
        SpecExpr::Less(a, b) => 1 + expr_size(*a) + expr_size(*b),
        SpecExpr::LessEqual(a, b) => 1 + expr_size(*a) + expr_size(*b),
        SpecExpr::Greater(a, b) => 1 + expr_size(*a) + expr_size(*b),
        SpecExpr::GreaterEqual(a, b) => 1 + expr_size(*a) + expr_size(*b),
        SpecExpr::Plus(a, b) => 1 + expr_size(*a) + expr_size(*b),
        SpecExpr::Minus(a, b) => 1 + expr_size(*a) + expr_size(*b),
        SpecExpr::Multiply(a, b) => 1 + expr_size(*a) + expr_size(*b),
        SpecExpr::Divide(a, b) => 1 + expr_size(*a) + expr_size(*b),
        SpecExpr::Paren(a) => 1 + expr_size(*a),
        SpecExpr::Variable(_) => 1,
        SpecExpr::Assignment(_, a) => 1 + expr_size(*a),
        SpecExpr::And(a, b) => 1 + expr_size(*a) + expr_size(*b),
        SpecExpr::Or(a, b) => 1 + expr_size(*a) + expr_size(*b),
        SpecExpr::Call(f, args) => 1 + expr_size(*f) + exprs_size_from(args, 0),
    }
}

/// The node count of the expressions from index `i` on.
pub open spec fn exprs_size_from(es: Seq<SpecExpr>, i: int) -> nat
    decreases es, (es.len() - i) as nat,
    when 0 <= i <= es.len()
{
    if i >= es.len() {
        0
    } else {
        1 + expr_size(es[i]) + exprs_size_from(es, i + 1)
    }
}

/// The number of nodes in a declaration, for recursion measures.
pub open spec fn decl_size(d: SpecDecl) -> nat
    decreases d, 0nat,
{
    match d {
        SpecDecl::Expression(e) => 1 + expr_size(e),
        SpecDecl::Print(e) => 1 + expr_size(e),
        SpecDecl::Var(_, init) => 1 + match init {
            Some(e) => expr_size(e),
            None => 0,
        },
        SpecDecl::Block(ds) => 1 + decls_size_from(ds, 0),
        SpecDecl::If(c, t, e) => 1 + expr_size(c) + decl_size(*t) + match e {
            Some(d2) => decl_size(*d2),
            None => 0,
        },
        SpecDecl::While(c, b) => 1 + expr_size(c) + decl_size(*b),
        SpecDecl::Function(_, _, body) => 1 + decl_size(*body),
        SpecDecl::Return(e) => 1 + expr_size(e),
    }
}

/// The node count of the declarations from index `i` on.
pub open spec fn decls_size_from(ds: Seq<SpecDecl>, i: int) -> nat
    decreases ds, (ds.len() - i) as nat,
    when 0 <= i <= ds.len()
{
    if i >= ds.len() {
        0
    } else {
        1 + decl_size(ds[i]) + decls_size_from(ds, i + 1)
    }
}

} // verus!
