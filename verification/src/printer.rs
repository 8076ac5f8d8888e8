//! The canonical pretty-printer: the text an abstract syntax tree denotes,
//! one space between tokens.  On trees the parser built, re-parsing the
//! printed text yields an equal tree; the parser never invents nodes that
//! would need extra parentheses, and unary minus already carries its
//! `0 -` spelling.

use vstd::prelude::*;

use crate::grammar::Declaration;
use crate::grammar::Expression;
use crate::grammar::SpecDecl;
use crate::grammar::SpecExpr;
use crate::grammar::decl_size;
use crate::grammar::decls_size_from;
use crate::grammar::expr_size;
use crate::grammar::exprs_size_from;
use crate::grammar::lemma_sdecls_index;
use crate::grammar::lemma_sdecls_len;
use crate::grammar::lemma_sexprs_index;
use crate::grammar::lemma_sexprs_len;
use crate::grammar::sdecls;
use crate::grammar::sexprs;
use crate::numeric::spec_display_number;
use crate::numeric::display_number;

verus! {

/// An infix form `left OP right`.
pub open spec fn sp_infix(l: Seq<char>, op: Seq<char>, r: Seq<char>) -> Seq<char> {
    l + seq![' '] + op + seq![' '] + r
}

/// The text of an expression.
pub open spec fn sp_print_expr(e: SpecExpr) -> Seq<char>
    decreases expr_size(e), 1int,
{
    match e {
        SpecExpr::Number(b) => spec_display_number(b),
        SpecExpr::StrLit(s) => seq!['"'] + s + seq!['"'],
        SpecExpr::True => "true"@,
        SpecExpr::False => "false"@,
        SpecExpr::Nil => "nil"@,
        SpecExpr::Not(a) => "!"@ + sp_print_expr(*a),
        SpecExpr::Equal(a, b) => sp_infix(sp_print_expr(*a), "=="@, sp_print_expr(*b)),
        SpecExpr::NotEqual(a, b) => sp_infix(sp_print_expr(*a), "!="@, sp_print_expr(*b)),
        SpecExpr::Less(a, b) => sp_infix(sp_print_expr(*a), "<"@, sp_print_expr(*b)),
        SpecExpr::LessEqual(a, b) => sp_infix(sp_print_expr(*a), "<="@, sp_print_expr(*b)),
        SpecExpr::Greater(a, b) => sp_infix(sp_print_expr(*a), ">"@, sp_print_expr(*b)),
        SpecExpr::GreaterEqual(a, b) => sp_infix(sp_print_expr(*a), ">="@, sp_print_expr(*b)),
        SpecExpr::Plus(a, b) => sp_infix(sp_print_expr(*a), "+"@, sp_print_expr(*b)),
        SpecExpr::Minus(a, b) => sp_infix(sp_print_expr(*a), "-"@, sp_print_expr(*b)),
        SpecExpr::Multiply(a, b) => sp_infix(sp_print_expr(*a), "*"@, sp_print_expr(*b)),
        SpecExpr::Divide(a, b) => sp_infix(sp_print_expr(*a), "/"@, sp_print_expr(*b)),
        SpecExpr::Paren(a) => "("@ + sp_print_expr(*a) + ")"@,
        SpecExpr::Variable(n) => n,
        SpecExpr::Assignment(n, a) => sp_infix(n, "="@, sp_print_expr(*a)),
        SpecExpr::And(a, b) => sp_infix(sp_print_expr(*a), "and"@, sp_print_expr(*b)),
        SpecExpr::Or(a, b) => sp_infix(sp_print_expr(*a), "or"@, sp_print_expr(*b)),
        SpecExpr::Call(f, args) => sp_print_expr(*f) + "("@ + sp_print_exprs(args, 0) + ")"@,
    }
}

/// The comma-separated text of the arguments from index `i` on.
pub open spec fn sp_print_exprs(es: Seq<SpecExpr>, i: int) -> Seq<char>
    decreases exprs_size_from(es, i), 1int,
    when 0 <= i <= es.len()
{
    if i >= es.len() {
        Seq::<char>::empty()
    } else if i == es.len() - 1 {
        sp_print_expr(es[i])
    } else {
        sp_print_expr(es[i]) + ", "@ + sp_print_exprs(es, i + 1)
    }
}

/// The text of a declaration.
pub open spec fn sp_print_decl(d: SpecDecl) -> Seq<char>
    decreases decl_size(d), 1int,
{
    match d {
        SpecDecl::Expression(e) => sp_print_expr(e) + ";"@,
        SpecDecl::Print(e) => "print "@ + sp_print_expr(e) + ";"@,
        SpecDecl::Var(n, init) => match init {
            Some(e) => "var "@ + n + " = "@ + sp_print_expr(e) + ";"@,
            None => "var "@ + n + ";"@,
        },
        SpecDecl::Block(ds) => "{ "@ + sp_print_decls(ds, 0) + "}"@,
        SpecDecl::If(c, t, e) => {
            let head = "if ("@ + sp_print_expr(c) + ") "@ + sp_print_decl(*t);
            match e {
                Some(d2) => head + " else "@ + sp_print_decl(*d2),
                None => head,
            }
        },
        SpecDecl::While(c, b) => "while ("@ + sp_print_expr(c) + ") "@ + sp_print_decl(*b),
        SpecDecl::Function(n, params, body) => "fun "@ + n + "("@ + sp_print_names(params, 0)
            + ") "@ + sp_print_decl(*body),
        SpecDecl::Return(e) => "return "@ + sp_print_expr(e) + ";"@,
    }
}

/// The space-separated text of the declarations from index `i` on, each
/// followed by one space.
pub open spec fn sp_print_decls(ds: Seq<SpecDecl>, i: int) -> Seq<char>
    decreases decls_size_from(ds, i), 1int,
    when 0 <= i <= ds.len()
{
    if i >= ds.len() {
        Seq::<char>::empty()
    } else {
        sp_print_decl(ds[i]) + seq![' '] + sp_print_decls(ds, i + 1)
    }
}

/// The comma-separated parameter names from index `i` on.
pub open spec fn sp_print_names(ns: Seq<Seq<char>>, i: int) -> Seq<char>
    decreases ns.len() - i,
    when 0 <= i <= ns.len()
{
    if i >= ns.len() {
        Seq::<char>::empty()
    } else if i == ns.len() - 1 {
        ns[i]
    } else {
        ns[i] + ", "@ + sp_print_names(ns, i + 1)
    }
}

/// The text of an expression.
pub fn print_expression(e: &Expression) -> (r: String)
    ensures
        r@ == sp_print_expr(e@),
    decreases expr_size(e@), 1int,
{
    match e {
        Expression::Number(b) => display_number(*b),
        Expression::StrLit(s) => {
            let mut out = String::from_str("\"");
            out.append(s.as_str());
            out.append("\"");
            proof {
                assert("\""@ =~= seq!['"']) by {
                    reveal_strlit("\"");
                }
                assert(out@ =~= seq!['"'] + s@ + seq!['"']);
            }
            out
        },
        Expression::True => String::from_str("true"),
        Expression::False => String::from_str("false"),
        Expression::Nil => String::from_str("nil"),
        Expression::Not(a) => {
            let mut out = String::from_str("!");
            let inner = print_expression(a);
            out.append(inner.as_str());
            out
        },
        Expression::Equal(a, b) => print_infix(a, "==", b),
        Expression::NotEqual(a, b) => print_infix(a, "!=", b),
        Expression::Less(a, b) => print_infix(a, "<", b),
        Expression::LessEqual(a, b) => print_infix(a, "<=", b),
        Expression::Greater(a, b) => print_infix(a, ">", b),
        Expression::GreaterEqual(a, b) => print_infix(a, ">=", b),
        Expression::Plus(a, b) => print_infix(a, "+", b),
        Expression::Minus(a, b) => print_infix(a, "-", b),
        Expression::Multiply(a, b) => print_infix(a, "*", b),
        Expression::Divide(a, b) => print_infix(a, "/", b),
        Expression::Paren(a) => {
            let mut out = String::from_str("(");
            let inner = print_expression(a);
            out.append(inner.as_str());
            out.append(")");
            out
        },
        Expression::Variable(n) => n.clone(),
        Expression::Assignment(n, a) => {
            let mut out = n.clone();
            out.append(" = ");
            let inner = print_expression(a);
            out.append(inner.as_str());
            proof {
                assert(" = "@ =~= seq![' '] + "="@ + seq![' ']) by {
                    reveal_strlit(" = ");
                    reveal_strlit("=");
                }
                assert(out@ =~= sp_infix(n@, "="@, sp_print_expr(a@)));
            }
            out
        },
        Expression::And(a, b) => print_infix(a, "and", b),
        Expression::Or(a, b) => print_infix(a, "or", b),
        Expression::Call(f, args) => {
            let mut out = print_expression(f);
            out.append("(");
            let printed = print_arguments(args, 0);
            out.append(printed.as_str());
            out.append(")");
            out
        },
    }
}

/// The `left OP right` form with one space around the operator.
fn print_infix(a: &Expression, op: &str, b: &Expression) -> (r: String)
    ensures
        r@ == sp_infix(sp_print_expr(a@), op@, sp_print_expr(b@)),
    decreases expr_size(a@) + expr_size(b@), 2int,
{
    let mut out = print_expression(a);
    out.push(' ');
    out.append(op);
    out.push(' ');
    let right = print_expression(b);
    out.append(right.as_str());
    out
}

/// The comma-separated arguments from index `i` on.
fn print_arguments(args: &Vec<Expression>, i: usize) -> (r: String)
    requires
        i <= args@.len(),
    ensures
        r@ == sp_print_exprs(sexprs(args@), i as int),
    decreases exprs_size_from(sexprs(args@), i as int), 0int,
{
    proof {
        lemma_sexprs_len(args@);
        if (i as int) < args@.len() {
            lemma_sexprs_index(args@, i as int);
        }
    }
    if i >= args.len() {
        String::new()
    } else if i == args.len() - 1 {
        print_expression(&args[i])
    } else {
        let mut out = print_expression(&args[i]);
        out.append(", ");
        let rest = print_arguments(args, i + 1);
        out.append(rest.as_str());
        out
    }
}

/// The text of a declaration.
pub fn print_declaration(d: &Declaration) -> (r: String)
    ensures
        r@ == sp_print_decl(d@),
    decreases decl_size(d@), 1int,
{
    match d {
        Declaration::Expression(e) => {
            let mut out = print_expression(e);
            out.append(";");
            out
        },
        Declaration::Print(e) => {
            let mut out = String::from_str("print ");
            let inner = print_expression(e);
            out.append(inner.as_str());
            out.append(";");
            out
        },
        Declaration::Var(n, init) => {
            let mut out = String::from_str("var ");
            out.append(n.as_str());
            match init {
                Some(e) => {
                    out.append(" = ");
                    let inner = print_expression(e);
                    out.append(inner.as_str());
                    out.append(";");
                },
                None => {
                    out.append(";");
                },
            }
            out
        },
        Declaration::Block(ds) => {
            let mut out = String::from_str("{ ");
            let inner = print_declarations(ds, 0);
            out.append(inner.as_str());
            out.append("}");
            out
        },
        Declaration::If(c, t, e) => {
            let mut out = String::from_str("if (");
            let cond = print_expression(c);
            out.append(cond.as_str());
            out.append(") ");
            let then = print_declaration(t);
            out.append(then.as_str());
            match e {
                Some(d2) => {
                    out.append(" else ");
                    let els = print_declaration(d2);
                    out.append(els.as_str());
                },
                None => {},
            }
            out
        },
        Declaration::While(c, b) => {
            let mut out = String::from_str("while (");
            let cond = print_expression(c);
            out.append(cond.as_str());
            out.append(") ");
            let body = print_declaration(b);
            out.append(body.as_str());
            out
        },
        Declaration::Function(n, params, body) => {
            let mut out = String::from_str("fun ");
            out.append(n.as_str());
            out.append("(");
            let ps = print_parameters(params, 0);
            out.append(ps.as_str());
            out.append(") ");
            let inner = print_declaration(body);
            out.append(inner.as_str());
            out
        },
        Declaration::Return(e) => {
            let mut out = String::from_str("return ");
            let inner = print_expression(e);
            out.append(inner.as_str());
            out.append(";");
            out
        },
    }
}

/// The text of a program: its declarations from index `i` on, each followed
/// by one space.
pub fn print_declarations(ds: &Vec<Declaration>, i: usize) -> (r: String)
    requires
        i <= ds@.len(),
    ensures
        r@ == sp_print_decls(sdecls(ds@), i as int),
    decreases decls_size_from(sdecls(ds@), i as int), 0int,
{
    proof {
        lemma_sdecls_len(ds@);
        if (i as int) < ds@.len() {
            lemma_sdecls_index(ds@, i as int);
        }
    }
    if i >= ds.len() {
        String::new()
    } else {
        let mut out = print_declaration(&ds[i]);
        out.push(' ');
        let rest = print_declarations(ds, i + 1);
        out.append(rest.as_str());
        out
    }
}

/// The comma-separated parameter names from index `i` on.
fn print_parameters(ns: &Vec<String>, i: usize) -> (r: String)
    requires
        i <= ns@.len(),
    ensures
        r@ == sp_print_names(crate::grammar::names_view(ns@), i as int),
    decreases ns@.len() - i,
{
    if i >= ns.len() {
        String::new()
    } else if i == ns.len() - 1 {
        ns[i].clone()
    } else {
        let mut out = ns[i].clone();
        out.append(", ");
        let rest = print_parameters(ns, i + 1);
        out.append(rest.as_str());
        out
    }
}

} // verus!
