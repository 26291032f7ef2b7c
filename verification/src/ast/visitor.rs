//! Visitors: one operation for each kind of node, and the functions that
//! hand a node to the operation of its kind.
//!
//! A pass over the tree implements a visitor and leaves the choice of the
//! operation to `walk_expr`, `walk_stmt` and `walk_item`, so that the tree
//! holds no code of any pass.

use vstd::prelude::*;
use crate::ast::{AutoDecl, Expr, Function, GlobalDecl, Stmt, TopLevel};
use crate::lexer::token::SpannedToken;

verus! {

/// The operations of a pass on expressions, one for each kind.
pub trait ExprVisitor<T>: Sized {
    /// Whether a visit of `expr` that the visitor `self` starts may end with
    /// the visitor `after` and the result `out`. Each operation promises
    /// this of the expression whose parts it is given.
    spec fn visits_expr(&self, expr: Expr, after: Self, out: T) -> bool;

    fn visit_assign(&mut self, lvalue: &Expr, operator: &SpannedToken, value: &Expr) -> (out: T)
        ensures
            old(self).visits_expr(
                Expr::Assign {
                    lvalue: Box::new(*lvalue),
                    operator: *operator,
                    value: Box::new(*value),
                },
                *final(self),
                out,
            ),
    ;

    fn visit_binary(&mut self, left: &Expr, operator: &SpannedToken, right: &Expr) -> (out: T)
        ensures
            old(self).visits_expr(
                Expr::Binary { left: Box::new(*left), operator: *operator, right: Box::new(*right) },
                *final(self),
                out,
            ),
    ;

    fn visit_call(&mut self, callee: &Expr, arguments: &Vec<Box<Expr>>) -> (out: T)
        ensures
            old(self).visits_expr(
                Expr::Call { callee: Box::new(*callee), arguments: *arguments },
                *final(self),
                out,
            ),
    ;

    fn visit_grouping(&mut self, expression: &Expr) -> (out: T)
        ensures
            old(self).visits_expr(
                Expr::Grouping { expression: Box::new(*expression) },
                *final(self),
                out,
            ),
    ;

    fn visit_literal(&mut self, value: &SpannedToken) -> (out: T)
        ensures
            old(self).visits_expr(Expr::Literal { value: *value }, *final(self), out),
    ;

    fn visit_unary(&mut self, operator: &SpannedToken, right: &Expr) -> (out: T)
        ensures
            old(self).visits_expr(
                Expr::Unary { operator: *operator, right: Box::new(*right) },
                *final(self),
                out,
            ),
    ;

    /// The operation for a bitwise operator between two operands.
    fn visit_logical(&mut self, left: &Expr, operator: &SpannedToken, right: &Expr) -> (out: T)
        ensures
            old(self).visits_expr(
                Expr::Bitwise {
                    left: Box::new(*left),
                    operator: *operator,
                    right: Box::new(*right),
                },
                *final(self),
                out,
            ),
    ;

    fn visit_variable(&mut self, name: &SpannedToken) -> (out: T)
        ensures
            old(self).visits_expr(Expr::Variable { name: *name }, *final(self), out),
    ;

    fn visit_get(&mut self, target: &Expr, index: &Expr) -> (out: T)
        ensures
            old(self).visits_expr(
                Expr::Get { target: Box::new(*target), index: Box::new(*index) },
                *final(self),
                out,
            ),
    ;

    fn visit_ternary(&mut self, condition: &Expr, then_branch: &Expr, else_branch: &Expr) -> (out: T)
        ensures
            old(self).visits_expr(
                Expr::Ternary {
                    condition: Box::new(*condition),
                    then_branch: Box::new(*then_branch),
                    else_branch: Box::new(*else_branch),
                },
                *final(self),
                out,
            ),
    ;

    fn visit_postfix(&mut self, left: &Expr, operator: &SpannedToken) -> (out: T)
        ensures
            old(self).visits_expr(
                Expr::Postfix { left: Box::new(*left), operator: *operator },
                *final(self),
                out,
            ),
    ;
}

/// The `else` branch of an `if` statement as the statement holds it.
pub open spec fn boxed_branch(branch: Option<&Stmt>) -> Option<Box<Stmt>> {
    match branch {
        Some(stmt) => Some(Box::new(*stmt)),
        None => None,
    }
}

/// The value of a `return` statement as the statement holds it.
pub open spec fn boxed_value(value: Option<&Expr>) -> Option<Box<Expr>> {
    match value {
        Some(expr) => Some(Box::new(*expr)),
        None => None,
    }
}

/// The operations of a pass on statements, one for each kind.
pub trait StmtVisitor<T>: Sized {
    /// Whether a visit of `stmt` that the visitor `self` starts may end with
    /// the visitor `after` and the result `out`. Each operation promises
    /// this of the statement whose parts it is given.
    spec fn visits_stmt(&self, stmt: Stmt, after: Self, out: T) -> bool;

    fn visit_block(&mut self, statements: &Vec<Stmt>) -> (out: T)
        ensures
            old(self).visits_stmt(Stmt::Block { statements: *statements }, *final(self), out),
    ;

    fn visit_auto(&mut self, declarations: &Vec<AutoDecl>) -> (out: T)
        ensures
            old(self).visits_stmt(Stmt::Auto { declarations: *declarations }, *final(self), out),
    ;

    fn visit_extrn(&mut self, names: &Vec<SpannedToken>) -> (out: T)
        ensures
            old(self).visits_stmt(Stmt::Extrn { names: *names }, *final(self), out),
    ;

    fn visit_expression(&mut self, expression: &Expr) -> (out: T)
        ensures
            old(self).visits_stmt(
                Stmt::Expression { expression: Box::new(*expression) },
                *final(self),
                out,
            ),
    ;

    fn visit_if(&mut self, condition: &Expr, then_branch: &Stmt, else_branch: Option<&Stmt>) -> (out:
        T)
        ensures
            old(self).visits_stmt(
                Stmt::If {
                    condition: Box::new(*condition),
                    then_branch: Box::new(*then_branch),
                    else_branch: boxed_branch(else_branch),
                },
                *final(self),
                out,
            ),
    ;

    fn visit_while(&mut self, condition: &Expr, body: &Stmt) -> (out: T)
        ensures
            old(self).visits_stmt(
                Stmt::While { condition: Box::new(*condition), body: Box::new(*body) },
                *final(self),
                out,
            ),
    ;

    fn visit_switch(&mut self, condition: &Expr, cases: &Vec<Stmt>) -> (out: T)
        ensures
            old(self).visits_stmt(
                Stmt::Switch { condition: Box::new(*condition), cases: *cases },
                *final(self),
                out,
            ),
    ;

    fn visit_case(&mut self, value: &SpannedToken, body: &Stmt) -> (out: T)
        ensures
            old(self).visits_stmt(
                Stmt::Case { value: *value, body: Box::new(*body) },
                *final(self),
                out,
            ),
    ;

    fn visit_default(&mut self, body: &Stmt) -> (out: T)
        ensures
            old(self).visits_stmt(Stmt::Default { body: Box::new(*body) }, *final(self), out),
    ;

    fn visit_label(&mut self, name: &SpannedToken, body: &Stmt) -> (out: T)
        ensures
            old(self).visits_stmt(
                Stmt::Label { name: *name, body: Box::new(*body) },
                *final(self),
                out,
            ),
    ;

    fn visit_goto(&mut self, expression: &Expr) -> (out: T)
        ensures
            old(self).visits_stmt(
                Stmt::Goto { expression: Box::new(*expression) },
                *final(self),
                out,
            ),
    ;

    fn visit_return(&mut self, value: Option<&Expr>) -> (out: T)
        ensures
            old(self).visits_stmt(Stmt::Return { value: boxed_value(value) }, *final(self), out),
    ;

    fn visit_null(&mut self) -> (out: T)
        ensures
            old(self).visits_stmt(Stmt::Null, *final(self), out),
    ;
}

/// The operations of a pass on the items of a program, one for each kind.
pub trait ItemVisitor<T>: Sized {
    /// Whether a visit of `item` that the visitor `self` starts may end with
    /// the visitor `after` and the result `out`. Each operation promises
    /// this of the item whose parts it is given.
    spec fn visits_item(&self, item: TopLevel, after: Self, out: T) -> bool;

    fn visit_function(&mut self, name: &SpannedToken, params: &Vec<SpannedToken>, body: &Stmt) -> (out:
        T)
        ensures
            old(self).visits_item(
                TopLevel::Function(Function { name: *name, params: *params, body: *body }),
                *final(self),
                out,
            ),
    ;

    fn visit_global(&mut self, decls: &Vec<GlobalDecl>) -> (out: T)
        ensures
            old(self).visits_item(TopLevel::Global(*decls), *final(self), out),
    ;
}

/// Hands an expression to the operation of its kind, and returns what the
/// operation returns.
pub fn walk_expr<T, V: ExprVisitor<T>>(visitor: &mut V, expr: &Expr) -> (out: T)
    ensures
        old(visitor).visits_expr(*expr, *final(visitor), out),
{
    match expr {
        Expr::Assign { lvalue, operator, value } => visitor.visit_assign(lvalue, operator, value),
        Expr::Binary { left, operator, right } => visitor.visit_binary(left, operator, right),
        Expr::Call { callee, arguments } => visitor.visit_call(callee, arguments),
        Expr::Grouping { expression } => visitor.visit_grouping(expression),
        Expr::Literal { value } => visitor.visit_literal(value),
        Expr::Unary { operator, right } => visitor.visit_unary(operator, right),
        Expr::Bitwise { left, operator, right } => visitor.visit_logical(left, operator, right),
        Expr::Variable { name } => visitor.visit_variable(name),
        Expr::Get { target, index } => visitor.visit_get(target, index),
        Expr::Ternary { condition, then_branch, else_branch } => visitor.visit_ternary(
            condition,
            then_branch,
            else_branch,
        ),
        Expr::Postfix { left, operator } => visitor.visit_postfix(left, operator),
    }
}

/// Hands a statement to the operation of its kind, and returns what the
/// operation returns.
pub fn walk_stmt<T, V: StmtVisitor<T>>(visitor: &mut V, stmt: &Stmt) -> (out: T)
    ensures
        old(visitor).visits_stmt(*stmt, *final(visitor), out),
{
    match stmt {
        Stmt::Block { statements } => visitor.visit_block(statements),
        Stmt::Auto { declarations } => visitor.visit_auto(declarations),
        Stmt::Extrn { names } => visitor.visit_extrn(names),
        Stmt::Expression { expression } => visitor.visit_expression(expression),
        Stmt::If { condition, then_branch, else_branch } => {
            let branch: Option<&Stmt> = match else_branch {
                Some(stmt) => Some(&**stmt),
                None => None,
            };
            visitor.visit_if(condition, then_branch, branch)
        },
        Stmt::While { condition, body } => visitor.visit_while(condition, body),
        Stmt::Switch { condition, cases } => visitor.visit_switch(condition, cases),
        Stmt::Case { value, body } => visitor.visit_case(value, body),
        Stmt::Default { body } => visitor.visit_default(body),
        Stmt::Label { name, body } => visitor.visit_label(name, body),
        Stmt::Goto { expression } => visitor.visit_goto(expression),
        Stmt::Return { value } => {
            let value: Option<&Expr> = match value {
                Some(expr) => Some(&**expr),
                None => None,
            };
            visitor.visit_return(value)
        },
        Stmt::Null => visitor.visit_null(),
    }
}

/// Hands an item to the operation of its kind, and returns what the
/// operation returns.
pub fn walk_item<T, V: ItemVisitor<T>>(visitor: &mut V, item: &TopLevel) -> (out: T)
    ensures
        old(visitor).visits_item(*item, *final(visitor), out),
{
    match item {
        TopLevel::Function(function) => visitor.visit_function(
            &function.name,
            &function.params,
            &function.body,
        ),
        TopLevel::Global(decls) => visitor.visit_global(decls),
    }
}

} // verus!
