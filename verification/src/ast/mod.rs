//! The abstract syntax tree.
//!
//! Every node owns its children. The executable types hold their sequences in
//! `Vec`; each has a view that holds them in `Seq`, and the contracts of the
//! parser speak of the views.

use vstd::prelude::*;
use crate::lexer::token::SpannedToken;

pub mod pretty_printer;
pub mod reading;
pub mod reading_programs;
pub mod reading_statements;
pub mod visitor;


verus! {

/// One local declaration: a name and, for a vector, its size.
#[derive(Debug, PartialEq)]
pub struct AutoDecl {
    pub name: SpannedToken,
    pub size: Option<SpannedToken>,
}

/// An expression. Each variant with an operator carries the operator's token.
#[derive(Debug, PartialEq)]
pub enum Expr {
    Assign { lvalue: Box<Expr>, operator: SpannedToken, value: Box<Expr> },
    Binary { left: Box<Expr>, operator: SpannedToken, right: Box<Expr> },
    Call { callee: Box<Expr>, arguments: Vec<Box<Expr>> },
    Grouping { expression: Box<Expr> },
    Literal { value: SpannedToken },
    Unary { operator: SpannedToken, right: Box<Expr> },
    Bitwise { left: Box<Expr>, operator: SpannedToken, right: Box<Expr> },
    Variable { name: SpannedToken },
    Get { target: Box<Expr>, index: Box<Expr> },
    Ternary { condition: Box<Expr>, then_branch: Box<Expr>, else_branch: Box<Expr> },
    Postfix { left: Box<Expr>, operator: SpannedToken },
}

/// The view of an [`Expr`].
pub enum ExprView {
    Assign { lvalue: Box<ExprView>, operator: SpannedToken, value: Box<ExprView> },
    Binary { left: Box<ExprView>, operator: SpannedToken, right: Box<ExprView> },
    Call { callee: Box<ExprView>, arguments: Seq<ExprView> },
    Grouping { expression: Box<ExprView> },
    Literal { value: SpannedToken },
    Unary { operator: SpannedToken, right: Box<ExprView> },
    Bitwise { left: Box<ExprView>, operator: SpannedToken, right: Box<ExprView> },
    Variable { name: SpannedToken },
    Get { target: Box<ExprView>, index: Box<ExprView> },
    Ternary { condition: Box<ExprView>, then_branch: Box<ExprView>, else_branch: Box<ExprView> },
    Postfix { left: Box<ExprView>, operator: SpannedToken },
}

/// A statement.
#[derive(Debug, PartialEq)]
pub enum Stmt {
    Block { statements: Vec<Stmt> },
    Auto { declarations: Vec<AutoDecl> },
    Extrn { names: Vec<SpannedToken> },
    Expression { expression: Box<Expr> },
    If { condition: Box<Expr>, then_branch: Box<Stmt>, else_branch: Option<Box<Stmt>> },
    While { condition: Box<Expr>, body: Box<Stmt> },
    Switch { condition: Box<Expr>, cases: Vec<Stmt> },
    Case { value: SpannedToken, body: Box<Stmt> },
    Default { body: Box<Stmt> },
    Label { name: SpannedToken, body: Box<Stmt> },
    Goto { expression: Box<Expr> },
    Return { value: Option<Box<Expr>> },
    Null,
}

/// The view of a [`Stmt`].
pub enum StmtView {
    Block { statements: Seq<StmtView> },
    Auto { declarations: Seq<AutoDecl> },
    Extrn { names: Seq<SpannedToken> },
    Expression { expression: ExprView },
    If { condition: ExprView, then_branch: Box<StmtView>, else_branch: Option<Box<StmtView>> },
    While { condition: ExprView, body: Box<StmtView> },
    Switch { condition: ExprView, cases: Seq<StmtView> },
    Case { value: SpannedToken, body: Box<StmtView> },
    Default { body: Box<StmtView> },
    Label { name: SpannedToken, body: Box<StmtView> },
    Goto { expression: ExprView },
    Return { value: Option<ExprView> },
    Null,
}

/// One global declaration: a name, for a vector its size, and the literals it
/// is initialised with.
#[derive(Debug, PartialEq)]
pub struct GlobalDecl {
    pub name: SpannedToken,
    pub size: Option<SpannedToken>,
    pub initializer: Option<Vec<SpannedToken>>,
}

/// The view of a [`GlobalDecl`].
pub struct GlobalDeclView {
    pub name: SpannedToken,
    pub size: Option<SpannedToken>,
    pub initializer: Option<Seq<SpannedToken>>,
}

/// A function definition.
#[derive(Debug, PartialEq)]
pub struct Function {
    pub name: SpannedToken,
    pub params: Vec<SpannedToken>,
    pub body: Stmt,
}

/// The view of a [`Function`].
pub struct FunctionView {
    pub name: SpannedToken,
    pub params: Seq<SpannedToken>,
    pub body: StmtView,
}

/// An item of a program: a function, or one statement of global declarations.
#[derive(Debug, PartialEq)]
pub enum TopLevel {
    Function(Function),
    Global(Vec<GlobalDecl>),
}

/// The view of a [`TopLevel`].
pub enum TopLevelView {
    Function(FunctionView),
    Global(Seq<GlobalDeclView>),
}

/// A program: its items in the order of the source.
#[derive(Debug, PartialEq)]
pub struct Program {
    pub top_level: Vec<TopLevel>,
}

/// The view of a [`Program`].
pub struct ProgramView {
    pub top_level: Seq<TopLevelView>,
}

impl Expr {
    pub open spec fn view(&self) -> ExprView
        decreases self,
    {
        match self {
            Expr::Assign { lvalue, operator, value } => ExprView::Assign {
                lvalue: Box::new(lvalue.view()),
                operator: *operator,
                value: Box::new(value.view()),
            },
            Expr::Binary { left, operator, right } => ExprView::Binary {
                left: Box::new(left.view()),
                operator: *operator,
                right: Box::new(right.view()),
            },
            Expr::Call { callee, arguments } => ExprView::Call {
                callee: Box::new(callee.view()),
                arguments: Seq::new(
                    arguments@.len(),
                    |i: int|
                        if 0 <= i < arguments@.len() {
                            arguments@[i].view()
                        } else {
                            arbitrary()
                        },
                ),
            },
            Expr::Grouping { expression } => ExprView::Grouping {
                expression: Box::new(expression.view()),
            },
            Expr::Literal { value } => ExprView::Literal { value: *value },
            Expr::Unary { operator, right } => ExprView::Unary {
                operator: *operator,
                right: Box::new(right.view()),
            },
            Expr::Bitwise { left, operator, right } => ExprView::Bitwise {
                left: Box::new(left.view()),
                operator: *operator,
                right: Box::new(right.view()),
            },
            Expr::Variable { name } => ExprView::Variable { name: *name },
            Expr::Get { target, index } => ExprView::Get {
                target: Box::new(target.view()),
                index: Box::new(index.view()),
            },
            Expr::Ternary { condition, then_branch, else_branch } => ExprView::Ternary {
                condition: Box::new(condition.view()),
                then_branch: Box::new(then_branch.view()),
                else_branch: Box::new(else_branch.view()),
            },
            Expr::Postfix { left, operator } => ExprView::Postfix {
                left: Box::new(left.view()),
                operator: *operator,
            },
        }
    }
}

/// The views of a sequence of boxed expressions, in order.
pub open spec fn expr_views(exprs: Seq<Box<Expr>>) -> Seq<ExprView> {
    Seq::new(exprs.len(), |i: int| exprs[i].view())
}

/// The views of a sequence of statements, in order.
pub open spec fn stmt_views(stmts: Seq<Stmt>) -> Seq<StmtView> {
    Seq::new(stmts.len(), |i: int| stmts[i].view())
}

impl Stmt {
    pub open spec fn view(&self) -> StmtView
        decreases self,
    {
        match self {
            Stmt::Block { statements } => StmtView::Block {
                statements: Seq::new(
                    statements@.len(),
                    |i: int|
                        if 0 <= i < statements@.len() {
                            statements@[i].view()
                        } else {
                            arbitrary()
                        },
                ),
            },
            Stmt::Auto { declarations } => StmtView::Auto { declarations: declarations@ },
            Stmt::Extrn { names } => StmtView::Extrn { names: names@ },
            Stmt::Expression { expression } => StmtView::Expression {
                expression: expression.view(),
            },
            Stmt::If { condition, then_branch, else_branch } => StmtView::If {
                condition: condition.view(),
                then_branch: Box::new(then_branch.view()),
                else_branch: match else_branch {
                    Some(stmt) => Some(Box::new(stmt.view())),
                    None => None,
                },
            },
            Stmt::While { condition, body } => StmtView::While {
                condition: condition.view(),
                body: Box::new(body.view()),
            },
            Stmt::Switch { condition, cases } => StmtView::Switch {
                condition: condition.view(),
                cases: Seq::new(
                    cases@.len(),
                    |i: int|
                        if 0 <= i < cases@.len() {
                            cases@[i].view()
                        } else {
                            arbitrary()
                        },
                ),
            },
            Stmt::Case { value, body } => StmtView::Case {
                value: *value,
                body: Box::new(body.view()),
            },
            Stmt::Default { body } => StmtView::Default { body: Box::new(body.view()) },
            Stmt::Label { name, body } => StmtView::Label {
                name: *name,
                body: Box::new(body.view()),
            },
            Stmt::Goto { expression } => StmtView::Goto { expression: expression.view() },
            Stmt::Return { value } => StmtView::Return {
                value: match value {
                    Some(expr) => Some(expr.view()),
                    None => None,
                },
            },
            Stmt::Null => StmtView::Null,
        }
    }
}

/// The views of a sequence of global declarations, in order.
pub open spec fn global_views(decls: Seq<GlobalDecl>) -> Seq<GlobalDeclView> {
    Seq::new(decls.len(), |i: int| decls[i].view())
}

/// The views of a sequence of items, in order.
pub open spec fn top_level_views(items: Seq<TopLevel>) -> Seq<TopLevelView> {
    Seq::new(items.len(), |i: int| items[i].view())
}

impl GlobalDecl {
    pub open spec fn view(&self) -> GlobalDeclView {
        GlobalDeclView {
            name: self.name,
            size: self.size,
            initializer: match self.initializer {
                Some(list) => Some(list@),
                None => None,
            },
        }
    }
}

impl Function {
    pub open spec fn view(&self) -> FunctionView {
        FunctionView { name: self.name, params: self.params@, body: self.body.view() }
    }
}

impl TopLevel {
    pub open spec fn view(&self) -> TopLevelView {
        match self {
            TopLevel::Function(function) => TopLevelView::Function(function.view()),
            TopLevel::Global(decls) => TopLevelView::Global(global_views(decls@)),
        }
    }
}

impl Program {
    pub open spec fn view(&self) -> ProgramView {
        ProgramView { top_level: top_level_views(self.top_level@) }
    }
}

/// Copies of the expressions, in order.
fn copy_exprs(exprs: &Vec<Box<Expr>>) -> (copies: Vec<Box<Expr>>)
    ensures
        expr_views(copies@) == expr_views(exprs@),
    decreases exprs, 0nat,
{
    let mut copies: Vec<Box<Expr>> = Vec::new();
    let mut i: usize = 0;
    while i < exprs.len()
        invariant
            i <= exprs@.len(),
            copies@.len() == i,
            forall|j: int| 0 <= j < i ==> (#[trigger] copies@[j]).view() == exprs@[j].view(),
        decreases exprs@.len() - i,
    {
        copies.push(Box::new((*exprs[i]).clone()));
        i += 1;
    }
    assert(expr_views(copies@) =~= expr_views(exprs@));
    copies
}

impl Clone for Expr {
    /// A copy of the expression: a tree with the same view.
    fn clone(&self) -> (copy: Self)
        ensures
            copy.view() == self.view(),
        decreases self, 1nat,
    {
        match self {
            Expr::Assign { lvalue, operator, value } => Expr::Assign {
                lvalue: Box::new((**lvalue).clone()),
                operator: operator.clone(),
                value: Box::new((**value).clone()),
            },
            Expr::Binary { left, operator, right } => Expr::Binary {
                left: Box::new((**left).clone()),
                operator: operator.clone(),
                right: Box::new((**right).clone()),
            },
            Expr::Call { callee, arguments } => {
                let copies = copy_exprs(arguments);
                let copy = Expr::Call { callee: Box::new((**callee).clone()), arguments: copies };
                assert(copy.view()->Call_arguments =~= expr_views(copies@));
                assert(self.view()->Call_arguments =~= expr_views(arguments@));
                copy
            },
            Expr::Grouping { expression } => Expr::Grouping {
                expression: Box::new((**expression).clone()),
            },
            Expr::Literal { value } => Expr::Literal { value: value.clone() },
            Expr::Unary { operator, right } => Expr::Unary {
                operator: operator.clone(),
                right: Box::new((**right).clone()),
            },
            Expr::Bitwise { left, operator, right } => Expr::Bitwise {
                left: Box::new((**left).clone()),
                operator: operator.clone(),
                right: Box::new((**right).clone()),
            },
            Expr::Variable { name } => Expr::Variable { name: name.clone() },
            Expr::Get { target, index } => Expr::Get {
                target: Box::new((**target).clone()),
                index: Box::new((**index).clone()),
            },
            Expr::Ternary { condition, then_branch, else_branch } => Expr::Ternary {
                condition: Box::new((**condition).clone()),
                then_branch: Box::new((**then_branch).clone()),
                else_branch: Box::new((**else_branch).clone()),
            },
            Expr::Postfix { left, operator } => Expr::Postfix {
                left: Box::new((**left).clone()),
                operator: operator.clone(),
            },
        }
    }
}

/// A copy of a token, if there is one.
fn copy_token(token: &Option<SpannedToken>) -> (copy: Option<SpannedToken>)
    ensures
        copy == *token,
{
    match token {
        Some(token) => Some(token.clone()),
        None => None,
    }
}

/// Copies of the tokens, in order.
fn copy_tokens(tokens: &Vec<SpannedToken>) -> (copies: Vec<SpannedToken>)
    ensures
        copies@ == tokens@,
{
    let mut copies: Vec<SpannedToken> = Vec::new();
    let mut i: usize = 0;
    while i < tokens.len()
        invariant
            i <= tokens@.len(),
            copies@ == tokens@.take(i as int),
        decreases tokens@.len() - i,
    {
        copies.push(tokens[i].clone());
        i += 1;
        assert(copies@ =~= tokens@.take(i as int));
    }
    assert(tokens@.take(tokens@.len() as int) =~= tokens@);
    copies
}

impl Clone for AutoDecl {
    fn clone(&self) -> (copy: Self)
        ensures
            copy == *self,
    {
        AutoDecl { name: self.name.clone(), size: copy_token(&self.size) }
    }
}

impl Clone for GlobalDecl {
    /// A copy of the declaration: one with the same view.
    fn clone(&self) -> (copy: Self)
        ensures
            copy.view() == self.view(),
    {
        GlobalDecl {
            name: self.name.clone(),
            size: copy_token(&self.size),
            initializer: match &self.initializer {
                Some(list) => Some(copy_tokens(list)),
                None => None,
            },
        }
    }
}

/// Copies of the statements, in order.
fn copy_stmts(stmts: &Vec<Stmt>) -> (copies: Vec<Stmt>)
    ensures
        stmt_views(copies@) == stmt_views(stmts@),
    decreases stmts, 0nat,
{
    let mut copies: Vec<Stmt> = Vec::new();
    let mut i: usize = 0;
    while i < stmts.len()
        invariant
            i <= stmts@.len(),
            copies@.len() == i,
            forall|j: int| 0 <= j < i ==> (#[trigger] copies@[j]).view() == stmts@[j].view(),
        decreases stmts@.len() - i,
    {
        copies.push(stmts[i].clone());
        i += 1;
    }
    assert(stmt_views(copies@) =~= stmt_views(stmts@));
    copies
}

impl Clone for Stmt {
    /// A copy of the statement: a tree with the same view.
    fn clone(&self) -> (copy: Self)
        ensures
            copy.view() == self.view(),
        decreases self, 1nat,
    {
        match self {
            Stmt::Block { statements } => {
                let copy = Stmt::Block { statements: copy_stmts(statements) };
                assert(copy.view()->Block_statements =~= stmt_views(copy->Block_statements@));
                assert(self.view()->Block_statements =~= stmt_views(statements@));
                copy
            },
            Stmt::Auto { declarations } => {
                let mut copies: Vec<AutoDecl> = Vec::new();
                let mut i: usize = 0;
                while i < declarations.len()
                    invariant
                        i <= declarations@.len(),
                        copies@ == declarations@.take(i as int),
                    decreases declarations@.len() - i,
                {
                    copies.push(declarations[i].clone());
                    i += 1;
                    assert(copies@ =~= declarations@.take(i as int));
                }
                assert(declarations@.take(declarations@.len() as int) =~= declarations@);
                Stmt::Auto { declarations: copies }
            },
            Stmt::Extrn { names } => Stmt::Extrn { names: copy_tokens(names) },
            Stmt::Expression { expression } => Stmt::Expression {
                expression: Box::new((**expression).clone()),
            },
            Stmt::If { condition, then_branch, else_branch } => Stmt::If {
                condition: Box::new((**condition).clone()),
                then_branch: Box::new((**then_branch).clone()),
                else_branch: match else_branch {
                    Some(stmt) => Some(Box::new((**stmt).clone())),
                    None => None,
                },
            },
            Stmt::While { condition, body } => Stmt::While {
                condition: Box::new((**condition).clone()),
                body: Box::new((**body).clone()),
            },
            Stmt::Switch { condition, cases } => {
                let copy = Stmt::Switch {
                    condition: Box::new((**condition).clone()),
                    cases: copy_stmts(cases),
                };
                assert(copy.view()->Switch_cases =~= stmt_views(copy->Switch_cases@));
                assert(self.view()->Switch_cases =~= stmt_views(cases@));
                copy
            },
            Stmt::Case { value, body } => Stmt::Case {
                value: value.clone(),
                body: Box::new((**body).clone()),
            },
            Stmt::Default { body } => Stmt::Default { body: Box::new((**body).clone()) },
            Stmt::Label { name, body } => Stmt::Label {
                name: name.clone(),
                body: Box::new((**body).clone()),
            },
            Stmt::Goto { expression } => Stmt::Goto {
                expression: Box::new((**expression).clone()),
            },
            Stmt::Return { value } => Stmt::Return {
                value: match value {
                    Some(expr) => Some(Box::new((**expr).clone())),
                    None => None,
                },
            },
            Stmt::Null => Stmt::Null,
        }
    }
}

impl Clone for Function {
    /// A copy of the function: one with the same view.
    fn clone(&self) -> (copy: Self)
        ensures
            copy.view() == self.view(),
    {
        Function {
            name: self.name.clone(),
            params: copy_tokens(&self.params),
            body: self.body.clone(),
        }
    }
}

impl Clone for TopLevel {
    /// A copy of the item: one with the same view.
    fn clone(&self) -> (copy: Self)
        ensures
            copy.view() == self.view(),
    {
        match self {
            TopLevel::Function(function) => TopLevel::Function(function.clone()),
            TopLevel::Global(decls) => {
                let mut copies: Vec<GlobalDecl> = Vec::new();
                let mut i: usize = 0;
                while i < decls.len()
                    invariant
                        i <= decls@.len(),
                        copies@.len() == i,
                        forall|j: int|
                            0 <= j < i ==> (#[trigger] copies@[j]).view() == decls@[j].view(),
                    decreases decls@.len() - i,
                {
                    copies.push(decls[i].clone());
                    i += 1;
                }
                assert(global_views(copies@) =~= global_views(decls@));
                TopLevel::Global(copies)
            },
        }
    }
}

impl Clone for Program {
    /// A copy of the program: one with the same view.
    fn clone(&self) -> (copy: Self)
        ensures
            copy.view() == self.view(),
    {
        let mut copies: Vec<TopLevel> = Vec::new();
        let mut i: usize = 0;
        while i < self.top_level.len()
            invariant
                i <= self.top_level@.len(),
                copies@.len() == i,
                forall|j: int|
                    0 <= j < i ==> (#[trigger] copies@[j]).view() == self.top_level@[j].view(),
            decreases self.top_level@.len() - i,
        {
            copies.push(self.top_level[i].clone());
            i += 1;
        }
        assert(top_level_views(copies@) =~= top_level_views(self.top_level@));
        Program { top_level: copies }
    }
}

} // verus!
