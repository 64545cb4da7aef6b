//! The syntax tree that the checker walks.
use vstd::prelude::*;

verus! {

/// The type of a value-level expression.
#[derive(Debug)]
pub enum Type {
    Int,
    Void,
    /// An array-decayed pointer: the dimensions after the erased leading one.
    Pointer(Vec<usize>),
}

/// The mathematical model of a [`Type`].
pub enum TypeView {
    Int,
    Void,
    Pointer(Seq<usize>),
}

impl View for Type {
    type V = TypeView;

    open spec fn view(&self) -> TypeView {
        match self {
            Type::Int => TypeView::Int,
            Type::Void => TypeView::Void,
            Type::Pointer(d) => TypeView::Pointer(d@),
        }
    }
}

pub open spec fn types_view(ts: Seq<Type>) -> Seq<TypeView> {
    ts.map_values(|t: Type| t@)
}

#[derive(Debug, Clone, Copy)]
pub enum UnaryOp {
    Plus,
    Neg,
    Not,
}

#[derive(Debug, Clone, Copy)]
pub enum BinaryOp {
    Add,
    Sub,
    Mul,
    Div,
    Mod,
    Lt,
    Gt,
    Le,
    Ge,
    Eq,
    Ne,
    And,
    Or,
}

#[derive(Debug)]
pub enum Expr {
    Num(i32),
    /// A name, possibly indexed: `a`, `a[i][j]`.
    LVal(String, Vec<Expr>),
    Unary(UnaryOp, Box<Expr>),
    Binary(BinaryOp, Box<Expr>, Box<Expr>),
    Call(String, Vec<Expr>),
}

/// One element of a braced array initializer.
#[derive(Debug)]
pub enum Initializer {
    Expr(Expr),
    List(Vec<Initializer>),
}

pub type InitializerList = Vec<Initializer>;

#[derive(Debug)]
pub enum Definition {
    ConstVariableDefinition(String, Expr),
    ConstArrayDefinition { identifier: String, lengths: Vec<Expr>, init_list: InitializerList },
    VariableDefinition(String, Option<Expr>),
    ArrayDefinition { identifier: String, lengths: Vec<Expr>, init_list: Option<InitializerList> },
}

#[derive(Debug)]
pub enum Statement {
    Expr(Expr),
    If { condition: Expr, then_block: Block, else_block: Block },
    While { condition: Expr, block: Block },
    Return(Option<Expr>),
    Break,
    Continue,
}

#[derive(Debug)]
pub enum BlockItem {
    Definition(Definition),
    Block(Block),
    Statement(Statement),
}

pub type Block = Vec<BlockItem>;

#[derive(Debug)]
pub enum Parameter {
    Int(String),
    /// An array parameter: its name and the lengths of its trailing dimensions.
    Pointer(String, Vec<Expr>),
}

#[derive(Debug)]
pub enum GlobalItem {
    Definition(Definition),
    FunctionDefinition {
        return_void: bool,
        identifier: String,
        parameter_list: Vec<Parameter>,
        block: Block,
    },
}

pub type TranslationUnit = Vec<GlobalItem>;

/// The rule that a program breaks first.
#[derive(Debug, Clone, Copy, PartialEq, Eq, Structural)]
pub enum CheckError {
    DuplicateDefinition,
    UndefinedIdentifier,
    TypeMismatch,
    IllegalCondition,
    IllegalJump,
    MissingReturnValue,
    UnexpectedReturnValue,
    NotConstant,
    ShapeMismatch,
}


/// The diagnostic text of each error.
pub open spec fn message_of(e: CheckError) -> Seq<char> {
    match e {
        CheckError::DuplicateDefinition => "identifier is already defined in this scope"@,
        CheckError::UndefinedIdentifier => "identifier is not defined in any enclosing scope"@,
        CheckError::TypeMismatch => "expression type does not fit its position"@,
        CheckError::IllegalCondition => "condition of if or while has type void"@,
        CheckError::IllegalJump => "break or continue outside a loop"@,
        CheckError::MissingReturnValue => "return without a value in a function returning int"@,
        CheckError::UnexpectedReturnValue => "return with a value in a function returning void"@,
        CheckError::NotConstant => "expression is not a compile-time constant"@,
        CheckError::ShapeMismatch => "initializer does not match the array shape"@,
    }
}

impl CheckError {
    /// A description of the rule that was broken.
    pub fn message(&self) -> (r: String)
        ensures
            r@ == message_of(*self),
    {
        match self {
            CheckError::DuplicateDefinition => "identifier is already defined in this scope".to_owned(),
            CheckError::UndefinedIdentifier => "identifier is not defined in any enclosing scope".to_owned(),
            CheckError::TypeMismatch => "expression type does not fit its position".to_owned(),
            CheckError::IllegalCondition => "condition of if or while has type void".to_owned(),
            CheckError::IllegalJump => "break or continue outside a loop".to_owned(),
            CheckError::MissingReturnValue => "return without a value in a function returning int".to_owned(),
            CheckError::UnexpectedReturnValue => "return with a value in a function returning void".to_owned(),
            CheckError::NotConstant => "expression is not a compile-time constant".to_owned(),
            CheckError::ShapeMismatch => "initializer does not match the array shape".to_owned(),
        }
    }
}

} // verus!
