use vstd::prelude::*;

verus! {

/// A whole program: the commands for the compiler and the declarations.
pub struct AST {
    pub for_compiler: Vec<CompilerCommand>,
    pub program: Vec<Let>,
}

pub enum CompilerCommand {
    Include(String),
    Load(String),
}

/// Local declarations followed by the value they scope over.
pub struct Expr(pub Vec<Let>, pub Value);

/// A binding of a name to a value of a type.
pub struct Let(pub Name, pub Value, pub Type);

pub enum Value {
    Tuple(Vec<Value>),
    Either(Name, Box<Value>),
    Match(Box<Value>, Vec<(Name, Name, Value)>),
    Function(Vec<Name>, Box<Expr>),
    Application(Box<Value>, Vec<Value>),
    Constant(AtomicValue),
    Type(Box<Type>),
}

pub enum AtomicValue {
    Int(i32),
    StringLiteral(String),
}

pub enum Type {
    Product(Vec<(Name, Type)>),
    CoProduct(Vec<(Name, Box<Type>)>),
    Function(Box<Type>, Box<Type>),
    TypeVar(Name),
    Atomic(AtomicType),
}

pub enum AtomicType {
    Universe,
    Top,
    Bottom,
    Int,
    String,
}

/// A name with its number and the context it was bound in.
pub struct Name {
    pub name: String,
    pub id: usize,
    pub context: Context,
}

pub enum Context {
    TypeContext,
    ValueContext,
    Constructor,
    NoContext,
}

} // verus!
