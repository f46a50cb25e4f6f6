//! Semantic types, checking failures, and the emitted instruction set, with
//! the ghost views that the checker's contracts are stated over.

pub mod checker;
pub mod laws;
pub mod model;

pub use checker::{input, Checker};

use vstd::prelude::*;

use crate::parsing;
use crate::stream::Position;

verus! {

/// Identifier minted for each declared variable, defined function and
/// control-flow label. Uniqueness, not the value itself, is what matters to
/// the emitted instructions.
pub type Id = usize;

/// A fully resolved semantic type.
///
/// `Any` unifies with every type it is compared against; it arises only as
/// the element type of an empty array literal, so that `[]` can be checked
/// against any declared array type.
#[derive(Debug, PartialEq, Eq)]
pub enum Type {
    Num,
    Bool,
    Char,
    Any,
    Array(Box<Type>),
}

/// Structural compatibility of two semantic types: equal shapes are
/// compatible, and `Any` is compatible with everything on either side, at
/// arbitrary nesting depth.
pub open spec fn spec_compatible(a: Type, b: Type) -> bool
    decreases a,
{
    match (a, b) {
        (Type::Any, _) => true,
        (_, Type::Any) => true,
        (Type::Num, Type::Num) => true,
        (Type::Bool, Type::Bool) => true,
        (Type::Char, Type::Char) => true,
        (Type::Array(x), Type::Array(y)) => spec_compatible(*x, *y),
        _ => false,
    }
}

impl Clone for Type {
    /// A clone is equal to the original, array element types included.
    fn clone(&self) -> (r: Self)
        ensures
            r == *self,
        decreases self,
    {
        match self {
            Type::Num => Type::Num,
            Type::Bool => Type::Bool,
            Type::Char => Type::Char,
            Type::Any => Type::Any,
            Type::Array(inner) => Type::Array(Box::new((&**inner).clone())),
        }
    }
}

impl Type {
    /// Whether two types are treated as the same for assignment, return,
    /// equality and signature purposes (see [`spec_compatible`]).
    pub fn compatible(&self, other: &Type) -> (r: bool)
        ensures
            r == spec_compatible(*self, *other),
        decreases self,
    {
        match (self, other) {
            (Type::Any, _) => true,
            (_, Type::Any) => true,
            (Type::Num, Type::Num) => true,
            (Type::Bool, Type::Bool) => true,
            (Type::Char, Type::Char) => true,
            (Type::Array(x), Type::Array(y)) => x.compatible(y),
            _ => false,
        }
    }
}

/// A constant or variable reference pushed onto the evaluation stack.
/// Numeric constants carry the IEEE-754 bit pattern of their value.
#[derive(Clone, Copy, Debug, PartialEq, Eq)]
pub enum Value {
    Num(u64),
    Bool(bool),
    Char(char),
    Variable(Id),
}

/// One instruction of the emitted intermediate representation. All
/// instructions operate on a shared evaluation stack plus a flat namespace
/// of variable slots addressed by [`Id`].
#[derive(Clone, Copy, Debug, PartialEq, Eq)]
pub enum Instruction {
    /// Reserve storage for a local variable.
    Local(Id),
    Push(Value),
    /// Pop the top of the stack into a variable slot.
    Store(Id),
    /// Bind the next incoming argument to a variable slot.
    Parameter(Id),
    Label(Id),
    Jump(Id),
    JumpIfTrue(Id),
    JumpIfFalse(Id),
    /// Entry marker of a function body.
    Function(Id),
    CallExpectingValue(Id),
    CallExpectingVoid(Id),
    ReturnValue,
    ReturnVoid,
    Add,
    Subtract,
    Multiply,
    Divide,
    GreaterThan,
    LessThan,
    Equals,
    Not,
}

/// A variable declared in some scope.
#[derive(Debug, PartialEq, Eq)]
pub struct VariableDef {
    pub identifier: String,
    pub var_type: Type,
    pub id: Id,
    /// Whether the declaration supplied an initial value (recorded for a
    /// future use-before-initialisation check; not consulted today).
    pub initialised: bool,
}

/// A defined function. Functions are keyed by name and parameter type list
/// together, so two functions may share a name with different signatures.
#[derive(Debug, PartialEq, Eq)]
pub struct FunctionDef {
    pub identifier: String,
    pub parameter_types: Vec<Type>,
    pub return_type: Option<Type>,
    pub id: Id,
}

/// The variables of one lexical block. A stack of these models nesting; the
/// last element of the stack is the innermost scope.
#[derive(Debug, PartialEq, Eq)]
pub struct Scope {
    pub variables: Vec<VariableDef>,
}

/// The first failure encountered while checking; each variant carries what a
/// diagnostic needs: identifiers, the types involved, and a source position
/// where one is available.
#[derive(Debug, PartialEq, Eq)]
pub enum Failure {
    VariableNotInScope(Position, String),
    FunctionUndefined(Position, String, Vec<Type>),
    VoidFunctionInExpr(Position, String, Vec<Type>),
    NonexistentPrimitiveType(String),
    VariableRedeclaredToDifferentType { identifier: String, expected: Type, encountered: Type },
    RedefinedExistingFunction(String, Vec<Type>),
    VoidFunctionReturnsValue(Position, String, Vec<Type>, Type),
    FunctionUnexpectedReturnType {
        pos: Position,
        identifier: String,
        params: Vec<Type>,
        expected: Type,
        encountered: Option<Type>,
    },
    UnexpectedType { pos: Position, expected: Type, encountered: Type },
    NestedFunctions(Position, String),
    InvalidTopLevelStatement,
}

/// Ghost image of a [`VariableDef`]: the identifier as a character sequence.
pub ghost struct VarDefV {
    pub name: Seq<char>,
    pub typ: Type,
    pub id: Id,
    pub initialised: bool,
}

/// Ghost image of a [`FunctionDef`].
pub ghost struct FnDefV {
    pub name: Seq<char>,
    pub params: Seq<Type>,
    pub ret: Option<Type>,
    pub id: Id,
}

/// Ghost image of a [`Failure`], with strings and type lists as sequences.
pub ghost enum FailureV {
    VariableNotInScope(Position, Seq<char>),
    FunctionUndefined(Position, Seq<char>, Seq<Type>),
    VoidFunctionInExpr(Position, Seq<char>, Seq<Type>),
    NonexistentPrimitiveType(Seq<char>),
    VariableRedeclaredToDifferentType { identifier: Seq<char>, expected: Type, encountered: Type },
    RedefinedExistingFunction(Seq<char>, Seq<Type>),
    VoidFunctionReturnsValue(Position, Seq<char>, Seq<Type>, Type),
    FunctionUnexpectedReturnType {
        pos: Position,
        identifier: Seq<char>,
        params: Seq<Type>,
        expected: Type,
        encountered: Option<Type>,
    },
    UnexpectedType { pos: Position, expected: Type, encountered: Type },
    NestedFunctions(Position, Seq<char>),
    InvalidTopLevelStatement,
}

impl View for VariableDef {
    type V = VarDefV;

    open spec fn view(&self) -> VarDefV {
        VarDefV {
            name: self.identifier@,
            typ: self.var_type,
            id: self.id,
            initialised: self.initialised,
        }
    }
}

impl View for FunctionDef {
    type V = FnDefV;

    open spec fn view(&self) -> FnDefV {
        FnDefV {
            name: self.identifier@,
            params: self.parameter_types@,
            ret: self.return_type,
            id: self.id,
        }
    }
}

impl View for Scope {
    type V = Seq<VarDefV>;

    open spec fn view(&self) -> Seq<VarDefV> {
        self.variables@.map_values(|d: VariableDef| d@)
    }
}

impl View for Failure {
    type V = FailureV;

    open spec fn view(&self) -> FailureV {
        match self {
            Failure::VariableNotInScope(p, n) => FailureV::VariableNotInScope(*p, n@),
            Failure::FunctionUndefined(p, n, ts) => FailureV::FunctionUndefined(*p, n@, ts@),
            Failure::VoidFunctionInExpr(p, n, ts) => FailureV::VoidFunctionInExpr(*p, n@, ts@),
            Failure::NonexistentPrimitiveType(n) => FailureV::NonexistentPrimitiveType(n@),
            Failure::VariableRedeclaredToDifferentType { identifier, expected, encountered } => {
                FailureV::VariableRedeclaredToDifferentType {
                    identifier: identifier@,
                    expected: *expected,
                    encountered: *encountered,
                }
            },
            Failure::RedefinedExistingFunction(n, ts) => {
                FailureV::RedefinedExistingFunction(n@, ts@)
            },
            Failure::VoidFunctionReturnsValue(p, n, ts, t) => {
                FailureV::VoidFunctionReturnsValue(*p, n@, ts@, *t)
            },
            Failure::FunctionUnexpectedReturnType { pos, identifier, params, expected, encountered } => {
                FailureV::FunctionUnexpectedReturnType {
                    pos: *pos,
                    identifier: identifier@,
                    params: params@,
                    expected: *expected,
                    encountered: *encountered,
                }
            },
            Failure::UnexpectedType { pos, expected, encountered } => {
                FailureV::UnexpectedType {
                    pos: *pos,
                    expected: *expected,
                    encountered: *encountered,
                }
            },
            Failure::NestedFunctions(p, n) => FailureV::NestedFunctions(*p, n@),
            Failure::InvalidTopLevelStatement => FailureV::InvalidTopLevelStatement,
        }
    }
}

/// Relates an executable checking result to the outcome the ghost model
/// predicts: success values agree outright, failures agree up to views.
pub open spec fn res_like<T>(r: Result<T, Failure>, s: Result<T, FailureV>) -> bool {
    match (r, s) {
        (Ok(a), Ok(b)) => a == b,
        (Err(e), Err(f)) => e@ == f,
        _ => false,
    }
}

/// Resolution of an unchecked type annotation: the recognised primitive
/// names, and arrays of whatever their element annotation resolves to.
pub open spec fn resolve_type(unchecked: parsing::Type) -> Result<Type, FailureV>
    decreases unchecked,
{
    match unchecked {
        parsing::Type::Identifier(name) => {
            if name@ == "Num"@ {
                Ok(Type::Num)
            } else if name@ == "Bool"@ {
                Ok(Type::Bool)
            } else if name@ == "Char"@ {
                Ok(Type::Char)
            } else {
                Err(FailureV::NonexistentPrimitiveType(name@))
            }
        },
        parsing::Type::Array(inner) => {
            match resolve_type(*inner) {
                Ok(t) => Ok(Type::Array(Box::new(t))),
                Err(e) => Err(e),
            }
        },
    }
}

/// Whether a string slice and an owned string hold the same characters.
pub(crate) fn str_eq_string(a: &str, b: &String) -> (r: bool)
    ensures
        r == (a@ == b@),
{
    let owned: String = a.to_owned();
    owned == *b
}

impl Type {
    /// Resolve an unchecked annotation to a semantic type; an unrecognised
    /// primitive name is the only way this fails.
    pub fn from_identifier(unchecked: &parsing::Type) -> (r: Result<Type, Failure>)
        ensures
            res_like(r, resolve_type(*unchecked)),
        decreases unchecked,
    {
        match unchecked {
            parsing::Type::Identifier(name) => {
                if str_eq_string("Num", name) {
                    Ok(Type::Num)
                } else if str_eq_string("Bool", name) {
                    Ok(Type::Bool)
                } else if str_eq_string("Char", name) {
                    Ok(Type::Char)
                } else {
                    Err(Failure::NonexistentPrimitiveType(name.clone()))
                }
            },
            parsing::Type::Array(inner) => {
                match Type::from_identifier(inner) {
                    Ok(t) => Ok(Type::Array(Box::new(t))),
                    Err(e) => Err(e),
                }
            },
        }
    }
}

} // verus!
