//! The abstract syntax tree that a parser builds from the token stream:
//! declarations, statements, expressions, patterns and types. Pure data,
//! with a few classification helpers and the surface-syntax rendering of
//! types and operators.

use vstd::prelude::*;
use vstd::string::StringExecFns;

verus! {

#[derive(Debug, PartialEq)]
pub struct Program {
    pub declarations: Vec<Declaration>,
}

#[derive(Debug, PartialEq)]
pub enum Declaration {
    Function(FunctionDeclaration),
    Record(RecordDeclaration),
    Union(UnionDeclaration),
    Patch(PatchDeclaration),
    Statement(Statement),
}

#[derive(Debug, PartialEq)]
pub struct FunctionDeclaration {
    pub name: String,
    pub params: Vec<Parameter>,
    pub return_type: Option<Type>,
    pub body: Box<Expression>,
}

#[derive(Debug, PartialEq)]
pub struct Parameter {
    pub name: String,
    pub param_type: Type,
    pub is_mutable: bool,
    pub is_ref: bool,
}

#[derive(Debug, PartialEq)]
pub struct RecordDeclaration {
    pub name: String,
    pub fields: Vec<RecordField>,
}

#[derive(Debug, PartialEq)]
pub struct RecordField {
    pub name: String,
    pub field_type: Type,
}

#[derive(Debug, PartialEq)]
pub struct UnionDeclaration {
    pub name: String,
    pub tyne_parameters: Vec<String>,  // for generics
    pub variants: Vec<UnionVariant>,
}

#[derive(Debug, PartialEq)]
pub struct UnionVariant {
    pub name: String,
    pub variant_type: Option<Type>,  // some variants may carry data
}

#[derive(Debug, PartialEq)]
pub struct PatchDeclaration {
    pub target_type: Type,
    pub methods: Vec<FunctionDeclaration>,
}

#[derive(Debug, PartialEq)]
pub enum Statement {
    VariableDeclaration { name: String, var_type: Option<Type>, is_mutable: bool, value: Box<
        Expression,
    > },
    Expression(Box<Expression>),
    Return(Option<Box<Expression>>),
    Break(Option<Box<Expression>>),  // break with optional value
}

#[derive(Debug, PartialEq)]
pub enum Expression {
    Literal(Literal),
    Identifier(String),
    BinaryOperation { left: Box<Expression>, operator: BinaryOperator, right: Box<Expression> },
    UnaryOperation { operator: UnaryOperator, operand: Box<Expression> },
    FunctionCall { function: Box<Expression>, arguments: Vec<Expression> },
    RecordAccess { record: Box<Expression>, field: String },
    IndexAccess { collection: Box<Expression>, index: Box<Expression> },
    If { condition: Box<Expression>, then_branch: Box<Expression>, else_branch: Option<
        Box<Expression>,
    > },
    When { expression: Box<Expression>, branches: Vec<WhenBranch> },
    Block { statements: Vec<Statement>, final_expression: Option<Box<Expression>> },
    Loop { body: Box<Expression> },
    While { condition: Box<Expression>, body: Box<Expression> },
    For { variable: String, iterable: Box<Expression>, body: Box<Expression> },
    ArrayLiteral(Vec<Expression>),
    RecordLiteral { record_type: Type, fields: Vec<(String, Expression)> },
    UnionLiteral { union_type: Type, variant: String, value: Option<Box<Expression>> },
    Reference { is_mutable: bool, expression: Box<Expression> },
    Dereference(Box<Expression>),
    Range { start: Box<Expression>, end: Box<Expression>, inclusive: bool },
    TypeAnnotation { expression: Box<Expression>, annotated_type: Type },
}

#[derive(Debug, PartialEq)]
pub struct WhenBranch {
    pub pattern: Pattern,
    pub body: Box<Expression>,
}

#[derive(Debug, PartialEq)]
pub enum Pattern {
    Identifier(String),
    Literal(Literal),
    Union { variant: String, binding: Option<String> },
    Wildcard,
    Else,
}

/// A literal value as it appears in source. A float literal carries its
/// decimal text, as in the token model: rendering it as a machine
/// floating-point value is the consumer's concern.
#[derive(Debug, PartialEq)]
pub enum Literal {
    Integer(i64),
    Float(String),
    Boolean(bool),
    String(String),
    Char(char),
}

#[derive(Debug, Clone, Copy, PartialEq)]
pub enum BinaryOperator {
    // Arithmetic
    Add,
    Subtract,
    Multiply,
    Divide,
    Modulus,
    // Logical
    And,
    Or,
    // Comparison
    Equal,
    NotEqual,
    LessThan,
    LessThanOrEqual,
    GreaterThan,
    GreaterThanOrEqual,
    // Assignment
    Assign,
    AddAssign,
    SubtractAssign,
    MultiplyAssign,
    DivideAssign,
    ModulusAssign,
}

#[derive(Debug, Clone, Copy, PartialEq)]
pub enum UnaryOperator {
    Not,
    Negate,
    Reference,
    MutableReference,
    Dereference,
}

#[derive(Debug, PartialEq)]
pub enum Type {
    I8,
    I16,
    I32,
    I64,
    U8,
    U16,
    U32,
    U64,
    ISize,
    USize,
    F32,
    F64,
    Bool,
    Char,
    String,
    Named(String),
    Generic { name: String, parameters: Vec<Type> },
    Reference { is_mutable: bool, ref_type: Box<Type> },
    ArrayList(Box<Type>),
    FixedArray { element_type: Box<Type>, size: usize },
    Function { param_types: Vec<Type>, return_type: Option<Box<Type>> },
    Inferred,  // for type inference
}

impl Expression {
    /// Whether this expression may stand on the left of an assignment: an
    /// identifier, a record field access, an index access, or a
    /// dereference.
    pub fn is_lvalue(&self) -> (r: bool)
        ensures
            r == (self is Identifier || self is RecordAccess || self is IndexAccess
                || self is Dereference),
    {
        match self {
            Expression::Identifier(_) => true,
            Expression::RecordAccess { .. } => true,
            Expression::IndexAccess { .. } => true,
            Expression::Dereference(_) => true,
            _ => false,
        }
    }

    /// Whether a statement made of this expression must be terminated by
    /// a semicolon: block-shaped expressions need none.
    pub fn requires_semicolon(&self) -> (r: bool)
        ensures
            r == !(self is If || self is When || self is Block || self is Loop || self is While
                || self is For),
    {
        match self {
            Expression::If { .. } => false,
            Expression::When { .. } => false,
            Expression::Block { .. } => false,
            Expression::Loop { .. } => false,
            Expression::While { .. } => false,
            Expression::For { .. } => false,
            _ => true,
        }
    }
}

/// The ASCII character for a single decimal digit.
pub open spec fn dec_digit_char(d: int) -> char {
    if d == 0 {
        '0'
    } else if d == 1 {
        '1'
    } else if d == 2 {
        '2'
    } else if d == 3 {
        '3'
    } else if d == 4 {
        '4'
    } else if d == 5 {
        '5'
    } else if d == 6 {
        '6'
    } else if d == 7 {
        '7'
    } else if d == 8 {
        '8'
    } else {
        '9'
    }
}

/// The decimal text of a nonnegative integer, most significant digit
/// first, without leading zeros.
pub open spec fn dec_text(n: int) -> Seq<char>
    decreases n,
{
    if n < 10 {
        seq![dec_digit_char(n)]
    } else {
        dec_text(n / 10).push(dec_digit_char(n % 10))
    }
}

fn dec_digit_str(d: usize) -> (r: &'static str)
    requires
        d < 10,
    ensures
        r@ == seq![dec_digit_char(d as int)],
{
    let r: &'static str = if d == 0 {
        "0"
    } else if d == 1 {
        "1"
    } else if d == 2 {
        "2"
    } else if d == 3 {
        "3"
    } else if d == 4 {
        "4"
    } else if d == 5 {
        "5"
    } else if d == 6 {
        "6"
    } else if d == 7 {
        "7"
    } else if d == 8 {
        "8"
    } else {
        "9"
    };
    proof {
        reveal_strlit("0");
        reveal_strlit("1");
        reveal_strlit("2");
        reveal_strlit("3");
        reveal_strlit("4");
        reveal_strlit("5");
        reveal_strlit("6");
        reveal_strlit("7");
        reveal_strlit("8");
        reveal_strlit("9");
        assert(r@ =~= seq![dec_digit_char(d as int)]);
    }
    r
}

/// Render a nonnegative integer as decimal text.
fn usize_text(n: usize) -> (r: String)
    ensures
        r@ == dec_text(n as int),
    decreases n,
{
    if n < 10 {
        dec_digit_str(n).to_owned()
    } else {
        let mut prefix = usize_text(n / 10);
        prefix.append(dec_digit_str(n % 10));
        proof {
            assert(dec_text((n / 10) as int).push(dec_digit_char((n % 10) as int)) =~= dec_text(
                (n / 10) as int,
            ) + seq![dec_digit_char((n % 10) as int)]);
        }
        prefix
    }
}

/// The surface syntax of a type, as the language spells it.
pub open spec fn type_text(t: Type) -> Seq<char>
    decreases t,
{
    match t {
        Type::I8 => "i8"@,
        Type::I16 => "i16"@,
        Type::I32 => "i32"@,
        Type::I64 => "i64"@,
        Type::U8 => "u8"@,
        Type::U16 => "u16"@,
        Type::U32 => "u32"@,
        Type::U64 => "u64"@,
        Type::ISize => "isize"@,
        Type::USize => "usize"@,
        Type::F32 => "f32"@,
        Type::F64 => "f64"@,
        Type::Bool => "bool"@,
        Type::Char => "char"@,
        Type::String => "string"@,
        Type::Named(name) => name@,
        Type::Generic { name, parameters } => name@ + "<"@ + type_list_text(parameters@) + ">"@,
        Type::Reference { is_mutable, ref_type } => type_text(*ref_type) + "&@"@,
        Type::ArrayList(element_type) => "arrayList<"@ + type_text(*element_type) + ">"@,
        Type::FixedArray { element_type, size } => "fixedArray<"@ + type_text(*element_type)
            + ", "@ + dec_text(size as int) + ">"@,
        Type::Function { param_types, return_type } => match return_type {
            Some(ret_type) => "fn("@ + type_list_text(param_types@) + ") -> "@ + type_text(
                *ret_type,
            ),
            None => "fn("@ + type_list_text(param_types@) + ")"@,
        },
        Type::Inferred => "_"@,
    }
}

/// The surface syntax of a type list, comma-separated.
pub open spec fn type_list_text(ts: Seq<Type>) -> Seq<char>
    decreases ts,
{
    if ts.len() == 0 {
        Seq::empty()
    } else if ts.len() == 1 {
        type_text(ts[0])
    } else {
        type_list_text(ts.drop_last()) + ", "@ + type_text(ts.last())
    }
}

/// Render a comma-separated type list.
fn type_list_to_text(ts: &Vec<Type>) -> (r: String)
    ensures
        r@ == type_list_text(ts@),
    decreases ts@,
{
    let mut out = String::new();
    let mut i: usize = 0;
    while i < ts.len()
        invariant
            i <= ts@.len(),
            out@ == type_list_text(ts@.subrange(0, i as int)),
        decreases ts@.len() - i,
    {
        if i > 0 {
            out.append(", ");
        }
        proof {
            assert(decreases_to!(ts@ => ts@[i as int]));
        }
        let piece = ts[i].to_text();
        out.append(piece.as_str());
        proof {
            assert(ts@.subrange(0, i + 1).drop_last() =~= ts@.subrange(0, i as int));
            assert(ts@.subrange(0, i + 1).last() == ts@[i as int]);
            if i == 0 {
                assert(out@ =~= type_list_text(ts@.subrange(0, i + 1)));
            } else {
                assert(out@ =~= type_list_text(ts@.subrange(0, i + 1)));
            }
        }
        i = i + 1;
    }
    proof {
        assert(ts@.subrange(0, ts@.len() as int) =~= ts@);
    }
    out
}

impl Type {
    /// The surface syntax of this type, as the language spells it.
    pub fn to_text(&self) -> (r: String)
        ensures
            r@ == type_text(*self),
        decreases *self,
    {
        match self {
            Type::I8 => "i8".to_owned(),
            Type::I16 => "i16".to_owned(),
            Type::I32 => "i32".to_owned(),
            Type::I64 => "i64".to_owned(),
            Type::U8 => "u8".to_owned(),
            Type::U16 => "u16".to_owned(),
            Type::U32 => "u32".to_owned(),
            Type::U64 => "u64".to_owned(),
            Type::ISize => "isize".to_owned(),
            Type::USize => "usize".to_owned(),
            Type::F32 => "f32".to_owned(),
            Type::F64 => "f64".to_owned(),
            Type::Bool => "bool".to_owned(),
            Type::Char => "char".to_owned(),
            Type::String => "string".to_owned(),
            Type::Named(name) => name.clone(),
            Type::Generic { name, parameters } => {
                let mut out = name.clone();
                out.append("<");
                let params = type_list_to_text(parameters);
                out.append(params.as_str());
                out.append(">");
                proof {
                    assert(out@ =~= type_text(*self));
                }
                out
            },
            Type::Reference { is_mutable: _, ref_type } => {
                // both reference forms print alike
                let mut out = ref_type.to_text();
                out.append("&@");
                out
            },
            Type::ArrayList(element_type) => {
                let mut out = "arrayList<".to_owned();
                let inner = element_type.to_text();
                out.append(inner.as_str());
                out.append(">");
                proof {
                    assert(out@ =~= type_text(*self));
                }
                out
            },
            Type::FixedArray { element_type, size } => {
                let mut out = "fixedArray<".to_owned();
                let inner = element_type.to_text();
                out.append(inner.as_str());
                out.append(", ");
                let size_text = usize_text(*size);
                out.append(size_text.as_str());
                out.append(">");
                proof {
                    assert(out@ =~= type_text(*self));
                }
                out
            },
            Type::Function { param_types, return_type } => {
                let mut out = "fn(".to_owned();
                let params = type_list_to_text(param_types);
                out.append(params.as_str());
                match return_type {
                    Some(ret_type) => {
                        out.append(") -> ");
                        let ret = ret_type.to_text();
                        out.append(ret.as_str());
                    },
                    None => {
                        out.append(")");
                    },
                }
                proof {
                    assert(out@ =~= type_text(*self));
                }
                out
            },
            Type::Inferred => "_".to_owned(),
        }
    }
}

/// The surface syntax of a binary operator.
pub open spec fn binary_operator_text(op: BinaryOperator) -> Seq<char> {
    match op {
        BinaryOperator::Add => "+"@,
        BinaryOperator::Subtract => "-"@,
        BinaryOperator::Multiply => "*"@,
        BinaryOperator::Divide => "/"@,
        BinaryOperator::Modulus => "%"@,
        BinaryOperator::And => "&&"@,
        BinaryOperator::Or => "||"@,
        BinaryOperator::Equal => "=="@,
        BinaryOperator::NotEqual => "!="@,
        BinaryOperator::LessThan => "<"@,
        BinaryOperator::LessThanOrEqual => "<="@,
        BinaryOperator::GreaterThan => ">"@,
        BinaryOperator::GreaterThanOrEqual => ">="@,
        BinaryOperator::Assign => "="@,
        BinaryOperator::AddAssign => "+="@,
        BinaryOperator::SubtractAssign => "-="@,
        BinaryOperator::MultiplyAssign => "*="@,
        BinaryOperator::DivideAssign => "/="@,
        BinaryOperator::ModulusAssign => "%="@,
    }
}

impl BinaryOperator {
    /// The surface syntax of this operator.
    pub fn to_text(&self) -> (r: String)
        ensures
            r@ == binary_operator_text(*self),
    {
        match self {
            BinaryOperator::Add => "+".to_owned(),
            BinaryOperator::Subtract => "-".to_owned(),
            BinaryOperator::Multiply => "*".to_owned(),
            BinaryOperator::Divide => "/".to_owned(),
            BinaryOperator::Modulus => "%".to_owned(),
            BinaryOperator::And => "&&".to_owned(),
            BinaryOperator::Or => "||".to_owned(),
            BinaryOperator::Equal => "==".to_owned(),
            BinaryOperator::NotEqual => "!=".to_owned(),
            BinaryOperator::LessThan => "<".to_owned(),
            BinaryOperator::LessThanOrEqual => "<=".to_owned(),
            BinaryOperator::GreaterThan => ">".to_owned(),
            BinaryOperator::GreaterThanOrEqual => ">=".to_owned(),
            BinaryOperator::Assign => "=".to_owned(),
            BinaryOperator::AddAssign => "+=".to_owned(),
            BinaryOperator::SubtractAssign => "-=".to_owned(),
            BinaryOperator::MultiplyAssign => "*=".to_owned(),
            BinaryOperator::DivideAssign => "/=".to_owned(),
            BinaryOperator::ModulusAssign => "%=".to_owned(),
        }
    }
}

/// The surface syntax of a unary operator.
pub open spec fn unary_operator_text(op: UnaryOperator) -> Seq<char> {
    match op {
        UnaryOperator::Not => "!"@,
        UnaryOperator::Negate => "-"@,
        UnaryOperator::Reference => "&"@,
        UnaryOperator::MutableReference => "&@"@,
        UnaryOperator::Dereference => "*"@,
    }
}

impl UnaryOperator {
    /// The surface syntax of this operator.
    pub fn to_text(&self) -> (r: String)
        ensures
            r@ == unary_operator_text(*self),
    {
        match self {
            UnaryOperator::Not => "!".to_owned(),
            UnaryOperator::Negate => "-".to_owned(),
            UnaryOperator::Reference => "&".to_owned(),
            UnaryOperator::MutableReference => "&@".to_owned(),
            UnaryOperator::Dereference => "*".to_owned(),
        }
    }
}

} // verus!
