//! The syntax tree of a GoPlus source file.
use vstd::prelude::*;

verus! {

/// A byte range `start..end` of the source text.
#[derive(Debug, Clone, Copy, PartialEq, Eq, Structural)]
pub struct Span {
    pub start: usize,
    pub end: usize,
}

#[derive(Debug, PartialEq, Eq)]
pub struct Program {
    pub package: String,
    pub imports: Vec<String>,
    pub items: Vec<Item>,
    pub span: Span,
}

#[derive(Debug, PartialEq, Eq)]
pub enum Item {
    Struct(StructDecl),
    Enum(EnumDecl),
    Function(FnDecl),
    Impl(ImplBlock),
}

#[derive(Debug, Clone, PartialEq, Eq)]
pub struct StructDecl {
    pub name: String,
    pub fields: Vec<FieldDecl>,
    pub derives: Vec<DeriveKind>,
    pub span: Span,
}

#[derive(Debug, Clone, PartialEq, Eq)]
pub struct FieldDecl {
    pub name: String,
    pub ty: TypeRef,
    pub span: Span,
}

#[derive(Debug, Clone, PartialEq, Eq)]
pub struct EnumDecl {
    pub name: String,
    pub type_params: Vec<String>,
    pub variants: Vec<EnumVariant>,
    pub derives: Vec<DeriveKind>,
    pub span: Span,
}

#[derive(Debug, Clone, PartialEq, Eq)]
pub struct EnumVariant {
    pub name: String,
    pub payload: Vec<TypeRef>,
    pub span: Span,
}

/// Some variant of the enum carries a payload.
pub open spec fn tagged(variants: Seq<EnumVariant>) -> bool {
    exists|i: int| 0 <= i < variants.len() && variants[i].payload@.len() > 0
}

impl EnumDecl {
    /// Some variant carries a payload.
    pub fn is_tagged(&self) -> (r: bool)
        ensures
            r == tagged(self.variants@),
    {
        let mut i: usize = 0;
        while i < self.variants.len()
            invariant
                0 <= i <= self.variants@.len(),
                forall|j: int| 0 <= j < i ==> self.variants@[j].payload@.len() == 0,
            decreases self.variants@.len() - i,
        {
            if self.variants[i].payload.len() > 0 {
                return true;
            }
            i = i + 1;
        }
        false
    }
}

#[derive(Debug, PartialEq, Eq)]
pub struct ImplBlock {
    pub target: String,
    pub methods: Vec<MethodDecl>,
    pub span: Span,
}

#[derive(Debug, PartialEq, Eq)]
pub struct FnDecl {
    pub name: String,
    pub type_params: Vec<String>,
    pub params: Vec<ParamDecl>,
    pub ret: ReturnType,
    pub body: Block,
    pub decorators: Vec<Decorator>,
    pub span: Span,
}

#[derive(Debug, PartialEq, Eq)]
pub struct MethodDecl {
    pub receiver: ReceiverKind,
    pub name: String,
    pub type_params: Vec<String>,
    pub params: Vec<ParamDecl>,
    pub ret: ReturnType,
    pub body: Block,
    pub decorators: Vec<Decorator>,
    pub span: Span,
}

#[derive(Debug, Clone, Copy, PartialEq, Eq, Structural)]
pub enum ReceiverKind {
    Value,
    Pointer,
}

#[derive(Debug, Clone, PartialEq, Eq)]
pub struct ParamDecl {
    pub name: String,
    pub ty: TypeRef,
    pub span: Span,
}

#[derive(Debug, Clone, PartialEq, Eq)]
pub struct TypeRef {
    pub raw: String,
    pub span: Span,
}

#[derive(Debug, Clone, PartialEq, Eq)]
pub enum ReturnType {
    Void,
    Type(TypeRef),
    ErrorOnly,
    TypeWithError(TypeRef),
}

pub open spec fn error_capable(r: ReturnType) -> bool {
    r is ErrorOnly || r is TypeWithError
}

impl ReturnType {
    /// `!` or `T!`.
    pub fn is_error_capable(&self) -> (r: bool)
        ensures
            r == error_capable(*self),
    {
        match self {
            ReturnType::ErrorOnly | ReturnType::TypeWithError(_) => true,
            _ => false,
        }
    }

    /// The `T` of `T` and `T!`.
    pub fn value_type(&self) -> (r: Option<&TypeRef>)
        ensures
            r == match *self {
                ReturnType::Type(t) => Some(&t),
                ReturnType::TypeWithError(t) => Some(&t),
                _ => None,
            },
    {
        match self {
            ReturnType::Type(ty) | ReturnType::TypeWithError(ty) => Some(ty),
            ReturnType::Void | ReturnType::ErrorOnly => None,
        }
    }
}

#[derive(Debug, PartialEq, Eq)]
pub struct Block {
    pub stmts: Vec<Stmt>,
    pub span: Span,
}

#[derive(Debug, PartialEq, Eq)]
pub enum Stmt {
    VarDecl(VarDeclStmt),
    Return(ReturnStmt),
    Expr(ExprStmt),
    Match(MatchStmt),
    If(IfStmt),
    Raw(RawStmt),
}

#[derive(Debug, Clone, PartialEq, Eq)]
pub struct VarDeclStmt {
    pub name: String,
    pub expr: Expr,
    pub span: Span,
}

#[derive(Debug, Clone, PartialEq, Eq)]
pub struct ReturnStmt {
    pub exprs: Vec<Expr>,
    pub span: Span,
}

#[derive(Debug, Clone, PartialEq, Eq)]
pub struct ExprStmt {
    pub expr: Expr,
    pub span: Span,
}

#[derive(Debug, PartialEq, Eq)]
pub struct MatchStmt {
    pub value: Expr,
    pub arms: Vec<MatchArm>,
    pub resolved_enum: Option<String>,
    pub span: Span,
}

#[derive(Debug, PartialEq, Eq)]
pub struct MatchArm {
    pub pattern: Pattern,
    pub body: MatchArmBody,
    pub span: Span,
}

#[derive(Debug, PartialEq, Eq)]
pub enum MatchArmBody {
    Expr(Expr),
    Block(Block),
}

#[derive(Debug, Clone, PartialEq, Eq)]
pub enum Pattern {
    Wildcard { span: Span },
    TypedVariant { enum_name: String, variant: String, bindings: Vec<String>, span: Span },
    Variant { variant: String, bindings: Vec<String>, span: Span },
}

pub open spec fn pattern_span(p: Pattern) -> Span {
    match p {
        Pattern::Wildcard { span } => span,
        Pattern::TypedVariant { span, .. } => span,
        Pattern::Variant { span, .. } => span,
    }
}

pub open spec fn pattern_variant(p: Pattern) -> Option<Seq<char>> {
    match p {
        Pattern::Wildcard { .. } => None,
        Pattern::TypedVariant { variant, .. } => Some(variant@),
        Pattern::Variant { variant, .. } => Some(variant@),
    }
}

pub open spec fn pattern_bindings(p: Pattern) -> Seq<String> {
    match p {
        Pattern::Wildcard { .. } => Seq::empty(),
        Pattern::TypedVariant { bindings, .. } => bindings@,
        Pattern::Variant { bindings, .. } => bindings@,
    }
}

impl Pattern {
    pub fn span(&self) -> (r: Span)
        ensures
            r == pattern_span(*self),
    {
        match self {
            Pattern::Wildcard { span } => *span,
            Pattern::TypedVariant { span, .. } => *span,
            Pattern::Variant { span, .. } => *span,
        }
    }

    pub fn variant_name(&self) -> (r: Option<&str>)
        ensures
            r matches Some(v) ==> pattern_variant(*self) == Some(v@),
            r is None ==> pattern_variant(*self) is None,
    {
        match self {
            Pattern::Wildcard { .. } => None,
            Pattern::TypedVariant { variant, .. } => Some(variant.as_str()),
            Pattern::Variant { variant, .. } => Some(variant.as_str()),
        }
    }

    pub fn bindings(&self) -> (r: &[String])
        ensures
            r@ == pattern_bindings(*self),
    {
        match self {
            Pattern::Wildcard { .. } => &[],
            Pattern::TypedVariant { bindings, .. } => bindings.as_slice(),
            Pattern::Variant { bindings, .. } => bindings.as_slice(),
        }
    }
}

#[derive(Debug, PartialEq, Eq)]
pub struct IfStmt {
    pub condition: Expr,
    pub then_block: Block,
    pub else_branch: Option<ElseBranch>,
    pub span: Span,
}

#[derive(Debug, PartialEq, Eq)]
pub enum ElseBranch {
    Block(Block),
    If(Box<IfStmt>),
}

#[derive(Debug, Clone, PartialEq, Eq)]
pub struct RawStmt {
    pub text: String,
    pub span: Span,
}

#[derive(Debug, Clone, PartialEq, Eq)]
pub struct Expr {
    pub text: String,
    pub has_try: bool,
    pub span: Span,
}

#[derive(Debug, Clone, PartialEq, Eq)]
pub struct Decorator {
    pub name: String,
    pub args: Vec<String>,
    pub span: Span,
}

#[derive(Debug, Clone, Copy, PartialEq, Eq, Structural)]
pub enum DeriveKind {
    String,
    Debug,
    Equal,
    JsonMarshal,
    JsonUnmarshal,
}

} // verus!
