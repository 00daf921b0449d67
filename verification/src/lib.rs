//! A small language front end: byte-level lexer, index arenas and the AST store.
use vstd::hash_map::StringHashMap;
use vstd::prelude::*;

use crate::index::{IdRange, Idx, IndexPool, IndexVec, RawRange};

pub mod index;
pub mod lexer;
pub mod lexer_laws;
pub mod parser;

verus! {

#[derive(Debug, Copy, Clone, PartialEq, Eq, Hash)]
pub struct ExprId(u32);

impl Idx for ExprId {
    closed spec fn nat_of(self) -> nat {
        self.0 as nat
    }

    proof fn lemma_nat_of_injective(a: Self, b: Self) {
    }

    fn from_usize(i: usize) -> (r: Self) {
        ExprId(i as u32)
    }

    fn index(self) -> (r: usize) {
        self.0 as usize
    }
}

#[derive(Debug, Copy, Clone, PartialEq, Eq, Hash)]
pub struct StmtId(u32);

impl Idx for StmtId {
    closed spec fn nat_of(self) -> nat {
        self.0 as nat
    }

    proof fn lemma_nat_of_injective(a: Self, b: Self) {
    }

    fn from_usize(i: usize) -> (r: Self) {
        StmtId(i as u32)
    }

    fn index(self) -> (r: usize) {
        self.0 as usize
    }
}

#[derive(Debug, Copy, Clone, PartialEq, Eq, Hash)]
pub struct PatternId(u32);

impl Idx for PatternId {
    closed spec fn nat_of(self) -> nat {
        self.0 as nat
    }

    proof fn lemma_nat_of_injective(a: Self, b: Self) {
    }

    fn from_usize(i: usize) -> (r: Self) {
        PatternId(i as u32)
    }

    fn index(self) -> (r: usize) {
        self.0 as usize
    }
}

#[derive(Debug, Copy, Clone, PartialEq, Eq, Hash)]
pub struct TypeExprId(u32);

impl Idx for TypeExprId {
    closed spec fn nat_of(self) -> nat {
        self.0 as nat
    }

    proof fn lemma_nat_of_injective(a: Self, b: Self) {
    }

    fn from_usize(i: usize) -> (r: Self) {
        TypeExprId(i as u32)
    }

    fn index(self) -> (r: usize) {
        self.0 as usize
    }
}

#[derive(Debug, Copy, Clone, PartialEq, Eq, Hash)]
pub struct MatchArmId(u32);

impl Idx for MatchArmId {
    closed spec fn nat_of(self) -> nat {
        self.0 as nat
    }

    proof fn lemma_nat_of_injective(a: Self, b: Self) {
    }

    fn from_usize(i: usize) -> (r: Self) {
        MatchArmId(i as u32)
    }

    fn index(self) -> (r: usize) {
        self.0 as usize
    }
}

#[derive(Debug, Copy, Clone, PartialEq, Eq, Hash)]
pub struct FieldId(u32);

impl Idx for FieldId {
    closed spec fn nat_of(self) -> nat {
        self.0 as nat
    }

    proof fn lemma_nat_of_injective(a: Self, b: Self) {
    }

    fn from_usize(i: usize) -> (r: Self) {
        FieldId(i as u32)
    }

    fn index(self) -> (r: usize) {
        self.0 as usize
    }
}

#[derive(Debug, Copy, Clone, PartialEq, Eq, Hash)]
pub struct ParamId(u32);

impl Idx for ParamId {
    closed spec fn nat_of(self) -> nat {
        self.0 as nat
    }

    proof fn lemma_nat_of_injective(a: Self, b: Self) {
    }

    fn from_usize(i: usize) -> (r: Self) {
        ParamId(i as u32)
    }

    fn index(self) -> (r: usize) {
        self.0 as usize
    }
}

#[derive(Debug, Copy, Clone, PartialEq, Eq, Hash)]
pub struct VariantId(u32);

impl Idx for VariantId {
    closed spec fn nat_of(self) -> nat {
        self.0 as nat
    }

    proof fn lemma_nat_of_injective(a: Self, b: Self) {
    }

    fn from_usize(i: usize) -> (r: Self) {
        VariantId(i as u32)
    }

    fn index(self) -> (r: usize) {
        self.0 as usize
    }
}

} // verus!

verus! {

/// An interned string, identified by its position in an [`Interner`].
#[derive(Debug, Copy, Clone, PartialEq, Eq, Hash)]
pub struct Symbol(u32);

/// A half-open byte range `[start, end)` of the source text.
#[derive(Debug, Copy, Clone)]
pub struct Span {
    pub start: u32,
    pub end: u32,
}

} // verus!

verus! {

/// One lexical token: what it is and which bytes it covers.
#[derive(Debug, Clone, Copy)]
pub struct Token {
    pub kind: TokenKind,
    pub span: Span,
}

/// Why a stretch of the source could not be lexed.
#[derive(Debug, Clone, Copy, PartialEq, Eq, Structural)]
pub enum LexErrorKind {
    InvalidChar,
    UnterminatedString,
    UnterminatedBlockComment,
}

/// The kinds of token the lexer produces.
#[derive(Debug, Clone, Copy, PartialEq, Eq, Structural)]
pub enum TokenKind {
    // literals / names
    Number,
    Str,
    Ident,
    Underscore,
    // keywords
    KwLet,
    KwFn,
    KwIf,
    KwElse,
    KwMatch,
    KwStruct,
    KwReturn,
    KwFor,
    KwWhile,
    KwBreak,
    KwContinue,
    // brackets / punctuation
    LParen,
    RParen,
    LBrace,
    RBrace,
    LBracket,
    RBracket,
    Comma,
    Colon,
    Semi,
    Dot,
    DotDot,
    Eq,
    FatArrow,
    Arrow,
    Caret,
    Question,
    Union,
    // operators
    Plus,
    Minus,
    Star,
    Slash,
    Percent,
    Bang,
    EqEq,
    Ne,
    Lt,
    Le,
    Gt,
    Ge,
    Amp,
    AmpAmp,
    Pipe,
    PipePipe,
    PlusEq,
    MinusEq,
    StarEq,
    SlashEq,
    Error(LexErrorKind),
    Eof,
}

} // verus!

verus! {

#[derive(Debug, Clone, Copy)]
pub enum Expr {
    Literal(Literal),
    Unary { op: UnOp, rhs: ExprId },
    Binary { op: BinOp, lhs: ExprId, rhs: ExprId },
    Assign { target: ExprId, value: ExprId },
    AssignOp { op: AssignOp, target: ExprId, value: ExprId },
    Call { callee: ExprId, args: IdRange<ExprId> },
    Field { base: ExprId, field: Symbol },
    If { cond: ExprId, then_br: ExprId, else_br: Option<ExprId> },
    While { cond: ExprId, body: ExprId },
    Match { scrutinee: ExprId, arms: IdRange<MatchArmId> },
    Break(Option<ExprId>),
    Continue,
    Return(Option<ExprId>),
    Body { stmts: IdRange<StmtId> },
    Function { parameters: RawRange<ParamId>, ret: Option<TypeExprId>, body: ExprId },
    Error,
}

#[derive(Debug, Clone, Copy)]
pub enum Stmt {
    Expression(ExprId),
    Let { pattern: PatternId, kind: LetKind },
    Function {
        name: Symbol,
        parameters: RawRange<ParamId>,
        ret: Option<TypeExprId>,
        body: Option<ExprId>,
    },
    Struct { name: Symbol, fields: RawRange<FieldId> },
    Enum { name: Symbol, variants: RawRange<VariantId> },
}

#[derive(Debug, Clone, Copy)]
pub enum TypeExpr {
    Name(Symbol),
    Infer,
    Pointer(TypeExprId),
    Tuple(IdRange<TypeExprId>),
    Join { lhs: TypeExprId, rhs: TypeExprId },
    Record { name: Option<Symbol>, fields: IdRange<FieldId> },
    Fn { params: IdRange<TypeExprId>, ret: IdRange<TypeExprId> },
}

#[derive(Debug, Clone, Copy)]
pub enum Pattern {
    Wildcard,
    Bind(Symbol),
    Tuple(IdRange<PatternId>),
}

#[derive(Debug, Clone, Copy)]
pub enum LetKind {
    Type(TypeExprId),
    Value(ExprId),
    Full { ty: TypeExprId, value: ExprId },
}

#[derive(Debug, Copy, Clone, PartialEq, Eq, Structural)]
pub enum AssignOp {
    Add,
    Sub,
    Mul,
    Div,
    Rem,
}

#[derive(Debug, Copy, Clone, PartialEq, Eq, Structural)]
pub enum BinOp {
    Add,
    Sub,
    Mul,
    Div,
    Eq,
    Ne,
    Lt,
    Le,
    Gt,
    Ge,
}

#[derive(Debug, Copy, Clone, PartialEq, Eq, Structural)]
pub enum UnOp {
    Neg,
    Not,
}

/// A literal value. A floating-point literal is kept as the bit pattern of
/// its `f64` value (as `f64::to_bits` gives it), so that the tree holds
/// plain integers only.
#[derive(Debug, Clone, Copy)]
pub enum Literal {
    Integer(i128),
    Float(u64),
    String(Symbol),
}

#[derive(Debug, Clone, Copy)]
pub struct EnumVariant {
    pub name: Symbol,
    pub ty: Option<TypeExprId>,
}

#[derive(Debug, Clone, Copy)]
pub struct Parameter {
    pub span: Span,
    pub name: PatternId,
    pub ty: Option<TypeExprId>,
    pub default: Option<ExprId>,
}

#[derive(Copy, Clone, Debug)]
pub struct Field {
    pub span: Span,
    pub name: Symbol,
    pub ty: TypeExprId,
    pub default: Option<ExprId>,
}

#[derive(Debug, Copy, Clone)]
pub struct MatchArm {
    pub span: Span,
    pub pat: PatternId,
    pub guard: Option<ExprId>,
    pub body: ExprId,
}

} // verus!

verus! {

/// The contents of an [`Ast`]: each kind of node in the order it was
/// stored, the spans of the spanned kinds, and each kind's pool of index
/// lists.
pub struct AstView {
    pub exprs: Seq<Expr>,
    pub expr_spans: Seq<Span>,
    pub expr_ids: Seq<ExprId>,
    pub stmts: Seq<Stmt>,
    pub stmt_spans: Seq<Span>,
    pub stmt_ids: Seq<StmtId>,
    pub patterns: Seq<Pattern>,
    pub pattern_spans: Seq<Span>,
    pub pattern_ids: Seq<PatternId>,
    pub type_exprs: Seq<TypeExpr>,
    pub type_expr_spans: Seq<Span>,
    pub type_expr_ids: Seq<TypeExprId>,
    pub match_arms: Seq<MatchArm>,
    pub match_arm_ids: Seq<MatchArmId>,
    pub fields: Seq<Field>,
    pub field_ids: Seq<FieldId>,
    pub params: Seq<Parameter>,
    pub param_ids: Seq<ParamId>,
    pub variants: Seq<EnumVariant>,
    pub variant_ids: Seq<VariantId>,
}

/// The syntax tree of a program, kept in arenas: every node is stored once
/// and named by its index.
pub struct Ast {
    exprs: IndexPool<ExprId, Expr>,
    expr_spans: IndexVec<ExprId, Span>,
    stmts: IndexPool<StmtId, Stmt>,
    stmt_spans: IndexVec<StmtId, Span>,
    patterns: IndexPool<PatternId, Pattern>,
    pattern_spans: IndexVec<PatternId, Span>,
    type_exprs: IndexPool<TypeExprId, TypeExpr>,
    type_expr_spans: IndexVec<TypeExprId, Span>,
    match_arms: IndexPool<MatchArmId, MatchArm>,
    fields: IndexPool<FieldId, Field>,
    params: IndexPool<ParamId, Parameter>,
    variants: IndexPool<VariantId, EnumVariant>,
}

impl View for Ast {
    type V = AstView;

    closed spec fn view(&self) -> AstView {
        AstView {
            exprs: self.exprs.items(),
            expr_spans: self.expr_spans@,
            expr_ids: self.exprs.ids(),
            stmts: self.stmts.items(),
            stmt_spans: self.stmt_spans@,
            stmt_ids: self.stmts.ids(),
            patterns: self.patterns.items(),
            pattern_spans: self.pattern_spans@,
            pattern_ids: self.patterns.ids(),
            type_exprs: self.type_exprs.items(),
            type_expr_spans: self.type_expr_spans@,
            type_expr_ids: self.type_exprs.ids(),
            match_arms: self.match_arms.items(),
            match_arm_ids: self.match_arms.ids(),
            fields: self.fields.items(),
            field_ids: self.fields.ids(),
            params: self.params.items(),
            param_ids: self.params.ids(),
            variants: self.variants.items(),
            variant_ids: self.variants.ids(),
        }
    }
}

impl Ast {
    /// Every spanned node has its span.
    pub open spec fn wf(&self) -> bool {
        &&& self@.exprs.len() == self@.expr_spans.len()
        &&& self@.stmts.len() == self@.stmt_spans.len()
        &&& self@.patterns.len() == self@.pattern_spans.len()
        &&& self@.type_exprs.len() == self@.type_expr_spans.len()
    }

    pub fn new() -> (r: Self)
        ensures
            r.wf(),
            ({
            &&& r@.exprs == Seq::<Expr>::empty()
            &&& r@.expr_spans == Seq::<Span>::empty()
            &&& r@.expr_ids == Seq::<ExprId>::empty()
            &&& r@.stmts == Seq::<Stmt>::empty()
            &&& r@.stmt_spans == Seq::<Span>::empty()
            &&& r@.stmt_ids == Seq::<StmtId>::empty()
            &&& r@.patterns == Seq::<Pattern>::empty()
            &&& r@.pattern_spans == Seq::<Span>::empty()
            &&& r@.pattern_ids == Seq::<PatternId>::empty()
            &&& r@.type_exprs == Seq::<TypeExpr>::empty()
            &&& r@.type_expr_spans == Seq::<Span>::empty()
            &&& r@.type_expr_ids == Seq::<TypeExprId>::empty()
            &&& r@.match_arms == Seq::<MatchArm>::empty()
            &&& r@.match_arm_ids == Seq::<MatchArmId>::empty()
            &&& r@.fields == Seq::<Field>::empty()
            &&& r@.field_ids == Seq::<FieldId>::empty()
            &&& r@.params == Seq::<Parameter>::empty()
            &&& r@.param_ids == Seq::<ParamId>::empty()
            &&& r@.variants == Seq::<EnumVariant>::empty()
            &&& r@.variant_ids == Seq::<VariantId>::empty()
            }),
    {
        Ast {
            exprs: IndexPool::new(),
            expr_spans: IndexVec::new(),
            stmts: IndexPool::new(),
            stmt_spans: IndexVec::new(),
            patterns: IndexPool::new(),
            pattern_spans: IndexVec::new(),
            type_exprs: IndexPool::new(),
            type_expr_spans: IndexVec::new(),
            match_arms: IndexPool::new(),
            fields: IndexPool::new(),
            params: IndexPool::new(),
            variants: IndexPool::new(),
        }
    }

    /// Stores a expr with its span and returns its index.
    pub fn push_expr(&mut self, expr: Expr, span: Span) -> (id: ExprId)
        requires
            old(self).wf(),
            old(self)@.exprs.len() <= u32::MAX,
        ensures
            final(self).wf(),
            final(self)@ == (AstView {
                exprs: old(self)@.exprs.push(expr),
                expr_spans: old(self)@.expr_spans.push(span),
                ..old(self)@
            }),
            id.nat_of() == old(self)@.exprs.len(),
    {
        let id = self.exprs.allocate(expr);
        let span_id = self.expr_spans.push(span);
        proof {
            ExprId::lemma_nat_of_injective(id, span_id);
        }
        id
    }

    pub fn expr_span(&self, id: ExprId) -> (r: Span)
        requires
            self.wf(),
            id.nat_of() < self@.exprs.len(),
        ensures
            r == self@.expr_spans[id.nat_of() as int],
    {
        self.expr_spans[id]
    }

    pub fn expr(&self, id: ExprId) -> (r: &Expr)
        requires
            id.nat_of() < self@.exprs.len(),
        ensures
            *r == self@.exprs[id.nat_of() as int],
    {
        self.exprs.get(id)
    }

    pub fn expr_mut(&mut self, id: ExprId) -> (r: &mut Expr)
        requires
            old(self).wf(),
            id.nat_of() < old(self)@.exprs.len(),
        ensures
            final(self).wf(),
            *r == old(self)@.exprs[id.nat_of() as int],
            final(self)@ == (AstView { exprs: old(self)@.exprs.update(id.nat_of() as int, *final(r)), ..old(self)@ }),
    {
        self.exprs.get_mut(id)
    }

    /// Stores a list of expr indices and returns where it stands.
    pub fn push_expr_ids(&mut self, ids: &[ExprId]) -> (r: IdRange<ExprId>)
        requires
            old(self).wf(),
        ensures
            final(self).wf(),
            final(self)@ == (AstView { expr_ids: old(self)@.expr_ids + ids@, ..old(self)@ }),
            r.first() == old(self)@.expr_ids.len() as u32,
            r.count() == ids@.len() as u32,
    {
        self.exprs.alloc_range(ids)
    }

    /// The list of expr indices that `range` stands for.
    pub fn expr_ids(&self, range: IdRange<ExprId>) -> (r: &[ExprId])
        requires
            range.first() + range.count() <= self@.expr_ids.len(),
        ensures
            r@ == self@.expr_ids.subrange(range.first() as int, (range.first() + range.count()) as int),
    {
        self.exprs.range(range)
    }

    /// Stores a stmt with its span and returns its index.
    pub fn push_stmt(&mut self, stmt: Stmt, span: Span) -> (id: StmtId)
        requires
            old(self).wf(),
            old(self)@.stmts.len() <= u32::MAX,
        ensures
            final(self).wf(),
            final(self)@ == (AstView {
                stmts: old(self)@.stmts.push(stmt),
                stmt_spans: old(self)@.stmt_spans.push(span),
                ..old(self)@
            }),
            id.nat_of() == old(self)@.stmts.len(),
    {
        let id = self.stmts.allocate(stmt);
        let span_id = self.stmt_spans.push(span);
        proof {
            StmtId::lemma_nat_of_injective(id, span_id);
        }
        id
    }

    pub fn stmt_span(&self, id: StmtId) -> (r: Span)
        requires
            self.wf(),
            id.nat_of() < self@.stmts.len(),
        ensures
            r == self@.stmt_spans[id.nat_of() as int],
    {
        self.stmt_spans[id]
    }

    pub fn stmt(&self, id: StmtId) -> (r: &Stmt)
        requires
            id.nat_of() < self@.stmts.len(),
        ensures
            *r == self@.stmts[id.nat_of() as int],
    {
        self.stmts.get(id)
    }

    pub fn stmt_mut(&mut self, id: StmtId) -> (r: &mut Stmt)
        requires
            old(self).wf(),
            id.nat_of() < old(self)@.stmts.len(),
        ensures
            final(self).wf(),
            *r == old(self)@.stmts[id.nat_of() as int],
            final(self)@ == (AstView { stmts: old(self)@.stmts.update(id.nat_of() as int, *final(r)), ..old(self)@ }),
    {
        self.stmts.get_mut(id)
    }

    /// Stores a list of stmt indices and returns where it stands.
    pub fn push_stmt_ids(&mut self, ids: &[StmtId]) -> (r: IdRange<StmtId>)
        requires
            old(self).wf(),
        ensures
            final(self).wf(),
            final(self)@ == (AstView { stmt_ids: old(self)@.stmt_ids + ids@, ..old(self)@ }),
            r.first() == old(self)@.stmt_ids.len() as u32,
            r.count() == ids@.len() as u32,
    {
        self.stmts.alloc_range(ids)
    }

    /// The list of stmt indices that `range` stands for.
    pub fn stmt_ids(&self, range: IdRange<StmtId>) -> (r: &[StmtId])
        requires
            range.first() + range.count() <= self@.stmt_ids.len(),
        ensures
            r@ == self@.stmt_ids.subrange(range.first() as int, (range.first() + range.count()) as int),
    {
        self.stmts.range(range)
    }

    /// Stores a pattern with its span and returns its index.
    pub fn push_pattern(&mut self, pattern: Pattern, span: Span) -> (id: PatternId)
        requires
            old(self).wf(),
            old(self)@.patterns.len() <= u32::MAX,
        ensures
            final(self).wf(),
            final(self)@ == (AstView {
                patterns: old(self)@.patterns.push(pattern),
                pattern_spans: old(self)@.pattern_spans.push(span),
                ..old(self)@
            }),
            id.nat_of() == old(self)@.patterns.len(),
    {
        let id = self.patterns.allocate(pattern);
        let span_id = self.pattern_spans.push(span);
        proof {
            PatternId::lemma_nat_of_injective(id, span_id);
        }
        id
    }

    pub fn pattern_span(&self, id: PatternId) -> (r: Span)
        requires
            self.wf(),
            id.nat_of() < self@.patterns.len(),
        ensures
            r == self@.pattern_spans[id.nat_of() as int],
    {
        self.pattern_spans[id]
    }

    pub fn pattern(&self, id: PatternId) -> (r: &Pattern)
        requires
            id.nat_of() < self@.patterns.len(),
        ensures
            *r == self@.patterns[id.nat_of() as int],
    {
        self.patterns.get(id)
    }

    pub fn pattern_mut(&mut self, id: PatternId) -> (r: &mut Pattern)
        requires
            old(self).wf(),
            id.nat_of() < old(self)@.patterns.len(),
        ensures
            final(self).wf(),
            *r == old(self)@.patterns[id.nat_of() as int],
            final(self)@ == (AstView { patterns: old(self)@.patterns.update(id.nat_of() as int, *final(r)), ..old(self)@ }),
    {
        self.patterns.get_mut(id)
    }

    /// Stores a list of pattern indices and returns where it stands.
    pub fn push_pattern_ids(&mut self, ids: &[PatternId]) -> (r: IdRange<PatternId>)
        requires
            old(self).wf(),
        ensures
            final(self).wf(),
            final(self)@ == (AstView { pattern_ids: old(self)@.pattern_ids + ids@, ..old(self)@ }),
            r.first() == old(self)@.pattern_ids.len() as u32,
            r.count() == ids@.len() as u32,
    {
        self.patterns.alloc_range(ids)
    }

    /// The list of pattern indices that `range` stands for.
    pub fn pattern_ids(&self, range: IdRange<PatternId>) -> (r: &[PatternId])
        requires
            range.first() + range.count() <= self@.pattern_ids.len(),
        ensures
            r@ == self@.pattern_ids.subrange(range.first() as int, (range.first() + range.count()) as int),
    {
        self.patterns.range(range)
    }

    /// Stores a type_expr with its span and returns its index.
    pub fn push_type_expr(&mut self, type_expr: TypeExpr, span: Span) -> (id: TypeExprId)
        requires
            old(self).wf(),
            old(self)@.type_exprs.len() <= u32::MAX,
        ensures
            final(self).wf(),
            final(self)@ == (AstView {
                type_exprs: old(self)@.type_exprs.push(type_expr),
                type_expr_spans: old(self)@.type_expr_spans.push(span),
                ..old(self)@
            }),
            id.nat_of() == old(self)@.type_exprs.len(),
    {
        let id = self.type_exprs.allocate(type_expr);
        let span_id = self.type_expr_spans.push(span);
        proof {
            TypeExprId::lemma_nat_of_injective(id, span_id);
        }
        id
    }

    pub fn type_expr_span(&self, id: TypeExprId) -> (r: Span)
        requires
            self.wf(),
            id.nat_of() < self@.type_exprs.len(),
        ensures
            r == self@.type_expr_spans[id.nat_of() as int],
    {
        self.type_expr_spans[id]
    }

    pub fn type_expr(&self, id: TypeExprId) -> (r: &TypeExpr)
        requires
            id.nat_of() < self@.type_exprs.len(),
        ensures
            *r == self@.type_exprs[id.nat_of() as int],
    {
        self.type_exprs.get(id)
    }

    pub fn type_expr_mut(&mut self, id: TypeExprId) -> (r: &mut TypeExpr)
        requires
            old(self).wf(),
            id.nat_of() < old(self)@.type_exprs.len(),
        ensures
            final(self).wf(),
            *r == old(self)@.type_exprs[id.nat_of() as int],
            final(self)@ == (AstView { type_exprs: old(self)@.type_exprs.update(id.nat_of() as int, *final(r)), ..old(self)@ }),
    {
        self.type_exprs.get_mut(id)
    }

    /// Stores a list of type_expr indices and returns where it stands.
    pub fn push_type_expr_ids(&mut self, ids: &[TypeExprId]) -> (r: IdRange<TypeExprId>)
        requires
            old(self).wf(),
        ensures
            final(self).wf(),
            final(self)@ == (AstView { type_expr_ids: old(self)@.type_expr_ids + ids@, ..old(self)@ }),
            r.first() == old(self)@.type_expr_ids.len() as u32,
            r.count() == ids@.len() as u32,
    {
        self.type_exprs.alloc_range(ids)
    }

    /// The list of type_expr indices that `range` stands for.
    pub fn type_expr_ids(&self, range: IdRange<TypeExprId>) -> (r: &[TypeExprId])
        requires
            range.first() + range.count() <= self@.type_expr_ids.len(),
        ensures
            r@ == self@.type_expr_ids.subrange(range.first() as int, (range.first() + range.count()) as int),
    {
        self.type_exprs.range(range)
    }

    /// Stores a match_arm and returns its index.
    pub fn push_match_arm(&mut self, match_arm: MatchArm) -> (id: MatchArmId)
        requires
            old(self).wf(),
            old(self)@.match_arms.len() <= u32::MAX,
        ensures
            final(self).wf(),
            final(self)@ == (AstView { match_arms: old(self)@.match_arms.push(match_arm), ..old(self)@ }),
            id.nat_of() == old(self)@.match_arms.len(),
    {
        self.match_arms.allocate(match_arm)
    }

    pub fn match_arm(&self, id: MatchArmId) -> (r: &MatchArm)
        requires
            id.nat_of() < self@.match_arms.len(),
        ensures
            *r == self@.match_arms[id.nat_of() as int],
    {
        self.match_arms.get(id)
    }

    pub fn match_arm_mut(&mut self, id: MatchArmId) -> (r: &mut MatchArm)
        requires
            old(self).wf(),
            id.nat_of() < old(self)@.match_arms.len(),
        ensures
            final(self).wf(),
            *r == old(self)@.match_arms[id.nat_of() as int],
            final(self)@ == (AstView { match_arms: old(self)@.match_arms.update(id.nat_of() as int, *final(r)), ..old(self)@ }),
    {
        self.match_arms.get_mut(id)
    }

    /// Stores a list of match_arm indices and returns where it stands.
    pub fn push_match_arm_ids(&mut self, ids: &[MatchArmId]) -> (r: IdRange<MatchArmId>)
        requires
            old(self).wf(),
        ensures
            final(self).wf(),
            final(self)@ == (AstView { match_arm_ids: old(self)@.match_arm_ids + ids@, ..old(self)@ }),
            r.first() == old(self)@.match_arm_ids.len() as u32,
            r.count() == ids@.len() as u32,
    {
        self.match_arms.alloc_range(ids)
    }

    /// The list of match_arm indices that `range` stands for.
    pub fn match_arm_ids(&self, range: IdRange<MatchArmId>) -> (r: &[MatchArmId])
        requires
            range.first() + range.count() <= self@.match_arm_ids.len(),
        ensures
            r@ == self@.match_arm_ids.subrange(range.first() as int, (range.first() + range.count()) as int),
    {
        self.match_arms.range(range)
    }

    /// Stores a field and returns its index.
    pub fn push_field(&mut self, field: Field) -> (id: FieldId)
        requires
            old(self).wf(),
            old(self)@.fields.len() <= u32::MAX,
        ensures
            final(self).wf(),
            final(self)@ == (AstView { fields: old(self)@.fields.push(field), ..old(self)@ }),
            id.nat_of() == old(self)@.fields.len(),
    {
        self.fields.allocate(field)
    }

    pub fn field(&self, id: FieldId) -> (r: &Field)
        requires
            id.nat_of() < self@.fields.len(),
        ensures
            *r == self@.fields[id.nat_of() as int],
    {
        self.fields.get(id)
    }

    pub fn field_mut(&mut self, id: FieldId) -> (r: &mut Field)
        requires
            old(self).wf(),
            id.nat_of() < old(self)@.fields.len(),
        ensures
            final(self).wf(),
            *r == old(self)@.fields[id.nat_of() as int],
            final(self)@ == (AstView { fields: old(self)@.fields.update(id.nat_of() as int, *final(r)), ..old(self)@ }),
    {
        self.fields.get_mut(id)
    }

    /// Stores a list of field indices and returns where it stands.
    pub fn push_field_ids(&mut self, ids: &[FieldId]) -> (r: IdRange<FieldId>)
        requires
            old(self).wf(),
        ensures
            final(self).wf(),
            final(self)@ == (AstView { field_ids: old(self)@.field_ids + ids@, ..old(self)@ }),
            r.first() == old(self)@.field_ids.len() as u32,
            r.count() == ids@.len() as u32,
    {
        self.fields.alloc_range(ids)
    }

    /// The list of field indices that `range` stands for.
    pub fn field_ids(&self, range: IdRange<FieldId>) -> (r: &[FieldId])
        requires
            range.first() + range.count() <= self@.field_ids.len(),
        ensures
            r@ == self@.field_ids.subrange(range.first() as int, (range.first() + range.count()) as int),
    {
        self.fields.range(range)
    }

    /// Stores a param and returns its index.
    pub fn push_param(&mut self, param: Parameter) -> (id: ParamId)
        requires
            old(self).wf(),
            old(self)@.params.len() <= u32::MAX,
        ensures
            final(self).wf(),
            final(self)@ == (AstView { params: old(self)@.params.push(param), ..old(self)@ }),
            id.nat_of() == old(self)@.params.len(),
    {
        self.params.allocate(param)
    }

    pub fn param(&self, id: ParamId) -> (r: &Parameter)
        requires
            id.nat_of() < self@.params.len(),
        ensures
            *r == self@.params[id.nat_of() as int],
    {
        self.params.get(id)
    }

    pub fn param_mut(&mut self, id: ParamId) -> (r: &mut Parameter)
        requires
            old(self).wf(),
            id.nat_of() < old(self)@.params.len(),
        ensures
            final(self).wf(),
            *r == old(self)@.params[id.nat_of() as int],
            final(self)@ == (AstView { params: old(self)@.params.update(id.nat_of() as int, *final(r)), ..old(self)@ }),
    {
        self.params.get_mut(id)
    }

    /// Stores a list of param indices and returns where it stands.
    pub fn push_param_ids(&mut self, ids: &[ParamId]) -> (r: IdRange<ParamId>)
        requires
            old(self).wf(),
        ensures
            final(self).wf(),
            final(self)@ == (AstView { param_ids: old(self)@.param_ids + ids@, ..old(self)@ }),
            r.first() == old(self)@.param_ids.len() as u32,
            r.count() == ids@.len() as u32,
    {
        self.params.alloc_range(ids)
    }

    /// The list of param indices that `range` stands for.
    pub fn param_ids(&self, range: IdRange<ParamId>) -> (r: &[ParamId])
        requires
            range.first() + range.count() <= self@.param_ids.len(),
        ensures
            r@ == self@.param_ids.subrange(range.first() as int, (range.first() + range.count()) as int),
    {
        self.params.range(range)
    }

    /// Stores a variant and returns its index.
    pub fn push_variant(&mut self, variant: EnumVariant) -> (id: VariantId)
        requires
            old(self).wf(),
            old(self)@.variants.len() <= u32::MAX,
        ensures
            final(self).wf(),
            final(self)@ == (AstView { variants: old(self)@.variants.push(variant), ..old(self)@ }),
            id.nat_of() == old(self)@.variants.len(),
    {
        self.variants.allocate(variant)
    }

    pub fn variant(&self, id: VariantId) -> (r: &EnumVariant)
        requires
            id.nat_of() < self@.variants.len(),
        ensures
            *r == self@.variants[id.nat_of() as int],
    {
        self.variants.get(id)
    }

    pub fn variant_mut(&mut self, id: VariantId) -> (r: &mut EnumVariant)
        requires
            old(self).wf(),
            id.nat_of() < old(self)@.variants.len(),
        ensures
            final(self).wf(),
            *r == old(self)@.variants[id.nat_of() as int],
            final(self)@ == (AstView { variants: old(self)@.variants.update(id.nat_of() as int, *final(r)), ..old(self)@ }),
    {
        self.variants.get_mut(id)
    }

    /// Stores a list of variant indices and returns where it stands.
    pub fn push_variant_ids(&mut self, ids: &[VariantId]) -> (r: IdRange<VariantId>)
        requires
            old(self).wf(),
        ensures
            final(self).wf(),
            final(self)@ == (AstView { variant_ids: old(self)@.variant_ids + ids@, ..old(self)@ }),
            r.first() == old(self)@.variant_ids.len() as u32,
            r.count() == ids@.len() as u32,
    {
        self.variants.alloc_range(ids)
    }

    /// The list of variant indices that `range` stands for.
    pub fn variant_ids(&self, range: IdRange<VariantId>) -> (r: &[VariantId])
        requires
            range.first() + range.count() <= self@.variant_ids.len(),
        ensures
            r@ == self@.variant_ids.subrange(range.first() as int, (range.first() + range.count()) as int),
    {
        self.variants.range(range)
    }

    /// Stores fields one after another and returns the range of their indices.
    pub fn push_fields(&mut self, fields: Vec<Field>) -> (r: RawRange<FieldId>)
        requires
            old(self).wf(),
            old(self)@.fields.len() + fields@.len() <= u32::MAX,
        ensures
            final(self).wf(),
            final(self)@ == (AstView { fields: old(self)@.fields + fields@, ..old(self)@ }),
            r.start_idx().nat_of() == old(self)@.fields.len(),
            r.end_idx().nat_of() == final(self)@.fields.len(),
    {
        self.fields.alloc_raw_range(fields)
    }

    /// The fields that `range` covers.
    pub fn fields(&self, range: RawRange<FieldId>) -> (r: &[Field])
        requires
            range.start_idx().nat_of() <= range.end_idx().nat_of() <= self@.fields.len(),
        ensures
            r@ == self@.fields.subrange(range.start_idx().nat_of() as int, range.end_idx().nat_of() as int),
    {
        self.fields.raw_range(range)
    }

    /// Stores params one after another and returns the range of their indices.
    pub fn push_params(&mut self, params: Vec<Parameter>) -> (r: RawRange<ParamId>)
        requires
            old(self).wf(),
            old(self)@.params.len() + params@.len() <= u32::MAX,
        ensures
            final(self).wf(),
            final(self)@ == (AstView { params: old(self)@.params + params@, ..old(self)@ }),
            r.start_idx().nat_of() == old(self)@.params.len(),
            r.end_idx().nat_of() == final(self)@.params.len(),
    {
        self.params.alloc_raw_range(params)
    }

    /// The params that `range` covers.
    pub fn params(&self, range: RawRange<ParamId>) -> (r: &[Parameter])
        requires
            range.start_idx().nat_of() <= range.end_idx().nat_of() <= self@.params.len(),
        ensures
            r@ == self@.params.subrange(range.start_idx().nat_of() as int, range.end_idx().nat_of() as int),
    {
        self.params.raw_range(range)
    }

    /// Stores variants one after another and returns the range of their indices.
    pub fn push_variants(&mut self, variants: Vec<EnumVariant>) -> (r: RawRange<VariantId>)
        requires
            old(self).wf(),
            old(self)@.variants.len() + variants@.len() <= u32::MAX,
        ensures
            final(self).wf(),
            final(self)@ == (AstView { variants: old(self)@.variants + variants@, ..old(self)@ }),
            r.start_idx().nat_of() == old(self)@.variants.len(),
            r.end_idx().nat_of() == final(self)@.variants.len(),
    {
        self.variants.alloc_raw_range(variants)
    }

    /// The variants that `range` covers.
    pub fn variants(&self, range: RawRange<VariantId>) -> (r: &[EnumVariant])
        requires
            range.start_idx().nat_of() <= range.end_idx().nat_of() <= self@.variants.len(),
        ensures
            r@ == self@.variants.subrange(range.start_idx().nat_of() as int, range.end_idx().nat_of() as int),
    {
        self.variants.raw_range(range)
    }

}

impl Default for Ast {
    fn default() -> (r: Self)
        ensures
            r.wf(),
            ({
            &&& r@.exprs == Seq::<Expr>::empty()
            &&& r@.expr_spans == Seq::<Span>::empty()
            &&& r@.expr_ids == Seq::<ExprId>::empty()
            &&& r@.stmts == Seq::<Stmt>::empty()
            &&& r@.stmt_spans == Seq::<Span>::empty()
            &&& r@.stmt_ids == Seq::<StmtId>::empty()
            &&& r@.patterns == Seq::<Pattern>::empty()
            &&& r@.pattern_spans == Seq::<Span>::empty()
            &&& r@.pattern_ids == Seq::<PatternId>::empty()
            &&& r@.type_exprs == Seq::<TypeExpr>::empty()
            &&& r@.type_expr_spans == Seq::<Span>::empty()
            &&& r@.type_expr_ids == Seq::<TypeExprId>::empty()
            &&& r@.match_arms == Seq::<MatchArm>::empty()
            &&& r@.match_arm_ids == Seq::<MatchArmId>::empty()
            &&& r@.fields == Seq::<Field>::empty()
            &&& r@.field_ids == Seq::<FieldId>::empty()
            &&& r@.params == Seq::<Parameter>::empty()
            &&& r@.param_ids == Seq::<ParamId>::empty()
            &&& r@.variants == Seq::<EnumVariant>::empty()
            &&& r@.variant_ids == Seq::<VariantId>::empty()
            }),
    {
        Ast::new()
    }
}

} // verus!

verus! {

impl Symbol {
    /// The position of the symbol's string in its interner.
    pub closed spec fn id(self) -> nat {
        self.0 as nat
    }

    /// Symbols with the same position are the same symbol.
    pub proof fn lemma_id_injective(a: Symbol, b: Symbol)
        requires
            a.id() == b.id(),
        ensures
            a == b,
    {
    }
}

/// Interning `s` into the strings `strs`: the strings after, and the
/// position of `s` among them. A string seen before keeps its position; a
/// new one is appended.
pub open spec fn intern_spec(strs: Seq<Seq<char>>, s: Seq<char>) -> (Seq<Seq<char>>, nat) {
    if strs.contains(s) {
        (strs, strs.index_of(s) as nat)
    } else {
        (strs.push(s), strs.len())
    }
}

/// Maps strings to small symbols and back.
pub struct Interner {
    map: StringHashMap<u32>,
    strs: Vec<String>,
}

impl View for Interner {
    type V = Seq<Seq<char>>;

    /// The interned strings, in the order they were first interned.
    closed spec fn view(&self) -> Seq<Seq<char>> {
        self.strs@.map_values(|s: String| s@)
    }
}

impl Interner {
    /// The map finds each interned string at its position, and nothing else.
    pub closed spec fn wf(&self) -> bool {
        &&& self.strs@.len() <= u32::MAX + 1
        &&& forall|i: int|
            0 <= i < self.strs@.len() ==> #[trigger] self.map@.contains_key(self.strs@[i]@)
                && self.map@[self.strs@[i]@] == i
        &&& forall|k: Seq<char>| #[trigger]
            self.map@.contains_key(k) ==> self.map@[k] < self.strs@.len() && self.strs@[self.map@[k] as int]@ == k
    }

    /// A well-formed interner holds each string once.
    pub proof fn lemma_no_duplicates(&self)
        requires
            self.wf(),
        ensures
            self@.no_duplicates(),
    {
        self.lemma_wf_no_duplicates();
    }

    proof fn lemma_wf_no_duplicates(&self)
        requires
            self.wf(),
        ensures
            self@.no_duplicates(),
            self@.len() == self.strs@.len(),
            forall|i: int| 0 <= i < self@.len() ==> #[trigger] self@[i] == self.strs@[i]@,
    {
        assert forall|i: int, j: int|
            0 <= i < self@.len() && 0 <= j < self@.len() && i != j implies self@[i] != self@[j] by {
            assert(self.map@.contains_key(self.strs@[i]@));
            assert(self.map@.contains_key(self.strs@[j]@));
        }
    }

    /// Returns the symbol of `s`, interning it first if it is new.
    pub fn intern(&mut self, s: &str) -> (sym: Symbol)
        requires
            old(self).wf(),
            old(self)@.contains(s@) || old(self)@.len() <= u32::MAX,
        ensures
            final(self).wf(),
            final(self)@.no_duplicates(),
            (final(self)@, sym.id()) == intern_spec(old(self)@, s@),
    {
        proof {
            self.lemma_wf_no_duplicates();
            lemma_intern_then_resolve(self@, s@);
        }
        if let Some(found) = self.map.get(s) {
            let id = *found;
            proof {
                let i = id as int;
                assert(self@[i] == s@);
                assert(self@.contains(s@));
                let j = self@.index_of(s@);
                assert(self@[j] == s@);
            }
            return Symbol(id);
        }
        let ghost old_strs = self.strs@;
        let id = self.strs.len() as u32;
        proof {
            if self@.contains(s@) {
                let j = self@.index_of(s@);
                assert(self.map@.contains_key(self.strs@[j]@));
            }
        }
        self.strs.push(s.to_owned());
        self.map.insert(s.to_owned(), id);
        proof {
            assert(self@ =~= old(self)@.push(s@));
            assert forall|k: Seq<char>| #[trigger]
                self.map@.contains_key(k) implies self.map@[k] < self.strs@.len() && self.strs@[self.map@[k] as int]@ == k by {
                if k != s@ {
                    assert(old(self).map@.contains_key(k));
                }
            }
            assert forall|i: int|
                0 <= i < self.strs@.len() implies #[trigger] self.map@.contains_key(self.strs@[i]@)
                && self.map@[self.strs@[i]@] == i by {
                if i < old_strs.len() {
                    assert(self.strs@[i] == old_strs[i]);
                    assert(old(self).map@.contains_key(old_strs[i]@));
                }
            }
        }
        Symbol(id)
    }

    /// The string of a symbol that this interner handed out.
    pub fn resolve(&self, s: Symbol) -> (r: &str)
        requires
            self.wf(),
            s.id() < self@.len(),
        ensures
            r@ == self@[s.id() as int],
    {
        self.strs[s.0 as usize].as_str()
    }
}

impl Default for Interner {
    fn default() -> (r: Self)
        ensures
            r.wf(),
            r@.no_duplicates(),
            r@ == Seq::<Seq<char>>::empty(),
    {
        let r = Interner { map: StringHashMap::new(), strs: Vec::new() };
        assert(r@ =~= Seq::<Seq<char>>::empty());
        r
    }
}

/// Interning keeps the strings free of duplicates, and the symbol handed
/// out names the string that was interned: resolving it gives the string
/// back.
pub proof fn lemma_intern_then_resolve(strs: Seq<Seq<char>>, s: Seq<char>)
    requires
        strs.no_duplicates(),
    ensures
        intern_spec(strs, s).0.no_duplicates(),
        intern_spec(strs, s).1 < intern_spec(strs, s).0.len(),
        intern_spec(strs, s).0[intern_spec(strs, s).1 as int] == s,
        strs.is_prefix_of(intern_spec(strs, s).0),
{
    if !strs.contains(s) {
        let t = strs.push(s);
        assert forall|i: int, j: int| 0 <= i < t.len() && 0 <= j < t.len() && i != j implies t[i]
            != t[j] by {
            if i == strs.len() {
                assert(strs[j] == t[j]);
            } else if j == strs.len() {
                assert(strs[i] == t[i]);
            }
        }
    }
}

/// Interning a string a second time hands out the same symbol and changes
/// nothing.
pub proof fn lemma_intern_idempotent(strs: Seq<Seq<char>>, s: Seq<char>)
    requires
        strs.no_duplicates(),
    ensures
        intern_spec(intern_spec(strs, s).0, s) == intern_spec(strs, s),
{
    lemma_intern_then_resolve(strs, s);
    let (t, id) = intern_spec(strs, s);
    assert(t.contains(s));
    let j = t.index_of(s);
    assert(t[j] == s);
}

/// Different strings get different symbols, however many strings are
/// interned in between.
pub proof fn lemma_intern_distinct(strs: Seq<Seq<char>>, s1: Seq<char>, s2: Seq<char>)
    requires
        strs.no_duplicates(),
        s1 != s2,
    ensures
        ({
            let (t1, id1) = intern_spec(strs, s1);
            let (t2, id2) = intern_spec(t1, s2);
            id1 != id2 && t2[id1 as int] == s1 && t2[id2 as int] == s2
        }),
{
    lemma_intern_then_resolve(strs, s1);
    let (t1, id1) = intern_spec(strs, s1);
    lemma_intern_then_resolve(t1, s2);
    let (t2, id2) = intern_spec(t1, s2);
    assert(t2[id1 as int] == t1[id1 as int]);
}

/// Interning more strings keeps every earlier symbol naming its string: a
/// symbol resolves to the same string after any later `intern`.
pub proof fn lemma_intern_keeps_symbols(strs: Seq<Seq<char>>, s: Seq<char>, id: nat)
    requires
        id < strs.len(),
    ensures
        id < intern_spec(strs, s).0.len(),
        intern_spec(strs, s).0[id as int] == strs[id as int],
{
}

} // verus!
