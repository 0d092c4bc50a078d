//! The body representation that the checker walks: types, places, operands, statements and
//! terminators of one monomorphic function.
use vstd::prelude::*;

verus! {

/// Identity of a definition.
#[derive(Clone, Copy, Debug, PartialEq, Eq, Structural)]
pub struct DefId(pub u64);

/// A place in the source text: byte offsets of its two ends.
#[derive(Clone, Copy, Debug, PartialEq, Eq, Structural)]
pub struct Span {
    pub lo: u32,
    pub hi: u32,
}

impl Default for Span {
    fn default() -> (r: Self)
        ensures
            r == (Span { lo: 0, hi: 0 }),
    {
        Span { lo: 0, hi: 0 }
    }
}

/// A local of a body. `_0` is the return slot and `_1` onward are the parameters.
#[derive(Clone, Copy, Debug, PartialEq, Eq, Structural)]
pub struct Local(pub u32);

/// A block of a body, by its index.
#[derive(Clone, Copy, Debug, PartialEq, Eq, Structural)]
pub struct BasicBlock(pub u32);

#[derive(Clone, Copy, Debug, PartialEq, Eq, Structural)]
pub enum Mutability {
    Not,
    Mut,
}

#[derive(Clone, Copy, Debug, PartialEq, Eq, Structural)]
pub enum IntTy {
    Isize,
    I8,
    I16,
    I32,
    I64,
    I128,
}

#[derive(Clone, Copy, Debug, PartialEq, Eq, Structural)]
pub enum UintTy {
    Usize,
    U8,
    U16,
    U32,
    U64,
    U128,
}

#[derive(Clone, Copy, Debug, PartialEq, Eq, Structural)]
pub enum FloatTy {
    F16,
    F32,
    F64,
    F128,
}

/// A struct, enum or union, by its full path.
#[derive(Clone, Debug)]
pub struct AdtDef {
    pub path: String,
    pub is_union: bool,
}

#[derive(Debug)]
pub struct Ty {
    pub kind: TyKind,
}

#[derive(Debug)]
pub enum TyKind {
    RigidTy(RigidTy),
    /// A type parameter, by its index: absent once a body is monomorphic.
    Param(u32),
    /// A trait object.
    Dynamic,
}

#[derive(Debug)]
pub enum RigidTy {
    Bool,
    Char,
    Int(IntTy),
    Uint(UintTy),
    Float(FloatTy),
    Ref(Mutability, Box<Ty>),
    RawPtr(Mutability, Box<Ty>),
    Array(Box<Ty>, u64),
    Slice(Box<Ty>),
    Tuple(Vec<Ty>),
    FnPtr,
    FnDef(DefId),
    Closure(DefId),
    Adt(AdtDef),
}

/// Whether `a` and `b` are the same type, component by component.
pub open spec fn same_ty(a: Ty, b: Ty) -> bool
    decreases a, 0nat,
{
    match (a.kind, b.kind) {
        (TyKind::RigidTy(x), TyKind::RigidTy(y)) => match (x, y) {
            (RigidTy::Ref(m, s), RigidTy::Ref(n, t)) => m == n && same_ty(*s, *t),
            (RigidTy::RawPtr(m, s), RigidTy::RawPtr(n, t)) => m == n && same_ty(*s, *t),
            (RigidTy::Array(s, m), RigidTy::Array(t, n)) => m == n && same_ty(*s, *t),
            (RigidTy::Slice(s), RigidTy::Slice(t)) => same_ty(*s, *t),
            (RigidTy::Tuple(s), RigidTy::Tuple(t)) => s@.len() == t@.len() && same_tys(
                s,
                t,
                s@.len(),
            ),
            (RigidTy::Adt(s), RigidTy::Adt(t)) => s.path@ == t.path@ && s.is_union == t.is_union,
            _ => x == y,
        },
        _ => a.kind == b.kind,
    }
}

/// Whether the first `n` types of `a` and `b` are the same.
pub open spec fn same_tys(a: Vec<Ty>, b: Vec<Ty>, n: nat) -> bool
    decreases a, n,
{
    n == 0 || (n <= a@.len() && n <= b@.len() && same_tys(a, b, (n - 1) as nat) && same_ty(
        a@[n - 1],
        b@[n - 1],
    ))
}

fn copy_ty(ty: &Ty) -> (r: Ty)
    ensures
        same_ty(*ty, r),
    decreases *ty, 0nat,
{
    Ty { kind: copy_kind(&ty.kind) }
}

fn copy_kind(kind: &TyKind) -> (r: TyKind)
    ensures
        same_ty(Ty { kind: *kind }, Ty { kind: r }),
    decreases *kind, 0nat,
{
    match kind {
        TyKind::Param(i) => TyKind::Param(*i),
        TyKind::Dynamic => TyKind::Dynamic,
        TyKind::RigidTy(rigid) => TyKind::RigidTy(copy_rigid(rigid)),
    }
}

fn copy_rigid(rigid: &RigidTy) -> (r: RigidTy)
    ensures
        same_ty(Ty { kind: TyKind::RigidTy(*rigid) }, Ty { kind: TyKind::RigidTy(r) }),
    decreases *rigid, 0nat,
{
    match rigid {
        RigidTy::Bool => RigidTy::Bool,
        RigidTy::Char => RigidTy::Char,
        RigidTy::Int(i) => RigidTy::Int(*i),
        RigidTy::Uint(u) => RigidTy::Uint(*u),
        RigidTy::Float(f) => RigidTy::Float(*f),
        RigidTy::Ref(m, inner) => RigidTy::Ref(*m, Box::new(copy_ty(inner))),
        RigidTy::RawPtr(m, inner) => RigidTy::RawPtr(*m, Box::new(copy_ty(inner))),
        RigidTy::Array(inner, n) => RigidTy::Array(Box::new(copy_ty(inner)), *n),
        RigidTy::Slice(inner) => RigidTy::Slice(Box::new(copy_ty(inner))),
        RigidTy::Tuple(elems) => RigidTy::Tuple(copy_tys(elems)),
        RigidTy::FnPtr => RigidTy::FnPtr,
        RigidTy::FnDef(d) => RigidTy::FnDef(*d),
        RigidTy::Closure(d) => RigidTy::Closure(*d),
        RigidTy::Adt(adt) => RigidTy::Adt(
            AdtDef { path: adt.path.clone(), is_union: adt.is_union },
        ),
    }
}

/// The answer for the first types of a list depends on those alone.
proof fn lemma_same_tys_frame(a: Vec<Ty>, b: Vec<Ty>, c: Vec<Ty>, n: nat)
    requires
        same_tys(a, b, n),
        n <= b@.len() <= c@.len(),
        forall|i: int| 0 <= i < n ==> b@[i] == c@[i],
    ensures
        same_tys(a, c, n),
    decreases n,
{
    if n > 0 {
        lemma_same_tys_frame(a, b, c, (n - 1) as nat);
    }
}

fn copy_tys(tys: &Vec<Ty>) -> (r: Vec<Ty>)
    ensures
        r@.len() == tys@.len(),
        same_tys(*tys, r, tys@.len()),
    decreases *tys, tys@.len() + 1,
{
    let mut r: Vec<Ty> = Vec::new();
    let mut i: usize = 0;
    while i < tys.len()
        invariant
            i <= tys@.len(),
            r@.len() == i,
            same_tys(*tys, r, i as nat),
        decreases tys@.len() - i,
    {
        let ghost before = r;
        let t = copy_ty(&tys[i]);
        r.push(t);
        proof {
            lemma_same_tys_frame(*tys, before, r, i as nat);
        }
        i += 1;
    }
    r
}

impl Clone for RigidTy {
    fn clone(&self) -> (r: Self)
        ensures
            same_ty(Ty { kind: TyKind::RigidTy(*self) }, Ty { kind: TyKind::RigidTy(r) }),
    {
        copy_rigid(self)
    }
}

impl Clone for TyKind {
    fn clone(&self) -> (r: Self)
        ensures
            same_ty(Ty { kind: *self }, Ty { kind: r }),
    {
        copy_kind(self)
    }
}

impl Clone for Ty {
    fn clone(&self) -> (r: Self)
        ensures
            same_ty(*self, r),
    {
        copy_ty(self)
    }
}

#[derive(Clone, Debug)]
pub struct Place {
    pub local: Local,
    pub projection: Vec<ProjectionElem>,
}

#[derive(Clone, Debug)]
pub enum ProjectionElem {
    Deref,
    Field(u32),
    Index(Local),
    ConstantIndex { offset: u64 },
    Subslice { from: u64, to: u64 },
    Downcast(u32),
    OpaqueCast(Ty),
    Subtype(Ty),
}

/// A constant. A function item carries its `def_id` and `path`, an integer its `value`.
#[derive(Clone, Debug)]
pub struct ConstOperand {
    pub ty: Ty,
    pub def_id: Option<DefId>,
    pub path: Option<String>,
    pub value: Option<i128>,
}

#[derive(Clone, Debug)]
pub enum Operand {
    Copy(Place),
    Move(Place),
    Constant(ConstOperand),
}

#[derive(Clone, Copy, Debug, PartialEq, Eq, Structural)]
pub enum BinOp {
    Add,
    Sub,
    Mul,
    Div,
    Rem,
    BitXor,
    BitAnd,
    BitOr,
    Shl,
    Shr,
    Eq,
    Lt,
    Le,
    Ne,
    Ge,
    Gt,
    Offset,
}

#[derive(Clone, Copy, Debug, PartialEq, Eq, Structural)]
pub enum UnOp {
    Not,
    Neg,
    PtrMetadata,
}

#[derive(Clone, Copy, Debug, PartialEq, Eq, Structural)]
pub enum NullOp {
    SizeOf,
    AlignOf,
    UbChecks,
}

#[derive(Clone, Copy, Debug, PartialEq, Eq, Structural)]
pub enum CastKind {
    IntToInt,
    FloatToInt,
    IntToFloat,
    FloatToFloat,
    PtrToInt,
    IntToPtr,
    PtrToPtr,
    FnPtrToPtr,
    Transmute,
    PointerCoercion,
}

#[derive(Clone, Debug)]
pub enum AggregateKind {
    Tuple,
    Array(Ty),
    /// A struct or an enum variant, with the variant's index.
    Adt(AdtDef, u32),
    Closure(DefId),
    Coroutine(DefId),
    RawPtr,
}

#[derive(Clone, Debug)]
pub enum Rvalue {
    Use(Operand),
    Repeat(Operand, u64),
    Ref(Mutability, Place),
    ThreadLocalRef(DefId),
    RawPtr(Mutability, Place),
    Len(Place),
    Cast(CastKind, Operand, Ty),
    BinaryOp(BinOp, Operand, Operand),
    NullaryOp(NullOp, Ty),
    UnaryOp(UnOp, Operand),
    Discriminant(Place),
    Aggregate(AggregateKind, Vec<Operand>),
    ShallowInitBox(Operand, Ty),
    CopyForDeref(Place),
    WrapUnsafeBinder(Operand, Ty),
}

#[derive(Clone, Copy, Debug, PartialEq, Eq, Structural)]
pub enum RetagKind {
    Default,
    FnEntry,
    TwoPhase,
    Raw,
}

#[derive(Clone, Debug)]
pub enum NonDivergingIntrinsic {
    Assume(Operand),
    CopyNonOverlapping,
}

#[derive(Clone, Debug)]
pub enum StatementKind {
    Assign(Place, Rvalue),
    FakeRead(Place),
    SetDiscriminant { place: Place, variant_index: u32 },
    Deinit(Place),
    StorageLive(Local),
    StorageDead(Local),
    Retag(RetagKind, Place),
    PlaceMention(Place),
    AscribeUserType(Place),
    Coverage,
    Intrinsic(NonDivergingIntrinsic),
    ConstEvalCounter,
    Nop,
}

#[derive(Clone, Debug)]
pub struct Statement {
    pub kind: StatementKind,
    pub span: Span,
}

#[derive(Clone, Debug)]
pub enum AssertMessage {
    Overflow,
    DivisionByZero,
    RemainderByZero,
    BoundsCheck,
    MisalignedPointerDereference,
    Other(String),
}

#[derive(Clone, Debug)]
pub enum TerminatorKind {
    Goto { target: BasicBlock },
    SwitchInt { discr: Operand, targets: Vec<BasicBlock> },
    UnwindResume,
    UnwindTerminate,
    Return,
    Unreachable,
    Drop { place: Place, target: BasicBlock },
    Call { func: Operand, args: Vec<Operand>, destination: Place, target: Option<BasicBlock> },
    TailCall { func: Operand, args: Vec<Operand> },
    Assert { cond: Operand, expected: bool, msg: AssertMessage, target: BasicBlock },
    Yield { value: Operand, resume: BasicBlock },
    CoroutineDrop,
    FalseEdge { real_target: BasicBlock },
    FalseUnwind { real_target: BasicBlock },
    InlineAsm { template: String },
}

#[derive(Clone, Debug)]
pub struct Terminator {
    pub kind: TerminatorKind,
    pub span: Span,
}

#[derive(Clone, Debug)]
pub struct BasicBlockData {
    pub statements: Vec<Statement>,
    pub terminator: Terminator,
}

#[derive(Clone, Debug)]
pub struct LocalDecl {
    pub ty: Ty,
    pub span: Span,
    pub mutability: Mutability,
}

/// One function body. Parameter `i` is the local `i + 1`, and `arg_names[i]` is its name in the
/// source, empty where it has none.
#[derive(Clone, Debug)]
pub struct Body {
    pub def_id: DefId,
    pub arg_tys: Vec<Ty>,
    pub arg_names: Vec<String>,
    pub return_ty: Ty,
    pub is_unsafe: bool,
    pub is_async: bool,
    pub locals: Vec<LocalDecl>,
    pub blocks: Vec<BasicBlockData>,
    pub span: Span,
}

} // verus!
