//! Core data model: interned symbols, keywords, source spans, concrete types,
//! declared entities, diagnostics and fatal errors.

use vstd::prelude::*;

verus! {

/// An interned symbol: an opaque handle standing for a textual identifier.
/// Symbols are allocated by the host environment, never invented here;
/// equality of symbols is equality of handles.
#[derive(Clone, Copy, PartialEq, Eq, Structural, Debug, Hash)]
pub struct AtomId(pub u64);

/// A source span, used to attribute diagnostics to the input that caused them.
#[derive(Clone, Copy, PartialEq, Eq, Structural, Debug)]
pub struct Span {
    pub start: usize,
    pub end: usize,
}

/// The closed set of keywords of the surface language, bound 1:1 to interned
/// symbols when a session is created.
#[derive(Clone, Copy, PartialEq, Eq, Structural, Debug)]
pub enum Keyword {
    /// Subcommand: ingest and typecheck a batch of declarations.
    Add,
    /// Subcommand: final linking step (placeholder).
    Finish,
    /// Declares an operation (procedure).
    Proc,
    /// Declares a named type.
    Typedef,
    /// Binds a local variable inside a procedure body.
    Let,
    /// The primitive integer type.
    Int,
    /// The primitive unit type.
    Unit,
}

/// A concrete type of the object language: a primitive or a declared name.
/// Types are nominal; two named types are equal exactly when their symbols are.
#[derive(Clone, Copy, PartialEq, Eq, Structural, Debug)]
pub enum Ty {
    Unit,
    Int,
    Named(AtomId),
}

/// A host-supplied symbolic-expression value: the generic parsed form in
/// which batches of surface syntax arrive.
#[derive(Debug)]
pub enum SExpr {
    Atom(AtomId),
    Num(u64),
    List(Vec<SExpr>),
}

/// A declared entity: an operation with a parameter/return type skeleton, or
/// a named type. Holds enough shape information for later references to
/// typecheck without re-reading the declaration's body.
#[derive(Debug)]
pub enum Entity {
    Op { params: Vec<Ty>, ret: Ty },
    Type { def: Ty },
}

/// The mathematical model of an [`Entity`]: the same shape with the
/// parameter list as a sequence.
pub enum EntityModel {
    Op { params: Seq<Ty>, ret: Ty },
    Type { def: Ty },
}

impl View for Entity {
    type V = EntityModel;

    open spec fn view(&self) -> EntityModel {
        match self {
            Entity::Op { params, ret } => EntityModel::Op { params: params@, ret: *ret },
            Entity::Type { def } => EntityModel::Type { def: *def },
        }
    }
}

/// What a recoverable diagnostic reports.
#[derive(Clone, Copy, PartialEq, Eq, Debug)]
pub enum DiagKind {
    /// A declaration's name collides with an existing entity of a different
    /// kind or arity; the item is skipped.
    DuplicateOrInvalidDeclaration(AtomId),
    /// An identifier is neither a local variable nor a known entity of the
    /// required kind; the item is skipped.
    UnboundName(AtomId),
    /// Unification found two conflicting concrete types. Both sides are
    /// rendered under the current partial substitution.
    TypeMismatch(Ty, Ty),
    /// A call supplies the wrong number of arguments for the named operation:
    /// the expected and the found count.
    ArityMismatch(AtomId, usize, usize),
}

/// A recoverable diagnostic: a source span plus a renderable report.
/// Diagnostics never abort work on sibling items.
#[derive(Clone, Copy, PartialEq, Eq, Debug)]
pub struct Diag {
    pub span: Span,
    pub kind: DiagKind,
}

/// What a fatal (call-aborting) error reports.
#[derive(Clone, Copy, PartialEq, Eq, Debug)]
pub enum ErrorKind {
    /// The batch or the subcommand arguments are malformed.
    SyntaxError,
    /// The leading argument of a dispatch is not bound to a subcommand
    /// keyword; carries the offending symbol when there is one.
    UnknownSubcommand(Option<AtomId>),
    /// A reference handed to the finalization step does not resolve in the
    /// entity table.
    UnresolvedReference(AtomId),
}

/// A fatal error: returned from a call in place of a result. No entity-table
/// mutation for that call is visible when one is returned from dispatch.
#[derive(Clone, Copy, PartialEq, Eq, Debug)]
pub struct Error {
    pub span: Span,
    pub kind: ErrorKind,
}

/// The closed set of compiler-internal lemma tags: proof-kernel lemmas that
/// later stages reference without string lookups.
#[derive(Clone, Copy, PartialEq, Eq, Structural, Debug)]
pub enum Predef {
    /// The program entry point lemma.
    Entry,
    /// The lemma justifying numeric casts.
    Cast,
    /// The lemma discharging overflow side conditions.
    Overflow,
}

/// A fixed table mapping each [`Predef`] tag to an interned symbol of the
/// current session. Constructed once at session creation, immutable after.
#[derive(Clone, Copy, PartialEq, Eq, Structural, Debug)]
pub struct PredefMap {
    entry: AtomId,
    cast: AtomId,
    overflow: AtomId,
}

impl PredefMap {
    /// The symbol this map assigns to a tag.
    pub closed spec fn spec_get(self, p: Predef) -> AtomId {
        match p {
            Predef::Entry => self.entry,
            Predef::Cast => self.cast,
            Predef::Overflow => self.overflow,
        }
    }

    /// Builds the table from one symbol per tag.
    pub fn new(entry: AtomId, cast: AtomId, overflow: AtomId) -> (r: PredefMap)
        ensures
            r.spec_get(Predef::Entry) == entry,
            r.spec_get(Predef::Cast) == cast,
            r.spec_get(Predef::Overflow) == overflow,
    {
        PredefMap { entry, cast, overflow }
    }

    /// Looks a tag up.
    pub fn get(&self, p: Predef) -> (r: AtomId)
        ensures
            r == self.spec_get(p),
    {
        match p {
            Predef::Entry => self.entry,
            Predef::Cast => self.cast,
            Predef::Overflow => self.overflow,
        }
    }
}

} // verus!
