//! The single seam where "how did the request resolve" and "where did
//! chunking place the target" combine into "what code do we emit": a resolve
//! outcome plus a chunking decision yields exactly one pattern mapping, and
//! the mapping dictates how the specifier expression at the call site is
//! rewritten.

use vstd::prelude::*;

use crate::ast::{is_lit, Expr, ExprOrSpread};
use crate::resolve::{ResolveOutcome, ResolveResult};

verus! {

/// The kind of reference a pattern mapping is resolved for: a dynamic
/// `import()` needs a runtime-asynchronous load.
pub enum ResolveType {
    EsmAsync,
}

/// The chunking policy's placement decisions, as this core consumes them: the
/// module id each placed asset got. The policy itself is external; this table
/// is its answer.
pub struct ChunkingContext {
    pub module_ids: Vec<(u64, u64)>,
}

/// The module id that the chunking context assigns to `asset`: the first
/// table entry, or the asset's own id where the table says nothing.
pub open spec fn chunk_module_id(entries: Seq<(u64, u64)>, asset: u64) -> u64
    decreases entries.len(),
{
    if entries.len() == 0 {
        asset
    } else if entries[0].0 == asset {
        entries[0].1
    } else {
        chunk_module_id(entries.drop_first(), asset)
    }
}

impl ChunkingContext {
    /// Look up the module id assigned to `asset`.
    pub fn module_id(&self, asset: u64) -> (r: u64)
        ensures
            r == chunk_module_id(self.module_ids@, asset),
    {
        let mut i: usize = 0;
        proof {
            assert(self.module_ids@.skip(0) =~= self.module_ids@);
        }
        while i < self.module_ids.len()
            invariant
                0 <= i <= self.module_ids@.len(),
                chunk_module_id(self.module_ids@, asset) == chunk_module_id(
                    self.module_ids@.skip(i as int),
                    asset,
                ),
            decreases self.module_ids@.len() - i,
        {
            let (a, id) = self.module_ids[i];
            proof {
                assert(self.module_ids@.skip(i as int)[0] == self.module_ids@[i as int]);
                assert(self.module_ids@.skip(i as int).drop_first() =~= self.module_ids@.skip(
                    i + 1,
                ));
            }
            if a == asset {
                return id;
            }
            i = i + 1;
        }
        proof {
            assert(self.module_ids@.skip(self.module_ids@.len() as int).len() == 0);
        }
        asset
    }
}

/// The resolved, code-generation-ready description of how to rewrite a
/// specifier expression at one call site.
pub enum PatternMapping {
    /// The target could not be resolved: the call site becomes a synthesized
    /// runtime error.
    Invalid,
    /// The target is inside the bundle: the call site is rewritten to load
    /// the module with this id through the internal loader.
    Internal(u64),
    /// The target stays outside the bundle: the specifier passes through
    /// largely unchanged.
    External(String),
}

/// `PatternMapping` as contracts see it.
pub enum PatternMappingView {
    Invalid,
    Internal(u64),
    External(Seq<char>),
}

impl View for PatternMapping {
    type V = PatternMappingView;

    open spec fn view(&self) -> PatternMappingView {
        match *self {
            PatternMapping::Invalid => PatternMappingView::Invalid,
            PatternMapping::Internal(id) => PatternMappingView::Internal(id),
            PatternMapping::External(s) => PatternMappingView::External(s@),
        }
    }
}

/// The one mapping that a resolve outcome and a chunking decision dictate:
/// one module resolves to an internal loader target under the id the chunking
/// context assigned; an external target passes its specifier through; every
/// other outcome — unresolvable, or several candidates where a dynamic import
/// needs exactly one — defaults to invalid.
pub open spec fn resolve_request_spec(
    chunk_ids: Seq<(u64, u64)>,
    outcome: ResolveOutcome,
    kind: ResolveType,
) -> PatternMappingView {
    match outcome {
        ResolveOutcome::Module(asset) => PatternMappingView::Internal(
            chunk_module_id(chunk_ids, asset),
        ),
        ResolveOutcome::External(s) => PatternMappingView::External(s),
        ResolveOutcome::Alternatives(_) => PatternMappingView::Invalid,
        ResolveOutcome::Unresolvable => PatternMappingView::Invalid,
    }
}

impl PatternMapping {
    /// Combine a resolve outcome with the chunking context's placement
    /// decision, for a reference of kind `kind`. Total: every outcome maps to
    /// exactly one variant.
    pub fn resolve_request(
        chunk_context: &ChunkingContext,
        resolve_result: &ResolveResult,
        kind: ResolveType,
    ) -> (r: PatternMapping)
        ensures
            r@ == resolve_request_spec(chunk_context.module_ids@, resolve_result@, kind),
    {
        match resolve_result {
            ResolveResult::Module(asset) => PatternMapping::Internal(
                chunk_context.module_id(*asset),
            ),
            ResolveResult::External(s) => PatternMapping::External(s.clone()),
            ResolveResult::Alternatives(_) => PatternMapping::Invalid,
            ResolveResult::Unresolvable => PatternMapping::Invalid,
        }
    }

    /// Whether the rewritten call must go through the internal module loader.
    pub fn is_internal_import(&self) -> (r: bool)
        ensures
            r == (self@ is Internal),
    {
        match self {
            PatternMapping::Internal(_) => true,
            _ => false,
        }
    }

    /// The specifier expression the mapping dictates, given the plain
    /// argument expression `e` the call site supplied: an internal target is
    /// pinned to its module id whatever was written; an external target keeps
    /// the supplied expression.
    pub open spec fn applied_to(self, e: Expr, m: Expr) -> bool {
        match self {
            PatternMapping::Invalid => false,
            PatternMapping::Internal(id) => m == Expr::Num(id),
            PatternMapping::External(_) => m == e,
        }
    }

    /// The specifier expression the mapping constructs on its own, where the
    /// call site supplied none (or no plain one).
    pub open spec fn created(self, m: Expr) -> bool {
        match self {
            PatternMapping::Invalid => false,
            PatternMapping::Internal(id) => m == Expr::Num(id),
            PatternMapping::External(s) => is_lit(m, s@),
        }
    }

    /// The rewritten specifier expression for original argument list `args`:
    /// applied to the first argument where that is a plain expression,
    /// constructed from the mapping itself otherwise.
    pub open spec fn mapped_expr(self, args: Seq<ExprOrSpread>, m: Expr) -> bool {
        if args.len() > 0 && !args[0].spread {
            self.applied_to(args[0].expr, m)
        } else {
            self.created(m)
        }
    }

    /// Apply the mapping to a supplied plain argument expression.
    pub fn apply(&self, expr: Expr) -> (r: Expr)
        requires
            !(*self matches PatternMapping::Invalid),
        ensures
            self.applied_to(expr, r),
    {
        match self {
            PatternMapping::Internal(id) => Expr::Num(*id),
            _ => expr,
        }
    }

    /// Construct the mapping's own specifier expression.
    pub fn create(&self) -> (r: Expr)
        requires
            !(*self matches PatternMapping::Invalid),
        ensures
            self.created(r),
    {
        match self {
            PatternMapping::Internal(id) => Expr::Num(*id),
            PatternMapping::External(s) => Expr::Lit(s.clone()),
            PatternMapping::Invalid => Expr::Num(0),
        }
    }
}

} // verus!
