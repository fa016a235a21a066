//! Code generation for dynamic `import()` references: depending on how the
//! request resolved and where chunking placed the target, the call site is
//! rewritten into an internal loader call, a pass-through call, or a
//! synthesized runtime rejection.

use vstd::prelude::*;
use vstd::string::StringExecFns;

use crate::ast::{import_args, is_ident, is_lit, AstPath, Expr, ExprOrSpread};
use crate::pattern_mapping::{ChunkingContext, PatternMapping, ResolveType};
use crate::resolve::{resolve_post, resolve_spec, Request, Resolver, ResolveResult};
use crate::pattern_mapping::resolve_request_spec;

verus! {

/// A reference from an asset to a dynamically imported (`import()`) target:
/// the request, the context it must be resolved in, and the coordinate of the
/// call expression in the owning asset's tree.
pub struct EsmAsyncAssetReference {
    pub context: u64,
    pub request: Request,
    pub path: AstPath,
}

/// The result of a reference's code-generation step: for each coordinate, the
/// pattern mapping whose rewrite is applied to the node there.
pub struct CodeGeneration {
    pub visitors: Vec<(AstPath, PatternMapping)>,
}

/// The message of the synthesized runtime error for an unresolvable dynamic
/// import, chosen by the shape of the original argument list:
/// - one plain first argument: a concatenation embedding that expression;
/// - a spread first argument: a fixed message (a known upstream parser
///   limitation makes the argument unusable, so the shape is reported);
/// - no arguments at all: a fixed message.
pub open spec fn is_invalid_message(args: Seq<ExprOrSpread>, m: Expr) -> bool {
    if args.len() > 0 && !args[0].spread {
        &&& m matches Expr::Concat(pre, suffix)
        &&& *pre matches Expr::Concat(prefix, arg)
        &&& is_lit(*prefix, "could not resolve \""@)
        &&& *arg == args[0].expr
        &&& is_lit(*suffix, "\" into a module"@)
    } else if args.len() > 0 && args[0].spread {
        is_lit(m, "spread operator is illegal in import() expressions."@)
    } else {
        is_lit(m, "import() expressions require at least 1 argument"@)
    }
}

/// An unresolvable dynamic import becomes a runtime rejection: the callee is
/// `Promise.reject`, and the single remaining argument is `new Error(msg)`
/// with the message dictated by the original argument list.
pub open spec fn is_invalid_rewrite(args: Seq<ExprOrSpread>, r: Expr) -> bool {
    &&& r matches Expr::Call(callee, arg)
    &&& *callee matches Expr::Member(obj, prop)
    &&& is_ident(*obj, "Promise"@)
    &&& prop@ == "reject"@
    &&& *arg matches Expr::New(ctor, msg)
    &&& is_ident(*ctor, "Error"@)
    &&& is_invalid_message(args, *msg)
}

/// What rewriting a dynamic import call with original arguments `args` under
/// mapping `pm` produces:
/// - invalid: the synthesized runtime rejection;
/// - internal: `loader(mapped_specifier)(import_binding)` — the callee
///   becomes an internal loader call on the rewritten specifier, and the
///   outer call's single argument is the fixed internal import binding;
/// - external: the call stays a dynamic import of the rewritten specifier.
pub open spec fn is_import_rewrite(args: Seq<ExprOrSpread>, pm: PatternMapping, r: Expr) -> bool {
    match pm {
        PatternMapping::Invalid => is_invalid_rewrite(args, r),
        PatternMapping::Internal(_) => {
            &&& r matches Expr::Call(callee, outer_arg)
            &&& *callee matches Expr::Call(loader, mapped)
            &&& is_ident(*loader, "__turbopack_require__"@)
            &&& pm.mapped_expr(args, *mapped)
            &&& is_ident(*outer_arg, "__turbopack_import__"@)
        },
        PatternMapping::External(_) => {
            &&& r matches Expr::ImportCall(new_args)
            &&& new_args@.len() == 1
            &&& !new_args@[0].spread
            &&& pm.mapped_expr(args, new_args@[0].expr)
        },
    }
}

/// Rewrite one dynamic import call expression according to `pm`. The visitor
/// mutates nothing but this one node.
pub fn rewrite_dynamic_import(call: Expr, pm: &PatternMapping) -> (r: Expr)
    requires
        call matches Expr::ImportCall(_),
    ensures
        is_import_rewrite(import_args(call), *pm, r),
{
    let ghost orig = import_args(call);
    let mut args = match call {
        Expr::ImportCall(args) => args,
        _ => Vec::new(),
    };
    match pm {
        PatternMapping::Invalid => {
            let message: Expr = if args.len() > 0 {
                let first = args.remove(0);
                if !first.spread {
                    Expr::Concat(
                        Box::new(
                            Expr::Concat(
                                Box::new(Expr::Lit(String::from_str("could not resolve \""))),
                                Box::new(first.expr),
                            ),
                        ),
                        Box::new(Expr::Lit(String::from_str("\" into a module"))),
                    )
                } else {
                    Expr::Lit(
                        String::from_str("spread operator is illegal in import() expressions."),
                    )
                }
            } else {
                Expr::Lit(String::from_str("import() expressions require at least 1 argument"))
            };
            let error = Expr::New(
                Box::new(Expr::Ident(String::from_str("Error"))),
                Box::new(message),
            );
            Expr::Call(
                Box::new(
                    Expr::Member(
                        Box::new(Expr::Ident(String::from_str("Promise"))),
                        String::from_str("reject"),
                    ),
                ),
                Box::new(error),
            )
        },
        _ => {
            let expr: Expr = if args.len() > 0 {
                let first = args.remove(0);
                if !first.spread {
                    pm.apply(first.expr)
                } else {
                    pm.create()
                }
            } else {
                pm.create()
            };
            if pm.is_internal_import() {
                Expr::Call(
                    Box::new(
                        Expr::Call(
                            Box::new(Expr::Ident(String::from_str("__turbopack_require__"))),
                            Box::new(expr),
                        ),
                    ),
                    Box::new(Expr::Ident(String::from_str("__turbopack_import__"))),
                )
            } else {
                let mut new_args: Vec<ExprOrSpread> = Vec::new();
                new_args.push(ExprOrSpread { spread: false, expr });
                Expr::ImportCall(new_args)
            }
        },
    }
}

/// How the tree `r` relates to the tree `e` after asking for the rewrite at
/// `path[i..]`: along the path every node keeps its other children; at the
/// path's end a dynamic import call is rewritten (`ok`), while a missing
/// child index or a non-import node leaves the tree unchanged (`!ok`).
pub open spec fn rewritten_at(
    e: Expr,
    path: Seq<usize>,
    i: int,
    pm: PatternMapping,
    r: Expr,
    ok: bool,
) -> bool
    decreases path.len() - i,
{
    if i < 0 || i >= path.len() {
        if e matches Expr::ImportCall(_) {
            ok && is_import_rewrite(import_args(e), pm, r)
        } else {
            !ok && r == e
        }
    } else {
        let idx = path[i] as int;
        match e {
            Expr::Member(obj, prop) => if idx == 0 {
                &&& r matches Expr::Member(obj2, prop2)
                &&& prop2 == prop
                &&& rewritten_at(*obj, path, i + 1, pm, *obj2, ok)
            } else {
                !ok && r == e
            },
            Expr::Call(callee, arg) => if idx == 0 {
                &&& r matches Expr::Call(callee2, arg2)
                &&& arg2 == arg
                &&& rewritten_at(*callee, path, i + 1, pm, *callee2, ok)
            } else if idx == 1 {
                &&& r matches Expr::Call(callee2, arg2)
                &&& callee2 == callee
                &&& rewritten_at(*arg, path, i + 1, pm, *arg2, ok)
            } else {
                !ok && r == e
            },
            Expr::New(ctor, arg) => if idx == 0 {
                &&& r matches Expr::New(ctor2, arg2)
                &&& arg2 == arg
                &&& rewritten_at(*ctor, path, i + 1, pm, *ctor2, ok)
            } else if idx == 1 {
                &&& r matches Expr::New(ctor2, arg2)
                &&& ctor2 == ctor
                &&& rewritten_at(*arg, path, i + 1, pm, *arg2, ok)
            } else {
                !ok && r == e
            },
            Expr::Concat(a, b) => if idx == 0 {
                &&& r matches Expr::Concat(a2, b2)
                &&& b2 == b
                &&& rewritten_at(*a, path, i + 1, pm, *a2, ok)
            } else if idx == 1 {
                &&& r matches Expr::Concat(a2, b2)
                &&& a2 == a
                &&& rewritten_at(*b, path, i + 1, pm, *b2, ok)
            } else {
                !ok && r == e
            },
            Expr::ImportCall(args) => if 0 <= idx < args@.len() {
                &&& r matches Expr::ImportCall(args2)
                &&& args2@.len() == args@.len()
                &&& (forall|j: int| 0 <= j < args@.len() && j != idx ==> args2@[j] == args@[j])
                &&& args2@[idx].spread == args@[idx].spread
                &&& rewritten_at(args@[idx].expr, path, i + 1, pm, args2@[idx].expr, ok)
            } else {
                !ok && r == e
            },
            _ => !ok && r == e,
        }
    }
}

/// Apply the rewrite dictated by `pm` to the node of `e` at `path[i..]`,
/// returning the new tree and whether a dynamic import call stood at that
/// coordinate. Everything off the path is kept as it was.
pub fn rewrite_at(e: Expr, path: &AstPath, i: usize, pm: &PatternMapping) -> (res: (Expr, bool))
    requires
        i <= path@.len(),
    ensures
        rewritten_at(e, path@, i as int, *pm, res.0, res.1),
    decreases path@.len() - i,
{
    if i == path.len() {
        match e {
            Expr::ImportCall(args) => (rewrite_dynamic_import(Expr::ImportCall(args), pm), true),
            other => (other, false),
        }
    } else {
        let idx = path[i];
        match e {
            Expr::Member(obj, prop) => {
                if idx == 0 {
                    let (obj2, ok) = rewrite_at(*obj, path, i + 1, pm);
                    (Expr::Member(Box::new(obj2), prop), ok)
                } else {
                    (Expr::Member(obj, prop), false)
                }
            },
            Expr::Call(callee, arg) => {
                if idx == 0 {
                    let (callee2, ok) = rewrite_at(*callee, path, i + 1, pm);
                    (Expr::Call(Box::new(callee2), arg), ok)
                } else if idx == 1 {
                    let (arg2, ok) = rewrite_at(*arg, path, i + 1, pm);
                    (Expr::Call(callee, Box::new(arg2)), ok)
                } else {
                    (Expr::Call(callee, arg), false)
                }
            },
            Expr::New(ctor, arg) => {
                if idx == 0 {
                    let (ctor2, ok) = rewrite_at(*ctor, path, i + 1, pm);
                    (Expr::New(Box::new(ctor2), arg), ok)
                } else if idx == 1 {
                    let (arg2, ok) = rewrite_at(*arg, path, i + 1, pm);
                    (Expr::New(ctor, Box::new(arg2)), ok)
                } else {
                    (Expr::New(ctor, arg), false)
                }
            },
            Expr::Concat(a, b) => {
                if idx == 0 {
                    let (a2, ok) = rewrite_at(*a, path, i + 1, pm);
                    (Expr::Concat(Box::new(a2), b), ok)
                } else if idx == 1 {
                    let (b2, ok) = rewrite_at(*b, path, i + 1, pm);
                    (Expr::Concat(a, Box::new(b2)), ok)
                } else {
                    (Expr::Concat(a, b), false)
                }
            },
            Expr::ImportCall(args) => {
                let mut args = args;
                if idx < args.len() {
                    let ghost before = args@;
                    let first = args.remove(idx);
                    let (expr2, ok) = rewrite_at(first.expr, path, i + 1, pm);
                    args.insert(idx, ExprOrSpread { spread: first.spread, expr: expr2 });
                    proof {
                        assert forall|j: int|
                            0 <= j < before.len() && j != idx as int implies args@[j] == before[j]
                        by {
                            if j < idx as int {
                                assert(before.remove(idx as int)[j] == before[j]);
                            } else {
                                assert(before.remove(idx as int)[j - 1] == before[j]);
                            }
                        }
                        assert(args@.len() == before.len());
                    }
                    (Expr::ImportCall(args), ok)
                } else {
                    (Expr::ImportCall(args), false)
                }
            },
            other => (other, false),
        }
    }
}

/// How a tree `r` relates to `e` after applying, in order, each visitor of
/// `vs[i..]`: a chain of single-coordinate rewrites.
pub open spec fn rewritten_chain(
    e: Expr,
    vs: Seq<(AstPath, PatternMapping)>,
    i: int,
    r: Expr,
) -> bool
    decreases vs.len() - i,
{
    if i < 0 || i >= vs.len() {
        r == e
    } else {
        exists|mid: Expr, ok: bool|
            #![all_triggers]
            rewritten_at(e, vs[i].0@, 0, vs[i].1, mid, ok) && rewritten_chain(mid, vs, i + 1, r)
    }
}

/// Extending a chain by one more applied visitor.
proof fn lemma_chain_snoc(
    e: Expr,
    vs: Seq<(AstPath, PatternMapping)>,
    i: int,
    m: Expr,
    v: (AstPath, PatternMapping),
    m2: Expr,
    ok: bool,
)
    requires
        0 <= i <= vs.len(),
        rewritten_chain(e, vs, i, m),
        rewritten_at(m, v.0@, 0, v.1, m2, ok),
    ensures
        rewritten_chain(e, vs.push(v), i, m2),
    decreases vs.len() - i,
{
    if i == vs.len() {
        assert(vs.push(v)[i] == v);
        assert(rewritten_chain(m2, vs.push(v), i + 1, m2));
    } else {
        let (mid, ok0): (Expr, bool) = choose|mid: Expr, ok0: bool|
            #![all_triggers]
            rewritten_at(e, vs[i].0@, 0, vs[i].1, mid, ok0) && rewritten_chain(mid, vs, i + 1, m);
        lemma_chain_snoc(mid, vs, i + 1, m, v, m2, ok);
        assert(vs.push(v)[i] == vs[i]);
    }
}

/// Apply every visitor of a code-generation result to the tree, in order.
/// Each visitor mutates only the node at its own coordinate, against the same
/// tree snapshot the coordinates were computed for.
pub fn apply_code_generation(ast: Expr, code_gen: &CodeGeneration) -> (r: Expr)
    ensures
        rewritten_chain(ast, code_gen.visitors@, 0, r),
{
    let ghost orig = ast;
    let mut current = ast;
    let mut i: usize = 0;
    while i < code_gen.visitors.len()
        invariant
            0 <= i <= code_gen.visitors@.len(),
            rewritten_chain(orig, code_gen.visitors@.take(i as int), 0, current),
        decreases code_gen.visitors@.len() - i,
    {
        let (path, pm) = &code_gen.visitors[i];
        let (next, ok) = rewrite_at(current, path, 0, pm);
        proof {
            lemma_chain_snoc(
                orig,
                code_gen.visitors@.take(i as int),
                0,
                current,
                code_gen.visitors@[i as int],
                next,
                ok,
            );
            assert(code_gen.visitors@.take(i + 1) =~= code_gen.visitors@.take(i as int).push(
                code_gen.visitors@[i as int],
            ));
        }
        current = next;
        i = i + 1;
    }
    proof {
        assert(code_gen.visitors@.take(code_gen.visitors@.len() as int) =~= code_gen.visitors@);
    }
    current
}

impl EsmAsyncAssetReference {
    pub fn new(context: u64, request: Request, path: AstPath) -> (r: EsmAsyncAssetReference)
        ensures
            r.context == context,
            r.request == request,
            r.path == path,
    {
        EsmAsyncAssetReference { context, request, path }
    }

    /// Resolve this reference: a pure function of the stored request and
    /// context (and the resolver's fixed rules), memoized by the resolver.
    pub fn resolve_reference(&self, resolver: &mut Resolver) -> (r: ResolveResult)
        requires
            old(resolver).wf(),
        ensures
            final(resolver).wf(),
            resolve_post(*old(resolver), self.request.text@, self.context, *final(resolver), r),
    {
        resolver.esm_resolve(&self.request, self.context)
    }

    /// A human-readable identification for diagnostics; it carries no graph
    /// semantics.
    pub fn description(&self) -> (r: String)
        ensures
            r@ == "dynamic import "@ + self.request.text@,
    {
        let mut s = String::from_str("dynamic import ");
        s.append(self.request.text.as_str());
        s
    }

    /// The chunking policy may place a dynamically imported target in its own
    /// delivery unit.
    pub fn is_chunkable(&self) -> (r: bool)
        ensures
            r,
    {
        true
    }

    /// Reaching a dynamically imported target requires a runtime
    /// asynchronous load.
    pub fn is_loaded_async(&self) -> (r: bool)
        ensures
            r,
    {
        true
    }

    /// The code-generation step: resolve the stored request (memoized),
    /// combine the outcome with the chunking context's placement into a
    /// pattern mapping, and emit one visitor that rewrites the call
    /// expression at this reference's recorded coordinate.
    pub fn code_generation(
        &self,
        chunk_context: &ChunkingContext,
        resolver: &mut Resolver,
    ) -> (r: CodeGeneration)
        requires
            old(resolver).wf(),
        ensures
            final(resolver).wf(),
            final(resolver).rules_seq() == old(resolver).rules_seq(),
            r.visitors@.len() == 1,
            r.visitors@[0].0@ == self.path@,
            r.visitors@[0].1@ == resolve_request_spec(
                chunk_context.module_ids@,
                resolve_spec(old(resolver).rules_seq(), self.request.text@, self.context),
                ResolveType::EsmAsync,
            ),
    {
        let resolved = resolver.esm_resolve(&self.request, self.context);
        let pm = PatternMapping::resolve_request(chunk_context, &resolved, ResolveType::EsmAsync);
        let mut visitors: Vec<(AstPath, PatternMapping)> = Vec::new();
        visitors.push((self.path.clone(), pm));
        CodeGeneration { visitors }
    }
}

} // verus!
