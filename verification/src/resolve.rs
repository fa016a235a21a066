//! Resolution of import requests. The resolution rules themselves (relative
//! paths, package lookup, extensions) are the concern of an external
//! resolution subsystem; this core consumes them as a table of outcomes and
//! guarantees the memoization contract: resolving an identical
//! (request, context) pair twice returns the identical outcome, and the
//! underlying resolution work runs only once.

use vstd::prelude::*;

verus! {

/// A parsed import specifier: the input to resolution, cheaply comparable so
/// it can key the memoization table.
pub struct Request {
    pub text: String,
}

impl Request {
    pub fn new(text: String) -> (r: Request)
        ensures
            r.text == text,
    {
        Request { text }
    }
}

/// The outcome of resolving a request in a context, as contracts see it.
pub enum ResolveOutcome {
    /// Resolved to exactly one module, named by its asset id.
    Module(u64),
    /// Resolved to several candidate modules.
    Alternatives(Seq<u64>),
    /// Resolved to a target that stays outside the bundle, keeping its
    /// specifier.
    External(Seq<char>),
    /// Could not be resolved.
    Unresolvable,
}

/// The tagged outcome of resolving a request in a context. Immutable once
/// computed and memoized by (request, context).
pub enum ResolveResult {
    /// Resolved to exactly one module, named by its asset id.
    Module(u64),
    /// Resolved to several candidate modules.
    Alternatives(Vec<u64>),
    /// Resolved to a target that stays outside the bundle: the emitted code
    /// passes this specifier through.
    External(String),
    /// Could not be resolved; code generation turns this into a runtime
    /// error, not a build failure.
    Unresolvable,
}

impl View for ResolveResult {
    type V = ResolveOutcome;

    open spec fn view(&self) -> ResolveOutcome {
        match *self {
            ResolveResult::Module(id) => ResolveOutcome::Module(id),
            ResolveResult::Alternatives(ids) => ResolveOutcome::Alternatives(ids@),
            ResolveResult::External(s) => ResolveOutcome::External(s@),
            ResolveResult::Unresolvable => ResolveOutcome::Unresolvable,
        }
    }
}

impl ResolveResult {
    /// An observably identical copy of this outcome.
    pub fn duplicate(&self) -> (r: ResolveResult)
        ensures
            r@ == self@,
    {
        match self {
            ResolveResult::Module(id) => ResolveResult::Module(*id),
            ResolveResult::Alternatives(ids) => {
                let mut copy: Vec<u64> = Vec::new();
                let mut i: usize = 0;
                while i < ids.len()
                    invariant
                        0 <= i <= ids@.len(),
                        copy@ == ids@.take(i as int),
                    decreases ids@.len() - i,
                {
                    copy.push(ids[i]);
                    proof {
                        assert(ids@.take(i + 1) =~= ids@.take(i as int).push(ids@[i as int]));
                    }
                    i = i + 1;
                }
                proof {
                    assert(ids@.take(ids@.len() as int) =~= ids@);
                }
                ResolveResult::Alternatives(copy)
            },
            ResolveResult::External(s) => ResolveResult::External(s.clone()),
            ResolveResult::Unresolvable => ResolveResult::Unresolvable,
        }
    }
}

/// One line of the resolution table: in context `context`, the specifier
/// `request` resolves to `result`.
pub struct ResolutionEntry {
    pub request: String,
    pub context: u64,
    pub result: ResolveResult,
}

pub open spec fn entry_matches(e: ResolutionEntry, req: Seq<char>, ctx: u64) -> bool {
    e.request@ == req && e.context == ctx
}

/// First-match lookup in a table of resolution entries.
pub open spec fn lookup(entries: Seq<ResolutionEntry>, req: Seq<char>, ctx: u64) -> Option<
    ResolveResult,
>
    decreases entries.len(),
{
    if entries.len() == 0 {
        None
    } else if entry_matches(entries[0], req, ctx) {
        Some(entries[0].result)
    } else {
        lookup(entries.drop_first(), req, ctx)
    }
}

/// What resolution answers for a (request, context) pair: the table's entry,
/// or unresolvable where the table has none. A pure function of the table, so
/// repeated resolution of an identical pair can never disagree.
pub open spec fn resolve_spec(rules: Seq<ResolutionEntry>, req: Seq<char>, ctx: u64) -> ResolveOutcome {
    match lookup(rules, req, ctx) {
        Some(r) => r@,
        None => ResolveOutcome::Unresolvable,
    }
}

/// Appending an entry to a table changes a lookup only where the table had no
/// match and the new entry has one.
pub proof fn lemma_lookup_snoc(entries: Seq<ResolutionEntry>, e: ResolutionEntry, req: Seq<char>, ctx: u64)
    ensures
        lookup(entries.push(e), req, ctx) == (if lookup(entries, req, ctx) is Some {
            lookup(entries, req, ctx)
        } else if entry_matches(e, req, ctx) {
            Some(e.result)
        } else {
            None::<ResolveResult>
        }),
    decreases entries.len(),
{
    if entries.len() == 0 {
        assert(entries.push(e)[0] == e);
        assert(entries.push(e).drop_first() =~= Seq::<ResolutionEntry>::empty());
        assert(lookup(Seq::<ResolutionEntry>::empty(), req, ctx) is None);
    } else {
        assert(entries.push(e)[0] == entries[0]);
        assert(entries.push(e).drop_first() =~= entries.drop_first().push(e));
        lemma_lookup_snoc(entries.drop_first(), e, req, ctx);
    }
}

/// A table containing a matching entry answers the lookup.
pub proof fn lemma_lookup_found(entries: Seq<ResolutionEntry>, i: int, req: Seq<char>, ctx: u64)
    requires
        0 <= i < entries.len(),
        entry_matches(entries[i], req, ctx),
    ensures
        lookup(entries, req, ctx) is Some,
    decreases entries.len(),
{
    if !entry_matches(entries[0], req, ctx) {
        lemma_lookup_found(entries.drop_first(), i - 1, req, ctx);
    }
}

/// The memoized resolver: a fixed table of resolution rules (what the
/// external resolution subsystem would answer), and a cache of the outcomes
/// computed so far. Each cache entry records one execution of the resolution
/// work.
pub struct Resolver {
    rules: Vec<ResolutionEntry>,
    cache: Vec<ResolutionEntry>,
}

impl Resolver {
    pub closed spec fn rules_seq(self) -> Seq<ResolutionEntry> {
        self.rules@
    }

    pub closed spec fn cache_seq(self) -> Seq<ResolutionEntry> {
        self.cache@
    }

    /// Every cached outcome agrees with what the rules answer: the cache can
    /// only repeat completed results, never invent or tear them.
    pub open spec fn wf(self) -> bool {
        forall|i: int|
            0 <= i < self.cache_seq().len() ==> (#[trigger] self.cache_seq()[i]).result@
                == resolve_spec(
                self.rules_seq(),
                self.cache_seq()[i].request@,
                self.cache_seq()[i].context,
            )
    }

    pub fn new(rules: Vec<ResolutionEntry>) -> (r: Resolver)
        ensures
            r.rules_seq() == rules@,
            r.cache_seq() == Seq::<ResolutionEntry>::empty(),
            r.wf(),
    {
        Resolver { rules, cache: Vec::new() }
    }

    /// How many resolutions have actually executed: every run of the
    /// resolution work appends exactly one cache entry, so the cache length
    /// counts the work done.
    pub fn resolutions_executed(&self) -> (r: usize)
        ensures
            r == self.cache_seq().len(),
    {
        self.cache.len()
    }

    /// Resolve `request` in `context`: return the cached outcome if this pair
    /// was resolved before, otherwise run the resolution work once and cache
    /// its outcome (an unresolvable outcome is memoized like any other).
    pub fn esm_resolve(&mut self, request: &Request, context: u64) -> (r: ResolveResult)
        requires
            old(self).wf(),
        ensures
            final(self).wf(),
            resolve_post(*old(self), request.text@, context, *final(self), r),
    {
        let ghost req = request.text@;
        // A cache hit returns the completed result; no resolution work runs.
        let mut i: usize = 0;
        while i < self.cache.len()
            invariant
                self == old(self),
                old(self).wf(),
                req == request.text@,
                lookup(self.cache_seq().take(i as int), req, context) is None,
                0 <= i <= self.cache_seq().len(),
            decreases self.cache_seq().len() - i,
        {
            let entry = &self.cache[i];
            if entry.request == request.text && entry.context == context {
                proof {
                    lemma_lookup_found(self.cache_seq(), i as int, req, context);
                }
                return entry.result.duplicate();
            }
            proof {
                assert(self.cache_seq().take(i + 1) =~= self.cache_seq().take(i as int).push(
                    self.cache_seq()[i as int],
                ));
                lemma_lookup_snoc(self.cache_seq().take(i as int), self.cache_seq()[i as int], req, context);
            }
            i = i + 1;
        }
        proof {
            assert(self.cache_seq().take(self.cache_seq().len() as int) =~= self.cache_seq());
        }
        // Not cached: run the resolution work, once.
        let computed = self.run_resolution(request, context);
        let result = computed.duplicate();
        let entry = ResolutionEntry { request: request.text.clone(), context, result: computed };
        proof {
            lemma_lookup_snoc(self.cache_seq(), entry, req, context);
        }
        let ghost pre_cache = self.cache_seq();
        self.cache.push(entry);
        proof {
            assert(self.cache_seq().take(pre_cache.len() as int) =~= pre_cache);
            assert forall|k: int| 0 <= k < self.cache_seq().len() implies (
            #[trigger] self.cache_seq()[k]).result@ == resolve_spec(
                self.rules_seq(),
                self.cache_seq()[k].request@,
                self.cache_seq()[k].context,
            ) by {
                if k < pre_cache.len() {
                    assert(self.cache_seq()[k] == pre_cache[k]);
                }
            }
        }
        result
    }

    /// The resolution work itself: consult the rules table.
    fn run_resolution(&self, request: &Request, context: u64) -> (r: ResolveResult)
        ensures
            r@ == resolve_spec(self.rules_seq(), request.text@, context),
    {
        let ghost req = request.text@;
        let mut i: usize = 0;
        while i < self.rules.len()
            invariant
                req == request.text@,
                lookup(self.rules_seq().take(i as int), req, context) is None,
                0 <= i <= self.rules_seq().len(),
            decreases self.rules_seq().len() - i,
        {
            let entry = &self.rules[i];
            if entry.request == request.text && entry.context == context {
                proof {
                    lemma_lookup_found(self.rules_seq(), i as int, req, context);
                    lemma_lookup_prefix_stable(self.rules_seq(), i as int, req, context);
                }
                return entry.result.duplicate();
            }
            proof {
                assert(self.rules_seq().take(i + 1) =~= self.rules_seq().take(i as int).push(
                    self.rules_seq()[i as int],
                ));
                lemma_lookup_snoc(self.rules_seq().take(i as int), self.rules_seq()[i as int], req, context);
            }
            i = i + 1;
        }
        proof {
            assert(self.rules_seq().take(self.rules_seq().len() as int) =~= self.rules_seq());
        }
        ResolveResult::Unresolvable
    }
}

/// In a first-match table, the match at the first matching index is the
/// lookup's answer.
proof fn lemma_lookup_prefix_stable(entries: Seq<ResolutionEntry>, i: int, req: Seq<char>, ctx: u64)
    requires
        0 <= i < entries.len(),
        entry_matches(entries[i], req, ctx),
        lookup(entries.take(i), req, ctx) is None,
    ensures
        lookup(entries, req, ctx) == Some(entries[i].result),
    decreases entries.len(),
{
    if i == 0 {
    } else {
        assert(entries.take(i).drop_first() =~= entries.drop_first().take(i - 1));
        assert(entry_matches(entries.take(i)[0], req, ctx) == entry_matches(entries[0], req, ctx));
        lemma_lookup_prefix_stable(entries.drop_first(), i - 1, req, ctx);
    }
}

/// How one `esm_resolve` call relates the resolver's state before and after,
/// and its returned outcome: the outcome is what the rules answer; the rules
/// never change; a cached pair leaves the cache untouched (no work ran),
/// while a new pair appends exactly one completed entry.
pub open spec fn resolve_post(
    pre: Resolver,
    req: Seq<char>,
    ctx: u64,
    post: Resolver,
    r: ResolveResult,
) -> bool {
    &&& r@ == resolve_spec(pre.rules_seq(), req, ctx)
    &&& post.rules_seq() == pre.rules_seq()
    &&& match lookup(pre.cache_seq(), req, ctx) {
        Some(_) => post.cache_seq() == pre.cache_seq(),
        None => {
            &&& post.cache_seq().len() == pre.cache_seq().len() + 1
            &&& post.cache_seq().take(pre.cache_seq().len() as int) == pre.cache_seq()
            &&& entry_matches(post.cache_seq().last(), req, ctx)
        },
    }
}

/// Law: resolving the identical (request, context) pair twice against one
/// resolver returns observably identical outcomes, and the second call does
/// no new resolution work: it leaves the cache exactly as the first call left
/// it.
pub proof fn lemma_resolution_memoized(
    s0: Resolver,
    s1: Resolver,
    s2: Resolver,
    req: Seq<char>,
    ctx: u64,
    r1: ResolveResult,
    r2: ResolveResult,
)
    requires
        resolve_post(s0, req, ctx, s1, r1),
        resolve_post(s1, req, ctx, s2, r2),
    ensures
        r1@ == r2@,
        s2.cache_seq() == s1.cache_seq(),
{
    match lookup(s0.cache_seq(), req, ctx) {
        Some(_) => {},
        None => {
            let e = s1.cache_seq().last();
            assert(s1.cache_seq() =~= s0.cache_seq().push(e));
            lemma_lookup_snoc(s0.cache_seq(), e, req, ctx);
            assert(lookup(s1.cache_seq(), req, ctx) is Some);
        },
    }
}

} // verus!
