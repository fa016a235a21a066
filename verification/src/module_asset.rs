//! The asset side of the dependency graph: an asset has an immutable path,
//! content bytes, and a set of outgoing references; resolving each reference
//! (memoized) yields the modules the asset depends on.

use vstd::prelude::*;

use crate::dynamic::EsmAsyncAssetReference;
use crate::resolve::{resolve_spec, ResolutionEntry, ResolveOutcome, Resolver};

verus! {

/// The identity and content of a source asset: the leaf the module wraps.
pub struct AssetRef {
    pub path: String,
    pub content: Vec<u8>,
}

/// An asset that wraps a source module: it shares the source's identity and
/// content, and contributes the references found in the source.
pub struct ModuleAsset {
    pub source: AssetRef,
}

/// The set of assets an asset's references resolve to.
pub struct AssetsSet {
    pub assets: Vec<u64>,
}

/// A shared handle to a module asset.
pub struct ModuleAssetRef {
    pub asset: ModuleAsset,
}

impl ModuleAssetRef {
    pub fn new(source: AssetRef) -> (r: ModuleAssetRef)
        ensures
            r.asset.source == source,
    {
        ModuleAssetRef { asset: ModuleAsset { source } }
    }
}

/// The modules that a list of references resolves to, in reference order:
/// each reference that resolves to one concrete module contributes that
/// module; every other outcome contributes no edge (and is not, by itself, a
/// build error).
pub open spec fn resolved_modules(
    rules: Seq<ResolutionEntry>,
    refs: Seq<EsmAsyncAssetReference>,
) -> Seq<u64>
    decreases refs.len(),
{
    if refs.len() == 0 {
        Seq::empty()
    } else {
        let rest = resolved_modules(rules, refs.drop_last());
        match resolve_spec(rules, refs.last().request.text@, refs.last().context) {
            ResolveOutcome::Module(m) => rest.push(m),
            _ => rest,
        }
    }
}

impl ModuleAsset {
    /// The asset's identity: the wrapped source's path.
    pub fn path(&self) -> (r: &String)
        ensures
            r@ == self.source.path@,
    {
        &self.source.path
    }

    /// The asset's content: the wrapped source's bytes.
    pub fn content(&self) -> (r: &Vec<u8>)
        ensures
            r@ == self.source.content@,
    {
        &self.source.content
    }

    /// Resolve every extracted reference of this asset (memoized, through the
    /// shared resolver) and collect each outcome that names one concrete
    /// module. The extraction of `refs` from the source is the concern of an
    /// external, language-specific extractor.
    pub fn references(
        &self,
        refs: &Vec<EsmAsyncAssetReference>,
        resolver: &mut Resolver,
    ) -> (r: AssetsSet)
        requires
            old(resolver).wf(),
        ensures
            final(resolver).wf(),
            final(resolver).rules_seq() == old(resolver).rules_seq(),
            r.assets@ == resolved_modules(old(resolver).rules_seq(), refs@),
    {
        let ghost rules = old(resolver).rules_seq();
        let mut assets: Vec<u64> = Vec::new();
        let mut i: usize = 0;
        while i < refs.len()
            invariant
                0 <= i <= refs@.len(),
                resolver.wf(),
                resolver.rules_seq() == rules,
                assets@ == resolved_modules(rules, refs@.take(i as int)),
            decreases refs@.len() - i,
        {
            let reference = &refs[i];
            let outcome = reference.resolve_reference(resolver);
            proof {
                assert(refs@.take(i + 1).drop_last() =~= refs@.take(i as int));
                assert(refs@.take(i + 1).last() == refs@[i as int]);
            }
            match outcome {
                crate::resolve::ResolveResult::Module(m) => {
                    assets.push(m);
                },
                _ => {},
            }
            i = i + 1;
        }
        proof {
            assert(refs@.take(refs@.len() as int) =~= refs@);
        }
        AssetsSet { assets }
    }
}

} // verus!
