//! The canonical "empty" source map: a map with no sources and a single
//! mapping whose fields are all zero. A sectioned source map uses it to end
//! the previous section's attribution, never to convey a real position. The
//! map object itself comes from the `sourcemap` crate.

use vstd::prelude::*;

verus! {

#[verifier::external_type_specification]
#[verifier::external_body]
pub struct ExSourceMapBuilder(sourcemap::SourceMapBuilder);

#[verifier::external_type_specification]
#[verifier::external_body]
pub struct ExSourceMap(sourcemap::SourceMap);

/// The mappings a builder holds so far, each as its generated-file line and
/// column followed by its source line and column.
pub uninterp spec fn builder_tokens(b: sourcemap::SourceMapBuilder) -> Seq<(u32, u32, u32, u32)>;

/// How many sources the builder has registered so far.
pub uninterp spec fn builder_source_count(b: sourcemap::SourceMapBuilder) -> nat;

/// The mappings a finished source map holds, each as its generated-file line
/// and column followed by its source line and column.
pub uninterp spec fn map_tokens(m: sourcemap::SourceMap) -> Seq<(u32, u32, u32, u32)>;

/// How many sources a finished source map names.
pub uninterp spec fn map_source_count(m: sourcemap::SourceMap) -> nat;

/// Relies on sourcemap::SourceMapBuilder::new: a fresh builder holds no
/// mappings and no sources.
#[verifier::external_body]
fn map_builder_new(file: Option<&str>) -> (b: sourcemap::SourceMapBuilder)
    ensures
        builder_tokens(b) == Seq::<(u32, u32, u32, u32)>::empty(),
        builder_source_count(b) == 0,
{
    sourcemap::SourceMapBuilder::new(file)
}

/// Relies on sourcemap::SourceMapBuilder::add: appends exactly one mapping
/// with the given positions; with no source given, the registered sources are
/// untouched.
#[verifier::external_body]
fn map_builder_add(
    b: &mut sourcemap::SourceMapBuilder,
    dst_line: u32,
    dst_col: u32,
    src_line: u32,
    src_col: u32,
    source: Option<&str>,
    name: Option<&str>,
    is_range: bool,
)
    ensures
        builder_tokens(*final(b)) == builder_tokens(*old(b)).push(
            (dst_line, dst_col, src_line, src_col),
        ),
        source is None ==> builder_source_count(*final(b)) == builder_source_count(*old(b)),
{
    b.add(dst_line, dst_col, src_line, src_col, source, name, is_range);
}

/// Relies on sourcemap::SourceMapBuilder::into_sourcemap (and
/// sourcemap::SourceMap::new, which it calls): the finished map holds exactly
/// the builder's mappings, sorted by generated position — so a builder with
/// at most one mapping carries over unchanged — and exactly its sources.
#[verifier::external_body]
fn map_builder_build(b: sourcemap::SourceMapBuilder) -> (m: sourcemap::SourceMap)
    ensures
        map_tokens(m).to_multiset() == builder_tokens(b).to_multiset(),
        builder_tokens(b).len() <= 1 ==> map_tokens(m) == builder_tokens(b),
        map_source_count(m) == builder_source_count(b),
{
    b.into_sourcemap()
}

/// A source map that contains no actual source location information: no
/// sources, and one degenerate all-zero mapping. Attached where a synthetic
/// section begins, it tells a consumer that the preceding original section's
/// attribution has ended, so synthetic bytes are not blamed on the previous
/// original file.
pub fn empty_map() -> (m: sourcemap::SourceMap)
    ensures
        map_tokens(m) == seq![(0u32, 0u32, 0u32, 0u32)],
        map_source_count(m) == 0,
{
    let mut builder = map_builder_new(None);
    map_builder_add(&mut builder, 0, 0, 0, 0, None, None, false);
    let m = map_builder_build(builder);
    proof {
        assert(map_tokens(m) =~= seq![(0u32, 0u32, 0u32, 0u32)]);
    }
    m
}

} // verus!
