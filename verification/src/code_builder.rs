//! `Code` accumulates ordered byte fragments — original user code carrying an
//! optional source map, and synthetic bundler-generated glue — into one output
//! buffer, while recording the byte offsets at which source-map attribution
//! changes. Finalizing the buffer yields one source-map section per recorded
//! marker.

use vstd::prelude::*;

use crate::source_pos::{pos_after, pos_le, SourcePos};
use crate::source_pos::{lemma_pos_after_bounds, lemma_pos_after_concat, lemma_pos_prefix_monotone};

verus! {

/// An opaque handle that identifies a source map supplied by the caller for a
/// pushed original fragment. The builder only stores and reports it.
#[derive(Clone, Copy, PartialEq, Eq, Structural, Debug, Hash)]
pub struct SourceMapHandle {
    pub id: u64,
}

/// Combined output code plus a mapping of byte offsets in that code to the
/// source map (if any) that applies from that offset on. Invariant: marker
/// offsets strictly increase, the first marker always carries a map, and no
/// two adjacent markers both carry an absent map.
pub struct Code {
    code: Vec<u8>,
    /// A mapping of byte offset in the code to an associated source map; an
    /// absent map marks the start of a synthetic section.
    mappings: Vec<(usize, Option<SourceMapHandle>)>,
}

/// Marker offsets strictly increase: every section starts after the one
/// before it.
pub open spec fn markers_sorted(m: Seq<(usize, Option<SourceMapHandle>)>) -> bool {
    forall|i: int, j: int| 0 <= i < j < m.len() ==> (#[trigger] m[i]).0 < (#[trigger] m[j]).0
}

/// No two adjacent markers both carry an absent map: a redundant "still
/// synthetic" marker is never kept.
pub open spec fn markers_no_adjacent_absent(m: Seq<(usize, Option<SourceMapHandle>)>) -> bool {
    forall|i: int| 0 <= i + 1 < m.len() ==> !((#[trigger] m[i]).1 is None && m[i + 1].1 is None)
}

/// The first marker always carries a map: there is nothing to end before any
/// original section has begun.
pub open spec fn markers_first_mapped(m: Seq<(usize, Option<SourceMapHandle>)>) -> bool {
    m.len() > 0 ==> m[0].1 is Some
}

/// Every marker offset is at most `bound`.
pub open spec fn markers_below(m: Seq<(usize, Option<SourceMapHandle>)>, bound: int) -> bool {
    forall|i: int| 0 <= i < m.len() ==> (#[trigger] m[i]).0 <= bound
}

/// What recording a marker at `offset` (the current end of the buffer) does.
/// An absent map directly after an absent map (or before any marker at all)
/// is suppressed: it would end a section that is already ended. A marker that
/// already stands at `offset` opened a zero-length section, so the new marker
/// replaces it rather than joining it — offsets strictly increase; replacing
/// a lone (or synthetic-preceded) marker with an absent one just removes it.
pub open spec fn push_map_spec(
    markers: Seq<(usize, Option<SourceMapHandle>)>,
    offset: usize,
    map: Option<SourceMapHandle>,
) -> Seq<(usize, Option<SourceMapHandle>)> {
    if map is None && (markers.len() == 0 || markers.last().1 is None) {
        markers
    } else if markers.len() > 0 && markers.last().0 == offset {
        if map is Some {
            markers.drop_last().push((offset, map))
        } else if markers.len() == 1 || markers[markers.len() - 2].1 is None {
            markers.drop_last()
        } else {
            markers.drop_last().push((offset, None))
        }
    } else {
        markers.push((offset, map))
    }
}

/// One section of a sectioned source map: from `offset` on, attribution
/// follows `map`; an absent map means the canonical empty map, which only
/// tells a consumer that the previous section's attribution has ended.
#[derive(Clone, Copy, PartialEq, Eq, Structural, Debug)]
pub struct SourceMapSection {
    pub offset: SourcePos,
    pub map: Option<SourceMapHandle>,
}

/// A source map in the sectioned ("sections") form: one sub-map per recorded
/// marker, each applying from its offset to the next section's offset.
pub struct SectionedSourceMap {
    pub sections: Vec<SourceMapSection>,
}

/// Recording a marker keeps a marker list well formed, provided every
/// existing offset is at most the new one; every offset stays at most the new
/// one.
pub proof fn lemma_push_map_spec_wf(
    m: Seq<(usize, Option<SourceMapHandle>)>,
    offset: usize,
    map: Option<SourceMapHandle>,
)
    requires
        markers_sorted(m),
        markers_no_adjacent_absent(m),
        markers_first_mapped(m),
        markers_below(m, offset as int),
    ensures
        markers_sorted(push_map_spec(m, offset, map)),
        markers_no_adjacent_absent(push_map_spec(m, offset, map)),
        markers_first_mapped(push_map_spec(m, offset, map)),
        markers_below(push_map_spec(m, offset, map), offset as int),
{
    let r = push_map_spec(m, offset, map);
    if map is None && (m.len() == 0 || m.last().1 is None) {
    } else if m.len() > 0 && m.last().0 == offset {
        // The last marker is replaced or removed; earlier markers keep their
        // indices, so every pairwise property only needs the new last pair.
        assert(forall|i: int| 0 <= i < m.len() - 1 ==> (#[trigger] m[i]).0 < offset);
    } else {
        // A plain append: the new offset strictly exceeds every old one.
        assert forall|i: int| 0 <= i < m.len() implies (#[trigger] m[i]).0 < offset by {
            if i < m.len() - 1 {
                assert(m[i].0 < m[m.len() - 1].0);
            }
        }
    }
}

impl Code {
    /// The bytes accumulated so far.
    pub closed spec fn byte_seq(self) -> Seq<u8> {
        self.code@
    }

    /// The recorded markers: byte offsets paired with the map, if any, that
    /// applies from that offset.
    pub closed spec fn markers(self) -> Seq<(usize, Option<SourceMapHandle>)> {
        self.mappings@
    }

    /// The builder's invariant, established at construction and preserved by
    /// every push: marker offsets strictly increase and never point past the
    /// buffer, the first marker carries a map, and no two adjacent markers
    /// both carry an absent map.
    pub open spec fn wf(self) -> bool {
        &&& markers_sorted(self.markers())
        &&& markers_no_adjacent_absent(self.markers())
        &&& markers_first_mapped(self.markers())
        &&& markers_below(self.markers(), self.byte_seq().len() as int)
    }

    /// An empty builder: no bytes, no markers.
    pub fn new() -> (r: Code)
        ensures
            r.byte_seq() == Seq::<u8>::empty(),
            r.markers() == Seq::<(usize, Option<SourceMapHandle>)>::empty(),
            r.wf(),
    {
        Code { code: Vec::new(), mappings: Vec::new() }
    }

    /// The accumulated output code.
    pub fn source_code(&self) -> (r: &Vec<u8>)
        ensures
            r@ == self.byte_seq(),
    {
        &self.code
    }

    /// The recorded markers, in recording order.
    pub fn mappings(&self) -> (r: &Vec<(usize, Option<SourceMapHandle>)>)
        ensures
            r@ == self.markers(),
    {
        &self.mappings
    }

    /// Record a marker at the current end of the buffer, with the suppression
    /// and replacement rules of `push_map_spec`.
    fn push_map(&mut self, map: Option<SourceMapHandle>)
        requires
            old(self).wf(),
        ensures
            final(self).wf(),
            final(self).byte_seq() == old(self).byte_seq(),
            final(self).markers() == push_map_spec(
                old(self).markers(),
                old(self).byte_seq().len() as usize,
                map,
            ),
    {
        let n = self.mappings.len();
        if map.is_none() && (n == 0 || self.mappings[n - 1].1.is_none()) {
            // No reason to record an empty map directly after an empty map.
            return ;
        }
        let offset = self.code.len();
        proof {
            lemma_push_map_spec_wf(self.mappings@, offset, map);
        }
        if n > 0 && self.mappings[n - 1].0 == offset {
            // A marker already stands at the current offset: the section it
            // opened is empty, so the new marker replaces it.
            if map.is_some() {
                self.mappings.pop();
                self.mappings.push((offset, map));
            } else if n == 1 || self.mappings[n - 2].1.is_none() {
                // Nothing (or an already-synthetic section) stood before the
                // empty section: removing its marker restores that state.
                self.mappings.pop();
            } else {
                self.mappings.pop();
                self.mappings.push((offset, None));
            }
        } else {
            self.mappings.push((offset, map));
        }
    }

    /// Append synthetic runtime code with no source-map attribution, first
    /// ending any open original section.
    pub fn push_bytes(&mut self, code: Vec<u8>)
        requires
            old(self).wf(),
        ensures
            final(self).wf(),
            final(self).byte_seq() == old(self).byte_seq() + code@,
            final(self).markers() == push_map_spec(
                old(self).markers(),
                old(self).byte_seq().len() as usize,
                None,
            ),
    {
        let mut code = code;
        self.push_map(None);
        self.code.append(&mut code);
    }

    /// Append original user code with an optional source map. Without a map
    /// this is no different from pushing synthetic code.
    pub fn push_source(&mut self, code: &Vec<u8>, map: Option<SourceMapHandle>)
        requires
            old(self).wf(),
        ensures
            final(self).wf(),
            final(self).byte_seq() == old(self).byte_seq() + code@,
            final(self).markers() == push_map_spec(
                old(self).markers(),
                old(self).byte_seq().len() as usize,
                map,
            ),
    {
        self.push_map(map);
        self.code.extend_from_slice(code.as_slice());
        proof {
            assert(final(self).byte_seq() =~= old(self).byte_seq() + code@);
        }
    }

    /// The markers of `prebuilt` as they read once spliced onto a buffer of
    /// length `len`: every offset is shifted by `len`.
    pub open spec fn shifted_markers(
        markers: Seq<(usize, Option<SourceMapHandle>)>,
        len: usize,
    ) -> Seq<(usize, Option<SourceMapHandle>)> {
        markers.map_values(|m: (usize, Option<SourceMapHandle>)| ((m.0 + len) as usize, m.1))
    }

    /// What splicing a prebuilt `Code` records: if the prebuilt code begins
    /// with bytes before its first marker (or has no markers at all), it
    /// starts synthetic, so any open section is first ended with an absent
    /// map. The prebuilt's first marker is then recorded under the marker
    /// rules — it replaces a marker already standing at the same offset —
    /// and the remaining prebuilt markers follow, offset-shifted.
    pub open spec fn push_code_spec(
        markers: Seq<(usize, Option<SourceMapHandle>)>,
        len: usize,
        prebuilt: Seq<(usize, Option<SourceMapHandle>)>,
    ) -> Seq<(usize, Option<SourceMapHandle>)> {
        if prebuilt.len() == 0 {
            push_map_spec(markers, len, None)
        } else {
            let closed = if prebuilt[0].0 > 0 {
                push_map_spec(markers, len, None)
            } else {
                markers
            };
            let with_first = push_map_spec(closed, (prebuilt[0].0 + len) as usize, prebuilt[0].1);
            with_first + Self::shifted_markers(prebuilt.skip(1), len)
        }
    }

    /// Splice a whole previously built `Code` into this one: bytes are
    /// concatenated, and the prebuilt markers carry over at shifted offsets.
    pub fn push_code(&mut self, prebuilt: &Code)
        requires
            old(self).wf(),
            prebuilt.wf(),
            old(self).byte_seq().len() + prebuilt.byte_seq().len() <= usize::MAX,
        ensures
            final(self).wf(),
            final(self).byte_seq() == old(self).byte_seq() + prebuilt.byte_seq(),
            final(self).markers() == Self::push_code_spec(
                old(self).markers(),
                old(self).byte_seq().len() as usize,
                prebuilt.markers(),
            ),
    {
        let ghost pre = *self;
        if prebuilt.mappings.len() > 0 {
            let len = self.code.len();
            let (first_offset, first_map) = prebuilt.mappings[0];
            if first_offset > 0 {
                // The prebuilt code starts with a synthetic section: end the
                // section currently open in `self`. The first prebuilt marker
                // then lands strictly beyond every recorded offset.
                self.push_map(None);
                proof {
                    let closed = self.mappings@;
                    assert(closed.len() > 0 ==> closed.last().0 <= len);
                    assert(prebuilt.markers()[0].1 is Some);
                    assert(push_map_spec(closed, (first_offset + len) as usize, first_map)
                        == closed.push((((first_offset + len) as usize), first_map)));
                }
                self.mappings.push((first_offset + len, first_map));
            } else {
                // The first prebuilt marker lands exactly at the current end:
                // record it under the marker rules, replacing a marker that
                // already stands there.
                self.push_map(first_map);
            }
            let ghost base = self.mappings@;
            let mut i: usize = 1;
            while i < prebuilt.mappings.len()
                invariant
                    1 <= i <= prebuilt.markers().len(),
                    len + prebuilt.byte_seq().len() <= usize::MAX,
                    prebuilt.wf(),
                    self.code@ == pre.byte_seq(),
                    self.mappings@ == base + Self::shifted_markers(
                        prebuilt.markers().subrange(1, i as int),
                        len,
                    ),
                decreases prebuilt.markers().len() - i,
            {
                let (offset, map) = prebuilt.mappings[i];
                self.mappings.push((offset + len, map));
                proof {
                    assert(prebuilt.markers().subrange(1, i + 1).drop_last() =~= prebuilt.markers()
                        .subrange(1, i as int));
                    assert(Self::shifted_markers(prebuilt.markers().subrange(1, i + 1), len)
                        =~= Self::shifted_markers(prebuilt.markers().subrange(1, i as int), len)
                        .push(((offset + len) as usize, map)));
                }
                i = i + 1;
            }
            proof {
                assert(prebuilt.markers().subrange(1, prebuilt.markers().len() as int)
                    =~= prebuilt.markers().skip(1));
            }
        } else {
            self.push_map(None);
        }
        self.code.extend_from_slice(prebuilt.code.as_slice());
        proof {
            assert(final(self).byte_seq() =~= pre.byte_seq() + prebuilt.byte_seq());
            lemma_push_code_wf(pre, *prebuilt, *self);
        }
    }

    /// True iff any marker has been recorded — that is, iff some call either
    /// supplied a map or ended an open original section.
    pub fn has_source_map(&self) -> (r: bool)
        ensures
            r == (self.markers().len() > 0),
    {
        self.mappings.len() > 0
    }

    /// The line/column position that marker `i` of `c` maps to: the position
    /// reached after reading the buffer up to the marker's byte offset.
    pub open spec fn marker_pos(c: Code, i: int) -> (int, int) {
        pos_after(0, 0, c.byte_seq().take(c.markers()[i].0 as int))
    }

    /// Generate the sectioned source map: exactly one section per recorded
    /// marker, at the line/column position of the marker's byte offset,
    /// carrying the marker's map (or none, standing for the canonical empty
    /// map).
    pub fn generate_source_map(&self) -> (r: SectionedSourceMap)
        requires
            self.wf(),
        ensures
            r.sections@.len() == self.markers().len(),
            forall|i: int|
                0 <= i < self.markers().len() ==> (#[trigger] r.sections@[i]).map
                    == self.markers()[i].1,
            forall|i: int|
                0 <= i < self.markers().len() ==> (#[trigger] r.sections@[i]).offset.as_pair()
                    == Self::marker_pos(*self, i),
    {
        let mut pos = SourcePos::new();
        let mut last_byte_pos: usize = 0;
        let mut sections: Vec<SourceMapSection> = Vec::new();
        let mut i: usize = 0;
        while i < self.mappings.len()
            invariant
                self.wf(),
                0 <= i <= self.markers().len(),
                sections@.len() == i,
                i > 0 ==> last_byte_pos == self.markers()[i - 1].0,
                i == 0 ==> last_byte_pos == 0,
                last_byte_pos <= self.byte_seq().len(),
                pos.as_pair() == pos_after(0, 0, self.byte_seq().take(last_byte_pos as int)),
                forall|j: int| 0 <= j < i ==> (#[trigger] sections@[j]).map == self.markers()[j].1,
                forall|j: int|
                    0 <= j < i ==> (#[trigger] sections@[j]).offset.as_pair() == Self::marker_pos(
                        *self,
                        j,
                    ),
            decreases self.markers().len() - i,
        {
            let (byte_pos, map) = self.mappings[i];
            proof {
                assert(self.markers()[i as int].0 <= self.byte_seq().len());
                lemma_pos_after_bounds(0, 0, self.byte_seq().take(last_byte_pos as int));
                assert(self.byte_seq().take(byte_pos as int) =~= self.byte_seq().take(
                    last_byte_pos as int,
                ) + self.byte_seq().subrange(last_byte_pos as int, byte_pos as int));
                lemma_pos_after_concat(
                    0,
                    0,
                    self.byte_seq().take(last_byte_pos as int),
                    self.byte_seq().subrange(last_byte_pos as int, byte_pos as int),
                );
            }
            let piece = vstd::slice::slice_subrange(self.code.as_slice(), last_byte_pos, byte_pos);
            pos.update(piece);
            last_byte_pos = byte_pos;
            sections.push(SourceMapSection { offset: pos, map });
            i = i + 1;
        }
        SectionedSourceMap { sections }
    }
}

impl Default for Code {
    /// The same empty builder that `new` yields.
    fn default() -> (r: Code)
        ensures
            r.byte_seq() == Seq::<u8>::empty(),
            r.markers() == Seq::<(usize, Option<SourceMapHandle>)>::empty(),
            r.wf(),
    {
        Code::new()
    }
}

/// Law: ending a section is idempotent — after one absent-map marker, a
/// second push without a map records nothing, at whatever offset it comes.
pub proof fn lemma_absent_marker_suppressed(
    markers: Seq<(usize, Option<SourceMapHandle>)>,
    first_offset: usize,
    second_offset: usize,
)
    ensures
        push_map_spec(push_map_spec(markers, first_offset, None), second_offset, None)
            == push_map_spec(markers, first_offset, None),
{
    let once = push_map_spec(markers, first_offset, None);
    assert(once.len() == 0 || once.last().1 is None);
}

/// One push operation, as recorded for reasoning about whole call sequences:
/// the bytes it appends and, for original code, the map it carries.
pub enum PushOp {
    Bytes(Seq<u8>),
    Source(Seq<u8>, Option<SourceMapHandle>),
}

pub open spec fn op_bytes(op: PushOp) -> Seq<u8> {
    match op {
        PushOp::Bytes(b) => b,
        PushOp::Source(b, _) => b,
    }
}

pub open spec fn op_map(op: PushOp) -> Option<SourceMapHandle> {
    match op {
        PushOp::Bytes(_) => None,
        PushOp::Source(_, m) => m,
    }
}

/// How one push relates the builder before and after: exactly what the
/// `ensures` of `push_bytes` and `push_source` state.
pub open spec fn push_post(pre: Code, op: PushOp, post: Code) -> bool {
    &&& post.byte_seq() == pre.byte_seq() + op_bytes(op)
    &&& post.markers() == push_map_spec(pre.markers(), pre.byte_seq().len() as usize, op_map(op))
}

/// The concatenation of the bytes that `ops[i..]` push, in call order.
pub open spec fn ops_bytes(ops: Seq<PushOp>, i: int) -> Seq<u8>
    decreases ops.len() - i,
{
    if i < 0 || i >= ops.len() {
        Seq::empty()
    } else {
        op_bytes(ops[i]) + ops_bytes(ops, i + 1)
    }
}

/// The builder states that performing `ops[i..]`, one after the other, leads
/// from `pre` to `post`.
pub open spec fn push_chain(pre: Code, ops: Seq<PushOp>, i: int, post: Code) -> bool
    decreases ops.len() - i,
{
    if i < 0 || i >= ops.len() {
        post == pre
    } else {
        exists|mid: Code|
            #![all_triggers]
            push_post(pre, ops[i], mid) && push_chain(mid, ops, i + 1, post)
    }
}

/// Law: for any sequence of pushes, the final byte buffer is the literal
/// concatenation of all pushed byte slices in call order.
pub proof fn lemma_chain_bytes_concat(pre: Code, ops: Seq<PushOp>, i: int, post: Code)
    requires
        0 <= i <= ops.len(),
        push_chain(pre, ops, i, post),
    ensures
        post.byte_seq() == pre.byte_seq() + ops_bytes(ops, i),
    decreases ops.len() - i,
{
    if i == ops.len() {
        assert(pre.byte_seq() + Seq::<u8>::empty() =~= pre.byte_seq());
    } else {
        let mid = choose|mid: Code|
            #![all_triggers]
            push_post(pre, ops[i], mid) && push_chain(mid, ops, i + 1, post);
        lemma_chain_bytes_concat(mid, ops, i + 1, post);
        assert(pre.byte_seq() + ops_bytes(ops, i) =~= (pre.byte_seq() + op_bytes(ops[i]))
            + ops_bytes(ops, i + 1));
    }
}

/// A marker strictly inside the buffer. Only a marker standing at the very
/// end of the buffer can be replaced or removed by a later push, so such a
/// marker is permanent.
pub open spec fn has_live_marker(c: Code) -> bool {
    exists|i: int|
        0 <= i < c.markers().len() && (#[trigger] c.markers()[i]).0 < c.byte_seq().len()
}

/// The byte buffer of a real builder fits the machine.
proof fn lemma_code_len_bound(c: Code)
    ensures
        c.byte_seq().len() <= usize::MAX,
{
    broadcast use vstd::std_specs::vec::axiom_spec_len;

    assert(vstd::std_specs::vec::spec_vec_len(&c.code) == c.code@.len());
}

/// One push keeps a marker that sits strictly inside the buffer.
proof fn lemma_push_post_keeps_live(pre: Code, op: PushOp, post: Code)
    requires
        push_post(pre, op, post),
        has_live_marker(pre),
    ensures
        has_live_marker(post),
{
    lemma_code_len_bound(pre);
    let m = pre.markers();
    let offset = pre.byte_seq().len() as usize;
    let w = choose|w: int| 0 <= w < m.len() && (#[trigger] m[w]).0 < pre.byte_seq().len();
    // The witness sits strictly below the push offset, so it is not the
    // marker at the end that a replacement touches: it survives at its index.
    assert(post.markers().len() > w && post.markers()[w] == m[w]);
    assert(post.byte_seq().len() >= pre.byte_seq().len());
}

/// Every suffix of a push chain keeps a marker that sits strictly inside the
/// buffer.
proof fn lemma_chain_keeps_live(pre: Code, ops: Seq<PushOp>, i: int, post: Code)
    requires
        0 <= i <= ops.len(),
        push_chain(pre, ops, i, post),
        has_live_marker(pre),
    ensures
        has_live_marker(post),
    decreases ops.len() - i,
{
    if i < ops.len() {
        let mid = choose|mid: Code|
            #![all_triggers]
            push_post(pre, ops[i], mid) && push_chain(mid, ops, i + 1, post);
        lemma_push_post_keeps_live(pre, ops[i], mid);
        lemma_chain_keeps_live(mid, ops, i + 1, post);
    }
}

/// Law: after any call sequence containing at least one push that supplies a
/// map and appends at least one byte, the builder has a source map. (A
/// mapped push of an empty fragment opens a zero-length section, which the
/// very next marker at the same offset replaces: such a push alone is not
/// enough.)
pub proof fn lemma_chain_mapped_push_records(
    pre: Code,
    ops: Seq<PushOp>,
    i: int,
    post: Code,
    k: int,
)
    requires
        0 <= i <= k < ops.len(),
        op_map(ops[k]) is Some,
        op_bytes(ops[k]).len() > 0,
        push_chain(pre, ops, i, post),
    ensures
        post.markers().len() > 0,
    decreases ops.len() - i,
{
    let mid = choose|mid: Code|
        #![all_triggers]
        push_post(pre, ops[i], mid) && push_chain(mid, ops, i + 1, post);
    if k == i {
        // The mapped push records a marker at the old end of the buffer and
        // extends the buffer beyond it: the marker is strictly inside.
        lemma_code_len_bound(pre);
        let r = mid.markers();
        assert(r.len() > 0 && r.last().0 == pre.byte_seq().len());
        assert(r[r.len() - 1].0 < mid.byte_seq().len());
        assert(has_live_marker(mid));
        lemma_chain_keeps_live(mid, ops, i + 1, post);
    } else {
        lemma_chain_mapped_push_records(mid, ops, i + 1, post, k);
    }
}

/// Law: a call sequence of only `push_bytes` calls and mapless `push_source`
/// calls leaves a fresh builder without a source map.
pub proof fn lemma_chain_mapless_keeps_no_map(pre: Code, ops: Seq<PushOp>, i: int, post: Code)
    requires
        0 <= i <= ops.len(),
        pre.markers().len() == 0,
        forall|k: int| i <= k < ops.len() ==> op_map(#[trigger] ops[k]) is None,
        push_chain(pre, ops, i, post),
    ensures
        post.markers().len() == 0,
    decreases ops.len() - i,
{
    if i < ops.len() {
        let mid = choose|mid: Code|
            #![all_triggers]
            push_post(pre, ops[i], mid) && push_chain(mid, ops, i + 1, post);
        lemma_chain_mapless_keeps_no_map(mid, ops, i + 1, post);
    }
}

/// Law: in a well-formed builder the positions that `generate_source_map`
/// assigns to the sections are lexicographically non-decreasing in marker
/// order.
pub proof fn lemma_section_offsets_monotone(c: Code, i: int, j: int)
    requires
        c.wf(),
        0 <= i <= j < c.markers().len(),
    ensures
        pos_le(Code::marker_pos(c, i), Code::marker_pos(c, j)),
{
    lemma_pos_prefix_monotone(c.byte_seq(), c.markers()[i].0 as int, c.markers()[j].0 as int);
}

/// Splicing one well-formed builder onto another yields a well-formed
/// builder: offsets stay strictly increasing and in range across the seam
/// (the first prebuilt marker is recorded under the replacement rules and
/// always carries a map), no two adjacent markers are absent, and the first
/// marker still carries a map.
proof fn lemma_push_code_wf(pre: Code, prebuilt: Code, post: Code)
    requires
        pre.wf(),
        prebuilt.wf(),
        pre.byte_seq().len() + prebuilt.byte_seq().len() <= usize::MAX,
        post.byte_seq() == pre.byte_seq() + prebuilt.byte_seq(),
        post.markers() == Code::push_code_spec(
            pre.markers(),
            pre.byte_seq().len() as usize,
            prebuilt.markers(),
        ),
    ensures
        post.wf(),
{
    let len = pre.byte_seq().len() as usize;
    let p = prebuilt.markers();
    if p.len() == 0 {
        lemma_push_map_spec_wf(pre.markers(), len, None);
    } else {
        let closed = if p[0].0 > 0 {
            push_map_spec(pre.markers(), len, None)
        } else {
            pre.markers()
        };
        if p[0].0 > 0 {
            lemma_push_map_spec_wf(pre.markers(), len, None);
        }
        let first_off = (p[0].0 + len) as usize;
        assert(markers_below(closed, first_off as int));
        lemma_push_map_spec_wf(closed, first_off, p[0].1);
        let with_first = push_map_spec(closed, first_off, p[0].1);
        let rest = Code::shifted_markers(p.skip(1), len);
        // The first prebuilt marker always carries a map, so it is recorded,
        // and it ends up as the last element before the shifted tail.
        assert(p[0].1 is Some);
        assert(with_first.len() > 0 && with_first.last() == (first_off, p[0].1));
        assert(post.markers() == with_first + rest);
        assert forall|a: int, b: int| 0 <= a < b < post.markers().len() implies (
        #[trigger] post.markers()[a]).0 < (#[trigger] post.markers()[b]).0 by {
            if b >= with_first.len() {
                assert(post.markers()[b] == rest[b - with_first.len()]);
                assert(rest[b - with_first.len()].0 == p[b - with_first.len() + 1].0 + len);
                assert(p[0].0 < p[b - with_first.len() + 1].0);
                if a >= with_first.len() {
                    assert(post.markers()[a] == rest[a - with_first.len()]);
                    assert(p[a - with_first.len() + 1].0 < p[b - with_first.len() + 1].0);
                } else {
                    assert(post.markers()[a] == with_first[a]);
                    assert(with_first[a].0 <= first_off as int);
                }
            }
        }
        assert forall|a: int| 0 <= a + 1 < post.markers().len() implies !((
        #[trigger] post.markers()[a]).1 is None && post.markers()[a + 1].1 is None) by {
            if a + 1 == with_first.len() {
                assert(post.markers()[a] == with_first.last());
            } else if a + 1 > with_first.len() {
                assert(post.markers()[a] == rest[a - with_first.len()]);
                assert(post.markers()[a + 1] == rest[a + 1 - with_first.len()]);
                assert(rest[a - with_first.len()].1 == p[a - with_first.len() + 1].1);
                assert(rest[a + 1 - with_first.len()].1 == p[a + 1 - with_first.len() + 1].1);
            }
        }
        assert forall|a: int| 0 <= a < post.markers().len() implies (
        #[trigger] post.markers()[a]).0 <= post.byte_seq().len() by {
            if a >= with_first.len() {
                assert(post.markers()[a] == rest[a - with_first.len()]);
                assert(p[a - with_first.len() + 1].0 <= prebuilt.byte_seq().len());
            } else {
                assert(post.markers()[a] == with_first[a]);
                assert(p[0].0 <= prebuilt.byte_seq().len());
            }
        }
        assert(markers_first_mapped(post.markers()));
    }
}

} // verus!
