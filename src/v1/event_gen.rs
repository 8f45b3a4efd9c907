use vstd::prelude::*;
use indexmap::IndexSet;
use crate::events::tags::EventTag;
use crate::events::{DfsPostorderEvent, EventGenerationContext};
use crate::v1::ids::{CompilerId, DocId, EnumId, EnumVariantId, EvolveId, ShapeId, TagId};
use crate::v1::literals::{uuid_hyphenated, uuid_text};
use crate::v1::index::{tag_set_get, tag_set_items, tag_set_len, variant_set_get, variant_set_items, variant_set_len};
use crate::v1::parser::texts;
use crate::v1::types::{
    BetweenVersionsIdSegment, EnumVariant, EnumVariantName, Enumeration, EvolveTrack, Package, Shape,
};

verus! {

pub type Event = DfsPostorderEvent<EventTag>;

/// A stretch of an event stream together with the payloads its leaves push.
pub struct Stream {
    pub events: Seq<Event>,
    pub u32s: Seq<u32>,
    pub strings: Seq<Seq<char>>,
}

pub open spec fn empty_stream() -> Stream {
    Stream { events: Seq::empty(), u32s: Seq::empty(), strings: Seq::empty() }
}

pub open spec fn join(a: Stream, b: Stream) -> Stream {
    Stream { events: a.events + b.events, u32s: a.u32s + b.u32s, strings: a.strings + b.strings }
}

pub open spec fn leaf_u32(v: u32) -> Stream {
    Stream { events: seq![DfsPostorderEvent::Leaf { tag: EventTag::U32 }], u32s: seq![v], strings: Seq::empty() }
}

pub open spec fn leaf_text(tag: EventTag, s: Seq<char>) -> Stream {
    Stream { events: seq![DfsPostorderEvent::Leaf { tag }], u32s: Seq::empty(), strings: seq![s] }
}

/// Closes the subtrees of `st` under a branch of `count` children.
pub open spec fn close(st: Stream, tag: EventTag, count: nat) -> Stream {
    Stream { events: st.events.push(DfsPostorderEvent::Branch { tag, child_count: count as usize }), ..st }
}

/// The depth of the stack of finished subtrees after a stream, starting from
/// `d`; `None` where a branch claims more children than there are.
pub open spec fn depth_after(s: Seq<Event>, d: nat) -> Option<nat>
    decreases s.len(),
{
    if s.len() == 0 {
        Some(d)
    } else {
        match depth_after(s.drop_last(), d) {
            Some(k) => match s.last() {
                DfsPostorderEvent::Leaf { .. } => Some(k + 1),
                DfsPostorderEvent::Branch { child_count, .. } => if child_count <= k {
                    Some((k - child_count + 1) as nat)
                } else {
                    None
                },
            },
            None => None,
        }
    }
}

/// A valid post-order walk of `k` trees.
pub open spec fn is_forest(s: Seq<Event>, k: nat) -> bool {
    depth_after(s, 0) == Some(k)
}

/// How many leaves of the given tags a stream holds.
pub open spec fn leaves_of(s: Seq<Event>, t1: EventTag, t2: EventTag) -> nat
    decreases s.len(),
{
    if s.len() == 0 {
        0
    } else {
        leaves_of(s.drop_last(), t1, t2) + match s.last() {
            DfsPostorderEvent::Leaf { tag } => if tag == t1 || tag == t2 { 1nat } else { 0nat },
            _ => 0nat,
        }
    }
}

/// How many branches of the given tag a stream holds.
pub open spec fn branches_of(s: Seq<Event>, t: EventTag) -> nat
    decreases s.len(),
{
    if s.len() == 0 {
        0
    } else {
        branches_of(s.drop_last(), t) + match s.last() {
            DfsPostorderEvent::Branch { tag, .. } => if tag == t { 1nat } else { 0nat },
            _ => 0nat,
        }
    }
}

/// A stream of `k` complete trees, `e` of whose branches are
/// `ElementaryEnum`, in which every `U32` leaf has pushed one `u32` payload
/// and every `String` or `EnumVariantName` leaf one text.
pub open spec fn stream_ok(st: Stream, k: nat, e: nat) -> bool {
    &&& is_forest(st.events, k)
    &&& leaves_of(st.events, EventTag::U32, EventTag::U32) == st.u32s.len()
    &&& leaves_of(st.events, EventTag::String, EventTag::EnumVariantName) == st.strings.len()
    &&& branches_of(st.events, EventTag::ElementaryEnum) == e
}

proof fn lemma_depth_shift(s: Seq<Event>, d: nat, k: nat)
    requires
        depth_after(s, 0) == Some(k),
    ensures
        depth_after(s, d) == Some(k + d),
    decreases s.len(),
{
    if s.len() > 0 {
        let j = depth_after(s.drop_last(), 0)->Some_0;
        lemma_depth_shift(s.drop_last(), d, j);
    }
}

proof fn lemma_depth_concat(a: Seq<Event>, b: Seq<Event>, d: nat)
    ensures
        depth_after(a + b, d) == match depth_after(a, d) {
            Some(k) => depth_after(b, k),
            None => None,
        },
    decreases b.len(),
{
    if b.len() == 0 {
        assert(a + b == a);
    } else {
        assert((a + b).drop_last() == a + b.drop_last());
        assert((a + b).last() == b.last());
        lemma_depth_concat(a, b.drop_last(), d);
    }
}

proof fn lemma_branches_concat(a: Seq<Event>, b: Seq<Event>, t: EventTag)
    ensures
        branches_of(a + b, t) == branches_of(a, t) + branches_of(b, t),
    decreases b.len(),
{
    if b.len() == 0 {
        assert(a + b == a);
    } else {
        assert((a + b).drop_last() == a + b.drop_last());
        assert((a + b).last() == b.last());
        lemma_branches_concat(a, b.drop_last(), t);
    }
}

proof fn lemma_leaves_concat(a: Seq<Event>, b: Seq<Event>, t1: EventTag, t2: EventTag)
    ensures
        leaves_of(a + b, t1, t2) == leaves_of(a, t1, t2) + leaves_of(b, t1, t2),
    decreases b.len(),
{
    if b.len() == 0 {
        assert(a + b == a);
    } else {
        assert((a + b).drop_last() == a + b.drop_last());
        assert((a + b).last() == b.last());
        lemma_leaves_concat(a, b.drop_last(), t1, t2);
    }
}

/// Two well-formed stretches make a well-formed stretch.
pub proof fn lemma_join_ok(a: Stream, b: Stream, ka: nat, kb: nat, ea: nat, eb: nat)
    requires
        stream_ok(a, ka, ea),
        stream_ok(b, kb, eb),
    ensures
        stream_ok(join(a, b), ka + kb, ea + eb),
{
    lemma_branches_concat(a.events, b.events, EventTag::ElementaryEnum);
    lemma_depth_concat(a.events, b.events, 0);
    lemma_depth_shift(b.events, ka, kb);
    lemma_leaves_concat(a.events, b.events, EventTag::U32, EventTag::U32);
    lemma_leaves_concat(a.events, b.events, EventTag::String, EventTag::EnumVariantName);
}

/// Closing `k` trees under a branch of `k` children makes one tree.
pub proof fn lemma_close_ok(a: Stream, tag: EventTag, k: nat, e: nat)
    requires
        stream_ok(a, k, e),
        k <= usize::MAX,
    ensures
        stream_ok(close(a, tag, k), 1, if tag == EventTag::ElementaryEnum { e + 1 } else { e }),
{
    let e = close(a, tag, k).events;
    assert(e.drop_last() == a.events);
}

proof fn lemma_leaf_u32_ok(v: u32)
    ensures
        stream_ok(leaf_u32(v), 1, 0),
{
    let e = leaf_u32(v).events;
    assert(e.drop_last() == Seq::<Event>::empty());
    reveal_with_fuel(depth_after, 2);
    reveal_with_fuel(leaves_of, 2);
    reveal_with_fuel(branches_of, 2);
}

proof fn lemma_leaf_text_ok(tag: EventTag, s: Seq<char>)
    requires
        tag == EventTag::String || tag == EventTag::EnumVariantName,
    ensures
        stream_ok(leaf_text(tag, s), 1, 0),
{
    let e = leaf_text(tag, s).events;
    assert(e.drop_last() == Seq::<Event>::empty());
    reveal_with_fuel(depth_after, 2);
    reveal_with_fuel(leaves_of, 2);
    reveal_with_fuel(branches_of, 2);
}

/// The events of a compiler id.
pub open spec fn compiler_stream(v: u32) -> Stream {
    close(leaf_u32(v), EventTag::CompilerIdentifier, 1)
}

/// The events of an evolution identity.
pub open spec fn track_stream(t: EvolveTrack) -> Stream {
    match t {
        EvolveTrack::Local(v) => close(leaf_u32(v), EventTag::LocalIdentifier, 1),
        EvolveTrack::Uuid(v) => close(
            close(leaf_text(EventTag::String, uuid_hyphenated(v)), EventTag::Uuid, 1),
            EventTag::GlobalIdentifier,
            1,
        ),
    }
}

/// The payload-bearing events of one segment of a cross-schema id.
pub open spec fn segment_stream(s: BetweenVersionsIdSegment) -> Stream {
    match s {
        BetweenVersionsIdSegment::U32(v) => leaf_u32(v),
        BetweenVersionsIdSegment::Uuid(v) => close(leaf_text(EventTag::String, uuid_hyphenated(v)), EventTag::Uuid, 1),
        BetweenVersionsIdSegment::String(t) => leaf_text(EventTag::String, t@),
    }
}

pub open spec fn segments_stream(s: Seq<BetweenVersionsIdSegment>) -> Stream
    decreases s.len(),
{
    if s.len() == 0 {
        empty_stream()
    } else {
        join(segments_stream(s.drop_last()), segment_stream(s.last()))
    }
}

/// The events of a cross-schema id: one subtree per segment, closed by an
/// `EvolutionaryIdentifier` branch.
pub open spec fn cross_stream(s: Seq<BetweenVersionsIdSegment>) -> Stream {
    close(segments_stream(s), EventTag::EvolutionaryIdentifier, s.len())
}

pub open spec fn compiler_list_stream(s: Seq<CompilerId>) -> Stream
    decreases s.len(),
{
    if s.len() == 0 {
        empty_stream()
    } else {
        join(compiler_list_stream(s.drop_last()), compiler_stream(s.last().0))
    }
}

proof fn lemma_compiler_ok(v: u32)
    ensures
        stream_ok(compiler_stream(v), 1, 0),
{
    lemma_leaf_u32_ok(v);
    lemma_close_ok(leaf_u32(v), EventTag::CompilerIdentifier, 1, 0);
}

proof fn lemma_track_ok(t: EvolveTrack)
    ensures
        stream_ok(track_stream(t), 1, 0),
{
    match t {
        EvolveTrack::Local(v) => {
            lemma_leaf_u32_ok(v);
            lemma_close_ok(leaf_u32(v), EventTag::LocalIdentifier, 1, 0);
        },
        EvolveTrack::Uuid(v) => {
            let l = leaf_text(EventTag::String, uuid_hyphenated(v));
            lemma_leaf_text_ok(EventTag::String, uuid_hyphenated(v));
            lemma_close_ok(l, EventTag::Uuid, 1, 0);
            lemma_close_ok(close(l, EventTag::Uuid, 1), EventTag::GlobalIdentifier, 1, 0);
        },
    }
}

proof fn lemma_segments_ok(s: Seq<BetweenVersionsIdSegment>)
    ensures
        stream_ok(segments_stream(s), s.len(), 0),
    decreases s.len(),
{
    if s.len() > 0 {
        lemma_segments_ok(s.drop_last());
        match s.last() {
            BetweenVersionsIdSegment::U32(v) => lemma_leaf_u32_ok(v),
            BetweenVersionsIdSegment::Uuid(v) => {
                lemma_leaf_text_ok(EventTag::String, uuid_hyphenated(v));
                lemma_close_ok(leaf_text(EventTag::String, uuid_hyphenated(v)), EventTag::Uuid, 1, 0);
            },
            BetweenVersionsIdSegment::String(t) => lemma_leaf_text_ok(EventTag::String, t@),
        }
        lemma_join_ok(segments_stream(s.drop_last()), segment_stream(s.last()), (s.len() - 1) as nat, 1, 0, 0);
    }
}

proof fn lemma_cross_ok(s: Seq<BetweenVersionsIdSegment>)
    requires
        s.len() <= usize::MAX,
    ensures
        stream_ok(cross_stream(s), 1, 0),
{
    lemma_segments_ok(s);
    lemma_close_ok(segments_stream(s), EventTag::EvolutionaryIdentifier, s.len(), 0);
}

proof fn lemma_compiler_list_ok(s: Seq<CompilerId>)
    ensures
        stream_ok(compiler_list_stream(s), s.len(), 0),
    decreases s.len(),
{
    if s.len() > 0 {
        lemma_compiler_list_ok(s.drop_last());
        lemma_compiler_ok(s.last().0);
        lemma_join_ok(compiler_list_stream(s.drop_last()), compiler_stream(s.last().0), (s.len() - 1) as nat, 1, 0, 0);
    }
}

/// The output of a generation run so far, as a stream.
pub open spec fn emitted(out: Seq<Event>, ctx: EventGenerationContext) -> Stream {
    Stream { events: out, u32s: ctx.u32@, strings: texts(ctx.strings@) }
}

fn push_u32(v: u32, eg_ctx: &mut EventGenerationContext, out: &mut Vec<Event>)
    ensures
        emitted(final(out)@, *final(eg_ctx)) == join(emitted(old(out)@, *old(eg_ctx)), leaf_u32(v)),
{
    eg_ctx.u32.push(v);
    out.push(DfsPostorderEvent::Leaf { tag: EventTag::U32 });
    assert(texts(eg_ctx.strings@) =~= texts(old(eg_ctx).strings@) + Seq::<Seq<char>>::empty());
    assert(eg_ctx.u32@ =~= old(eg_ctx).u32@ + seq![v]);
    assert(out@ =~= old(out)@ + seq![DfsPostorderEvent::Leaf { tag: EventTag::U32 }]);
}

fn push_text(tag: EventTag, s: String, eg_ctx: &mut EventGenerationContext, out: &mut Vec<Event>)
    ensures
        emitted(final(out)@, *final(eg_ctx)) == join(emitted(old(out)@, *old(eg_ctx)), leaf_text(tag, s@)),
{
    let ghost sv = s@;
    eg_ctx.strings.push(s);
    out.push(DfsPostorderEvent::Leaf { tag });
    assert(texts(eg_ctx.strings@) =~= texts(old(eg_ctx).strings@) + seq![sv]);
    assert(eg_ctx.u32@ =~= old(eg_ctx).u32@ + Seq::<u32>::empty());
    assert(out@ =~= old(out)@ + seq![DfsPostorderEvent::Leaf { tag }]);
}

fn push_branch(tag: EventTag, count: usize, eg_ctx: &EventGenerationContext, out: &mut Vec<Event>, Ghost(before): Ghost<Stream>, Ghost(part): Ghost<Stream>)
    requires
        emitted(old(out)@, *eg_ctx) == join(before, part),
    ensures
        emitted(final(out)@, *eg_ctx) == join(before, close(part, tag, count as nat)),
{
    out.push(DfsPostorderEvent::Branch { tag, child_count: count });
    assert(out@ == before.events + close(part, tag, count as nat).events);
}

proof fn lemma_join_assoc(a: Stream, b: Stream, c: Stream)
    ensures
        join(join(a, b), c) == join(a, join(b, c)),
{
    assert((a.events + b.events) + c.events =~= a.events + (b.events + c.events));
    assert((a.u32s + b.u32s) + c.u32s =~= a.u32s + (b.u32s + c.u32s));
    assert((a.strings + b.strings) + c.strings =~= a.strings + (b.strings + c.strings));
}

proof fn lemma_join_empty(a: Stream)
    ensures
        join(a, empty_stream()) == a,
{
    assert(a.events + Seq::<Event>::empty() =~= a.events);
    assert(a.u32s + Seq::<u32>::empty() =~= a.u32s);
    assert(a.strings + Seq::<Seq<char>>::empty() =~= a.strings);
}

impl CompilerId {
    /// Emits a compiler id: its `U32` leaf, closed by `CompilerIdentifier`.
    pub fn to_events(self, eg_ctx: &mut EventGenerationContext, out: &mut Vec<Event>)
        ensures
            emitted(final(out)@, *final(eg_ctx)) == join(emitted(old(out)@, *old(eg_ctx)), compiler_stream(self.0)),
    {
        let ghost start = emitted(out@, *eg_ctx);
        push_u32(self.0, eg_ctx, out);
        push_branch(EventTag::CompilerIdentifier, 1, eg_ctx, out, Ghost(start), Ghost(leaf_u32(self.0)));
    }
}

/// Emits an evolution identity: `LocalIdentifier` over a `U32` leaf, or
/// `GlobalIdentifier` over `Uuid` over the UUID's text.
pub fn track_to_events(t: EvolveTrack, eg_ctx: &mut EventGenerationContext, out: &mut Vec<Event>)
    ensures
        emitted(final(out)@, *final(eg_ctx)) == join(emitted(old(out)@, *old(eg_ctx)), track_stream(t)),
{
    let ghost start = emitted(out@, *eg_ctx);
    match t {
        EvolveTrack::Local(v) => {
            push_u32(v, eg_ctx, out);
            push_branch(EventTag::LocalIdentifier, 1, eg_ctx, out, Ghost(start), Ghost(leaf_u32(v)));
        },
        EvolveTrack::Uuid(v) => {
            let text = uuid_text(v);
            push_text(EventTag::String, text, eg_ctx, out);
            let ghost l = leaf_text(EventTag::String, uuid_hyphenated(v));
            push_branch(EventTag::Uuid, 1, eg_ctx, out, Ghost(start), Ghost(l));
            push_branch(EventTag::GlobalIdentifier, 1, eg_ctx, out, Ghost(start), Ghost(close(l, EventTag::Uuid, 1)));
        },
    }
}

impl EvolveId {
    /// Emits the evolution identity this id names.
    pub fn to_events(self, eg_ctx: &mut EventGenerationContext, package: &Package, out: &mut Vec<Event>)
        requires
            1 <= self.0 <= package.evolution_ids@.len(),
        ensures
            emitted(final(out)@, *final(eg_ctx)) == join(
                emitted(old(out)@, *old(eg_ctx)),
                track_stream(package.evolution_ids@[self.0 - 1]),
            ),
    {
        let t = package.evolution_ids[(self.0 - 1) as usize];
        track_to_events(t, eg_ctx, out);
    }
}

/// Emits a cross-schema id: one subtree per segment, closed by an
/// `EvolutionaryIdentifier` branch.
pub fn cross_schema_id_gen(id: &[BetweenVersionsIdSegment], eg_ctx: &mut EventGenerationContext, out: &mut Vec<Event>)
    ensures
        emitted(final(out)@, *final(eg_ctx)) == join(emitted(old(out)@, *old(eg_ctx)), cross_stream(id@)),
{
    let ghost start = emitted(out@, *eg_ctx);
    let mut i: usize = 0;
    assert(id@.subrange(0, 0).len() == 0);
    proof { lemma_join_empty(start); }
    while i < id.len()
        invariant
            i <= id@.len(),
            emitted(out@, *eg_ctx) == join(start, segments_stream(id@.subrange(0, i as int))),
        decreases id@.len() - i,
    {
        let ghost pre = emitted(out@, *eg_ctx);
        let ghost seg = id@[i as int];
        proof {
            assert(id@.subrange(0, i + 1).drop_last() == id@.subrange(0, i as int));
            assert(id@.subrange(0, i + 1).last() == seg);
            lemma_join_assoc(start, segments_stream(id@.subrange(0, i as int)), segment_stream(seg));
        }
        match &id[i] {
            BetweenVersionsIdSegment::U32(v) => {
                push_u32(*v, eg_ctx, out);
            },
            BetweenVersionsIdSegment::Uuid(v) => {
                let text = uuid_text(*v);
                push_text(EventTag::String, text, eg_ctx, out);
                let ghost l = leaf_text(EventTag::String, uuid_hyphenated(*v));
                push_branch(EventTag::Uuid, 1, eg_ctx, out, Ghost(pre), Ghost(l));
            },
            BetweenVersionsIdSegment::String(v) => {
                push_text(EventTag::String, v.clone(), eg_ctx, out);
            },
        }
        i = i + 1;
    }
    assert(id@.subrange(0, id@.len() as int) == id@);
    push_branch(EventTag::EvolutionaryIdentifier, id.len(), eg_ctx, out, Ghost(start), Ghost(segments_stream(id@)));
}


/// The events of a sequence of texts, one `String` leaf each.
pub open spec fn strings_stream(ts: Seq<Seq<char>>) -> Stream
    decreases ts.len(),
{
    if ts.len() == 0 {
        empty_stream()
    } else {
        join(strings_stream(ts.drop_last()), leaf_text(EventTag::String, ts.last()))
    }
}

/// An optional list of texts under `tag`: nothing where the list is empty.
pub open spec fn list_part(tag: EventTag, ts: Seq<Seq<char>>) -> Stream {
    if ts.len() > 0 {
        close(strings_stream(ts), tag, ts.len())
    } else {
        empty_stream()
    }
}

/// An optional derivation trace: nothing where it is empty.
pub open spec fn trace_part(dt: Seq<CompilerId>) -> Stream {
    if dt.len() > 0 {
        close(compiler_list_stream(dt), EventTag::DerivedTrace, dt.len())
    } else {
        empty_stream()
    }
}

pub open spec fn one_if(b: bool) -> nat {
    if b { 1 } else { 0 }
}

proof fn lemma_strings_ok(ts: Seq<Seq<char>>)
    ensures
        stream_ok(strings_stream(ts), ts.len(), 0),
    decreases ts.len(),
{
    if ts.len() > 0 {
        lemma_strings_ok(ts.drop_last());
        lemma_leaf_text_ok(EventTag::String, ts.last());
        lemma_join_ok(strings_stream(ts.drop_last()), leaf_text(EventTag::String, ts.last()), (ts.len() - 1) as nat, 1, 0, 0);
    }
}

proof fn lemma_list_part_ok(tag: EventTag, ts: Seq<Seq<char>>)
    requires
        ts.len() <= usize::MAX,
        tag != EventTag::ElementaryEnum,
    ensures
        stream_ok(list_part(tag, ts), one_if(ts.len() > 0), 0),
{
    if ts.len() > 0 {
        lemma_strings_ok(ts);
        lemma_close_ok(strings_stream(ts), tag, ts.len(), 0);
    }
}

proof fn lemma_trace_part_ok(dt: Seq<CompilerId>)
    requires
        dt.len() <= usize::MAX,
    ensures
        stream_ok(trace_part(dt), one_if(dt.len() > 0), 0),
{
    if dt.len() > 0 {
        lemma_compiler_list_ok(dt);
        lemma_close_ok(compiler_list_stream(dt), EventTag::DerivedTrace, dt.len(), 0);
    }
}

/// A shape that may be emitted: ready, with a compiler id, a name and a
/// cross-schema id.
pub open spec fn shape_ready(s: Shape) -> bool {
    &&& s.is_ready
    &&& s.compiler_id is Some
    &&& s.name is Some
    &&& 0 < s.cross_schema_id@.len() <= usize::MAX
    &&& s.derived_trace@.len() <= usize::MAX
}

/// The events of a shape: its compiler id, its cross-schema id, its name and
/// its derivation trace if any, closed by `Shape`.
pub open spec fn shape_stream(s: Shape) -> Stream {
    let body = join(
        join(
            join(compiler_stream(s.compiler_id->Some_0.0), cross_stream(s.cross_schema_id@)),
            close(leaf_text(EventTag::String, s.name->Some_0@), EventTag::ShapeName, 1),
        ),
        trace_part(s.derived_trace@),
    );
    close(body, EventTag::Shape, 3 + one_if(s.derived_trace@.len() > 0))
}

proof fn lemma_shape_ok(s: Shape)
    requires
        shape_ready(s),
    ensures
        stream_ok(shape_stream(s), 1, 0),
{
    let c = compiler_stream(s.compiler_id->Some_0.0);
    let x = cross_stream(s.cross_schema_id@);
    let l = leaf_text(EventTag::String, s.name->Some_0@);
    let n = close(l, EventTag::ShapeName, 1);
    let t = trace_part(s.derived_trace@);
    lemma_compiler_ok(s.compiler_id->Some_0.0);
    lemma_cross_ok(s.cross_schema_id@);
    lemma_leaf_text_ok(EventTag::String, s.name->Some_0@);
    lemma_close_ok(l, EventTag::ShapeName, 1, 0);
    lemma_trace_part_ok(s.derived_trace@);
    lemma_join_ok(c, x, 1, 1, 0, 0);
    lemma_join_ok(join(c, x), n, 2, 1, 0, 0);
    lemma_join_ok(join(join(c, x), n), t, 3, one_if(s.derived_trace@.len() > 0), 0, 0);
    lemma_close_ok(join(join(join(c, x), n), t), EventTag::Shape, 3 + one_if(s.derived_trace@.len() > 0), 0);
}

/// Emits texts as `String` leaves.
fn texts_to_events(ts: &Vec<String>, eg_ctx: &mut EventGenerationContext, out: &mut Vec<Event>)
    ensures
        emitted(final(out)@, *final(eg_ctx)) == join(emitted(old(out)@, *old(eg_ctx)), strings_stream(texts(ts@))),
{
    let ghost start = emitted(out@, *eg_ctx);
    let ghost all = texts(ts@);
    assert(all.subrange(0, 0) == Seq::<Seq<char>>::empty());
    proof { lemma_join_empty(start); }
    let mut i: usize = 0;
    while i < ts.len()
        invariant
            i <= ts@.len(),
            all == texts(ts@),
            emitted(out@, *eg_ctx) == join(start, strings_stream(all.subrange(0, i as int))),
        decreases ts@.len() - i,
    {
        proof {
            assert(all.subrange(0, i + 1).drop_last() == all.subrange(0, i as int));
            assert(all.subrange(0, i + 1).last() == ts@[i as int]@);
            lemma_join_assoc(start, strings_stream(all.subrange(0, i as int)), leaf_text(EventTag::String, ts@[i as int]@));
        }
        push_text(EventTag::String, ts[i].clone(), eg_ctx, out);
        i = i + 1;
    }
    assert(all.subrange(0, ts@.len() as int) == all);
}

/// Emits a list of texts under `tag`, or nothing where it is empty.
fn list_to_events(tag: EventTag, ts: &Vec<String>, eg_ctx: &mut EventGenerationContext, out: &mut Vec<Event>)
    ensures
        emitted(final(out)@, *final(eg_ctx)) == join(emitted(old(out)@, *old(eg_ctx)), list_part(tag, texts(ts@))),
{
    if ts.len() > 0 {
        let ghost start = emitted(out@, *eg_ctx);
        texts_to_events(ts, eg_ctx, out);
        push_branch(tag, ts.len(), eg_ctx, out, Ghost(start), Ghost(strings_stream(texts(ts@))));
    } else {
        proof { lemma_join_empty(emitted(out@, *eg_ctx)); }
    }
}

/// Emits a derivation trace under `DerivedTrace`, or nothing where it is empty.
fn trace_to_events(dt: &Vec<CompilerId>, eg_ctx: &mut EventGenerationContext, out: &mut Vec<Event>)
    ensures
        emitted(final(out)@, *final(eg_ctx)) == join(emitted(old(out)@, *old(eg_ctx)), trace_part(dt@)),
{
    let ghost start = emitted(out@, *eg_ctx);
    if dt.len() == 0 {
        proof { lemma_join_empty(start); }
        return;
    }
    assert(dt@.subrange(0, 0) == Seq::<CompilerId>::empty());
    proof { lemma_join_empty(start); }
    let mut i: usize = 0;
    while i < dt.len()
        invariant
            i <= dt@.len(),
            emitted(out@, *eg_ctx) == join(start, compiler_list_stream(dt@.subrange(0, i as int))),
        decreases dt@.len() - i,
    {
        proof {
            assert(dt@.subrange(0, i + 1).drop_last() == dt@.subrange(0, i as int));
            assert(dt@.subrange(0, i + 1).last() == dt@[i as int]);
            lemma_join_assoc(start, compiler_list_stream(dt@.subrange(0, i as int)), compiler_stream(dt@[i as int].0));
        }
        dt[i].to_events(eg_ctx, out);
        i = i + 1;
    }
    assert(dt@.subrange(0, dt@.len() as int) == dt@);
    push_branch(EventTag::DerivedTrace, dt.len(), eg_ctx, out, Ghost(start), Ghost(compiler_list_stream(dt@)));
}

impl ShapeId {
    /// Emits the shape this id names: its compiler id, cross-schema id, name
    /// and derivation trace, closed by `Shape`.
    pub fn to_events(self, eg_ctx: &mut EventGenerationContext, package: &Package, out: &mut Vec<Event>)
        requires
            1 <= self.0 <= package.shapes@.len(),
            shape_ready(package.shapes@[self.0 - 1]),
        ensures
            emitted(final(out)@, *final(eg_ctx)) == join(
                emitted(old(out)@, *old(eg_ctx)),
                shape_stream(package.shapes@[self.0 - 1]),
            ),
    {
        let shape_def = &package.shapes[(self.0 - 1) as usize];
        let ghost start = emitted(out@, *eg_ctx);
        let compiler_id = match shape_def.compiler_id {
            Some(c) => c,
            None => return,
        };
        let ghost c = compiler_stream(compiler_id.0);
        let ghost x = cross_stream(shape_def.cross_schema_id@);
        let ghost l = leaf_text(EventTag::String, shape_def.name->Some_0@);
        compiler_id.to_events(eg_ctx, out);
        cross_schema_id_gen(shape_def.cross_schema_id.as_slice(), eg_ctx, out);
        proof { lemma_join_assoc(start, c, x); }
        let name = match &shape_def.name {
            Some(n) => n.clone(),
            None => return,
        };
        push_text(EventTag::String, name, eg_ctx, out);
        proof { lemma_join_assoc(start, join(c, x), l); }
        push_branch(EventTag::ShapeName, 1, eg_ctx, out, Ghost(join(start, join(c, x))), Ghost(l));
        proof { lemma_join_assoc(start, join(c, x), close(l, EventTag::ShapeName, 1)); }
        let ghost n = close(l, EventTag::ShapeName, 1);
        trace_to_events(&shape_def.derived_trace, eg_ctx, out);
        proof { lemma_join_assoc(start, join(join(c, x), n), trace_part(shape_def.derived_trace@)); }
        let count: usize = if shape_def.derived_trace.len() > 0 { 4 } else { 3 };
        push_branch(
            EventTag::Shape,
            count,
            eg_ctx,
            out,
            Ghost(start),
            Ghost(join(join(join(c, x), n), trace_part(shape_def.derived_trace@))),
        );
    }
}


/// Whether a documentation id names a recorded text.
pub open spec fn doc_ok(pkg: Package, d: DocId) -> bool {
    1 <= d.0 <= pkg.docs@.len()
}

/// Whether a tag id names a recorded tag whose name is interned.
pub open spec fn tag_ok(pkg: Package, t: TagId) -> bool {
    &&& 1 <= t.0 <= pkg.lit_tags_interned@.len()
    &&& 1 <= pkg.lit_tags_interned@[t.0 - 1].0 <= pkg.interned_tags@.len()
}

pub open spec fn doc_texts(pkg: Package, docs: Seq<DocId>) -> Seq<Seq<char>> {
    Seq::new(docs.len(), |i: int| pkg.docs@[docs[i].0 - 1]@)
}

pub open spec fn tag_texts(pkg: Package, tags: Seq<TagId>) -> Seq<Seq<char>> {
    Seq::new(tags.len(), |i: int| pkg.interned_tags@[pkg.lit_tags_interned@[tags[i].0 - 1].0 - 1].value@)
}

/// The name of a variant: the keyword it was written with, or the name a
/// generator gave it.
pub open spec fn variant_name_of(pkg: Package, v: EnumVariant) -> Seq<char> {
    match v.name {
        EnumVariantName::Ast(a) => pkg.keys@[a.0.0 - 1].segments@[0]@,
        EnumVariantName::Generated(s) => s@,
    }
}

pub open spec fn opt_trace(dt: Option<Vec<CompilerId>>) -> Seq<CompilerId> {
    match dt {
        Some(v) => v@,
        None => Seq::empty(),
    }
}

/// A variant that may be emitted: its local id, compiler id, cross-schema id,
/// name, documentation and tags all resolve.
pub open spec fn variant_ready(pkg: Package, v: EnumVariant) -> bool {
    &&& 1 <= v.local_id.0 <= pkg.evolution_ids@.len()
    &&& v.compiler_id is Some
    &&& 0 < v.cross_schema_id@.len() <= usize::MAX
    &&& match v.name {
        EnumVariantName::Ast(a) => 1 <= a.0.0 <= pkg.keys@.len() && pkg.keys@[a.0.0 - 1].segments@.len() > 0,
        EnumVariantName::Generated(_) => true,
    }
    &&& v.docs@.len() <= usize::MAX
    &&& tag_set_items(v.tags).len() <= usize::MAX
    &&& opt_trace(v.derived_trace).len() <= usize::MAX
    &&& forall|i: int| 0 <= i < v.docs@.len() ==> doc_ok(pkg, #[trigger] v.docs@[i])
    &&& forall|i: int| 0 <= i < tag_set_items(v.tags).len() ==> tag_ok(pkg, #[trigger] tag_set_items(v.tags)[i])
}

/// The events of a unit variant: its local id, compiler id, cross-schema id
/// and name, then its documentation, tags and derivation trace if any,
/// closed by `EnumVariantUnit`.
pub open spec fn variant_stream(pkg: Package, v: EnumVariant) -> Stream {
    let body = join(
        join(
            join(
                join(
                    join(
                        join(
                            track_stream(pkg.evolution_ids@[v.local_id.0 - 1]),
                            compiler_stream(v.compiler_id->Some_0.0),
                        ),
                        cross_stream(v.cross_schema_id@),
                    ),
                    leaf_text(EventTag::EnumVariantName, variant_name_of(pkg, v)),
                ),
                list_part(EventTag::Documentation, doc_texts(pkg, v.docs@)),
            ),
            list_part(EventTag::Tags, tag_texts(pkg, tag_set_items(v.tags))),
        ),
        trace_part(opt_trace(v.derived_trace)),
    );
    close(
        body,
        EventTag::EnumVariantUnit,
        4 + one_if(v.docs@.len() > 0) + one_if(tag_set_items(v.tags).len() > 0) + one_if(opt_trace(v.derived_trace).len() > 0),
    )
}

proof fn lemma_variant_ok(pkg: Package, v: EnumVariant)
    requires
        variant_ready(pkg, v),
    ensures
        stream_ok(variant_stream(pkg, v), 1, 0),
{
    let a = track_stream(pkg.evolution_ids@[v.local_id.0 - 1]);
    let b = compiler_stream(v.compiler_id->Some_0.0);
    let c = cross_stream(v.cross_schema_id@);
    let d = leaf_text(EventTag::EnumVariantName, variant_name_of(pkg, v));
    let e = list_part(EventTag::Documentation, doc_texts(pkg, v.docs@));
    let f = list_part(EventTag::Tags, tag_texts(pkg, tag_set_items(v.tags)));
    let g = trace_part(opt_trace(v.derived_trace));
    let nd = one_if(v.docs@.len() > 0);
    let nt = one_if(tag_set_items(v.tags).len() > 0);
    let ng = one_if(opt_trace(v.derived_trace).len() > 0);
    lemma_track_ok(pkg.evolution_ids@[v.local_id.0 - 1]);
    lemma_compiler_ok(v.compiler_id->Some_0.0);
    lemma_cross_ok(v.cross_schema_id@);
    lemma_leaf_text_ok(EventTag::EnumVariantName, variant_name_of(pkg, v));
    lemma_list_part_ok(EventTag::Documentation, doc_texts(pkg, v.docs@));
    lemma_list_part_ok(EventTag::Tags, tag_texts(pkg, tag_set_items(v.tags)));
    lemma_trace_part_ok(opt_trace(v.derived_trace));
    lemma_join_ok(a, b, 1, 1, 0, 0);
    lemma_join_ok(join(a, b), c, 2, 1, 0, 0);
    lemma_join_ok(join(join(a, b), c), d, 3, 1, 0, 0);
    lemma_join_ok(join(join(join(a, b), c), d), e, 4, nd, 0, 0);
    lemma_join_ok(join(join(join(join(a, b), c), d), e), f, 4 + nd, nt, 0, 0);
    lemma_join_ok(join(join(join(join(join(a, b), c), d), e), f), g, 4 + nd + nt, ng, 0, 0);
    lemma_close_ok(join(join(join(join(join(join(a, b), c), d), e), f), g), EventTag::EnumVariantUnit, 4 + nd + nt + ng, 0);
}

proof fn lemma_texts_push(v: Seq<String>, w: Seq<String>)
    requires
        w.len() == v.len() + 1,
        w.subrange(0, v.len() as int) == v,
    ensures
        texts(w) == texts(v).push(w.last()@),
{
    assert forall|k: int| 0 <= k < v.len() implies #[trigger] w[k] == v[k] by {
        assert(w.subrange(0, v.len() as int)[k] == w[k]);
    }
    assert(texts(w) =~= texts(v).push(w.last()@));
}

/// The ids a tag set holds, in order.
fn tag_list(s: &IndexSet<TagId>) -> (r: Vec<TagId>)
    ensures
        r@ == tag_set_items(*s),
{
    let n = tag_set_len(s);
    let mut r: Vec<TagId> = Vec::new();
    let mut i: usize = 0;
    while i < n
        invariant
            n == tag_set_items(*s).len(),
            i <= n,
            r@ == tag_set_items(*s).subrange(0, i as int),
        decreases n - i,
    {
        r.push(tag_set_get(s, i));
        assert(tag_set_items(*s).subrange(0, i + 1) == tag_set_items(*s).subrange(0, i as int).push(tag_set_items(*s)[i as int]));
        i = i + 1;
    }
    assert(tag_set_items(*s).subrange(0, n as int) == tag_set_items(*s));
    r
}

/// The texts of documentation ids.
fn doc_strings(package: &Package, docs: &Vec<DocId>) -> (r: Vec<String>)
    requires
        forall|i: int| 0 <= i < docs@.len() ==> doc_ok(*package, #[trigger] docs@[i]),
    ensures
        texts(r@) == doc_texts(*package, docs@),
{
    let mut r: Vec<String> = Vec::new();
    let mut i: usize = 0;
    while i < docs.len()
        invariant
            i <= docs@.len(),
            forall|k: int| 0 <= k < docs@.len() ==> doc_ok(*package, #[trigger] docs@[k]),
            texts(r@) == doc_texts(*package, docs@.subrange(0, i as int)),
        decreases docs@.len() - i,
    {
        let ghost before = r@;
        let d = docs[i];
        assert(doc_ok(*package, docs@[i as int]));
        let text = package.docs[(d.0 - 1) as usize].clone();
        let ghost tv = text@;
        r.push(text);
        proof {
            assert(r@.subrange(0, before.len() as int) =~= before);
            lemma_texts_push(before, r@);
            assert(docs@.subrange(0, i + 1) == docs@.subrange(0, i as int).push(docs@[i as int]));
            assert(doc_texts(*package, docs@.subrange(0, i + 1)) =~= doc_texts(*package, docs@.subrange(0, i as int)).push(tv));
        }
        i = i + 1;
    }
    assert(docs@.subrange(0, docs@.len() as int) == docs@);
    r
}

/// The interned names of tag ids.
fn tag_strings(package: &Package, tags: &Vec<TagId>) -> (r: Vec<String>)
    requires
        forall|i: int| 0 <= i < tags@.len() ==> tag_ok(*package, #[trigger] tags@[i]),
    ensures
        texts(r@) == tag_texts(*package, tags@),
{
    let mut r: Vec<String> = Vec::new();
    let mut i: usize = 0;
    while i < tags.len()
        invariant
            i <= tags@.len(),
            forall|k: int| 0 <= k < tags@.len() ==> tag_ok(*package, #[trigger] tags@[k]),
            texts(r@) == tag_texts(*package, tags@.subrange(0, i as int)),
        decreases tags@.len() - i,
    {
        let ghost before = r@;
        let t = tags[i];
        assert(tag_ok(*package, tags@[i as int]));
        let interned = package.lit_tags_interned[(t.0 - 1) as usize];
        let text = package.interned_tags[(interned.0 - 1) as usize].value.clone();
        let ghost tv = text@;
        r.push(text);
        proof {
            assert(r@.subrange(0, before.len() as int) =~= before);
            lemma_texts_push(before, r@);
            assert(tags@.subrange(0, i + 1) == tags@.subrange(0, i as int).push(tags@[i as int]));
            assert(tag_texts(*package, tags@.subrange(0, i + 1)) =~= tag_texts(*package, tags@.subrange(0, i as int)).push(tv));
        }
        i = i + 1;
    }
    assert(tags@.subrange(0, tags@.len() as int) == tags@);
    r
}

impl EnumVariantId {
    /// Emits the unit variant this id names.
    pub fn to_events(self, eg_ctx: &mut EventGenerationContext, package: &Package, out: &mut Vec<Event>)
        requires
            1 <= self.0 <= package.enum_variant@.len(),
            variant_ready(*package, package.enum_variant@[self.0 - 1]),
        ensures
            emitted(final(out)@, *final(eg_ctx)) == join(
                emitted(old(out)@, *old(eg_ctx)),
                variant_stream(*package, package.enum_variant@[self.0 - 1]),
            ),
    {
        let v = &package.enum_variant[(self.0 - 1) as usize];
        let ghost start = emitted(out@, *eg_ctx);
        let ghost a = track_stream(package.evolution_ids@[v.local_id.0 - 1]);
        let ghost b = compiler_stream(v.compiler_id->Some_0.0);
        let ghost c = cross_stream(v.cross_schema_id@);
        let ghost d = leaf_text(EventTag::EnumVariantName, variant_name_of(*package, *v));
        let ghost e = list_part(EventTag::Documentation, doc_texts(*package, v.docs@));
        let ghost f = list_part(EventTag::Tags, tag_texts(*package, tag_set_items(v.tags)));
        let ghost g = trace_part(opt_trace(v.derived_trace));
        v.local_id.to_events(eg_ctx, package, out);
        let compiler_id = match v.compiler_id {
            Some(c) => c,
            None => return,
        };
        compiler_id.to_events(eg_ctx, out);
        proof { lemma_join_assoc(start, a, b); }
        cross_schema_id_gen(v.cross_schema_id.as_slice(), eg_ctx, out);
        proof { lemma_join_assoc(start, join(a, b), c); }
        let name = match &v.name {
            EnumVariantName::Ast(ast) => package.keys[(ast.0.0 - 1) as usize].segments[0].clone(),
            EnumVariantName::Generated(s) => s.clone(),
        };
        push_text(EventTag::EnumVariantName, name, eg_ctx, out);
        proof { lemma_join_assoc(start, join(join(a, b), c), d); }
        let docs = doc_strings(package, &v.docs);
        list_to_events(EventTag::Documentation, &docs, eg_ctx, out);
        proof { lemma_join_assoc(start, join(join(join(a, b), c), d), e); }
        let tag_ids = tag_list(&v.tags);
        let tags = tag_strings(package, &tag_ids);
        list_to_events(EventTag::Tags, &tags, eg_ctx, out);
        proof { lemma_join_assoc(start, join(join(join(join(a, b), c), d), e), f); }
        let mut count: usize = 4;
        if v.docs.len() > 0 {
            count = count + 1;
        }
        if tag_set_len(&v.tags) > 0 {
            count = count + 1;
        }
        match &v.derived_trace {
            Some(dt) => {
                trace_to_events(dt, eg_ctx, out);
                if dt.len() > 0 {
                    count = count + 1;
                }
            },
            None => {
                proof { lemma_join_empty(emitted(out@, *eg_ctx)); }
            },
        }
        proof { lemma_join_assoc(start, join(join(join(join(join(a, b), c), d), e), f), g); }
        push_branch(
            EventTag::EnumVariantUnit,
            count,
            eg_ctx,
            out,
            Ghost(start),
            Ghost(join(join(join(join(join(join(a, b), c), d), e), f), g)),
        );
    }
}


/// A `Field` whose key is the text `key` and whose value holds the `n` trees
/// of `value`.
pub open spec fn field_stream(key: Seq<char>, value: Stream, n: nat) -> Stream {
    close(
        join(close(leaf_text(EventTag::String, key), EventTag::FieldKey, 1), close(value, EventTag::FieldValue, n)),
        EventTag::Field,
        2,
    )
}

proof fn lemma_field_ok(key: Seq<char>, value: Stream, n: nat)
    requires
        stream_ok(value, n, 0),
        n <= usize::MAX,
    ensures
        stream_ok(field_stream(key, value, n), 1, 0),
{
    let l = leaf_text(EventTag::String, key);
    lemma_leaf_text_ok(EventTag::String, key);
    lemma_close_ok(l, EventTag::FieldKey, 1, 0);
    lemma_close_ok(value, EventTag::FieldValue, n, 0);
    lemma_join_ok(close(l, EventTag::FieldKey, 1), close(value, EventTag::FieldValue, n), 1, 1, 0, 0);
    lemma_close_ok(join(close(l, EventTag::FieldKey, 1), close(value, EventTag::FieldValue, n)), EventTag::Field, 2, 0);
}

/// The events of a list of variants, one subtree each.
pub open spec fn variants_events(pkg: Package, vs: Seq<EnumVariantId>) -> Stream
    decreases vs.len(),
{
    if vs.len() == 0 {
        empty_stream()
    } else {
        join(variants_events(pkg, vs.drop_last()), variant_stream(pkg, pkg.enum_variant@[vs.last().0 - 1]))
    }
}

/// Whether a variant id names a variant that may be emitted.
pub open spec fn variant_id_ready(pkg: Package, v: EnumVariantId) -> bool {
    1 <= v.0 <= pkg.enum_variant@.len() && variant_ready(pkg, pkg.enum_variant@[v.0 - 1])
}

proof fn lemma_variants_ok(pkg: Package, vs: Seq<EnumVariantId>)
    requires
        forall|i: int| 0 <= i < vs.len() ==> variant_id_ready(pkg, #[trigger] vs[i]),
    ensures
        stream_ok(variants_events(pkg, vs), vs.len(), 0),
    decreases vs.len(),
{
    if vs.len() > 0 {
        assert forall|i: int| 0 <= i < vs.drop_last().len() implies variant_id_ready(pkg, #[trigger] vs.drop_last()[i]) by {
            assert(vs.drop_last()[i] == vs[i]);
        }
        lemma_variants_ok(pkg, vs.drop_last());
        assert(variant_id_ready(pkg, vs[vs.len() - 1]));
        lemma_variant_ok(pkg, pkg.enum_variant@[vs.last().0 - 1]);
        lemma_join_ok(
            variants_events(pkg, vs.drop_last()),
            variant_stream(pkg, pkg.enum_variant@[vs.last().0 - 1]),
            (vs.len() - 1) as nat,
            1,
            0,
            0,
        );
    }
}

/// The `default` field of an enumeration, if it has a default variant.
pub open spec fn default_part(pkg: Package, default: Option<EnumVariantId>) -> Stream {
    match default {
        Some(d) => field_stream("default"@, compiler_stream(pkg.enum_variant@[d.0 - 1].compiler_id->Some_0.0), 1),
        None => empty_stream(),
    }
}

/// An enumeration that may be emitted: elementary, with a ready shape, a
/// resolvable evolution id, and variants, default, documentation and tags that
/// all resolve.
pub open spec fn enum_ready(pkg: Package, eid: EnumId) -> bool {
    &&& 1 <= eid.0 <= pkg.enumerations@.len()
    &&& eid.0 <= pkg.enumeration_shape@.len()
    &&& 1 <= pkg.enumeration_shape@[eid.0 - 1].0 <= pkg.shapes@.len()
    &&& shape_ready(pkg.shapes@[pkg.enumeration_shape@[eid.0 - 1].0 - 1])
    &&& match pkg.enumerations@[eid.0 - 1] {
        Enumeration::Elementary { id, variants, default, docs, tags } => {
            &&& 1 <= id.0 <= pkg.evolution_ids@.len()
            &&& variant_set_items(variants).len() <= usize::MAX
            &&& forall|i: int| 0 <= i < variant_set_items(variants).len() ==> variant_id_ready(pkg, #[trigger] variant_set_items(variants)[i])
            &&& default matches Some(d) ==> 1 <= d.0 <= pkg.enum_variant@.len()
                && pkg.enum_variant@[d.0 - 1].compiler_id is Some
            &&& docs@.len() <= usize::MAX
            &&& tags@.len() <= usize::MAX
            &&& forall|i: int| 0 <= i < docs@.len() ==> doc_ok(pkg, #[trigger] docs@[i])
            &&& forall|i: int| 0 <= i < tags@.len() ==> tag_ok(pkg, #[trigger] tags@[i])
        },
        Enumeration::DiscriminantUnion { .. } => false,
    }
}

/// How many children the `ElementaryEnum` branch of an enumeration has: its
/// shape, its evolution id and its variants field, plus its default field,
/// documentation and tags where present.
pub open spec fn enum_child_count(e: Enumeration) -> nat {
    match e {
        Enumeration::Elementary { default, docs, tags, .. } => 3 + one_if(default is Some) + one_if(docs@.len() > 0)
            + one_if(tags@.len() > 0),
        Enumeration::DiscriminantUnion { .. } => 0,
    }
}

/// The events of an elementary enumeration: its shape, its evolution id, the
/// `variants` field, then the `default` field, documentation and tags where
/// present, closed by `ElementaryEnum`.
pub open spec fn enum_stream(pkg: Package, eid: EnumId) -> Stream {
    match pkg.enumerations@[eid.0 - 1] {
        Enumeration::Elementary { id, variants, default, docs, tags } => {
            let body = join(
                join(
                    join(
                        join(
                            join(
                                shape_stream(pkg.shapes@[pkg.enumeration_shape@[eid.0 - 1].0 - 1]),
                                track_stream(pkg.evolution_ids@[id.0 - 1]),
                            ),
                            field_stream("variants"@, variants_events(pkg, variant_set_items(variants)), variant_set_items(variants).len()),
                        ),
                        default_part(pkg, default),
                    ),
                    list_part(EventTag::Documentation, doc_texts(pkg, docs@)),
                ),
                list_part(EventTag::Tags, tag_texts(pkg, tags@)),
            );
            close(body, EventTag::ElementaryEnum, enum_child_count(pkg.enumerations@[eid.0 - 1]))
        },
        Enumeration::DiscriminantUnion { .. } => empty_stream(),
    }
}

/// Event-stream well-formedness: generating an enumeration yields one tree in
/// valid post-order, with exactly one `ElementaryEnum` branch, and each leaf
/// has pushed exactly one payload to the arena of its kind.
pub proof fn lemma_enum_events_well_formed(pkg: Package, eid: EnumId)
    requires
        enum_ready(pkg, eid),
    ensures
        stream_ok(enum_stream(pkg, eid), 1, 1),
{
    if let Enumeration::Elementary { id, variants, default, docs, tags } = pkg.enumerations@[eid.0 - 1] {
        let sh = pkg.shapes@[pkg.enumeration_shape@[eid.0 - 1].0 - 1];
        let a = shape_stream(sh);
        let b = track_stream(pkg.evolution_ids@[id.0 - 1]);
        let c = field_stream("variants"@, variants_events(pkg, variant_set_items(variants)), variant_set_items(variants).len());
        let d = default_part(pkg, default);
        let e = list_part(EventTag::Documentation, doc_texts(pkg, docs@));
        let f = list_part(EventTag::Tags, tag_texts(pkg, tags@));
        let nd = one_if(default is Some);
        let ne = one_if(docs@.len() > 0);
        let nf = one_if(tags@.len() > 0);
        lemma_shape_ok(sh);
        lemma_track_ok(pkg.evolution_ids@[id.0 - 1]);
        lemma_variants_ok(pkg, variant_set_items(variants));
        lemma_field_ok("variants"@, variants_events(pkg, variant_set_items(variants)), variant_set_items(variants).len());
        if let Some(x) = default {
            lemma_compiler_ok(pkg.enum_variant@[x.0 - 1].compiler_id->Some_0.0);
            lemma_field_ok("default"@, compiler_stream(pkg.enum_variant@[x.0 - 1].compiler_id->Some_0.0), 1);
        }
        lemma_list_part_ok(EventTag::Documentation, doc_texts(pkg, docs@));
        lemma_list_part_ok(EventTag::Tags, tag_texts(pkg, tags@));
        lemma_join_ok(a, b, 1, 1, 0, 0);
        lemma_join_ok(join(a, b), c, 2, 1, 0, 0);
        lemma_join_ok(join(join(a, b), c), d, 3, nd, 0, 0);
        lemma_join_ok(join(join(join(a, b), c), d), e, 3 + nd, ne, 0, 0);
        lemma_join_ok(join(join(join(join(a, b), c), d), e), f, 3 + nd + ne, nf, 0, 0);
        lemma_close_ok(join(join(join(join(join(a, b), c), d), e), f), EventTag::ElementaryEnum, 3 + nd + ne + nf, 0);
    }
}

/// The root of an enumeration's events is its `ElementaryEnum` branch, whose
/// child count is the number of its visible attributes.
pub proof fn lemma_enum_root_branch(pkg: Package, eid: EnumId)
    requires
        enum_ready(pkg, eid),
    ensures
        enum_stream(pkg, eid).events.len() > 0,
        enum_stream(pkg, eid).events.last() == (DfsPostorderEvent::Branch {
            tag: EventTag::ElementaryEnum,
            child_count: enum_child_count(pkg.enumerations@[eid.0 - 1]) as usize,
        }),
{
}

impl EnumId {
    /// Emits the elementary enumeration this id names.
    pub fn to_events(self, eg_ctx: &mut EventGenerationContext, package: &Package, out: &mut Vec<Event>)
        requires
            enum_ready(*package, self),
        ensures
            emitted(final(out)@, *final(eg_ctx)) == join(emitted(old(out)@, *old(eg_ctx)), enum_stream(*package, self)),
    {
        let ghost start = emitted(out@, *eg_ctx);
        let shape_id = package.enumeration_shape[(self.0 - 1) as usize];
        let enum_def = &package.enumerations[(self.0 - 1) as usize];
        match enum_def {
            Enumeration::DiscriminantUnion { .. } => {},
            Enumeration::Elementary { id, variants, default, docs, tags } => {
                let ghost a = shape_stream(package.shapes@[shape_id.0 - 1]);
                let ghost b = track_stream(package.evolution_ids@[id.0 - 1]);
                let ghost vs = variants_events(*package, variant_set_items(*variants));
                let ghost c = field_stream("variants"@, vs, variant_set_items(*variants).len());
                let ghost d = default_part(*package, *default);
                let ghost e = list_part(EventTag::Documentation, doc_texts(*package, docs@));
                let ghost f = list_part(EventTag::Tags, tag_texts(*package, tags@));
                shape_id.to_events(eg_ctx, package, out);
                id.to_events(eg_ctx, package, out);
                proof { lemma_join_assoc(start, a, b); }
                let ghost ab = join(start, join(a, b));
                // the variants field
                push_text(EventTag::String, String::from_str("variants"), eg_ctx, out);
                proof { reveal_strlit("variants"); }
                let ghost key_leaf = leaf_text(EventTag::String, "variants"@);
                push_branch(EventTag::FieldKey, 1, eg_ctx, out, Ghost(ab), Ghost(key_leaf));
                let ghost fk = close(key_leaf, EventTag::FieldKey, 1);
                let ghost after_key = join(ab, fk);
                proof { lemma_join_empty(after_key); }
                assert(variant_set_items(*variants).subrange(0, 0) == Seq::<EnumVariantId>::empty());
                let mut i: usize = 0;
                while i < variant_set_len(variants)
                    invariant
                        i <= variant_set_items(*variants).len(),
                        enum_ready(*package, self),
                        package.enumerations@[self.0 - 1] == (Enumeration::Elementary {
                            id: *id,
                            variants: *variants,
                            default: *default,
                            docs: *docs,
                            tags: *tags,
                        }),
                        emitted(out@, *eg_ctx) == join(after_key, variants_events(*package, variant_set_items(*variants).subrange(0, i as int))),
                    decreases variant_set_items(*variants).len() - i,
                {
                    let v = variant_set_get(variants, i);
                    proof {
                        assert(variant_set_items(*variants).subrange(0, i + 1).drop_last() == variant_set_items(*variants).subrange(0, i as int));
                        assert(variant_set_items(*variants).subrange(0, i + 1).last() == v);
                        assert(variant_id_ready(*package, variant_set_items(*variants)[i as int]));
                        lemma_join_assoc(
                            after_key,
                            variants_events(*package, variant_set_items(*variants).subrange(0, i as int)),
                            variant_stream(*package, package.enum_variant@[v.0 - 1]),
                        );
                    }
                    v.to_events(eg_ctx, package, out);
                    i = i + 1;
                }
                assert(variant_set_items(*variants).subrange(0, variant_set_items(*variants).len() as int) == variant_set_items(*variants));
                push_branch(EventTag::FieldValue, variant_set_len(variants), eg_ctx, out, Ghost(after_key), Ghost(vs));
                proof { lemma_join_assoc(ab, fk, close(vs, EventTag::FieldValue, variant_set_items(*variants).len())); }
                push_branch(
                    EventTag::Field,
                    2,
                    eg_ctx,
                    out,
                    Ghost(ab),
                    Ghost(join(fk, close(vs, EventTag::FieldValue, variant_set_items(*variants).len()))),
                );
                proof { lemma_join_assoc(start, join(a, b), c); }
                let mut count: usize = 3;
                // the default field
                let ghost abc = join(start, join(join(a, b), c));
                match default {
                    Some(dv) => {
                        let variant = &package.enum_variant[(dv.0 - 1) as usize];
                        push_text(EventTag::String, String::from_str("default"), eg_ctx, out);
                        proof { reveal_strlit("default"); }
                        let ghost dleaf = leaf_text(EventTag::String, "default"@);
                        push_branch(EventTag::FieldKey, 1, eg_ctx, out, Ghost(abc), Ghost(dleaf));
                        let ghost dk = close(dleaf, EventTag::FieldKey, 1);
                        let cid = match variant.compiler_id {
                            Some(c) => c,
                            None => return,
                        };
                        cid.to_events(eg_ctx, out);
                        proof { lemma_join_assoc(abc, dk, compiler_stream(cid.0)); }
                        push_branch(EventTag::FieldValue, 1, eg_ctx, out, Ghost(join(abc, dk)), Ghost(compiler_stream(cid.0)));
                        proof { lemma_join_assoc(abc, dk, close(compiler_stream(cid.0), EventTag::FieldValue, 1)); }
                        push_branch(
                            EventTag::Field,
                            2,
                            eg_ctx,
                            out,
                            Ghost(abc),
                            Ghost(join(dk, close(compiler_stream(cid.0), EventTag::FieldValue, 1))),
                        );
                        count = count + 1;
                    },
                    None => {
                        proof { lemma_join_empty(abc); }
                    },
                }
                proof { lemma_join_assoc(start, join(join(a, b), c), d); }
                let doc_texts_v = doc_strings(package, docs);
                list_to_events(EventTag::Documentation, &doc_texts_v, eg_ctx, out);
                proof { lemma_join_assoc(start, join(join(join(a, b), c), d), e); }
                let tag_texts_v = tag_strings(package, tags);
                list_to_events(EventTag::Tags, &tag_texts_v, eg_ctx, out);
                proof { lemma_join_assoc(start, join(join(join(join(a, b), c), d), e), f); }
                if docs.len() > 0 {
                    count = count + 1;
                }
                if tags.len() > 0 {
                    count = count + 1;
                }
                push_branch(
                    EventTag::ElementaryEnum,
                    count,
                    eg_ctx,
                    out,
                    Ghost(start),
                    Ghost(join(join(join(join(join(a, b), c), d), e), f)),
                );
            },
        }
    }
}

} // verus!
