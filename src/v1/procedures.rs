use vstd::prelude::*;
use crate::v1::cst::{
    filter_not_extra_allow_docs, is_not_extra_allow_docs, key, key_text, lemma_kinds_distinct, meaningful_with_docs,
    nodes, spec_not_extra_allow_docs, string, string_text, text_is, CstNode, Point,
};
use crate::v1::ids::{DocId, EnumId, EnumVariantId, EvolveId, ResourceId, TagId};
use crate::v1::index::{
    tag_set_insert, tag_set_items, tag_set_new, text_set_insert, text_set_items, text_set_new, variant_set_insert, variant_set_items, variant_set_new,
    local_id_index_entries, local_id_index_get, local_id_index_insert, local_id_index_new, name_index_entries,
    name_index_get, name_index_insert, name_index_new,
};
use crate::v1::literals::{parse_u32, parse_uuid, u32_of_text, uuid_value_of};
use crate::v1::parser::{
    conflict_at, fault_at, AttributeKind, Fault, IdKind, ParseSpecContext, ParseSpecError, SpecError,
    SyntaxError,
};
use crate::v1::types::{
    defs_same, grows_within, lemma_grows_within_refl, lemma_grows_within_trans, lemma_grows_within_weaken, lemma_room_left, room,
    track_nonzero, EnumVariant, EnumVariantKind, EnumVariantName, EnumVariantNameAstId, Enumeration, EvolveTrack, Key,
    Package, Shape, Span, Tag,
};
use crate::v1::validators::{is_enum_variant_valid, pascal_case_of, variant_name_verdict, VariantNameValidError};

verus! {

/// One slot of a keyword-argument list, with the floating attributes (doc
/// comments, metadata, `(id ...)` forms) written before it.
#[allow(inconsistent_fields)]
#[derive(Debug)]
pub enum KWArgs<'s> {
    Value { value: &'s CstNode, docs: Vec<&'s CstNode>, meta: Vec<&'s CstNode>, ids: Vec<&'s CstNode> },
    KV {
        key: &'s CstNode,
        value: Option<&'s CstNode>,
        docs: Vec<&'s CstNode>,
        meta: Vec<&'s CstNode>,
        ids: Vec<&'s CstNode>,
    },
    Unattached { docs: Vec<&'s CstNode>, meta: Vec<&'s CstNode>, ids: Vec<&'s CstNode> },
}

/// A slot as contracts see it.
#[allow(inconsistent_fields)]
pub enum KwSlot {
    Value { value: CstNode, docs: Seq<CstNode>, meta: Seq<CstNode>, ids: Seq<CstNode> },
    KV { key: CstNode, value: Option<CstNode>, docs: Seq<CstNode>, meta: Seq<CstNode>, ids: Seq<CstNode> },
    Unattached { docs: Seq<CstNode>, meta: Seq<CstNode>, ids: Seq<CstNode> },
}

pub open spec fn opt_node(o: Option<&CstNode>) -> Option<CstNode> {
    match o {
        Some(n) => Some(*n),
        None => None,
    }
}

impl<'s> View for KWArgs<'s> {
    type V = KwSlot;

    open spec fn view(&self) -> KwSlot {
        match self {
            KWArgs::Value { value, docs, meta, ids } => KwSlot::Value {
                value: **value,
                docs: nodes(docs@),
                meta: nodes(meta@),
                ids: nodes(ids@),
            },
            KWArgs::KV { key, value, docs, meta, ids } => KwSlot::KV {
                key: **key,
                value: opt_node(*value),
                docs: nodes(docs@),
                meta: nodes(meta@),
                ids: nodes(ids@),
            },
            KWArgs::Unattached { docs, meta, ids } => KwSlot::Unattached { docs: nodes(docs@), meta: nodes(meta@), ids: nodes(ids@) },
        }
    }
}

pub open spec fn slots(v: Seq<KWArgs>) -> Seq<KwSlot> {
    Seq::new(v.len(), |i: int| v[i]@)
}

/// The value that a metadata literal attaches: its last child.
pub open spec fn meta_value(m: CstNode) -> CstNode {
    if m.children@.len() > 0 {
        m.children@.last()
    } else {
        m
    }
}

/// Reading the children of a symbol: the values of its metadata literals,
/// then its name; any other child is a type error.
pub open spec fn scan_symbol(s: Seq<CstNode>) -> Result<(Seq<CstNode>, Option<CstNode>), Fault>
    decreases s.len(),
{
    if s.len() == 0 {
        Ok((Seq::empty(), None))
    } else if s[0].kind@ == "meta_lit"@ {
        match scan_symbol(s.drop_first()) {
            Ok((m, v)) => Ok((seq![meta_value(s[0])] + m, v)),
            Err(f) => Err(f),
        }
    } else if s[0].kind@ == "sym_name"@ {
        Ok((Seq::empty(), Some(s[0])))
    } else {
        Err(fault_at(s[0], SpecError::TypeError { expected: "meta_lit|sym_name"@, got: s[0].kind@ }))
    }
}

pub open spec fn with_metas(acc: Seq<CstNode>, r: Result<(Seq<CstNode>, Option<CstNode>), Fault>) -> Result<
    (Seq<CstNode>, Option<CstNode>),
    Fault,
> {
    match r {
        Ok((m, v)) => Ok((acc + m, v)),
        Err(f) => Err(f),
    }
}

proof fn lemma_with_metas_assoc(
    a: Seq<CstNode>,
    b: Seq<CstNode>,
    r: Result<(Seq<CstNode>, Option<CstNode>), Fault>,
)
    ensures
        with_metas(a, with_metas(b, r)) == with_metas(a + b, r),
{
    if let Ok((m, v)) = r {
        assert((a + b) + m == a + (b + m));
    }
}

/// Reads the metadata and the name of a symbol: the metadata values are
/// appended to `meta_vec`, and the name is returned.
pub fn read_meta<'s>(node: &'s CstNode, meta_vec: &mut Vec<&'s CstNode>, ctx: &ParseSpecContext) -> (r: Result<
    Option<&'s CstNode>,
    SyntaxError,
>)
    ensures
        match scan_symbol(node.children@) {
            Ok((m, v)) => r matches Ok(o) && opt_node(o) == v && nodes(final(meta_vec)@) == nodes(old(meta_vec)@) + m,
            Err(f) => r matches Err(e) && e@ == f,
        },
{
    let n = node.children.len();
    let mut i: usize = 0;
    let ghost start = nodes(meta_vec@);
    assert(node.children@.subrange(0, n as int) == node.children@);
    assert(nodes(meta_vec@).subrange(start.len() as int, nodes(meta_vec@).len() as int) == Seq::<CstNode>::empty());
    assert(forall|m: Seq<CstNode>| Seq::<CstNode>::empty() + m == m);
    assert(nodes(meta_vec@).subrange(0, start.len() as int) == start);
    while i < n
        invariant
            n == node.children@.len(),
            i <= n,
            start == nodes(old(meta_vec)@),
            start.len() <= nodes(meta_vec@).len(),
            nodes(meta_vec@).subrange(0, start.len() as int) == start,
            scan_symbol(node.children@) == with_metas(
                nodes(meta_vec@).subrange(start.len() as int, nodes(meta_vec@).len() as int),
                scan_symbol(node.children@.subrange(i as int, n as int)),
            ),
        decreases n - i,
    {
        let child = &node.children[i];
        let ghost rest = node.children@.subrange(i as int, n as int);
        assert(rest[0] == *child);
        assert(rest.drop_first() == node.children@.subrange(i + 1, n as int));
        if text_is(&child.kind, "meta_lit") {
            let cn = child.children.len();
            let ghost before = nodes(meta_vec@);
            if cn > 0 {
                meta_vec.push(&child.children[cn - 1]);
            } else {
                meta_vec.push(child);
            }
            assert(nodes(meta_vec@) == before.push(meta_value(*child)));
            assert(nodes(meta_vec@).subrange(0, start.len() as int) == before.subrange(0, start.len() as int));
            assert(nodes(meta_vec@).subrange(start.len() as int, nodes(meta_vec@).len() as int)
                == before.subrange(start.len() as int, before.len() as int) + seq![meta_value(*child)]);
            assert(scan_symbol(rest) == with_metas(seq![meta_value(*child)], scan_symbol(rest.drop_first())));
            proof {
                lemma_with_metas_assoc(
                    before.subrange(start.len() as int, before.len() as int),
                    seq![meta_value(*child)],
                    scan_symbol(rest.drop_first()),
                );
            }
        } else if text_is(&child.kind, "sym_name") {
            proof {
                lemma_kinds_distinct();
            }
            assert(nodes(meta_vec@).subrange(start.len() as int, nodes(meta_vec@).len() as int) + Seq::<CstNode>::empty()
                == nodes(meta_vec@).subrange(start.len() as int, nodes(meta_vec@).len() as int));
            assert(nodes(meta_vec@) == start + nodes(meta_vec@).subrange(start.len() as int, nodes(meta_vec@).len() as int));
            return Ok(Some(child));
        } else {
            return Err(ctx.error(
                child,
                ParseSpecError::TypeError { expected: String::from_str("meta_lit|sym_name"), got: child.kind.clone() },
            ));
        }
        i = i + 1;
    }
    assert(node.children@.subrange(n as int, n as int).len() == 0);
    assert(nodes(meta_vec@).subrange(start.len() as int, nodes(meta_vec@).len() as int) + Seq::<CstNode>::empty()
        == nodes(meta_vec@).subrange(start.len() as int, nodes(meta_vec@).len() as int));
    assert(nodes(meta_vec@) == start + nodes(meta_vec@).subrange(start.len() as int, nodes(meta_vec@).len() as int));
    Ok(None)
}


/// Whether a node is a form's element: meaningful or documentation, and not
/// metadata.
pub open spec fn is_form_element(n: CstNode) -> bool {
    spec_not_extra_allow_docs(n) && n.kind@ != "meta_lit"@
}

/// The elements of a form, in order: its head, then its arguments.
pub open spec fn form_elements(s: Seq<CstNode>) -> Seq<CstNode>
    decreases s.len(),
{
    if s.len() == 0 {
        s
    } else if is_form_element(s.last()) {
        form_elements(s.drop_last()).push(s.last())
    } else {
        form_elements(s.drop_last())
    }
}

/// The values of the metadata literals among `s`, in order.
pub open spec fn metas_of(s: Seq<CstNode>) -> Seq<CstNode>
    decreases s.len(),
{
    if s.len() == 0 {
        s
    } else if s.last().kind@ == "meta_lit"@ {
        metas_of(s.drop_last()).push(meta_value(s.last()))
    } else {
        metas_of(s.drop_last())
    }
}

/// A list whose head is the symbol `id`.
pub open spec fn is_id_form(n: CstNode) -> bool {
    let e = form_elements(n.children@);
    e.len() > 0 && e[0].kind@ == "sym_lit"@ && e[0].text@ == "id"@
}

/// The elements of a form, in order: its head, then its arguments.
pub fn form_elements_of<'a>(node: &'a CstNode) -> (r: Vec<&'a CstNode>)
    ensures
        nodes(r@) == form_elements(node.children@),
{
    let mut out: Vec<&'a CstNode> = Vec::new();
    assert(nodes(out@) == Seq::<CstNode>::empty());
    let mut i: usize = 0;
    while i < node.children.len()
        invariant
            i <= node.children@.len(),
            nodes(out@) == form_elements(node.children@.subrange(0, i as int)),
        decreases node.children@.len() - i,
    {
        let c = &node.children[i];
        proof {
            let pre = node.children@.subrange(0, i + 1);
            assert(pre.drop_last() == node.children@.subrange(0, i as int));
            assert(pre.last() == node.children@[i as int]);
        }
        if is_not_extra_allow_docs(c) && !text_is(&c.kind, "meta_lit") {
            let ghost before = out@;
            out.push(c);
            assert(nodes(out@) == nodes(before).push(*c));
        }
        i = i + 1;
    }
    assert(node.children@.subrange(0, node.children@.len() as int) == node.children@);
    out
}

/// The values of a node's metadata literals, in order.
pub fn metas_of_node<'a>(node: &'a CstNode) -> (r: Vec<&'a CstNode>)
    ensures
        nodes(r@) == metas_of(node.children@),
{
    let mut out: Vec<&'a CstNode> = Vec::new();
    assert(nodes(out@) == Seq::<CstNode>::empty());
    let mut i: usize = 0;
    while i < node.children.len()
        invariant
            i <= node.children@.len(),
            nodes(out@) == metas_of(node.children@.subrange(0, i as int)),
        decreases node.children@.len() - i,
    {
        let c = &node.children[i];
        proof {
            let pre = node.children@.subrange(0, i + 1);
            assert(pre.drop_last() == node.children@.subrange(0, i as int));
            assert(pre.last() == node.children@[i as int]);
        }
        if text_is(&c.kind, "meta_lit") {
            let ghost before = out@;
            let cn = c.children.len();
            if cn > 0 {
                out.push(&c.children[cn - 1]);
            } else {
                out.push(c);
            }
            assert(nodes(out@) == nodes(before).push(meta_value(*c)));
        }
        i = i + 1;
    }
    assert(node.children@.subrange(0, node.children@.len() as int) == node.children@);
    out
}

fn is_id_list(node: &CstNode) -> (r: bool)
    ensures
        r == is_id_form(*node),
{
    let e = form_elements_of(node);
    if e.len() == 0 {
        return false;
    }
    let head = e[0];
    assert(*head == form_elements(node.children@)[0]);
    text_is(&head.kind, "sym_lit") && text_is(&head.text, "id")
}

/// The floating attributes gathered so far, the open keyword, and the slots
/// already closed.
pub struct KwState {
    pub key: Option<CstNode>,
    pub docs: Seq<CstNode>,
    pub meta: Seq<CstNode>,
    pub ids: Seq<CstNode>,
    pub out: Seq<KwSlot>,
}

pub open spec fn kw_start() -> KwState {
    KwState { key: None, docs: Seq::empty(), meta: Seq::empty(), ids: Seq::empty(), out: Seq::empty() }
}

/// Closes the open keyword, if any, as a slot without a value.
pub open spec fn close_key(st: KwState) -> KwState {
    match st.key {
        Some(k) => KwState {
            key: None,
            docs: Seq::empty(),
            meta: Seq::empty(),
            ids: Seq::empty(),
            out: st.out.push(KwSlot::KV { key: k, value: None, docs: st.docs, meta: st.meta, ids: st.ids }),
        },
        None => st,
    }
}

/// Emits a value: the value of the open keyword, or a positional slot.
pub open spec fn emit_value(st: KwState, v: CstNode) -> KwState {
    let slot = match st.key {
        Some(k) => KwSlot::KV { key: k, value: Some(v), docs: st.docs, meta: st.meta, ids: st.ids },
        None => KwSlot::Value { value: v, docs: st.docs, meta: st.meta, ids: st.ids },
    };
    KwState { key: None, docs: Seq::empty(), meta: Seq::empty(), ids: Seq::empty(), out: st.out.push(slot) }
}

pub open spec fn add_metas(st: KwState, m: Seq<CstNode>) -> KwState {
    KwState { meta: st.meta + m, ..st }
}

/// How one node changes the linearization state.
pub open spec fn kw_step(st: KwState, n: CstNode) -> Result<KwState, Fault> {
    if n.kind@ == "comment"@ {
        let c = close_key(st);
        Ok(KwState { docs: c.docs.push(n), ..c })
    } else if n.kind@ == "kwd_lit"@ {
        let c = close_key(st);
        Ok(KwState { key: Some(n), ..c })
    } else if n.kind@ == "sym_lit"@ {
        match scan_symbol(n.children@) {
            Ok((m, Some(v))) => Ok(emit_value(add_metas(st, m), v)),
            Ok((m, None)) => Ok(add_metas(st, m)),
            Err(f) => Err(f),
        }
    } else if n.kind@ == "list_lit"@ && is_id_form(n) {
        let c = add_metas(close_key(st), metas_of(n.children@));
        Ok(KwState { ids: c.ids.push(n), ..c })
    } else if n.kind@ == "list_lit"@ {
        Ok(emit_value(add_metas(st, metas_of(n.children@)), n))
    } else {
        Ok(emit_value(st, n))
    }
}

/// The linearization state after a sequence of nodes.
pub open spec fn kw_run(s: Seq<CstNode>) -> Result<KwState, Fault>
    decreases s.len(),
{
    if s.len() == 0 {
        Ok(kw_start())
    } else {
        match kw_run(s.drop_last()) {
            Ok(st) => kw_step(st, s.last()),
            Err(f) => Err(f),
        }
    }
}

/// The slots once the input is exhausted: an open keyword closes without a
/// value, and attributes left over form a slot of their own.
pub open spec fn kw_finish(st: KwState) -> Seq<KwSlot> {
    match st.key {
        Some(k) => st.out.push(KwSlot::KV { key: k, value: None, docs: st.docs, meta: st.meta, ids: st.ids }),
        None => if st.docs.len() != 0 || st.meta.len() != 0 || st.ids.len() != 0 {
            st.out.push(KwSlot::Unattached { docs: st.docs, meta: st.meta, ids: st.ids })
        } else {
            st.out
        },
    }
}

/// The slots that a sequence of nodes linearizes to, or the first fault.
pub open spec fn linearize(s: Seq<CstNode>) -> Result<Seq<KwSlot>, Fault> {
    match kw_run(s) {
        Ok(st) => Ok(kw_finish(st)),
        Err(f) => Err(f),
    }
}

proof fn lemma_kw_fault_sticks(s: Seq<CstNode>, i: int, f: Fault)
    requires
        0 <= i <= s.len(),
        kw_run(s.subrange(0, i)) == Err::<KwState, Fault>(f),
    ensures
        kw_run(s) == Err::<KwState, Fault>(f),
    decreases s.len() - i,
{
    if i < s.len() {
        let next = s.subrange(0, i + 1);
        assert(next.drop_last() == s.subrange(0, i));
        lemma_kw_fault_sticks(s, i + 1, f);
    } else {
        assert(s.subrange(0, i) == s);
    }
}

fn take_nodes<'s>(v: &mut Vec<&'s CstNode>) -> (r: Vec<&'s CstNode>)
    ensures
        r@ == old(v)@,
        final(v)@.len() == 0,
{
    let mut e: Vec<&'s CstNode> = Vec::new();
    core::mem::swap(v, &mut e);
    e
}

pub open spec fn state_of(
    key: Option<&CstNode>,
    docs: Seq<&CstNode>,
    meta: Seq<&CstNode>,
    ids: Seq<&CstNode>,
    out: Seq<KWArgs>,
) -> KwState {
    KwState { key: opt_node(key), docs: nodes(docs), meta: nodes(meta), ids: nodes(ids), out: slots(out) }
}

/// Linearizes a sequence of nodes into keyword-argument slots, attaching
/// each floating attribute to the slot that follows it.
pub fn read_kw<'s>(args: &[&'s CstNode], ctx: &ParseSpecContext) -> (r: Result<Vec<KWArgs<'s>>, SyntaxError>)
    ensures
        match linearize(nodes(args@)) {
            Ok(s) => r matches Ok(v) && slots(v@) == s,
            Err(f) => r matches Err(e) && e@ == f,
        },
{
    let ghost all = nodes(args@);
    let mut key: Option<&'s CstNode> = None;
    let mut docs: Vec<&'s CstNode> = Vec::new();
    let mut meta: Vec<&'s CstNode> = Vec::new();
    let mut ids: Vec<&'s CstNode> = Vec::new();
    let mut out: Vec<KWArgs<'s>> = Vec::new();
    proof {
        assert(all.subrange(0, 0).len() == 0);
        assert(nodes(docs@) == Seq::<CstNode>::empty());
        assert(nodes(meta@) == Seq::<CstNode>::empty());
        assert(nodes(ids@) == Seq::<CstNode>::empty());
        assert(slots(out@) == Seq::<KwSlot>::empty());
    }
    let mut i: usize = 0;
    while i < args.len()
        invariant
            all == nodes(args@),
            i <= args@.len(),
            kw_run(all.subrange(0, i as int)) == Ok::<KwState, Fault>(state_of(key, docs@, meta@, ids@, out@)),
        decreases args@.len() - i,
    {
        let n: &'s CstNode = args[i];
        let ghost st = state_of(key, docs@, meta@, ids@, out@);
        proof {
            let pre = all.subrange(0, i + 1);
            assert(pre.drop_last() == all.subrange(0, i as int));
            assert(pre.last() == *n);
        }
        if text_is(&n.kind, "comment") || text_is(&n.kind, "kwd_lit") || (text_is(&n.kind, "list_lit") && is_id_list(n)) {
            // close the open keyword, if any
            if let Some(k) = key {
                let d = take_nodes(&mut docs);
                let m = take_nodes(&mut meta);
                let x = take_nodes(&mut ids);
                let ghost before = out@;
                out.push(KWArgs::KV { key: k, value: None, docs: d, meta: m, ids: x });
                key = None;
                assert(slots(out@) == slots(before).push(
                    KwSlot::KV { key: *k, value: None, docs: st.docs, meta: st.meta, ids: st.ids }));
                assert(nodes(docs@) == Seq::<CstNode>::empty());
                assert(nodes(meta@) == Seq::<CstNode>::empty());
                assert(nodes(ids@) == Seq::<CstNode>::empty());
            }
            assert(state_of(key, docs@, meta@, ids@, out@) == close_key(st));
            let ghost c = close_key(st);
            if text_is(&n.kind, "comment") {
                docs.push(n);
                assert(nodes(docs@) == c.docs.push(*n));
                assert(kw_step(st, *n) == Ok::<KwState, Fault>(state_of(key, docs@, meta@, ids@, out@)));
            } else if text_is(&n.kind, "kwd_lit") {
                key = Some(n);
                proof { lemma_kinds_distinct(); }
                assert(kw_step(st, *n) == Ok::<KwState, Fault>(state_of(key, docs@, meta@, ids@, out@)));
            } else {
                proof { lemma_kinds_distinct(); }
                let ms = metas_of_node(n);
                let mut j: usize = 0;
                let ghost m0 = nodes(meta@);
                let ghost target = add_metas(c, metas_of(n.children@));
                assert(kw_step(st, *n) == Ok::<KwState, Fault>(KwState { ids: target.ids.push(*n), ..target }));
                while j < ms.len()
                    invariant
                        j <= ms@.len(),
                        nodes(meta@) == m0 + nodes(ms@).subrange(0, j as int),
                        m0 == c.meta,
                        c.key == opt_node(key),
                        c.docs == nodes(docs@),
                        c.ids == nodes(ids@),
                        c.out == slots(out@),
                        nodes(ms@) == metas_of(n.children@),
                        kw_step(st, *n) == Ok::<KwState, Fault>(KwState { ids: target.ids.push(*n), ..target }),
                        target == add_metas(c, metas_of(n.children@)),
                    decreases ms@.len() - j,
                {
                    let ghost b = nodes(meta@);
                    meta.push(ms[j]);
                    assert(nodes(meta@) == b.push(*ms@[j as int]));
                    assert(nodes(ms@).subrange(0, j + 1) == nodes(ms@).subrange(0, j as int).push(*ms@[j as int]));
                    j = j + 1;
                }
                assert(nodes(ms@).subrange(0, ms@.len() as int) == nodes(ms@));
                let ghost b = nodes(ids@);
                ids.push(n);
                assert(nodes(ids@) == b.push(*n));
                assert(kw_step(st, *n) == Ok::<KwState, Fault>(state_of(key, docs@, meta@, ids@, out@)));
            }
        } else if text_is(&n.kind, "sym_lit") {
            proof { lemma_kinds_distinct(); }
            let ghost m0 = nodes(meta@);
            match read_meta(n, &mut meta, ctx) {
                Err(e) => {
                    proof {
                        lemma_kw_fault_sticks(all, i + 1, e@);
                    }
                    return Err(e);
                },
                Ok(Some(v)) => {
                    let ghost mm = scan_symbol(n.children@)->Ok_0.0;
                    let ghost st2 = add_metas(st, mm);
                    assert(nodes(meta@) == st2.meta);
                    let d = take_nodes(&mut docs);
                    let m = take_nodes(&mut meta);
                    let x = take_nodes(&mut ids);
                    let ghost before = out@;
                    match key {
                        Some(k) => {
                            out.push(KWArgs::KV { key: k, value: Some(v), docs: d, meta: m, ids: x });
                            assert(slots(out@) == slots(before).push(KwSlot::KV { key: *k, value: Some(*v), docs: st2.docs, meta: st2.meta, ids: st2.ids }));
                        },
                        None => {
                            out.push(KWArgs::Value { value: v, docs: d, meta: m, ids: x });
                            assert(slots(out@) == slots(before).push(KwSlot::Value { value: *v, docs: st2.docs, meta: st2.meta, ids: st2.ids }));
                        },
                    }
                    key = None;
                    assert(slots(out@) == emit_value(st2, *v).out);
                    assert(nodes(docs@) == Seq::<CstNode>::empty());
                    assert(nodes(meta@) == Seq::<CstNode>::empty());
                    assert(nodes(ids@) == Seq::<CstNode>::empty());
                },
                Ok(None) => {
                    assert(state_of(key, docs@, meta@, ids@, out@) == add_metas(st, scan_symbol(n.children@)->Ok_0.0));
                },
            }
        } else {
            proof { lemma_kinds_distinct(); }
            if text_is(&n.kind, "list_lit") {
                let ms = metas_of_node(n);
                let mut j: usize = 0;
                let ghost m0 = nodes(meta@);
                while j < ms.len()
                    invariant
                        j <= ms@.len(),
                        nodes(meta@) == m0 + nodes(ms@).subrange(0, j as int),
                    decreases ms@.len() - j,
                {
                    let ghost b = nodes(meta@);
                    meta.push(ms[j]);
                    assert(nodes(meta@) == b.push(*ms@[j as int]));
                    assert(nodes(ms@).subrange(0, j + 1) == nodes(ms@).subrange(0, j as int).push(*ms@[j as int]));
                    j = j + 1;
                }
                assert(nodes(ms@).subrange(0, ms@.len() as int) == nodes(ms@));
            }
            let ghost st2 = state_of(key, docs@, meta@, ids@, out@);
            let d = take_nodes(&mut docs);
            let m = take_nodes(&mut meta);
            let x = take_nodes(&mut ids);
            let ghost before = out@;
            match key {
                Some(k) => {
                    out.push(KWArgs::KV { key: k, value: Some(n), docs: d, meta: m, ids: x });
                },
                None => {
                    out.push(KWArgs::Value { value: n, docs: d, meta: m, ids: x });
                },
            }
            key = None;
            assert(slots(out@) == emit_value(st2, *n).out);
            assert(nodes(docs@) == Seq::<CstNode>::empty());
            assert(nodes(meta@) == Seq::<CstNode>::empty());
            assert(nodes(ids@) == Seq::<CstNode>::empty());
        }
        assert(kw_step(st, *n) == Ok::<KwState, Fault>(state_of(key, docs@, meta@, ids@, out@)));
        i = i + 1;
    }
    assert(all.subrange(0, args@.len() as int) == all);
    let ghost st = state_of(key, docs@, meta@, ids@, out@);
    let ghost before = out@;
    if let Some(k) = key {
        out.push(KWArgs::KV { key: k, value: None, docs, meta, ids });
        assert(slots(out@) == slots(before).push(
            KwSlot::KV { key: *k, value: None, docs: st.docs, meta: st.meta, ids: st.ids }));
    } else if docs.len() != 0 || meta.len() != 0 || ids.len() != 0 {
        out.push(KWArgs::Unattached { docs, meta, ids });
        assert(slots(out@) == slots(before).push(
            KwSlot::Unattached { docs: st.docs, meta: st.meta, ids: st.ids }));
    }
    Ok(out)
}


/// What the arguments of an `(id ...)` form denote: a non-zero UUID written
/// as a string, or a non-zero `u32` written as a number.
pub open spec fn id_track(callee: CstNode, args: Seq<CstNode>) -> Result<EvolveTrack, Fault> {
    if args.len() != 1 {
        Err(fault_at(callee, SpecError::InvalidNumberOfArguments { expected: 1, got: args.len() }))
    } else {
        let val = args[0];
        if val.kind@ == "str_lit"@ {
            match uuid_value_of(string_text(val)) {
                Some(v) => if v == 0 {
                    Err(fault_at(val, SpecError::CantBeZero))
                } else {
                    Ok(EvolveTrack::Uuid(v))
                },
                None => Err(fault_at(val, SpecError::TypeError { expected: "uuid_lit"@, got: "str_lit"@ })),
            }
        } else if val.kind@ == "num_lit"@ {
            match u32_of_text(val.text@) {
                Some(v) => if v == 0 {
                    Err(fault_at(val, SpecError::CantBeZero))
                } else {
                    Ok(EvolveTrack::Local(v))
                },
                None => Err(fault_at(callee, SpecError::TypeError { expected: "u32"@, got: "num_lit"@ })),
            }
        } else {
            Err(fault_at(callee, SpecError::TypeError { expected: "str_lit"@, got: val.kind@ }))
        }
    }
}

/// A fault raised because the package or the source outgrew `u32`.
pub open spec fn is_capacity_fault(f: Fault) -> bool {
    f.error == SpecError::Custom("file too big"@) && f.locations.len() == 1
}

/// Evaluates an `(id ...)` form: records the evolution identity it denotes
/// and returns its id.
pub fn id(callee: &CstNode, args: &[&CstNode], ctx: &ParseSpecContext, package: &mut Package) -> (r: Result<
    Option<ResourceId>,
    SyntaxError,
>)
    requires
        old(package).wf(),
    ensures
        final(package).wf(),
        final(package).enumerations@ == old(package).enumerations@,
        final(package).enum_variant@ == old(package).enum_variant@,
        final(package).shapes@ == old(package).shapes@,
        final(package).keys@ == old(package).keys@,
        match id_track(*callee, nodes(args@)) {
            Ok(t) => match r {
                Ok(o) => o == Some(ResourceId::EvolveId(EvolveId((old(package).evolution_ids@.len() + 1) as u32)))
                    && old(package).evolution_ids@.len() < u32::MAX
                    && final(package).evolution_ids@ == old(package).evolution_ids@.push(t)
                    && final(package).evolution_span@ == old(package).evolution_span@.push(
                        crate::v1::types::span_of(nodes(args@)[0], ctx.source_id),
                    ),
                Err(e) => is_capacity_fault(e@) && old(package).evolution_ids@.len() >= u32::MAX
                    && *final(package) == *old(package),
            },
            Err(f) => r matches Err(e) && e@ == f && *final(package) == *old(package),
        },
        grows_within(*final(package), *old(package), 1),
        defs_same(*final(package), *old(package)),
        r is Ok ==> final(package).lit_tags@ == old(package).lit_tags@ && final(package).docs@ == old(package).docs@
            && final(package).lit_tags_interned@ == old(package).lit_tags_interned@
            && final(package).interned_tags@ == old(package).interned_tags@
            && final(package).idents@ == old(package).idents@
            && final(package).definitions@ == old(package).definitions@,
{
    proof {
        lemma_kinds_distinct();
        lemma_grows_within_refl(*package);
    }
    if args.len() != 1 {
        return Err(ctx.error(callee, ParseSpecError::InvalidNumberOfArguments { expected: 1, got: args.len() }));
    }
    let val: &CstNode = args[0];
    assert(*val == nodes(args@)[0]);
    let track = if text_is(&val.kind, "str_lit") {
        match parse_uuid(string(val)) {
            Some(v) => {
                if v == 0 {
                    return Err(ctx.error(val, ParseSpecError::CantBeZero));
                }
                EvolveTrack::Uuid(v)
            },
            None => {
                return Err(ctx.error(
                    val,
                    ParseSpecError::TypeError {
                        expected: String::from_str("uuid_lit"),
                        got: String::from_str("str_lit"),
                    },
                ));
            },
        }
    } else if text_is(&val.kind, "num_lit") {
        match parse_u32(val.text.as_str()) {
            Some(v) => {
                if v == 0 {
                    return Err(ctx.error(val, ParseSpecError::CantBeZero));
                }
                EvolveTrack::Local(v)
            },
            None => {
                return Err(ctx.error(
                    callee,
                    ParseSpecError::TypeError { expected: String::from_str("u32"), got: String::from_str("num_lit") },
                ));
            },
        }
    } else {
        return Err(ctx.error(
            callee,
            ParseSpecError::TypeError { expected: String::from_str("str_lit"), got: val.kind.clone() },
        ));
    };
    proof { lemma_grows_within_refl(*package); }
    match package.add_evolve_id(val, ctx.source_id, track) {
        Some(eid) => Ok(Some(ResourceId::EvolveId(eid))),
        None => Err(ctx.too_big(val)),
    }
}

/// What an attached `(id ...)` form denotes.
pub open spec fn id_form_track(n: CstNode) -> Result<EvolveTrack, Fault> {
    let e = form_elements(n.children@);
    if e.len() == 0 {
        Err(fault_at(n, SpecError::ExpectingNode))
    } else {
        id_track(e[0], e.drop_first())
    }
}

/// The nodes after the first, in order.
pub(crate) fn rest_of<'a>(v: &Vec<&'a CstNode>) -> (r: Vec<&'a CstNode>)
    requires
        v@.len() > 0,
    ensures
        nodes(r@) == nodes(v@).drop_first(),
{
    let mut out: Vec<&'a CstNode> = Vec::new();
    let mut i: usize = 1;
    while i < v.len()
        invariant
            1 <= i <= v@.len(),
            nodes(out@) == nodes(v@).subrange(1, i as int),
        decreases v@.len() - i,
    {
        let ghost b = nodes(out@);
        out.push(v[i]);
        assert(nodes(out@) == b.push(*v@[i as int]));
        assert(nodes(v@).subrange(1, i + 1) == nodes(v@).subrange(1, i as int).push(*v@[i as int]));
        i = i + 1;
    }
    assert(nodes(v@).subrange(1, v@.len() as int) == nodes(v@).drop_first());
    out
}

/// Evaluates an `(id ...)` form that floated onto a slot.
fn eval_id_form(n: &CstNode, ctx: &ParseSpecContext, package: &mut Package) -> (r: Result<
    (EvolveId, EvolveTrack),
    SyntaxError,
>)
    requires
        old(package).wf(),
    ensures
        final(package).wf(),
        final(package).enumerations@ == old(package).enumerations@,
        final(package).enum_variant@ == old(package).enum_variant@,
        final(package).shapes@ == old(package).shapes@,
        final(package).keys@ == old(package).keys@,
        final(package).evolution_ids@.len() >= old(package).evolution_ids@.len(),
        final(package).evolution_ids@.subrange(0, old(package).evolution_ids@.len() as int)
            == old(package).evolution_ids@,
        match id_form_track(*n) {
            Ok(t) => match r {
                Ok((eid, u)) => u == t && 1 <= eid.0 <= final(package).evolution_ids@.len()
                    && final(package).evolution_ids@[eid.0 - 1] == t,
                Err(e) => is_capacity_fault(e@) && old(package).evolution_ids@.len() >= u32::MAX,
            },
            Err(f) => r matches Err(e) && e@ == f,
        },
        grows_within(*final(package), *old(package), 1),
        defs_same(*final(package), *old(package)),
        final(package).lit_tags@ == old(package).lit_tags@,
        final(package).lit_tags_interned@ == old(package).lit_tags_interned@,
        final(package).docs@ == old(package).docs@,
        final(package).interned_tags@ == old(package).interned_tags@,
{
    proof { lemma_grows_within_refl(*package); }
    let e = form_elements_of(n);
    if e.len() == 0 {
        return Err(ctx.error(n, ParseSpecError::ExpectingNode));
    }
    let args = rest_of(&e);
    assert(*e@[0] == nodes(e@)[0]);
    match id(e[0], args.as_slice(), ctx, package) {
        Ok(Some(ResourceId::EvolveId(eid))) => {
            let t = package.evolution_ids[(eid.0 - 1) as usize];
            assert(package.evolution_ids@.subrange(0, old(package).evolution_ids@.len() as int)
                == old(package).evolution_ids@);
            Ok((eid, t))
        },
        Ok(_) => Err(ctx.error(n, ParseSpecError::ExpectingNode)),
        Err(err) => Err(err),
    }
}


/// What std's `str::to_lowercase` makes of a text.
pub uninterp spec fn lower_of(s: Seq<char>) -> Seq<char>;

/// Relies on str::to_lowercase: the result depends on the characters alone.
#[verifier::external_body]
pub(crate) fn lowercase(s: &str) -> (r: String)
    ensures
        r@ == lower_of(s@),
{
    s.to_lowercase()
}

pub open spec fn has_colon(s: Seq<char>) -> bool {
    exists|i: int| 0 <= i < s.len() && s[i] == ':'
}

fn contains_colon(s: &str) -> (r: bool)
    ensures
        r == has_colon(s@),
{
    let n = s.unicode_len();
    let mut i: usize = 0;
    while i < n
        invariant
            n == s@.len(),
            i <= n,
            forall|k: int| 0 <= k < i ==> s@[k] != ':',
        decreases n - i,
    {
        if s.get_char(i) == ':' {
            return true;
        }
        i = i + 1;
    }
    false
}

/// The fault of a slot made only of attributes that attach to nothing.
pub open spec fn unattached_fault(docs: Seq<CstNode>, meta: Seq<CstNode>, ids: Seq<CstNode>) -> Fault {
    if ids.len() > 0 {
        fault_at(ids[0], SpecError::UnattachedAttribute { kind: AttributeKind::Id })
    } else if docs.len() > 0 {
        fault_at(docs[0], SpecError::UnattachedAttribute { kind: AttributeKind::Doc })
    } else if meta.len() > 0 {
        fault_at(meta[0], SpecError::UnattachedAttribute { kind: AttributeKind::Meta })
    } else {
        Fault { locations: Seq::empty(), error: SpecError::UnattachedAttribute { kind: AttributeKind::Meta } }
    }
}

fn unattached_error(docs: &Vec<&CstNode>, meta: &Vec<&CstNode>, ids: &Vec<&CstNode>, ctx: &ParseSpecContext) -> (r: SyntaxError)
    ensures
        r@ == unattached_fault(nodes(docs@), nodes(meta@), nodes(ids@)),
{
    if ids.len() > 0 {
        ctx.error(ids[0], ParseSpecError::UnattachedAttribute { kind: AttributeKind::Id })
    } else if docs.len() > 0 {
        ctx.error(docs[0], ParseSpecError::UnattachedAttribute { kind: AttributeKind::Doc })
    } else if meta.len() > 0 {
        ctx.error(meta[0], ParseSpecError::UnattachedAttribute { kind: AttributeKind::Meta })
    } else {
        let locations: Vec<Point> = Vec::new();
        SyntaxError {
            locations,
            value: ParseSpecError::UnattachedAttribute { kind: AttributeKind::Meta },
            source_id: ctx.source_id,
        }
    }
}

/// The names (lowercased) and local ids of the variants accepted so far, with
/// where each was first written.
pub struct VariantAcc {
    pub names: Map<Seq<char>, Point>,
    pub ids: Map<u32, Point>,
}

/// How one slot of a `:variants` vector is judged, given the variants before it.
pub open spec fn variant_step(acc: VariantAcc, slot: KwSlot) -> Result<VariantAcc, Fault> {
    match slot {
        KwSlot::Value { value, .. } => Err(fault_at(value, SpecError::ExpectingKeyValue)),
        KwSlot::Unattached { docs, meta, ids } => Err(unattached_fault(docs, meta, ids)),
        KwSlot::KV { key, value, docs, meta, ids } => {
            let name = key_text(key);
            let low = lower_of(name);
            if has_colon(name) {
                Err(fault_at(key, SpecError::InvalidEnumVariantName { cause: VariantNameValidError::MultiplesSegments }))
            } else if variant_name_verdict(name, pascal_case_of(name)) is Err {
                Err(fault_at(key, SpecError::InvalidEnumVariantName {
                    cause: variant_name_verdict(name, pascal_case_of(name))->Err_0,
                }))
            } else if acc.names.contains_key(low) {
                Err(conflict_at(key, acc.names[low], SpecError::ConflictVariantNameDefinition))
            } else if ids.len() != 1 {
                Err(fault_at(key, SpecError::InvalidNumbersOfIds { expected: 1, got: ids.len() }))
            } else {
                match id_form_track(ids[0]) {
                    Err(f) => Err(f),
                    Ok(EvolveTrack::Uuid(_)) => Err(fault_at(
                        ids[0],
                        SpecError::InvalidId { expected: IdKind::Local, got: IdKind::Global },
                    )),
                    Ok(EvolveTrack::Local(v)) => if acc.ids.contains_key(v) {
                        Err(conflict_at(ids[0], acc.ids[v], SpecError::ConflictIdDefinition))
                    } else {
                        match value {
                            Some(x) => Err(fault_at(x, SpecError::TypeError { expected: "unit"@, got: x.kind@ })),
                            None => Ok(VariantAcc { names: acc.names.insert(low, key.start), ids: acc.ids.insert(v, ids[0].start) }),
                        }
                    },
                }
            }
        },
    }
}

/// The judgement of a `:variants` vector's slots, in order: the first fault,
/// or every variant's name and local id.
pub open spec fn check_variants(s: Seq<KwSlot>) -> Result<VariantAcc, Fault>
    decreases s.len(),
{
    if s.len() == 0 {
        Ok(VariantAcc { names: Map::empty(), ids: Map::empty() })
    } else {
        match check_variants(s.drop_last()) {
            Ok(acc) => variant_step(acc, s.last()),
            Err(f) => Err(f),
        }
    }
}

/// The lowercased name of a keyword slot.
pub open spec fn slot_name(slot: KwSlot) -> Seq<char> {
    lower_of(key_text(slot->KV_key))
}

/// What the single `(id ...)` form of a keyword slot denotes.
pub open spec fn slot_track(slot: KwSlot) -> Result<EvolveTrack, Fault> {
    id_form_track(slot->KV_ids[0])
}

/// A variant slot with exactly one id, which is local and non-zero.
pub open spec fn local_variant_slot(slot: KwSlot) -> bool {
    &&& slot is KV
    &&& slot->KV_ids.len() == 1
    &&& slot_track(slot) matches Ok(EvolveTrack::Local(v)) && v != 0
}

/// Every slot of `s` is a variant whose name and local id the accumulator
/// holds.
pub open spec fn acc_covers(acc: VariantAcc, s: Seq<KwSlot>) -> bool {
    forall|i: int| 0 <= i < s.len() ==> {
        &&& #[trigger] s[i] is KV
        &&& s[i]->KV_ids.len() == 1
        &&& acc.names.contains_key(slot_name(s[i]))
        &&& slot_track(s[i]) matches Ok(EvolveTrack::Local(v)) && v != 0 && acc.ids.contains_key(v)
    }
}

proof fn lemma_id_track_nonzero(callee: CstNode, args: Seq<CstNode>)
    ensures
        id_track(callee, args) matches Ok(t) ==> track_nonzero(t),
{
}

/// What an accepted vector's accumulator covers, and what distinguishes its
/// variants.
proof fn lemma_check_variants_covers(s: Seq<KwSlot>)
    requires
        check_variants(s) is Ok,
    ensures
        acc_covers(check_variants(s)->Ok_0, s),
        forall|i: int, j: int| 0 <= i < j < s.len() ==> slot_name(#[trigger] s[i]) != slot_name(#[trigger] s[j]),
        forall|i: int, j: int| 0 <= i < j < s.len() ==> slot_track(#[trigger] s[i]) != slot_track(#[trigger] s[j]),
    decreases s.len(),
{
    if s.len() > 0 {
        let p = s.drop_last();
        lemma_check_variants_covers(p);
        let acc = check_variants(p)->Ok_0;
        let last = s.last();
        let acc2 = check_variants(s)->Ok_0;
        if let Ok(EvolveTrack::Local(v)) = slot_track(last) {
            let e = form_elements(last->KV_ids[0].children@);
            lemma_id_track_nonzero(e[0], e.drop_first());
        }
        assert forall|i: int| 0 <= i < s.len() implies {
            &&& #[trigger] s[i] is KV
            &&& s[i]->KV_ids.len() == 1
            &&& acc2.names.contains_key(slot_name(s[i]))
            &&& slot_track(s[i]) matches Ok(EvolveTrack::Local(v)) && v != 0 && acc2.ids.contains_key(v)
        } by {
            if i < s.len() - 1 {
                assert(s[i] == p[i]);
            }
        }
        assert forall|i: int, j: int| 0 <= i < j < s.len() implies slot_name(#[trigger] s[i]) != slot_name(#[trigger] s[j]) by {
            if j < s.len() - 1 {
                assert(s[i] == p[i] && s[j] == p[j]);
            } else {
                assert(s[i] == p[i]);
                assert(acc.names.contains_key(slot_name(p[i])));
            }
        }
        assert forall|i: int, j: int| 0 <= i < j < s.len() implies slot_track(#[trigger] s[i]) != slot_track(#[trigger] s[j]) by {
            if j < s.len() - 1 {
                assert(s[i] == p[i] && s[j] == p[j]);
            } else {
                assert(s[i] == p[i]);
                assert(p[i] is KV);
            }
        }
    }
}

/// Variant uniqueness and evolve-id scope: in a vector of variants that is
/// accepted, every slot is a variant with exactly one id, that id is local
/// and non-zero, and no two variants share a lowercased name or a local id.
pub proof fn lemma_accepted_variants(s: Seq<KwSlot>)
    requires
        check_variants(s) is Ok,
    ensures
        forall|i: int| 0 <= i < s.len() ==> local_variant_slot(#[trigger] s[i]),
        forall|i: int, j: int| 0 <= i < j < s.len() ==> slot_name(#[trigger] s[i]) != slot_name(#[trigger] s[j]),
        forall|i: int, j: int| 0 <= i < j < s.len() ==> slot_track(#[trigger] s[i]) != slot_track(#[trigger] s[j]),
{
    lemma_check_variants_covers(s);
    let acc = check_variants(s)->Ok_0;
    assert forall|i: int| 0 <= i < s.len() implies local_variant_slot(#[trigger] s[i]) by {
        assert(acc_covers(acc, s));
    }
}

/// A fault that points at one node, or at two nodes in conflict.
pub open spec fn located(f: Fault) -> bool {
    1 <= f.locations.len() <= 2
}

/// A slot whose attributes attach to nothing holds at least one attribute.
pub open spec fn slot_attached_ok(slot: KwSlot) -> bool {
    slot matches KwSlot::Unattached { docs, meta, ids } ==> docs.len() > 0 || meta.len() > 0 || ids.len() > 0
}

proof fn lemma_scan_symbol_located(s: Seq<CstNode>)
    ensures
        scan_symbol(s) matches Err(f) ==> located(f),
    decreases s.len(),
{
    if s.len() > 0 {
        lemma_scan_symbol_located(s.drop_first());
    }
}

proof fn lemma_kw_run_located(s: Seq<CstNode>)
    ensures
        kw_run(s) matches Err(f) ==> located(f),
        kw_run(s) matches Ok(st) ==> forall|i: int| 0 <= i < st.out.len() ==> !(#[trigger] st.out[i] is Unattached),
    decreases s.len(),
{
    if s.len() > 0 {
        lemma_kw_run_located(s.drop_last());
        lemma_scan_symbol_located(s.last().children@);
        if let Ok(st) = kw_run(s.drop_last()) {
            if let Ok(st2) = kw_step(st, s.last()) {
                assert forall|i: int| 0 <= i < st2.out.len() implies !(#[trigger] st2.out[i] is Unattached) by {
                    if i < st.out.len() {
                        assert(close_key(st).out.len() >= st.out.len());
                    }
                }
            }
        }
    }
}

/// Linearization fails only with a located fault, and an unattached slot it
/// yields holds at least one attribute.
proof fn lemma_linearize_located(s: Seq<CstNode>)
    ensures
        linearize(s) matches Err(f) ==> located(f),
        linearize(s) matches Ok(slots) ==> forall|i: int| 0 <= i < slots.len() ==> slot_attached_ok(#[trigger] slots[i]),
{
    lemma_kw_run_located(s);
    if let Ok(st) = kw_run(s) {
        let slots = kw_finish(st);
        assert forall|i: int| 0 <= i < slots.len() implies slot_attached_ok(#[trigger] slots[i]) by {
            if i < st.out.len() {
                assert(slots[i] == st.out[i]);
            }
        }
    }
}

proof fn lemma_id_form_located(n: CstNode)
    ensures
        id_form_track(n) matches Err(f) ==> located(f),
{
}

proof fn lemma_check_variants_located(s: Seq<KwSlot>)
    requires
        forall|i: int| 0 <= i < s.len() ==> slot_attached_ok(#[trigger] s[i]),
    ensures
        check_variants(s) matches Err(f) ==> located(f),
    decreases s.len(),
{
    if s.len() > 0 {
        assert forall|i: int| 0 <= i < s.drop_last().len() implies slot_attached_ok(#[trigger] s.drop_last()[i]) by {
            assert(s.drop_last()[i] == s[i]);
        }
        lemma_check_variants_located(s.drop_last());
        assert(slot_attached_ok(s[s.len() - 1]));
        if let KwSlot::KV { ids, .. } = s.last() {
            if ids.len() == 1 {
                lemma_id_form_located(ids[0]);
            }
        }
    }
}

proof fn lemma_variants_outcome_located(node: CstNode)
    ensures
        variants_outcome(node) matches Err(f) ==> located(f),
{
    lemma_linearize_located(meaningful_with_docs(node.children@));
    if let Ok(slots) = linearize(meaningful_with_docs(node.children@)) {
        lemma_check_variants_located(slots);
    }
}

proof fn lemma_enum_run_located(s: Seq<KwSlot>)
    requires
        forall|i: int| 0 <= i < s.len() ==> slot_attached_ok(#[trigger] s[i]),
    ensures
        enum_run(s) matches Err(f) ==> located(f),
    decreases s.len(),
{
    if s.len() > 0 {
        assert forall|i: int| 0 <= i < s.drop_last().len() implies slot_attached_ok(#[trigger] s.drop_last()[i]) by {
            assert(s.drop_last()[i] == s[i]);
        }
        lemma_enum_run_located(s.drop_last());
        assert(slot_attached_ok(s[s.len() - 1]));
        if let KwSlot::KV { value, .. } = s.last() {
            if let Some(v) = value {
                lemma_variants_outcome_located(v);
            }
        }
    }
}

/// Evaluating a form fails only with a located fault.
pub proof fn lemma_eval_located(node: CstNode)
    ensures
        eval_outcome(node) matches Err(f) ==> located(f),
{
    let e = form_elements(node.children@);
    if e.len() > 0 {
        lemma_linearize_located(e.drop_first());
        if let Ok(slots) = linearize(e.drop_first()) {
            lemma_enum_run_located(slots);
        }
    }
}

/// The judgement of the content of a `:variants` vector.
pub open spec fn variants_outcome(node: CstNode) -> Result<Seq<KwSlot>, Fault> {
    match linearize(meaningful_with_docs(node.children@)) {
        Ok(s) => match check_variants(s) {
            Ok(_) => Ok(s),
            Err(f) => Err(f),
        },
        Err(f) => Err(f),
    }
}

proof fn lemma_variant_fault_sticks(s: Seq<KwSlot>, i: int, f: Fault)
    requires
        0 <= i <= s.len(),
        check_variants(s.subrange(0, i)) == Err::<VariantAcc, Fault>(f),
    ensures
        check_variants(s) == Err::<VariantAcc, Fault>(f),
    decreases s.len() - i,
{
    if i < s.len() {
        assert(s.subrange(0, i + 1).drop_last() == s.subrange(0, i));
        lemma_variant_fault_sticks(s, i + 1, f);
    } else {
        assert(s.subrange(0, i) == s);
    }
}

/// A text without one line ending (`\n` or `\r\n`) at its end.
pub open spec fn without_line_end(s: Seq<char>) -> Seq<char> {
    if s.len() >= 2 && s[s.len() - 2] == '\r' && s[s.len() - 1] == '\n' {
        s.subrange(0, s.len() - 2)
    } else if s.len() >= 1 && s[s.len() - 1] == '\n' {
        s.subrange(0, s.len() - 1)
    } else {
        s
    }
}

/// `p2` holds every variant, evolution identity and keyword of `p1`, in
/// place.
pub open spec fn grows_from(p2: Package, p1: Package) -> bool {
    &&& p1.enum_variant@.len() <= p2.enum_variant@.len()
    &&& p2.enum_variant@.subrange(0, p1.enum_variant@.len() as int) == p1.enum_variant@
    &&& p1.evolution_ids@.len() <= p2.evolution_ids@.len()
    &&& p2.evolution_ids@.subrange(0, p1.evolution_ids@.len() as int) == p1.evolution_ids@
    &&& p1.keys@.len() <= p2.keys@.len()
    &&& p2.keys@.subrange(0, p1.keys@.len() as int) == p1.keys@
    &&& p1.docs@.len() <= p2.docs@.len()
    &&& p2.docs@.subrange(0, p1.docs@.len() as int) == p1.docs@
    &&& p1.lit_tags_interned@.len() <= p2.lit_tags_interned@.len()
    &&& p2.lit_tags_interned@.subrange(0, p1.lit_tags_interned@.len() as int) == p1.lit_tags_interned@
    &&& p1.interned_tags@.len() <= p2.interned_tags@.len()
    &&& p2.interned_tags@.subrange(0, p1.interned_tags@.len() as int) == p1.interned_tags@
}

/// The keyword a variant was written with, if it was written with one.
pub open spec fn variant_key_text(pkg: Package, v: EnumVariant) -> Option<Seq<char>> {
    match v.name {
        EnumVariantName::Ast(a) => if 1 <= a.0.0 <= pkg.keys@.len() && pkg.keys@[a.0.0 - 1].segments@.len() == 1 {
            Some(pkg.keys@[a.0.0 - 1].segments@[0]@)
        } else {
            None
        },
        EnumVariantName::Generated(_) => None,
    }
}

/// The variant `id` of `pkg` is the one recorded for `slot`: its local id
/// names the evolution identity the slot's `(id ...)` denotes, and its name is
/// the slot's keyword.
pub open spec fn records_slot(pkg: Package, id: EnumVariantId, slot: KwSlot) -> bool {
    &&& 1 <= id.0 <= pkg.enum_variant@.len()
    &&& 1 <= pkg.enum_variant@[id.0 - 1].local_id.0 <= pkg.evolution_ids@.len()
    &&& slot_track(slot) == Ok::<EvolveTrack, Fault>(
        pkg.evolution_ids@[pkg.enum_variant@[id.0 - 1].local_id.0 - 1],
    )
    &&& variant_matches(
        pkg,
        pkg.enum_variant@[id.0 - 1],
        pkg.enum_variant@[id.0 - 1].local_id,
        key_text(slot->KV_key),
        slot->KV_meta,
        slot->KV_docs,
    )
}

proof fn lemma_records_grow(p1: Package, p2: Package, id: EnumVariantId, slot: KwSlot)
    requires
        records_slot(p1, id, slot),
        grows_from(p2, p1),
    ensures
        records_slot(p2, id, slot),
{
    let v = p1.enum_variant@[id.0 - 1];
    lemma_prefix_index(p1.enum_variant@, p2.enum_variant@, id.0 - 1);
    lemma_prefix_index(p1.evolution_ids@, p2.evolution_ids@, v.local_id.0 - 1);
    lemma_variant_matches_grow(p1, p2, v, v.local_id, key_text(slot->KV_key), slot->KV_meta, slot->KV_docs);
}

proof fn lemma_seq_prefix_trans<T>(a: Seq<T>, b: Seq<T>, c: Seq<T>)
    requires
        a.len() <= b.len() <= c.len(),
        b.subrange(0, a.len() as int) == a,
        c.subrange(0, b.len() as int) == b,
    ensures
        c.subrange(0, a.len() as int) == a,
{
    assert forall|k: int| 0 <= k < a.len() implies c[k] == a[k] by {
        lemma_prefix_index(a, b, k);
        lemma_prefix_index(b, c, k);
    }
    assert(c.subrange(0, a.len() as int) =~= a);
}

proof fn lemma_grows_trans(p1: Package, p2: Package, p3: Package)
    requires
        grows_from(p2, p1),
        grows_from(p3, p2),
    ensures
        grows_from(p3, p1),
{
    lemma_seq_prefix_trans(p1.enum_variant@, p2.enum_variant@, p3.enum_variant@);
    lemma_seq_prefix_trans(p1.evolution_ids@, p2.evolution_ids@, p3.evolution_ids@);
    lemma_seq_prefix_trans(p1.keys@, p2.keys@, p3.keys@);
    lemma_seq_prefix_trans(p1.docs@, p2.docs@, p3.docs@);
    lemma_seq_prefix_trans(p1.lit_tags_interned@, p2.lit_tags_interned@, p3.lit_tags_interned@);
    lemma_seq_prefix_trans(p1.interned_tags@, p2.interned_tags@, p3.interned_tags@);
}

proof fn lemma_grows_refl(p: Package)
    ensures
        grows_from(p, p),
{
    assert(p.enum_variant@.subrange(0, p.enum_variant@.len() as int) == p.enum_variant@);
    assert(p.evolution_ids@.subrange(0, p.evolution_ids@.len() as int) == p.evolution_ids@);
    assert(p.keys@.subrange(0, p.keys@.len() as int) == p.keys@);
    assert(p.docs@.subrange(0, p.docs@.len() as int) == p.docs@);
    assert(p.lit_tags_interned@.subrange(0, p.lit_tags_interned@.len() as int) == p.lit_tags_interned@);
    assert(p.interned_tags@.subrange(0, p.interned_tags@.len() as int) == p.interned_tags@);
}

/// Variant uniqueness within an enum, in the package: the variants recorded
/// for an accepted `:variants` vector have local, non-zero and pairwise
/// distinct evolution identities, and pairwise distinct lowercased names.
pub proof fn lemma_recorded_variants_unique(pkg: Package, ids: Seq<EnumVariantId>, s: Seq<KwSlot>)
    requires
        check_variants(s) is Ok,
        ids.len() == s.len(),
        forall|k: int| 0 <= k < ids.len() ==> records_slot(pkg, #[trigger] ids[k], s[k]),
    ensures
        forall|k: int| 0 <= k < ids.len() ==> (#[trigger] pkg.evolution_ids@[pkg.enum_variant@[ids[k].0 - 1].local_id.0 - 1]
            matches EvolveTrack::Local(v) && v != 0),
        forall|a: int, b: int| 0 <= a < b < ids.len() ==>
            pkg.evolution_ids@[pkg.enum_variant@[(#[trigger] ids[a]).0 - 1].local_id.0 - 1]
            != pkg.evolution_ids@[pkg.enum_variant@[(#[trigger] ids[b]).0 - 1].local_id.0 - 1],
        forall|a: int, b: int| 0 <= a < b < ids.len() ==>
            lower_of(variant_key_text(pkg, pkg.enum_variant@[(#[trigger] ids[a]).0 - 1])->Some_0)
            != lower_of(variant_key_text(pkg, pkg.enum_variant@[(#[trigger] ids[b]).0 - 1])->Some_0),
{
    lemma_accepted_variants(s);
    assert forall|k: int| 0 <= k < ids.len() implies (#[trigger] pkg.evolution_ids@[pkg.enum_variant@[ids[k].0 - 1].local_id.0 - 1]
        matches EvolveTrack::Local(v) && v != 0) by {
        assert(records_slot(pkg, ids[k], s[k]));
        assert(local_variant_slot(s[k]));
    }
    assert forall|a: int, b: int| 0 <= a < b < ids.len() implies
        pkg.evolution_ids@[pkg.enum_variant@[(#[trigger] ids[a]).0 - 1].local_id.0 - 1]
        != pkg.evolution_ids@[pkg.enum_variant@[(#[trigger] ids[b]).0 - 1].local_id.0 - 1] by {
        assert(records_slot(pkg, ids[a], s[a]));
        assert(records_slot(pkg, ids[b], s[b]));
        assert(slot_track(s[a]) != slot_track(s[b]));
    }
    assert forall|a: int, b: int| 0 <= a < b < ids.len() implies
        lower_of(variant_key_text(pkg, pkg.enum_variant@[(#[trigger] ids[a]).0 - 1])->Some_0)
        != lower_of(variant_key_text(pkg, pkg.enum_variant@[(#[trigger] ids[b]).0 - 1])->Some_0) by {
        assert(records_slot(pkg, ids[a], s[a]));
        assert(records_slot(pkg, ids[b], s[b]));
        assert(slot_name(s[a]) != slot_name(s[b]));
    }
}

/// The text of a documentation comment without its leading `;;` and its line
/// ending.
pub open spec fn doc_text(n: CstNode) -> Seq<char> {
    if n.text@.len() >= 2 {
        without_line_end(n.text@.subrange(2, n.text@.len() as int))
    } else {
        n.text@
    }
}

/// The text of a documentation comment without its leading `;;` and its line
/// ending.
pub fn doc_text_of(n: &CstNode) -> (r: String)
    ensures
        r@ == doc_text(*n),
{
    let t = n.text.as_str();
    let len = t.unicode_len();
    if len < 2 {
        return n.text.clone();
    }
    let mut end = len;
    if end >= 4 && t.get_char(end - 2) == '\r' && t.get_char(end - 1) == '\n' {
        end = end - 2;
    } else if end >= 3 && t.get_char(end - 1) == '\n' {
        end = end - 1;
    }
    let body = t.substring_char(2, end);
    proof {
        let s = n.text@.subrange(2, len as int);
        assert(s.len() == len - 2);
        if len >= 4 {
            assert(s[s.len() - 2] == n.text@[len - 2]);
            assert(s[s.len() - 1] == n.text@[len - 1]);
        }
        if len >= 3 {
            assert(s[s.len() - 1] == n.text@[len - 1]);
        }
        assert(body@ == n.text@.subrange(2, end as int));
        assert(s.subrange(0, end - 2) == n.text@.subrange(2, end as int));
    }
    String::from_str(body)
}

/// The text of documentation id `d`, if it names one.
pub open spec fn doc_of(pkg: Package, d: DocId) -> Option<Seq<char>> {
    if 1 <= d.0 <= pkg.docs@.len() {
        Some(pkg.docs@[d.0 - 1]@)
    } else {
        None
    }
}

/// The interned name of tag id `t`, if it names one.
pub open spec fn tag_name_of(pkg: Package, t: TagId) -> Option<Seq<char>> {
    if 1 <= t.0 <= pkg.lit_tags_interned@.len() && 1 <= pkg.lit_tags_interned@[t.0 - 1].0 <= pkg.interned_tags@.len() {
        Some(pkg.interned_tags@[pkg.lit_tags_interned@[t.0 - 1].0 - 1].value@)
    } else {
        None
    }
}

/// A recorded unit variant with the given local id and name, one tag per
/// metadata value (named as written) and one text per doc comment.
pub open spec fn variant_matches(
    pkg: Package,
    v: EnumVariant,
    local: EvolveId,
    name: Seq<char>,
    meta: Seq<CstNode>,
    docs: Seq<CstNode>,
) -> bool {
    &&& v.local_id == local
    &&& variant_key_text(pkg, v) == Some(name)
    &&& v.kind is Unit
    &&& v.docs@.len() == docs.len()
    &&& forall|j: int| 0 <= j < docs.len() ==> doc_of(pkg, #[trigger] v.docs@[j]) == Some(doc_text(docs[j]))
    &&& tag_set_items(v.tags).len() == meta.len()
    &&& forall|j: int| 0 <= j < meta.len() ==> tag_name_of(pkg, #[trigger] tag_set_items(v.tags)[j]) == Some(meta[j].text@)
}

pub proof fn lemma_prefix_index<T>(a: Seq<T>, b: Seq<T>, k: int)
    requires
        a.len() <= b.len(),
        b.subrange(0, a.len() as int) == a,
        0 <= k < a.len(),
    ensures
        b[k] == a[k],
{
    assert(b[k] == b.subrange(0, a.len() as int)[k]);
}

proof fn lemma_variant_matches_grow(p1: Package, p2: Package, v: EnumVariant, local: EvolveId, name: Seq<char>, meta: Seq<CstNode>, docs: Seq<CstNode>)
    requires
        variant_matches(p1, v, local, name, meta, docs),
        grows_from(p2, p1),
    ensures
        variant_matches(p2, v, local, name, meta, docs),
{
    if let EnumVariantName::Ast(a) = v.name {
        lemma_prefix_index(p1.keys@, p2.keys@, a.0.0 - 1);
    }
    assert forall|j: int| 0 <= j < docs.len() implies doc_of(p2, #[trigger] v.docs@[j]) == Some(doc_text(docs[j])) by {
        assert(doc_of(p1, v.docs@[j]) == Some(doc_text(docs[j])));
        lemma_prefix_index(p1.docs@, p2.docs@, v.docs@[j].0 - 1);
    }
    assert forall|j: int| 0 <= j < meta.len() implies tag_name_of(p2, #[trigger] tag_set_items(v.tags)[j]) == Some(meta[j].text@) by {
        let t = tag_set_items(v.tags)[j];
        assert(tag_name_of(p1, t) == Some(meta[j].text@));
        lemma_prefix_index(p1.lit_tags_interned@, p2.lit_tags_interned@, t.0 - 1);
        lemma_prefix_index(p1.interned_tags@, p2.interned_tags@, p1.lit_tags_interned@[t.0 - 1].0 - 1);
    }
}

proof fn lemma_room_rest_pre(p1: Package, p2: Package, used: nat, total: nat)
    requires
        grows_within(p2, p1, used),
    ensures
        room(p1, total) && used <= total ==> room(p2, (total - used) as nat),
{
}

pub proof fn lemma_room_rest(p1: Package, p2: Package, used: nat, k: nat, total: nat)
    requires
        room(p1, total),
        grows_within(p2, p1, used),
        used + k <= total,
    ensures
        room(p2, k),
{
}

/// Records a unit variant written with keyword `k` named `name`, whose local
/// id is `evolve_id`: its tags (from `meta`), its documentation (from
/// `docs`), its keyword and the variant itself. The only failure is a full
/// column.
fn record_variant(
    k: &CstNode,
    name: &str,
    evolve_id: EvolveId,
    meta: &Vec<&CstNode>,
    docs: &Vec<&CstNode>,
    ctx: &ParseSpecContext,
    package: &mut Package,
) -> (r: Result<EnumVariantId, SyntaxError>)
    requires
        old(package).wf(),
    ensures
        final(package).wf(),
        grows_within(*final(package), *old(package), (2 + meta@.len() + docs@.len()) as nat),
        defs_same(*final(package), *old(package)),
        room(*old(package), (2 + meta@.len() + docs@.len()) as nat) ==> r is Ok,
        r matches Err(e) ==> is_capacity_fault(e@),
        final(package).enumerations@ == old(package).enumerations@,
        final(package).shapes@ == old(package).shapes@,
        final(package).evolution_ids@ == old(package).evolution_ids@,
        r is Ok ==> grows_from(*final(package), *old(package)),
        r matches Ok(vid) ==> vid.0 == old(package).enum_variant@.len() + 1 && final(package).enum_variant@.len() == vid.0
            && variant_matches(*final(package), final(package).enum_variant@[vid.0 - 1], evolve_id, name@, nodes(meta@), nodes(docs@)),
{
    let ghost p0 = *package;
    proof {
        lemma_grows_within_refl(p0);
        lemma_grows_refl(p0);
    }
    let ghost total = (2 + meta@.len() + docs@.len()) as nat;
    let mut tags: Vec<crate::v1::ids::TagId> = Vec::new();
    let mut j: usize = 0;
    while j < meta.len()
        invariant
            j <= meta@.len(),
            package.wf(),
            grows_within(*package, p0, j as nat),
            defs_same(*package, *old(package)),
            grows_from(*package, p0),
            p0 == *old(package),
            total == 2 + meta@.len() + docs@.len(),
            package.evolution_ids@ == p0.evolution_ids@,
            package.enum_variant@ == p0.enum_variant@,
            package.keys@ == p0.keys@,
            package.docs@ == p0.docs@,
            package.enumerations@ == p0.enumerations@,
            package.shapes@ == p0.shapes@,
            tags@.len() == j,
            forall|jj: int| 0 <= jj < j ==> tag_name_of(*package, #[trigger] tags@[jj]) == Some(nodes(meta@)[jj].text@),
            forall|jj: int| 0 <= jj < j ==> (#[trigger] tags@[jj]).0 <= package.lit_tags@.len(),
            forall|a: int, b: int| 0 <= a < b < j ==> (#[trigger] tags@[a]).0 < (#[trigger] tags@[b]).0,
        decreases meta@.len() - j,
    {
        let m: &CstNode = meta[j];
        let ghost pt = *package;
        match package.add_tag(m, ctx.source_id, Tag::Word, m.text.as_str()) {
            Some(t) => {
                let ghost before = tags@;
                tags.push(t);
                proof {
                    lemma_grows_within_trans(p0, pt, *package, j as nat, 1);
                    assert(package.lit_tags_interned@[t.0 - 1] == package.lit_tags_interned@.last());
                    assert forall|jj: int| 0 <= jj < j + 1 implies tag_name_of(*package, #[trigger] tags@[jj]) == Some(nodes(meta@)[jj].text@) by {
                        if jj < j {
                            let u = before[jj];
                            assert(tags@[jj] == u);
                            assert(tag_name_of(pt, u) == Some(nodes(meta@)[jj].text@));
                            lemma_prefix_index(pt.lit_tags_interned@, package.lit_tags_interned@, u.0 - 1);
                            lemma_prefix_index(pt.interned_tags@, package.interned_tags@, pt.lit_tags_interned@[u.0 - 1].0 - 1);
                        } else {
                            assert(*m == nodes(meta@)[jj]);
                        }
                    }
                    assert(package.lit_tags_interned@.subrange(0, p0.lit_tags_interned@.len() as int) =~= p0.lit_tags_interned@) by {
                        assert forall|x: int| 0 <= x < p0.lit_tags_interned@.len() implies package.lit_tags_interned@[x] == p0.lit_tags_interned@[x] by {
                            lemma_prefix_index(p0.lit_tags_interned@, pt.lit_tags_interned@, x);
                            lemma_prefix_index(pt.lit_tags_interned@, package.lit_tags_interned@, x);
                        }
                    }
                    assert(package.interned_tags@.subrange(0, p0.interned_tags@.len() as int) =~= p0.interned_tags@) by {
                        assert forall|x: int| 0 <= x < p0.interned_tags@.len() implies package.interned_tags@[x] == p0.interned_tags@[x] by {
                            lemma_prefix_index(p0.interned_tags@, pt.interned_tags@, x);
                            lemma_prefix_index(pt.interned_tags@, package.interned_tags@, x);
                        }
                    }
                }
            },
            None => {
                proof {
                    if room(p0, total) {
                        lemma_room_rest(p0, pt, j as nat, 1, total);
                    }
                    lemma_grows_within_weaken(p0, *package, j as nat, total);
                }
                return Err(ctx.too_big(m));
            },
        }
        j = j + 1;
    }
    let mut doc_ids: Vec<crate::v1::ids::DocId> = Vec::new();
    let mut j: usize = 0;
    let ghost pm = *package;
    while j < docs.len()
        invariant
            j <= docs@.len(),
            package.wf(),
            grows_within(*package, p0, (meta@.len() + j) as nat),
            defs_same(*package, *old(package)),
            grows_from(*package, p0),
            p0 == *old(package),
            total == 2 + meta@.len() + docs@.len(),
            package.evolution_ids@ == p0.evolution_ids@,
            package.enum_variant@ == p0.enum_variant@,
            package.keys@ == p0.keys@,
            package.lit_tags_interned@ == pm.lit_tags_interned@,
            package.interned_tags@ == pm.interned_tags@,
            package.enumerations@ == p0.enumerations@,
            package.shapes@ == p0.shapes@,
            tags@.len() == meta@.len(),
            forall|jj: int| 0 <= jj < meta@.len() ==> tag_name_of(pm, #[trigger] tags@[jj]) == Some(nodes(meta@)[jj].text@),
            doc_ids@.len() == j,
            forall|jj: int| 0 <= jj < j ==> doc_of(*package, #[trigger] doc_ids@[jj]) == Some(doc_text(nodes(docs@)[jj])),
        decreases docs@.len() - j,
    {
        let d: &CstNode = docs[j];
        let text = doc_text_of(d);
        let ghost pd = *package;
        match package.add_doc(d, ctx.source_id, text) {
            Some(id) => {
                let ghost before = doc_ids@;
                doc_ids.push(id);
                proof {
                    lemma_grows_within_trans(p0, pd, *package, (meta@.len() + j) as nat, 1);
                    assert(package.docs@.subrange(0, pd.docs@.len() as int) =~= pd.docs@);
                    assert forall|jj: int| 0 <= jj < j + 1 implies doc_of(*package, #[trigger] doc_ids@[jj]) == Some(doc_text(nodes(docs@)[jj])) by {
                        if jj < j {
                            assert(doc_ids@[jj] == before[jj]);
                            assert(doc_of(pd, before[jj]) == Some(doc_text(nodes(docs@)[jj])));
                            lemma_prefix_index(pd.docs@, package.docs@, before[jj].0 - 1);
                        } else {
                            assert(*d == nodes(docs@)[jj]);
                        }
                    }
                    assert(package.docs@.subrange(0, p0.docs@.len() as int) =~= p0.docs@) by {
                        assert forall|x: int| 0 <= x < p0.docs@.len() implies package.docs@[x] == p0.docs@[x] by {
                            lemma_prefix_index(p0.docs@, pd.docs@, x);
                        }
                    }
                }
            },
            None => {
                proof {
                    if room(p0, total) {
                        lemma_room_rest(p0, pd, (meta@.len() + j) as nat, 1, total);
                    }
                    lemma_grows_within_weaken(p0, *package, (meta@.len() + j) as nat, total);
                }
                return Err(ctx.too_big(d));
            },
        }
        j = j + 1;
    }
    let mut segments: Vec<String> = Vec::new();
    segments.push(String::from_str(name));
    let ghost seg = segments@;
    let ghost pk = *package;
    let key_id = match package.add_key(k, ctx.source_id, Key { segments }) {
        Some(id) => id,
        None => {
            proof {
                if room(p0, total) {
                    lemma_room_rest(p0, pk, (meta@.len() + docs@.len()) as nat, 1, total);
                }
                lemma_grows_within_weaken(p0, *package, (meta@.len() + docs@.len()) as nat, total);
            }
            return Err(ctx.too_big(k));
        },
    };
    proof { lemma_grows_within_trans(p0, pk, *package, (meta@.len() + docs@.len()) as nat, 1); }
    let ghost pv = *package;
    let ghost tag_list = tags@;
    let mut tag_set = tag_set_new();
    let mut q: usize = 0;
    while q < tags.len()
        invariant
            q <= tag_list.len(),
            tag_list == tags@,
            forall|a: int, b: int| 0 <= a < b < tag_list.len() ==> (#[trigger] tag_list[a]).0 < (#[trigger] tag_list[b]).0,
            tag_set_items(tag_set) == tag_list.subrange(0, q as int),
        decreases tag_list.len() - q,
    {
        let t = tags[q];
        proof {
            assert forall|x: int| 0 <= x < q implies tag_list.subrange(0, q as int)[x] != t by {
                assert(tag_list.subrange(0, q as int)[x] == tag_list[x]);
                assert(tag_list[x].0 < tag_list[q as int].0);
            }
        }
        tag_set_insert(&mut tag_set, t);
        assert(tag_list.subrange(0, q + 1) == tag_list.subrange(0, q as int).push(t));
        q = q + 1;
    }
    assert(tag_list.subrange(0, tag_list.len() as int) == tag_list);
    let variant = EnumVariant {
        local_id: evolve_id,
        compiler_id: None,
        cross_schema_id: Vec::new(),
        derived_trace: None,
        name: EnumVariantName::Ast(EnumVariantNameAstId(key_id)),
        tags: tag_set,
        docs: doc_ids,
        kind: EnumVariantKind::Unit,
    };
    let ghost vv = variant;
    assert(tag_set_items(vv.tags) == tag_list);
    let vid = match package.add_enum_variant(variant, Some(Span::new(k, ctx.source_id))) {
        Some(v) => v,
        None => {
            proof {
                if room(p0, total) {
                    lemma_room_rest(p0, pv, (1 + meta@.len() + docs@.len()) as nat, 1, total);
                }
                lemma_grows_within_weaken(p0, *package, (1 + meta@.len() + docs@.len()) as nat, total);
            }
            return Err(ctx.too_big(k));
        },
    };
    proof {
        lemma_grows_within_trans(p0, pv, *package, (1 + meta@.len() + docs@.len()) as nat, 1);
        assert(package.enum_variant@[vid.0 - 1] == vv);
        assert(package.keys@[key_id.0 - 1].segments@ == seg);
        assert(seg[0]@ == name@);
        assert forall|jj: int| 0 <= jj < meta@.len() implies tag_name_of(*package, #[trigger] tag_set_items(vv.tags)[jj]) == Some(nodes(meta@)[jj].text@) by {
            assert(tag_name_of(pm, tag_set_items(vv.tags)[jj]) == Some(nodes(meta@)[jj].text@));
        }
        assert forall|jj: int| 0 <= jj < docs@.len() implies doc_of(*package, #[trigger] vv.docs@[jj]) == Some(doc_text(nodes(docs@)[jj])) by {
            assert(doc_of(pk, vv.docs@[jj]) == Some(doc_text(nodes(docs@)[jj])));
        }
        assert(package.keys@.subrange(0, p0.keys@.len() as int) =~= p0.keys@);
        assert(package.enum_variant@.subrange(0, p0.enum_variant@.len() as int) =~= p0.enum_variant@);
        assert(package.docs@.subrange(0, p0.docs@.len() as int) =~= p0.docs@) by {
            assert forall|x: int| 0 <= x < p0.docs@.len() implies package.docs@[x] == p0.docs@[x] by {
                lemma_prefix_index(p0.docs@, pk.docs@, x);
            }
        }
        assert(package.lit_tags_interned@.subrange(0, p0.lit_tags_interned@.len() as int) =~= p0.lit_tags_interned@) by {
            assert forall|x: int| 0 <= x < p0.lit_tags_interned@.len() implies package.lit_tags_interned@[x] == p0.lit_tags_interned@[x] by {
                lemma_prefix_index(p0.lit_tags_interned@, pm.lit_tags_interned@, x);
            }
        }
        assert(package.interned_tags@.subrange(0, p0.interned_tags@.len() as int) =~= p0.interned_tags@) by {
            assert forall|x: int| 0 <= x < p0.interned_tags@.len() implies package.interned_tags@[x] == p0.interned_tags@[x] by {
                lemma_prefix_index(p0.interned_tags@, pm.interned_tags@, x);
            }
        }
    }
    Ok(vid)
}

/// What recording one variant slot may add to any one column: its evolution
/// id, one tag per metadata value, one text per doc comment, its keyword and
/// the variant itself.
pub open spec fn slot_cost(slot: KwSlot) -> nat {
    match slot {
        KwSlot::KV { docs, meta, .. } => 3 + meta.len() + docs.len(),
        _ => 0,
    }
}

pub open spec fn slots_cost(s: Seq<KwSlot>) -> nat
    decreases s.len(),
{
    if s.len() == 0 {
        0
    } else {
        slots_cost(s.drop_last()) + slot_cost(s.last())
    }
}

/// What reading a `:variants` vector may add to any one column.
pub open spec fn variants_cost(node: CstNode) -> nat {
    match linearize(meaningful_with_docs(node.children@)) {
        Ok(s) => slots_cost(s),
        Err(_) => 0,
    }
}

proof fn lemma_slots_cost_prefix(s: Seq<KwSlot>, i: int)
    requires
        0 <= i <= s.len(),
    ensures
        slots_cost(s.subrange(0, i)) <= slots_cost(s),
    decreases s.len() - i,
{
    if i < s.len() {
        assert(s.subrange(0, i + 1).drop_last() == s.subrange(0, i));
        lemma_slots_cost_prefix(s, i + 1);
    } else {
        assert(s.subrange(0, i) == s);
    }
}

/// Records the variants that a `:variants` vector declares, appending their
/// ids to `variants`. Each slot must be a keyword naming the variant: one
/// segment, of the variant name form, in Pascal case, unique when lowercased,
/// with exactly one local `(id ...)` unique in the vector, and no value.
pub fn read_enum_variants(
    variants: &mut Vec<EnumVariantId>,
    node: &CstNode,
    ctx: &ParseSpecContext,
    package: &mut Package,
) -> (r: Result<(), SyntaxError>)
    requires
        old(package).wf(),
    ensures
        final(package).wf(),
        final(package).enumerations@ == old(package).enumerations@,
        final(package).shapes@ == old(package).shapes@,
        r is Ok ==> variants_outcome(*node) is Ok,
        r is Ok ==> final(variants)@.len() == old(variants)@.len() + variants_outcome(*node)->Ok_0.len(),
        r is Ok ==> final(variants)@.subrange(0, old(variants)@.len() as int) == old(variants)@,
        r is Ok ==> forall|k: int| old(variants)@.len() <= k < final(variants)@.len() ==>
            old(package).enum_variant@.len() < #[trigger] final(variants)@[k].0 <= final(package).enum_variant@.len(),
        r is Ok ==> forall|a: int, b: int| old(variants)@.len() <= a < b < final(variants)@.len() ==>
            (#[trigger] final(variants)@[a]).0 < (#[trigger] final(variants)@[b]).0,
        r is Ok ==> forall|k: int| 0 <= k < variants_outcome(*node)->Ok_0.len() ==> records_slot(
            *final(package),
            #[trigger] final(variants)@[old(variants)@.len() + k],
            variants_outcome(*node)->Ok_0[k],
        ),
        r is Ok ==> grows_from(*final(package), *old(package)),
        grows_within(*final(package), *old(package), variants_cost(*node)),
        defs_same(*final(package), *old(package)),
        room(*old(package), variants_cost(*node)) && variants_outcome(*node) is Ok ==> r is Ok,
        r matches Err(e) ==> variants_outcome(*node) == Err::<Seq<KwSlot>, Fault>(e@) || (is_capacity_fault(e@)
            && !room(*old(package), variants_cost(*node))),
        variants_outcome(*node) is Err ==> r is Err,
{
    proof { lemma_grows_within_refl(*package); }
    let elm = filter_not_extra_allow_docs(node);
    let kws = match read_kw(elm.as_slice(), ctx) {
        Ok(k) => k,
        Err(e) => return Err(e),
    };
    let ghost all = slots(kws@);
    let ghost total = variants_cost(*node);
    assert(total == slots_cost(all));
    let mut names = name_index_new();
    let mut id_index = local_id_index_new();
    let ghost old_variants = variants@;
    let ghost old_pkg_len = package.enum_variant@.len();
    assert(all.subrange(0, 0).len() == 0);
    assert(name_index_entries(names) == Map::<Seq<char>, Point>::empty());
    assert(local_id_index_entries(id_index) == Map::<u32, Point>::empty());
    proof { lemma_grows_refl(*package); }
    let mut i: usize = 0;
    while i < kws.len()
        invariant
            all == slots(kws@),
            i <= kws@.len(),
            package.wf(),
            package.enumerations@ == old(package).enumerations@,
            package.shapes@ == old(package).shapes@,
            old_variants == old(variants)@,
            old_pkg_len == old(package).enum_variant@.len(),
            package.enum_variant@.len() >= old_pkg_len,
            linearize(meaningful_with_docs(node.children@)) == Ok::<Seq<KwSlot>, Fault>(all),
            check_variants(all.subrange(0, i as int)) == Ok::<VariantAcc, Fault>(
                VariantAcc { names: name_index_entries(names), ids: local_id_index_entries(id_index) }),
            variants@.len() == old_variants.len() + i,
            variants@.subrange(0, old_variants.len() as int) == old_variants,
            forall|k: int| old_variants.len() <= k < variants@.len() ==>
                old_pkg_len < #[trigger] variants@[k].0 <= package.enum_variant@.len(),
            forall|k: int| 0 <= k < i ==> records_slot(*package, #[trigger] variants@[old_variants.len() + k], all[k]),
            forall|a: int, b: int| old_variants.len() <= a < b < variants@.len() ==>
                (#[trigger] variants@[a]).0 < (#[trigger] variants@[b]).0,
            grows_from(*package, *old(package)),
            total == slots_cost(all),
            grows_within(*package, *old(package), slots_cost(all.subrange(0, i as int))),
            defs_same(*package, *old(package)),
        decreases kws@.len() - i,
    {
        let kw = &kws[i];
        let ghost p0 = *package;
        let ghost used0 = slots_cost(all.subrange(0, i as int));
        proof {
            lemma_grows_refl(p0);
            lemma_slots_cost_prefix(all, i + 1);
            assert(all.subrange(0, i + 1).drop_last() == all.subrange(0, i as int));
            assert(slots_cost(all.subrange(0, i + 1)) == used0 + slot_cost(kw@));
            lemma_slots_cost_prefix(all, i as int);
            lemma_grows_within_weaken(*old(package), p0, used0, total);
        }
        let ghost acc = VariantAcc { names: name_index_entries(names), ids: local_id_index_entries(id_index) };
        proof {
            assert(all.subrange(0, i + 1).drop_last() == all.subrange(0, i as int));
            assert(all.subrange(0, i + 1).last() == kw@);
        }
        match kw {
            KWArgs::Value { value, .. } => {
                proof { lemma_variant_fault_sticks(all, i + 1, fault_at(**value, SpecError::ExpectingKeyValue)); }
                return Err(ctx.error(value, ParseSpecError::ExpectingKeyValue));
            },
            KWArgs::Unattached { docs, meta, ids } => {
                let e = unattached_error(docs, meta, ids, ctx);
                proof { lemma_variant_fault_sticks(all, i + 1, e@); }
                return Err(e);
            },
            KWArgs::KV { key: k, value, docs, meta, ids } => {
                let name = key(k);
                if contains_colon(name) {
                    let e = ctx.error(
                        k,
                        ParseSpecError::InvalidEnumVariantName { cause: VariantNameValidError::MultiplesSegments },
                    );
                    proof { lemma_variant_fault_sticks(all, i + 1, e@); }
                    return Err(e);
                }
                match is_enum_variant_valid(name) {
                    Err(cause) => {
                        let e = ctx.error(k, ParseSpecError::InvalidEnumVariantName { cause });
                        proof { lemma_variant_fault_sticks(all, i + 1, e@); }
                        return Err(e);
                    },
                    Ok(()) => {},
                }
                let low = lowercase(name);
                match name_index_get(&names, &low) {
                    Some(other) => {
                        let e = ctx.conflict(k, other, ParseSpecError::ConflictVariantNameDefinition);
                        proof { lemma_variant_fault_sticks(all, i + 1, e@); }
                        return Err(e);
                    },
                    None => {},
                }
                if ids.len() != 1 {
                    let e = ctx.error(k, ParseSpecError::InvalidNumbersOfIds { expected: 1, got: ids.len() });
                    proof { lemma_variant_fault_sticks(all, i + 1, e@); }
                    return Err(e);
                }
                let id_node: &CstNode = ids[0];
                assert(*id_node == nodes(ids@)[0]);
                let (evolve_id, track) = match eval_id_form(id_node, ctx, package) {
                    Ok(found) => found,
                    Err(e) => {
                        proof {
                            if !is_capacity_fault(e@) || id_form_track(*id_node) is Err {
                                lemma_variant_fault_sticks(all, i + 1, e@);
                            } else if room(*old(package), total) {
                                lemma_room_left(*old(package), p0, used0, total);
                            }
                            lemma_grows_within_trans(*old(package), p0, *package, used0, 1);
                            lemma_grows_within_weaken(*old(package), *package, used0 + 1, total);
                        }
                        return Err(e);
                    },
                };
                proof { lemma_grows_within_trans(*old(package), p0, *package, used0, 1); }
                proof {
                    assert(grows_from(*package, p0));
                }
                let ghost p1 = *package;
                let local = match track {
                    EvolveTrack::Local(v) => v,
                    EvolveTrack::Uuid(_) => {
                        let e = ctx.error(id_node, ParseSpecError::InvalidId { expected: IdKind::Local, got: IdKind::Global });
                        proof { lemma_variant_fault_sticks(all, i + 1, e@); }
                        return Err(e);
                    },
                };
                match local_id_index_get(&id_index, local) {
                    Some(other) => {
                        let e = ctx.conflict(id_node, other, ParseSpecError::ConflictIdDefinition);
                        proof { lemma_variant_fault_sticks(all, i + 1, e@); }
                        return Err(e);
                    },
                    None => {},
                }
                match value {
                    Some(x) => {
                        let e = ctx.error(
                            x,
                            ParseSpecError::TypeError { expected: String::from_str("unit"), got: x.kind.clone() },
                        );
                        proof { lemma_variant_fault_sticks(all, i + 1, e@); }
                        return Err(e);
                    },
                    None => {},
                }
                name_index_insert(&mut names, low, k.start);
                local_id_index_insert(&mut id_index, local, id_node.start);
                let ghost p1b = *package;
                proof { lemma_room_rest_pre(*old(package), p1b, (used0 + 1) as nat, total); }
                let vid = match record_variant(k, name, evolve_id, meta, docs, ctx, package) {
                    Ok(v) => v,
                    Err(e) => {
                        proof {
                            if room(*old(package), total) {
                                lemma_room_rest(*old(package), p1b, (used0 + 1) as nat,
                                    (2 + meta@.len() + docs@.len()) as nat, total);
                            }
                            lemma_grows_within_trans(*old(package), p1b, *package, (used0 + 1) as nat,
                                (2 + meta@.len() + docs@.len()) as nat);
                            lemma_grows_within_weaken(*old(package), *package, (used0 + 3 + meta@.len() + docs@.len()) as nat, total);
                        }
                        return Err(e);
                    },
                };
                proof {
                    lemma_grows_within_trans(*old(package), p1b, *package, (used0 + 1) as nat,
                        (2 + meta@.len() + docs@.len()) as nat);
                }
                let ghost before = variants@;
                variants.push(vid);
                proof {
                    lemma_grows_trans(p0, p1, *package);
                    lemma_grows_trans(*old(package), p0, *package);
                    assert forall|k: int| 0 <= k < i implies records_slot(*package, #[trigger] variants@[old_variants.len() + k], all[k]) by {
                        assert(variants@[old_variants.len() + k] == before[old_variants.len() + k]);
                        lemma_records_grow(p0, *package, before[old_variants.len() + k], all[k]);
                    }
                    assert(variants@[old_variants.len() + i] == vid);
                    assert forall|a: int, b: int| old_variants.len() <= a < b < variants@.len() implies
                        (#[trigger] variants@[a]).0 < (#[trigger] variants@[b]).0 by {
                        if b < variants@.len() - 1 {
                            assert(variants@[a] == before[a] && variants@[b] == before[b]);
                        } else {
                            assert(variants@[a] == before[a]);
                        }
                    }
                    assert(records_slot(*package, vid, all[i as int]));
                }
                assert(variants@.subrange(0, old_variants.len() as int) == before.subrange(0, old_variants.len() as int));
                proof {
                    lemma_kinds_distinct();
                    assert(variant_step(acc, kw@) == Ok::<VariantAcc, Fault>(
                        VariantAcc { names: name_index_entries(names), ids: local_id_index_entries(id_index) }));
                }
            },
        }
        i = i + 1;
    }
    assert(all.subrange(0, kws@.len() as int) == all);
    Ok(())
}


/// How one slot of an `(enum ...)` form is judged; `true` once `:variants` was
/// read.
pub open spec fn enum_step(seen: bool, slot: KwSlot) -> Result<bool, Fault> {
    match slot {
        KwSlot::Value { value, .. } => Err(fault_at(value, SpecError::ExpectingKeyValue)),
        KwSlot::Unattached { docs, meta, ids } => Err(unattached_fault(docs, meta, ids)),
        KwSlot::KV { key, value, .. } => if key_text(key) == "variants"@ {
            match value {
                None => Err(fault_at(key, SpecError::MissingValue)),
                Some(v) => if v.kind@ == "vec_lit"@ {
                    match variants_outcome(v) {
                        Ok(_) => Ok(true),
                        Err(f) => Err(f),
                    }
                } else {
                    Err(fault_at(v, SpecError::TypeError { expected: "vec_lit"@, got: v.kind@ }))
                },
            }
        } else if key_text(key) == "tag"@ || key_text(key) == "content"@ {
            Err(fault_at(key, SpecError::Custom("discriminated unions are not supported"@)))
        } else {
            Err(fault_at(key, SpecError::UnsupportedProperty {
                expected: seq!["variants"@, "tag"@, "content"@],
                got: key_text(key),
            }))
        },
    }
}

/// What reading one slot of an `(enum ...)` form may add to any one column.
pub open spec fn enum_slot_cost(slot: KwSlot) -> nat {
    match slot {
        KwSlot::KV { key, value, .. } => match value {
            Some(v) => if key_text(key) == "variants"@ && v.kind@ == "vec_lit"@ {
                variants_cost(v)
            } else {
                0
            },
            None => 0,
        },
        _ => 0,
    }
}

pub open spec fn enum_slots_cost(s: Seq<KwSlot>) -> nat
    decreases s.len(),
{
    if s.len() == 0 {
        0
    } else {
        enum_slots_cost(s.drop_last()) + enum_slot_cost(s.last())
    }
}

/// What evaluating an `(enum ...)` form may add to any one column: its
/// variants, its shape and the enumeration.
pub open spec fn enum_cost(args: Seq<CstNode>) -> nat {
    match linearize(args) {
        Ok(s) => enum_slots_cost(s) + 2,
        Err(_) => 2,
    }
}

/// The variant slots of an enumeration's `:variants` vectors, in order.
pub open spec fn enum_variant_slots(s: Seq<KwSlot>) -> Seq<KwSlot>
    decreases s.len(),
{
    if s.len() == 0 {
        Seq::empty()
    } else {
        enum_variant_slots(s.drop_last()) + match s.last() {
            KwSlot::KV { key, value: Some(v), .. } => if key_text(key) == "variants"@ && v.kind@ == "vec_lit"@
                && variants_outcome(v) is Ok {
                variants_outcome(v)->Ok_0
            } else {
                Seq::empty()
            },
            _ => Seq::empty(),
        }
    }
}

proof fn lemma_enum_slots_cost_prefix(s: Seq<KwSlot>, i: int)
    requires
        0 <= i <= s.len(),
    ensures
        enum_slots_cost(s.subrange(0, i)) <= enum_slots_cost(s),
    decreases s.len() - i,
{
    if i < s.len() {
        assert(s.subrange(0, i + 1).drop_last() == s.subrange(0, i));
        lemma_enum_slots_cost_prefix(s, i + 1);
    } else {
        assert(s.subrange(0, i) == s);
    }
}

pub open spec fn enum_run(s: Seq<KwSlot>) -> Result<bool, Fault>
    decreases s.len(),
{
    if s.len() == 0 {
        Ok(false)
    } else {
        match enum_run(s.drop_last()) {
            Ok(seen) => match enum_step(seen, s.last()) {
                Ok(now) => Ok(seen || now),
                Err(f) => Err(f),
            },
            Err(f) => Err(f),
        }
    }
}

/// The judgement of an `(enum ...)` form: its arguments are keyword slots,
/// and `:variants` is required.
pub open spec fn enum_outcome(callee: CstNode, args: Seq<CstNode>) -> Result<(), Fault> {
    match linearize(args) {
        Ok(s) => match enum_run(s) {
            Ok(seen) => if seen {
                Ok(())
            } else {
                Err(fault_at(callee, SpecError::MissingValue))
            },
            Err(f) => Err(f),
        },
        Err(f) => Err(f),
    }
}

proof fn lemma_enum_fault_sticks(s: Seq<KwSlot>, i: int, f: Fault)
    requires
        0 <= i <= s.len(),
        enum_run(s.subrange(0, i)) == Err::<bool, Fault>(f),
    ensures
        enum_run(s) == Err::<bool, Fault>(f),
    decreases s.len() - i,
{
    if i < s.len() {
        assert(s.subrange(0, i + 1).drop_last() == s.subrange(0, i));
        lemma_enum_fault_sticks(s, i + 1, f);
    } else {
        assert(s.subrange(0, i) == s);
    }
}

/// Evaluates an `(enum :variants [...])` form: records its variants, its
/// shape and the enumeration, and returns the enumeration's id.
pub fn enum_decl(callee: &CstNode, args: &[&CstNode], ctx: &ParseSpecContext, package: &mut Package) -> (r: Result<
    Option<ResourceId>,
    SyntaxError,
>)
    requires
        old(package).wf(),
    ensures
        final(package).wf(),
        r is Ok ==> enum_outcome(*callee, nodes(args@)) is Ok,
        r is Ok ==> r == Ok::<Option<ResourceId>, SyntaxError>(
            Some(ResourceId::EnumId(EnumId((old(package).enumerations@.len() + 1) as u32))))
            && final(package).enumerations@.len() == old(package).enumerations@.len() + 1
            && final(package).enumerations@.subrange(0, old(package).enumerations@.len() as int)
                == old(package).enumerations@,
        r is Ok ==> (final(package).enumerations@.last() matches Enumeration::Elementary { id, default, docs, tags, .. }
            && id == ctx.def_id && default is None && docs@.len() == 0 && tags@.len() == 0),
        r is Ok ==> (final(package).enumerations@.last() matches Enumeration::Elementary { variants, .. }
            && forall|a: int, b: int| 0 <= a < b < variant_set_items(variants).len() ==> (#[trigger] variant_set_items(variants)[a]).0 < (#[trigger] variant_set_items(variants)[b]).0),
        r is Ok ==> (final(package).enumerations@.last() matches Enumeration::Elementary { variants, .. }
            && variant_set_items(variants).len() == enum_variant_slots(linearize(nodes(args@))->Ok_0).len()
            && forall|k: int| 0 <= k < variant_set_items(variants).len() ==> records_slot(
                *final(package),
                #[trigger] variant_set_items(variants)[k],
                enum_variant_slots(linearize(nodes(args@))->Ok_0)[k],
            )),
        grows_within(*final(package), *old(package), enum_cost(nodes(args@))),
        defs_same(*final(package), *old(package)),
        r is Ok ==> grows_from(*final(package), *old(package)),
        r is Ok ==> old(package).enumerations@.len() < u32::MAX,
        room(*old(package), enum_cost(nodes(args@))) && enum_outcome(*callee, nodes(args@)) is Ok ==> r is Ok,
        r matches Err(e) ==> enum_outcome(*callee, nodes(args@)) == Err::<(), Fault>(e@) || (is_capacity_fault(e@)
            && !room(*old(package), enum_cost(nodes(args@)))),
        enum_outcome(*callee, nodes(args@)) is Err ==> r is Err,
{
    proof {
        lemma_grows_within_refl(*package);
        lemma_grows_refl(*package);
    }
    let kws = match read_kw(args, ctx) {
        Ok(k) => k,
        Err(e) => return Err(e),
    };
    let ghost all = slots(kws@);
    let ghost total = enum_cost(nodes(args@));
    let mut variants: Vec<EnumVariantId> = Vec::new();
    let mut seen = false;
    let ghost old_enums = package.enumerations@;
    assert(all.subrange(0, 0).len() == 0);
    let mut i: usize = 0;
    while i < kws.len()
        invariant
            all == slots(kws@),
            i <= kws@.len(),
            package.wf(),
            package.enumerations@ == old_enums,
            old_enums == old(package).enumerations@,
            linearize(nodes(args@)) == Ok::<Seq<KwSlot>, Fault>(all),
            enum_run(all.subrange(0, i as int)) == Ok::<bool, Fault>(seen),
            forall|k: int| 0 <= k < variants@.len() ==> (#[trigger] variants@[k]).0 <= package.enum_variant@.len(),
            forall|a: int, b: int| 0 <= a < b < variants@.len() ==> (#[trigger] variants@[a]).0 < (#[trigger] variants@[b]).0,
            total == enum_slots_cost(all) + 2,
            grows_within(*package, *old(package), enum_slots_cost(all.subrange(0, i as int))),
            defs_same(*package, *old(package)),
            grows_from(*package, *old(package)),
            variants@.len() == enum_variant_slots(all.subrange(0, i as int)).len(),
            forall|k: int| 0 <= k < variants@.len() ==> records_slot(
                *package,
                #[trigger] variants@[k],
                enum_variant_slots(all.subrange(0, i as int))[k],
            ),
        decreases kws@.len() - i,
    {
        let kw = &kws[i];
        let ghost used0 = enum_slots_cost(all.subrange(0, i as int));
        let ghost evs0 = enum_variant_slots(all.subrange(0, i as int));
        proof {
            assert(all.subrange(0, i + 1).drop_last() == all.subrange(0, i as int));
            assert(all.subrange(0, i + 1).last() == kw@);
            lemma_kinds_distinct();
            lemma_enum_slots_cost_prefix(all, i + 1);
            lemma_grows_within_weaken(*old(package), *package, used0, total);
        }
        match kw {
            KWArgs::Value { value, .. } => {
                proof { lemma_enum_fault_sticks(all, i + 1, fault_at(**value, SpecError::ExpectingKeyValue)); }
                return Err(ctx.error(value, ParseSpecError::ExpectingKeyValue));
            },
            KWArgs::Unattached { docs, meta, ids } => {
                let e = unattached_error(docs, meta, ids, ctx);
                proof { lemma_enum_fault_sticks(all, i + 1, e@); }
                return Err(e);
            },
            KWArgs::KV { key: k, value, .. } => {
                let name = key(k);
                if crate::v1::validators::str_equal(name, "variants") {
                    match value {
                        None => {
                            let e = ctx.error(k, ParseSpecError::MissingValue);
                            proof { lemma_enum_fault_sticks(all, i + 1, e@); }
                            return Err(e);
                        },
                        Some(v) => {
                            if !text_is(&v.kind, "vec_lit") {
                                let e = ctx.error(
                                    v,
                                    ParseSpecError::TypeError { expected: String::from_str("vec_lit"), got: v.kind.clone() },
                                );
                                proof { lemma_enum_fault_sticks(all, i + 1, e@); }
                                return Err(e);
                            }
                            let ghost before = variants@;
                            let ghost pkg_len = package.enum_variant@.len();
                            let ghost pb = *package;
                            proof {
                                assert(enum_slot_cost(kw@) == variants_cost(**v));
                            }
                            match read_enum_variants(&mut variants, v, ctx, package) {
                                Ok(()) => {
                                    proof {
                                        lemma_grows_within_trans(*old(package), pb, *package, used0, variants_cost(**v));
                                        lemma_grows_trans(*old(package), pb, *package);
                                        let evs1 = enum_variant_slots(all.subrange(0, i + 1));
                                        let news = variants_outcome(**v)->Ok_0;
                                        assert(evs1 == evs0 + news);
                                        assert forall|k: int| 0 <= k < variants@.len() implies records_slot(
                                            *package, #[trigger] variants@[k], evs1[k]) by {
                                            if k < before.len() {
                                                assert(variants@[k] == variants@.subrange(0, before.len() as int)[k]);
                                                lemma_records_grow(pb, *package, before[k], evs0[k]);
                                            } else {
                                                assert(records_slot(*package, variants@[before.len() + (k - before.len())], news[k - before.len()]));
                                            }
                                        }
                                    }
                                    assert forall|a: int, b: int| 0 <= a < b < variants@.len() implies
                                        (#[trigger] variants@[a]).0 < (#[trigger] variants@[b]).0 by {
                                        if a < before.len() {
                                            assert(variants@[a] == variants@.subrange(0, before.len() as int)[a]);
                                            if b < before.len() {
                                                assert(variants@[b] == variants@.subrange(0, before.len() as int)[b]);
                                            }
                                        }
                                    }
                                    assert forall|k: int| 0 <= k < variants@.len() implies
                                        (#[trigger] variants@[k]).0 <= package.enum_variant@.len() by {
                                        if k < before.len() {
                                            assert(variants@[k] == variants@.subrange(0, before.len() as int)[k]);
                                        }
                                    }
                                },
                                Err(e) => {
                                    proof {
                                        if variants_outcome(**v) == Err::<Seq<KwSlot>, Fault>(e@) {
                                            lemma_enum_fault_sticks(all, i + 1, e@);
                                        } else if room(*old(package), total) {
                                            lemma_room_rest(*old(package), pb, used0, variants_cost(**v), total);
                                        }
                                        lemma_grows_within_trans(*old(package), pb, *package, used0, variants_cost(**v));
                                        lemma_grows_within_weaken(*old(package), *package, used0 + variants_cost(**v), total);
                                    }
                                    return Err(e);
                                },
                            }
                            seen = true;
                        },
                    }
                } else if crate::v1::validators::str_equal(name, "tag") || crate::v1::validators::str_equal(name, "content") {
                    let e = ctx.error(k, ParseSpecError::Custom(String::from_str("discriminated unions are not supported")));
                    proof { lemma_enum_fault_sticks(all, i + 1, e@); }
                    return Err(e);
                } else {
                    let mut expected = text_set_new();
                    proof {
                        reveal_strlit("variants");
                        reveal_strlit("tag");
                        reveal_strlit("content");
                        assert("variants"@[0] != "tag"@[0]);
                        assert("variants"@[0] != "content"@[0]);
                        assert("tag"@[0] != "content"@[0]);
                    }
                    text_set_insert(&mut expected, String::from_str("variants"));
                    assert(text_set_items(expected) =~= seq!["variants"@]);
                    text_set_insert(&mut expected, String::from_str("tag"));
                    assert(text_set_items(expected) =~= seq!["variants"@, "tag"@]);
                    text_set_insert(&mut expected, String::from_str("content"));
                    assert(text_set_items(expected) =~= seq!["variants"@, "tag"@, "content"@]);
                    let e = ctx.error(k, ParseSpecError::UnsupportedProperty { expected, got: String::from_str(name) });
                    proof { lemma_enum_fault_sticks(all, i + 1, e@); }
                    return Err(e);
                }
            },
        }
        i = i + 1;
    }
    assert(all.subrange(0, kws@.len() as int) == all);
    proof { lemma_grows_within_weaken(*old(package), *package, enum_slots_cost(all), total); }
    if !seen {
        return Err(ctx.error(callee, ParseSpecError::MissingValue));
    }
    let shape = Shape {
        name: if ctx.def_id.0 != 0 { Some(ctx.def_name.clone()) } else { None },
        compiler_id: None,
        cross_schema_id: Vec::new(),
        derived_trace: Vec::new(),
        is_ready: false,
    };
    let ghost ps = *package;
    let ghost used = enum_slots_cost(all);
    let shape_id = match package.add_shape(shape) {
        Some(s) => s,
        None => {
            proof {
                if room(*old(package), total) {
                    lemma_room_rest(*old(package), ps, used, 1, total);
                }
                lemma_grows_within_weaken(*old(package), *package, used, total);
            }
            return Err(ctx.too_big(callee));
        },
    };
    proof { lemma_grows_within_trans(*old(package), ps, *package, used, 1); }
    let ghost pe = *package;
    let ghost vs = variants@;
    let mut set = variant_set_new();
    let mut j: usize = 0;
    while j < variants.len()
        invariant
            j <= vs.len(),
            vs == variants@,
            forall|a: int, b: int| 0 <= a < b < vs.len() ==> (#[trigger] vs[a]).0 < (#[trigger] vs[b]).0,
            variant_set_items(set) == vs.subrange(0, j as int),
        decreases vs.len() - j,
    {
        let v = variants[j];
        proof {
            assert forall|x: int| 0 <= x < j implies vs.subrange(0, j as int)[x] != v by {
                assert(vs.subrange(0, j as int)[x] == vs[x]);
                assert(vs[x].0 < vs[j as int].0);
            }
        }
        variant_set_insert(&mut set, v);
        assert(vs.subrange(0, j + 1) == vs.subrange(0, j as int).push(v));
        j = j + 1;
    }
    assert(vs.subrange(0, vs.len() as int) == vs);
    let e = Enumeration::Elementary {
        id: ctx.def_id,
        variants: set,
        default: None,
        docs: Vec::new(),
        tags: Vec::new(),
    };
    match package.add_enumeration(e, Some(Span::new(callee, ctx.source_id)), shape_id) {
        Some(id) => {
            assert(package.enumerations@.subrange(0, old_enums.len() as int) == old_enums);
            proof {
                lemma_grows_within_trans(*old(package), pe, *package, used + 1, 1);
                lemma_grows_refl(ps);
                assert(grows_from(*package, ps));
                lemma_grows_trans(*old(package), ps, *package);
                assert forall|k: int| 0 <= k < vs.len() implies records_slot(
                    *package, #[trigger] vs[k], enum_variant_slots(all)[k]) by {
                    lemma_records_grow(ps, *package, vs[k], enum_variant_slots(all)[k]);
                }
            }
            Ok(Some(ResourceId::EnumId(id)))
        },
        None => {
            proof {
                if room(*old(package), total) {
                    lemma_room_rest(*old(package), pe, used + 1, 1, total);
                }
                lemma_grows_within_weaken(*old(package), *package, used + 1, total);
            }
            Err(ctx.too_big(callee))
        },
    }
}

/// What a form evaluates to, as contracts see it.
pub enum Evaluated {
    Nothing,
    Id(EvolveTrack),
    Enum,
}

/// The judgement of a form, dispatched on its head symbol (case-insensitive).
pub open spec fn eval_outcome(node: CstNode) -> Result<Evaluated, Fault> {
    let e = form_elements(node.children@);
    if e.len() == 0 {
        Ok(Evaluated::Nothing)
    } else if lower_of(e[0].text@) == "id"@ {
        match id_track(e[0], e.drop_first()) {
            Ok(t) => Ok(Evaluated::Id(t)),
            Err(f) => Err(f),
        }
    } else if lower_of(e[0].text@) == "enum"@ {
        match enum_outcome(e[0], e.drop_first()) {
            Ok(_) => Ok(Evaluated::Enum),
            Err(f) => Err(f),
        }
    } else {
        Err(fault_at(e[0], SpecError::FunctionNotFound { name: lower_of(e[0].text@) }))
    }
}

/// Whether what a form returned is what its judgement says.
pub open spec fn evaluated_as(o: Option<ResourceId>, ev: Evaluated) -> bool {
    match ev {
        Evaluated::Nothing => o is None,
        Evaluated::Id(_) => o matches Some(ResourceId::EvolveId(_)),
        Evaluated::Enum => o matches Some(ResourceId::EnumId(_)),
    }
}

/// Evaluates a form by its head symbol: `id` or `enum`.
pub fn evaluate(node: &CstNode, ctx: &ParseSpecContext, package: &mut Package) -> (r: Result<
    Option<ResourceId>,
    SyntaxError,
>)
    requires
        old(package).wf(),
    ensures
        final(package).wf(),
        r matches Ok(o) ==> eval_outcome(*node) is Ok && evaluated_as(o, eval_outcome(*node)->Ok_0),
        grows_within(*final(package), *old(package), eval_cost(*node)),
        defs_same(*final(package), *old(package)),
        room(*old(package), eval_cost(*node)) && eval_outcome(*node) is Ok ==> r is Ok,
        r matches Err(e) ==> eval_outcome(*node) == Err::<Evaluated, Fault>(e@) || (is_capacity_fault(e@)
            && !room(*old(package), eval_cost(*node))),
        eval_outcome(*node) is Err ==> r is Err,
        r matches Ok(Some(ResourceId::EvolveId(id))) ==> eval_outcome(*node) matches Ok(Evaluated::Id(t))
            && 1 <= id.0 <= final(package).evolution_ids@.len() && final(package).evolution_ids@[id.0 - 1] == t,
        r matches Ok(Some(ResourceId::EvolveId(_))) ==> final(package).enumerations@ == old(package).enumerations@
            && final(package).idents@ == old(package).idents@
            && final(package).definitions@ == old(package).definitions@,
        r matches Ok(Some(ResourceId::EnumId(eid))) ==> eid.0 == final(package).enumerations@.len()
            && final(package).enumerations@.len() == old(package).enumerations@.len() + 1
            && (final(package).enumerations@.last() matches Enumeration::Elementary { id, .. } && id == ctx.def_id),
        r is Ok ==> grows_from(*final(package), *old(package)),
{
    proof {
        lemma_grows_within_refl(*package);
        lemma_grows_refl(*package);
    }
    let elm = form_elements_of(node);
    if elm.len() == 0 {
        return Ok(None);
    }
    let callee: &CstNode = elm[0];
    assert(*callee == nodes(elm@)[0]);
    let args = rest_of(&elm);
    let name = lowercase(callee.text.as_str());
    if text_is(&name, "id") {
        let r = id(callee, args.as_slice(), ctx, package);
        proof {
            if r is Ok {
                assert(package.evolution_ids@.subrange(0, old(package).evolution_ids@.len() as int)
                    =~= old(package).evolution_ids@);
                lemma_grows_refl(*old(package));
            }
        }
        r
    } else if text_is(&name, "enum") {
        enum_decl(callee, args.as_slice(), ctx, package)
    } else {
        Err(ctx.error(callee, ParseSpecError::FunctionNotFound { name }))
    }
}

/// What evaluating a form may add to any one column.
pub open spec fn eval_cost(node: CstNode) -> nat {
    let e = form_elements(node.children@);
    if e.len() == 0 {
        0
    } else if lower_of(e[0].text@) == "id"@ {
        1
    } else if lower_of(e[0].text@) == "enum"@ {
        enum_cost(e.drop_first())
    } else {
        0
    }
}

} // verus!
