use vstd::prelude::*;
use indexmap::IndexMap;
use crate::events::tags::{all_tags, tag_name, EventTag};
use crate::v1::cst::{
    cst_of, filter_not_extra, lemma_kinds_distinct, meaningful, nodes, parse_source, string, string_text, text_is, CstNode,
    Point,
};
use crate::v1::index::{tag_table_entries, tag_table_get, tag_table_insert, tag_table_new};
use crate::v1::parser::{fault_at, Fault, ParseSpecError, SpecError, SyntaxError};
use crate::v1::procedures::lower_of;
use crate::v1::ids::SourceId;

verus! {

#[derive(Debug, Clone, Copy, PartialEq, Eq, Hash, Structural)]
pub enum PatternTag<T> {
    /// a tag for a node
    Tag(T),
    /// a node that can be repeated
    Many,
    /// a node that can be repeated, at least once
    Plus,
    /// a choice between patterns
    Alternation,
    /// the pattern that accepts any node
    Top,
    /// the pattern that accepts no node
    Bottom,
    /// an optional node
    Maybe,
}

/// A tree grammar, as a pre-order sequence of nodes in parallel columns.
pub struct Pattern<T, V> {
    /// how many children each node has
    pub child_count: Vec<u16>,
    /// the tag of each node
    pub tag: Vec<PatternTag<T>>,
    /// whether each node's children are ordered
    pub ordered_children: Vec<bool>,
    /// the pattern of a terminal node's value
    pub value_pattern: Vec<Option<V>>,
    pub doc: Vec<String>,
}

/// One node of a pattern, as contracts see it.
pub struct PatternEntry {
    pub tag: PatternTag<EventTag>,
    pub child_count: nat,
    pub value: Option<Seq<char>>,
}

/// The state of the parse of a pattern source: the tags by lowercased name,
/// and the pattern read so far.
pub struct PatternsParseCtx<'s> {
    pub content: &'s str,
    pub tags: IndexMap<String, EventTag>,
    pub pattern: Pattern<EventTag, String>,
}

/// What a head symbol of the pattern language denotes: a combinator, `_`, or
/// a tag named case-insensitively.
pub open spec fn head_of(text: Seq<char>, tags: Map<Seq<char>, EventTag>) -> Option<PatternTag<EventTag>> {
    if text == "+"@ {
        Some(PatternTag::Plus)
    } else if text == "?"@ {
        Some(PatternTag::Maybe)
    } else if text == "|"@ {
        Some(PatternTag::Alternation)
    } else if text == "*"@ {
        Some(PatternTag::Many)
    } else if text == "_"@ {
        Some(PatternTag::Top)
    } else if tags.contains_key(lower_of(text)) {
        Some(PatternTag::Tag(tags[lower_of(text)]))
    } else {
        None
    }
}

/// The pre-order nodes of one pattern form: a symbol is a leaf; a list is its
/// head followed by its arguments, where a string argument is the head's
/// value pattern. `fuel` bounds the nesting.
pub open spec fn node_entries(n: CstNode, tags: Map<Seq<char>, EventTag>, fuel: nat) -> Result<Seq<PatternEntry>, Fault>
    decreases fuel, 0nat, 0nat,
{
    if n.kind@ == "sym_lit"@ {
        match head_of(n.text@, tags) {
            Some(t) => Ok(seq![PatternEntry { tag: t, child_count: 0, value: None }]),
            None => Err(fault_at(n, SpecError::UndefinedSymbol)),
        }
    } else if n.kind@ == "list_lit"@ {
        let e = meaningful(n.children@);
        if fuel == 0 {
            Err(fault_at(n, SpecError::Custom("pattern nested too deep"@)))
        } else if e.len() == 0 {
            Err(fault_at(n, SpecError::ExpectingNode))
        } else if e[0].kind@ != "sym_lit"@ {
            Err(fault_at(e[0], SpecError::TypeError { expected: "sym_lit"@, got: e[0].kind@ }))
        } else {
            match head_of(e[0].text@, tags) {
                None => Err(fault_at(e[0], SpecError::UndefinedSymbol)),
                Some(t) => match args_entries(e.drop_first(), tags, (fuel - 1) as nat) {
                    Ok((es, count, value)) => Ok(seq![PatternEntry { tag: t, child_count: count, value }] + es),
                    Err(f) => Err(f),
                },
            }
        }
    } else {
        Err(fault_at(n, SpecError::TypeError { expected: "sym_lit|list_lit"@, got: n.kind@ }))
    }
}

/// The pre-order nodes of a list's arguments, how many child patterns they
/// make, and the first string among them.
pub open spec fn args_entries(s: Seq<CstNode>, tags: Map<Seq<char>, EventTag>, fuel: nat) -> Result<
    (Seq<PatternEntry>, nat, Option<Seq<char>>),
    Fault,
>
    decreases fuel, 1nat, s.len(),
{
    if s.len() == 0 {
        Ok((Seq::empty(), 0, None))
    } else if s[0].kind@ == "str_lit"@ {
        match args_entries(s.drop_first(), tags, fuel) {
            Ok((es, c, _)) => Ok((es, c, Some(string_text(s[0])))),
            Err(f) => Err(f),
        }
    } else {
        match node_entries(s[0], tags, fuel) {
            Ok(first) => match args_entries(s.drop_first(), tags, fuel) {
                Ok((es, c, v)) => Ok((first + es, c + 1, v)),
                Err(f) => Err(f),
            },
            Err(f) => Err(f),
        }
    }
}

/// The table of every tag by its lowercased name, filled in tag order.
pub open spec fn tag_table(ts: Seq<EventTag>) -> Map<Seq<char>, EventTag>
    decreases ts.len(),
{
    if ts.len() == 0 {
        Map::empty()
    } else {
        tag_table(ts.drop_last()).insert(lower_of(tag_name(ts.last())), ts.last())
    }
}

fn head_symbol(text: &String, tags: &IndexMap<String, EventTag>) -> (r: Option<PatternTag<EventTag>>)
    ensures
        r == head_of(text@, tag_table_entries(*tags)),
{
    if text_is(text, "+") {
        Some(PatternTag::Plus)
    } else if text_is(text, "?") {
        Some(PatternTag::Maybe)
    } else if text_is(text, "|") {
        Some(PatternTag::Alternation)
    } else if text_is(text, "*") {
        Some(PatternTag::Many)
    } else if text_is(text, "_") {
        Some(PatternTag::Top)
    } else {
        let low = crate::v1::procedures::lowercase(text.as_str());
        match tag_table_get(tags, &low) {
            Some(t) => Some(PatternTag::Tag(t)),
            None => None,
        }
    }
}

/// A pattern node as the parser produces it.
pub struct PatternNode {
    pub tag: PatternTag<EventTag>,
    pub child_count: usize,
    pub value: Option<String>,
}

pub open spec fn entries_of(v: Seq<PatternNode>) -> Seq<PatternEntry> {
    Seq::new(
        v.len(),
        |i: int| PatternEntry {
            tag: v[i].tag,
            child_count: v[i].child_count as nat,
            value: match v[i].value {
                Some(s) => Some(s@),
                None => None,
            },
        },
    )
}

proof fn lemma_entries_append(a: Seq<PatternNode>, b: Seq<PatternNode>)
    ensures
        entries_of(a + b) == entries_of(a) + entries_of(b),
{
    assert(entries_of(a + b) =~= entries_of(a) + entries_of(b));
}

fn one_node(tag: PatternTag<EventTag>) -> (r: Vec<PatternNode>)
    ensures
        entries_of(r@) == seq![PatternEntry { tag, child_count: 0, value: None }],
{
    let mut v: Vec<PatternNode> = Vec::new();
    v.push(PatternNode { tag, child_count: 0, value: None });
    assert(entries_of(v@) =~= seq![PatternEntry { tag, child_count: 0, value: None }]);
    v
}

fn pattern_error(node: &CstNode, error: ParseSpecError) -> (r: SyntaxError)
    ensures
        r@ == fault_at(*node, error@),
{
    let mut locations: Vec<Point> = Vec::new();
    locations.push(node.start);
    assert(locations@ == seq![node.start]);
    SyntaxError { locations, value: error, source_id: SourceId(0) }
}

/// The arguments read so far, joined with what the remaining ones give.
pub open spec fn combine(
    es: Seq<PatternEntry>,
    c: nat,
    v: Option<Seq<char>>,
    r: Result<(Seq<PatternEntry>, nat, Option<Seq<char>>), Fault>,
) -> Result<(Seq<PatternEntry>, nat, Option<Seq<char>>), Fault> {
    match r {
        Ok((es2, c2, v2)) => Ok((es + es2, c + c2, if v is Some { v } else { v2 })),
        Err(f) => Err(f),
    }
}

proof fn lemma_combine_string(
    es: Seq<PatternEntry>,
    c: nat,
    v: Option<Seq<char>>,
    s: Seq<char>,
    r: Result<(Seq<PatternEntry>, nat, Option<Seq<char>>), Fault>,
)
    ensures
        combine(es, c, v, match r {
            Ok((es2, c2, _)) => Ok((es2, c2, Some(s))),
            Err(f) => Err(f),
        }) == combine(es, c, if v is Some { v } else { Some(s) }, r),
{
}

proof fn lemma_combine_node(
    es: Seq<PatternEntry>,
    c: nat,
    v: Option<Seq<char>>,
    first: Seq<PatternEntry>,
    r: Result<(Seq<PatternEntry>, nat, Option<Seq<char>>), Fault>,
)
    ensures
        combine(es, c, v, match r {
            Ok((es2, c2, v2)) => Ok((first + es2, c2 + 1, v2)),
            Err(f) => Err(f),
        }) == combine(es + first, c + 1, v, r),
{
    if let Ok((es2, c2, v2)) = r {
        assert(es + (first + es2) == (es + first) + es2);
    }
}

pub open spec fn opt_text(v: Option<String>) -> Option<Seq<char>> {
    match v {
        Some(x) => Some(x@),
        None => None,
    }
}

/// Reads one pattern form into its pre-order nodes.
fn visit_pattern(n: &CstNode, tags: &IndexMap<String, EventTag>, fuel: usize) -> (r: Result<Vec<PatternNode>, SyntaxError>)
    ensures
        match node_entries(*n, tag_table_entries(*tags), fuel as nat) {
            Ok(es) => r matches Ok(v) && entries_of(v@) == es,
            Err(f) => r matches Err(e) && e@ == f,
        },
    decreases fuel, 0nat, 0nat,
{
    proof {
        lemma_kinds_distinct();
    }
    if text_is(&n.kind, "sym_lit") {
        return match head_symbol(&n.text, tags) {
            Some(t) => Ok(one_node(t)),
            None => Err(pattern_error(n, ParseSpecError::UndefinedSymbol)),
        };
    }
    if !text_is(&n.kind, "list_lit") {
        return Err(pattern_error(
            n,
            ParseSpecError::TypeError { expected: String::from_str("sym_lit|list_lit"), got: n.kind.clone() },
        ));
    }
    let e = filter_not_extra(n);
    if fuel == 0 {
        return Err(pattern_error(n, ParseSpecError::Custom(String::from_str("pattern nested too deep"))));
    }
    if e.len() == 0 {
        return Err(pattern_error(n, ParseSpecError::ExpectingNode));
    }
    let head: &CstNode = e[0];
    assert(*head == nodes(e@)[0]);
    if !text_is(&head.kind, "sym_lit") {
        return Err(pattern_error(
            head,
            ParseSpecError::TypeError { expected: String::from_str("sym_lit"), got: head.kind.clone() },
        ));
    }
    let t = match head_symbol(&head.text, tags) {
        Some(t) => t,
        None => return Err(pattern_error(head, ParseSpecError::UndefinedSymbol)),
    };
    let ghost args = nodes(e@).drop_first();
    let ghost tbl = tag_table_entries(*tags);
    let ghost f1 = (fuel - 1) as nat;
    let mut children: Vec<PatternNode> = Vec::new();
    let mut count: usize = 0;
    let mut value: Option<String> = None;
    let mut i: usize = 1;
    assert(args.subrange(0, args.len() as int) == args);
    assert(entries_of(children@) =~= Seq::<PatternEntry>::empty());
    assert(forall|x: Seq<PatternEntry>| Seq::<PatternEntry>::empty() + x == x);
    while i < e.len()
        invariant
            1 <= i <= e@.len(),
            args == nodes(e@).drop_first(),
            tbl == tag_table_entries(*tags),
            f1 == fuel - 1,
            fuel > 0,
            count < i,
            n.kind@ == "list_lit"@,
            n.kind@ != "sym_lit"@,
            meaningful(n.children@) == nodes(e@),
            nodes(e@)[0].kind@ == "sym_lit"@,
            head_of(nodes(e@)[0].text@, tbl) == Some(t),
            args_entries(args, tbl, f1) == combine(
                entries_of(children@),
                count as nat,
                opt_text(value),
                args_entries(args.subrange(i - 1, args.len() as int), tbl, f1),
            ),
        decreases e@.len() - i,
    {
        let a: &CstNode = e[i];
        let ghost suffix = args.subrange(i - 1, args.len() as int);
        proof {
            assert(suffix[0] == *a);
            assert(suffix.drop_first() == args.subrange(i as int, args.len() as int));
        }
        if text_is(&a.kind, "str_lit") {
            proof {
                lemma_combine_string(
                    entries_of(children@),
                    count as nat,
                    opt_text(value),
                    string_text(*a),
                    args_entries(suffix.drop_first(), tbl, f1),
                );
            }
            if value.is_none() {
                value = Some(String::from_str(string(a)));
            }
        } else {
            let first = match visit_pattern(a, tags, fuel - 1) {
                Ok(v) => v,
                Err(err) => {
                    assert(args_entries(suffix, tbl, f1) == Err::<(Seq<PatternEntry>, nat, Option<Seq<char>>), Fault>(err@));
                    assert(args_entries(args, tbl, f1) == Err::<(Seq<PatternEntry>, nat, Option<Seq<char>>), Fault>(err@));
                    return Err(err);
                },
            };
            proof {
                lemma_combine_node(
                    entries_of(children@),
                    count as nat,
                    opt_text(value),
                    entries_of(first@),
                    args_entries(suffix.drop_first(), tbl, f1),
                );
                lemma_entries_append(children@, first@);
            }
            let mut first = first;
            children.append(&mut first);
            count = count + 1;
        }
        i = i + 1;
    }
    proof {
        assert(args.subrange(args.len() as int, args.len() as int).len() == 0);
        assert(entries_of(children@) + Seq::<PatternEntry>::empty() == entries_of(children@));
    }
    let mut out: Vec<PatternNode> = Vec::new();
    out.push(PatternNode { tag: t, child_count: count, value });
    let ghost top = out@;
    proof { lemma_entries_append(top, children@); }
    out.append(&mut children);
    assert(entries_of(top) =~= seq![PatternEntry { tag: t, child_count: count as nat, value: opt_text(out@[0].value) }]);
    Ok(out)
}


/// The pre-order nodes of the pattern forms of a source, in order; a node
/// with more children than a `u16` holds is refused.
pub open spec fn source_patterns(s: Seq<CstNode>, tags: Map<Seq<char>, EventTag>, fuel: nat) -> Result<
    Seq<PatternEntry>,
    Fault,
>
    decreases s.len(),
{
    if s.len() == 0 {
        Ok(Seq::empty())
    } else {
        match source_patterns(s.drop_last(), tags, fuel) {
            Ok(es) => match node_entries(s.last(), tags, fuel) {
                Ok(x) => if counts_fit(x) {
                    Ok(es + x)
                } else {
                    Err(fault_at(s.last(), SpecError::Custom("too many children"@)))
                },
                Err(f) => Err(f),
            },
            Err(f) => Err(f),
        }
    }
}

impl<T, V> Pattern<T, V> {
    /// The columns run parallel.
    pub open spec fn wf(&self) -> bool {
        &&& self.child_count@.len() == self.tag@.len()
        &&& self.ordered_children@.len() == self.tag@.len()
        &&& self.value_pattern@.len() == self.tag@.len()
        &&& self.doc@.len() == self.tag@.len()
    }
}

/// The nodes of a pattern, as contracts see them.
pub open spec fn pattern_entries(p: Pattern<EventTag, String>) -> Seq<PatternEntry> {
    Seq::new(
        p.tag@.len(),
        |i: int| PatternEntry { tag: p.tag@[i], child_count: p.child_count@[i] as nat, value: opt_text(p.value_pattern@[i]) },
    )
}

/// Whether every node's child count fits the `u16` column.
pub open spec fn counts_fit(es: Seq<PatternEntry>) -> bool {
    forall|i: int| 0 <= i < es.len() ==> #[trigger] es[i].child_count <= u16::MAX
}

fn push_nodes(p: &mut Pattern<EventTag, String>, nodes_in: Vec<PatternNode>, at: &CstNode) -> (r: Result<(), SyntaxError>)
    requires
        old(p).wf(),
    ensures
        final(p).wf(),
        r is Ok <==> counts_fit(entries_of(nodes_in@)),
        r is Ok ==> pattern_entries(*final(p)) == pattern_entries(*old(p)) + entries_of(nodes_in@),
        r matches Err(e) ==> e@ == fault_at(*at, SpecError::Custom("too many children"@)),
{
    let ghost start = pattern_entries(*p);
    let ghost all = entries_of(nodes_in@);
    let mut i: usize = 0;
    while i < nodes_in.len()
        invariant
            p.wf(),
            i <= nodes_in@.len(),
            all == entries_of(nodes_in@),
            counts_fit(all.subrange(0, i as int)),
            pattern_entries(*p) == start + all.subrange(0, i as int),
        decreases nodes_in@.len() - i,
    {
        let c = nodes_in[i].child_count;
        if c > 0xffff {
            assert(all[i as int].child_count > u16::MAX);
            assert(!counts_fit(entries_of(nodes_in@)));
            return Err(pattern_error(at, ParseSpecError::Custom(String::from_str("too many children"))));
        }
        let ghost before = pattern_entries(*p);
        p.child_count.push(c as u16);
        p.tag.push(nodes_in[i].tag);
        p.ordered_children.push(true);
        let value = match &nodes_in[i].value {
            Some(v) => Some(v.clone()),
            None => None,
        };
        p.value_pattern.push(value);
        p.doc.push(String::new());
        proof {
            assert(pattern_entries(*p) =~= before.push(all[i as int]));
            assert(all.subrange(0, i + 1) == all.subrange(0, i as int).push(all[i as int]));
            assert(counts_fit(all.subrange(0, i + 1))) by {
                assert forall|k: int| 0 <= k < i + 1 implies #[trigger] all.subrange(0, i + 1)[k].child_count <= u16::MAX by {
                    if k < i {
                        assert(all.subrange(0, i + 1)[k] == all.subrange(0, i as int)[k]);
                    }
                }
            }
        }
        i = i + 1;
    }
    assert(all.subrange(0, nodes_in@.len() as int) == all);
    Ok(())
}

/// Reads every pattern form of a source into the context's pattern, in order;
/// a list may nest at most as deep as the source is long.
pub fn pattern_visit_source(node: &CstNode, ctx: &mut PatternsParseCtx) -> (r: Result<(), SyntaxError>)
    requires
        old(ctx).pattern.wf(),
    ensures
        final(ctx).pattern.wf(),
        final(ctx).content == old(ctx).content,
        final(ctx).tags == old(ctx).tags,
        match source_patterns(meaningful(node.children@), tag_table_entries(old(ctx).tags), old(ctx).content@.len()) {
            Ok(es) => r is Ok && pattern_entries(final(ctx).pattern) == pattern_entries(old(ctx).pattern) + es,
            Err(f) => r matches Err(e) && e@ == f,
        },
{
    let fuel = ctx.content.unicode_len();
    let forms = filter_not_extra(node);
    let ghost all = nodes(forms@);
    let ghost tbl = tag_table_entries(ctx.tags);
    let ghost start = pattern_entries(ctx.pattern);
    let mut i: usize = 0;
    assert(all.subrange(0, 0).len() == 0);
    assert(start + Seq::<PatternEntry>::empty() == start);
    while i < forms.len()
        invariant
            i <= forms@.len(),
            all == nodes(forms@),
            all == meaningful(node.children@),
            tbl == tag_table_entries(ctx.tags),
            ctx.tags == old(ctx).tags,
            ctx.content == old(ctx).content,
            fuel == ctx.content@.len(),
            ctx.pattern.wf(),
            start == pattern_entries(old(ctx).pattern),
            source_patterns(all.subrange(0, i as int), tbl, fuel as nat) matches Ok(es)
                && pattern_entries(ctx.pattern) == start + es,
        decreases forms@.len() - i,
    {
        let f: &CstNode = forms[i];
        let ghost es = source_patterns(all.subrange(0, i as int), tbl, fuel as nat)->Ok_0;
        proof {
            assert(all.subrange(0, i + 1).drop_last() == all.subrange(0, i as int));
            assert(all.subrange(0, i + 1).last() == *f);
        }
        let found = match visit_pattern(f, &ctx.tags, fuel) {
            Ok(v) => v,
            Err(e) => {
                proof { lemma_patterns_fault_sticks(all, i + 1, tbl, fuel as nat, e@); }
                return Err(e);
            },
        };
        let ghost x = entries_of(found@);
        match push_nodes(&mut ctx.pattern, found, f) {
            Ok(()) => {},
            Err(e) => {
                proof { lemma_patterns_fault_sticks(all, i + 1, tbl, fuel as nat, e@); }
                return Err(e);
            },
        }
        assert((start + es) + x == start + (es + x));
        i = i + 1;
    }
    assert(all.subrange(0, forms@.len() as int) == all);
    Ok(())
}

proof fn lemma_patterns_fault_sticks(s: Seq<CstNode>, i: int, tags: Map<Seq<char>, EventTag>, fuel: nat, f: Fault)
    requires
        0 <= i <= s.len(),
        source_patterns(s.subrange(0, i), tags, fuel) == Err::<Seq<PatternEntry>, Fault>(f),
    ensures
        source_patterns(s, tags, fuel) == Err::<Seq<PatternEntry>, Fault>(f),
    decreases s.len() - i,
{
    if i < s.len() {
        assert(s.subrange(0, i + 1).drop_last() == s.subrange(0, i));
        lemma_patterns_fault_sticks(s, i + 1, tags, fuel, f);
    } else {
        assert(s.subrange(0, i) == s);
    }
}

impl<'s> PatternsParseCtx<'s> {
    /// Parses a source of patterns, resolving tag names case-insensitively
    /// against every `EventTag`.
    pub fn new(content: &'s str) -> (r: Result<Self, SyntaxError>)
        ensures
            r matches Ok(c) ==> c.content == content && c.pattern.wf()
                && tag_table_entries(c.tags) == tag_table(all_tags()),
            cst_of(content@) is None ==> r is Err,
            cst_of(content@) matches Some(t) ==> match source_patterns(
                meaningful(t.children@),
                tag_table(all_tags()),
                content@.len(),
            ) {
                Ok(es) => r matches Ok(c) && pattern_entries(c.pattern) == es,
                Err(f) => r matches Err(e) && e@ == f,
            },
    {
        let all = EventTag::all();
        let mut tags = tag_table_new();
        let mut i: usize = 0;
        assert(tag_table_entries(tags) == tag_table(all@.subrange(0, 0))) by {
            assert(tag_table_entries(tags) =~= Map::<Seq<char>, EventTag>::empty());
        }
        while i < all.len()
            invariant
                i <= all@.len(),
                all@ == all_tags(),
                tag_table_entries(tags) == tag_table(all@.subrange(0, i as int)),
            decreases all@.len() - i,
        {
            let t = all[i];
            let name = crate::v1::procedures::lowercase(t.name());
            tag_table_insert(&mut tags, name, t);
            assert(all@.subrange(0, i + 1).drop_last() == all@.subrange(0, i as int));
            i = i + 1;
        }
        assert(all@.subrange(0, all@.len() as int) == all@);
        let tree = match parse_source(content) {
            Some(t) => t,
            None => {
                let mut locations: Vec<Point> = Vec::new();
                locations.push(Point { row: 0, column: 0 });
                return Err(SyntaxError {
                    locations,
                    value: ParseSpecError::Custom(String::from_str("cannot parse the source")),
                    source_id: SourceId(0),
                });
            },
        };
        let mut ctx = PatternsParseCtx {
            content,
            tags,
            pattern: Pattern {
                child_count: Vec::new(),
                tag: Vec::new(),
                ordered_children: Vec::new(),
                value_pattern: Vec::new(),
                doc: Vec::new(),
            },
        };
        assert(pattern_entries(ctx.pattern) =~= Seq::<PatternEntry>::empty());
        assert(forall|x: Seq<PatternEntry>| Seq::<PatternEntry>::empty() + x == x);
        match pattern_visit_source(&tree, &mut ctx) {
            Ok(()) => Ok(ctx),
            Err(e) => Err(e),
        }
    }
}

} // verus!
