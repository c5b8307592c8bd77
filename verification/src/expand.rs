//! Neighbourhood expansion: how a hit grows into the text around it.
//!
//! A search may ask for documents of about a given number of tokens. The
//! hits of a document then take up chunks before and after them, as the
//! planner allots them, until the budget is spent: the text of a chunk that
//! lies before the hit goes in front of the hit's text, the text of a chunk
//! that lies after it goes behind, each set off by one space.

use crate::document::{chunk_offsets, chunk_views, same_row, Chunk, ChunkView, Document};
use crate::error::Error;
use crate::fingerprint::{document_id_hash, document_id_hash_of};
use crate::index::{Condition, ConditionView, Filter, FilterView, PayloadField};
use crate::order::{
    lemma_sort_commutes, lemma_sorted_by_own_keys, lemma_sorted_keeps_items, lemma_sorted_len,
    sort_by_keys, sorted_by_keys,
};
use crate::planner::{
    ascending, covers, expansion_plan, lemma_anchors_ascend, lemma_ascending_is,
    lemma_covers_one, strictly_ascending, target_document_tokens_offsets, valid_hits,
};
use crate::search::{integer_of, key_of_score, score_key, text_of, PayloadValue};
use std::collections::HashMap;
use vstd::prelude::*;
use vstd::string::StringExecFns;

verus! {

/// A chunk that was fetched to extend a hit.
#[derive(Debug)]
pub struct Expansion {
    pub text: String,
    pub offset: usize,
}

/// What a fetched chunk holds.
pub struct ExpansionView {
    pub text: Seq<char>,
    pub offset: usize,
}

impl View for Expansion {
    type V = ExpansionView;

    open spec fn view(&self) -> ExpansionView {
        ExpansionView { text: self.text@, offset: self.offset }
    }
}

/// What each of the fetched chunks holds.
pub open spec fn expansion_views(fetched: Seq<Expansion>) -> Seq<ExpansionView> {
    fetched.map_values(|e: Expansion| e@)
}

/// A point that was fetched to extend a hit, with the fields of its payload
/// that are read. A field that the payload lacks is `None`.
#[derive(Debug)]
pub struct RetrievedPoint {
    pub text: Option<PayloadValue>,
    pub chunk_offset: Option<PayloadValue>,
}

/// What to fetch to expand the hits of one document.
#[derive(Debug)]
pub struct ExpansionRequest {
    /// Selects the chunks to fetch.
    pub filter: Filter,
    /// How many points to ask for: one for each chunk to fetch.
    pub limit: u32,
    /// The offsets of the chunks to fetch, ascending.
    pub offsets: Vec<usize>,
    /// The hit that each of them extends.
    pub plan: HashMap<usize, usize>,
}

/// How many chunks to add to `held` chunks of `size` tokens each to reach
/// `target` tokens: as many as fit wholly into what is missing.
pub open spec fn budget_of(target: int, held: int, size: int) -> int {
    if target <= held * size {
        0
    } else {
        (target - held * size) / size
    }
}

/// The keys of `plan` below `bound`, ascending.
pub open spec fn keys_below(plan: Map<usize, usize>, bound: nat) -> Seq<usize>
    decreases bound,
{
    if bound == 0 {
        Seq::empty()
    } else {
        let rest = keys_below(plan, (bound - 1) as nat);
        if plan.contains_key((bound - 1) as usize) {
            rest.push((bound - 1) as usize)
        } else {
            rest
        }
    }
}

/// The offsets as the index holds them.
pub open spec fn as_integers(offsets: Seq<usize>) -> Seq<i64> {
    Seq::new(offsets.len(), |i: int| offsets[i] as i64)
}

/// The filter that selects the chunks at `offsets` of the document with
/// this fingerprint of its id.
pub open spec fn expansion_filter_of(
    document_id_hash: Seq<char>,
    offsets: Seq<usize>,
) -> FilterView {
    FilterView {
        must: seq![
            ConditionView::Keyword { field: PayloadField::DocumentIdHash, value: document_id_hash },
            ConditionView::AnyInteger {
                field: PayloadField::ChunkOffset,
                values: as_integers(offsets),
            },
        ],
        must_not: Seq::empty(),
    }
}

/// The plan for the hits of a document, for a target number of tokens.
pub open spec fn document_plan_of(document: Document, target: int, size: int) -> Map<usize, usize> {
    let budget = budget_of(target, document.chunks@.len() as int, size);
    if budget == 0 || document.chunk_count == 0 {
        Map::empty()
    } else {
        expansion_plan(
            ascending(Document::offsets_of(document.chunks@)),
            budget,
            document.chunk_count as int,
        )
    }
}

/// How many chunks to add to `held` chunks to reach `target` tokens.
pub fn expansion_budget(target: usize, held: usize, max_chunk_size: usize) -> (budget: usize)
    requires
        max_chunk_size > 0,
        held * max_chunk_size <= usize::MAX,
    ensures
        budget == budget_of(target as int, held as int, max_chunk_size as int),
{
    let current = held * max_chunk_size;
    if target <= current {
        0
    } else {
        (target - current) / max_chunk_size
    }
}

/// The hits of a document can be expanded: the document has no chunks at
/// all, or the hits are chunks of it, each at another offset.
pub open spec fn expandable(document: Document) -> bool {
    document.chunk_count > 0 ==> valid_hits(
        Document::offsets_of(document.chunks@),
        document.chunk_count as int,
    )
}

/// Whether the hits of a document can be expanded.
pub fn is_expandable(document: &Document) -> (r: bool)
    ensures
        r == expandable(*document),
{
    if document.chunk_count == 0 {
        return true;
    }
    let n = document.chunks.len();
    if n == 0 {
        return false;
    }
    let ghost offsets = Document::offsets_of(document.chunks@);
    let mut i: usize = 0;
    while i < n
        invariant
            n == document.chunks@.len(),
            offsets == Document::offsets_of(document.chunks@),
            document.chunk_count > 0,
            i <= n,
            forall|a: int| 0 <= a < i ==> offsets[a] < document.chunk_count,
            forall|a: int, b: int| 0 <= a < b < i ==> offsets[a] != offsets[b],
        decreases n - i,
    {
        if document.chunks[i].offset >= document.chunk_count {
            assert(!(offsets[i as int] < document.chunk_count));
            return false;
        }
        let mut j: usize = 0;
        while j < i
            invariant
                n == document.chunks@.len(),
                offsets == Document::offsets_of(document.chunks@),
                document.chunk_count > 0,
                j <= i < n,
                forall|a: int| 0 <= a < j ==> offsets[a] != offsets[i as int],
            decreases i - j,
        {
            if document.chunks[j].offset == document.chunks[i].offset {
                assert(offsets[j as int] == offsets[i as int]);
                return false;
            }
            j = j + 1;
        }
        i = i + 1;
    }
    true
}

fn planned_offsets(plan: &HashMap<usize, usize>, bound: usize) -> (offsets: Vec<usize>)
    ensures
        offsets@ == keys_below(plan@, bound as nat),
{
    broadcast use vstd::std_specs::hash::group_hash_axioms;

    let mut offsets: Vec<usize> = Vec::new();
    let mut k: usize = 0;
    while k < bound
        invariant
            k <= bound,
            offsets@ == keys_below(plan@, k as nat),
        decreases bound - k,
    {
        if plan.contains_key(&k) {
            offsets.push(k);
        }
        k = k + 1;
    }
    offsets
}

/// Where a plan has no key below the bound, and all its keys are below the
/// bound, it is empty.
proof fn lemma_no_keys(plan: Map<usize, usize>, bound: nat)
    ensures
        keys_below(plan, bound).len() == 0 <==> (forall|k: usize|
            k < bound ==> !plan.contains_key(k)),
    decreases bound,
{
    if bound > 0 {
        lemma_no_keys(plan, (bound - 1) as nat);
        if keys_below(plan, bound).len() == 0 {
            assert forall|k: usize| k < bound implies !plan.contains_key(k) by {
                if k == bound - 1 {
                } else {
                    assert(k < bound - 1);
                }
            }
        }
    }
}

/// Decides what to fetch to bring the hits of a document to `target`
/// tokens, the document counting `max_chunk_size` tokens for each chunk.
///
/// Nothing is fetched where not even one chunk is missing, whatever the
/// hits are, or where the plan has no chunk to add. Otherwise the request names the chunks of the
/// plan by their offsets, ascending, and asks for as many points.
pub fn plan_expansion(document: &Document, target: usize, max_chunk_size: usize) -> (request:
    Option<ExpansionRequest>)
    requires
        max_chunk_size > 0,
        document.chunks@.len() * max_chunk_size <= usize::MAX,
        budget_of(target as int, document.chunks@.len() as int, max_chunk_size as int) > 0
            ==> expandable(*document),
    ensures
        request is None <==> document_plan_of(*document, target as int, max_chunk_size as int)
            == Map::<usize, usize>::empty(),
        request matches Some(r) ==> r.plan@ == document_plan_of(
            *document,
            target as int,
            max_chunk_size as int,
        ) && r.offsets@ == keys_below(r.plan@, document.chunk_count as nat) && r.offsets@.len() > 0
            && r.filter@ == expansion_filter_of(
            document_id_hash_of(document.document_id@),
            r.offsets@,
        ) && r.limit == r.offsets@.len() as u32,
{
    let budget = expansion_budget(target, document.chunks.len(), max_chunk_size);
    if budget == 0 {
        return None;
    }
    let mut hits: Vec<usize> = Vec::new();
    let mut i: usize = 0;
    while i < document.chunks.len()
        invariant
            i <= document.chunks@.len(),
            hits@ == Document::offsets_of(document.chunks@).take(i as int),
        decreases document.chunks@.len() - i,
    {
        hits.push(document.chunks[i].offset);
        assert(hits@ =~= Document::offsets_of(document.chunks@).take(i + 1));
        i = i + 1;
    }
    assert(hits@ =~= Document::offsets_of(document.chunks@));
    let plan = target_document_tokens_offsets(hits, budget, document.chunk_count);
    let offsets = planned_offsets(&plan, document.chunk_count);
    proof {
        lemma_no_keys(plan@, document.chunk_count as nat);
        if offsets@.len() == 0 {
            assert(plan@ =~= Map::<usize, usize>::empty());
        } else {
            assert(plan@ != Map::<usize, usize>::empty());
        }
    }
    if offsets.len() == 0 {
        return None;
    }
    let mut values: Vec<i64> = Vec::new();
    let mut j: usize = 0;
    while j < offsets.len()
        invariant
            j <= offsets@.len(),
            values@ == as_integers(offsets@).take(j as int),
        decreases offsets@.len() - j,
    {
        values.push(offsets[j] as i64);
        assert(values@ =~= as_integers(offsets@).take(j + 1));
        j = j + 1;
    }
    assert(values@ =~= as_integers(offsets@));
    let id_hash = document_id_hash(document.document_id.as_str());
    let mut must: Vec<Condition> = Vec::new();
    must.push(Condition::Keyword { field: PayloadField::DocumentIdHash, value: id_hash });
    must.push(Condition::AnyInteger { field: PayloadField::ChunkOffset, values });
    let filter = Filter { must, must_not: Vec::new() };
    proof {
        let wanted = expansion_filter_of(document_id_hash_of(document.document_id@), offsets@);
        assert(filter@.must =~= wanted.must);
        assert(filter@.must_not =~= wanted.must_not);
    }
    let limit = offsets.len() as u32;
    Some(ExpansionRequest { filter, limit, offsets, plan })
}

/// The first field that a fetched chunk cannot be read from, if there is
/// one: the text is read first, then the offset.
pub open spec fn unreadable_of(point: RetrievedPoint) -> Option<PayloadField> {
    if text_of(point.text) is None {
        Some(PayloadField::Text)
    } else if integer_of(point.chunk_offset) is None {
        Some(PayloadField::ChunkOffset)
    } else {
        None
    }
}

/// The fetched chunk that a readable point stands for.
pub open spec fn expansion_of(point: RetrievedPoint) -> ExpansionView {
    ExpansionView {
        text: text_of(point.text)->0,
        offset: integer_of(point.chunk_offset)->0 as usize,
    }
}

/// The field at which reading the points fails, if it does: the first
/// unreadable field of the first point that has one.
pub open spec fn first_unreadable_of(points: Seq<RetrievedPoint>) -> Option<PayloadField>
    decreases points.len(),
{
    if points.len() == 0 {
        None
    } else {
        match first_unreadable_of(points.drop_last()) {
            Some(field) => Some(field),
            None => unreadable_of(points.last()),
        }
    }
}

/// Reads a fetched chunk from its point.
pub fn read_expansion(point: &RetrievedPoint) -> (r: Result<Expansion, Error>)
    ensures
        match unreadable_of(*point) {
            Some(field) => r matches Err(Error::MissingPayloadField { field: f }) && f == field,
            None => r matches Ok(e) && e@ == expansion_of(*point),
        },
{
    let text = match &point.text {
        Some(PayloadValue::Text(s)) => s.clone(),
        _ => {
            return Err(Error::MissingPayloadField { field: PayloadField::Text });
        },
    };
    let offset = match &point.chunk_offset {
        Some(PayloadValue::Integer(i)) => *i,
        _ => {
            return Err(Error::MissingPayloadField { field: PayloadField::ChunkOffset });
        },
    };
    Ok(Expansion { text, offset: offset as usize })
}

proof fn lemma_first_unreadable_stays(points: Seq<RetrievedPoint>, n: int)
    requires
        0 <= n <= points.len(),
        first_unreadable_of(points.take(n)) is Some,
    ensures
        first_unreadable_of(points) == first_unreadable_of(points.take(n)),
    decreases points.len() - n,
{
    if n < points.len() {
        assert(points.take(n + 1).drop_last() =~= points.take(n));
        lemma_first_unreadable_stays(points, n + 1);
    } else {
        assert(points.take(n) =~= points);
    }
}

/// Reads the fetched chunks from their points, in their order. Fails at the
/// first point that cannot be read, for its first such field.
pub fn read_expansions(points: &Vec<RetrievedPoint>) -> (r: Result<Vec<Expansion>, Error>)
    ensures
        match first_unreadable_of(points@) {
            Some(field) => r matches Err(Error::MissingPayloadField { field: f }) && f == field,
            None => r matches Ok(fetched) && fetched@.len() == points@.len() && forall|i: int|
                0 <= i < fetched@.len() ==> (#[trigger] fetched@[i])@ == expansion_of(points@[i]),
        },
{
    let mut fetched: Vec<Expansion> = Vec::new();
    let mut i: usize = 0;
    assert(points@.take(0) =~= Seq::<RetrievedPoint>::empty());
    while i < points.len()
        invariant
            i <= points@.len(),
            fetched@.len() == i,
            first_unreadable_of(points@.take(i as int)) is None,
            forall|j: int| 0 <= j < i ==> (#[trigger] fetched@[j])@ == expansion_of(points@[j]),
        decreases points@.len() - i,
    {
        proof {
            assert(points@.take(i + 1).drop_last() =~= points@.take(i as int));
            assert(points@.take(i + 1).last() == points@[i as int]);
        }
        match read_expansion(&points[i]) {
            Ok(e) => {
                fetched.push(e);
            },
            Err(e) => {
                proof {
                    lemma_first_unreadable_stays(points@, i + 1);
                }
                return Err(e);
            },
        }
        i = i + 1;
    }
    assert(points@.take(points@.len() as int) =~= points@);
    Ok(fetched)
}

/// The plan gives the fetched chunk to the hit at `anchor`.
pub open spec fn anchored(plan: Map<usize, usize>, e: ExpansionView, anchor: usize) -> bool {
    plan.contains_key(e.offset) && plan[e.offset] == anchor
}

/// Up to where the hit at `anchor` takes the fetched chunks, starting at
/// `from`: it takes them one by one for as long as they are its own.
pub open spec fn absorb_end(
    fetched: Seq<ExpansionView>,
    plan: Map<usize, usize>,
    anchor: usize,
    from: int,
) -> int
    decreases fetched.len() - from,
{
    if 0 <= from < fetched.len() && anchored(plan, fetched[from], anchor) {
        absorb_end(fetched, plan, anchor, from + 1)
    } else {
        from
    }
}

/// What goes in front of the text of the hit at `anchor`: the texts of the
/// fetched chunks `from..to` that do not lie after it, each with a space
/// behind it.
pub open spec fn text_before(
    fetched: Seq<ExpansionView>,
    anchor: usize,
    from: int,
    to: int,
) -> Seq<char>
    decreases to - from,
{
    if to <= from {
        Seq::empty()
    } else {
        let e = fetched[to - 1];
        text_before(fetched, anchor, from, to - 1) + (if anchor < e.offset {
            Seq::empty()
        } else {
            e.text + seq![' ']
        })
    }
}

/// What goes behind the text of the hit at `anchor`: the texts of the
/// fetched chunks `from..to` that lie after it, each with a space in front.
pub open spec fn text_after(
    fetched: Seq<ExpansionView>,
    anchor: usize,
    from: int,
    to: int,
) -> Seq<char>
    decreases to - from,
{
    if to <= from {
        Seq::empty()
    } else {
        let e = fetched[to - 1];
        text_after(fetched, anchor, from, to - 1) + (if anchor < e.offset {
            seq![' '] + e.text
        } else {
            Seq::empty()
        })
    }
}

/// The hit after it took the fetched chunks `from..to`.
pub open spec fn grown(
    chunk: ChunkView,
    fetched: Seq<ExpansionView>,
    from: int,
    to: int,
) -> ChunkView {
    ChunkView {
        text: text_before(fetched, chunk.offset, from, to) + chunk.text + text_after(
            fetched,
            chunk.offset,
            from,
            to,
        ),
        hash: chunk.hash,
        offset: chunk.offset,
        score: chunk.score,
    }
}

/// The hits after the walk: one after the other, each takes the fetched
/// chunks that come next for as long as the plan gives them to it.
pub open spec fn walked(
    chunks: Seq<ChunkView>,
    fetched: Seq<ExpansionView>,
    plan: Map<usize, usize>,
    from: int,
) -> Seq<ChunkView>
    decreases chunks.len(),
{
    if chunks.len() == 0 {
        Seq::empty()
    } else {
        let to = absorb_end(fetched, plan, chunks[0].offset, from);
        seq![grown(chunks[0], fetched, from, to)] + walked(chunks.drop_first(), fetched, plan, to)
    }
}

/// Up to where the fetched chunks are taken by the walk.
pub open spec fn walk_end(
    chunks: Seq<ChunkView>,
    fetched: Seq<ExpansionView>,
    plan: Map<usize, usize>,
    from: int,
) -> int
    decreases chunks.len(),
{
    if chunks.len() == 0 {
        from
    } else {
        walk_end(
            chunks.drop_first(),
            fetched,
            plan,
            absorb_end(fetched, plan, chunks[0].offset, from),
        )
    }
}

/// The keys that order chunks by their offset.
pub open spec fn offset_keys(chunks: Seq<ChunkView>) -> Seq<i128> {
    Seq::new(chunks.len(), |i: int| chunks[i].offset as i128)
}

/// The keys that order fetched chunks by their offset.
pub open spec fn fetched_keys(fetched: Seq<ExpansionView>) -> Seq<i128> {
    Seq::new(fetched.len(), |i: int| fetched[i].offset as i128)
}

/// The keys that order chunks by their score, highest first.
pub open spec fn score_keys(chunks: Seq<ChunkView>) -> Seq<i128> {
    Seq::new(chunks.len(), |i: int| score_key(chunks[i].score))
}

/// The hits in the order of their offsets.
pub open spec fn hits_in_order(chunks: Seq<ChunkView>) -> Seq<ChunkView> {
    sorted_by_keys(chunks, offset_keys(chunks))
}

/// The fetched chunks in the order of their offsets.
pub open spec fn fetched_in_order(fetched: Seq<ExpansionView>) -> Seq<ExpansionView> {
    sorted_by_keys(fetched, fetched_keys(fetched))
}

/// The hits of a document after their expansion: hits and fetched chunks
/// are put in the order of their offsets, the hits take their chunks, and
/// the hits are put back in the order of their scores, highest first.
pub open spec fn expanded_of(
    chunks: Seq<ChunkView>,
    fetched: Seq<ExpansionView>,
    plan: Map<usize, usize>,
) -> Seq<ChunkView> {
    let grown = walked(hits_in_order(chunks), fetched_in_order(fetched), plan, 0);
    sorted_by_keys(grown, score_keys(grown))
}

/// How many of the fetched chunks the hits take.
pub open spec fn absorbed_of(
    chunks: Seq<ChunkView>,
    fetched: Seq<ExpansionView>,
    plan: Map<usize, usize>,
) -> int {
    walk_end(hits_in_order(chunks), fetched_in_order(fetched), plan, 0)
}

fn chunk_offset_keys(chunks: &Vec<Chunk>) -> (keys: Vec<i128>)
    ensures
        keys@ == offset_keys(chunk_views(chunks@)),
{
    let mut keys: Vec<i128> = Vec::new();
    let mut i: usize = 0;
    while i < chunks.len()
        invariant
            i <= chunks@.len(),
            keys@ == offset_keys(chunk_views(chunks@)).take(i as int),
        decreases chunks@.len() - i,
    {
        keys.push(chunks[i].offset as i128);
        assert(keys@ =~= offset_keys(chunk_views(chunks@)).take(i + 1));
        i = i + 1;
    }
    assert(keys@ =~= offset_keys(chunk_views(chunks@)));
    keys
}

fn chunk_score_keys(chunks: &Vec<Chunk>) -> (keys: Vec<i128>)
    ensures
        keys@ == score_keys(chunk_views(chunks@)),
{
    let mut keys: Vec<i128> = Vec::new();
    let mut i: usize = 0;
    while i < chunks.len()
        invariant
            i <= chunks@.len(),
            keys@ == score_keys(chunk_views(chunks@)).take(i as int),
        decreases chunks@.len() - i,
    {
        keys.push(key_of_score(chunks[i].score));
        assert(keys@ =~= score_keys(chunk_views(chunks@)).take(i + 1));
        i = i + 1;
    }
    assert(keys@ =~= score_keys(chunk_views(chunks@)));
    keys
}

fn expansion_offset_keys(fetched: &Vec<Expansion>) -> (keys: Vec<i128>)
    ensures
        keys@ == fetched_keys(expansion_views(fetched@)),
{
    let mut keys: Vec<i128> = Vec::new();
    let mut i: usize = 0;
    while i < fetched.len()
        invariant
            i <= fetched@.len(),
            keys@ == fetched_keys(expansion_views(fetched@)).take(i as int),
        decreases fetched@.len() - i,
    {
        keys.push(fetched[i].offset as i128);
        assert(keys@ =~= fetched_keys(expansion_views(fetched@)).take(i + 1));
        i = i + 1;
    }
    assert(keys@ =~= fetched_keys(expansion_views(fetched@)));
    keys
}

/// Lets one hit take the fetched chunks that come next for it: from
/// `from` on, for as long as the plan gives them to the hit.
fn absorb(chunk: &Chunk, fetched: &Vec<Expansion>, plan: &HashMap<usize, usize>, from: usize) -> (r:
    (Chunk, usize))
    requires
        from <= fetched@.len(),
    ensures
        r.1 == absorb_end(expansion_views(fetched@), plan@, chunk.offset, from as int),
        from <= r.1 <= fetched@.len(),
        r.0@ == grown(chunk@, expansion_views(fetched@), from as int, r.1 as int),
{
    broadcast use vstd::std_specs::hash::group_hash_axioms;

    let ghost views = expansion_views(fetched@);
    let mut before = String::new();
    let mut text = chunk.text.clone();
    let mut after = String::new();
    let mut at: usize = from;
    proof {
        reveal_strlit(" ");
        assert(" "@ =~= seq![' ']);
        assert(before@ =~= text_before(views, chunk.offset, from as int, at as int));
        assert(after@ =~= text_after(views, chunk.offset, from as int, at as int));
    }
    loop
        invariant
            views == expansion_views(fetched@),
            from <= at <= fetched@.len(),
            " "@ == seq![' '],
            absorb_end(views, plan@, chunk.offset, from as int) == absorb_end(
                views,
                plan@,
                chunk.offset,
                at as int,
            ),
            before@ == text_before(views, chunk.offset, from as int, at as int),
            after@ == text_after(views, chunk.offset, from as int, at as int),
        ensures
            from <= at <= fetched@.len(),
            at == absorb_end(views, plan@, chunk.offset, from as int),
            before@ == text_before(views, chunk.offset, from as int, at as int),
            after@ == text_after(views, chunk.offset, from as int, at as int),
        decreases fetched@.len() - at,
    {
        if at >= fetched.len() {
            break ;
        }
        let e = &fetched[at];
        assert(views[at as int] == e@);
        let own = match plan.get(&e.offset) {
            Some(anchor) => *anchor == chunk.offset,
            None => false,
        };
        assert(own == anchored(plan@, views[at as int], chunk.offset));
        if !own {
            break ;
        }
        if chunk.offset < e.offset {
            after.append(" ");
            after.append(e.text.as_str());
        } else {
            before.append(e.text.as_str());
            before.append(" ");
        }
        at = at + 1;
        proof {
            assert(before@ =~= text_before(views, chunk.offset, from as int, at as int));
            assert(after@ =~= text_after(views, chunk.offset, from as int, at as int));
        }
    }
    before.append(text.as_str());
    before.append(after.as_str());
    let taken = Chunk {
        text: before,
        hash: chunk.hash.clone(),
        offset: chunk.offset,
        score: chunk.score,
    };
    assert(taken@.text =~= grown(chunk@, views, from as int, at as int).text);
    (taken, at)
}

/// Expands the hits of a document by the chunks that were fetched for them.
///
/// `plan` says which hit each fetched chunk extends; a chunk that it does
/// not name ends the walk. The chunks of the result are the hits, each with
/// the texts that it took, highest score first; the document counts
/// `max_chunk_size` tokens for each hit and for each chunk taken.
pub fn apply_expansion(
    document: Document,
    fetched: Vec<Expansion>,
    plan: &HashMap<usize, usize>,
    max_chunk_size: usize,
) -> (expanded: Document)
    requires
        (document.chunks@.len() + fetched@.len()) * max_chunk_size <= usize::MAX,
    ensures
        same_row(expanded, document),
        expanded.chunk_count == document.chunk_count,
        chunk_views(expanded.chunks@) == expanded_of(
            chunk_views(document.chunks@),
            expansion_views(fetched@),
            plan@,
        ),
        expanded.token_count == Some(
            ((document.chunks@.len() + absorbed_of(
                chunk_views(document.chunks@),
                expansion_views(fetched@),
                plan@,
            )) * max_chunk_size) as usize,
        ),
{
    let ghost hits0 = chunk_views(document.chunks@);
    let ghost fetched0 = expansion_views(fetched@);
    let mut expanded = document;
    let mut fetched = fetched;
    let mut fetched_by = expansion_offset_keys(&fetched);
    proof {
        lemma_sort_commutes(fetched@, fetched_by@, |e: Expansion| e@);
    }
    sort_by_keys(&mut fetched, &mut fetched_by);
    let mut hits: Vec<Chunk> = Vec::new();
    std::mem::swap(&mut hits, &mut expanded.chunks);
    let mut hits_by = chunk_offset_keys(&hits);
    proof {
        lemma_sort_commutes(hits@, hits_by@, |c: Chunk| c@);
    }
    sort_by_keys(&mut hits, &mut hits_by);
    let ghost ordered = chunk_views(hits@);
    let ghost views = expansion_views(fetched@);
    assert(ordered == hits_in_order(hits0));
    assert(views == fetched_in_order(fetched0));
    let n = hits.len();
    let mut grown: Vec<Chunk> = Vec::new();
    let mut at: usize = 0;
    let mut i: usize = 0;
    proof {
        assert(ordered.skip(0) =~= ordered);
        assert(chunk_views(grown@) =~= Seq::<ChunkView>::empty());
        assert(walked(ordered, views, plan@, 0) =~= chunk_views(grown@) + walked(
            ordered.skip(0),
            views,
            plan@,
            0,
        ));
    }
    while i < n
        invariant
            n == hits@.len(),
            n == ordered.len(),
            ordered == chunk_views(hits@),
            views == expansion_views(fetched@),
            i <= n,
            at <= fetched@.len(),
            grown@.len() == i,
            walked(ordered, views, plan@, 0) == chunk_views(grown@) + walked(
                ordered.skip(i as int),
                views,
                plan@,
                at as int,
            ),
            walk_end(ordered, views, plan@, 0) == walk_end(
                ordered.skip(i as int),
                views,
                plan@,
                at as int,
            ),
        decreases n - i,
    {
        let ghost done = chunk_views(grown@);
        let (taken, next) = absorb(&hits[i], &fetched, plan, at);
        grown.push(taken);
        proof {
            let rest = ordered.skip(i as int);
            assert(rest[0] == hits@[i as int]@);
            assert(rest.drop_first() =~= ordered.skip(i + 1));
            assert(chunk_views(grown@) =~= done.push(taken@));
            assert(walked(ordered, views, plan@, 0) =~= chunk_views(grown@) + walked(
                ordered.skip(i + 1),
                views,
                plan@,
                next as int,
            ));
        }
        at = next;
        i = i + 1;
    }
    proof {
        assert(ordered.skip(n as int) =~= Seq::<ChunkView>::empty());
        assert(chunk_views(grown@) =~= walked(ordered, views, plan@, 0));
        assert(at == walk_end(ordered, views, plan@, 0));
    }
    let mut grown_by = chunk_score_keys(&grown);
    proof {
        lemma_sort_commutes(grown@, grown_by@, |c: Chunk| c@);
    }
    sort_by_keys(&mut grown, &mut grown_by);
    proof {
        assert(n * max_chunk_size + at * max_chunk_size == (n + at) * max_chunk_size && (n + at)
            * max_chunk_size <= usize::MAX && 0 <= n * max_chunk_size && 0 <= at
            * max_chunk_size) by (nonlinear_arith)
            requires
                0 <= n,
                0 <= at,
                0 <= max_chunk_size,
                n + at <= document.chunks@.len() + fetched0.len(),
                (document.chunks@.len() + fetched0.len()) * max_chunk_size <= usize::MAX,
        ;
    }
    expanded.chunks = grown;
    expanded.token_count = Some(n * max_chunk_size + at * max_chunk_size);
    expanded
}

/// The fetched chunk `e` lies in the window of hit `i`, the hits sharing
/// `budget` extra chunks among them.
pub open spec fn extends(
    hits: Seq<ChunkView>,
    budget: int,
    total: int,
    i: int,
    e: ExpansionView,
) -> bool {
    covers(chunk_offsets(hits), budget / (hits.len() as int), total, i, e.offset as int)
}

/// A hit takes fetched chunks up to the first that is not its own.
pub proof fn lemma_absorb_end(
    fetched: Seq<ExpansionView>,
    plan: Map<usize, usize>,
    anchor: usize,
    from: int,
)
    requires
        0 <= from <= fetched.len(),
    ensures
        from <= absorb_end(fetched, plan, anchor, from) <= fetched.len(),
        forall|p: int|
            from <= p < absorb_end(fetched, plan, anchor, from) ==> anchored(
                plan,
                #[trigger] fetched[p],
                anchor,
            ),
        absorb_end(fetched, plan, anchor, from) < fetched.len() ==> !anchored(
            plan,
            fetched[absorb_end(fetched, plan, anchor, from)],
            anchor,
        ),
    decreases fetched.len() - from,
{
    if from < fetched.len() && anchored(plan, fetched[from], anchor) {
        lemma_absorb_end(fetched, plan, anchor, from + 1);
    }
}

proof fn lemma_walk_from(
    hits: Seq<ChunkView>,
    fetched: Seq<ExpansionView>,
    budget: int,
    total: int,
    j: int,
    from: int,
)
    requires
        strictly_ascending(chunk_offsets(hits)),
        hits.len() > 0,
        forall|i: int| 0 <= i < hits.len() ==> chunk_offsets(hits)[i] < total,
        0 <= budget,
        forall|a: int, b: int|
            0 <= a <= b < fetched.len() ==> fetched[a].offset <= fetched[b].offset,
        forall|p: int|
            0 <= p < fetched.len() ==> expansion_plan(
                chunk_offsets(hits),
                budget,
                total,
            ).contains_key(#[trigger] fetched[p].offset),
        0 <= j <= hits.len(),
        0 <= from <= fetched.len(),
        forall|p: int, i: int|
            from <= p < fetched.len() && #[trigger] extends(hits, budget, total, i, fetched[p])
                ==> j <= i,
    ensures
        walk_end(
            hits.skip(j),
            fetched,
            expansion_plan(chunk_offsets(hits), budget, total),
            from,
        ) == fetched.len(),
    decreases hits.len() - j,
{
    let offsets = chunk_offsets(hits);
    let share = budget / (hits.len() as int);
    let plan = expansion_plan(offsets, budget, total);
    assert(0 <= share) by (nonlinear_arith)
        requires
            0 <= budget,
            hits.len() > 0,
            share == budget / (hits.len() as int),
    ;
    if j == hits.len() {
        assert(hits.skip(j) =~= Seq::<ChunkView>::empty());
        if from < fetched.len() {
            assert(plan.contains_key(fetched[from].offset));
            let i = choose|i: int| covers(offsets, share, total, i, fetched[from].offset as int);
            assert(extends(hits, budget, total, i, fetched[from]));
        }
    } else {
        let rest = hits.skip(j);
        let anchor = hits[j].offset;
        let to = absorb_end(fetched, plan, anchor, from);
        lemma_absorb_end(fetched, plan, anchor, from);
        assert(rest[0] == hits[j]);
        assert(rest.drop_first() =~= hits.skip(j + 1));
        assert forall|p: int, i: int|
            to <= p < fetched.len() && #[trigger] extends(
                hits,
                budget,
                total,
                i,
                fetched[p],
            ) implies j + 1 <= i by {
            assert(plan.contains_key(fetched[to].offset));
            let first = choose|i: int| covers(offsets, share, total, i, fetched[to].offset as int);
            lemma_covers_one(offsets, share, total, first, fetched[to].offset as int);
            assert(extends(hits, budget, total, first, fetched[to]));
            assert(plan[fetched[to].offset] == offsets[first]);
            assert(offsets[j] == anchor);
            assert(first != j);
            lemma_anchors_ascend(
                offsets,
                share,
                total,
                first,
                fetched[to].offset as int,
                i,
                fetched[p].offset as int,
            );
        }
        lemma_walk_from(hits, fetched, budget, total, j + 1, to);
    }
}

/// With the plan of the planner, hits in ascending order take every fetched
/// chunk that the plan names, the fetched chunks being in ascending order
/// too: none is left over, and the walk never stops short.
pub proof fn lemma_walk_takes_all(
    hits: Seq<ChunkView>,
    fetched: Seq<ExpansionView>,
    budget: int,
    total: int,
)
    requires
        strictly_ascending(chunk_offsets(hits)),
        hits.len() > 0,
        forall|i: int| 0 <= i < hits.len() ==> chunk_offsets(hits)[i] < total,
        0 <= budget,
        forall|a: int, b: int|
            0 <= a <= b < fetched.len() ==> fetched[a].offset <= fetched[b].offset,
        forall|p: int|
            0 <= p < fetched.len() ==> expansion_plan(
                chunk_offsets(hits),
                budget,
                total,
            ).contains_key(#[trigger] fetched[p].offset),
    ensures
        walk_end(hits, fetched, expansion_plan(chunk_offsets(hits), budget, total), 0)
            == fetched.len(),
{
    assert(hits.skip(0) =~= hits);
    lemma_walk_from(hits, fetched, budget, total, 0, 0);
}

/// The hits in the order of their offsets are in the order in which the
/// planner serves them.
pub proof fn lemma_hits_in_order(chunks: Seq<ChunkView>, total: int)
    requires
        valid_hits(chunk_offsets(chunks), total),
    ensures
        hits_in_order(chunks).len() == chunks.len(),
        chunk_offsets(hits_in_order(chunks)) == ascending(chunk_offsets(chunks)),
{
    let key = |c: ChunkView| c.offset as i128;
    let offset = |c: ChunkView| c.offset;
    let keys = offset_keys(chunks);
    let ordered = hits_in_order(chunks);
    assert(keys =~= chunks.map_values(key));
    lemma_sorted_by_own_keys(chunks, key);
    lemma_sort_commutes(chunks, keys, offset);
    lemma_sorted_keeps_items(chunks.map_values(offset), keys);
    let sorted = chunk_offsets(ordered);
    assert forall|i: int, j: int| 0 <= i <= j < sorted.len() implies sorted[i] <= sorted[j] by {
        assert(key(ordered[i]) <= key(ordered[j]));
    }
    lemma_ascending_is(chunk_offsets(chunks), sorted);
}

/// With the plan of the planner for the hits of a document, the hits take
/// every fetched chunk that the plan names, in whatever order hits and
/// fetched chunks came: the document then counts its tokens for each hit
/// and for each fetched chunk.
pub proof fn lemma_expansion_takes_all(
    chunks: Seq<ChunkView>,
    fetched: Seq<ExpansionView>,
    budget: int,
    total: int,
)
    requires
        valid_hits(chunk_offsets(chunks), total),
        0 <= budget,
        forall|p: int|
            0 <= p < fetched.len() ==> expansion_plan(
                ascending(chunk_offsets(chunks)),
                budget,
                total,
            ).contains_key(#[trigger] fetched[p].offset),
    ensures
        absorbed_of(
            chunks,
            fetched,
            expansion_plan(ascending(chunk_offsets(chunks)), budget, total),
        ) == fetched.len(),
{
    let plan = expansion_plan(ascending(chunk_offsets(chunks)), budget, total);
    let hits = hits_in_order(chunks);
    let ordered = fetched_in_order(fetched);
    let key = |e: ExpansionView| e.offset as i128;
    lemma_hits_in_order(chunks, total);
    crate::planner::lemma_ascending_hits(chunk_offsets(chunks), total);
    assert(fetched_keys(fetched) =~= fetched.map_values(key));
    lemma_sorted_by_own_keys(fetched, key);
    assert forall|a: int, b: int| 0 <= a <= b < ordered.len() implies ordered[a].offset
        <= ordered[b].offset by {
        assert(key(ordered[a]) <= key(ordered[b]));
    }
    assert forall|p: int| 0 <= p < ordered.len() implies plan.contains_key(
        #[trigger] ordered[p].offset,
    ) by {
        assert(fetched.contains(ordered[p]));
        let q = choose|q: int| 0 <= q < fetched.len() && fetched[q] == ordered[p];
        assert(plan.contains_key(fetched[q].offset));
    }
    lemma_walk_takes_all(hits, ordered, budget, total);
}

/// The two chunks are the same hit: they differ in their text at most.
pub open spec fn same_hit(a: ChunkView, b: ChunkView) -> bool {
    a.hash == b.hash && a.offset == b.offset && a.score == b.score
}

/// The walk changes the texts of the hits and nothing else: the hits stay
/// where they are, each with its fingerprint, its offset and its score.
pub proof fn lemma_walk_keeps_hits(
    chunks: Seq<ChunkView>,
    fetched: Seq<ExpansionView>,
    plan: Map<usize, usize>,
    from: int,
)
    requires
        0 <= from <= fetched.len(),
    ensures
        walked(chunks, fetched, plan, from).len() == chunks.len(),
        forall|i: int|
            0 <= i < chunks.len() ==> same_hit(
                #[trigger] walked(chunks, fetched, plan, from)[i],
                chunks[i],
            ),
        from <= walk_end(chunks, fetched, plan, from) <= fetched.len(),
    decreases chunks.len(),
{
    if chunks.len() > 0 {
        let to = absorb_end(fetched, plan, chunks[0].offset, from);
        lemma_absorb_end(fetched, plan, chunks[0].offset, from);
        lemma_walk_keeps_hits(chunks.drop_first(), fetched, plan, to);
        let rest = walked(chunks.drop_first(), fetched, plan, to);
        assert forall|i: int| 0 <= i < chunks.len() implies same_hit(
            #[trigger] walked(chunks, fetched, plan, from)[i],
            chunks[i],
        ) by {
            if i > 0 {
                assert(walked(chunks, fetched, plan, from)[i] == rest[i - 1]);
                assert(chunks.drop_first()[i - 1] == chunks[i]);
            }
        }
    }
}

/// Expansion keeps the hits: there are as many chunks as before, each is
/// one of the hits with a text that may have grown, the scores descend, and
/// no more than the fetched chunks are taken.
pub proof fn lemma_expansion_keeps_hits(
    chunks: Seq<ChunkView>,
    fetched: Seq<ExpansionView>,
    plan: Map<usize, usize>,
)
    ensures
        expanded_of(chunks, fetched, plan).len() == chunks.len(),
        forall|i: int|
            0 <= i < chunks.len() ==> exists|j: int|
                0 <= j < chunks.len() && same_hit(
                    #[trigger] expanded_of(chunks, fetched, plan)[i],
                    chunks[j],
                ),
        forall|i: int, j: int|
            0 <= i <= j < chunks.len() ==> score_key(
                #[trigger] expanded_of(chunks, fetched, plan)[i].score,
            ) <= score_key(#[trigger] expanded_of(chunks, fetched, plan)[j].score),
        0 <= absorbed_of(chunks, fetched, plan) <= fetched.len(),
{
    let by_offset = |c: ChunkView| c.offset as i128;
    let by_score = |c: ChunkView| score_key(c.score);
    let by_fetched = |e: ExpansionView| e.offset as i128;
    let hits = hits_in_order(chunks);
    let ordered = fetched_in_order(fetched);
    let grown = walked(hits, ordered, plan, 0);
    let result = expanded_of(chunks, fetched, plan);
    assert(offset_keys(chunks) =~= chunks.map_values(by_offset));
    assert(fetched_keys(fetched) =~= fetched.map_values(by_fetched));
    assert(score_keys(grown) =~= grown.map_values(by_score));
    lemma_sorted_by_own_keys(chunks, by_offset);
    lemma_sorted_by_own_keys(fetched, by_fetched);
    lemma_walk_keeps_hits(hits, ordered, plan, 0);
    lemma_sorted_by_own_keys(grown, by_score);
    assert forall|i: int| 0 <= i < chunks.len() implies exists|j: int|
        0 <= j < chunks.len() && same_hit(#[trigger] result[i], chunks[j]) by {
        assert(grown.contains(result[i]));
        let k = choose|k: int| 0 <= k < grown.len() && grown[k] == result[i];
        assert(same_hit(grown[k], hits[k]));
        assert(chunks.contains(hits[k]));
        let j = choose|j: int| 0 <= j < chunks.len() && chunks[j] == hits[k];
        assert(same_hit(result[i], chunks[j]));
    }
    assert forall|i: int, j: int| 0 <= i <= j < chunks.len() implies score_key(
        #[trigger] result[i].score,
    ) <= score_key(#[trigger] result[j].score) by {
        assert(by_score(result[i]) <= by_score(result[j]));
    }
}

/// The hits of a document take every fetched chunk that the plan of the
/// document names: after the expansion the document counts its tokens for
/// each hit and for each fetched chunk.
pub proof fn lemma_document_expansion_takes_all(
    document: Document,
    fetched: Seq<ExpansionView>,
    target: int,
    size: int,
)
    requires
        0 < size,
        budget_of(target, document.chunks@.len() as int, size) > 0 ==> expandable(document),
        forall|p: int|
            0 <= p < fetched.len() ==> document_plan_of(document, target, size).contains_key(
                #[trigger] fetched[p].offset,
            ),
    ensures
        absorbed_of(
            chunk_views(document.chunks@),
            fetched,
            document_plan_of(document, target, size),
        ) == fetched.len(),
{
    let chunks = chunk_views(document.chunks@);
    let plan = document_plan_of(document, target, size);
    let budget = budget_of(target, document.chunks@.len() as int, size);
    assert(0 <= budget) by (nonlinear_arith)
        requires
            0 < size,
            budget == budget_of(target, document.chunks@.len() as int, size),
    ;
    if budget == 0 || document.chunk_count == 0 {
        if fetched.len() > 0 {
            assert(plan.contains_key(fetched[0].offset));
        }
        lemma_sorted_len(fetched, fetched_keys(fetched));
        lemma_walk_keeps_hits(hits_in_order(chunks), fetched_in_order(fetched), plan, 0);
    } else {
        lemma_expansion_takes_all(chunks, fetched, budget, document.chunk_count as int);
    }
}

} // verus!
