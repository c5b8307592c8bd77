//! Tags and the reserved system tags.
//!
//! A tag that begins with the reserved prefix is a system tag: the system
//! manages it, and callers that ask to keep the system tags of a document may
//! not supply one themselves.

use crate::text::{clone_strings, lemma_filter_push, starts_with, texts};
use vstd::prelude::*;

verus! {

/// `tag` begins with the reserved `prefix`.
pub open spec fn is_system_tag(tag: Seq<char>, prefix: Seq<char>) -> bool {
    prefix.is_prefix_of(tag)
}

/// The system tags among `tags`, in their order.
pub open spec fn system_tags_of(tags: Seq<Seq<char>>, prefix: Seq<char>) -> Seq<Seq<char>> {
    tags.filter(|tag: Seq<char>| is_system_tag(tag, prefix))
}

/// The tags among `tags` that are no system tags, in their order.
pub open spec fn user_tags_of(tags: Seq<Seq<char>>, prefix: Seq<char>) -> Seq<Seq<char>> {
    tags.filter(|tag: Seq<char>| !is_system_tag(tag, prefix))
}

/// The tags of a new version: the supplied tags, then the system tags that
/// the current version carries. Nothing is deduplicated.
pub open spec fn merged_tags_of(
    supplied: Seq<Seq<char>>,
    current: Seq<Seq<char>>,
    prefix: Seq<char>,
) -> Seq<Seq<char>> {
    supplied + system_tags_of(current, prefix)
}

/// Whether one of `tags` is a system tag.
pub fn has_system_tag(tags: &Vec<String>, prefix: &str) -> (r: bool)
    ensures
        r == exists|i: int| 0 <= i < tags@.len() && is_system_tag(#[trigger] tags@[i]@, prefix@),
{
    let mut i: usize = 0;
    while i < tags.len()
        invariant
            i <= tags.len(),
            forall|j: int| 0 <= j < i ==> !is_system_tag(#[trigger] tags@[j]@, prefix@),
        decreases tags.len() - i,
    {
        if starts_with(tags[i].as_str(), prefix) {
            return true;
        }
        i = i + 1;
    }
    false
}

fn select_tags(tags: &Vec<String>, prefix: &str, system: bool) -> (r: Vec<String>)
    ensures
        texts(r@) == texts(tags@).filter(|tag: Seq<char>| is_system_tag(tag, prefix@) == system),
{
    let ghost keep = |tag: Seq<char>| is_system_tag(tag, prefix@) == system;
    let mut r: Vec<String> = Vec::new();
    let mut i: usize = 0;
    proof {
        reveal(Seq::filter);
        assert(texts(tags@).subrange(0, 0) =~= Seq::<Seq<char>>::empty());
        assert(texts(r@) =~= Seq::<Seq<char>>::empty());
    }
    while i < tags.len()
        invariant
            i <= tags.len(),
            keep == |tag: Seq<char>| is_system_tag(tag, prefix@) == system,
            texts(r@) == texts(tags@).subrange(0, i as int).filter(keep),
        decreases tags.len() - i,
    {
        let ghost before = texts(r@);
        let ghost seen = texts(tags@).subrange(0, i as int);
        proof {
            assert(texts(tags@).subrange(0, i + 1) =~= seen.push(tags@[i as int]@));
            lemma_filter_push(seen, keep, tags@[i as int]@);
        }
        if starts_with(tags[i].as_str(), prefix) == system {
            r.push(tags[i].clone());
            assert(texts(r@) =~= before.push(tags@[i as int]@));
        }
        i = i + 1;
    }
    assert(texts(tags@).subrange(0, tags.len() as int) =~= texts(tags@));
    r
}

/// The system tags among `tags`, in their order.
pub fn system_tags(tags: &Vec<String>, prefix: &str) -> (r: Vec<String>)
    ensures
        texts(r@) == system_tags_of(texts(tags@), prefix@),
{
    let r = select_tags(tags, prefix, true);
    assert(texts(r@) =~= system_tags_of(texts(tags@), prefix@)) by {
        assert((|tag: Seq<char>| is_system_tag(tag, prefix@) == true) =~= (|tag: Seq<char>|
            is_system_tag(tag, prefix@)));
    }
    r
}

/// `tags` without the system tags, the others in their order.
pub fn remove_system_tags(tags: &Vec<String>, prefix: &str) -> (r: Vec<String>)
    ensures
        texts(r@) == user_tags_of(texts(tags@), prefix@),
{
    let r = select_tags(tags, prefix, false);
    assert(texts(r@) =~= user_tags_of(texts(tags@), prefix@)) by {
        assert((|tag: Seq<char>| is_system_tag(tag, prefix@) == false) =~= (|tag: Seq<char>|
            !is_system_tag(tag, prefix@)));
    }
    r
}

/// The tags of a new version of a document: `supplied`, followed by the
/// system tags among `current`, the tags of the version in the store.
pub fn merge_system_tags(supplied: &Vec<String>, current: &Vec<String>, prefix: &str) -> (r: Vec<
    String,
>)
    ensures
        texts(r@) == merged_tags_of(texts(supplied@), texts(current@), prefix@),
{
    let mut r = clone_strings(supplied);
    let mut kept = system_tags(current, prefix);
    let ghost head = r@;
    let ghost tail = kept@;
    r.append(&mut kept);
    assert(texts(r@) =~= texts(head) + texts(tail));
    r
}

} // verus!
