//! The filter of a search, as callers write it.
//!
//! In JSON a filter reads
//! `{"tags": {"in": [..], "not": [..]}, "timestamp": {"gt": .., "lt": ..}}`,
//! every part of which may be left out.

use crate::index::{Condition, ConditionView, Filter, FilterView, PayloadField};
use crate::text::{clone_strings, texts};
use vstd::prelude::*;

verus! {

/// A filter on tags: a document passes if it has at least one of the tags in
/// `is_in` and none of the tags in `is_not`.
#[derive(Debug)]
pub struct TagsFilter {
    pub is_in: Option<Vec<String>>,
    pub is_not: Option<Vec<String>>,
}

/// A filter on timestamps: a document passes if its timestamp is not below
/// `gt` and not above `lt`.
#[derive(Debug)]
pub struct TimestampFilter {
    pub gt: Option<u64>,
    pub lt: Option<u64>,
}

/// The filter of a search: on tags, on timestamps, or on both.
#[derive(Debug)]
pub struct SearchFilter {
    pub tags: Option<TagsFilter>,
    pub timestamp: Option<TimestampFilter>,
}

/// The condition for the tags that a document may have, if any are listed.
pub open spec fn tags_in_of(filter: SearchFilter) -> Seq<ConditionView> {
    match filter.tags {
        Some(TagsFilter { is_in: Some(tags), .. }) => seq![
            ConditionView::AnyKeyword { field: PayloadField::Tags, values: texts(tags@) },
        ],
        _ => Seq::empty(),
    }
}

/// The condition for the tags that a document may not have, if any are listed.
pub open spec fn tags_not_of(filter: SearchFilter) -> Seq<ConditionView> {
    match filter.tags {
        Some(TagsFilter { is_not: Some(tags), .. }) => seq![
            ConditionView::AnyKeyword { field: PayloadField::Tags, values: texts(tags@) },
        ],
        _ => Seq::empty(),
    }
}

/// The condition for the earliest timestamp, if one is given. The bound
/// itself passes.
pub open spec fn not_before_of(filter: SearchFilter) -> Seq<ConditionView> {
    match filter.timestamp {
        Some(TimestampFilter { gt: Some(bound), .. }) => seq![
            ConditionView::AtLeast { field: PayloadField::Timestamp, bound },
        ],
        _ => Seq::empty(),
    }
}

/// The condition for the latest timestamp, if one is given. The bound itself
/// passes.
pub open spec fn not_after_of(filter: SearchFilter) -> Seq<ConditionView> {
    match filter.timestamp {
        Some(TimestampFilter { lt: Some(bound), .. }) => seq![
            ConditionView::AtMost { field: PayloadField::Timestamp, bound },
        ],
        _ => Seq::empty(),
    }
}

/// The filter on points that a search filter stands for. A part that is
/// left out adds no condition.
pub open spec fn point_filter_of(filter: SearchFilter) -> FilterView {
    FilterView {
        must: tags_in_of(filter) + not_before_of(filter) + not_after_of(filter),
        must_not: tags_not_of(filter),
    }
}

impl SearchFilter {
    /// The filter on points that this filter stands for.
    pub fn point_filter(&self) -> (filter: Filter)
        ensures
            filter@ == point_filter_of(*self),
    {
        let mut must: Vec<Condition> = Vec::new();
        let mut must_not: Vec<Condition> = Vec::new();
        match &self.tags {
            Some(tags) => {
                match &tags.is_in {
                    Some(listed) => {
                        must.push(
                            Condition::AnyKeyword {
                                field: PayloadField::Tags,
                                values: clone_strings(listed),
                            },
                        );
                    },
                    None => {},
                }
                match &tags.is_not {
                    Some(listed) => {
                        must_not.push(
                            Condition::AnyKeyword {
                                field: PayloadField::Tags,
                                values: clone_strings(listed),
                            },
                        );
                    },
                    None => {},
                }
            },
            None => {},
        }
        match &self.timestamp {
            Some(timestamp) => {
                match timestamp.gt {
                    Some(bound) => {
                        must.push(Condition::AtLeast { field: PayloadField::Timestamp, bound });
                    },
                    None => {},
                }
                match timestamp.lt {
                    Some(bound) => {
                        must.push(Condition::AtMost { field: PayloadField::Timestamp, bound });
                    },
                    None => {},
                }
            },
            None => {},
        }
        let filter = Filter { must, must_not };
        assert(filter@.must =~= point_filter_of(*self).must);
        assert(filter@.must_not =~= point_filter_of(*self).must_not);
        filter
    }
}

/// The filter on points for a search: none where the search has no filter.
pub fn search_point_filter(filter: &Option<SearchFilter>) -> (points: Option<Filter>)
    ensures
        match *filter {
            Some(f) => points matches Some(p) && p@ == point_filter_of(f),
            None => points is None,
        },
{
    match filter {
        Some(f) => Some(f.point_filter()),
        None => None,
    }
}

} // verus!
