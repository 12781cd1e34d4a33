//! A set of tags (key/value pairs of text) attached to telemetry items.
use vstd::prelude::*;
use crate::text_map::TextMap;

verus! {

/// A set of tags.
pub struct Tags {
    tags: TextMap,
}

impl View for Tags {
    type V = Map<Seq<char>, Seq<char>>;

    open spec fn view(&self) -> Map<Seq<char>, Seq<char>> {
        self.map()@
    }
}

impl Tags {
    /// The underlying map.
    pub closed spec fn map(&self) -> TextMap {
        self.tags
    }

    /// An empty set of tags.
    pub fn new() -> (r: Tags)
        ensures
            r@ == Map::<Seq<char>, Seq<char>>::empty(),
    {
        Tags { tags: TextMap::new() }
    }

    /// Sets the value of a tag, replacing any previous value.
    pub fn insert(&mut self, key: String, value: String)
        ensures
            final(self)@ == old(self)@.insert(key@, value@),
    {
        self.tags.insert(key, value);
    }

    /// Checks if the tags contain a specific tag.
    pub fn has_tag(&self, tag: &str) -> (r: bool)
        ensures
            r == self@.contains_key(tag@),
    {
        self.tags.contains_key(tag)
    }

    /// Gets a specific tag value from the tags if it exists or `None` otherwise.
    pub fn get_tag(&self, tag: &str) -> (r: Option<&String>)
        ensures
            match r {
                Some(v) => self@.contains_key(tag@) && self@[tag@] == v@,
                None => !self@.contains_key(tag@),
            },
    {
        self.tags.get(tag)
    }

    /// Gets all the tags as (key, value) pairs, each key once.
    pub fn iter(&self) -> (r: Vec<(String, String)>)
        ensures
            crate::text_map::keys_unique(r@),
            crate::text_map::pairs_map(r@) == self@,
            r@.len() == self@.len(),
    {
        self.tags.to_pairs()
    }

    /// Merges the tags with another set of tags. If a tag exists in both sets of tags, the tag
    /// from the current set of tags is used (i.e. self).
    pub fn merge_with_override(&self, other: &Tags) -> (r: Tags)
        ensures
            r@ == other@.union_prefer_right(self@),
    {
        Tags { tags: self.tags.merge_with_override(&other.tags) }
    }
}

impl Tags {
    /// Whether two sets of tags hold the same tags.
    pub fn same_tags(&self, other: &Tags) -> (r: bool)
        ensures
            r == (self@ == other@),
    {
        self.tags.same_map(&other.tags)
    }
}

impl Clone for Tags {
    /// A copy holding the same tags.
    fn clone(&self) -> (r: Self)
        ensures
            r@ == self@,
    {
        Tags { tags: self.tags.clone() }
    }
}

/// Merges two sets of tags. If a tag exists in both sets of tags, the tag from `tags`
/// is used to override the tag from `parent_tags`.
pub fn merge_with_override(tags: Option<&Tags>, parent_tags: Option<&Tags>) -> (r: Option<Tags>)
    ensures
        match (tags, parent_tags) {
            (Some(t), Some(p)) => r is Some && r->0@ == p@.union_prefer_right(t@),
            (Some(t), None) => r is Some && r->0@ == t@,
            (None, Some(p)) => r is Some && r->0@ == p@,
            (None, None) => r is None,
        },
{
    match (tags, parent_tags) {
        (Some(tags), Some(parent_tags)) => Some(tags.merge_with_override(parent_tags)),
        (Some(tags), None) => Some(tags.clone()),
        (None, Some(parent_tags)) => Some(parent_tags.clone()),
        (None, None) => None,
    }
}

} // verus!
