//! Predicate search over entries.
//!
//! The engine applies a pluggable matcher uninterpreted across all entries;
//! the matcher contract couples the executable decision to a
//! specification-level predicate, so that `search`'s result is pinned down
//! exactly. A ready-made query type matches string-keyed entries on a
//! key pattern and a metadata category.

use vstd::prelude::*;
use crate::cache::CacheValue;
use crate::entry::CacheEntry;
use crate::entry::EntryMetadata;

verus! {

/// Whether `needle` occurs contiguously inside `hay`.
pub open spec fn is_substring(needle: Seq<char>, hay: Seq<char>) -> bool {
    exists|i: int|
        0 <= i <= hay.len() - needle.len() && #[trigger] hay.subrange(i, i + needle.len())
            =~= needle
}

/// Decide whether `needle` occurs contiguously inside `hay`.
pub fn str_contains(hay: &str, needle: &str) -> (r: bool)
    ensures
        r == is_substring(needle@, hay@),
{
    let n = needle.unicode_len();
    let m = hay.unicode_len();
    if n > m {
        return false;
    }
    if n == 0 {
        proof {
            assert(hay@.subrange(0, 0 + needle@.len() as int) =~= needle@);
        }
        return true;
    }
    let mut i: usize = 0;
    while i <= m - n
        invariant
            n == needle@.len(),
            m == hay@.len(),
            0 < n <= m,
            i <= m - n + 1,
            forall|s: int|
                0 <= s < i ==> #[trigger] hay@.subrange(s, s + needle@.len()) !== needle@,
        decreases m - i,
    {
        let mut j: usize = 0;
        let mut matched = true;
        while j < n
            invariant
                n == needle@.len(),
                m == hay@.len(),
                n <= m,
                i <= m - n,
                j <= n,
                matched ==> forall|l: int| 0 <= l < j ==> hay@[i + l] == needle@[l],
                !matched ==> hay@.subrange(i as int, i + needle@.len()) !== needle@,
            decreases n - j,
        {
            if hay.get_char(i + j) != needle.get_char(j) {
                proof {
                    assert(hay@.subrange(i as int, i + needle@.len())[j as int] == hay@[i + j]);
                }
                matched = false;
                j = n;
            } else {
                j = j + 1;
            }
        }
        if matched {
            proof {
                assert(hay@.subrange(i as int, i + needle@.len()) =~= needle@);
            }
            return true;
        }
        i = i + 1;
    }
    false
}

/// A free-text query over string-keyed entries: an entry matches when its
/// key contains the pattern (if one is set) and its metadata reports the
/// category (if one is set).
#[derive(Debug, Clone)]
pub struct SearchQuery {
    /// A substring the key must contain.
    pub pattern: Option<String>,
    /// The category the metadata must report.
    pub category: Option<String>,
}

impl SearchQuery {
    /// A query that matches everything.
    pub fn new() -> (r: Self)
        ensures
            r.pattern is None,
            r.category is None,
    {
        SearchQuery { pattern: None, category: None }
    }

    /// The same query, also asking for `pattern` inside the key.
    pub fn with_pattern(self, pattern: &str) -> (r: Self)
        ensures
            r.pattern matches Some(p) && p@ == pattern@,
            r.category == self.category,
    {
        SearchQuery { pattern: Some(pattern.to_owned()), ..self }
    }

    /// The same query, also asking for the metadata category `category`.
    pub fn with_category(self, category: &str) -> (r: Self)
        ensures
            r.category matches Some(c) && c@ == category@,
            r.pattern == self.pattern,
    {
        SearchQuery { category: Some(category.to_owned()), ..self }
    }
}

/// The matcher contract the engine's `search` relies on: the executable
/// decision agrees with a specification-level predicate, which is all the
/// engine assumes about it.
pub trait Searchable {
    /// What the matcher accepts, at the specification level.
    type Query;

    /// Whether this entry matches the query.
    spec fn match_spec(&self, q: &Self::Query) -> bool;

    /// Decide whether this entry matches the query.
    fn matches(&self, q: &Self::Query) -> (r: bool)
        ensures
            r == self.match_spec(q),
    ;
}

impl<V: CacheValue, M: EntryMetadata> Searchable for CacheEntry<String, V, M> {
    type Query = SearchQuery;

    open spec fn match_spec(&self, q: &SearchQuery) -> bool {
        &&& match q.pattern {
            Some(p) => is_substring(p@, self.key@),
            None => true,
        }
        &&& match q.category {
            Some(c) => self.metadata.spec_category() == Some(c@),
            None => true,
        }
    }

    fn matches(&self, q: &SearchQuery) -> (r: bool) {
        let pattern_ok = match &q.pattern {
            Some(p) => str_contains(self.key.as_str(), p.as_str()),
            None => true,
        };
        if !pattern_ok {
            return false;
        }
        match &q.category {
            Some(c) => {
                match self.metadata.category() {
                    Some(mc) => {
                        let r = mc.to_owned().eq(&c.as_str().to_owned());
                        proof {
                            if r {
                                assert(self.metadata.spec_category() == Some(c@));
                            }
                        }
                        r
                    },
                    None => false,
                }
            },
            None => true,
        }
    }
}

} // verus!
