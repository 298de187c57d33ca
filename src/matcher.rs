//! Atomic predicates over a single tag key.

use vstd::prelude::*;

verus! {

/// A tag set: key/value pairs attached to a map entity.
pub type Tags = Vec<(String, String)>;

/// The mathematical form of a tag set.
pub open spec fn tags_view(tags: Seq<(String, String)>) -> Seq<(Seq<char>, Seq<char>)> {
    tags.map_values(|t: (String, String)| (t.0@, t.1@))
}

/// The mathematical form of a list of strings.
pub open spec fn strings_view(vs: Seq<String>) -> Seq<Seq<char>> {
    vs.map_values(|v: String| v@)
}

/// What a matcher asks of the value under its key.
pub enum MatchKind {
    InList(Vec<String>),
    Exact(String),
    All,
}

pub enum KindView {
    InList(Seq<Seq<char>>),
    Exact(Seq<char>),
    All,
}

impl KindView {
    /// Whether `value` satisfies this kind.
    pub open spec fn accepts(self, value: Seq<char>) -> bool {
        match self {
            KindView::InList(vs) => vs.contains(value),
            KindView::Exact(v) => v == value,
            KindView::All => true,
        }
    }
}

impl View for MatchKind {
    type V = KindView;

    open spec fn view(&self) -> KindView {
        match self {
            MatchKind::InList(vs) => KindView::InList(strings_view(vs@)),
            MatchKind::Exact(v) => KindView::Exact(v@),
            MatchKind::All => KindView::All,
        }
    }
}

/// A predicate over one tag key: matches a tag set when some tag has the key
/// and a value that the kind accepts.
pub struct Matcher {
    pub key: String,
    pub kind: MatchKind,
}

pub struct MatcherView {
    pub key: Seq<char>,
    pub kind: KindView,
}

impl MatcherView {
    /// Whether the single tag `(key, value)` satisfies this matcher.
    pub open spec fn accepts(self, key: Seq<char>, value: Seq<char>) -> bool {
        self.key == key && self.kind.accepts(value)
    }

    /// Whether some tag of `tags` satisfies this matcher.
    pub open spec fn matches(self, tags: Seq<(Seq<char>, Seq<char>)>) -> bool {
        exists|i: int| 0 <= i < tags.len() && #[trigger] self.accepts(tags[i].0, tags[i].1)
    }
}

impl View for Matcher {
    type V = MatcherView;

    open spec fn view(&self) -> MatcherView {
        MatcherView { key: self.key@, kind: self.kind@ }
    }
}

impl Clone for MatchKind {
    fn clone(&self) -> (r: Self)
        ensures
            r@ == self@,
    {
        match self {
            MatchKind::InList(vs) => {
                let r = vs.clone();
                assert(strings_view(r@) =~= strings_view(vs@));
                MatchKind::InList(r)
            },
            MatchKind::Exact(v) => MatchKind::Exact(v.clone()),
            MatchKind::All => MatchKind::All,
        }
    }
}

impl Clone for Matcher {
    fn clone(&self) -> (r: Self)
        ensures
            r@ == self@,
    {
        Matcher { key: self.key.clone(), kind: self.kind.clone() }
    }
}

/// Whether `value` is one of `vs`.
fn list_contains(vs: &Vec<String>, value: &String) -> (r: bool)
    ensures
        r == strings_view(vs@).contains(value@),
{
    let mut i: usize = 0;
    while i < vs.len()
        invariant
            i <= vs.len(),
            forall|j: int| 0 <= j < i ==> vs@[j]@ != value@,
        decreases vs.len() - i,
    {
        if vs[i] == *value {
            assert(strings_view(vs@)[i as int] == value@);
            return true;
        }
        i += 1;
    }
    false
}

impl Matcher {
    /// Whether the tag `(key, value)` satisfies this matcher.
    pub fn match_tag(&self, key: &String, value: &String) -> (r: bool)
        ensures
            r == self@.accepts(key@, value@),
    {
        if self.key == *key {
            return match &self.kind {
                MatchKind::All => true,
                MatchKind::Exact(v) => *v == *value,
                MatchKind::InList(vs) => list_contains(vs, value),
            };
        }
        false
    }

    /// Whether some tag of `tags` satisfies this matcher.
    pub fn match_tags(&self, tags: &Tags) -> (r: bool)
        ensures
            r == self@.matches(tags_view(tags@)),
    {
        let mut i: usize = 0;
        while i < tags.len()
            invariant
                i <= tags.len(),
                forall|j: int| 0 <= j < i ==> !self@.accepts(tags@[j].0@, tags@[j].1@),
            decreases tags.len() - i,
        {
            if self.match_tag(&tags[i].0, &tags[i].1) {
                assert(self@.accepts(tags_view(tags@)[i as int].0, tags_view(tags@)[i as int].1));
                return true;
            }
            i += 1;
        }
        assert forall|j: int| 0 <= j < tags_view(tags@).len() implies !#[trigger] self@.accepts(
            tags_view(tags@)[j].0,
            tags_view(tags@)[j].1,
        ) by {}
        false
    }
}

} // verus!
