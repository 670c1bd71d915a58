use vstd::prelude::*;

verus! {

/// One listing entry. `rank` is the ephemeral 1-based display position,
/// recomputed on every fetch; `id` is the stable site-assigned identifier
/// used for detail lookups. The two are deliberately separate fields:
/// position is not identity.
#[derive(Debug, Clone, PartialEq)]
pub struct Story {
    pub rank: usize,
    pub id: String,
    /// Non-empty display text: extraction discards entries without a title.
    pub title: String,
    /// Absolute link; relative links are resolved against the site base.
    pub url: Option<String>,
    pub points: Option<usize>,
    pub author: Option<String>,
    pub comments: Option<usize>,
    /// Free-text relative age, present only on freshly fetched entries;
    /// never persisted in the cache.
    pub age: Option<String>,
}

pub open spec fn view_opt_str(o: Option<String>) -> Option<Seq<char>> {
    match o {
        Some(s) => Some(s@),
        None => None,
    }
}

/// Mathematical image of a `Story`.
#[verifier::ext_equal]
pub ghost struct StoryView {
    pub rank: usize,
    pub id: Seq<char>,
    pub title: Seq<char>,
    pub url: Option<Seq<char>>,
    pub points: Option<usize>,
    pub author: Option<Seq<char>>,
    pub comments: Option<usize>,
    pub age: Option<Seq<char>>,
}

impl View for Story {
    type V = StoryView;

    open spec fn view(&self) -> StoryView {
        StoryView {
            rank: self.rank,
            id: self.id@,
            title: self.title@,
            url: view_opt_str(self.url),
            points: self.points,
            author: view_opt_str(self.author),
            comments: self.comments,
            age: view_opt_str(self.age),
        }
    }
}

/// The views of a vector of stories.
pub open spec fn story_views(s: Seq<Story>) -> Seq<StoryView> {
    s.map_values(|st: Story| st@)
}

} // verus!
