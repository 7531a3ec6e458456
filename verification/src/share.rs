//! Articles shared on a chain, and the search among them.

use vstd::prelude::*;
use vstd::string::*;

verus! {

/// The notice of an article, as it is posted to a chain.
#[derive(Clone, Debug)]
pub struct Share {
    /// Title of the article.
    pub title: String,
    /// Authors of the article.
    pub authors: Vec<String>,
    /// Tags of the article.
    pub tags: Vec<String>,
    /// Where the article is.
    pub uri: String,
}

/// A [`Share`] as contracts see it.
pub struct ShareView {
    pub title: Seq<char>,
    pub authors: Seq<Seq<char>>,
    pub tags: Seq<Seq<char>>,
    pub uri: Seq<char>,
}

/// The views of `texts`, in their order.
pub open spec fn views(texts: Seq<String>) -> Seq<Seq<char>> {
    Seq::new(texts.len(), |i: int| texts[i]@)
}

/// The views of `texts`, in their order.
pub open spec fn slice_views(texts: Seq<&str>) -> Seq<Seq<char>> {
    Seq::new(texts.len(), |i: int| texts[i]@)
}

impl View for Share {
    type V = ShareView;

    open spec fn view(&self) -> ShareView {
        ShareView {
            title: self.title@,
            authors: views(self.authors@),
            tags: views(self.tags@),
            uri: self.uri@,
        }
    }
}

/// What `str::to_lowercase` makes of `text`.
pub uninterp spec fn lowercase(text: Seq<char>) -> Seq<char>;

/// The lower-case forms of `texts`, in their order.
pub open spec fn lowercased(texts: Seq<Seq<char>>) -> Seq<Seq<char>> {
    Seq::new(texts.len(), |i: int| lowercase(texts[i]))
}

/// Whether `needle` stands somewhere in `text`.
pub open spec fn occurs_in(needle: Seq<char>, text: Seq<char>) -> bool {
    exists|i: int|
        0 <= i <= text.len() - needle.len() && #[trigger] text.subrange(i, i + needle.len())
            == needle
}

/// Whether `needle` stands in one of `texts`.
pub open spec fn occurs_in_any(needle: Seq<char>, texts: Seq<Seq<char>>) -> bool {
    exists|i: int| 0 <= i < texts.len() && occurs_in(needle, #[trigger] texts[i])
}

impl ShareView {
    /// The notice in lower case: its title, its authors and its tags.
    pub open spec fn lowered(self) -> ShareView {
        ShareView {
            title: lowercase(self.title),
            authors: lowercased(self.authors),
            tags: lowercased(self.tags),
            uri: self.uri,
        }
    }

    /// Whether the title, an author or a tag holds `needle`, letter for letter.
    pub open spec fn holds(self, needle: Seq<char>) -> bool {
        ||| occurs_in(needle, self.title)
        ||| occurs_in_any(needle, self.authors)
        ||| occurs_in_any(needle, self.tags)
    }

    /// Whether the title, an author or a tag holds one of `needles`, letter for
    /// letter.
    pub open spec fn holds_any(self, needles: Seq<Seq<char>>) -> bool {
        exists|k: int| 0 <= k < needles.len() && self.holds(#[trigger] needles[k])
    }
}

/// The views of `posts`, pair by pair.
pub open spec fn post_views(posts: Seq<(String, Share)>) -> Seq<(Seq<char>, ShareView)> {
    Seq::new(posts.len(), |i: int| (posts[i].0@, posts[i].1@))
}

/// The hashes of those of `posts` whose article, in lower case, holds one of
/// `needles`; in the order of the posts.
pub open spec fn hits(posts: Seq<(Seq<char>, ShareView)>, needles: Seq<Seq<char>>) -> Seq<
    Seq<char>,
>
    decreases posts.len(),
{
    if posts.len() == 0 {
        Seq::empty()
    } else if posts.last().1.lowered().holds_any(needles) {
        hits(posts.drop_last(), needles).push(posts.last().0)
    } else {
        hits(posts.drop_last(), needles)
    }
}

/// `str::to_lowercase`: each character replaced by its lower-case form as Unicode
/// defines it, whatever the language of the machine. The contract names the result.
#[verifier::external_body]
fn to_lowercase(text: &str) -> (lower: String)
    ensures
        lower@ == lowercase(text@),
{
    text.to_lowercase()
}

/// `str::contains` with a string as the pattern: whether the pattern stands
/// somewhere in the text.
#[verifier::external_body]
fn contains(text: &str, needle: &str) -> (found: bool)
    ensures
        found == occurs_in(needle@, text@),
{
    text.contains(needle)
}

/// The lower-case forms of `texts`, in their order.
fn all_lowercase(texts: &Vec<String>) -> (lower: Vec<String>)
    ensures
        views(lower@) == lowercased(views(texts@)),
{
    let mut lower: Vec<String> = Vec::new();
    let mut i: usize = 0;
    while i < texts.len()
        invariant
            i <= texts.len(),
            lower.len() == i,
            forall|k: int| 0 <= k < i ==> lower[k]@ == lowercase(texts[k]@),
        decreases texts.len() - i,
    {
        lower.push(to_lowercase(texts[i].as_str()));
        i += 1;
    }
    assert(views(lower@) =~= lowercased(views(texts@)));
    lower
}

/// Whether `needle` stands in one of `texts`.
fn any_holds(texts: &Vec<String>, needle: &str) -> (found: bool)
    ensures
        found == occurs_in_any(needle@, views(texts@)),
{
    let mut i: usize = 0;
    while i < texts.len()
        invariant
            i <= texts.len(),
            forall|k: int| 0 <= k < i ==> !occurs_in(needle@, #[trigger] views(texts@)[k]),
        decreases texts.len() - i,
    {
        if contains(texts[i].as_str(), needle) {
            assert(views(texts@)[i as int] == texts[i as int]@);
            return true;
        }
        assert(views(texts@)[i as int] == texts[i as int]@);
        i += 1;
    }
    false
}

impl Share {
    /// The notice in lower case: its title, its authors and its tags. The address
    /// stays as it is.
    pub fn lowered(&self) -> (lower: Share)
        ensures
            lower@ == self@.lowered(),
    {
        Share {
            title: to_lowercase(self.title.as_str()),
            authors: all_lowercase(&self.authors),
            tags: all_lowercase(&self.tags),
            uri: self.uri.clone(),
        }
    }

    /// Whether the title, an author or a tag holds `needle`, letter for letter.
    pub fn holds(&self, needle: &str) -> (found: bool)
        ensures
            found == self@.holds(needle@),
    {
        contains(self.title.as_str(), needle) || any_holds(&self.authors, needle) || any_holds(
            &self.tags,
            needle,
        )
    }

    /// Whether the title, an author or a tag holds one of `needles`, letter for
    /// letter.
    pub fn holds_any(&self, needles: &Vec<String>) -> (found: bool)
        ensures
            found == self@.holds_any(views(needles@)),
    {
        let mut k: usize = 0;
        while k < needles.len()
            invariant
                k <= needles.len(),
                forall|j: int| 0 <= j < k ==> !self@.holds(#[trigger] views(needles@)[j]),
            decreases needles.len() - k,
        {
            assert(views(needles@)[k as int] == needles[k as int]@);
            if self.holds(needles[k].as_str()) {
                return true;
            }
            k += 1;
        }
        false
    }
}

/// Copies of `texts`, in their order.
fn owned(texts: &[&str]) -> (copies: Vec<String>)
    ensures
        views(copies@) == slice_views(texts@),
{
    let mut copies: Vec<String> = Vec::new();
    let mut i: usize = 0;
    while i < texts.len()
        invariant
            i <= texts.len(),
            copies.len() == i,
            forall|k: int| 0 <= k < i ==> copies[k]@ == texts[k]@,
        decreases texts.len() - i,
    {
        copies.push(String::from_str(texts[i]));
        i += 1;
    }
    assert(views(copies@) =~= slice_views(texts@));
    copies
}

/// Makes the notice of an article.
pub fn share_article(title: &str, authors: &[&str], tags: &[&str], uri: &str) -> (share: Share)
    ensures
        share@ == (ShareView {
            title: title@,
            authors: slice_views(authors@),
            tags: slice_views(tags@),
            uri: uri@,
        }),
{
    Share {
        title: String::from_str(title),
        authors: owned(authors),
        tags: owned(tags),
        uri: String::from_str(uri),
    }
}

/// Searches the posts of a chain: the hashes of those whose article holds one of
/// `strings` in its title, in an author or in a tag, letter case put aside on both
/// sides. The hashes come in the order of the posts.
pub fn search_all(posts: &Vec<(String, Share)>, strings: &[&str]) -> (found: Vec<String>)
    ensures
        views(found@) == hits(post_views(posts@), lowercased(slice_views(strings@))),
{
    let needles = all_lowercase(&owned(strings));
    let mut found: Vec<String> = Vec::new();
    let mut i: usize = 0;
    assert(post_views(posts@).take(0) =~= Seq::empty());
    while i < posts.len()
        invariant
            i <= posts.len(),
            views(found@) == hits(post_views(posts@).take(i as int), views(needles@)),
        decreases posts.len() - i,
    {
        let ghost before = post_views(posts@).take(i as int);
        let ghost now = post_views(posts@).take(i + 1);
        let ghost old_found = views(found@);
        assert(now.drop_last() =~= before);
        assert(now.last() == (posts[i as int].0@, posts[i as int].1@));
        if posts[i].1.lowered().holds_any(&needles) {
            found.push(posts[i].0.clone());
            assert(views(found@) =~= old_found.push(posts[i as int].0@));
        }
        i += 1;
    }
    assert(post_views(posts@).take(posts.len() as int) =~= post_views(posts@));
    found
}

/// Where the article is.
pub fn get_uri(share: &Share) -> (uri: &str)
    ensures
        uri@ == share@.uri,
{
    share.uri.as_str()
}

/// The title of the article.
pub fn get_title(share: &Share) -> (title: &str)
    ensures
        title@ == share@.title,
{
    share.title.as_str()
}

} // verus!
