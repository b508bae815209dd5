//! Rules for the releases shown and the requests forwarded to the
//! media-request manager.
use vstd::prelude::*;
use vstd::string::{StrSliceExecFns, StringExecFns};

use crate::error::Error;
use crate::omdb::Rating;
use crate::status::chars_of;

verus! {

/// The body of a request to add a title: the seasons wanted, for a show.
#[derive(Clone, Debug)]
pub struct MediaRequest {
    pub seasons: Option<Vec<i32>>,
}

/// The kinds of title that can be requested.
#[derive(Clone, Copy, Debug, PartialEq, Eq, Structural)]
pub enum MediaKind {
    Movie,
    Tv,
}

impl MediaRequest {
    /// The seasons to forward: only a show has seasons.
    pub fn seasons_for(self, media_type: &str) -> (r: Option<Vec<i32>>)
        ensures
            media_type@ == "tv"@ ==> r == self.seasons,
            media_type@ != "tv"@ ==> r is None,
    {
        if String::from_str(media_type) == String::from_str("tv") {
            self.seasons
        } else {
            None
        }
    }
}

/// The kind named by a media type: `movie` or `tv`; any other is refused.
pub fn media_kind(media_type: &str) -> (r: Result<MediaKind, Error>)
    ensures
        media_type@ == "movie"@ ==> r == Ok::<MediaKind, Error>(MediaKind::Movie),
        media_type@ == "tv"@ ==> r == Ok::<MediaKind, Error>(MediaKind::Tv),
        media_type@ != "movie"@ && media_type@ != "tv"@ ==> (r matches Err(Error::Jellyseerr(m))
            && m@ == "Error: Invalid media type: "@ + media_type@),
{
    proof {
        reveal_strlit("tv");
        reveal_strlit("movie");
        assert("tv"@.len() != "movie"@.len());
    }
    let t = String::from_str(media_type);
    if t == String::from_str("movie") {
        Ok(MediaKind::Movie)
    } else if t == String::from_str("tv") {
        Ok(MediaKind::Tv)
    } else {
        Err(Error::Jellyseerr(String::from_str("Error: Invalid media type: ").concat(media_type)))
    }
}

/// Whether a title (by media type and id) is among those already requested.
pub fn is_requested(requested: &Vec<(String, i32)>, media_type: &String, id: i32) -> (r: bool)
    ensures
        r == exists|i: int|
            0 <= i < requested.len() && (#[trigger] requested[i]).0@ == media_type@ && requested[i].1
                == id,
{
    let mut i: usize = 0;
    while i < requested.len()
        invariant
            i <= requested.len(),
            forall|j: int|
                0 <= j < i ==> !((#[trigger] requested[j]).0@ == media_type@ && requested[j].1 == id),
        decreases requested.len() - i,
    {
        if requested[i].0 == *media_type && requested[i].1 == id {
            return true;
        }
        i = i + 1;
    }
    false
}

/// Where a poster is shown from: the provider's image server, or a
/// placeholder for a title without a poster.
pub fn poster_url(poster_path: Option<String>) -> (r: String)
    ensures
        r@ == (match poster_path {
            Some(p) => "https://image.tmdb.org/t/p/w500"@ + p@,
            None => "https://via.placeholder.com/500x750"@,
        }),
{
    match poster_path {
        Some(p) => String::from_str("https://image.tmdb.org/t/p/w500").concat(p.as_str()),
        None => String::from_str("https://via.placeholder.com/500x750"),
    }
}

/// The year of a date written `YYYY-MM-DD`: what comes before the first `-`.
pub open spec fn year_of(date: Seq<char>) -> Seq<char>
    decreases date.len(),
{
    if date.len() == 0 || date[0] == '-' {
        Seq::empty()
    } else {
        seq![date[0]] + year_of(date.drop_first())
    }
}

proof fn lemma_year_of_prefix(date: Seq<char>, k: int)
    requires
        0 <= k <= date.len(),
        forall|j: int| 0 <= j < k ==> date[j] != '-',
        k == date.len() || date[k] == '-',
    ensures
        year_of(date) == date.subrange(0, k),
    decreases k,
{
    if k == 0 {
        assert(date.subrange(0, 0) =~= Seq::<char>::empty());
    } else {
        lemma_year_of_prefix(date.drop_first(), k - 1);
        assert(date.subrange(0, k) =~= seq![date[0]] + date.drop_first().subrange(0, k - 1));
    }
}

/// The year of a release date: the part before the first `-`.
pub fn release_year(date: &str) -> (r: String)
    ensures
        r@ == year_of(date@),
{
    let chars = chars_of(date);
    let mut k: usize = 0;
    while k < chars.len() && chars[k] != '-'
        invariant
            k <= chars.len(),
            chars@ == date@,
            forall|j: int| 0 <= j < k ==> chars[j] != '-',
        decreases chars.len() - k,
    {
        k = k + 1;
    }
    proof {
        lemma_year_of_prefix(date@, k as int);
    }
    String::from_str(date.substring_char(0, k))
}

/// The Rotten Tomatoes score among a title's ratings: the value of the first
/// rating from that source.
pub fn rotten_tomatoes(ratings: &Vec<Rating>) -> (r: Option<String>)
    ensures
        match r {
            Some(v) => exists|i: int|
                0 <= i < ratings.len() && (#[trigger] ratings[i]).source@ == "Rotten Tomatoes"@
                    && v@ == ratings[i].value@ && forall|j: int|
                    0 <= j < i ==> (#[trigger] ratings[j]).source@ != "Rotten Tomatoes"@,
            None => forall|i: int|
                0 <= i < ratings.len() ==> (#[trigger] ratings[i]).source@ != "Rotten Tomatoes"@,
        },
{
    let source = String::from_str("Rotten Tomatoes");
    let mut i: usize = 0;
    while i < ratings.len()
        invariant
            i <= ratings.len(),
            source@ == "Rotten Tomatoes"@,
            forall|j: int| 0 <= j < i ==> (#[trigger] ratings[j]).source@ != "Rotten Tomatoes"@,
        decreases ratings.len() - i,
    {
        if ratings[i].source == source {
            return Some(ratings[i].value.clone());
        }
        i = i + 1;
    }
    None
}

} // verus!
