use vstd::prelude::*;
use vstd::string::StringExecFns;

verus! {

/// Ratings of one title, as the ratings provider reports them.
#[derive(Clone, Debug)]
pub struct OMDBResponse {
    pub imdb_rating: Option<String>,
    pub metascore: Option<String>,
    pub ratings: Option<Vec<Rating>>,
}

/// One rating of a title by one source.
#[derive(Clone, Debug)]
pub struct Rating {
    pub source: String,
    pub value: String,
}

pub open spec fn opt_view(o: Option<String>) -> Option<Seq<char>> {
    match o {
        Some(s) => Some(s@),
        None => None,
    }
}

/// A rating as shown: absent when the provider reports `N/A`.
pub open spec fn cleaned_rating(o: Option<Seq<char>>) -> Option<Seq<char>> {
    match o {
        Some(s) => if s == "N/A"@ {
            None
        } else {
            Some(s)
        },
        None => None,
    }
}

impl OMDBResponse {
    /// The rating, or nothing when the provider reports `N/A`.
    pub fn clean_rating(rating: &Option<String>) -> (r: Option<String>)
        ensures
            opt_view(r) == cleaned_rating(opt_view(*rating)),
    {
        match rating {
            Some(s) => if *s == String::from_str("N/A") {
                None
            } else {
                Some(s.clone())
            },
            None => None,
        }
    }

    pub fn get_imdb_rating(&self) -> (r: Option<String>)
        ensures
            opt_view(r) == cleaned_rating(opt_view(self.imdb_rating)),
    {
        Self::clean_rating(&self.imdb_rating)
    }

    pub fn get_metascore(&self) -> (r: Option<String>)
        ensures
            opt_view(r) == cleaned_rating(opt_view(self.metascore)),
    {
        Self::clean_rating(&self.metascore)
    }

    /// The response with `N/A` ratings removed; the list of ratings is kept.
    pub fn cleaned(self) -> (r: OMDBResponse)
        ensures
            opt_view(r.imdb_rating) == cleaned_rating(opt_view(self.imdb_rating)),
            opt_view(r.metascore) == cleaned_rating(opt_view(self.metascore)),
            r.ratings == self.ratings,
    {
        let imdb_rating = self.get_imdb_rating();
        let metascore = self.get_metascore();
        OMDBResponse { imdb_rating, metascore, ratings: self.ratings }
    }
}

} // verus!
