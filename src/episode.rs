use vstd::prelude::*;

verus! {

/// One media item discovered in a feed.
#[derive(Clone, Debug)]
pub struct Episode {
    /// Display name of the owning feed.
    pub source_name: String,
    /// Human-readable title ("Unknown" when the feed gives none).
    pub title: String,
    /// Publication time in seconds since the Unix epoch, UTC.
    pub published_at: Option<i64>,
    /// Absolute URL of the media resource.
    pub media_address: String,
}

/// The mathematical content of an episode.
pub ghost struct EpisodeView {
    pub source_name: Seq<char>,
    pub title: Seq<char>,
    pub published_at: Option<i64>,
    pub media_address: Seq<char>,
}

impl View for Episode {
    type V = EpisodeView;

    open spec fn view(&self) -> EpisodeView {
        EpisodeView {
            source_name: self.source_name@,
            title: self.title@,
            published_at: self.published_at,
            media_address: self.media_address@,
        }
    }
}

/// The contents of a sequence of episodes.
pub open spec fn views(eps: Seq<Episode>) -> Seq<EpisodeView> {
    eps.map_values(|e: Episode| e@)
}

/// The contents of an optional episode.
pub open spec fn opt_view(e: Option<Episode>) -> Option<EpisodeView> {
    match e {
        Some(x) => Some(x@),
        None => None,
    }
}

impl EpisodeView {
    /// Well formed: it names its source and its media.
    pub open spec fn wf(&self) -> bool {
        &&& self.source_name.len() > 0
        &&& self.media_address.len() > 0
    }
}

impl Episode {
    /// An episode is well formed when it names its source and its media.
    pub open spec fn wf(&self) -> bool {
        self@.wf()
    }

    /// Builds an episode; refuses an empty source name or media address.
    pub fn new(source_name: String, title: String, published_at: Option<i64>, media_address: String) -> (r: Option<Episode>)
        ensures
            r is Some <==> (source_name@.len() > 0 && media_address@.len() > 0),
            r matches Some(e) ==> e.wf() && e.source_name == source_name && e.title == title
                && e.published_at == published_at && e.media_address == media_address,
    {
        if source_name.as_str().unicode_len() == 0 || media_address.as_str().unicode_len() == 0 {
            None
        } else {
            Some(Episode { source_name, title, published_at, media_address })
        }
    }

    /// A field-by-field copy, equal to the original.
    pub fn duplicate(&self) -> (r: Episode)
        ensures
            r == *self,
    {
        Episode {
            source_name: self.source_name.clone(),
            title: self.title.clone(),
            published_at: self.published_at,
            media_address: self.media_address.clone(),
        }
    }
}

} // verus!
