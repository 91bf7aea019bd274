//! Reading a podcast feed: the document's parse events are folded into a
//! list of podcasts. A `title` or `description` element opens a field,
//! character data in that field fills it, an `enclosure` element's `url`
//! attribute names the audio file, and the end of an `item` closes one
//! podcast entry.

use vstd::prelude::*;
use vstd::string::StringExecFns;
use crate::podcast::{Podcast, audio_model};

verus! {

/// One parse event, reduced to what the feed logic reads. Event kinds the
/// fold ignores appear as `Other`.
pub enum RssEvent {
    Start(String, Vec<(String, String)>),
    CData(String),
    End(String),
    Other,
}

/// The mathematical value of a parse event.
pub enum RssEventModel {
    Start(Seq<char>, Seq<(Seq<char>, Seq<char>)>),
    CData(Seq<char>),
    End(Seq<char>),
    Other,
}

impl View for RssEvent {
    type V = RssEventModel;

    open spec fn view(&self) -> RssEventModel {
        match self {
            RssEvent::Start(name, attrs) => RssEventModel::Start(
                name@,
                attrs@.map_values(|a: (String, String)| (a.0@, a.1@)),
            ),
            RssEvent::CData(c) => RssEventModel::CData(c@),
            RssEvent::End(name) => RssEventModel::End(name@),
            RssEvent::Other => RssEventModel::Other,
        }
    }
}

/// The parse events of a feed document, in document order.
pub uninterp spec fn rss_events_of(s: Seq<char>) -> Seq<RssEventModel>;

/// Relies on str's `PartialEq`: two string slices are equal exactly when
/// their character sequences are.
pub assume_specification[ <str as PartialEq>::eq ](a: &str, b: &str) -> (r: bool)
    ensures
        r == (a@ == b@),
;

/// Relies on xml's `EventReader`: it yields the document's parse events in
/// order, depending on the document text alone. Start, CDATA and end
/// events carry their element name, attributes and content; every other
/// kind, and any event the reader reports as an error, maps to `Other`.
#[verifier::external_body]
fn parse_events(data: &str) -> (evs: Vec<RssEvent>)
    ensures
        evs@.map_values(|e: RssEvent| e@) == rss_events_of(data@),
{
    let mut evs = Vec::new();
    for ev in xml::EventReader::new(data.as_bytes()) {
        evs.push(match ev {
            Ok(xml::reader::XmlEvent::StartElement { name, attributes, .. }) => RssEvent::Start(
                name.local_name,
                attributes.into_iter().map(|a| (a.name.local_name, a.value)).collect(),
            ),
            Ok(xml::reader::XmlEvent::CData(c)) => RssEvent::CData(c),
            Ok(xml::reader::XmlEvent::EndElement { name }) => RssEvent::End(name.local_name),
            _ => RssEvent::Other,
        });
    }
    evs
}

/// Which field, if any, the next character data fills.
#[derive(PartialEq, Eq, Structural, Clone, Copy)]
pub enum ParseState {
    Start,
    InTitle,
    InDescription,
}

/// One podcast as a mathematical value: title, description, audio.
pub type PodcastModel = (Seq<char>, Seq<char>, Option<Seq<char>>);

pub open spec fn podcast_model(p: Podcast) -> PodcastModel {
    (p.title@, p.description@, audio_model(p.audio_file))
}

/// The fold's whole state: finished entries, the entry being built, and
/// the field state.
pub struct FeedAcc {
    pub results: Seq<PodcastModel>,
    pub current: PodcastModel,
    pub state: ParseState,
}

pub open spec fn empty_podcast_model() -> PodcastModel {
    (Seq::<char>::empty(), Seq::<char>::empty(), None)
}

pub open spec fn feed_init() -> FeedAcc {
    FeedAcc { results: Seq::empty(), current: empty_podcast_model(), state: ParseState::Start }
}

/// The first `url` attribute's value, if any.
pub open spec fn first_url(attrs: Seq<(Seq<char>, Seq<char>)>) -> Option<Seq<char>>
    decreases attrs.len(),
{
    if attrs.len() == 0 {
        None
    } else if attrs[0].0 == "url"@ {
        Some(attrs[0].1)
    } else {
        first_url(attrs.subrange(1, attrs.len() as int))
    }
}

/// What one event does to the fold state.
pub open spec fn feed_step(acc: FeedAcc, e: RssEventModel) -> FeedAcc {
    match e {
        RssEventModel::Start(name, attrs) => if name == "title"@ {
            FeedAcc { state: ParseState::InTitle, ..acc }
        } else if name == "description"@ {
            FeedAcc { state: ParseState::InDescription, ..acc }
        } else if name == "enclosure"@ {
            FeedAcc { current: (acc.current.0, acc.current.1, first_url(attrs)), ..acc }
        } else {
            acc
        },
        RssEventModel::CData(c) => match acc.state {
            ParseState::InTitle => FeedAcc {
                current: (c, acc.current.1, acc.current.2),
                state: ParseState::Start,
                ..acc
            },
            ParseState::InDescription => FeedAcc {
                current: (acc.current.0, c, acc.current.2),
                state: ParseState::Start,
                ..acc
            },
            ParseState::Start => acc,
        },
        RssEventModel::End(name) => if name == "item"@ {
            FeedAcc {
                results: acc.results.push(acc.current),
                current: empty_podcast_model(),
                state: ParseState::Start,
            }
        } else {
            acc
        },
        RssEventModel::Other => acc,
    }
}

/// The fold of a whole event sequence, first event first.
pub open spec fn feed_fold(evs: Seq<RssEventModel>) -> FeedAcc
    decreases evs.len(),
{
    if evs.len() == 0 {
        feed_init()
    } else {
        feed_step(feed_fold(evs.drop_last()), evs.last())
    }
}

/// The podcasts a feed document describes.
pub open spec fn podcasts_of(doc: Seq<char>) -> Seq<PodcastModel> {
    feed_fold(rss_events_of(doc)).results
}

fn find_url(attrs: &Vec<(String, String)>) -> (r: Option<String>)
    ensures
        audio_model(r) == first_url(attrs@.map_values(|a: (String, String)| (a.0@, a.1@))),
{
    let ghost m = attrs@.map_values(|a: (String, String)| (a.0@, a.1@));
    proof {
        assert(m.subrange(0, m.len() as int) =~= m);
    }
    let mut i: usize = 0;
    while i < attrs.len()
        invariant
            i <= attrs.len(),
            m == attrs@.map_values(|a: (String, String)| (a.0@, a.1@)),
            first_url(m.subrange(i as int, m.len() as int)) == first_url(m),
        decreases attrs.len() - i,
    {
        proof {
            reveal_strlit("url");
        }
        if attrs[i].0.as_str().eq("url") {
            proof {
                assert(m.subrange(i as int, m.len() as int)[0] == (attrs@[i as int].0@, attrs@[i as int].1@));
            }
            return Some(attrs[i].1.clone());
        }
        proof {
            let tail = m.subrange(i as int, m.len() as int);
            assert(tail[0] == (attrs@[i as int].0@, attrs@[i as int].1@));
            assert(tail[0].0 != "url"@);
            assert(tail.subrange(1, tail.len() as int)
                =~= m.subrange(i + 1, m.len() as int));
        }
        i += 1;
    }
    proof {
        assert(m.subrange(m.len() as int, m.len() as int).len() == 0);
    }
    None
}

/// The executable fold: exactly `feed_fold` over the events.
pub fn collect_podcasts(events: &Vec<RssEvent>) -> (r: Vec<Podcast>)
    ensures
        r@.map_values(|p: Podcast| podcast_model(p))
            == feed_fold(events@.map_values(|e: RssEvent| e@)).results,
{
    let ghost evs = events@.map_values(|e: RssEvent| e@);
    let mut results: Vec<Podcast> = Vec::new();
    let mut current = Podcast::new();
    let mut state = ParseState::Start;
    let mut i: usize = 0;
    while i < events.len()
        invariant
            i <= events.len(),
            evs == events@.map_values(|e: RssEvent| e@),
            ({
                let acc = feed_fold(evs.subrange(0, i as int));
                &&& results@.map_values(|p: Podcast| podcast_model(p)) == acc.results
                &&& podcast_model(current) == acc.current
                &&& state == acc.state
            }),
        decreases events.len() - i,
    {
        let ghost prefix = evs.subrange(0, i as int);
        let ghost acc = feed_fold(prefix);
        proof {
            let longer = evs.subrange(0, i + 1 as int);
            assert(longer.drop_last() =~= prefix);
            assert(longer.last() == evs[i as int]);
            assert(feed_fold(longer) == feed_step(acc, evs[i as int]));
        }
        match &events[i] {
            RssEvent::Start(name, attrs) => {
                proof {
                    reveal_strlit("title");
                    reveal_strlit("description");
                    reveal_strlit("enclosure");
                }
                if name.as_str().eq("title") {
                    state = ParseState::InTitle;
                } else if name.as_str().eq("description") {
                    state = ParseState::InDescription;
                } else if name.as_str().eq("enclosure") {
                    current.audio_file = find_url(attrs);
                }
            }
            RssEvent::CData(c) => {
                match state {
                    ParseState::InTitle => {
                        current.title = c.clone();
                        state = ParseState::Start;
                    }
                    ParseState::InDescription => {
                        current.description = c.clone();
                        state = ParseState::Start;
                    }
                    ParseState::Start => {}
                }
            }
            RssEvent::End(name) => {
                proof {
                    reveal_strlit("item");
                }
                if name.as_str().eq("item") {
                    results.push(current);
                    current = Podcast::new();
                    state = ParseState::Start;
                }
            }
            RssEvent::Other => {}
        }
        proof {
            assert(results@.map_values(|p: Podcast| podcast_model(p))
                =~= feed_fold(evs.subrange(0, i + 1 as int)).results);
        }
        i += 1;
    }
    proof {
        assert(evs.subrange(0, evs.len() as int) =~= evs);
    }
    results
}

/// The podcasts of a feed document: the trusted reader's events, folded by
/// the verified collector.
pub fn podcasts_from_feed(data: &str) -> (r: Vec<Podcast>)
    ensures
        r@.map_values(|p: Podcast| podcast_model(p)) == podcasts_of(data@),
{
    let events = parse_events(data);
    collect_podcasts(&events)
}

} // verus!
