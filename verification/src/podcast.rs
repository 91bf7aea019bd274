//! A podcast entry and its HTML page, rendered by plain concatenation.

use vstd::prelude::*;
use vstd::string::StringExecFns;

verus! {

pub struct Podcast {
    pub title: String,
    pub description: String,
    pub audio_file: Option<String>,
}

/// The audio reference as a mathematical value.
pub open spec fn audio_model(a: Option<String>) -> Option<Seq<char>> {
    match a {
        Some(s) => Some(s@),
        None => None,
    }
}

/// The page for one podcast: title twice, description, and the audio
/// source, with a fixed note when no audio is available.
pub open spec fn podcast_html_of(
    title: Seq<char>,
    description: Seq<char>,
    audio: Option<Seq<char>>,
) -> Seq<char> {
    "\n            <html>\n                <head>\n                    <title>My Podcast: "@
        + title
        + "</title>\n                </head>\n                <body>\n                    <h1>"@
        + title + "</h1>\n                    <p>"@ + description
        + "</p>\n                    <audio controls src=\""@
        + (match audio {
        Some(a) => a,
        None => "No audio available"@,
    }) + "\"></audio>\n                </body>\n            </html>\n        "@
}

/// One line of the index: a link to the podcast's page under its number.
pub open spec fn index_item_of(i: nat, title: Seq<char>) -> Seq<char> {
    "<li><a href=\"/"@ + crate::envelope::dec_of(i) + "\">"@ + title + "</a></li>"@
}

/// The first `k` index lines, separated by line breaks.
pub open spec fn index_items_upto(titles: Seq<Seq<char>>, k: nat) -> Seq<char>
    decreases k,
{
    if k == 0 {
        Seq::<char>::empty()
    } else if k == 1 {
        index_item_of(0, titles[0])
    } else {
        index_items_upto(titles, (k - 1) as nat) + "\n"@ + index_item_of(
            (k - 1) as nat,
            titles[k - 1],
        )
    }
}

/// The index page listing every podcast.
pub open spec fn index_html_of(titles: Seq<Seq<char>>) -> Seq<char> {
    "\n<html>\n    <head>\n        <title>My Podcasts</title>\n    </head>\n    <body>\n        <h1>My Podcasts</h1>\n        <ul>\n            "@
        + index_items_upto(titles, titles.len())
        + "\n        </ul>\n    </body>\n</html>\n    "@
}

/// The index page for a list of podcasts, each entry linked under its
/// position.
pub fn index_html(podcasts: &Vec<Podcast>) -> (s: String)
    ensures
        s@ == index_html_of(podcasts@.map_values(|p: Podcast| p.title@)),
{
    let ghost titles = podcasts@.map_values(|p: Podcast| p.title@);
    let mut items = String::new();
    let mut k: usize = 0;
    while k < podcasts.len()
        invariant
            k <= podcasts.len(),
            titles == podcasts@.map_values(|p: Podcast| p.title@),
            items@ == index_items_upto(titles, k as nat),
        decreases podcasts.len() - k,
    {
        if k > 0 {
            items.append("\n");
        }
        items.append("<li><a href=\"/");
        items.append(crate::envelope::render_usize(k).as_str());
        items.append("\">");
        items.append(podcasts[k].title.as_str());
        items.append("</a></li>");
        proof {
            assert(titles[k as int] == podcasts@[k as int].title@);
            assert(items@ =~= index_items_upto(titles, (k + 1) as nat));
        }
        k += 1;
    }
    let mut s = String::from_str(
        "\n<html>\n    <head>\n        <title>My Podcasts</title>\n    </head>\n    <body>\n        <h1>My Podcasts</h1>\n        <ul>\n            ",
    );
    s.append(items.as_str());
    s.append("\n        </ul>\n    </body>\n</html>\n    ");
    proof {
        assert(s@ =~= index_html_of(titles));
    }
    s
}

/// The page for one podcast picked by its position: the entry's page, or
/// a fixed note when no podcast stands there.
pub fn podcast_page(podcasts: &Vec<Podcast>, id: usize) -> (s: String)
    ensures
        id < podcasts@.len() ==> s@ == podcast_html_of(
            podcasts@[id as int].title@,
            podcasts@[id as int].description@,
            audio_model(podcasts@[id as int].audio_file),
        ),
        id >= podcasts@.len() ==> s@ == "No podcast found"@,
{
    if id < podcasts.len() {
        podcasts[id].to_html()
    } else {
        String::from_str("No podcast found")
    }
}

impl Podcast {
    /// A blank entry: empty title and description, no audio yet.
    pub fn new() -> (p: Podcast)
        ensures
            p.title@ == Seq::<char>::empty(),
            p.description@ == Seq::<char>::empty(),
            p.audio_file is None,
    {
        Podcast { title: String::new(), description: String::new(), audio_file: None }
    }

    /// The entry's HTML page.
    pub fn to_html(&self) -> (s: String)
        ensures
            s@ == podcast_html_of(self.title@, self.description@, audio_model(self.audio_file)),
    {
        let mut s = String::from_str(
            "\n            <html>\n                <head>\n                    <title>My Podcast: ",
        );
        s.append(self.title.as_str());
        s.append("</title>\n                </head>\n                <body>\n                    <h1>");
        s.append(self.title.as_str());
        s.append("</h1>\n                    <p>");
        s.append(self.description.as_str());
        s.append("</p>\n                    <audio controls src=\"");
        match &self.audio_file {
            Some(file) => s.append(file.as_str()),
            None => s.append("No audio available"),
        }
        s.append("\"></audio>\n                </body>\n            </html>\n        ");
        proof {
            assert(s@ =~= podcast_html_of(
                self.title@,
                self.description@,
                audio_model(self.audio_file),
            ));
        }
        s
    }
}

} // verus!
