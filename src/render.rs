//! Rendering of an episode list as plain text, Markdown or HTML.

use vstd::prelude::*;
use crate::episode::{Episode, EpisodeView, views};
use crate::trusted::{ymd_of, opt_text, format_ymd};

verus! {

/// The layouts an episode list can be written in.
#[derive(Clone, Copy, Debug, PartialEq, Eq, Structural)]
pub enum OutputFormat {
    Plain,
    Markdown,
    Html,
}

/// The layout that a format name asks for: "md" and "html" name theirs,
/// every other name plain text.
pub open spec fn format_named(name: Seq<char>) -> OutputFormat {
    if name == "md"@ {
        OutputFormat::Markdown
    } else if name == "html"@ {
        OutputFormat::Html
    } else {
        OutputFormat::Plain
    }
}

/// The label written for an absent or unwritable date.
pub const UNKNOWN_DATE: &'static str = "Unknown date";

/// The start of an HTML page, up to its title.
pub const HTML_OPEN: &'static str = "<!DOCTYPE html>\n<html>\n<head>\n    <meta charset=\"UTF-8\">\n    <title>";

/// The rest of an HTML page's head, up to its heading.
pub const HTML_STYLE: &'static str = "</title>\n    <style>\n        body { font-family: Arial, sans-serif; margin: 20px; }\n        h1 { color: #333; }\n        .episode { margin-bottom: 30px; border-bottom: 1px solid #eee; padding-bottom: 20px; }\n        .feed-name { font-size: 1.5em; color: #2c3e50; margin-bottom: 5px; }\n        .episode-title { font-weight: bold; font-size: 1.2em; }\n        .date { color: #7f8c8d; margin-bottom: 10px; }\n        .media-link { margin-top: 10px; }\n        .media-link a { color: #3498db; text-decoration: none; }\n        .media-link a:hover { text-decoration: underline; }\n    </style>\n</head>\n<body>\n    <h1>";

/// The end of an HTML page.
pub const HTML_CLOSE: &'static str = "</body>\n</html>\n";

/// How a date is written: `YYYY-MM-DD`, or "Unknown date".
pub open spec fn date_label(d: Option<i64>) -> Seq<char> {
    match d {
        Some(t) => match ymd_of(t) {
            Some(s) => s,
            None => UNKNOWN_DATE@,
        },
        None => UNKNOWN_DATE@,
    }
}

/// The HTML escape of one character.
pub open spec fn escape_char(c: char) -> Seq<char> {
    if c == '&' {
        "&amp;"@
    } else if c == '<' {
        "&lt;"@
    } else if c == '>' {
        "&gt;"@
    } else if c == '"' {
        "&quot;"@
    } else if c == '\'' {
        "&#39;"@
    } else {
        seq![c]
    }
}

/// A text with each of `& < > " '` replaced by its HTML entity.
pub open spec fn escaped(s: Seq<char>) -> Seq<char>
    decreases s.len(),
{
    if s.len() == 0 {
        Seq::empty()
    } else {
        escaped(s.drop_last()) + escape_char(s.last())
    }
}

/// The text written for one episode.
pub open spec fn entry_text(e: EpisodeView, f: OutputFormat) -> Seq<char> {
    match f {
        OutputFormat::Plain => e.source_name + ": "@ + e.title + " ["@ + date_label(e.published_at)
            + "] - "@ + e.media_address + "\n"@,
        OutputFormat::Markdown => "## "@ + e.source_name + "\n\n**"@ + e.title + "** ["@
            + date_label(e.published_at) + "]\n\n[Listen]("@ + e.media_address + ")  \n\n"@,
        OutputFormat::Html => "    <div class=\"episode\">\n        <div class=\"feed-name\">"@
            + escaped(e.source_name) + "</div>\n        <div class=\"episode-title\">"@
            + escaped(e.title) + "</div>\n        <div class=\"date\">"@ + date_label(e.published_at)
            + "</div>\n        <div class=\"media-link\"><a href=\""@ + e.media_address
            + "\">Listen</a></div>\n    </div>\n"@,
    }
}

/// The texts of all episodes, in order.
pub open spec fn entries_text(eps: Seq<EpisodeView>, f: OutputFormat) -> Seq<char>
    decreases eps.len(),
{
    if eps.len() == 0 {
        Seq::empty()
    } else {
        entries_text(eps.drop_last(), f) + entry_text(eps.last(), f)
    }
}

/// What precedes the episodes.
pub open spec fn header_text(f: OutputFormat, heading: Seq<char>) -> Seq<char> {
    match f {
        OutputFormat::Plain => Seq::empty(),
        OutputFormat::Markdown => "# "@ + heading + "\n\n"@,
        OutputFormat::Html => HTML_OPEN@ + heading + HTML_STYLE@ + heading + "</h1>\n"@,
    }
}

/// What follows the episodes.
pub open spec fn footer_text(f: OutputFormat) -> Seq<char> {
    match f {
        OutputFormat::Html => HTML_CLOSE@,
        _ => Seq::empty(),
    }
}

/// A whole rendered document.
pub open spec fn rendered(eps: Seq<EpisodeView>, f: OutputFormat, heading: Seq<char>) -> Seq<char> {
    header_text(f, heading) + entries_text(eps, f) + footer_text(f)
}

impl OutputFormat {
    /// The layout a format name asks for.
    pub fn from_name(name: &str) -> (r: OutputFormat)
        ensures
            r == format_named(name@),
    {
        let n = String::from_str(name);
        if n == String::from_str("md") {
            OutputFormat::Markdown
        } else if n == String::from_str("html") {
            OutputFormat::Html
        } else {
            OutputFormat::Plain
        }
    }

    /// The file extension for this layout.
    pub fn extension(&self) -> (r: &'static str)
        ensures
            r@ == match *self {
                OutputFormat::Plain => "txt"@,
                OutputFormat::Markdown => "md"@,
                OutputFormat::Html => "html"@,
            },
    {
        match self {
            OutputFormat::Plain => "txt",
            OutputFormat::Markdown => "md",
            OutputFormat::Html => "html",
        }
    }
}

/// A text with each of `& < > " '` replaced by its HTML entity.
pub fn html_escape(s: &str) -> (r: String)
    ensures
        r@ == escaped(s@),
{
    let n = s.unicode_len();
    let mut r = String::new();
    let mut i: usize = 0;
    while i < n
        invariant
            n == s@.len(),
            i <= n,
            r@ == escaped(s@.subrange(0, i as int)),
        decreases n - i,
    {
        let c = s.get_char(i);
        assert(s@.subrange(0, i as int + 1).drop_last() == s@.subrange(0, i as int));
        proof {
            reveal_strlit("&amp;");
            reveal_strlit("&lt;");
            reveal_strlit("&gt;");
            reveal_strlit("&quot;");
            reveal_strlit("&#39;");
        }
        if c == '&' {
            r.append("&amp;");
        } else if c == '<' {
            r.append("&lt;");
        } else if c == '>' {
            r.append("&gt;");
        } else if c == '"' {
            r.append("&quot;");
        } else if c == '\'' {
            r.append("&#39;");
        } else {
            let one = s.substring_char(i, i + 1);
            assert(one@ =~= seq![c]);
            r.append(one);
        }
        i = i + 1;
    }
    assert(s@.subrange(0, n as int) == s@);
    r
}

/// How a date is written: `YYYY-MM-DD`, or "Unknown date".
pub fn date_text(d: Option<i64>) -> (r: String)
    ensures
        r@ == date_label(d),
{
    match d {
        Some(t) => match format_ymd(t) {
            Some(s) => s,
            None => String::from_str(UNKNOWN_DATE),
        },
        None => String::from_str(UNKNOWN_DATE),
    }
}

/// The text written for one episode.
pub fn entry(e: &Episode, f: OutputFormat) -> (r: String)
    ensures
        r@ == entry_text(e@, f),
{
    let date = date_text(e.published_at);
    let mut r = String::new();
    match f {
        OutputFormat::Plain => {
            r.append(e.source_name.as_str());
            r.append(": ");
            r.append(e.title.as_str());
            r.append(" [");
            r.append(date.as_str());
            r.append("] - ");
            r.append(e.media_address.as_str());
            r.append("\n");
        },
        OutputFormat::Markdown => {
            r.append("## ");
            r.append(e.source_name.as_str());
            r.append("\n\n**");
            r.append(e.title.as_str());
            r.append("** [");
            r.append(date.as_str());
            r.append("]\n\n[Listen](");
            r.append(e.media_address.as_str());
            r.append(")  \n\n");
        },
        OutputFormat::Html => {
            let name = html_escape(e.source_name.as_str());
            let title = html_escape(e.title.as_str());
            r.append("    <div class=\"episode\">\n        <div class=\"feed-name\">");
            r.append(name.as_str());
            r.append("</div>\n        <div class=\"episode-title\">");
            r.append(title.as_str());
            r.append("</div>\n        <div class=\"date\">");
            r.append(date.as_str());
            r.append("</div>\n        <div class=\"media-link\"><a href=\"");
            r.append(e.media_address.as_str());
            r.append("\">Listen</a></div>\n    </div>\n");
        },
    }
    assert(r@ =~= entry_text(e@, f));
    r
}

/// An episode list written in layout `f` under `heading`.
pub fn render(eps: &Vec<Episode>, f: OutputFormat, heading: &str) -> (r: String)
    ensures
        r@ == rendered(views(eps@), f, heading@),
{
    let mut r = String::new();
    match f {
        OutputFormat::Plain => {},
        OutputFormat::Markdown => {
            r.append("# ");
            r.append(heading);
            r.append("\n\n");
        },
        OutputFormat::Html => {
            r.append(HTML_OPEN);
            r.append(heading);
            r.append(HTML_STYLE);
            r.append(heading);
            r.append("</h1>\n");
        },
    }
    assert(r@ =~= header_text(f, heading@));
    let ghost head = r@;
    let mut i: usize = 0;
    while i < eps.len()
        invariant
            i <= eps@.len(),
            head == header_text(f, heading@),
            r@ == head + entries_text(views(eps@.subrange(0, i as int)), f),
        decreases eps@.len() - i,
    {
        assert(views(eps@.subrange(0, i as int + 1)).drop_last() =~= views(eps@.subrange(0, i as int)));
        assert(views(eps@.subrange(0, i as int + 1)).last() == eps@[i as int]@);
        let t = entry(&eps[i], f);
        r.append(t.as_str());
        assert(r@ =~= head + entries_text(views(eps@.subrange(0, i as int + 1)), f));
        i = i + 1;
    }
    assert(eps@.subrange(0, eps@.len() as int) == eps@);
    if f == OutputFormat::Html {
        r.append(HTML_CLOSE);
    }
    assert(r@ =~= rendered(views(eps@), f, heading@));
    r
}

} // verus!
