//! A feed, and how it is read from an RSS or Atom document.
use crate::fetch::item::{
    atom_link, parse_atom_link, post_run, AtomLink, AtomLinkView, FeedPost, PostView,
};
use crate::fetch::xml::{
    attribute, attribute_value, attributes_of, attributes_view, bytes_eq, closes, closes_top, names,
    ends, event_at, is_end, local_name, local_name_of, push_open, start_name, start_name_of,
    name_of, name_text, non_empty, skip_run, skip_this_element, text_or_cdata, text_run,
    xml_event, ParseError, ParseFault, XmlEvent, XmlEventView, XmlKind,
};
use crate::network_runtime::opt_text;
use crate::text::{chars_of, str_eq, trim_bounds, trimmed};
use vstd::prelude::*;
use vstd::utf8::encode_utf8;

verus! {

/// The picture of a feed.
#[derive(Debug, Clone)]
pub struct ChannelImage {
    pub url: Option<String>,
}

/// A feed: what it says of itself, and its posts in the document's order.
#[derive(Debug, Default, Clone)]
pub struct Feed {
    pub version: Option<String>,
    pub title: String,
    pub description: Option<String>,
    pub link: String,
    pub atom_link: Option<String>,
    pub language: Option<String>,
    pub web_master: Option<String>,
    pub generator: Option<String>,
    pub last_build_date: Option<String>,
    /// Minutes between two refreshes, where the feed asks for an interval.
    pub ttl: Option<u32>,
    pub image: Option<ChannelImage>,
    pub posts: Vec<FeedPost>,
    pub copyright: Option<String>,
}

/// The picture of a feed, for contracts.
pub struct ImageView {
    pub url: Option<Seq<char>>,
}

/// A feed, for contracts.
pub struct FeedDocView {
    pub version: Option<Seq<char>>,
    pub title: Seq<char>,
    pub description: Option<Seq<char>>,
    pub link: Seq<char>,
    pub atom_link: Option<Seq<char>>,
    pub language: Option<Seq<char>>,
    pub web_master: Option<Seq<char>>,
    pub generator: Option<Seq<char>>,
    pub last_build_date: Option<Seq<char>>,
    pub ttl: Option<u32>,
    pub image: Option<ImageView>,
    pub posts: Seq<PostView>,
    pub copyright: Option<Seq<char>>,
}

/// What posts read.
pub open spec fn post_views(v: Seq<FeedPost>) -> Seq<PostView> {
    Seq::new(v.len(), |i: int| v[i]@)
}

impl View for ChannelImage {
    type V = ImageView;

    open spec fn view(&self) -> ImageView {
        ImageView { url: opt_text(self.url) }
    }
}

impl View for Feed {
    type V = FeedDocView;

    open spec fn view(&self) -> FeedDocView {
        FeedDocView {
            version: opt_text(self.version),
            title: self.title@,
            description: opt_text(self.description),
            link: self.link@,
            atom_link: opt_text(self.atom_link),
            language: opt_text(self.language),
            web_master: opt_text(self.web_master),
            generator: opt_text(self.generator),
            last_build_date: opt_text(self.last_build_date),
            ttl: self.ttl,
            image: match self.image {
                Some(i) => Some(i@),
                None => None,
            },
            posts: post_views(self.posts@),
            copyright: opt_text(self.copyright),
        }
    }
}

impl FeedDocView {
    /// A feed of which nothing is known.
    pub open spec fn empty() -> FeedDocView {
        FeedDocView {
            version: None,
            title: Seq::empty(),
            description: None,
            link: Seq::empty(),
            atom_link: None,
            language: None,
            web_master: None,
            generator: None,
            last_build_date: None,
            ttl: None,
            image: None,
            posts: Seq::empty(),
            copyright: None,
        }
    }
}

/// The value of a decimal digit.
pub open spec fn digit_value(c: char) -> Option<nat> {
    if '0' <= c && c <= '9' {
        Some((c as u32 - '0' as u32) as nat)
    } else {
        None
    }
}

/// The number that digits spell; `None` where one of them is no digit.
pub open spec fn digits_value(s: Seq<char>) -> Option<nat>
    decreases s.len(),
{
    if s.len() == 0 {
        Some(0)
    } else {
        match (digits_value(s.drop_last()), digit_value(s.last())) {
            (Some(v), Some(d)) => Some(v * 10 + d),
            _ => None,
        }
    }
}

/// The number that a text spells, white space at its ends apart: digits
/// only, at least one, and no more than fit.
pub open spec fn number_of(t: Seq<char>) -> Option<u32> {
    let s = trimmed(t);
    if s.len() == 0 {
        None
    } else {
        match digits_value(s) {
            Some(v) => if v <= u32::MAX {
                Some(v as u32)
            } else {
                None
            },
            None => None,
        }
    }
}

/// What digits spell is no less than what fewer of them spell.
pub proof fn lemma_digits_grow(s: Seq<char>, k: int)
    requires
        0 <= k <= s.len(),
        digits_value(s) is Some,
    ensures
        digits_value(s.take(k)) is Some,
        digits_value(s.take(k))->0 <= digits_value(s)->0,
    decreases s.len() - k,
{
    if k < s.len() {
        let t = s.drop_last();
        assert(t.take(k) =~= s.take(k));
        lemma_digits_grow(t, k);
    } else {
        assert(s.take(k) =~= s);
    }
}

/// The number that `text` spells.
pub fn parse_number(text: &str) -> (r: Option<u32>)
    ensures
        r == number_of(text@),
{
    let v = chars_of(text);
    let (a, b) = trim_bounds(&v);
    let ghost s = v@.subrange(a as int, b as int);
    if a == b {
        return None;
    }
    let mut acc: u64 = 0;
    let mut i: usize = a;
    proof {
        assert(s.take(0) =~= Seq::<char>::empty());
    }
    while i < b
        invariant
            a <= i <= b <= v.len(),
            s == v@.subrange(a as int, b as int),
            s == trimmed(text@),
            digits_value(s.take(i - a)) == Some(acc as nat),
            acc <= u32::MAX,
        decreases b - i,
    {
        let c = v[i];
        proof {
            let p = s.take(i - a + 1);
            assert(p.drop_last() =~= s.take(i - a));
            assert(p.last() == c);
            if digits_value(s) is Some {
                lemma_digits_grow(s, i - a + 1);
            }
        }
        if !('0' <= c && c <= '9') {
            return None;
        }
        let d = (c as u32 - '0' as u32) as u64;
        acc = acc * 10 + d;
        if acc > u32::MAX as u64 {
            return None;
        }
        i += 1;
    }
    proof {
        assert(s.take(b - a) =~= s);
    }
    Some(acc as u32)
}

/// The address of the picture that the element `elem`, opened just before
/// `pos`, holds, `url` being what is known so far, and the place behind the
/// element's end. An end tag that does not name the element is a fault.
pub open spec fn image_run(
    text: Seq<u8>,
    pos: nat,
    elem: Seq<u8>,
    url: Option<Seq<char>>,
) -> Result<
    (Option<Seq<char>>, nat),
    ParseFault,
>
    decreases text.len() - pos,
{
    match xml_event(text, pos) {
        None => Err(ParseFault::Xml),
        Some(e) => if ends(e, text, pos) {
            Ok((url, pos))
        } else {
            match e.kind {
                XmlKind::End => if e.content == elem {
                    Ok((url, e.next))
                } else {
                    Err(ParseFault::EndMismatch)
                },
                XmlKind::Start => match name_text(e) {
                    Err(f) => Err(f),
                    Ok(name) => if local_name(name) == "url"@ {
                        match text_run(text, e.next, seq![start_name(e)], Seq::empty()) {
                            Err(f) => Err(f),
                            Ok((t, n)) => if pos < n <= text.len() {
                                image_run(text, n, elem, non_empty(t))
                            } else {
                                Ok((non_empty(t), n))
                            },
                        }
                    } else {
                        match skip_run(text, e.next, seq![start_name(e)]) {
                            Err(f) => Err(f),
                            Ok(n) => if pos < n <= text.len() {
                                image_run(text, n, elem, url)
                            } else {
                                Ok((url, n))
                            },
                        }
                    },
                },
                _ => image_run(text, e.next, elem, url),
            }
        },
    }
}

impl ChannelImage {
    /// Reads the picture that the element `elem`, opened just before `pos`,
    /// holds, and returns it with the place behind the element's end.
    pub fn from_xml(text: &[u8], pos: usize, elem: &[u8]) -> (r: Result<
        (ChannelImage, usize),
        ParseError,
    >)
        requires
            pos <= text.len(),
        ensures
            match image_run(text@, pos as nat, elem@, None) {
                Ok((url, n)) => r matches Ok((image, m)) && m == n && pos <= m <= text.len()
                    && image@.url == url,
                Err(f) => r matches Err(x) && x.fault() == f,
            },
    {
        let mut url: Option<String> = None;
        let mut at: usize = pos;
        loop
            invariant
                pos <= at <= text.len(),
                image_run(text@, pos as nat, elem@, None) == image_run(
                    text@,
                    at as nat,
                    elem@,
                    opt_text(url),
                ),
            decreases text.len() - at,
        {
            let e = match event_at(text, at) {
                Ok(e) => e,
                Err(x) => {
                    return Err(x);
                },
            };
            let mut next = e.next;
            if is_end(&e, text, at) {
                return Ok((ChannelImage { url }, at));
            }
            match e.kind {
                XmlKind::End => {
                    if !bytes_eq(&e.content, elem) {
                        return Err(ParseError::EndMismatch);
                    }
                    return Ok((ChannelImage { url }, next));
                },
                XmlKind::Start => {
                    let name = match name_of(&e) {
                        Ok(n) => n,
                        Err(x) => {
                            return Err(x);
                        },
                    };
                    let local = local_name_of(name.as_str());
                    if str_eq(local.as_str(), "url") {
                        let (t, n) = match text_or_cdata(
                            text,
                            next,
                            start_name_of(&e).as_slice(),
                        ) {
                            Ok(x) => x,
                            Err(x) => {
                                return Err(x);
                            },
                        };
                        url = t;
                        next = n;
                    } else {
                        next =
                        match skip_this_element(text, next, start_name_of(&e).as_slice()) {
                            Ok(n) => n,
                            Err(x) => {
                                return Err(x);
                            },
                        };
                    }
                },
                _ => {},
            }
            at = next;
        }
    }
}

/// The value of the attribute `version` of the element `e`, or the fault
/// of its attributes.
pub open spec fn version_of(e: XmlEventView) -> Result<Option<Seq<char>>, ParseFault> {
    match attributes_view(e) {
        Err(f) => Err(f),
        Ok(attrs) => attribute_value(attrs, encode_utf8("version"@)),
    }
}

/// The feed once the element `e` of the name `name`, which ends just
/// before `at`, is taken in, and the place to read on from. The elements
/// `rss`, `channel` and `feed` are read into; each other known element
/// gives one of the feed's fields; each `item` and `entry` is one more
/// post; any other element is passed over. A title without text is a
/// fault, as is whatever is broken in the document.
pub open spec fn feed_field(
    text: Seq<u8>,
    at: nat,
    e: XmlEventView,
    name: Seq<char>,
    feed: FeedDocView,
) -> Result<(FeedDocView, nat), ParseFault> {
    if name == "rss"@ {
        match version_of(e) {
            Err(f) => Err(f),
            Ok(v) => Ok((FeedDocView { version: v, ..feed }, at)),
        }
    } else if name == "channel"@ || name == "feed"@ {
        Ok((feed, at))
    } else if name == "title"@ || name == "description"@ || name == "link"@ || name == "language"@
        || name == "webMaster"@ || name == "generator"@ || name == "lastBuildDate"@ || name
        == "ttl"@ || name == "copyright"@ {
        match text_run(text, at, seq![start_name(e)], Seq::empty()) {
            Err(f) => Err(f),
            Ok((t, n)) => if name == "title"@ {
                if t.len() == 0 {
                    Err(ParseFault::MissingTitle)
                } else {
                    Ok((FeedDocView { title: t, ..feed }, n))
                }
            } else if name == "description"@ {
                Ok((FeedDocView { description: non_empty(t), ..feed }, n))
            } else if name == "link"@ {
                if t.len() > 0 {
                    Ok((FeedDocView { link: t, ..feed }, n))
                } else {
                    match atom_link(e) {
                        Err(f) => Err(f),
                        Ok(AtomLinkView::Source(l)) => Ok(
                            (FeedDocView { atom_link: Some(l), ..feed }, n),
                        ),
                        Ok(AtomLinkView::Alternate(l)) => Ok((FeedDocView { link: l, ..feed }, n)),
                        Ok(AtomLinkView::Neither) => Ok((feed, n)),
                    }
                }
            } else if name == "language"@ {
                Ok((FeedDocView { language: non_empty(t), ..feed }, n))
            } else if name == "webMaster"@ {
                Ok((FeedDocView { web_master: non_empty(t), ..feed }, n))
            } else if name == "generator"@ {
                Ok((FeedDocView { generator: non_empty(t), ..feed }, n))
            } else if name == "lastBuildDate"@ {
                Ok((FeedDocView { last_build_date: non_empty(t), ..feed }, n))
            } else if name == "ttl"@ {
                Ok((FeedDocView { ttl: number_of(t), ..feed }, n))
            } else {
                Ok((FeedDocView { copyright: non_empty(t), ..feed }, n))
            },
        }
    } else if name == "image"@ {
        match image_run(text, at, start_name(e), None) {
            Err(f) => Err(f),
            Ok((url, n)) => Ok((FeedDocView { image: Some(ImageView { url }), ..feed }, n)),
        }
    } else if name == "item"@ || name == "entry"@ {
        match post_run(text, at, start_name(e), PostView::empty()) {
            Err(f) => Err(f),
            Ok((p, n)) => Ok((FeedDocView { posts: feed.posts.push(p), ..feed }, n)),
        }
    } else {
        match skip_run(text, at, seq![start_name(e)]) {
            Err(f) => Err(f),
            Ok(n) => Ok((feed, n)),
        }
    }
}

/// Whether the reader reads into the element `name`.
pub open spec fn descends(name: Seq<char>) -> bool {
    name == "rss"@ || name == "channel"@ || name == "feed"@
}

/// The feed that the document holds from `pos` on, `feed` being what is
/// known so far and `open` the elements that were read into, the innermost
/// last: the reading ends with the document or with the end of the
/// innermost of these elements. An end tag that does not name that element
/// is a fault, as is whatever is broken in the document.
pub open spec fn feed_run(
    text: Seq<u8>,
    pos: nat,
    open: Seq<Seq<u8>>,
    feed: FeedDocView,
) -> Result<
    FeedDocView,
    ParseFault,
>
    decreases text.len() - pos,
{
    match xml_event(text, pos) {
        None => Err(ParseFault::Xml),
        Some(e) => if ends(e, text, pos) {
            Ok(feed)
        } else {
            match e.kind {
                XmlKind::End => if closes(e, open) {
                    Ok(feed)
                } else {
                    Err(ParseFault::EndMismatch)
                },
                XmlKind::Empty => match name_text(e) {
                    Err(f) => Err(f),
                    Ok(name) => if name == "link"@ {
                        match atom_link(e) {
                            Err(f) => Err(f),
                            Ok(AtomLinkView::Alternate(l)) => feed_run(
                                text,
                                e.next,
                                open,
                                FeedDocView { link: l, ..feed },
                            ),
                            Ok(AtomLinkView::Source(l)) => feed_run(
                                text,
                                e.next,
                                open,
                                FeedDocView { atom_link: Some(l), ..feed },
                            ),
                            Ok(AtomLinkView::Neither) => feed_run(text, e.next, open, feed),
                        }
                    } else {
                        feed_run(text, e.next, open, feed)
                    },
                },
                XmlKind::Start => match name_text(e) {
                    Err(f) => Err(f),
                    Ok(name) => match feed_field(text, e.next, e, name, feed) {
                        Err(f) => Err(f),
                        Ok((g, n)) => if pos < n <= text.len() {
                            feed_run(
                                text,
                                n,
                                if descends(name) {
                                    open.push(start_name(e))
                                } else {
                                    open
                                },
                                g,
                            )
                        } else {
                            Ok(g)
                        },
                    },
                },
                _ => feed_run(text, e.next, open, feed),
            }
        },
    }
}

/// The feed that a document holds, or the fault of the document.
pub open spec fn feed_of(text: Seq<u8>) -> Result<FeedDocView, ParseFault> {
    feed_run(text, 0, Seq::empty(), FeedDocView::empty())
}

fn read_version(e: &XmlEvent) -> (r: Result<Option<String>, ParseError>)
    ensures
        match version_of(e@) {
            Ok(v) => r matches Ok(s) && opt_text(s) == v,
            Err(f) => r matches Err(x) && x.fault() == f,
        },
{
    let attrs = match attributes_of(e) {
        Ok(a) => a,
        Err(x) => {
            return Err(x);
        },
    };
    attribute(&attrs, "version")
}

fn read_feed_field(text: &[u8], at: usize, e: &XmlEvent, name: &str, feed: &mut Feed) -> (r:
    Result<usize, ParseError>)
    requires
        at <= text.len(),
    ensures
        match feed_field(text@, at as nat, e@, name@, old(feed)@) {
            Ok((g, n)) => r matches Ok(m) && m == n && at <= m <= text.len() && final(feed)@
                == g,
            Err(f) => r matches Err(x) && x.fault() == f,
        },
{
    if str_eq(name, "rss") {
        feed.version =
        match read_version(e) {
            Ok(v) => v,
            Err(x) => {
                return Err(x);
            },
        };
        return Ok(at);
    }
    if str_eq(name, "channel") || str_eq(name, "feed") {
        return Ok(at);
    }
    let is_title = str_eq(name, "title");
    let is_description = str_eq(name, "description");
    let is_link = str_eq(name, "link");
    let is_language = str_eq(name, "language");
    let is_web_master = str_eq(name, "webMaster");
    let is_generator = str_eq(name, "generator");
    let is_date = str_eq(name, "lastBuildDate");
    let is_ttl = str_eq(name, "ttl");
    let is_copyright = str_eq(name, "copyright");
    if is_title || is_description || is_link || is_language || is_web_master || is_generator
        || is_date || is_ttl || is_copyright {
        let (t, n) = match text_or_cdata(text, at, start_name_of(e).as_slice()) {
            Ok(x) => x,
            Err(x) => {
                return Err(x);
            },
        };
        if is_title {
            match t {
                Some(title) => {
                    feed.title = title;
                },
                None => {
                    return Err(ParseError::MissingTitle);
                },
            }
        } else if is_description {
            feed.description = t;
        } else if is_link {
            match t {
                Some(link) => {
                    feed.link = link;
                },
                None => match parse_atom_link(e) {
                    Ok(AtomLink::Source(l)) => {
                        feed.atom_link = Some(l);
                    },
                    Ok(AtomLink::Alternate(l)) => {
                        feed.link = l;
                    },
                    Ok(AtomLink::Neither) => {},
                    Err(x) => {
                        return Err(x);
                    },
                },
            }
        } else if is_language {
            feed.language = t;
        } else if is_web_master {
            feed.web_master = t;
        } else if is_generator {
            feed.generator = t;
        } else if is_date {
            feed.last_build_date = t;
        } else if is_ttl {
            feed.ttl =
            match &t {
                Some(number) => parse_number(number.as_str()),
                None => {
                    let nothing = String::new();
                    parse_number(nothing.as_str())
                },
            };
        } else {
            feed.copyright = t;
        }
        return Ok(n);
    }
    if str_eq(name, "image") {
        let (image, n) = match ChannelImage::from_xml(text, at, start_name_of(e).as_slice()) {
            Ok(x) => x,
            Err(x) => {
                return Err(x);
            },
        };
        feed.image = Some(image);
        return Ok(n);
    }
    if str_eq(name, "item") || str_eq(name, "entry") {
        let (post, n) = match FeedPost::from_xml(text, at, start_name_of(e).as_slice()) {
            Ok(x) => x,
            Err(x) => {
                return Err(x);
            },
        };
        let ghost before = post_views(feed.posts@);
        let ghost pv = post@;
        feed.posts.push(post);
        proof {
            assert(post_views(feed.posts@) =~= before.push(pv));
        }
        return Ok(n);
    }
    skip_this_element(text, at, start_name_of(e).as_slice())
}

impl Feed {
    /// A feed of which nothing is known.
    pub fn new() -> (r: Self)
        ensures
            r@ == FeedDocView::empty(),
    {
        let r = Feed {
            version: None,
            title: String::new(),
            description: None,
            link: String::new(),
            atom_link: None,
            language: None,
            web_master: None,
            generator: None,
            last_build_date: None,
            ttl: None,
            image: None,
            posts: Vec::new(),
            copyright: None,
        };
        proof {
            assert(post_views(r.posts@) =~= Seq::<PostView>::empty());
        }
        r
    }

    /// Reads the feed that the document `text` holds. Items of the RSS kind
    /// and entries of the Atom kind alike become the feed's posts, in the
    /// document's order.
    pub fn from_xml(text: &[u8]) -> (r: Result<Feed, ParseError>)
        ensures
            match feed_of(text@) {
                Ok(f) => r matches Ok(feed) && feed@ == f,
                Err(f) => r matches Err(x) && x.fault() == f,
            },
    {
        let mut feed = Feed::new();
        let mut at: usize = 0;
        let mut open: Vec<Vec<u8>> = Vec::new();
        proof {
            assert(names(open@) =~= Seq::<Seq<u8>>::empty());
        }
        loop
            invariant
                at <= text.len(),
                feed_of(text@) == feed_run(text@, at as nat, names(open@), feed@),
            decreases text.len() - at,
        {
            let e = match event_at(text, at) {
                Ok(e) => e,
                Err(x) => {
                    return Err(x);
                },
            };
            let mut next = e.next;
            if is_end(&e, text, at) {
                return Ok(feed);
            }
            match e.kind {
                XmlKind::End => {
                    if !closes_top(&e, &open) {
                        return Err(ParseError::EndMismatch);
                    }
                    return Ok(feed);
                },
                XmlKind::Empty => {
                    let name = match name_of(&e) {
                        Ok(n) => n,
                        Err(x) => {
                            return Err(x);
                        },
                    };
                    if str_eq(name.as_str(), "link") {
                        match parse_atom_link(&e) {
                            Ok(AtomLink::Alternate(l)) => {
                                feed.link = l;
                            },
                            Ok(AtomLink::Source(l)) => {
                                feed.atom_link = Some(l);
                            },
                            Ok(AtomLink::Neither) => {},
                            Err(x) => {
                                return Err(x);
                            },
                        }
                    }
                },
                XmlKind::Start => {
                    let name = match name_of(&e) {
                        Ok(n) => n,
                        Err(x) => {
                            return Err(x);
                        },
                    };
                    next =
                    match read_feed_field(text, next, &e, name.as_str(), &mut feed) {
                        Ok(n) => n,
                        Err(x) => {
                            return Err(x);
                        },
                    };
                    if str_eq(name.as_str(), "rss") || str_eq(name.as_str(), "channel") || str_eq(
                        name.as_str(),
                        "feed",
                    ) {
                        push_open(&mut open, &e);
                    }
                },
                _ => {},
            }
            at = next;
        }
    }

    /// Reads the feed that the document `text` holds.
    pub fn from_xml_with_str(text: &str) -> (r: Result<Feed, ParseError>)
        ensures
            match feed_of(encode_utf8(text@)) {
                Ok(f) => r matches Ok(feed) && feed@ == f,
                Err(f) => r matches Err(x) && x.fault() == f,
            },
    {
        Feed::from_xml(text.as_bytes())
    }
}

} // verus!
