//! One post of a feed, and how it is read from the feed's document.
use crate::fetch::xml::{
    attribute, attribute_value, attributes_of, attributes_view, bytes_eq, ends, event_at,
    local_name, start_name, start_name_of,
    local_name_of, name_of, is_end, name_text, non_empty, skip_run, skip_this_element, text_or_cdata,
    text_run, xml_event, ParseError, ParseFault, XmlEvent, XmlEventView, XmlKind,
};
use crate::network_runtime::opt_text;
use crate::text::str_eq;
use vstd::prelude::*;
use vstd::utf8::encode_utf8;

verus! {

/// A post, as the feed's document gives it.
#[derive(Debug, Clone, Default)]
pub struct FeedPost {
    pub title: Option<String>,
    pub description: Option<String>,
    pub pub_date: Option<String>,
    pub guid: Option<String>,
    pub link: Option<String>,
    pub author: Option<String>,
    pub category: Vec<String>,
}

/// A post, for contracts.
pub struct PostView {
    pub title: Option<Seq<char>>,
    pub description: Option<Seq<char>>,
    pub pub_date: Option<Seq<char>>,
    pub guid: Option<Seq<char>>,
    pub link: Option<Seq<char>>,
    pub author: Option<Seq<char>>,
    pub category: Seq<Seq<char>>,
}

impl View for FeedPost {
    type V = PostView;

    open spec fn view(&self) -> PostView {
        PostView {
            title: opt_text(self.title),
            description: opt_text(self.description),
            pub_date: opt_text(self.pub_date),
            guid: opt_text(self.guid),
            link: opt_text(self.link),
            author: opt_text(self.author),
            category: self.category.deep_view(),
        }
    }
}

impl FeedPost {
    /// The text of the post's link; empty where it has none.
    pub open spec fn link_text(&self) -> Seq<char> {
        match self.link {
            Some(l) => l@,
            None => Seq::empty(),
        }
    }

    /// The text of the post's title; empty where it has none.
    pub open spec fn title_text(&self) -> Seq<char> {
        match self.title {
            Some(t) => t@,
            None => Seq::empty(),
        }
    }

    /// A post of which nothing is known.
    pub fn new() -> (r: Self)
        ensures
            r@ == PostView::empty(),
    {
        let r = FeedPost {
            title: None,
            description: None,
            pub_date: None,
            guid: None,
            link: None,
            author: None,
            category: Vec::new(),
        };
        proof {
            assert(r.category.deep_view() =~= Seq::<Seq<char>>::empty());
        }
        r
    }
}

impl PostView {
    /// A post of which nothing is known.
    pub open spec fn empty() -> PostView {
        PostView {
            title: None,
            description: None,
            pub_date: None,
            guid: None,
            link: None,
            author: None,
            category: Seq::empty(),
        }
    }
}

/// What a `link` element of the Atom kind points to.
#[derive(Debug)]
pub enum AtomLink {
    /// The page that the feed or the post stands for.
    Alternate(String),
    /// The feed's document itself.
    Source(String),
    /// Nothing the reader uses.
    Neither,
}

/// What a `link` element points to, for contracts.
pub enum AtomLinkView {
    Alternate(Seq<char>),
    Source(Seq<char>),
    Neither,
}

impl View for AtomLink {
    type V = AtomLinkView;

    open spec fn view(&self) -> AtomLinkView {
        match self {
            AtomLink::Alternate(l) => AtomLinkView::Alternate(l@),
            AtomLink::Source(l) => AtomLinkView::Source(l@),
            AtomLink::Neither => AtomLinkView::Neither,
        }
    }
}

/// What the attributes of a `link` element say: where there is an `href`,
/// it is the page unless `rel` says otherwise, the document where `rel` is
/// `self`, and of no use for any other `rel`; or the fault of the
/// attributes.
pub open spec fn atom_link(e: XmlEventView) -> Result<AtomLinkView, ParseFault> {
    match attributes_view(e) {
        Err(f) => Err(f),
        Ok(attrs) => match attribute_value(attrs, encode_utf8("href"@)) {
            Err(f) => Err(f),
            Ok(None) => Ok(AtomLinkView::Neither),
            Ok(Some(href)) => match attribute_value(attrs, encode_utf8("rel"@)) {
                Err(f) => Err(f),
                Ok(None) => Ok(AtomLinkView::Alternate(href)),
                Ok(Some(rel)) => if rel == "alternate"@ {
                    Ok(AtomLinkView::Alternate(href))
                } else if rel == "self"@ {
                    Ok(AtomLinkView::Source(href))
                } else {
                    Ok(AtomLinkView::Neither)
                },
            },
        },
    }
}

/// What the attributes of the `link` element `e` say.
pub fn parse_atom_link(e: &XmlEvent) -> (r: Result<AtomLink, ParseError>)
    ensures
        match atom_link(e@) {
            Ok(l) => r matches Ok(x) && x@ == l,
            Err(f) => r matches Err(x) && x.fault() == f,
        },
{
    let attrs = match attributes_of(e) {
        Ok(a) => a,
        Err(x) => {
            return Err(x);
        },
    };
    let href = match attribute(&attrs, "href") {
        Ok(Some(h)) => h,
        Ok(None) => {
            return Ok(AtomLink::Neither);
        },
        Err(x) => {
            return Err(x);
        },
    };
    match attribute(&attrs, "rel") {
        Ok(None) => Ok(AtomLink::Alternate(href)),
        Ok(Some(rel)) => {
            if str_eq(rel.as_str(), "alternate") {
                Ok(AtomLink::Alternate(href))
            } else if str_eq(rel.as_str(), "self") {
                Ok(AtomLink::Source(href))
            } else {
                Ok(AtomLink::Neither)
            }
        },
        Err(x) => Err(x),
    }
}

/// The post once the element `name`, whose name is the bytes `elem` and
/// which was opened just before `at`, is read, and
/// the place behind that element: the known elements give the post's
/// fields, each `category` one more category, any other element nothing.
pub open spec fn post_field(
    text: Seq<u8>,
    at: nat,
    elem: Seq<u8>,
    name: Seq<char>,
    post: PostView,
) -> Result<
    (PostView, nat),
    ParseFault,
> {
    if name == "title"@ || name == "pubDate"@ || name == "guid"@ || name == "link"@ || name
        == "description"@ || name == "author"@ || name == "category"@ {
        match text_run(text, at, seq![elem], Seq::empty()) {
            Err(f) => Err(f),
            Ok((t, n)) => Ok(
                (
                    if name == "title"@ {
                        PostView { title: non_empty(t), ..post }
                    } else if name == "pubDate"@ {
                        PostView { pub_date: non_empty(t), ..post }
                    } else if name == "guid"@ {
                        PostView { guid: non_empty(t), ..post }
                    } else if name == "link"@ {
                        PostView { link: non_empty(t), ..post }
                    } else if name == "description"@ {
                        PostView { description: non_empty(t), ..post }
                    } else if name == "author"@ {
                        PostView { author: non_empty(t), ..post }
                    } else if t.len() > 0 {
                        PostView { category: post.category.push(t), ..post }
                    } else {
                        post
                    },
                    n,
                ),
            ),
        }
    } else {
        match skip_run(text, at, seq![elem]) {
            Err(f) => Err(f),
            Ok(n) => Ok((post, n)),
        }
    }
}

/// The post that the element `elem`, opened just before `pos`, holds,
/// `post` being what is known of it so far, and the place behind the
/// element's end. An end tag that does not name the element is a fault, as
/// is whatever is broken in the document.
pub open spec fn post_run(text: Seq<u8>, pos: nat, elem: Seq<u8>, post: PostView) -> Result<
    (PostView, nat),
    ParseFault,
>
    decreases text.len() - pos,
{
    match xml_event(text, pos) {
        None => Err(ParseFault::Xml),
        Some(e) => if ends(e, text, pos) {
            Ok((post, pos))
        } else {
            match e.kind {
                XmlKind::End => if e.content == elem {
                    Ok((post, e.next))
                } else {
                    Err(ParseFault::EndMismatch)
                },
                XmlKind::Empty => match name_text(e) {
                    Err(f) => Err(f),
                    Ok(name) => if local_name(name) == "link"@ {
                        match atom_link(e) {
                            Err(f) => Err(f),
                            Ok(AtomLinkView::Alternate(l)) => post_run(
                                text,
                                e.next,
                                elem,
                                PostView { link: Some(l), ..post },
                            ),
                            Ok(_) => post_run(text, e.next, elem, post),
                        }
                    } else {
                        post_run(text, e.next, elem, post)
                    },
                },
                XmlKind::Start => match name_text(e) {
                    Err(f) => Err(f),
                    Ok(name) => match post_field(text, e.next, start_name(e), name, post) {
                        Err(f) => Err(f),
                        Ok((p, n)) => if pos < n <= text.len() {
                            post_run(text, n, elem, p)
                        } else {
                            Ok((p, n))
                        },
                    },
                },
                _ => post_run(text, e.next, elem, post),
            }
        },
    }
}

fn read_post_field(
    text: &[u8],
    at: usize,
    elem: &[u8],
    name: &str,
    post: &mut FeedPost,
) -> (r: Result<usize, ParseError>)
    requires
        at <= text.len(),
    ensures
        match post_field(text@, at as nat, elem@, name@, old(post)@) {
            Ok((p, n)) => r matches Ok(m) && m == n && at <= m <= text.len() && final(post)@
                == p,
            Err(f) => r matches Err(x) && x.fault() == f,
        },
{
    let is_title = str_eq(name, "title");
    let is_date = str_eq(name, "pubDate");
    let is_guid = str_eq(name, "guid");
    let is_link = str_eq(name, "link");
    let is_description = str_eq(name, "description");
    let is_author = str_eq(name, "author");
    let is_category = str_eq(name, "category");
    if is_title || is_date || is_guid || is_link || is_description || is_author || is_category {
        let (t, n) = match text_or_cdata(text, at, elem) {
            Ok(x) => x,
            Err(x) => {
                return Err(x);
            },
        };
        if is_title {
            post.title = t;
        } else if is_date {
            post.pub_date = t;
        } else if is_guid {
            post.guid = t;
        } else if is_link {
            post.link = t;
        } else if is_description {
            post.description = t;
        } else if is_author {
            post.author = t;
        } else {
            match t {
                Some(c) => {
                    let ghost before = post.category.deep_view();
                    let ghost cv = c@;
                    post.category.push(c);
                    proof {
                        assert(post.category.deep_view() =~= before.push(cv));
                    }
                },
                None => {},
            }
        }
        Ok(n)
    } else {
        skip_this_element(text, at, elem)
    }
}

impl FeedPost {
    /// Reads the post that the element `elem`, opened just before `pos`,
    /// holds, and returns it with the place behind the element's end.
    pub fn from_xml(text: &[u8], pos: usize, elem: &[u8]) -> (r: Result<
        (FeedPost, usize),
        ParseError,
    >)
        requires
            pos <= text.len(),
        ensures
            match post_run(text@, pos as nat, elem@, PostView::empty()) {
                Ok((p, n)) => r matches Ok((post, m)) && m == n && pos <= m <= text.len()
                    && post@ == p,
                Err(f) => r matches Err(x) && x.fault() == f,
            },
    {
        let mut post = FeedPost::new();
        let mut at: usize = pos;
        loop
            invariant
                pos <= at <= text.len(),
                post_run(text@, pos as nat, elem@, PostView::empty()) == post_run(
                    text@,
                    at as nat,
                    elem@,
                    post@,
                ),
            decreases text.len() - at,
        {
            let e = match event_at(text, at) {
                Ok(e) => e,
                Err(x) => {
                    return Err(x);
                },
            };
            let mut next = e.next;
            if is_end(&e, text, at) {
                return Ok((post, at));
            }
            match e.kind {
                XmlKind::End => {
                    if !bytes_eq(&e.content, elem) {
                        return Err(ParseError::EndMismatch);
                    }
                    return Ok((post, next));
                },
                XmlKind::Empty => {
                    let name = match name_of(&e) {
                        Ok(n) => n,
                        Err(x) => {
                            return Err(x);
                        },
                    };
                    let local = local_name_of(name.as_str());
                    if str_eq(local.as_str(), "link") {
                        match parse_atom_link(&e) {
                            Ok(AtomLink::Alternate(l)) => {
                                post.link = Some(l);
                            },
                            Ok(_) => {},
                            Err(x) => {
                                return Err(x);
                            },
                        }
                    }
                },
                XmlKind::Start => {
                    let name = match name_of(&e) {
                        Ok(n) => n,
                        Err(x) => {
                            return Err(x);
                        },
                    };
                    next =
                    match read_post_field(
                        text,
                        next,
                        start_name_of(&e).as_slice(),
                        name.as_str(),
                        &mut post,
                    ) {
                        Ok(n) => n,
                        Err(x) => {
                            return Err(x);
                        },
                    };
                },
                _ => {},
            }
            at = next;
        }
    }
}

} // verus!
