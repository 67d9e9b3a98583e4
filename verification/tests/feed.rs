use ksbot::fetch::feed::parse_number;
use ksbot::fetch::xml::{local_name_of, skip_this_element, text_or_cdata};
use ksbot::fetch::{Feed, FeedPost, ParseError};

const RSS_2_0: &str = r#"<?xml version="1.0" encoding="UTF-8"?>
<rss version="2.0" xmlns:atom="http://www.w3.org/2005/Atom">
  <channel>
    <title>rss_2.0.channel.title</title>
    <link>rss_2.0.channel.link</link>
    <description>rss_2.0.channel.description</description>
    <language>rss_2.0.channel.language</language>
    <copyright>rss_2.0.channel.copyright</copyright>
    <webMaster>rss_2.0.channel.webMaster</webMaster>
    <generator>rss_2.0.channel.generator</generator>
    <lastBuildDate>Sat, 07 Sep 2002 00:00:01 GMT</lastBuildDate>
    <ttl> 100 </ttl>
    <atom:link href="http://example.com/rss_2.0.xml" rel="self" type="application/rss+xml"/>
    <image>
      <title>rss_2.0.channel.image.title</title>
      <url>rss_2.0.channel.image.url</url>
      <link>rss_2.0.channel.image.link</link>
    </image>
    <textInput><title>t</title><name>n</name></textInput>
    <item>
      <title>rss_2.0.channel.item[0].title</title>
      <link>rss_2.0.channel.item[0].link</link>
      <description>rss_2.0.channel.item[0].description</description>
      <author>rss_2.0.channel.item[0].author</author>
      <category>rss_2.0.channel.item[0].category[0]</category>
      <category domain="d">rss_2.0.channel.item[0].category[1]</category>
      <comments>rss_2.0.channel.item[0].comments</comments>
      <guid isPermaLink="false">rss_2.0.channel.item[0].guid</guid>
      <pubDate>Sat, 07 Sep 2002 00:00:01 GMT</pubDate>
    </item>
    <item>
      <title>rss_2.0.channel.item[1].title</title>
      <link>rss_2.0.channel.item[1].link</link>
    </item>
  </channel>
</rss>
"#;

const SAMDM: &str = r#"<?xml version="1.0" encoding="UTF-8"?>
<rss xmlns:atom="http://www.w3.org/2005/Atom" version="2.0">
<channel>
<title><![CDATA[3DM - 新闻中心]]></title>
<link>http://www.3dmgame.com/news/</link>
<atom:link href="http://175.24.205.140:12000/3dm/news" rel="self" type="application/rss+xml" />
<description><![CDATA[3DM - 新闻中心 - Made with love by RSSHub(https://github.com/DIYgod/RSSHub)]]></description>
<generator>RSSHub</generator>
<language>zh-cn</language>
<ttl>5</ttl>
<item>
<title><![CDATA[新作发售 & 预告]]></title>
<description><![CDATA[<p>正文 <img src="https://img.3dmgame.com/a.jpg"></p>]]></description>
<pubDate>Mon, 05 Sep 2022 03:43:00 GMT</pubDate>
<guid isPermaLink="false">https://www.3dmgame.com/news/202209/3850990.html</guid>
<link>https://www.3dmgame.com/news/202209/3850990.html</link>
</item>
</channel>
</rss>
"#;

const ATOM_1_0: &str = r#"<?xml version="1.0" encoding="utf-8"?>
<feed xmlns="http://www.w3.org/2005/Atom">
  <title>atom_1.0.feed.title</title>
  <subtitle>atom_1.0.feed.subtitle</subtitle>
  <link href="http://example.com/blog_plain"/>
  <link rel="self" type="application/atom+xml" href="http://example.com/blog/atom_1.0.xml"/>
  <updated>2002-09-07T00:00:01Z</updated>
  <author><name>atom_1.0.feed.author.name</name></author>
  <id>atom_1.0.feed.id</id>
  <entry>
    <title>atom_1.0.feed.entry[0].title</title>
    <link href="http://example.com/blog/entry1_plain"/>
    <link rel="enclosure" href="http://example.com/blog/enclosure.mp3"/>
    <id>atom_1.0.feed.entry[0]^id</id>
    <updated>2002-09-07T00:00:01Z</updated>
    <summary>atom_1.0.feed.entry[0].summary</summary>
  </entry>
  <entry>
    <title>atom_1.0.feed.entry[1].title</title>
    <link rel="alternate" href="http://example.com/blog/entry2"/>
  </entry>
</feed>
"#;

const COMMITS_ATOM: &str = r#"<?xml version="1.0" encoding="UTF-8"?>
<feed xmlns="http://www.w3.org/2005/Atom" xmlns:media="http://search.yahoo.com/mrss/" xml:lang="en-US">
  <id>tag:github.com,2008:/sdttttt/ksbot/commits/master</id>
  <link type="text/html" rel="alternate" href="https://github.com/sdttttt/ksbot/commits/master"/>
  <link type="application/atom+xml" rel="self" href="https://github.com/sdttttt/ksbot/commits/master.atom"/>
  <title>Recent Commits to ksbot:master</title>
  <updated>2022-09-08T02:20:31Z</updated>
  <entry>
    <id>tag:github.com,2008:Grit::Commit/f0b049e0ed0d936c82010fbe53d34f4ecce99e9d</id>
    <link type="text/html" rel="alternate" href="https://github.com/sdttttt/ksbot/commit/f0b049e0ed0d936c82010fbe53d34f4ecce99e9d"/>
    <title>
        Update README.md
    </title>
    <updated>2022-09-08T02:20:31Z</updated>
    <media:thumbnail height="30" width="30" url="https://avatars.githubusercontent.com/u/1?s=30&amp;v=4"/>
    <author>
      <name>sdttttt</name>
      <uri>https://github.com/sdttttt</uri>
    </author>
    <content type="html">
      &lt;pre style=&#39;white-space:pre-wrap;width:81ex&#39;&gt;Update README.md&lt;/pre&gt;
    </content>
  </entry>
</feed>
"#;

#[test]
fn encoding() {
    let s: &[u8] = RSS_2_0.as_bytes();
    let r = Feed::from_xml(s).unwrap();
    assert_eq!(r.title, "rss_2.0.channel.title".to_owned());
    assert_eq!(r.link, "rss_2.0.channel.link".to_owned());
    assert_eq!(r.description, Some("rss_2.0.channel.description".to_owned()));
}

#[test]
fn samdm_test() {
    let s: &[u8] = SAMDM.as_bytes();
    let r = Feed::from_xml(s).unwrap();
    assert_eq!(r.title, "3DM - 新闻中心".to_owned());
    assert_eq!(r.link, "http://www.3dmgame.com/news/".to_owned());
    assert_eq!(
        r.description,
        Some(
            "3DM - 新闻中心 - Made with love by RSSHub(https://github.com/DIYgod/RSSHub)"
                .to_owned()
        )
    );
}

#[test]
fn atom_test() {
    let s: &[u8] = ATOM_1_0.as_bytes();
    let r = Feed::from_xml(s).unwrap();
    assert_eq!(&r.title, "atom_1.0.feed.title");
    assert_eq!(&r.link, "http://example.com/blog_plain");
    assert_eq!(r.description.as_deref(), None,);
    assert_eq!(r.posts[0].title.as_deref(), Some("atom_1.0.feed.entry[0].title"));
}

#[test]
fn github_commit_atom_test() {
    let s: &[u8] = COMMITS_ATOM.as_bytes();
    let r = Feed::from_xml(s).unwrap();
    assert_eq!(&r.title, "Recent Commits to ksbot:master");
    assert_eq!(&r.link, "https://github.com/sdttttt/ksbot/commits/master");
    assert_eq!(r.description.as_deref(), None,);
    assert_eq!(r.posts[0].title.as_deref(), Some("Update README.md"));
    assert_eq!(
        r.posts[0].link.as_deref(),
        Some("https://github.com/sdttttt/ksbot/commit/f0b049e0ed0d936c82010fbe53d34f4ecce99e9d")
    );
}

#[test]
fn every_field_of_an_rss_document_is_read() {
    let r = Feed::from_xml_with_str(RSS_2_0).unwrap();
    assert_eq!(r.version.as_deref(), Some("2.0"));
    assert_eq!(r.language.as_deref(), Some("rss_2.0.channel.language"));
    assert_eq!(r.copyright.as_deref(), Some("rss_2.0.channel.copyright"));
    assert_eq!(r.web_master.as_deref(), Some("rss_2.0.channel.webMaster"));
    assert_eq!(r.generator.as_deref(), Some("rss_2.0.channel.generator"));
    assert_eq!(r.last_build_date.as_deref(), Some("Sat, 07 Sep 2002 00:00:01 GMT"));
    assert_eq!(r.ttl, Some(100));
    assert_eq!(r.atom_link, None);
    assert_eq!(r.image.unwrap().url.as_deref(), Some("rss_2.0.channel.image.url"));
    assert_eq!(r.posts.len(), 2);
    let first = &r.posts[0];
    assert_eq!(first.title.as_deref(), Some("rss_2.0.channel.item[0].title"));
    assert_eq!(first.link.as_deref(), Some("rss_2.0.channel.item[0].link"));
    assert_eq!(first.description.as_deref(), Some("rss_2.0.channel.item[0].description"));
    assert_eq!(first.author.as_deref(), Some("rss_2.0.channel.item[0].author"));
    assert_eq!(first.guid.as_deref(), Some("rss_2.0.channel.item[0].guid"));
    assert_eq!(first.pub_date.as_deref(), Some("Sat, 07 Sep 2002 00:00:01 GMT"));
    assert_eq!(
        first.category,
        vec![
            "rss_2.0.channel.item[0].category[0]".to_owned(),
            "rss_2.0.channel.item[0].category[1]".to_owned()
        ]
    );
    let second = &r.posts[1];
    assert_eq!(second.title.as_deref(), Some("rss_2.0.channel.item[1].title"));
    assert_eq!(second.guid, None);
    assert!(second.category.is_empty());
}

#[test]
fn items_and_entries_become_the_posts_in_order() {
    let r = Feed::from_xml(ATOM_1_0.as_bytes()).unwrap();
    assert_eq!(r.atom_link.as_deref(), Some("http://example.com/blog/atom_1.0.xml"));
    assert_eq!(r.version, None);
    let links: Vec<Option<&str>> = r.posts.iter().map(|p| p.link.as_deref()).collect();
    assert_eq!(
        links,
        vec![Some("http://example.com/blog/entry1_plain"), Some("http://example.com/blog/entry2")]
    );
    let mixed = "<rss><channel><title>t</title><entry><title>a</title></entry>\
        <item><title>b</title></item><entry><title>c</title></entry></channel></rss>";
    let r = Feed::from_xml_with_str(mixed).unwrap();
    let titles: Vec<&str> = r.posts.iter().map(|p| p.title.as_deref().unwrap()).collect();
    assert_eq!(titles, vec!["a", "b", "c"]);
}

#[test]
fn escapes_and_cdata_are_resolved() {
    let r = Feed::from_xml(SAMDM.as_bytes()).unwrap();
    assert_eq!(r.ttl, Some(5));
    assert_eq!(r.posts[0].title.as_deref(), Some("新作发售 & 预告"));
    assert_eq!(
        r.posts[0].description.as_deref(),
        Some("<p>正文 <img src=\"https://img.3dmgame.com/a.jpg\"></p>")
    );
    let doc = "<rss><channel><title>a &amp; b &lt;c&gt;</title>\
        <link>http://x/?a=1&amp;b=2</link></channel></rss>";
    let r = Feed::from_xml_with_str(doc).unwrap();
    assert_eq!(r.title, "a & b <c>");
    assert_eq!(r.link, "http://x/?a=1&b=2");
}

#[test]
fn a_feed_without_text_in_its_title_is_refused() {
    let doc = "<rss><channel><title></title></channel></rss>";
    assert!(matches!(Feed::from_xml_with_str(doc), Err(ParseError::MissingTitle)));
    let doc = "<rss><channel><title>  </title></channel></rss>";
    assert!(matches!(Feed::from_xml_with_str(doc), Err(ParseError::MissingTitle)));
}

#[test]
fn broken_documents_are_refused() {
    assert!(matches!(
        Feed::from_xml_with_str("<rss><channel><title>a &bogus; b</title></channel></rss>"),
        Err(ParseError::Xml(_))
    ));
    assert!(matches!(
        Feed::from_xml_with_str("<rss version=2.0><channel></channel></rss>"),
        Err(ParseError::Xml(_))
    ));
    assert!(matches!(
        Feed::from_xml(b"<rss><channel><title>\xff\xfe</title></channel></rss>"),
        Err(ParseError::Utf8)
    ));
}

#[test]
fn a_document_that_is_cut_off_gives_what_was_read() {
    let r = Feed::from_xml_with_str("<rss><channel><title>t</title><item><title>a").unwrap();
    assert_eq!(r.title, "t");
    assert_eq!(r.posts.len(), 1);
    assert_eq!(r.posts[0].title, None);
    let r = Feed::from_xml_with_str("<rss><channel><title>t</title><item><title>a</title>")
        .unwrap();
    assert_eq!(r.posts.len(), 1);
    assert_eq!(r.posts[0].title.as_deref(), Some("a"));
    let r = Feed::from_xml_with_str("").unwrap();
    assert_eq!(r.title, "");
    assert!(r.posts.is_empty());
}

#[test]
fn the_reading_ends_with_the_channel() {
    let doc = "<rss><channel><title>t</title></channel><item><title>late</title></item></rss>";
    let r = Feed::from_xml_with_str(doc).unwrap();
    assert_eq!(r.title, "t");
    assert!(r.posts.is_empty());
}

#[test]
fn a_link_without_text_is_read_from_its_attributes() {
    let doc = "<feed><title>t</title><link href=\"http://page\"></link>\
        <link rel=\"self\" href=\"http://doc\"></link>\
        <link rel=\"hub\" href=\"http://hub\"></link><link></link></feed>";
    let r = Feed::from_xml_with_str(doc).unwrap();
    assert_eq!(r.link, "http://page");
    assert_eq!(r.atom_link.as_deref(), Some("http://doc"));
}

#[test]
fn texts_and_elements_are_passed_over() {
    let doc = b"a <b>b</b> &amp; <![CDATA[<c>]]><!-- no --></x><y>";
    let (text, next) = text_or_cdata(doc, 0, b"x").unwrap();
    assert_eq!(text.as_deref(), Some("ab&<c>"));
    assert_eq!(&doc[next..], b"<y>");
    let (text, next) = text_or_cdata(b"</x>rest", 0, b"x").unwrap();
    assert_eq!(text, None);
    assert_eq!(next, 4);
    let doc = b"<a><b/></a>text</x>tail";
    let next = skip_this_element(doc, 0, b"x").unwrap();
    assert_eq!(&doc[next..], b"tail");
    assert_eq!(skip_this_element(b"no end", 0, b"x").unwrap(), 0);
    assert_eq!(text_or_cdata(b"no end", 0, b"x").unwrap(), (None, 0));
}

#[test]
fn names_and_numbers() {
    assert_eq!(local_name_of("atom:link"), "link");
    assert_eq!(local_name_of("link"), "link");
    assert_eq!(local_name_of("a:b:c"), "b:c");
    assert_eq!(local_name_of(":x"), "x");
    assert_eq!(local_name_of(""), "");
    assert_eq!(parse_number("60"), Some(60));
    assert_eq!(parse_number(" 007\n"), Some(7));
    assert_eq!(parse_number("4294967295"), Some(u32::MAX));
    assert_eq!(parse_number("4294967296"), None);
    assert_eq!(parse_number("99999999999999999999999"), None);
    assert_eq!(parse_number(""), None);
    assert_eq!(parse_number("  "), None);
    assert_eq!(parse_number("1 2"), None);
    assert_eq!(parse_number("-1"), None);
    assert_eq!(parse_number("+1"), None);
    assert_eq!(parse_number("1.5"), None);
}

#[test]
fn a_post_of_which_nothing_is_known() {
    let post = FeedPost::new();
    assert!(post.title.is_none() && post.link.is_none() && post.category.is_empty());
    let feed = Feed::new();
    assert!(feed.title.is_empty() && feed.posts.is_empty() && feed.ttl.is_none());
}

#[test]
fn an_end_tag_that_names_another_element_is_refused() {
    for doc in [
        "<rss><channel><title>t</titel></channel></rss>",
        "<rss><channel><title>t</title></rss>",
        "<rss><channel><title>t</title><item><title>a</title></entry></channel></rss>",
        "<rss><channel><title>t</title><x><y></x></y></channel></rss>",
        "<rss><channel><title>t <b>bold</i></title></channel></rss>",
        "<rss><channel><image><url>u</url></picture></channel></rss>",
        "</rss>",
    ] {
        assert!(
            matches!(Feed::from_xml_with_str(doc), Err(ParseError::EndMismatch)),
            "{}",
            doc
        );
    }
    assert!(matches!(text_or_cdata(b"a</y>", 0, b"x"), Err(ParseError::EndMismatch)));
    assert!(matches!(skip_this_element(b"<a></b></x>", 0, b"x"), Err(ParseError::EndMismatch)));
    let doc = "<rss><channel><title >t</title ><x><x></x></x></channel ></rss>";
    assert_eq!(Feed::from_xml_with_str(doc).unwrap().title, "t");
}

#[test]
fn the_escapes_of_an_attribute_are_resolved_when_it_is_asked_for() {
    let doc = "<feed><title>t</title>\
        <link href=\"http://x/?a=1&amp;b=2\" title=\"&bogus;\"/></feed>";
    let r = Feed::from_xml_with_str(doc).unwrap();
    assert_eq!(r.link, "http://x/?a=1&b=2");
    let doc = "<feed><title>t</title><link href=\"http://x/?a=1&bogus;\"/></feed>";
    assert!(matches!(Feed::from_xml_with_str(doc), Err(ParseError::Xml(_))));
}
