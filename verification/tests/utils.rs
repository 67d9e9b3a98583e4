use ksbot::text::{is_blank, split_words};
use ksbot::utils::{find_http_url, hash, ExponentRegress, Throttle};
use std::hash::{Hash, Hasher};

#[test]
fn test_hash() {
    let a = "123";
    let c = "123";
    let b = "321";

    assert_eq!(hash(a), hash(a));
    assert_eq!(hash(a), hash(c));
    assert_ne!(hash(a), hash(b));
}

#[test]
fn test_find_url() {
    let r = find_http_url(
        "[http://175.24.205.140:12000/3dm/news](http://175.24.205.140:12000/3dm/news)",
    )
    .unwrap();

    assert_eq!("http://175.24.205.140:12000/3dm/news", r);

    let r1 = find_http_url("http://175.24.205.140:12000/3dm/news").unwrap();

    assert_eq!("http://175.24.205.140:12000/3dm/news", r1);

    let r1 = find_http_url("http://175.24.205.140:12000/nga/forum/-61285727").unwrap();

    assert_eq!("http://175.24.205.140:12000/nga/forum/-61285727", r1);
}

#[test]
fn test_exponent_regress() {
    let mut eg = ExponentRegress::from_base(2);
    assert_eq!(2, eg.get());
    assert_eq!(2 * 2, eg.get());
    assert_eq!(2 * 2 * 2, eg.get());
    assert_eq!(2 * 2 * 2 * 2, eg.get());
    assert_eq!(2 * 2 * 2 * 2 * 2, eg.get());
    assert_eq!(2 * 2 * 2 * 2 * 2 * 2, eg.get());
    assert_eq!(2 * 2 * 2 * 2 * 2 * 2 * 2, eg.get());
    assert_eq!(2 * 2 * 2 * 2 * 2 * 2 * 2 * 2, eg.get());
    assert_eq!(2 * 2 * 2 * 2 * 2 * 2 * 2 * 2 * 2, eg.get());
    assert_eq!(2 * 2 * 2 * 2 * 2 * 2 * 2 * 2 * 2 * 2, eg.get());
    assert_eq!(2 * 2 * 2 * 2 * 2 * 2 * 2 * 2 * 2 * 2 * 2, eg.get());
    assert_eq!(2 * 2 * 2 * 2 * 2 * 2 * 2 * 2 * 2 * 2 * 2 * 2, eg.get());
    assert_eq!(2 * 2 * 2 * 2 * 2 * 2 * 2 * 2 * 2 * 2 * 2 * 2 * 2, eg.get());

    eg.reset();
    assert_eq!(2, eg.get());
    assert_eq!(4, eg.get());
    assert_eq!(8, eg.get());
    assert_eq!(16, eg.get());
    assert_eq!(32, eg.get());
    assert_eq!(64, eg.get());
    assert_eq!(128, eg.get());
    assert_eq!(256, eg.get());
    assert_eq!(512, eg.get());
    assert_eq!(1024, eg.get());
    assert_eq!(2048, eg.get());
    assert_eq!(4096, eg.get());
    assert_eq!(8192, eg.get());

    eg.reset();
    assert_eq!(2, eg.get());
    assert_eq!(2 * 2, eg.get());
    assert_eq!(2 * 2 * 2, eg.get());
    assert_eq!(2 * 2 * 2 * 2, eg.get());
    assert_eq!(2 * 2 * 2 * 2 * 2, eg.get());
    assert_eq!(2 * 2 * 2 * 2 * 2 * 2, eg.get());
    assert_eq!(2 * 2 * 2 * 2 * 2 * 2 * 2, eg.get());
    assert_eq!(2 * 2 * 2 * 2 * 2 * 2 * 2 * 2, eg.get());
    assert_eq!(2 * 2 * 2 * 2 * 2 * 2 * 2 * 2 * 2, eg.get());
    assert_eq!(2 * 2 * 2 * 2 * 2 * 2 * 2 * 2 * 2 * 2, eg.get());
    assert_eq!(2 * 2 * 2 * 2 * 2 * 2 * 2 * 2 * 2 * 2 * 2, eg.get());
    assert_eq!(2 * 2 * 2 * 2 * 2 * 2 * 2 * 2 * 2 * 2 * 2 * 2, eg.get());
    assert_eq!(2 * 2 * 2 * 2 * 2 * 2 * 2 * 2 * 2 * 2 * 2 * 2 * 2, eg.get());
}

#[test]
fn test_content_vec() {
    let content = "@aaa rss http://example.com";
    let words = split_words(content);
    let args = words.iter().skip(1).map(|t| t.as_str()).collect::<Vec<&str>>();

    assert_eq!(args[0], "rss");
    assert_eq!(args[1], "http://example.com");
}

#[test]
fn the_fingerprint_is_the_decimal_hash_of_std() {
    for text in ["", "123", "http://b.a", "华为"] {
        let mut hasher = std::collections::hash_map::DefaultHasher::default();
        text.hash(&mut hasher);
        assert_eq!(hash(text), format!("{}", hasher.finish()));
    }
}

#[test]
fn links_are_found_or_not() {
    assert_eq!(find_http_url("see https://a.b/c?d=1 now"), Some("https://a.b/c"));
    assert_eq!(find_http_url("http://"), None);
    assert_eq!(find_http_url("http:// http://x"), Some("http://x"));
    assert_eq!(find_http_url("no link here"), None);
    assert_eq!(find_http_url(""), None);
    assert_eq!(find_http_url("HTTP://a.b"), None);
    assert_eq!(find_http_url("xhttp://a_b-c.d:80/e$f&g#h!"), Some("http://a_b-c.d:80/e$f&g#h"));
    assert_eq!(find_http_url("(http://a.b)"), Some("http://a.b"));
    assert_eq!(find_http_url("httpshttps://a"), Some("https://a"));
    assert_eq!(find_http_url("前缀 http://a.b/路径 后缀"), Some("http://a.b/路径"));
    assert_eq!(find_http_url("http://é.fr/ça\u{3000}"), Some("http://é.fr/ça"));
    assert_eq!(find_http_url("http://a.b/x→y"), Some("http://a.b/x"));
    assert_eq!(find_http_url("http://→"), None);
}

#[test]
fn the_schedule_moves_on_and_stops_at_the_machines_range() {
    let mut eg = ExponentRegress::from_base(3);
    assert_eq!(eg.get(), 3);
    assert_eq!(eg.get(), 9);
    eg.forward(2);
    assert_eq!(eg.get(), 243);
    eg.reset();
    assert_eq!(eg.try_get(), Some(3));
    let mut big = ExponentRegress::from_base(2);
    big.forward(usize::BITS as usize - 2);
    assert_eq!(big.try_get(), Some(1usize << (usize::BITS - 1)));
    assert_eq!(big.try_get(), None);
    assert_eq!(big.try_get(), None);
    big.reset();
    assert_eq!(big.try_get(), Some(2));
}

#[test]
fn the_throttle_spreads_tickets_over_the_pieces() {
    let mut throttle = Throttle::new(3, Some(500));
    let a = throttle.acquire();
    let b = throttle.acquire();
    let c = throttle.acquire();
    let d = throttle.acquire();
    assert_eq!(a.delay_ms(), 0);
    assert_eq!(b.delay_ms(), 500);
    assert_eq!(c.delay_ms(), 1000);
    assert_eq!(d.delay_ms(), a.delay_ms());
    throttle.release(d);
    throttle.release(c);
    let e = throttle.acquire();
    assert_eq!(e.delay_ms(), 1000);
    let mut default = Throttle::new(2, None);
    let _ = default.acquire();
    assert_eq!(default.acquire().delay_ms(), 1000);
}

#[test]
fn words_and_blanks() {
    assert_eq!(split_words("  a  bc   d "), vec!["a", "bc", "d"]);
    assert_eq!(split_words(""), Vec::<String>::new());
    assert_eq!(split_words("   "), Vec::<String>::new());
    assert_eq!(split_words("a\tb c"), vec!["a\tb", "c"]);
    assert!(is_blank(""));
    assert!(is_blank(" \t\r\n\u{3000}"));
    assert!(!is_blank(" a "));
}
