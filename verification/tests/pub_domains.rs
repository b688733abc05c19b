use net::pub_domains::{
    is_pub_domain, is_reg_domain, pub_suffix, reg_host, reg_suffix, Host, Origin, PubDomainRules,
};
use net::text::is_whitespace;

const LIST: &str = "// a small list\n\ncom\n*.ck\n!www.ck\r\n  co.uk  \n\tuk\n// trailing comment";

fn rules() -> PubDomainRules {
    PubDomainRules::parse(LIST)
}

#[test]
fn plain_rule_gives_public_and_registrable_suffix() {
    let r = rules();
    assert_eq!(r.public_suffix("www.example.com"), "com");
    assert_eq!(r.registrable_suffix("www.example.com"), "example.com");
    assert_eq!(r.public_suffix("example.com"), "com");
    assert_eq!(r.registrable_suffix("example.com"), "example.com");
}

#[test]
fn a_public_suffix_is_its_own_registrable_suffix() {
    let r = rules();
    assert_eq!(r.public_suffix("com"), "com");
    assert_eq!(r.registrable_suffix("com"), "com");
    assert_eq!(r.public_suffix("co.uk"), "co.uk");
    assert_eq!(r.registrable_suffix("co.uk"), "co.uk");
}

#[test]
fn longer_rule_wins_over_shorter() {
    let r = rules();
    assert_eq!(r.public_suffix("a.b.co.uk"), "co.uk");
    assert_eq!(r.registrable_suffix("a.b.co.uk"), "b.co.uk");
    assert_eq!(r.public_suffix("a.b.uk"), "uk");
    assert_eq!(r.registrable_suffix("a.b.uk"), "b.uk");
}

#[test]
fn wildcard_makes_every_child_public() {
    let r = rules();
    assert_eq!(r.public_suffix("a.b.ck"), "b.ck");
    assert_eq!(r.registrable_suffix("a.b.ck"), "a.b.ck");
    assert_eq!(r.public_suffix("b.ck"), "b.ck");
    assert_eq!(r.registrable_suffix("b.ck"), "b.ck");
}

#[test]
fn exception_overrides_wildcard() {
    let r = rules();
    assert_eq!(r.public_suffix("www.ck"), "ck");
    assert_eq!(r.registrable_suffix("www.ck"), "www.ck");
    assert_eq!(r.public_suffix("a.www.ck"), "ck");
    assert_eq!(r.registrable_suffix("a.www.ck"), "www.ck");
}

#[test]
fn unknown_top_level_label_is_public() {
    let r = rules();
    assert_eq!(r.public_suffix("host.example.test"), "test");
    assert_eq!(r.registrable_suffix("host.example.test"), "example.test");
    assert_eq!(r.public_suffix("localhost"), "localhost");
    assert_eq!(r.registrable_suffix("localhost"), "localhost");
}

#[test]
fn leading_dots_are_set_aside() {
    let r = rules();
    assert_eq!(r.public_suffix("..www.example.com"), "com");
    assert_eq!(r.registrable_suffix("..www.example.com"), "example.com");
    assert_eq!(r.public_suffix("..."), "");
    assert_eq!(r.registrable_suffix(""), "");
}

#[test]
fn suffix_pair_gives_both_at_once() {
    let r = rules();
    assert_eq!(r.suffix_pair("www.example.co.uk"), ("co.uk", "example.co.uk"));
}

#[test]
fn non_ascii_labels_are_cut_at_scalar_boundaries() {
    let r = PubDomainRules::from_iter(&["公司.cn", "cn"]);
    assert_eq!(r.public_suffix("例え.公司.cn"), "公司.cn");
    assert_eq!(r.registrable_suffix("www.例え.公司.cn"), "例え.公司.cn");
}

#[test]
fn is_public_suffix_cases() {
    let r = rules();
    assert!(r.is_public_suffix("com"));
    assert!(r.is_public_suffix(".com"));
    assert!(r.is_public_suffix("co.uk"));
    assert!(r.is_public_suffix("b.ck"));
    assert!(r.is_public_suffix("anything"));
    assert!(!r.is_public_suffix(""));
    assert!(!r.is_public_suffix("."));
    assert!(!r.is_public_suffix("example.com"));
    assert!(!r.is_public_suffix("www.ck"));
    assert!(!r.is_public_suffix("example.test"));
}

#[test]
fn is_registrable_suffix_cases() {
    let r = rules();
    assert!(r.is_registrable_suffix("example.com"));
    assert!(r.is_registrable_suffix(".example.com"));
    assert!(r.is_registrable_suffix("example.co.uk"));
    assert!(r.is_registrable_suffix("www.ck"));
    assert!(r.is_registrable_suffix("a.b.ck"));
    assert!(r.is_registrable_suffix("example.test"));
    assert!(!r.is_registrable_suffix("com"));
    assert!(!r.is_registrable_suffix("co.uk"));
    assert!(!r.is_registrable_suffix("b.ck"));
    assert!(!r.is_registrable_suffix("www.example.com"));
    assert!(!r.is_registrable_suffix(""));
}

#[test]
fn free_functions_agree_with_methods() {
    let r = rules();
    assert_eq!(pub_suffix(&r, "www.example.com"), "com");
    assert_eq!(reg_suffix(&r, "www.example.com"), "example.com");
    assert!(is_pub_domain(&r, "com"));
    assert!(!is_pub_domain(&r, "example.com"));
    assert!(is_reg_domain(&r, "example.com"));
    assert!(!is_reg_domain(&r, "com"));
}

#[test]
fn from_iter_files_entries_by_prefix() {
    let r = PubDomainRules::from_iter(&["com", "*.ck", "!www.ck", "com"]);
    assert!(r.is_public_suffix("com"));
    assert!(r.is_public_suffix("x.ck"));
    assert!(!r.is_public_suffix("www.ck"));
    // "*.ck" is a wildcard, not a rule of that name.
    assert!(!r.is_public_suffix("*.ck") || r.is_public_suffix("y.ck"));
    assert_eq!(r.public_suffix("a.x.ck"), "x.ck");
}

#[test]
fn parse_skips_comments_and_blank_lines() {
    let r = PubDomainRules::parse("//com\n   \n\n // net\norg");
    assert!(!r.is_public_suffix("a.com"));
    assert_eq!(r.public_suffix("a.b.org"), "org");
    // Without a rule for it, `b.com` is no public suffix of `a.b.com`.
    assert_eq!(r.public_suffix("a.b.com"), "com");
    assert!(!r.is_public_suffix("b.org"));
}

#[test]
fn parse_trims_unicode_white_space() {
    let r = PubDomainRules::parse("\u{3000}co.uk\u{a0}\r\n\u{2003}!x.ck \n*.ck\u{85}");
    assert!(r.is_public_suffix("co.uk"));
    assert!(r.is_public_suffix("y.ck"));
    assert!(!r.is_public_suffix("x.ck"));
}

#[test]
fn empty_list_knows_only_the_last_label() {
    let r = PubDomainRules::new();
    assert_eq!(r.public_suffix("a.b.c"), "c");
    assert_eq!(r.registrable_suffix("a.b.c"), "b.c");
    let d = PubDomainRules::default();
    assert_eq!(d.public_suffix("a.b.c"), "c");
}

#[test]
fn white_space_is_what_the_standard_library_says() {
    let mut n: u32 = 0;
    while n <= 0x10FFFF {
        if let Some(c) = char::from_u32(n) {
            assert_eq!(is_whitespace(c), c.is_whitespace(), "U+{:04X}", n);
        }
        n += 1;
    }
}

#[test]
fn reg_host_of_each_kind_of_origin() {
    let r = rules();
    let domain = Origin::Tuple("https".to_string(), Host::Domain("www.example.co.uk".to_string()), 443);
    assert!(matches!(reg_host(&r, domain), Some(Host::Domain(ref d)) if d == "example.co.uk"));
    let suffix = Origin::Tuple("http".to_string(), Host::Domain("co.uk".to_string()), 80);
    assert!(matches!(reg_host(&r, suffix), Some(Host::Domain(ref d)) if d == "co.uk"));
    let v4 = Origin::Tuple("http".to_string(), Host::Ipv4(0x7f00_0001), 8080);
    assert!(matches!(reg_host(&r, v4), Some(Host::Ipv4(0x7f00_0001))));
    let v6 = Origin::Tuple("http".to_string(), Host::Ipv6(1), 80);
    assert!(matches!(reg_host(&r, v6), Some(Host::Ipv6(1))));
    assert!(reg_host(&r, Origin::Opaque).is_none());
}

#[test]
fn rule_sets_hold_each_name_once() {
    let r = PubDomainRules::parse("com\ncom\n*.ck\n!www.ck\n  com \n*.ck");
    let text = |v: &Vec<char>| v.iter().collect::<String>();
    assert_eq!(r.rules().iter().map(text).collect::<Vec<_>>(), vec!["com"]);
    assert_eq!(r.wildcards().iter().map(text).collect::<Vec<_>>(), vec!["ck"]);
    assert_eq!(r.exceptions().iter().map(text).collect::<Vec<_>>(), vec!["www.ck"]);
    let e = PubDomainRules::new();
    assert!(e.rules().is_empty() && e.wildcards().is_empty() && e.exceptions().is_empty());
}

#[test]
fn entries_are_filed_by_prefix_only() {
    let r = PubDomainRules::from_iter(&["!", "*.", "*", "!*.x", "*.!y", ""]);
    let text = |v: &Vec<char>| v.iter().collect::<String>();
    assert_eq!(r.exceptions().iter().map(text).collect::<Vec<_>>(), vec!["", "*.x"]);
    assert_eq!(r.wildcards().iter().map(text).collect::<Vec<_>>(), vec!["", "!y"]);
    assert_eq!(r.rules().iter().map(text).collect::<Vec<_>>(), vec!["*", ""]);
}

#[test]
fn public_suffix_test_agrees_with_public_suffix() {
    let r = rules();
    for domain in
        ["com", "example.com", "www.example.com", "co.uk", "b.ck", "a.b.ck", "www.ck", "x", ""]
    {
        let own = !domain.is_empty() && r.public_suffix(domain) == domain;
        assert_eq!(r.is_public_suffix(domain), own, "{}", domain);
        let registrable =
            r.public_suffix(domain) != domain && r.registrable_suffix(domain) == domain;
        assert_eq!(r.is_registrable_suffix(domain), registrable, "{}", domain);
        assert!(r.registrable_suffix(domain).ends_with(r.public_suffix(domain)));
        assert!(domain.ends_with(r.registrable_suffix(domain)));
    }
}

#[test]
fn empty_labels_are_taken_as_they_come() {
    let r = rules();
    // A name that ends in a dot has an empty last label.
    assert_eq!(r.public_suffix("example.com."), "");
    assert_eq!(r.registrable_suffix("example.com."), "com.");
    assert!(!r.is_registrable_suffix("com."));
    assert!(!r.is_public_suffix("com."));
}

#[test]
fn a_copy_answers_as_the_list_it_was_made_of() {
    let r = rules();
    let copy = r.clone();
    drop(r);
    assert_eq!(copy.public_suffix("a.b.ck"), "b.ck");
    assert_eq!(copy.registrable_suffix("a.www.ck"), "www.ck");
    assert_eq!(copy.public_suffix("www.example.co.uk"), "co.uk");
}
