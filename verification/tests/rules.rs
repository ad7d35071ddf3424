use jeanne::comparison::{Comparison, ComparisonOperator};
use jeanne::config::{Config, Rule, RuleLimits, RuleList, ServerConfig};
use jeanne::qbittorrent::{
    value_or_global_limit, PartialTorrent, TagList, Torrent, TorrentField,
};
use jeanne::ratio::Ratio;
use jeanne::reconcile::{decide, handle_torrent};

fn ratio(value: f64) -> Ratio {
    Ratio::from_bits(value.to_bits())
}

fn torrent(category: &str, seconds: usize, tags: &str) -> Torrent {
    Torrent {
        category: category.to_string(),
        max_ratio: ratio(-1.0),
        max_seeding_time: -1,
        name: "a name".to_string(),
        seeding_time: seconds,
        tags: TagList::parse(tags),
    }
}

fn no_limits() -> RuleLimits {
    RuleLimits { ratio: None, minutes: None }
}

fn rule(category: Option<&str>, limits: RuleLimits) -> Rule {
    Rule {
        category: category.map(|c| c.to_string()),
        seeding_time: None,
        tags: None,
        limits,
    }
}

fn config(rules: Vec<Rule>) -> Config {
    Config {
        server: ServerConfig {
            address: "http://localhost:8080".to_string(),
            username: None,
            password: None,
        },
        rules: RuleList(rules),
    }
}

#[test]
fn ratio_follows_the_numbers() {
    assert!(ratio(2.5).same_number(&ratio(2.5)));
    assert!(!ratio(2.5).same_number(&ratio(2.25)));
    assert!(ratio(0.0).same_number(&ratio(-0.0)));
    assert!(!ratio(f64::NAN).same_number(&ratio(f64::NAN)));
    assert!(ratio(f64::INFINITY).same_number(&ratio(f64::INFINITY)));
    assert!(!ratio(f64::INFINITY).same_number(&ratio(f64::NEG_INFINITY)));
    for value in [0.0, -0.0, 1.0, 2.5, f64::INFINITY, f64::MIN_POSITIVE] {
        assert!(ratio(value).at_least_zero());
        assert_eq!(ratio(value).at_least_zero(), value >= 0.0);
    }
    for value in [-1.0, -2.0, -0.5, f64::NEG_INFINITY, f64::NAN, -f64::NAN] {
        assert!(!ratio(value).at_least_zero());
        assert_eq!(ratio(value).at_least_zero(), value >= 0.0);
    }
    assert!(ratio(f64::NAN).is_nan());
    assert!(!ratio(f64::INFINITY).is_nan());
    assert_eq!(ratio(2.5).to_bits(), 2.5f64.to_bits());
}

#[test]
fn tags_split_on_commas() {
    assert_eq!(TagList::parse(""), TagList(vec![]));
    assert_eq!(TagList::parse("a"), TagList(vec!["a".to_string()]));
    assert_eq!(
        TagList::parse("a,b"),
        TagList(vec!["a".to_string(), "b".to_string()])
    );
    assert_eq!(
        TagList::parse("a, b"),
        TagList(vec!["a".to_string(), " b".to_string()])
    );
    assert_eq!(
        TagList::parse("a,b,"),
        TagList(vec!["a".to_string(), "b".to_string()])
    );
    assert_eq!(TagList::parse(","), TagList(vec![String::new()]));
    assert_eq!(
        TagList::parse("a,,b"),
        TagList(vec!["a".to_string(), String::new(), "b".to_string()])
    );
    assert_eq!(
        TagList::parse(",a"),
        TagList(vec![String::new(), "a".to_string()])
    );
    for text in ["", ",", ",,", "a,", ",a", "x,y,z", "é,ü", " , "] {
        let expected: Vec<String> = text.split_terminator(',').map(|x| x.to_string()).collect();
        assert_eq!(TagList::parse(text), TagList(expected));
    }
}

#[test]
fn tags_render_between_brackets() {
    assert_eq!(TagList::parse("").render(), "[]");
    assert_eq!(TagList::parse("a").render(), "[a]");
    assert_eq!(TagList::parse("a,b,c").render(), "[a, b, c]");
}

#[test]
fn tags_are_compared_in_order() {
    assert!(TagList::parse("a,b").same_as(&TagList::parse("a,b")));
    assert!(!TagList::parse("a,b").same_as(&TagList::parse("b,a")));
    assert!(!TagList::parse("a,b").same_as(&TagList::parse("a,b,b")));
    assert!(!TagList::parse("a").same_as(&TagList::parse("")));
    assert!(TagList::parse("").same_as(&TagList::parse("")));
}

#[test]
fn rule_without_predicates_matches_everything() {
    let any = rule(None, no_limits());
    assert!(any.matches(&torrent("movies", 0, "")));
    assert!(any.matches(&torrent("", 7200, "a,b")));
}

#[test]
fn category_must_be_equal_to_the_letter() {
    let movies = rule(Some("movies"), no_limits());
    assert!(movies.matches(&torrent("movies", 0, "")));
    assert!(!movies.matches(&torrent("Movies", 0, "")));
    assert!(!movies.matches(&torrent("movies ", 0, "")));
}

#[test]
fn seeding_time_is_held_in_whole_minutes() {
    let long = Rule {
        category: None,
        seeding_time: Some(Comparison { operator: ComparisonOperator::GreaterThanOrEqual, value: 2 }),
        tags: None,
        limits: no_limits(),
    };
    assert!(!long.matches(&torrent("x", 119, "")));
    assert!(long.matches(&torrent("x", 120, "")));
    assert!(long.matches(&torrent("x", 179, "")));
    let short = Rule {
        category: None,
        seeding_time: Some(Comparison { operator: ComparisonOperator::LessThan, value: 1 }),
        tags: None,
        limits: no_limits(),
    };
    assert!(short.matches(&torrent("x", 59, "")));
    assert!(!short.matches(&torrent("x", 60, "")));
}

#[test]
fn rule_tags_must_be_the_same_sequence() {
    let tagged = Rule {
        category: None,
        seeding_time: None,
        tags: Some(TagList::parse("a,b")),
        limits: no_limits(),
    };
    assert!(tagged.matches(&torrent("x", 0, "a,b")));
    assert!(!tagged.matches(&torrent("x", 0, "b,a")));
    assert!(!tagged.matches(&torrent("x", 0, "a,a,b")));
    assert!(!tagged.matches(&torrent("x", 0, "")));
}

#[test]
fn every_predicate_must_hold() {
    let strict = Rule {
        category: Some("movies".to_string()),
        seeding_time: Some(Comparison { operator: ComparisonOperator::GreaterThan, value: 10 }),
        tags: Some(TagList::parse("hd")),
        limits: no_limits(),
    };
    assert!(strict.matches(&torrent("movies", 11 * 60, "hd")));
    assert!(!strict.matches(&torrent("music", 11 * 60, "hd")));
    assert!(!strict.matches(&torrent("movies", 10 * 60, "hd")));
    assert!(!strict.matches(&torrent("movies", 11 * 60, "sd")));
}

#[test]
fn first_matching_rule_wins() {
    let rules = RuleList(vec![
        rule(Some("movies"), RuleLimits { ratio: Some(ratio(1.0)), minutes: None }),
        rule(None, RuleLimits { ratio: Some(ratio(2.0)), minutes: None }),
    ]);
    let found = rules.find(&torrent("movies", 0, "")).unwrap();
    assert_eq!(found.category.as_deref(), Some("movies"));
    assert_eq!(found.limits.ratio.unwrap().to_bits(), 1.0f64.to_bits());
    let other = rules.find(&torrent("music", 0, "")).unwrap();
    assert_eq!(other.category, None);
    assert_eq!(rules.len(), 2);
    assert_eq!(rules.iter().count(), 2);
    assert_eq!(
        rules.iter().map(|r| r.category.clone()).collect::<Vec<_>>(),
        vec![Some("movies".to_string()), None]
    );
    let none = RuleList(vec![rule(Some("movies"), no_limits())]);
    assert!(none.find(&torrent("music", 0, "")).is_none());
    assert!(RuleList(vec![]).find(&torrent("music", 0, "")).is_none());
}

#[test]
fn needs_update_only_for_limits_the_rule_names() {
    let mut t = torrent("x", 0, "");
    t.max_ratio = ratio(2.5);
    t.max_seeding_time = 90;
    assert!(!rule(None, no_limits()).needs_update(&t));
    assert!(!rule(None, RuleLimits { ratio: Some(ratio(2.5)), minutes: None }).needs_update(&t));
    assert!(rule(None, RuleLimits { ratio: Some(ratio(2.0)), minutes: None }).needs_update(&t));
    assert!(!rule(None, RuleLimits { ratio: None, minutes: Some(90) }).needs_update(&t));
    assert!(rule(None, RuleLimits { ratio: None, minutes: Some(91) }).needs_update(&t));
    assert!(rule(None, RuleLimits { ratio: Some(ratio(2.5)), minutes: Some(-1) }).needs_update(&t));
    assert!(!rule(None, RuleLimits { ratio: Some(ratio(2.5)), minutes: Some(90) }).needs_update(&t));
}

#[test]
fn rule_in_words() {
    let full = Rule {
        category: Some("movies".to_string()),
        seeding_time: Some(Comparison { operator: ComparisonOperator::GreaterThanOrEqual, value: 45 }),
        tags: Some(TagList::parse("a,b")),
        limits: RuleLimits { ratio: Some(ratio(2.5)), minutes: Some(-1) },
    };
    assert_eq!(
        full.render("2.5"),
        "category = movies, seeding time >= 45 minutes, tags = [a, b] => 2.5 ratio and -1 minutes"
    );
    let bare = rule(None, no_limits());
    assert_eq!(bare.render("ignored"), " => unlimited ratio and unlimited minutes");
    let one = rule(Some("x"), RuleLimits { ratio: None, minutes: Some(1440) });
    assert_eq!(one.render(""), "category = x => unlimited ratio and 1440 minutes");
}

#[test]
fn unmatched_limited_torrent_goes_back_to_global() {
    let config = config(vec![rule(Some("movies"), no_limits())]);
    let mut t = torrent("music", 0, "");
    t.max_ratio = ratio(2.5);
    let action = handle_torrent(&config, &t).unwrap();
    assert!(action.ratio.is_none());
    assert!(action.minutes.is_none());
    let mut timed = torrent("music", 0, "");
    timed.max_seeding_time = 0;
    assert!(handle_torrent(&config, &timed).is_some());
}

#[test]
fn unmatched_unlimited_torrent_is_left_alone() {
    let config = config(vec![rule(Some("movies"), no_limits())]);
    let t = torrent("music", 0, "");
    assert!(t.max_ratio.same_number(&ratio(-1.0)));
    assert_eq!(t.max_seeding_time, -1);
    assert!(handle_torrent(&config, &t).is_none());
    let mut global = torrent("music", 0, "");
    global.max_ratio = ratio(-2.0);
    global.max_seeding_time = -2;
    assert!(handle_torrent(&config, &global).is_none());
}

#[test]
fn matched_torrent_gets_the_rule_limits_whole() {
    let limits = RuleLimits { ratio: Some(ratio(1.5)), minutes: None };
    let config = config(vec![rule(Some("movies"), limits), rule(None, no_limits())]);
    let t = torrent("movies", 0, "");
    let action = handle_torrent(&config, &t).unwrap();
    assert_eq!(action.ratio.unwrap().to_bits(), 1.5f64.to_bits());
    assert!(action.minutes.is_none());
    let mut settled = torrent("movies", 0, "");
    settled.max_ratio = ratio(1.5);
    settled.max_seeding_time = 30;
    assert!(handle_torrent(&config, &settled).is_none());
    let mut limited_elsewhere = torrent("music", 0, "");
    limited_elsewhere.max_ratio = ratio(3.0);
    assert!(handle_torrent(&config, &limited_elsewhere).is_none());
}

#[test]
fn is_limited_by_either_field() {
    let mut t = torrent("x", 0, "");
    assert!(!t.is_limited());
    t.max_seeding_time = 0;
    assert!(t.is_limited());
    t.max_seeding_time = -1;
    t.max_ratio = ratio(0.0);
    assert!(t.is_limited());
    t.max_ratio = ratio(-2.0);
    t.max_seeding_time = -2;
    assert!(!t.is_limited());
}

#[test]
fn from_data_names_the_first_missing_field() {
    let full = || PartialTorrent {
        category: Some("c".to_string()),
        max_ratio: Some(ratio(1.0)),
        max_seeding_time: Some(5),
        name: Some("n".to_string()),
        seeding_time: Some(7),
        tags: Some("a,b".to_string()),
    };
    let t = Torrent::from_data(full()).unwrap();
    assert_eq!(t.category, "c");
    assert_eq!(t.max_ratio.to_bits(), 1.0f64.to_bits());
    assert_eq!(t.max_seeding_time, 5);
    assert_eq!(t.name, "n");
    assert_eq!(t.seeding_time, 7);
    assert_eq!(t.tags, TagList(vec!["a".to_string(), "b".to_string()]));
    let mut d = full();
    d.category = None;
    d.name = None;
    assert_eq!(Torrent::from_data(d).unwrap_err(), TorrentField::Category);
    let mut d = full();
    d.max_ratio = None;
    assert_eq!(Torrent::from_data(d).unwrap_err(), TorrentField::MaxRatio);
    let mut d = full();
    d.max_seeding_time = None;
    assert_eq!(Torrent::from_data(d).unwrap_err(), TorrentField::MaxSeedingTime);
    let mut d = full();
    d.name = None;
    assert_eq!(Torrent::from_data(d).unwrap_err(), TorrentField::Name);
    let mut d = full();
    d.seeding_time = None;
    d.tags = None;
    assert_eq!(Torrent::from_data(d).unwrap_err(), TorrentField::SeedingTime);
    let mut d = full();
    d.tags = None;
    assert_eq!(Torrent::from_data(d).unwrap_err(), TorrentField::Tags);
    assert_eq!(TorrentField::Category.name(), "category");
    assert_eq!(TorrentField::MaxRatio.name(), "max_ratio");
    assert_eq!(TorrentField::MaxSeedingTime.name(), "max_seeding_time");
    assert_eq!(TorrentField::Name.name(), "name");
    assert_eq!(TorrentField::SeedingTime.name(), "seeding_time");
    assert_eq!(TorrentField::Tags.name(), "tags");
}

#[test]
fn limit_text_or_global_mark() {
    assert_eq!(value_or_global_limit(Some("2.5".to_string())), "2.5");
    assert_eq!(value_or_global_limit(None), "-2");
}

#[test]
fn tags_from_owned_text() {
    assert_eq!(TagList::from("a,b".to_string()), TagList::parse("a,b"));
    assert_eq!(TagList::from(String::new()), TagList::default());
    assert_eq!(TagList::default(), TagList(vec![]));
    assert_eq!(PartialTorrent::default().category, None);
    assert_eq!(PartialTorrent::default().tags, None);
    assert_eq!(ServerConfig::default().address, "");
    assert_eq!(ServerConfig::default().username, None);
    let t = torrent("x", 1, "a");
    let copy = t.clone();
    assert_eq!(copy.category, t.category);
    assert_eq!(copy.tags, t.tags);
}

#[test]
fn decimal_writes_as_std_does() {
    for n in [
        0i128,
        1,
        9,
        10,
        11,
        99,
        100,
        1440,
        -1,
        -2,
        -10,
        -2147483648,
        2147483647,
        18446744073709551615,
        i128::MAX,
        i128::MIN,
        i128::MIN + 1,
    ] {
        assert_eq!(jeanne::text::decimal(n), n.to_string());
    }
    assert_eq!(
        jeanne::text::join(&vec!["a".to_string(), "b".to_string(), String::new()], "--"),
        "a--b--"
    );
    assert_eq!(jeanne::text::join(&vec![], ", "), "");
}

#[test]
fn decide_from_the_matched_rule() {
    let mut t = torrent("x", 0, "");
    t.max_ratio = ratio(2.5);
    let same = rule(None, RuleLimits { ratio: Some(ratio(2.5)), minutes: None });
    assert!(decide(&t, Some(&same)).is_none());
    let other = rule(None, RuleLimits { ratio: None, minutes: Some(60) });
    let action = decide(&t, Some(&other)).unwrap();
    assert!(action.ratio.is_none());
    assert_eq!(action.minutes, Some(60));
    let reset = decide(&t, None).unwrap();
    assert!(reset.ratio.is_none() && reset.minutes.is_none());
    assert!(decide(&torrent("x", 0, ""), None).is_none());
}

#[test]
fn joining_the_tags_gives_the_text_back() {
    for text in ["", "a", "a,b", "a,b,", ",", ",,", "a,,b", " a , b ", ",a,"] {
        let tags = TagList::parse(text);
        assert!(tags.0.iter().all(|t| !t.contains(',')));
        assert_eq!(tags.0.join(","), text.strip_suffix(',').unwrap_or(text));
    }
}
