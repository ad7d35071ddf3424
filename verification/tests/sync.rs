use jeanne::client::{
    login_outcome, share_limits_form, share_limits_outcome, sync_outcome, AuthenticationError,
    Client, ClientError, MainData, ParsedUrl,
};
use jeanne::config::{Config, Rule, RuleLimits, RuleList, ServerConfig};
use jeanne::qbittorrent::{PartialTorrent, TagList, TorrentField};
use jeanne::ratio::Ratio;
use jeanne::reconcile::run;
use jeanne::store::TorrentMap;

fn ratio(value: f64) -> Ratio {
    Ratio::from_bits(value.to_bits())
}

fn server(address: &str) -> ServerConfig {
    ServerConfig { address: address.to_string(), username: None, password: None }
}

fn client() -> Client {
    Client::new(server("http://localhost:8080")).unwrap()
}

fn nothing() -> PartialTorrent {
    PartialTorrent {
        category: None,
        max_ratio: None,
        max_seeding_time: None,
        name: None,
        seeding_time: None,
        tags: None,
    }
}

fn everything(category: &str, seconds: usize) -> PartialTorrent {
    PartialTorrent {
        category: Some(category.to_string()),
        max_ratio: Some(ratio(-1.0)),
        max_seeding_time: Some(-1),
        name: Some("a name".to_string()),
        seeding_time: Some(seconds),
        tags: Some("a,b".to_string()),
    }
}

fn full(rid: usize, torrents: Vec<(&str, PartialTorrent)>) -> MainData {
    MainData {
        full_update: true,
        rid,
        torrents: torrents.into_iter().map(|(k, v)| (k.to_string(), v)).collect(),
        torrents_removed: None,
    }
}

fn partial(rid: usize, torrents: Vec<(&str, PartialTorrent)>, removed: Option<Vec<&str>>) -> MainData {
    MainData {
        full_update: false,
        rid,
        torrents: torrents.into_iter().map(|(k, v)| (k.to_string(), v)).collect(),
        torrents_removed: removed.map(|v| v.into_iter().map(|h| h.to_string()).collect()),
    }
}

#[test]
fn client_accepts_only_http_bases() {
    let ok = Client::new(ServerConfig {
        address: "HTTP://Example.COM:8080/qbt".to_string(),
        username: Some("u".to_string()),
        password: Some("p".to_string()),
    })
    .unwrap();
    assert_eq!(ok.base_url, "http://example.com:8080/qbt");
    assert_eq!(ok.rid, 0);
    assert_eq!(ok.torrents.len(), 0);
    assert_eq!(ok.username.as_deref(), Some("u"));
    assert_eq!(ok.password.as_deref(), Some("p"));
    assert_eq!(Client::new(server("https://example.com")).unwrap().base_url, "https://example.com/");
    assert_eq!(Client::new(server("ftp://example.com")).unwrap_err(), ClientError::InvalidUrl);
    assert_eq!(Client::new(server("mailto:a@example.com")).unwrap_err(), ClientError::InvalidUrl);
    assert_eq!(Client::new(server("not a url")).unwrap_err(), ClientError::InvalidUrl);
    assert_eq!(Client::new(server("")).unwrap_err(), ClientError::InvalidUrl);
}

#[test]
fn credentials_need_both_parts() {
    let mut c = client();
    assert_eq!(c.credentials().unwrap_err(), AuthenticationError::MissingCredentials);
    c.username = Some("u".to_string());
    assert_eq!(c.credentials().unwrap_err(), AuthenticationError::MissingCredentials);
    c.password = Some("p".to_string());
    assert_eq!(c.credentials().unwrap(), (&"u".to_string(), &"p".to_string()));
    c.username = None;
    assert_eq!(c.credentials().unwrap_err(), AuthenticationError::MissingCredentials);
}

#[test]
fn answers_of_the_server() {
    assert_eq!(login_outcome(403, true), Err(AuthenticationError::Banned));
    assert_eq!(login_outcome(403, false), Err(AuthenticationError::Banned));
    assert_eq!(login_outcome(200, false), Err(AuthenticationError::Credentials));
    assert_eq!(login_outcome(200, true), Ok(()));
    assert_eq!(sync_outcome(403), Err(ClientError::Authentication));
    assert_eq!(sync_outcome(200), Ok(()));
    assert_eq!(sync_outcome(500), Ok(()));
    assert_eq!(share_limits_outcome(200), Ok(()));
    assert_eq!(share_limits_outcome(204), Err(ClientError::BadRequest));
    assert_eq!(share_limits_outcome(403), Err(ClientError::BadRequest));
}

#[test]
fn share_limits_go_out_as_text() {
    let pair = |a: &str, b: &str| (a.to_string(), b.to_string());
    assert_eq!(
        share_limits_form("abc", Some("2.5".to_string()), Some(-1)),
        vec![
            pair("hashes", "abc"),
            pair("inactiveSeedingTimeLimit", "-2"),
            pair("ratioLimit", "2.5"),
            pair("seedingTimeLimit", "-1"),
        ]
    );
    assert_eq!(
        share_limits_form("abc", None, None),
        vec![
            pair("hashes", "abc"),
            pair("inactiveSeedingTimeLimit", "-2"),
            pair("ratioLimit", "-2"),
            pair("seedingTimeLimit", "-2"),
        ]
    );
    assert_eq!(
        share_limits_form("h", None, Some(1440))[3],
        pair("seedingTimeLimit", "1440")
    );
}

#[test]
fn full_answer_replaces_everything() {
    let mut c = client();
    let out = c.update(&full(3, vec![("old", everything("x", 1))]));
    assert!(out.is_empty());
    assert_eq!(c.rid, 3);
    assert_eq!(c.torrents.len(), 1);
    let mut gap = everything("z", 3);
    gap.max_ratio = None;
    let out = c.update(&full(9, vec![("a", everything("y", 2)), ("b", gap)]));
    assert_eq!(out.len(), 1);
    assert_eq!(out[0].hash, "b");
    assert_eq!(out[0].field, TorrentField::MaxRatio);
    assert_eq!(c.rid, 9);
    assert_eq!(c.torrents.len(), 1);
    assert!(c.torrents.get(&"old".to_string()).is_none());
    assert!(c.torrents.get(&"b".to_string()).is_none());
    let a = c.torrents.get(&"a".to_string()).unwrap();
    assert_eq!(a.category, "y");
    assert_eq!(a.seeding_time, 2);
    assert_eq!(a.tags, TagList(vec!["a".to_string(), "b".to_string()]));
    let out = c.update(&full(10, vec![]));
    assert!(out.is_empty());
    assert_eq!(c.torrents.len(), 0);
    assert_eq!(c.rid, 10);
}

#[test]
fn partial_merge_preserves_untouched_fields() {
    let mut c = client();
    c.update(&full(1, vec![("h", everything("x", 7200))]));
    let mut delta = nothing();
    delta.category = Some("y".to_string());
    let out = c.update(&partial(2, vec![("h", delta)], None));
    assert!(out.is_empty());
    let t = c.torrents.get(&"h".to_string()).unwrap();
    assert_eq!(t.seeding_time, 7200);
    assert_eq!(t.category, "y");
    assert_eq!(t.name, "a name");
    assert_eq!(t.max_seeding_time, -1);
    assert_eq!(t.max_ratio.to_bits(), (-1.0f64).to_bits());
    assert_eq!(t.tags, TagList(vec!["a".to_string(), "b".to_string()]));
    assert_eq!(c.rid, 2);
    let mut delta = nothing();
    delta.tags = Some("".to_string());
    delta.max_ratio = Some(ratio(2.5));
    delta.max_seeding_time = Some(10);
    delta.seeding_time = Some(1);
    delta.name = Some("other".to_string());
    c.update(&partial(3, vec![("h", delta)], None));
    let t = c.torrents.get(&"h".to_string()).unwrap();
    assert_eq!(t.category, "y");
    assert_eq!(t.tags, TagList(vec![]));
    assert_eq!(t.max_ratio.to_bits(), 2.5f64.to_bits());
    assert_eq!(t.max_seeding_time, 10);
    assert_eq!(t.seeding_time, 1);
    assert_eq!(t.name, "other");
}

#[test]
fn new_torrent_must_be_complete() {
    let mut c = client();
    c.update(&full(1, vec![("h", everything("x", 1))]));
    let mut gap = everything("y", 2);
    gap.name = None;
    let out = c.update(&partial(
        2,
        vec![("new", gap), ("fine", everything("z", 3))],
        None,
    ));
    assert_eq!(out.len(), 1);
    assert_eq!(out[0].hash, "new");
    assert_eq!(out[0].field, TorrentField::Name);
    assert_eq!(out[0].field.name(), "name");
    assert!(c.torrents.get(&"new".to_string()).is_none());
    assert_eq!(c.torrents.get(&"fine".to_string()).unwrap().category, "z");
    assert_eq!(c.torrents.len(), 2);
    assert_eq!(c.rid, 2);
}

#[test]
fn removals_come_first_and_unknown_ones_are_ignored() {
    let mut c = client();
    c.update(&full(1, vec![("a", everything("x", 1)), ("b", everything("y", 2))]));
    let mut delta = nothing();
    delta.category = Some("only".to_string());
    let out = c.update(&partial(
        2,
        vec![("a", delta)],
        Some(vec!["a", "ghost"]),
    ));
    assert_eq!(out.len(), 1);
    assert_eq!(out[0].hash, "a");
    assert_eq!(out[0].field, TorrentField::MaxRatio);
    assert!(c.torrents.get(&"a".to_string()).is_none());
    assert!(c.torrents.get(&"b".to_string()).is_some());
    assert_eq!(c.torrents.len(), 1);
    let out = c.update(&partial(5, vec![], None));
    assert!(out.is_empty());
    assert_eq!(c.torrents.len(), 1);
    assert_eq!(c.rid, 5);
}

#[test]
fn store_by_hand() {
    let mut m = TorrentMap::new();
    assert_eq!(m.len(), 0);
    assert_eq!(m.upsert("a".to_string(), nothing()), Some(TorrentField::Category));
    assert_eq!(m.upsert("a".to_string(), everything("x", 1)), None);
    assert_eq!(m.upsert("a".to_string(), nothing()), None);
    assert_eq!(m.len(), 1);
    assert_eq!(m.hash_at(0), "a");
    assert_eq!(m.torrent_at(0).category, "x");
    assert_eq!(m.position(&"a".to_string()), Some(0));
    assert_eq!(m.position(&"b".to_string()), None);
    assert!(!m.remove(&"b".to_string()));
    assert!(m.remove(&"a".to_string()));
    assert_eq!(m.len(), 0);
}

#[test]
fn run_lists_the_changes_and_repeats_itself() {
    let mut c = client();
    let mut limited = everything("music", 60);
    limited.max_ratio = Some(ratio(2.5));
    c.update(&full(
        1,
        vec![
            ("m", everything("movies", 60)),
            ("l", limited),
            ("u", everything("music", 60)),
        ],
    ));
    let config = Config {
        server: server("http://localhost"),
        rules: RuleList(vec![Rule {
            category: Some("movies".to_string()),
            seeding_time: None,
            tags: None,
            limits: RuleLimits { ratio: Some(ratio(1.0)), minutes: Some(30) },
        }]),
    };
    let first = run(&config, &c);
    assert_eq!(first.len(), 2);
    assert_eq!(first[0].hash, "m");
    assert_eq!(first[0].limits.ratio.unwrap().to_bits(), 1.0f64.to_bits());
    assert_eq!(first[0].limits.minutes, Some(30));
    assert_eq!(first[1].hash, "l");
    assert!(first[1].limits.ratio.is_none());
    assert!(first[1].limits.minutes.is_none());
    let second = run(&config, &c);
    assert_eq!(second.len(), first.len());
    for (a, b) in first.iter().zip(second.iter()) {
        assert_eq!(a.hash, b.hash);
        assert_eq!(a.limits.minutes, b.limits.minutes);
        assert_eq!(
            a.limits.ratio.map(|r| r.to_bits()),
            b.limits.ratio.map(|r| r.to_bits())
        );
    }
}

#[test]
fn cycle_syncs_then_plans() {
    let mut c = client();
    let mut limited = everything("music", 60);
    limited.max_seeding_time = Some(10);
    let mut gap = everything("music", 60);
    gap.tags = None;
    let config = Config {
        server: server("http://localhost"),
        rules: RuleList(vec![]),
    };
    let data = full(4, vec![("l", limited), ("g", gap), ("u", everything("music", 1))]);
    let out = jeanne::reconcile::cycle(&config, &mut c, &data);
    assert_eq!(c.rid, 4);
    assert_eq!(c.torrents.len(), 2);
    assert_eq!(out.rejections.len(), 1);
    assert_eq!(out.rejections[0].hash, "g");
    assert_eq!(out.rejections[0].field, TorrentField::Tags);
    assert_eq!(out.actions.len(), 1);
    assert_eq!(out.actions[0].hash, "l");
    assert!(out.actions[0].limits.ratio.is_none());
    assert!(out.actions[0].limits.minutes.is_none());
}

#[test]
fn authentication_errors_in_words() {
    assert_eq!(
        AuthenticationError::Banned.message(),
        "This IP is banned for too many login attempts"
    );
    assert_eq!(AuthenticationError::Credentials.message(), "Could not log in to server");
    assert_eq!(
        AuthenticationError::MissingCredentials.message(),
        "Username and password are not set"
    );
}

#[test]
fn client_from_what_the_parser_made() {
    let parsed = |scheme: &str, cannot_be_a_base: bool| {
        Some(ParsedUrl {
            text: format!("{}://host/", scheme),
            scheme: scheme.to_string(),
            cannot_be_a_base,
        })
    };
    let made = Client::from_parsed(parsed("https", false), server("ignored")).unwrap();
    assert_eq!(made.base_url, "https://host/");
    assert_eq!(made.rid, 0);
    assert_eq!(made.torrents.len(), 0);
    assert!(Client::from_parsed(parsed("http", false), server("x")).is_ok());
    assert_eq!(
        Client::from_parsed(parsed("http", true), server("x")).unwrap_err(),
        ClientError::InvalidUrl
    );
    assert_eq!(
        Client::from_parsed(parsed("ftp", false), server("x")).unwrap_err(),
        ClientError::InvalidUrl
    );
    assert_eq!(
        Client::from_parsed(parsed("HTTP", false), server("x")).unwrap_err(),
        ClientError::InvalidUrl
    );
    assert_eq!(
        Client::from_parsed(None, server("x")).unwrap_err(),
        ClientError::InvalidUrl
    );
}
