//! The client's side of a sync: what it knows of the server's torrents and
//! what each answer of the server means.

use crate::config::ServerConfig;
use crate::qbittorrent::{
    global_limit, missing_field, optional_text, value_or_global_limit, MaxSeedingTime,
    PartialTorrent, PartialTorrentView, Torrent, TorrentField, TorrentView, complete,
};
use crate::store::{
    distinct, inserted, lemma_insert_sets, lemma_position_none, lookup, refused, upserted, without,
    Entries, TorrentMap,
};
use crate::text::{decimal, decimal_text, texts};
use vstd::prelude::*;

verus! {

/// Why a login failed.
#[derive(Clone, Copy, Debug, PartialEq, Eq, Structural)]
pub enum AuthenticationError {
    /// The server has banned this address for too many attempts.
    Banned,
    /// The server did not accept the credentials.
    Credentials,
    /// User name or password is not set.
    MissingCredentials,
}

impl AuthenticationError {
    /// The error in words.
    pub fn message(&self) -> (s: &'static str)
        ensures
            s@ == match *self {
                AuthenticationError::Banned => "This IP is banned for too many login attempts"@,
                AuthenticationError::Credentials => "Could not log in to server"@,
                AuthenticationError::MissingCredentials => "Username and password are not set"@,
            },
    {
        match self {
            AuthenticationError::Banned => "This IP is banned for too many login attempts",
            AuthenticationError::Credentials => "Could not log in to server",
            AuthenticationError::MissingCredentials => "Username and password are not set",
        }
    }
}

/// Why a call to the server failed.
#[derive(Clone, Copy, Debug, PartialEq, Eq, Structural)]
pub enum ClientError {
    /// The session is lost: log in again.
    Authentication,
    /// The server did not accept the request.
    BadRequest,
    /// The server's address is no http or https URL that can be a base.
    InvalidUrl,
}

/// What the URL parser makes of an address.
#[derive(Debug)]
pub struct ParsedUrl {
    /// The URL as the parser writes it.
    pub text: String,
    pub scheme: String,
    pub cannot_be_a_base: bool,
}

/// What the URL parser makes of an address: the URL as it writes it, the
/// scheme, and whether the URL cannot be a base; nothing where it rejects
/// the address.
pub uninterp spec fn parsed_address(address: Seq<char>) -> Option<(Seq<char>, Seq<char>, bool)>;

/// Calls `url::Url::parse` and reads the result with `Url::as_str`,
/// `Url::scheme` and `Url::cannot_be_a_base`. All of it depends on the
/// address alone, so the contract gives the outcome its name.
#[verifier::external_body]
fn parse_address(address: &str) -> (r: Option<ParsedUrl>)
    ensures
        r matches Some(p) ==> parsed_address(address@) == Some(
            (p.text@, p.scheme@, p.cannot_be_a_base),
        ),
        r is None ==> parsed_address(address@) is None,
{
    match url::Url::parse(address) {
        Ok(url) => Some(
            ParsedUrl {
                text: url.as_str().to_owned(),
                scheme: url.scheme().to_owned(),
                cannot_be_a_base: url.cannot_be_a_base(),
            },
        ),
        Err(_) => None,
    }
}

/// Whether a URL can serve as the server's base: http or https, and able to
/// be a base.
pub open spec fn usable_base(scheme: Seq<char>, cannot_be_a_base: bool) -> bool {
    (scheme == "http"@ || scheme == "https"@) && !cannot_be_a_base
}

/// One report of the server on one torrent.
pub type Upserts = Seq<(Seq<char>, PartialTorrentView)>;

/// The views of the reports, in order.
pub open spec fn reports(v: Seq<(String, PartialTorrent)>) -> Upserts {
    v.map_values(|e: (String, PartialTorrent)| (e.0@, e.1@))
}

/// One answer of the server to a sync request.
#[derive(Debug)]
pub struct MainData {
    /// Whether the answer holds everything the server knows, and not the
    /// changes since the last answer.
    pub full_update: bool,
    /// The number to ask with next time.
    pub rid: usize,
    /// The reports, each under its torrent's hash.
    pub torrents: Vec<(String, PartialTorrent)>,
    /// The hashes of the torrents that are gone.
    pub torrents_removed: Option<Vec<String>>,
}

/// A `MainData` over sequences of characters.
pub struct MainDataView {
    pub full_update: bool,
    pub rid: usize,
    pub torrents: Upserts,
    pub torrents_removed: Option<Seq<Seq<char>>>,
}

impl View for MainData {
    type V = MainDataView;

    open spec fn view(&self) -> MainDataView {
        MainDataView {
            full_update: self.full_update,
            rid: self.rid,
            torrents: reports(self.torrents@),
            torrents_removed: match self.torrents_removed {
                Some(v) => Some(texts(v@)),
                None => None,
            },
        }
    }
}

/// A report that was dropped, and the field for whose lack.
#[derive(Debug)]
pub struct Rejection {
    pub hash: String,
    pub field: TorrentField,
}

/// The views of the rejections, in order.
pub open spec fn rejections(v: Seq<Rejection>) -> Seq<(Seq<char>, TorrentField)> {
    v.map_values(|r: Rejection| (r.hash@, r.field))
}

/// The entries without any of the hashes.
pub open spec fn without_all(entries: Entries, hashes: Seq<Seq<char>>) -> Entries
    decreases hashes.len(),
{
    if hashes.len() == 0 {
        entries
    } else {
        without(without_all(entries, hashes.drop_last()), hashes.last())
    }
}

/// The entries after the reports of a partial answer, taken one by one.
pub open spec fn upserted_all(entries: Entries, upserts: Upserts) -> Entries
    decreases upserts.len(),
{
    if upserts.len() == 0 {
        entries
    } else {
        upserted(
            upserted_all(entries, upserts.drop_last()),
            upserts.last().0,
            upserts.last().1,
        )
    }
}

/// The reports of a partial answer that are dropped, each with the field
/// it lacks.
pub open spec fn refused_all(entries: Entries, upserts: Upserts) -> Seq<(Seq<char>, TorrentField)>
    decreases upserts.len(),
{
    if upserts.len() == 0 {
        Seq::empty()
    } else {
        let before = refused_all(entries, upserts.drop_last());
        match refused(
            upserted_all(entries, upserts.drop_last()),
            upserts.last().0,
            upserts.last().1,
        ) {
            Some(field) => before.push((upserts.last().0, field)),
            None => before,
        }
    }
}

/// The entries that a full answer leaves: the complete reports, a later one
/// in place of an earlier one under the same hash.
pub open spec fn replaced_all(upserts: Upserts) -> Entries
    decreases upserts.len(),
{
    if upserts.len() == 0 {
        Seq::empty()
    } else {
        let before = replaced_all(upserts.drop_last());
        if missing_field(upserts.last().1) is None {
            inserted(before, upserts.last().0, complete(upserts.last().1))
        } else {
            before
        }
    }
}

/// The reports of a full answer that are dropped, each with the first field
/// it lacks.
pub open spec fn incomplete_all(upserts: Upserts) -> Seq<(Seq<char>, TorrentField)>
    decreases upserts.len(),
{
    if upserts.len() == 0 {
        Seq::empty()
    } else {
        let before = incomplete_all(upserts.drop_last());
        match missing_field(upserts.last().1) {
            Some(field) => before.push((upserts.last().0, field)),
            None => before,
        }
    }
}

/// What the last complete report on a hash describes, if there is one.
pub open spec fn last_complete(upserts: Upserts, hash: Seq<char>) -> Option<TorrentView>
    decreases upserts.len(),
{
    if upserts.len() == 0 {
        None
    } else if upserts.last().0 == hash && missing_field(upserts.last().1) is None {
        Some(complete(upserts.last().1))
    } else {
        last_complete(upserts.drop_last(), hash)
    }
}

/// After a full answer a torrent is known under a hash exactly where the
/// answer holds a complete report on that hash, and it is known as the last
/// such report describes it. No report that lacks a field leaves a trace.
pub proof fn lemma_full_answer_keeps_complete_reports(upserts: Upserts, hash: Seq<char>)
    ensures
        lookup(replaced_all(upserts), hash) == last_complete(upserts, hash),
    decreases upserts.len(),
{
    if upserts.len() > 0 {
        let before = replaced_all(upserts.drop_last());
        lemma_full_answer_keeps_complete_reports(upserts.drop_last(), hash);
        if missing_field(upserts.last().1) is None {
            lemma_insert_sets(before, upserts.last().0, complete(upserts.last().1), hash);
        }
    } else {
        lemma_position_none(replaced_all(upserts), hash);
    }
}

/// The hashes that an answer removes.
pub open spec fn removals(data: MainDataView) -> Seq<Seq<char>> {
    match data.torrents_removed {
        Some(hashes) => hashes,
        None => Seq::empty(),
    }
}

/// The entries after an answer. A full answer replaces everything; a
/// partial one first removes, then takes in its reports.
pub open spec fn synced(entries: Entries, data: MainDataView) -> Entries {
    if data.full_update {
        replaced_all(data.torrents)
    } else {
        upserted_all(without_all(entries, removals(data)), data.torrents)
    }
}

/// The reports of an answer that are dropped.
pub open spec fn dropped(entries: Entries, data: MainDataView) -> Seq<(Seq<char>, TorrentField)> {
    if data.full_update {
        incomplete_all(data.torrents)
    } else {
        refused_all(without_all(entries, removals(data)), data.torrents)
    }
}

/// The fields of the form that sets a torrent's share limits.
pub open spec fn share_limits_fields(
    hash: Seq<char>,
    ratio_text: Option<Seq<char>>,
    minutes: Option<MaxSeedingTime>,
) -> Seq<(Seq<char>, Seq<char>)> {
    seq![
        ("hashes"@, hash),
        ("inactiveSeedingTimeLimit"@, global_limit()),
        (
            "ratioLimit"@,
            match ratio_text {
                Some(t) => t,
                None => global_limit(),
            },
        ),
        (
            "seedingTimeLimit"@,
            match minutes {
                Some(m) => decimal_text(m as int),
                None => global_limit(),
            },
        ),
    ]
}

/// The views of the pairs, in order.
pub open spec fn pairs(v: Seq<(String, String)>) -> Seq<(Seq<char>, Seq<char>)> {
    v.map_values(|e: (String, String)| (e.0@, e.1@))
}

/// The form that sets a torrent's share limits. A limit that is left out
/// goes as the global-limit mark. `ratio_text` is the ratio as a decimal
/// number.
pub fn share_limits_form(
    hash: &str,
    ratio_text: Option<String>,
    minutes: Option<MaxSeedingTime>,
) -> (form: Vec<(String, String)>)
    ensures
        pairs(form@) == share_limits_fields(hash@, optional_text(ratio_text), minutes),
{
    let minutes_text: Option<String> = match minutes {
        Some(m) => Some(decimal(m as i128)),
        None => None,
    };
    let mut form: Vec<(String, String)> = Vec::new();
    form.push((String::from_str("hashes"), String::from_str(hash)));
    form.push((String::from_str("inactiveSeedingTimeLimit"), value_or_global_limit(None)));
    form.push((String::from_str("ratioLimit"), value_or_global_limit(ratio_text)));
    form.push((String::from_str("seedingTimeLimit"), value_or_global_limit(minutes_text)));
    assert(pairs(form@) =~= share_limits_fields(hash@, optional_text(ratio_text), minutes));
    form
}

/// What the answer to a login means: status 403 is a ban, and an answer that
/// sets no cookie is a refusal.
pub fn login_outcome(status: u16, sets_cookie: bool) -> (r: Result<(), AuthenticationError>)
    ensures
        r == if status == 403 {
            Err::<(), AuthenticationError>(AuthenticationError::Banned)
        } else if !sets_cookie {
            Err::<(), AuthenticationError>(AuthenticationError::Credentials)
        } else {
            Ok::<(), AuthenticationError>(())
        },
{
    if status == 403 {
        Err(AuthenticationError::Banned)
    } else if !sets_cookie {
        Err(AuthenticationError::Credentials)
    } else {
        Ok(())
    }
}

/// What the status of the answer to a sync request means: 403 is a lost
/// session.
pub fn sync_outcome(status: u16) -> (r: Result<(), ClientError>)
    ensures
        r == if status == 403 {
            Err::<(), ClientError>(ClientError::Authentication)
        } else {
            Ok::<(), ClientError>(())
        },
{
    if status == 403 {
        Err(ClientError::Authentication)
    } else {
        Ok(())
    }
}

/// What the status of the answer to a change of share limits means: only
/// 200 is an acceptance.
pub fn share_limits_outcome(status: u16) -> (r: Result<(), ClientError>)
    ensures
        r == if status == 200 {
            Ok::<(), ClientError>(())
        } else {
            Err::<(), ClientError>(ClientError::BadRequest)
        },
{
    if status == 200 {
        Ok(())
    } else {
        Err(ClientError::BadRequest)
    }
}

/// What the client knows: where the server is, how to log in, and the
/// torrents as of the last answer.
#[derive(Debug)]
pub struct Client {
    /// The server's base URL as the URL parser writes it.
    pub base_url: String,
    pub password: Option<String>,
    pub rid: usize,
    pub torrents: TorrentMap,
    pub username: Option<String>,
}

impl Client {
    /// A client for the server of `config`, from what the URL parser made of
    /// its address. The address must be an http or https URL that can be a
    /// base.
    pub fn from_parsed(parsed: Option<ParsedUrl>, config: ServerConfig) -> (r: Result<
        Client,
        ClientError,
    >)
        ensures
            match parsed {
                Some(p) if usable_base(p.scheme@, p.cannot_be_a_base) => {
                    &&& r matches Ok(c)
                    &&& c.base_url == p.text
                    &&& c.password == config.password
                    &&& c.username == config.username
                    &&& c.rid == 0
                    &&& c.torrents@ == Seq::<(Seq<char>, TorrentView)>::empty()
                },
                _ => r matches Err(e) && e == ClientError::InvalidUrl,
            },
    {
        let p = match parsed {
            Some(p) => p,
            None => { return Err(ClientError::InvalidUrl); },
        };
        let known_scheme: bool = p.scheme == String::from_str("http") || p.scheme
            == String::from_str("https");
        if !known_scheme || p.cannot_be_a_base {
            return Err(ClientError::InvalidUrl);
        }
        Ok(
            Client {
                base_url: p.text,
                password: config.password,
                rid: 0,
                torrents: TorrentMap::new(),
                username: config.username,
            },
        )
    }

    /// A client for the server of `config`, or `InvalidUrl` where its
    /// address is no http or https URL that can be a base.
    pub fn new(config: ServerConfig) -> (r: Result<Client, ClientError>)
        ensures
            match parsed_address(config.address@) {
                Some(p) if usable_base(p.1, p.2) => {
                    &&& r matches Ok(c)
                    &&& c.base_url@ == p.0
                    &&& c.password == config.password
                    &&& c.username == config.username
                    &&& c.rid == 0
                    &&& c.torrents@ == Seq::<(Seq<char>, TorrentView)>::empty()
                },
                _ => r matches Err(e) && e == ClientError::InvalidUrl,
            },
    {
        let parsed = parse_address(config.address.as_str());
        Client::from_parsed(parsed, config)
    }

    /// User name and password, or `MissingCredentials` where either is not
    /// set.
    pub fn credentials(&self) -> (r: Result<(&String, &String), AuthenticationError>)
        ensures
            match (self.username, self.password) {
                (Some(u), Some(p)) => r matches Ok(c) && *c.0 == u && *c.1 == p,
                _ => r matches Err(e) && e == AuthenticationError::MissingCredentials,
            },
    {
        match (&self.username, &self.password) {
            (Some(u), Some(p)) => Ok((u, p)),
            _ => Err(AuthenticationError::MissingCredentials),
        }
    }

    /// Takes in one answer of the server. A full answer replaces every
    /// torrent known; a partial one first removes, then takes in its reports
    /// one by one. Whatever the answer changes, its number is the one to ask
    /// with next. The reports that were dropped come back, each with the
    /// field it lacks.
    pub fn update(&mut self, main_data: &MainData) -> (out: Vec<Rejection>)
        ensures
            final(self).torrents@ == synced(old(self).torrents@, main_data@),
            rejections(out@) == dropped(old(self).torrents@, main_data@),
            final(self).rid == main_data.rid,
            distinct(final(self).torrents@),
            final(self).base_url == old(self).base_url,
            final(self).username == old(self).username,
            final(self).password == old(self).password,
    {
        let mut out: Vec<Rejection> = Vec::new();
        let ghost upserts = reports(main_data.torrents@);
        assert(rejections(out@) =~= Seq::<(Seq<char>, TorrentField)>::empty());
        if main_data.full_update {
            let mut fresh = TorrentMap::new();
            let mut i: usize = 0;
            assert(upserts.take(0) =~= Seq::<(Seq<char>, PartialTorrentView)>::empty());
            while i < main_data.torrents.len()
                invariant
                    i <= main_data.torrents.len(),
                    upserts == reports(main_data.torrents@),
                    fresh@ == replaced_all(upserts.take(i as int)),
                    rejections(out@) == incomplete_all(upserts.take(i as int)),
                decreases main_data.torrents.len() - i,
            {
                let hash: String = main_data.torrents[i].0.clone();
                let data: PartialTorrent = main_data.torrents[i].1.clone();
                proof {
                    let longer = upserts.take(i + 1);
                    assert(longer.drop_last() =~= upserts.take(i as int));
                    assert(longer.last() == (hash@, data@));
                }
                match Torrent::from_data(data) {
                    Ok(torrent) => {
                        fresh.insert(hash, torrent);
                    },
                    Err(field) => {
                        proof {
                            assert(rejections(out@.push(Rejection { hash, field })) =~= rejections(
                                out@,
                            ).push((hash@, field)));
                        }
                        out.push(Rejection { hash, field });
                    },
                }
                i = i + 1;
            }
            assert(upserts.take(i as int) =~= upserts);
            self.torrents = fresh;
        } else {
            let ghost gone = removals(main_data@);
            assert(gone.take(0) =~= Seq::<Seq<char>>::empty());
            if let Some(torrents_removed) = &main_data.torrents_removed {
                let mut k: usize = 0;
                while k < torrents_removed.len()
                    invariant
                        k <= torrents_removed.len(),
                        gone == texts(torrents_removed@),
                        self.torrents@ == without_all(old(self).torrents@, gone.take(k as int)),
                        self.base_url == old(self).base_url,
                        self.username == old(self).username,
                        self.password == old(self).password,
                    decreases torrents_removed.len() - k,
                {
                    proof {
                        let longer = gone.take(k + 1);
                        assert(longer.drop_last() =~= gone.take(k as int));
                        assert(longer.last() == torrents_removed[k as int]@);
                    }
                    let _known = self.torrents.remove(&torrents_removed[k]);
                    k = k + 1;
                }
                assert(gone.take(k as int) =~= gone);
            }
            let ghost base = self.torrents@;
            assert(base == without_all(old(self).torrents@, gone));
            let mut i: usize = 0;
            assert(upserts.take(0) =~= Seq::<(Seq<char>, PartialTorrentView)>::empty());
            while i < main_data.torrents.len()
                invariant
                    i <= main_data.torrents.len(),
                    upserts == reports(main_data.torrents@),
                    self.torrents@ == upserted_all(base, upserts.take(i as int)),
                    rejections(out@) == refused_all(base, upserts.take(i as int)),
                    self.base_url == old(self).base_url,
                    self.username == old(self).username,
                    self.password == old(self).password,
                decreases main_data.torrents.len() - i,
            {
                let hash: String = main_data.torrents[i].0.clone();
                let data: PartialTorrent = main_data.torrents[i].1.clone();
                proof {
                    let longer = upserts.take(i + 1);
                    assert(longer.drop_last() =~= upserts.take(i as int));
                    assert(longer.last() == (hash@, data@));
                }
                match self.torrents.upsert(hash, data) {
                    Some(field) => {
                        let hash: String = main_data.torrents[i].0.clone();
                        proof {
                            assert(rejections(out@.push(Rejection { hash, field })) =~= rejections(
                                out@,
                            ).push((hash@, field)));
                        }
                        out.push(Rejection { hash, field });
                    },
                    None => {},
                }
                i = i + 1;
            }
            assert(upserts.take(i as int) =~= upserts);
        }
        self.rid = main_data.rid;
        proof {
            use_type_invariant(&self.torrents);
        }
        out
    }
}

} // verus!
