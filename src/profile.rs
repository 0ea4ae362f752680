//! Usage profiles, and the cache that keeps them fresh.

use vstd::prelude::*;
use vstd::string::StringExecFns;

use crate::acl::{merged, Acl};

verus! {

/// A usage profile: what a device's manufacturer (or a local author) says the
/// device may talk to. Timestamps are seconds since the Unix epoch, UTC.
#[derive(Clone, Debug, PartialEq, Eq)]
pub struct MudData {
    pub url: String,
    pub masa_url: Option<String>,
    pub last_update: String,
    pub systeminfo: Option<String>,
    pub mfg_name: Option<String>,
    pub model_name: Option<String>,
    pub documentation: Option<String>,
    pub expiration: i64,
    pub acllist: Vec<Acl>,
    pub acl_override: Vec<Acl>,
}

/// The lists that a profile puts in force: its own lists where it has no
/// overrides, else its lists merged with its overrides.
pub open spec fn effective_acls(profile: MudData) -> Seq<Acl> {
    if profile.acl_override@.len() == 0 {
        profile.acllist@
    } else {
        merged(profile.acllist@, profile.acl_override@)
    }
}

/// Why a profile could not be had or stored.
#[derive(Clone, Copy, Debug, PartialEq, Eq, Structural)]
pub enum ProfileError {
    /// The profile's URL could not be reached.
    FetchError,
    /// The document at the URL is no valid profile.
    ParseError,
    /// The store failed.
    StorageError,
    /// A profile is stored under that URL already.
    AlreadyExists,
}

/// Whether `y` is a leap year of the proleptic Gregorian calendar.
pub open spec fn is_leap_year(y: int) -> bool {
    (y % 4 == 0 && y % 100 != 0) || y % 400 == 0
}

/// The number of days of month `m` of year `y`.
pub open spec fn days_in_month(y: int, m: int) -> int {
    if m == 2 {
        if is_leap_year(y) {
            29
        } else {
            28
        }
    } else if m == 4 || m == 6 || m == 9 || m == 11 {
        30
    } else {
        31
    }
}

/// Whether year `y`, month `m`, day `d` is a date that chrono's `NaiveDate`
/// can hold.
pub open spec fn is_calendar_date(y: int, m: int, d: int) -> bool {
    &&& -262143 <= y <= 262142
    &&& 1 <= m <= 12
    &&& 1 <= d <= days_in_month(y, m)
}

/// The Unix timestamp of midnight UTC that starts the given day.
pub uninterp spec fn utc_midnight_of(year: int, month: int, day: int) -> int;

/// Relies on chrono's `NaiveDate::from_ymd_opt`, `NaiveDate::and_hms_opt`,
/// `NaiveDateTime::and_utc` and `DateTime::timestamp`: the seconds from the Unix
/// epoch to midnight UTC of a date that exists, and no result for one that
/// does not.
#[verifier::external_body]
fn utc_midnight_timestamp(year: i32, month: u32, day: u32) -> (r: Option<i64>)
    ensures
        is_calendar_date(year as int, month as int, day as int) ==> r is Some,
        r matches Some(t) ==> t as int == utc_midnight_of(year as int, month as int, day as int),
{
    chrono::NaiveDate::from_ymd_opt(year, month, day)
        .and_then(|date| date.and_hms_opt(0, 0, 0))
        .map(|midnight| midnight.and_utc().timestamp())
}

/// Relies on chrono's `Utc::now` and `DateTime::timestamp`: the seconds since
/// the Unix epoch, read from the system clock (which `Utc::now` expects to read
/// after the epoch). Nothing is promised of the value.
#[verifier::external_body]
fn now_timestamp() -> (r: i64) {
    chrono::Utc::now().timestamp()
}

/// Relies on chrono's `Utc::now` and the `Display` of `NaiveDateTime`: the
/// current time as text.
#[verifier::external_body]
fn now_text() -> (r: String) {
    chrono::Utc::now().naive_local().to_string()
}

/// The expiration of locally authored profiles: midnight UTC, 31 January 2060.
pub fn get_custom_mud_expiration() -> (r: i64)
    ensures
        r as int == utc_midnight_of(2060, 1, 31),
{
    match utc_midnight_timestamp(2060, 1, 31) {
        Some(t) => t,
        None => {
            // Never taken: the date exists.
            assert(is_calendar_date(2060, 1, 31));
            0
        },
    }
}

/// An empty profile for local use under `url`: no lists of its own, the
/// overrides given (none where none are), and the far expiration of local
/// profiles.
pub fn generate_empty_custom_mud_profile(url: &str, acl_override: Option<Vec<Acl>>) -> (r: MudData)
    ensures
        r.url@ == url@,
        r.masa_url is None,
        r.systeminfo is None,
        r.mfg_name is None,
        r.model_name is None,
        r.documentation is None,
        r.expiration as int == utc_midnight_of(2060, 1, 31),
        r.acllist@.len() == 0,
        acl_override matches Some(v) ==> r.acl_override@ == v@,
        acl_override is None ==> r.acl_override@.len() == 0,
{
    let overrides = match acl_override {
        Some(v) => v,
        None => Vec::new(),
    };
    MudData {
        url: String::from_str(url),
        masa_url: None,
        last_update: now_text(),
        systeminfo: None,
        mfg_name: None,
        model_name: None,
        documentation: None,
        expiration: get_custom_mud_expiration(),
        acllist: Vec::new(),
        acl_override: overrides,
    }
}

/// Whether `pattern`, as a regular expression, matches somewhere in
/// `haystack`; no result where the pattern is no valid expression.
pub uninterp spec fn regex_match_of(pattern: Seq<char>, haystack: Seq<char>) -> Option<bool>;

/// Relies on `regex::Regex::new` and `regex::Regex::is_match`: whether the
/// compiled pattern matches, a function of the pattern and the text alone.
#[verifier::external_body]
fn regex_is_match(pattern: &str, haystack: &str) -> (r: Option<bool>)
    ensures
        r == regex_match_of(pattern@, haystack@),
{
    match regex::Regex::new(pattern) {
        Ok(re) => Some(re.is_match(haystack)),
        Err(_) => None,
    }
}

/// The pattern of profile URLs: `http` or `https`, a host, an optional path.
pub const URL_PATTERN: &'static str = "https?://(-\\.)?([^\\s/?\\.#-]+\\.?)+(/[^\\s]*)?$";

/// Whether `url` is a web address, which is fetched, rather than the name of a
/// locally authored profile.
pub fn is_url(url: &str) -> (r: bool)
    ensures
        r == (regex_match_of(URL_PATTERN@, url@) == Some(true)),
{
    match regex_is_match(URL_PATTERN, url) {
        Some(m) => m,
        None => false,
    }
}

/// Whether some profile of `rows` is stored under `url`.
pub open spec fn has_url(rows: Seq<MudData>, url: Seq<char>) -> bool {
    exists|k: int| 0 <= k < rows.len() && (#[trigger] rows[k]).url@ == url
}

/// No two profiles of `rows` share a URL.
pub open spec fn distinct_urls(rows: Seq<MudData>) -> bool {
    forall|i: int, j: int|
        0 <= i < j < rows.len() ==> (#[trigger] rows[i]).url@ != (#[trigger] rows[j]).url@
}

/// The position of the profile stored under `url`.
pub open spec fn url_index(rows: Seq<MudData>, url: Seq<char>) -> int
    recommends
        has_url(rows, url),
{
    choose|k: int| 0 <= k < rows.len() && (#[trigger] rows[k]).url@ == url
}

/// The profile under `url` that is still valid at `now`: its expiration lies
/// after `now`.
pub open spec fn fresh_entry(rows: Seq<MudData>, url: Seq<char>, now: i64) -> Option<MudData> {
    if has_url(rows, url) && rows[url_index(rows, url)].expiration > now {
        Some(rows[url_index(rows, url)])
    } else {
        None
    }
}

/// `fetched` with the overrides of the profile that `rows` holds under its
/// URL, if any: a fetch never replaces local overrides.
pub open spec fn keeping_overrides(rows: Seq<MudData>, fetched: MudData) -> MudData {
    if has_url(rows, fetched.url@) {
        MudData { acl_override: rows[url_index(rows, fetched.url@)].acl_override, ..fetched }
    } else {
        fetched
    }
}

/// `rows` with `profile` stored under its URL: in place of the one there, or
/// after all others.
pub open spec fn upserted(rows: Seq<MudData>, profile: MudData) -> Seq<MudData> {
    if has_url(rows, profile.url@) {
        rows.update(url_index(rows, profile.url@), profile)
    } else {
        rows.push(profile)
    }
}

/// The cached usage profiles, one for each URL, in the order they were first
/// stored.
pub struct ProfileCache {
    rows: Vec<MudData>,
}

impl View for ProfileCache {
    type V = Seq<MudData>;

    closed spec fn view(&self) -> Seq<MudData> {
        self.rows@
    }
}

proof fn lemma_unique_url_index(rows: Seq<MudData>, k: int)
    requires
        distinct_urls(rows),
        0 <= k < rows.len(),
    ensures
        has_url(rows, rows[k].url@),
        url_index(rows, rows[k].url@) == k,
{
    assert(rows[k].url@ == rows[k].url@);
}

proof fn lemma_upsert_keeps_distinct(rows: Seq<MudData>, profile: MudData)
    requires
        distinct_urls(rows),
    ensures
        distinct_urls(upserted(rows, profile)),
        has_url(upserted(rows, profile), profile.url@),
        upserted(rows, profile)[url_index(upserted(rows, profile), profile.url@)] == profile,
{
    let r = upserted(rows, profile);
    if has_url(rows, profile.url@) {
        let k = url_index(rows, profile.url@);
        assert forall|i: int, j: int| 0 <= i < j < r.len() implies (#[trigger] r[i]).url@ != (
        #[trigger] r[j]).url@ by {
            if i == k {
                assert(rows[j].url@ != rows[k].url@);
            } else if j == k {
                assert(rows[i].url@ != rows[k].url@);
            }
        }
        lemma_unique_url_index(r, k);
    } else {
        assert forall|i: int, j: int| 0 <= i < j < r.len() implies (#[trigger] r[i]).url@ != (
        #[trigger] r[j]).url@ by {
            if j == rows.len() {
                assert(rows[i] == r[i]);
            }
        }
        lemma_unique_url_index(r, rows.len() as int);
    }
}

impl ProfileCache {
    /// No two cached profiles share a URL.
    pub open spec fn wf(&self) -> bool {
        distinct_urls(self@)
    }

    /// An empty cache.
    pub fn new() -> (r: ProfileCache)
        ensures
            r.wf(),
            r@.len() == 0,
    {
        ProfileCache { rows: Vec::new() }
    }

    fn find(&self, url: &String) -> (r: Option<usize>)
        requires
            self.wf(),
        ensures
            r matches Some(k) ==> k < self@.len() && has_url(self@, url@) && url_index(self@, url@)
                == k,
            r is None ==> !has_url(self@, url@),
    {
        let mut k: usize = 0;
        while k < self.rows.len()
            invariant
                self.wf(),
                0 <= k <= self.rows@.len(),
                forall|j: int| 0 <= j < k ==> (#[trigger] self.rows@[j]).url@ != url@,
            decreases self.rows@.len() - k,
        {
            if self.rows[k].url == *url {
                proof {
                    lemma_unique_url_index(self.rows@, k as int);
                }
                return Some(k);
            }
            k += 1;
        }
        None
    }

    /// The profile cached under `url` if it is still valid at `now`; none
    /// where it is missing or expired, and it must be fetched.
    pub fn get_fresh(&self, url: &String, now: i64) -> (r: Option<&MudData>)
        requires
            self.wf(),
        ensures
            r matches Some(p) ==> fresh_entry(self@, url@, now) == Some(*p),
            r is None ==> fresh_entry(self@, url@, now) is None,
    {
        match self.find(url) {
            Some(k) => {
                if self.rows[k].expiration > now {
                    Some(&self.rows[k])
                } else {
                    None
                }
            },
            None => None,
        }
    }

    /// The profile cached under `url` if it is still valid now, by the
    /// system clock.
    pub fn get_fresh_now(&self, url: &String) -> (r: Option<&MudData>)
        requires
            self.wf(),
        ensures
            exists|now: i64|
                (r matches Some(p) ==> fresh_entry(self@, url@, now) == Some(*p)) && (r is None
                    ==> fresh_entry(self@, url@, now) is None),
    {
        let now = now_timestamp();
        self.get_fresh(url, now)
    }

    /// Stores a freshly fetched profile under its URL, in place of the one
    /// there, whose overrides it keeps.
    pub fn store_fetched(&mut self, fetched: MudData)
        requires
            old(self).wf(),
        ensures
            final(self).wf(),
            final(self)@ == upserted(old(self)@, keeping_overrides(old(self)@, fetched)),
    {
        let ghost rows = self.rows@;
        match self.find(&fetched.url) {
            Some(k) => {
                let old_row = self.rows.remove(k);
                let profile = MudData { acl_override: old_row.acl_override, ..fetched };
                self.rows.insert(k, profile);
                assert(self.rows@ =~= rows.update(k as int, profile));
            },
            None => {
                self.rows.push(fetched);
            },
        }
        proof {
            lemma_upsert_keeps_distinct(rows, keeping_overrides(rows, fetched));
        }
    }

    /// Completes the resolution of `url` with what the fetch gave: a profile is
    /// stored (keeping the overrides cached under its URL) and returned; an
    /// error leaves the cache as it was and is returned.
    pub fn finish_fetch(&mut self, outcome: Result<MudData, ProfileError>) -> (r: Result<
        (),
        ProfileError,
    >)
        requires
            old(self).wf(),
        ensures
            final(self).wf(),
            outcome matches Ok(fetched) ==> r is Ok && final(self)@ == upserted(
                old(self)@,
                keeping_overrides(old(self)@, fetched),
            ),
            outcome matches Err(e) ==> r == Err::<(), ProfileError>(e)
                && final(self)@ == old(self)@,
    {
        match outcome {
            Ok(fetched) => {
                self.store_fetched(fetched);
                Ok(())
            },
            Err(e) => Err(e),
        }
    }

    /// Stores a new profile; refused where one is stored under its URL.
    pub fn insert_new(&mut self, profile: MudData) -> (r: Result<(), ProfileError>)
        requires
            old(self).wf(),
        ensures
            final(self).wf(),
            has_url(old(self)@, profile.url@) ==> r == Err::<(), ProfileError>(
                ProfileError::AlreadyExists,
            ) && final(self)@ == old(self)@,
            !has_url(old(self)@, profile.url@) ==> r is Ok
                && final(self)@ == old(self)@.push(profile),
    {
        match self.find(&profile.url) {
            Some(_) => Err(ProfileError::AlreadyExists),
            None => {
                let ghost rows = self.rows@;
                self.rows.push(profile);
                proof {
                    lemma_upsert_keeps_distinct(rows, profile);
                }
                Ok(())
            },
        }
    }

    /// Decides how a profile is created under `url`: refused where one is
    /// stored already, fetched where `url` is a web address, else authored
    /// locally.
    pub fn plan_creation(&self, url: &String) -> (r: Result<bool, ProfileError>)
        requires
            self.wf(),
        ensures
            has_url(self@, url@) ==> r == Err::<bool, ProfileError>(ProfileError::AlreadyExists),
            !has_url(self@, url@) ==> r == Ok::<bool, ProfileError>(
                regex_match_of(URL_PATTERN@, url@) == Some(true),
            ),
    {
        match self.find(url) {
            Some(_) => Err(ProfileError::AlreadyExists),
            None => Ok(is_url(url.as_str())),
        }
    }

    /// Replaces the overrides of the profile under `url`, leaving its own
    /// lists and all else as they are; false where no profile is stored there.
    pub fn upsert_override(&mut self, url: &String, overrides: Vec<Acl>) -> (r: bool)
        requires
            old(self).wf(),
        ensures
            final(self).wf(),
            r == has_url(old(self)@, url@),
            r ==> final(self)@ == old(self)@.update(
                url_index(old(self)@, url@),
                MudData { acl_override: overrides, ..old(self)@[url_index(old(self)@, url@)] },
            ),
            !r ==> final(self)@ == old(self)@,
    {
        match self.find(url) {
            Some(k) => {
                let ghost rows = self.rows@;
                let old_row = self.rows.remove(k);
                let profile = MudData { acl_override: overrides, ..old_row };
                self.rows.insert(k, profile);
                assert(self.rows@ =~= rows.update(k as int, profile));
                proof {
                    assert forall|i: int, j: int| 0 <= i < j < self.rows@.len() implies (
                    #[trigger] self.rows@[i]).url@ != (#[trigger] self.rows@[j]).url@ by {
                        assert(rows[i].url@ != rows[j].url@);
                    }
                }
                true
            },
            None => false,
        }
    }

    /// The URL and expiration of each cached profile, in order.
    pub fn list_expirations(&self) -> (r: Vec<(String, i64)>)
        ensures
            r@.len() == self@.len(),
            forall|k: int|
                0 <= k < r@.len() ==> (#[trigger] r@[k]).0@ == self@[k].url@ && r@[k].1
                    == self@[k].expiration,
    {
        let mut r: Vec<(String, i64)> = Vec::new();
        let mut k: usize = 0;
        while k < self.rows.len()
            invariant
                0 <= k <= self.rows@.len(),
                r@.len() == k,
                forall|j: int|
                    0 <= j < k ==> (#[trigger] r@[j]).0@ == self.rows@[j].url@ && r@[j].1
                        == self.rows@[j].expiration,
            decreases self.rows@.len() - k,
        {
            r.push((self.rows[k].url.clone(), self.rows[k].expiration));
            k += 1;
        }
        r
    }

    /// The URLs of the cached profiles that expired before `now`, in order:
    /// those that the refresh sweep fetches again.
    pub fn expired_urls(&self, now: i64) -> (r: Vec<String>)
        ensures
            r@.map_values(|u: String| u@) == self@.filter(|p: MudData| p.expiration < now)
                .map_values(|p: MudData| p.url@),
    {
        let ghost expired = |p: MudData| p.expiration < now;
        let ghost url_of = |p: MudData| p.url@;
        let mut r: Vec<String> = Vec::new();
        let mut k: usize = 0;
        while k < self.rows.len()
            invariant
                0 <= k <= self.rows@.len(),
                expired == (|p: MudData| p.expiration < now),
                url_of == (|p: MudData| p.url@),
                r@.map_values(|u: String| u@) == self.rows@.subrange(0, k as int).filter(
                    expired,
                ).map_values(url_of),
            decreases self.rows@.len() - k,
        {
            let ghost prefix = self.rows@.subrange(0, k as int);
            proof {
                prefix.lemma_filter_push(self.rows@[k as int], expired);
                assert(prefix.push(self.rows@[k as int]) =~= self.rows@.subrange(0, k as int + 1));
            }
            let ghost before = r@;
            if self.rows[k].expiration < now {
                r.push(self.rows[k].url.clone());
                assert(r@.map_values(|u: String| u@) =~= before.map_values(|u: String| u@).push(
                    self.rows@[k as int].url@,
                ));
                assert(prefix.filter(expired).push(self.rows@[k as int]).map_values(url_of)
                    =~= prefix.filter(expired).map_values(url_of).push(self.rows@[k as int].url@));
            }
            k += 1;
        }
        assert(self.rows@.subrange(0, self.rows@.len() as int) =~= self.rows@);
        r
    }
}

/// `rows` after the outcomes of a refresh sweep, taken in order: each fetched
/// profile stored as a fetch stores it, each failure passed over.
pub open spec fn refreshed(rows: Seq<MudData>, outcomes: Seq<Result<MudData, ProfileError>>) -> Seq<
    MudData,
>
    decreases outcomes.len(),
{
    if outcomes.len() == 0 {
        rows
    } else {
        let before = refreshed(rows, outcomes.drop_last());
        match outcomes.last() {
            Ok(fetched) => upserted(before, keeping_overrides(before, fetched)),
            Err(_) => before,
        }
    }
}

/// The failures among `outcomes`, in order.
pub open spec fn failures(outcomes: Seq<Result<MudData, ProfileError>>) -> Seq<ProfileError>
    decreases outcomes.len(),
{
    if outcomes.len() == 0 {
        Seq::empty()
    } else {
        match outcomes.last() {
            Ok(_) => failures(outcomes.drop_last()),
            Err(e) => failures(outcomes.drop_last()).push(e),
        }
    }
}

impl ProfileCache {
    /// Applies the outcomes of a refresh sweep in order: every fetched profile
    /// is stored, keeping its overrides, and a failure costs only its own URL.
    /// Returns the failures.
    pub fn apply_refresh(&mut self, outcomes: Vec<Result<MudData, ProfileError>>) -> (r: Vec<
        ProfileError,
    >)
        requires
            old(self).wf(),
        ensures
            final(self).wf(),
            final(self)@ == refreshed(old(self)@, outcomes@),
            r@ == failures(outcomes@),
    {
        let ghost start = self@;
        let ghost all = outcomes@;
        let total = outcomes.len();
        let mut errors: Vec<ProfileError> = Vec::new();
        let mut done: usize = 0;
        let mut rest = outcomes;
        while rest.len() > 0
            invariant
                self.wf(),
                all.len() == total,
                done + rest@.len() == all.len(),
                rest@ == all.subrange(done as int, all.len() as int),
                self@ == refreshed(start, all.subrange(0, done as int)),
                errors@ == failures(all.subrange(0, done as int)),
            decreases rest@.len(),
        {
            let outcome = rest.remove(0);
            proof {
                let taken = all.subrange(0, done as int + 1);
                assert(taken.drop_last() =~= all.subrange(0, done as int));
                assert(outcome == all[done as int]);
                assert(taken.last() == all[done as int]);
            }
            match outcome {
                Ok(fetched) => {
                    self.store_fetched(fetched);
                },
                Err(e) => {
                    errors.push(e);
                },
            }
            done += 1;
            assert(rest@ =~= all.subrange(done as int, all.len() as int));
        }
        assert(all.subrange(0, all.len() as int) =~= all);
        errors
    }
}

/// A profile stored at one time with an expiration after a later time is
/// served from the cache at that later time: no second fetch, and the
/// content stored, with the overrides kept.
pub proof fn cache_freshness(rows: Seq<MudData>, fetched: MudData, later: i64)
    requires
        distinct_urls(rows),
        fetched.expiration > later,
    ensures
        fresh_entry(
            upserted(rows, keeping_overrides(rows, fetched)),
            fetched.url@,
            later,
        ) == Some(keeping_overrides(rows, fetched)),
{
    let kept = keeping_overrides(rows, fetched);
    assert(kept.url@ == fetched.url@);
    lemma_upsert_keeps_distinct(rows, kept);
}

} // verus!
