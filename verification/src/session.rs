//! One run against the schedule service: what is served from the cache,
//! what has to be fetched, and what a fetched answer changes.
//!
//! The session never talks to the service itself. Where the cache cannot
//! answer, a lookup hands back the address to fetch; the caller fetches it
//! and hands the answer to the matching `*_fetched` method.

use vstd::prelude::*;
use crate::cache::{cache_key, lemma_cache_key_injective, Cache, CacheView};
use crate::clock::{local_date, Date, DateView};
use crate::error::WsfError;
use crate::model::{answers_search, copy_terminals, find_by_prefix};
use crate::model::{Schedule, Terminal, TerminalCombo, TerminalComboView, TerminalView};
use crate::request::{request_url, schedule_path, schedule_url, terminals_path, terminals_url};

verus! {

/// The outcome of a lookup: the answer from the cache, or the address at
/// which the service has to be asked.
#[derive(Debug, PartialEq, Eq)]
pub enum Lookup<T> {
    Cached(T),
    Fetch(String),
}

/// A session as plain values.
pub ghost struct SessionView {
    pub api_key: Seq<char>,
    pub cache: CacheView,
    /// The flush date that the service gave at the start; none where it
    /// could not be reached.
    pub observed: Option<Seq<char>>,
    pub cache_path: Seq<char>,
}

impl SessionView {
    /// The session at the start of a run: the loaded cache, or an empty
    /// one where none could be loaded, and the flush date that was observed.
    pub open spec fn bootstrap(
        api_key: Seq<char>,
        cache_path: Seq<char>,
        loaded: Option<CacheView>,
        observed: Option<Seq<char>>,
    ) -> SessionView {
        SessionView {
            api_key,
            cache: match loaded {
                Some(cache) => cache,
                None => CacheView::empty(),
            },
            observed,
            cache_path,
        }
    }

    /// Whether the service could not be reached at the start.
    pub open spec fn offline(self) -> bool {
        self.observed is None
    }

    /// The flush date observed at the start; empty where there is none.
    pub open spec fn flush_date(self) -> Seq<char> {
        match self.observed {
            Some(date) => date,
            None => Seq::empty(),
        }
    }

    /// Whether the cache is served as it is: offline, or under the flush
    /// date that the service still has.
    pub open spec fn trusts_cache(self) -> bool {
        match self.observed {
            Some(date) => self.cache.cache_flush_date == date,
            None => true,
        }
    }

    /// The terminals that are served without asking the service.
    pub open spec fn cached_terminals(self) -> Option<Seq<TerminalView>> {
        if self.trusts_cache() {
            Some(self.cache.terminals)
        } else {
            None
        }
    }

    /// The session after the service has listed `terminals`.
    pub open spec fn with_terminals(self, terminals: Seq<TerminalView>) -> SessionView {
        SessionView { cache: CacheView { terminals, ..self.cache }, ..self }
    }

    /// The schedule that is served without asking the service.
    pub open spec fn cached_schedule(self, from: int, to: int) -> Option<TerminalComboView> {
        if self.trusts_cache() && self.cache.sailings.dom().contains(cache_key(from, to)) {
            Some(self.cache.sailings[cache_key(from, to)])
        } else {
            None
        }
    }

    /// The session as it asks the service for a schedule: where the cache
    /// is not trusted, every stored schedule is forgotten first.
    pub open spec fn before_fetch(self) -> SessionView {
        if self.trusts_cache() {
            self
        } else {
            SessionView { cache: CacheView { sailings: Map::empty(), ..self.cache }, ..self }
        }
    }

    /// The session after the service has given `combo` for a pair of terminals.
    pub open spec fn with_schedule(self, from: int, to: int, combo: TerminalComboView) -> SessionView {
        SessionView {
            cache: CacheView {
                sailings: self.cache.sailings.insert(cache_key(from, to), combo),
                ..self.cache
            },
            ..self
        }
    }

    /// The session as its cache is written out: the cache carries the
    /// flush date observed at the start.
    pub open spec fn saved(self) -> SessionView {
        SessionView { cache: CacheView { cache_flush_date: self.flush_date(), ..self.cache }, ..self }
    }
}

/// One run: the access code, the cache, and what the service said of its
/// flush date at the start.
#[derive(Debug)]
pub struct Session {
    api_key: String,
    cache: Cache,
    observed: Option<String>,
    cache_path: String,
}

impl View for Session {
    type V = SessionView;

    closed spec fn view(&self) -> SessionView {
        SessionView {
            api_key: self.api_key@,
            cache: self.cache@,
            observed: match self.observed {
                Some(date) => Some(date@),
                None => None,
            },
            cache_path: self.cache_path@,
        }
    }
}

impl Session {
    /// Starts a run. `loaded` is the cache as it was read from `cache_path`,
    /// none where it could not be read; `observed` is the flush date that
    /// the service gave, none where it could not be asked.
    pub fn new(
        api_key: &str,
        cache_path: &str,
        loaded: Option<Cache>,
        observed: Option<String>,
    ) -> (s: Session)
        ensures
            s@ == SessionView::bootstrap(
                api_key@,
                cache_path@,
                match loaded {
                    Some(cache) => Some(cache@),
                    None => None,
                },
                match observed {
                    Some(date) => Some(date@),
                    None => None,
                },
            ),
    {
        let cache: Cache = match loaded {
            Some(cache) => cache,
            None => Cache::empty(),
        };
        Session { api_key: api_key.to_owned(), cache, observed, cache_path: cache_path.to_owned() }
    }

    /// Whether the service could not be reached at the start.
    pub fn offline(&self) -> (r: bool)
        ensures
            r == self@.offline(),
    {
        self.observed.is_none()
    }

    /// Whether the cache is served as it is.
    pub fn trusts_cache(&self) -> (r: bool)
        ensures
            r == self@.trusts_cache(),
    {
        match &self.observed {
            Some(date) => self.cache.has_flush_date(date),
            None => true,
        }
    }

    /// The cache as it stands.
    pub fn cache(&self) -> (r: &Cache)
        ensures
            r@ == self@.cache,
    {
        &self.cache
    }

    /// Where the cache is kept.
    pub fn cache_path(&self) -> (r: &str)
        ensures
            r@ == self@.cache_path,
    {
        self.cache_path.as_str()
    }

    /// The terminals, for a request made on `day`.
    pub fn terminals_on(&self, day: &Date) -> (r: Lookup<Vec<Terminal>>)
        ensures
            match r {
                Lookup::Cached(list) => self@.cached_terminals() == Some(list.deep_view()),
                Lookup::Fetch(url) => self@.cached_terminals() is None && url@ == request_url(
                    self@.api_key,
                    terminals_path(day@),
                ),
            },
    {
        if self.trusts_cache() {
            Lookup::Cached(copy_terminals(self.cache.terminals()))
        } else {
            Lookup::Fetch(terminals_url(self.api_key.as_str(), day))
        }
    }

    /// The terminals: the cached list where the cache is trusted, else the
    /// address that lists them for today.
    pub fn terminals(&self) -> (r: Lookup<Vec<Terminal>>)
        ensures
            match r {
                Lookup::Cached(list) => self@.cached_terminals() == Some(list.deep_view()),
                Lookup::Fetch(url) => self@.cached_terminals() is None && exists|day: DateView|
                    day.in_calendar() && url@ == request_url(
                        self@.api_key,
                        #[trigger] terminals_path(day),
                    ),
            },
    {
        if self.trusts_cache() {
            Lookup::Cached(copy_terminals(self.cache.terminals()))
        } else {
            let day: Date = local_date();
            self.terminals_on(&day)
        }
    }

    /// Takes the list of terminals that the service gave: it replaces the
    /// cached list as a whole, and is handed back.
    pub fn terminals_fetched(&mut self, routes: Vec<Terminal>) -> (r: Vec<Terminal>)
        ensures
            final(self)@ == old(self)@.with_terminals(routes.deep_view()),
            r.deep_view() == routes.deep_view(),
    {
        self.cache.set_terminals(copy_terminals(&routes));
        routes
    }

    /// Finds the first terminal whose name starts with `term`, ASCII case
    /// ignored, among the cached terminals where the cache is trusted;
    /// else gives the address that lists the terminals for today.
    pub fn find_terminal(&self, term: &str) -> (r: Lookup<Result<Terminal, WsfError>>)
        ensures
            match r {
                Lookup::Cached(found) => self@.trusts_cache() && answers_search(
                    found,
                    self@.cache.terminals,
                    term@,
                ),
                Lookup::Fetch(url) => !self@.trusts_cache() && exists|day: DateView|
                    day.in_calendar() && url@ == request_url(
                        self@.api_key,
                        #[trigger] terminals_path(day),
                    ),
            },
    {
        match self.terminals() {
            Lookup::Cached(list) => Lookup::Cached(find_by_prefix(&list, term)),
            Lookup::Fetch(url) => Lookup::Fetch(url),
        }
    }

    /// Takes the list of terminals that the service gave, as
    /// `terminals_fetched` does, and finds in it the first terminal whose
    /// name starts with `term`, ASCII case ignored.
    pub fn find_terminal_fetched(&mut self, routes: Vec<Terminal>, term: &str) -> (r: Result<
        Terminal,
        WsfError,
    >)
        ensures
            final(self)@ == old(self)@.with_terminals(routes.deep_view()),
            answers_search(r, routes.deep_view(), term@),
    {
        let list: Vec<Terminal> = self.terminals_fetched(routes);
        find_by_prefix(&list, term)
    }

    /// Serves the schedule from the cache where that is trusted and holds
    /// it; else forgets every stored schedule unless the cache is trusted.
    fn serve_or_forget(&mut self, from: i32, to: i32) -> (r: Option<TerminalCombo>)
        ensures
            match r {
                Some(combo) => old(self)@.cached_schedule(from as int, to as int) == Some(combo@)
                    && final(self)@ == old(self)@,
                None => old(self)@.cached_schedule(from as int, to as int) is None
                    && final(self)@ == old(self)@.before_fetch(),
            },
    {
        let trusted: bool = self.trusts_cache();
        if trusted {
            let key: String = Cache::key(from, to);
            match self.cache.sailing(key.as_str()) {
                Some(combo) => {
                    return Some(combo.clone());
                },
                None => {},
            }
        } else {
            self.cache.clear_sailings();
        }
        None
    }

    /// The schedule from one terminal to another, for a request made on `day`.
    pub fn schedule_on(&mut self, day: &Date, from: i32, to: i32) -> (r: Lookup<TerminalCombo>)
        ensures
            match r {
                Lookup::Cached(combo) => old(self)@.cached_schedule(from as int, to as int)
                    == Some(combo@) && final(self)@ == old(self)@,
                Lookup::Fetch(url) => old(self)@.cached_schedule(from as int, to as int) is None
                    && final(self)@ == old(self)@.before_fetch() && url@ == request_url(
                    old(self)@.api_key,
                    schedule_path(day@, from as int, to as int),
                ),
            },
    {
        match self.serve_or_forget(from, to) {
            Some(combo) => Lookup::Cached(combo),
            None => Lookup::Fetch(schedule_url(self.api_key.as_str(), day, from, to)),
        }
    }

    /// The schedule from one terminal to another. Where the cache is
    /// trusted and holds the pair, the stored schedule is served and
    /// nothing changes. Else the address of today's schedule is given, and
    /// unless the cache is trusted every stored schedule is forgotten.
    pub fn schedule(&mut self, from: i32, to: i32) -> (r: Lookup<TerminalCombo>)
        ensures
            match r {
                Lookup::Cached(combo) => old(self)@.cached_schedule(from as int, to as int)
                    == Some(combo@) && final(self)@ == old(self)@,
                Lookup::Fetch(url) => old(self)@.cached_schedule(from as int, to as int) is None
                    && final(self)@ == old(self)@.before_fetch() && exists|day: DateView|
                    day.in_calendar() && url@ == request_url(
                        old(self)@.api_key,
                        #[trigger] schedule_path(day, from as int, to as int),
                    ),
            },
    {
        match self.serve_or_forget(from, to) {
            Some(combo) => Lookup::Cached(combo),
            None => {
                let day: Date = local_date();
                Lookup::Fetch(schedule_url(self.api_key.as_str(), &day, from, to))
            },
        }
    }

    /// Takes the schedule that the service gave for a pair of terminals:
    /// its first combo is stored under the pair's key and handed back.
    pub fn schedule_fetched(&mut self, from: i32, to: i32, schedule: &Schedule) -> (r:
        TerminalCombo)
        requires
            schedule@.combos.len() > 0,
        ensures
            r@ == schedule@.combos[0],
            final(self)@ == old(self)@.with_schedule(from as int, to as int, schedule@.combos[0]),
    {
        let combo: TerminalCombo = schedule.TerminalCombos[0].clone();
        self.cache.insert_sailing(Cache::key(from, to), schedule.TerminalCombos[0].clone());
        combo
    }

    /// Marks the cache with the flush date observed at the start, ready
    /// to be written out.
    pub fn save_cache(&mut self)
        ensures
            final(self)@ == old(self)@.saved(),
    {
        let date: String = match &self.observed {
            Some(date) => date.clone(),
            None => String::new(),
        };
        self.cache.set_flush_date(date);
    }
}

/// Where the service still has the flush date of the cache, a schedule
/// that the cache holds is served from it: `schedule` gives it as `Cached`,
/// changes nothing and names no address to fetch.
pub proof fn lemma_fresh_hit_is_served(s: SessionView, from: int, to: int)
    requires
        s.observed == Some(s.cache.cache_flush_date),
        s.cache.sailings.dom().contains(cache_key(from, to)),
    ensures
        s.cached_schedule(from, to) == Some(s.cache.sailings[cache_key(from, to)]),
{
}

/// Where the service has another flush date than the cache, no schedule is
/// served from the cache, and once the fetched schedule is taken the cache
/// holds that schedule and no other.
pub proof fn lemma_stale_fetch_keeps_one_schedule(
    s: SessionView,
    from: int,
    to: int,
    combo: TerminalComboView,
)
    requires
        s.observed matches Some(date) && date != s.cache.cache_flush_date,
    ensures
        s.cached_schedule(from, to) is None,
        s.before_fetch().cache.sailings == Map::<Seq<char>, TerminalComboView>::empty(),
        s.before_fetch().with_schedule(from, to, combo).cache.sailings == Map::<
            Seq<char>,
            TerminalComboView,
        >::empty().insert(cache_key(from, to), combo),
{
}

/// A session that could not reach the service at its start is offline and
/// serves the terminals that were loaded, or none where nothing was loaded.
pub proof fn lemma_offline_serves_loaded_terminals(
    api_key: Seq<char>,
    cache_path: Seq<char>,
    loaded: Option<CacheView>,
)
    ensures
        SessionView::bootstrap(api_key, cache_path, loaded, None).offline(),
        SessionView::bootstrap(api_key, cache_path, loaded, None).cached_terminals() == Some(
            match loaded {
                Some(cache) => cache.terminals,
                None => Seq::empty(),
            },
        ),
{
}

/// Taking the schedule of one pair of terminals changes what is served for
/// no other pair; the same two terminals the other way round are another pair.
pub proof fn lemma_other_pair_is_untouched(
    s: SessionView,
    from: int,
    to: int,
    other_from: int,
    other_to: int,
    combo: TerminalComboView,
)
    requires
        from != other_from || to != other_to,
    ensures
        cache_key(from, to) != cache_key(other_from, other_to),
        s.with_schedule(from, to, combo).cached_schedule(other_from, other_to)
            == s.cached_schedule(other_from, other_to),
{
    lemma_cache_key_injective(from, to, other_from, other_to);
}

} // verus!
