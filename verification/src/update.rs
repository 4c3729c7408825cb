//! An update of the runtime configuration: the proxies of all subscriptions in one pool.

use crate::config::{self, AppConfig, Subscription};
use crate::error::{Fault, Problem, SubscriptionError};
use crate::filter::{self, compile_patterns, matches_filter};
use crate::number;
use crate::order::{self, place};
use crate::runtime::{self, build_runtime_config};
use crate::subscription::{self, parse_subscription, proxy_name, read_proxy_items};
use crate::text::{self, to_chars, to_text};
use crate::yaml::{self, Yaml, YamlTree};
use vstd::prelude::*;

verus! {

// ---------------------------------------------------------------------------
// Downloads
// ---------------------------------------------------------------------------

/// The complaint about a download that the server did not answer with success.
pub open spec fn download_complaint(name: Seq<char>, status: Seq<char>) -> Seq<char> {
    "subscription "@ + name + " returned HTTP "@ + status
}

/// Accepts a download by the code of its status, or says what the server answered.
pub fn check_download(name: &str, code: u16, status: &str) -> (accepted: Result<(), String>)
    ensures
        match accepted {
            Ok(_) => code == 200,
            Err(complaint) => code != 200 && complaint@ == download_complaint(name@, status@),
        },
{
    if code == 200 {
        return Ok(());
    }
    let mut complaint: String = "subscription ".to_string();
    complaint.append(name);
    complaint.append(" returned HTTP ");
    complaint.append(status);
    Err(complaint)
}

/// Whether a character is kept in a file name.
pub open spec fn plain_char(c: char) -> bool {
    'a' <= c <= 'z' || 'A' <= c <= 'Z' || '0' <= c <= '9' || c == '-' || c == '_'
}

/// A name with every character that is not kept in a file name replaced.
pub open spec fn sanitized(name: Seq<char>) -> Seq<char> {
    name.map_values(
        |c: char|
            if plain_char(c) {
                c
            } else {
                '_'
            },
    )
}

/// A name that can be used as a file name.
pub fn sanitize_name(name: &str) -> (plain: String)
    ensures
        plain@ == sanitized(name@),
{
    let chars: Vec<char> = to_chars(name);
    let mut kept: Vec<char> = Vec::new();
    for i in 0..chars.len()
        invariant
            kept@ == sanitized(chars@.take(i as int)),
    {
        let c: char = chars[i];
        let plain: bool = ('a' <= c && c <= 'z') || ('A' <= c && c <= 'Z') || ('0' <= c && c
            <= '9') || c == '-' || c == '_';
        kept.push(
            if plain {
                c
            } else {
                '_'
            },
        );
        assert(kept@ =~= sanitized(chars@.take(i + 1)));
    }
    assert(chars@.take(chars@.len() as int) =~= chars@);
    to_text(kept.as_slice())
}

/// The name of the file in which the download of a subscription is kept.
pub fn cache_file(sub: &Subscription) -> (file: String)
    ensures
        file@ == sanitized(sub.name@) + ".yaml"@,
{
    let mut file: String = sanitize_name(sub.name.as_str());
    file.append(".yaml");
    file
}

/// The name of a cache file is as long as the name of the subscription, holds only
/// letters, digits, `-` and `_`, and is the name itself where that holds nothing else.
pub proof fn sanitized_plain(name: Seq<char>)
    ensures
        sanitized(name).len() == name.len(),
        forall|i: int| 0 <= i < name.len() ==> plain_char(#[trigger] sanitized(name)[i]),
        (forall|i: int| 0 <= i < name.len() ==> plain_char(#[trigger] name[i])) ==> sanitized(name)
            == name,
        sanitized(sanitized(name)) == sanitized(name),
{
    assert(sanitized(sanitized(name)) =~= sanitized(name));
    if forall|i: int| 0 <= i < name.len() ==> plain_char(#[trigger] name[i]) {
        assert(sanitized(name) =~= name);
    }
}

/// The downloads of numbered subscriptions are kept in different files.
pub proof fn numbered_cache_files_differ(
    subscriptions: Seq<Subscription>,
    urls: Seq<Seq<char>>,
    i: int,
    j: int,
)
    requires
        config::numbered(subscriptions, urls),
        0 <= i < j < subscriptions.len(),
    ensures
        sanitized(subscriptions[i].name@) + ".yaml"@ != sanitized(subscriptions[j].name@)
            + ".yaml"@,
{
    config::numbered_names_differ(subscriptions, urls, i, j);
    lemma_numbered_name_plain(subscriptions[i].name@, (i + 1) as nat);
    lemma_numbered_name_plain(subscriptions[j].name@, (j + 1) as nat);
    let a = subscriptions[i].name@;
    let b = subscriptions[j].name@;
    if a + ".yaml"@ == b + ".yaml"@ {
        assert(a.len() == (a + ".yaml"@).len() - ".yaml"@.len());
        assert(b.len() == (b + ".yaml"@).len() - ".yaml"@.len());
        assert((a + ".yaml"@).take(a.len() as int) =~= a);
        assert((b + ".yaml"@).take(b.len() as int) =~= b);
    }
}

proof fn lemma_numbered_name_plain(name: Seq<char>, n: nat)
    requires
        name == "sub-"@ + number::decimal(n),
    ensures
        sanitized(name) == name,
{
    reveal_strlit("sub-");
    number::lemma_decimal_digits(n);
    assert forall|i: int| 0 <= i < name.len() implies plain_char(#[trigger] name[i]) by {
        if i >= 4 {
            assert(name[i] == number::decimal(n)[i - 4]);
            assert(number::is_digit(number::decimal(n)[i - 4]));
        }
    }
    sanitized_plain(name);
}

// ---------------------------------------------------------------------------
// The pool
// ---------------------------------------------------------------------------

/// What a pool holds: the proxies in the order in which they came, and their names in
/// order.
pub struct PoolState {
    pub proxies: Seq<YamlTree>,
    pub names: Seq<Seq<char>>,
}

/// The pool that holds nothing.
pub open spec fn empty_pool() -> PoolState {
    PoolState { proxies: Seq::empty(), names: Seq::empty() }
}

/// A pool after a proxy of the given name came: it stays, unless the filters drop it or a
/// proxy of that name is there.
pub open spec fn joined(
    pool: PoolState,
    proxy: YamlTree,
    name: Seq<char>,
    includes: Option<Seq<Seq<char>>>,
    excludes: Option<Seq<Seq<char>>>,
) -> PoolState {
    if filter::passes(name, includes, excludes) && !pool.names.contains(name) {
        PoolState {
            proxies: pool.proxies.push(proxy),
            names: order::placed(pool.names, name),
        }
    } else {
        pool
    }
}

/// A pool after the given proxies came, one after the other. There is none where one of
/// them has no name.
pub open spec fn pooled(
    pool: PoolState,
    items: Seq<YamlTree>,
    includes: Option<Seq<Seq<char>>>,
    excludes: Option<Seq<Seq<char>>>,
) -> Option<PoolState>
    decreases items.len(),
{
    if items.len() == 0 {
        Some(pool)
    } else {
        match pooled(pool, items.drop_last(), includes, excludes) {
            Some(sofar) => match subscription::name_of(items.last()) {
                Some(name) => Some(joined(sofar, items.last(), name, includes, excludes)),
                None => None,
            },
            None => None,
        }
    }
}

/// A pool after the proxies of a document came, by the filters of their subscription.
pub open spec fn extended_by(
    pool: PoolState,
    document: Result<YamlTree, Fault>,
    sub: Subscription,
) -> Result<PoolState, Fault> {
    let includes = text::texts(sub.includes@);
    let excludes = text::texts(sub.excludes@);
    match document {
        Err(fault) => Err(fault),
        Ok(tree) => match subscription::proxy_items(tree) {
            None => Err(Fault::Problem(Problem::MissingProxies)),
            Some(items) => if !filter::usable(includes) || !filter::usable(excludes) {
                Err(Fault::Pattern)
            } else {
                match pooled(
                    pool,
                    items,
                    filter::filter_of(includes),
                    filter::filter_of(excludes),
                ) {
                    Some(more) => Ok(more),
                    None => Err(Fault::Problem(Problem::MissingName)),
                }
            },
        },
    }
}

/// A pool after a subscription was downloaded.
pub open spec fn extended(pool: PoolState, body: Seq<char>, sub: Subscription) -> Result<
    PoolState,
    Fault,
> {
    extended_by(pool, subscription::subscription_document(body), sub)
}

/// The pool after all of the given downloads, each of the subscription at its place, or
/// what was wrong with the first that could not be used.
pub open spec fn merged(bodies: Seq<Seq<char>>, subs: Seq<Subscription>) -> Result<
    PoolState,
    Fault,
>
    decreases subs.len(),
{
    if subs.len() == 0 {
        Ok(empty_pool())
    } else {
        match merged(bodies.drop_last(), subs.drop_last()) {
            Ok(pool) => extended(pool, bodies.last(), subs.last()),
            Err(fault) => Err(fault),
        }
    }
}

/// The proxies that the subscriptions gave so far.
pub struct ProxyPool {
    proxies: Vec<Yaml>,
    names: Vec<String>,
}

impl View for ProxyPool {
    type V = PoolState;

    closed spec fn view(&self) -> PoolState {
        PoolState { proxies: yaml::trees(self.proxies@), names: text::texts(self.names@) }
    }
}

/// The outcome of an addition to a pool.
pub open spec fn pool_outcome(added: Result<ProxyPool, SubscriptionError>) -> Result<
    PoolState,
    Fault,
> {
    match added {
        Ok(pool) => Ok(pool@),
        Err(error) => Err(error@),
    }
}

impl ProxyPool {
    #[verifier::type_invariant]
    spec fn names_ascend(self) -> bool {
        order::ascending(text::texts(self.names@))
    }

    /// A pool without proxies.
    pub fn new() -> (pool: Self)
        ensures
            pool@ == empty_pool(),
    {
        let pool = ProxyPool { proxies: Vec::new(), names: Vec::new() };
        assert(pool@.proxies =~= Seq::<YamlTree>::empty());
        assert(pool@.names =~= Seq::<Seq<char>>::empty());
        pool
    }

    /// Adds proxies that the filters let pass and whose names are new.
    pub fn add_proxies(
        self,
        items: &Vec<Yaml>,
        includes: Option<&regex::RegexSet>,
        excludes: Option<&regex::RegexSet>,
    ) -> (added: Result<ProxyPool, Problem>)
        ensures
            match added {
                Ok(pool) => pooled(
                    self@,
                    yaml::trees(items@),
                    filter::optional_patterns(includes),
                    filter::optional_patterns(excludes),
                ) == Some(pool@),
                Err(problem) => problem == Problem::MissingName && pooled(
                    self@,
                    yaml::trees(items@),
                    filter::optional_patterns(includes),
                    filter::optional_patterns(excludes),
                ) is None,
            },
    {
        proof {
            use_type_invariant(&self);
        }
        let ghost start = self@;
        let ghost trees = yaml::trees(items@);
        let ghost keep = filter::optional_patterns(includes);
        let ghost drop = filter::optional_patterns(excludes);
        let mut proxies: Vec<Yaml> = self.proxies;
        let mut names: Vec<String> = self.names;
        assert(trees.take(0) =~= Seq::<YamlTree>::empty());
        for i in 0..items.len()
            invariant
                start == self@,
                trees == yaml::trees(items@),
                keep == filter::optional_patterns(includes),
                drop == filter::optional_patterns(excludes),
                order::ascending(text::texts(names@)),
                pooled(start, trees.take(i as int), keep, drop) == Some(
                    PoolState { proxies: yaml::trees(proxies@), names: text::texts(names@) },
                ),
        {
            let ghost sofar = PoolState {
                proxies: yaml::trees(proxies@),
                names: text::texts(names@),
            };
            proof {
                assert(trees.take(i + 1).drop_last() =~= trees.take(i as int));
                assert(trees.take(i + 1).last() == items@[i as int]@);
            }
            match proxy_name(&items[i]) {
                Ok(name) => {
                    if matches_filter(name.as_str(), includes, excludes) {
                        if place(&mut names, name) {
                            proxies.push(items[i].clone());
                            assert(yaml::trees(proxies@) =~= sofar.proxies.push(
                                items@[i as int]@,
                            ));
                        }
                    }
                },
                Err(problem) => {
                    proof {
                        lemma_pooled_none(start, trees, keep, drop, i + 1);
                    }
                    return Err(problem);
                },
            }
        }
        assert(trees.take(trees.len() as int) =~= trees);
        Ok(ProxyPool { proxies, names })
    }

    /// Adds the proxies of a document, by the filters of its subscription.
    pub fn add_document(self, document: &Yaml, sub: &Subscription) -> (added: Result<
        ProxyPool,
        SubscriptionError,
    >)
        ensures
            pool_outcome(added) == extended_by(self@, Ok::<YamlTree, Fault>(document@), *sub),
    {
        let items: Vec<Yaml> = match read_proxy_items(document) {
            Ok(items) => items,
            Err(problem) => {
                return Err(SubscriptionError::Problem(problem));
            },
        };
        let includes: Option<regex::RegexSet> = match compile_patterns(sub.includes.as_slice()) {
            Ok(includes) => includes,
            Err(error) => {
                return Err(error);
            },
        };
        let excludes: Option<regex::RegexSet> = match compile_patterns(sub.excludes.as_slice()) {
            Ok(excludes) => excludes,
            Err(error) => {
                return Err(error);
            },
        };
        match self.add_proxies(&items, includes.as_ref(), excludes.as_ref()) {
            Ok(pool) => Ok(pool),
            Err(problem) => Err(SubscriptionError::Problem(problem)),
        }
    }

    /// Adds the proxies of a subscription.
    pub fn add_subscription(self, body: &str, sub: &Subscription) -> (added: Result<
        ProxyPool,
        SubscriptionError,
    >)
        ensures
            pool_outcome(added) == extended(self@, body@, *sub),
    {
        match parse_subscription(body) {
            Ok(document) => self.add_document(&document, sub),
            Err(error) => Err(error),
        }
    }

    /// The runtime configuration of the pool. An empty pool has none.
    pub fn runtime_config(self, cfg: &AppConfig) -> (runtime: Result<Yaml, SubscriptionError>)
        ensures
            match runtime {
                Ok(document) => self@.proxies.len() > 0 && document@ == runtime::runtime_tree(
                    *cfg,
                    self@.proxies,
                    self@.names,
                ),
                Err(error) => self@.proxies.len() == 0 && error@ == Fault::Problem(
                    Problem::NoProxies,
                ),
            },
    {
        if self.proxies.len() == 0 {
            return Err(SubscriptionError::Problem(Problem::NoProxies));
        }
        build_runtime_config(cfg, self.proxies, self.names)
    }
}

proof fn lemma_pooled_none(
    pool: PoolState,
    items: Seq<YamlTree>,
    includes: Option<Seq<Seq<char>>>,
    excludes: Option<Seq<Seq<char>>>,
    end: int,
)
    requires
        0 <= end <= items.len(),
        pooled(pool, items.take(end), includes, excludes) is None,
    ensures
        pooled(pool, items, includes, excludes) is None,
    decreases items.len() - end,
{
    if end == items.len() {
        assert(items.take(end) =~= items);
    } else {
        assert(items.take(end + 1).drop_last() =~= items.take(end));
        lemma_pooled_none(pool, items, includes, excludes, end + 1);
    }
}

// ---------------------------------------------------------------------------
// Updating
// ---------------------------------------------------------------------------

/// An update for which a subscription is still to be downloaded.
pub struct Fetching {
    pool: ProxyPool,
    done: usize,
}

/// Where an update stands: what is done next.
pub enum UpdateStep {
    /// Download the next subscription.
    Fetch(Fetching),
    /// Write the runtime configuration.
    Write(Yaml),
}

/// An update as contracts speak of it.
pub enum Updating {
    Fetch { done: nat, pool: PoolState },
    Write { document: YamlTree },
    Failed { fault: Fault },
}

/// An update with the first subscriptions in the pool: the next is downloaded, and after
/// the last the runtime configuration is written, if there are proxies.
pub open spec fn settled(cfg: AppConfig, done: nat, pool: PoolState) -> Updating {
    if done < cfg.subscriptions@.len() {
        Updating::Fetch { done, pool }
    } else if pool.proxies.len() == 0 {
        Updating::Failed { fault: Fault::Problem(Problem::NoProxies) }
    } else {
        Updating::Write { document: runtime::runtime_tree(cfg, pool.proxies, pool.names) }
    }
}

/// An update after a subscription was downloaded.
pub open spec fn after_download(cfg: AppConfig, state: Updating, body: Seq<char>) -> Updating {
    match state {
        Updating::Fetch { done, pool } => if done < cfg.subscriptions@.len() {
            match extended(pool, body, cfg.subscriptions@[done as int]) {
                Ok(more) => settled(cfg, done + 1, more),
                Err(fault) => Updating::Failed { fault },
            }
        } else {
            settled(cfg, done, pool)
        },
        _ => state,
    }
}

/// An update after the given downloads.
pub open spec fn after_downloads(cfg: AppConfig, bodies: Seq<Seq<char>>) -> Updating
    decreases bodies.len(),
{
    if bodies.len() == 0 {
        settled(cfg, 0, empty_pool())
    } else {
        after_download(cfg, after_downloads(cfg, bodies.drop_last()), bodies.last())
    }
}

/// An update after a step that succeeded or failed.
pub open spec fn updating(next: Result<UpdateStep, SubscriptionError>) -> Updating {
    match next {
        Ok(UpdateStep::Fetch(fetching)) => fetching.state(),
        Ok(UpdateStep::Write(document)) => Updating::Write { document: document@ },
        Err(error) => Updating::Failed { fault: error@ },
    }
}

impl Fetching {
    pub closed spec fn state(self) -> Updating {
        Updating::Fetch { done: self.done as nat, pool: self.pool@ }
    }

    /// The subscription to download.
    pub fn subscription<'a>(&self, cfg: &'a AppConfig) -> (sub: Option<&'a Subscription>)
        ensures
            self.state() is Fetch,
            match sub {
                Some(sub) => self.state()->done < cfg.subscriptions@.len() && *sub
                    == cfg.subscriptions@[self.state()->done as int],
                None => self.state()->done >= cfg.subscriptions@.len(),
            },
    {
        if self.done < cfg.subscriptions.len() {
            Some(&cfg.subscriptions[self.done])
        } else {
            None
        }
    }

    /// Takes in the download of the subscription.
    pub fn downloaded(self, cfg: &AppConfig, body: &str) -> (next: Result<
        UpdateStep,
        SubscriptionError,
    >)
        ensures
            updating(next) == after_download(*cfg, self.state(), body@),
    {
        let done: usize = self.done;
        let pool: ProxyPool = self.pool;
        if done >= cfg.subscriptions.len() {
            return UpdateStep::settle(cfg, done, pool);
        }
        match pool.add_subscription(body, &cfg.subscriptions[done]) {
            Ok(more) => UpdateStep::settle(cfg, done + 1, more),
            Err(error) => Err(error),
        }
    }
}

/// An update for which a subscription is to be downloaded is nothing else.
pub proof fn fetching_state(fetching: Fetching)
    ensures
        fetching.state() is Fetch,
{
}

impl UpdateStep {
    fn settle(cfg: &AppConfig, done: usize, pool: ProxyPool) -> (next: Result<
        UpdateStep,
        SubscriptionError,
    >)
        ensures
            updating(next) == settled(*cfg, done as nat, pool@),
    {
        if done < cfg.subscriptions.len() {
            return Ok(UpdateStep::Fetch(Fetching { pool, done }));
        }
        match pool.runtime_config(cfg) {
            Ok(document) => Ok(UpdateStep::Write(document)),
            Err(error) => Err(error),
        }
    }

    /// The start of an update.
    pub fn first(cfg: &AppConfig) -> (next: Result<UpdateStep, SubscriptionError>)
        ensures
            updating(next) == after_downloads(*cfg, Seq::empty()),
    {
        UpdateStep::settle(cfg, 0, ProxyPool::new())
    }
}

/// An update takes in one download for each subscription, in their order, and ends with
/// the first that cannot be used. Else the runtime configuration holds the proxies of all.
pub proof fn update_course(cfg: AppConfig, bodies: Seq<Seq<char>>)
    requires
        bodies.len() <= cfg.subscriptions@.len(),
    ensures
        after_downloads(cfg, bodies) == match merged(
            bodies,
            cfg.subscriptions@.take(bodies.len() as int),
        ) {
            Ok(pool) => settled(cfg, bodies.len(), pool),
            Err(fault) => Updating::Failed { fault },
        },
    decreases bodies.len(),
{
    let subs = cfg.subscriptions@.take(bodies.len() as int);
    if bodies.len() > 0 {
        update_course(cfg, bodies.drop_last());
        assert(subs.drop_last() =~= cfg.subscriptions@.take(bodies.len() - 1));
        assert(subs.last() == cfg.subscriptions@[bodies.len() - 1]);
    }
}

// ---------------------------------------------------------------------------
// What holds of every pool
// ---------------------------------------------------------------------------

/// Whether a pool is in order: the names are those of the proxies, each but once.
pub open spec fn sound(pool: PoolState) -> bool {
    &&& order::ascending(pool.names)
    &&& pool.names.len() == pool.proxies.len()
    &&& forall|i: int|
        0 <= i < pool.proxies.len() ==> subscription::name_of(#[trigger] pool.proxies[i]) is Some
            && pool.names.contains(subscription::name_of(pool.proxies[i])->0)
    &&& forall|i: int, j: int|
        0 <= i < j < pool.proxies.len() ==> subscription::name_of(#[trigger] pool.proxies[i])
            != subscription::name_of(#[trigger] pool.proxies[j])
    &&& forall|name: Seq<char>| #[trigger]
        pool.names.contains(name) ==> exists|i: int|
            0 <= i < pool.proxies.len() && subscription::name_of(#[trigger] pool.proxies[i])
                == Some(name)
}

proof fn lemma_joined_sound(
    pool: PoolState,
    proxy: YamlTree,
    includes: Option<Seq<Seq<char>>>,
    excludes: Option<Seq<Seq<char>>>,
)
    requires
        sound(pool),
        subscription::name_of(proxy) is Some,
    ensures
        sound(joined(pool, proxy, subscription::name_of(proxy)->0, includes, excludes)),
{
    let name = subscription::name_of(proxy)->0;
    let more = joined(pool, proxy, name, includes, excludes);
    if filter::passes(name, includes, excludes) && !pool.names.contains(name) {
        order::placed_ascending(pool.names, name);
        assert forall|i: int| 0 <= i < more.proxies.len() implies subscription::name_of(
            #[trigger] more.proxies[i],
        ) is Some && more.names.contains(subscription::name_of(more.proxies[i])->0) by {
            if i < pool.proxies.len() {
                assert(more.proxies[i] == pool.proxies[i]);
            }
        }
        assert forall|i: int, j: int| 0 <= i < j < more.proxies.len() implies subscription::name_of(
            #[trigger] more.proxies[i],
        ) != subscription::name_of(#[trigger] more.proxies[j]) by {
            assert(more.proxies[i] == pool.proxies[i]);
            if j < pool.proxies.len() {
                assert(more.proxies[j] == pool.proxies[j]);
            }
        }
        assert forall|other: Seq<char>| #[trigger] more.names.contains(other) implies exists|i: int|
            0 <= i < more.proxies.len() && subscription::name_of(#[trigger] more.proxies[i])
                == Some(other) by {
            if other == name {
                assert(more.proxies[pool.proxies.len() as int] == proxy);
            } else {
                let i = choose|i: int|
                    0 <= i < pool.proxies.len() && subscription::name_of(
                        #[trigger] pool.proxies[i],
                    ) == Some(other);
                assert(more.proxies[i] == pool.proxies[i]);
            }
        }
    }
}

/// A pool in order still is after more proxies came, and the proxies that were there stay
/// where they were.
pub proof fn pooled_sound(
    pool: PoolState,
    items: Seq<YamlTree>,
    includes: Option<Seq<Seq<char>>>,
    excludes: Option<Seq<Seq<char>>>,
)
    requires
        sound(pool),
        pooled(pool, items, includes, excludes) is Some,
    ensures
        sound(pooled(pool, items, includes, excludes)->0),
        pool.proxies.is_prefix_of(pooled(pool, items, includes, excludes)->0.proxies),
    decreases items.len(),
{
    if items.len() > 0 {
        pooled_sound(pool, items.drop_last(), includes, excludes);
        let sofar = pooled(pool, items.drop_last(), includes, excludes)->0;
        lemma_joined_sound(sofar, items.last(), includes, excludes);
    }
}

/// Whether an item is the first of its name.
pub open spec fn first_of_name(items: Seq<YamlTree>, at: int) -> bool {
    &&& 0 <= at < items.len()
    &&& forall|i: int|
        0 <= i < at ==> subscription::name_of(#[trigger] items[i]) != subscription::name_of(items[at])
}

/// What comes into a pool are exactly the names that the filters let pass: a proxy that
/// came passes and is the first of its name, and a proxy that passes is there by its name.
pub proof fn pooled_filtered(
    pool: PoolState,
    items: Seq<YamlTree>,
    includes: Option<Seq<Seq<char>>>,
    excludes: Option<Seq<Seq<char>>>,
)
    requires
        sound(pool),
        pooled(pool, items, includes, excludes) is Some,
    ensures
        ({
            let more = pooled(pool, items, includes, excludes)->0;
            &&& pool.proxies.len() <= more.proxies.len()
            &&& forall|k: int|
                pool.proxies.len() <= k < more.proxies.len() ==> filter::passes(
                    subscription::name_of(#[trigger] more.proxies[k])->0,
                    includes,
                    excludes,
                ) && exists|at: int| #[trigger]
                    first_of_name(items, at) && items[at] == more.proxies[k]
            &&& forall|i: int|
                0 <= i < items.len() ==> subscription::name_of(#[trigger] items[i]) is Some && (
                more.names.contains(subscription::name_of(items[i])->0) <==> filter::passes(
                    subscription::name_of(items[i])->0,
                    includes,
                    excludes,
                ) || pool.names.contains(subscription::name_of(items[i])->0))
            &&& forall|name: Seq<char>| #[trigger]
                pool.names.contains(name) ==> more.names.contains(name)
        }),
    decreases items.len(),
{
    if items.len() > 0 {
        let fewer = items.drop_last();
        let last = items.last();
        pooled_filtered(pool, fewer, includes, excludes);
        pooled_sound(pool, fewer, includes, excludes);
        let sofar = pooled(pool, fewer, includes, excludes)->0;
        let more = pooled(pool, items, includes, excludes)->0;
        let name = subscription::name_of(last)->0;
        let end = fewer.len() as int;
        if filter::passes(name, includes, excludes) && !sofar.names.contains(name) {
            order::placed_ascending(sofar.names, name);
            assert forall|i: int| 0 <= i < end implies subscription::name_of(#[trigger] items[i])
                != subscription::name_of(last) by {
                assert(fewer[i] == items[i]);
            }
            assert(first_of_name(items, end));
        }
        assert forall|k: int| pool.proxies.len() <= k < more.proxies.len() implies filter::passes(
            subscription::name_of(#[trigger] more.proxies[k])->0,
            includes,
            excludes,
        ) && exists|at: int| #[trigger]
            first_of_name(items, at) && items[at] == more.proxies[k] by {
            if k < sofar.proxies.len() {
                assert(more.proxies[k] == sofar.proxies[k]);
                let at = choose|at: int| #[trigger]
                    first_of_name(fewer, at) && fewer[at] == sofar.proxies[k];
                assert(items[at] == fewer[at]);
                assert forall|i: int| 0 <= i < at implies subscription::name_of(#[trigger] items[i])
                    != subscription::name_of(items[at]) by {
                    assert(fewer[i] == items[i]);
                }
                assert(first_of_name(items, at));
            } else {
                assert(items[end] == more.proxies[k]);
            }
        }
        assert forall|i: int| 0 <= i < items.len() implies subscription::name_of(
            #[trigger] items[i],
        ) is Some && (more.names.contains(subscription::name_of(items[i])->0) <==> filter::passes(
            subscription::name_of(items[i])->0,
            includes,
            excludes,
        ) || pool.names.contains(subscription::name_of(items[i])->0)) by {
            if i < end {
                assert(fewer[i] == items[i]);
            } else if sofar.names.contains(name) {
                lemma_pooled_names(pool, fewer, includes, excludes, name);
            }
        }
    }
}

proof fn lemma_pooled_names(
    pool: PoolState,
    items: Seq<YamlTree>,
    includes: Option<Seq<Seq<char>>>,
    excludes: Option<Seq<Seq<char>>>,
    name: Seq<char>,
)
    requires
        sound(pool),
        pooled(pool, items, includes, excludes) is Some,
        pooled(pool, items, includes, excludes)->0.names.contains(name),
    ensures
        filter::passes(name, includes, excludes) || pool.names.contains(name),
    decreases items.len(),
{
    if items.len() > 0 {
        let sofar = pooled(pool, items.drop_last(), includes, excludes)->0;
        pooled_sound(pool, items.drop_last(), includes, excludes);
        let last = subscription::name_of(items.last())->0;
        if filter::passes(last, includes, excludes) && !sofar.names.contains(last) {
            order::placed_ascending(sofar.names, last);
        }
        if sofar.names.contains(name) {
            lemma_pooled_names(pool, items.drop_last(), includes, excludes, name);
        }
    }
}

/// A pool of all subscriptions is in order, whatever was downloaded.
pub proof fn merged_sound(bodies: Seq<Seq<char>>, subs: Seq<Subscription>)
    requires
        merged(bodies, subs) is Ok,
    ensures
        sound(merged(bodies, subs)->Ok_0),
    decreases subs.len(),
{
    if subs.len() > 0 {
        merged_sound(bodies.drop_last(), subs.drop_last());
        let pool = merged(bodies.drop_last(), subs.drop_last())->Ok_0;
        let sub = subs.last();
        let items = subscription::proxy_items(
            subscription::subscription_document(bodies.last())->Ok_0,
        )->0;
        pooled_sound(
            pool,
            items,
            filter::filter_of(text::texts(sub.includes@)),
            filter::filter_of(text::texts(sub.excludes@)),
        );
    }
}

/// The proxies of earlier subscriptions stay in front of those of later ones.
pub proof fn merged_grows(bodies: Seq<Seq<char>>, subs: Seq<Subscription>)
    requires
        subs.len() > 0,
        merged(bodies, subs) is Ok,
    ensures
        merged(bodies.drop_last(), subs.drop_last()) is Ok,
        merged(bodies.drop_last(), subs.drop_last())->Ok_0.proxies.is_prefix_of(
            merged(bodies, subs)->Ok_0.proxies,
        ),
{
    merged_sound(bodies.drop_last(), subs.drop_last());
    let pool = merged(bodies.drop_last(), subs.drop_last())->Ok_0;
    let sub = subs.last();
    let items = subscription::proxy_items(
        subscription::subscription_document(bodies.last())->Ok_0,
    )->0;
    pooled_sound(
        pool,
        items,
        filter::filter_of(text::texts(sub.includes@)),
        filter::filter_of(text::texts(sub.excludes@)),
    );
}

/// The groups of a runtime configuration list exactly the proxies in it, each once.
pub proof fn groups_list_proxies(cfg: AppConfig, pool: PoolState)
    requires
        sound(pool),
    ensures
        ({
            let runtime = runtime::runtime_tree(cfg, pool.proxies, pool.names);
            let groups = yaml::member(runtime, "proxy-groups"@)->0->Sequence_0;
            let listed = yaml::member(groups[0], "proxies"@)->0->Sequence_0;
            let selectable = yaml::member(groups[1], "proxies"@)->0->Sequence_0;
            &&& subscription::proxy_items(runtime) == Some(pool.proxies)
            &&& listed.len() == pool.proxies.len()
            &&& forall|i: int|
                0 <= i < pool.proxies.len() ==> listed.contains(
                    YamlTree::Text(subscription::name_of(#[trigger] pool.proxies[i])->0),
                )
            &&& listed.no_duplicates()
            &&& selectable == seq![YamlTree::Text(cfg.proxy.auto_group@)] + listed
        }),
{
    let runtime = runtime::runtime_tree(cfg, pool.proxies, pool.names);
    runtime::runtime_reads_back(cfg, pool.proxies, pool.names);
    runtime::groups_list_names(cfg.proxy, pool.names);
    let groups = runtime::group_trees(cfg.proxy, pool.names);
    let listed = yaml::member(groups[0], "proxies"@)->0->Sequence_0;
    let selectable = yaml::member(groups[1], "proxies"@)->0->Sequence_0;
    assert forall|i: int| 0 <= i < pool.proxies.len() implies listed.contains(
        YamlTree::Text(subscription::name_of(#[trigger] pool.proxies[i])->0),
    ) by {
        let name = subscription::name_of(pool.proxies[i])->0;
        let j = choose|j: int| 0 <= j < pool.names.len() && pool.names[j] == name;
        assert(listed[j] == YamlTree::Text(name));
    }
    assert forall|i: int, j: int| 0 <= i < listed.len() && 0 <= j < listed.len() && i
        != j implies listed[i] != listed[j] by {
        order::before_irreflexive(pool.names[i]);
        if i < j {
            assert(order::before(pool.names[i], pool.names[j]));
        } else {
            assert(order::before(pool.names[j], pool.names[i]));
        }
    }
    assert(selectable =~= seq![YamlTree::Text(cfg.proxy.auto_group@)] + listed);
}

/// What a subscription adds to a pool: every proxy that came in with it has a name that
/// matches its own patterns to keep, if it has any, and not its patterns to drop, if it has
/// any; every proxy of its document for which both hold is there by its name; and what was
/// there stays in front.
pub proof fn subscription_adds_what_it_lets_pass(
    pool: PoolState,
    body: Seq<char>,
    sub: Subscription,
)
    requires
        sound(pool),
        extended(pool, body, sub) is Ok,
    ensures
        ({
            let more = extended(pool, body, sub)->Ok_0;
            let items = subscription::proxy_items(
                subscription::subscription_document(body)->Ok_0,
            )->0;
            let keep = text::texts(sub.includes@);
            let drop = text::texts(sub.excludes@);
            &&& sound(more)
            &&& pool.proxies.is_prefix_of(more.proxies)
            &&& forall|k: int|
                pool.proxies.len() <= k < more.proxies.len() ==> {
                    let name = subscription::name_of(#[trigger] more.proxies[k])->0;
                    &&& sub.includes@.len() > 0 ==> filter::patterns_match(keep, name)
                    &&& sub.excludes@.len() > 0 ==> !filter::patterns_match(drop, name)
                    &&& items.contains(more.proxies[k])
                }
            &&& forall|i: int|
                0 <= i < items.len() ==> {
                    let name = subscription::name_of(#[trigger] items[i]);
                    &&& name is Some
                    &&& (sub.includes@.len() > 0 ==> filter::patterns_match(keep, name->0)) && (
                    sub.excludes@.len() > 0 ==> !filter::patterns_match(drop, name->0))
                        ==> more.names.contains(name->0)
                }
        }),
{
    let items = subscription::proxy_items(subscription::subscription_document(body)->Ok_0)->0;
    let keep = text::texts(sub.includes@);
    let drop = text::texts(sub.excludes@);
    let more = extended(pool, body, sub)->Ok_0;
    pooled_sound(pool, items, filter::filter_of(keep), filter::filter_of(drop));
    pooled_filtered(pool, items, filter::filter_of(keep), filter::filter_of(drop));
    assert forall|k: int| pool.proxies.len() <= k < more.proxies.len() implies ({
        let name = subscription::name_of(#[trigger] more.proxies[k])->0;
        &&& sub.includes@.len() > 0 ==> filter::patterns_match(keep, name)
        &&& sub.excludes@.len() > 0 ==> !filter::patterns_match(drop, name)
        &&& items.contains(more.proxies[k])
    }) by {
        filter::filters_as_given(subscription::name_of(more.proxies[k])->0, keep, drop);
        let at = choose|at: int| #[trigger] first_of_name(items, at) && items[at]
            == more.proxies[k];
        assert(items[at] == more.proxies[k]);
    }
    assert forall|i: int| 0 <= i < items.len() implies ({
        let name = subscription::name_of(#[trigger] items[i]);
        &&& name is Some
        &&& (sub.includes@.len() > 0 ==> filter::patterns_match(keep, name->0)) && (
        sub.excludes@.len() > 0 ==> !filter::patterns_match(drop, name->0)) ==> more.names.contains(
            name->0,
        )
    }) by {
        filter::filters_as_given(subscription::name_of(items[i])->0, keep, drop);
    }
}

/// A subscription can be added exactly where its document can be read, lists proxies, and
/// each of them has a name, and where its patterns compile. Else the first of these that does
/// not hold is complained of.
pub proof fn subscriptions_that_can_be_added(pool: PoolState, body: Seq<char>, sub: Subscription)
    ensures
        ({
            let document = subscription::subscription_document(body);
            let items = subscription::proxy_items(document->Ok_0);
            let keep = text::texts(sub.includes@);
            let drop = text::texts(sub.excludes@);
            let bits = usize::BITS as nat;
            let made = extended(pool, body, sub);
            if document is Err {
                made == Err::<PoolState, Fault>(document->Err_0)
            } else if items is None {
                made == Err::<PoolState, Fault>(Fault::Problem(Problem::MissingProxies))
            } else if (keep.len() > 0 && !filter::patterns_compile(keep, bits)) || (drop.len() > 0
                && !filter::patterns_compile(drop, bits)) {
                made == Err::<PoolState, Fault>(Fault::Pattern)
            } else if exists|i: int|
                0 <= i < items->0.len() && subscription::name_of(#[trigger] items->0[i]) is None {
                made == Err::<PoolState, Fault>(Fault::Problem(Problem::MissingName))
            } else {
                made is Ok
            }
        }),
{
    let document = subscription::subscription_document(body);
    if document is Ok && subscription::proxy_items(document->Ok_0) is Some {
        lemma_pooled_named(
            pool,
            subscription::proxy_items(document->Ok_0)->0,
            filter::filter_of(text::texts(sub.includes@)),
            filter::filter_of(text::texts(sub.excludes@)),
        );
    }
}

proof fn lemma_pooled_named(
    pool: PoolState,
    items: Seq<YamlTree>,
    includes: Option<Seq<Seq<char>>>,
    excludes: Option<Seq<Seq<char>>>,
)
    ensures
        pooled(pool, items, includes, excludes) is None <==> exists|i: int|
            0 <= i < items.len() && subscription::name_of(#[trigger] items[i]) is None,
    decreases items.len(),
{
    if items.len() > 0 {
        let fewer = items.drop_last();
        lemma_pooled_named(pool, fewer, includes, excludes);
        if exists|i: int| 0 <= i < fewer.len() && subscription::name_of(#[trigger] fewer[i]) is None {
            let i = choose|i: int|
                0 <= i < fewer.len() && subscription::name_of(#[trigger] fewer[i]) is None;
            assert(items[i] == fewer[i]);
        } else {
            assert forall|i: int| 0 <= i < items.len() - 1 implies subscription::name_of(
                #[trigger] items[i],
            ) is Some by {
                assert(fewer[i] == items[i]);
            }
        }
        assert(items[items.len() - 1] == items.last());
    }
}

/// Every proxy in the pool of all subscriptions came from one of them, and its name passes
/// the patterns of that one.
pub proof fn merged_proxies_pass(bodies: Seq<Seq<char>>, subs: Seq<Subscription>, k: int) -> (at:
    int)
    requires
        bodies.len() == subs.len(),
        merged(bodies, subs) is Ok,
        0 <= k < merged(bodies, subs)->Ok_0.proxies.len(),
    ensures
        0 <= at < subs.len(),
        ({
            let proxy = merged(bodies, subs)->Ok_0.proxies[k];
            let name = subscription::name_of(proxy)->0;
            let items = subscription::proxy_items(
                subscription::subscription_document(bodies[at])->Ok_0,
            )->0;
            &&& subscription::subscription_document(bodies[at]) is Ok
            &&& items.contains(proxy)
            &&& subs[at].includes@.len() > 0 ==> filter::patterns_match(
                text::texts(subs[at].includes@),
                name,
            )
            &&& subs[at].excludes@.len() > 0 ==> !filter::patterns_match(
                text::texts(subs[at].excludes@),
                name,
            )
        }),
    decreases subs.len(),
{
    let pool = merged(bodies.drop_last(), subs.drop_last())->Ok_0;
    merged_sound(bodies.drop_last(), subs.drop_last());
    subscription_adds_what_it_lets_pass(pool, bodies.last(), subs.last());
    let more = merged(bodies, subs)->Ok_0;
    if k < pool.proxies.len() {
        assert(pool.proxies[k] == more.proxies[k]);
        let at = merged_proxies_pass(bodies.drop_last(), subs.drop_last(), k);
        assert(bodies.drop_last()[at] == bodies[at]);
        assert(subs.drop_last()[at] == subs[at]);
        at
    } else {
        subs.len() - 1
    }
}

/// Every proxy of every subscription that passes the patterns of its subscription is in the
/// pool of all of them by its name.
pub proof fn merged_holds_what_passes(
    bodies: Seq<Seq<char>>,
    subs: Seq<Subscription>,
    at: int,
    i: int,
)
    requires
        bodies.len() == subs.len(),
        merged(bodies, subs) is Ok,
        0 <= at < subs.len(),
        ({
            let items = subscription::proxy_items(
                subscription::subscription_document(bodies[at])->Ok_0,
            )->0;
            let name = subscription::name_of(items[i])->0;
            &&& 0 <= i < items.len()
            &&& subs[at].includes@.len() > 0 ==> filter::patterns_match(
                text::texts(subs[at].includes@),
                name,
            )
            &&& subs[at].excludes@.len() > 0 ==> !filter::patterns_match(
                text::texts(subs[at].excludes@),
                name,
            )
        }),
    ensures
        ({
            let items = subscription::proxy_items(
                subscription::subscription_document(bodies[at])->Ok_0,
            )->0;
            let name = subscription::name_of(items[i])->0;
            merged(bodies, subs)->Ok_0.names.contains(name)
        }),
    decreases subs.len(),
{
    let pool = merged(bodies.drop_last(), subs.drop_last())->Ok_0;
    let sub = subs.last();
    merged_sound(bodies.drop_last(), subs.drop_last());
    subscription_adds_what_it_lets_pass(pool, bodies.last(), sub);
    let items = subscription::proxy_items(
        subscription::subscription_document(bodies[at])->Ok_0,
    )->0;
    if at < subs.len() - 1 {
        assert(bodies.drop_last()[at] == bodies[at]);
        assert(subs.drop_last()[at] == subs[at]);
        merged_holds_what_passes(bodies.drop_last(), subs.drop_last(), at, i);
        pooled_filtered(
            pool,
            subscription::proxy_items(
                subscription::subscription_document(bodies.last())->Ok_0,
            )->0,
            filter::filter_of(text::texts(sub.includes@)),
            filter::filter_of(text::texts(sub.excludes@)),
        );
    } else {
        assert(subscription::name_of(items[i]) is Some);
    }
}

/// The update ends with the configuration of all proxies exactly where all subscriptions
/// could be added and gave one, and is refused where they gave none.
pub proof fn update_ends(cfg: AppConfig, bodies: Seq<Seq<char>>)
    requires
        bodies.len() == cfg.subscriptions@.len(),
    ensures
        match merged(bodies, cfg.subscriptions@) {
            Err(fault) => after_downloads(cfg, bodies) == (Updating::Failed { fault }),
            Ok(pool) => if pool.proxies.len() > 0 {
                after_downloads(cfg, bodies) == (Updating::Write {
                    document: runtime::runtime_tree(cfg, pool.proxies, pool.names),
                })
            } else {
                after_downloads(cfg, bodies) == (Updating::Failed {
                    fault: Fault::Problem(Problem::NoProxies),
                })
            },
        },
{
    update_course(cfg, bodies);
    assert(cfg.subscriptions@.take(bodies.len() as int) =~= cfg.subscriptions@);
}

/// Each character of a name stays where it can stand in a file name, and is `_` where it
/// cannot.
pub proof fn sanitized_by_character(name: Seq<char>, i: int)
    requires
        0 <= i < name.len(),
    ensures
        sanitized(name)[i] == if ('a' <= name[i] <= 'z') || ('A' <= name[i] <= 'Z') || ('0'
            <= name[i] <= '9') || name[i] == '-' || name[i] == '_' {
            name[i]
        } else {
            '_'
        },
{
}

/// The complaint about a download names the subscription and what the server answered.
pub proof fn download_complaint_words(name: Seq<char>, status: Seq<char>)
    ensures
        download_complaint(name, status) == "subscription "@ + name + " returned HTTP "@ + status,
{
}

/// Proxies come into a pool one after the other: first those of a first part and then those
/// of a second. One proxy comes last among the proxies, and its name in its place, exactly
/// where the filters let it pass and its name is new; else the pool stays as it is.
pub proof fn pool_takes_proxies_in_turn(
    pool: PoolState,
    a: Seq<YamlTree>,
    b: Seq<YamlTree>,
    proxy: YamlTree,
    includes: Option<Seq<Seq<char>>>,
    excludes: Option<Seq<Seq<char>>>,
)
    ensures
        pooled(pool, a + b, includes, excludes) == match pooled(pool, a, includes, excludes) {
            Some(sofar) => pooled(sofar, b, includes, excludes),
            None => None,
        },
        pooled(pool, Seq::empty(), includes, excludes) == Some(pool),
        match subscription::name_of(proxy) {
            None => pooled(pool, seq![proxy], includes, excludes) is None,
            Some(name) => {
                let wanted = includes is Some ==> filter::patterns_match(includes->0, name);
                let unwanted = excludes is Some && filter::patterns_match(excludes->0, name);
                let more = pooled(pool, seq![proxy], includes, excludes);
                if wanted && !unwanted && !pool.names.contains(name) {
                    &&& more is Some
                    &&& more->0.proxies == pool.proxies.push(proxy)
                    &&& more->0.names == order::placed(pool.names, name)
                } else {
                    more == Some(pool)
                }
            },
        },
    decreases b.len(),
{
    reveal_with_fuel(pooled, 2);
    assert(seq![proxy].drop_last() =~= Seq::<YamlTree>::empty());
    if b.len() == 0 {
        assert(a + b =~= a);
    } else {
        pool_takes_proxies_in_turn(pool, a, b.drop_last(), proxy, includes, excludes);
        assert((a + b).drop_last() =~= a + b.drop_last());
        assert((a + b).last() == b.last());
    }
}

/// A subscription that cannot be added ends an update with what is wrong with it, whatever
/// comes behind it.
pub proof fn bad_subscription_ends_the_update(cfg: AppConfig, bodies: Seq<Seq<char>>, at: int)
    requires
        0 <= at < bodies.len() <= cfg.subscriptions@.len(),
        merged(bodies.take(at), cfg.subscriptions@.take(at)) is Ok,
        extended(
            merged(bodies.take(at), cfg.subscriptions@.take(at))->Ok_0,
            bodies[at],
            cfg.subscriptions@[at],
        ) is Err,
    ensures
        ({
            let pool = merged(bodies.take(at), cfg.subscriptions@.take(at))->Ok_0;
            let fault = extended(pool, bodies[at], cfg.subscriptions@[at])->Err_0;
            &&& merged(bodies, cfg.subscriptions@.take(bodies.len() as int)) == Err::<
                PoolState,
                Fault,
            >(fault)
            &&& after_downloads(cfg, bodies) == (Updating::Failed { fault })
        }),
    decreases bodies.len(),
{
    let subs = cfg.subscriptions@.take(bodies.len() as int);
    assert(subs.drop_last() =~= cfg.subscriptions@.take(bodies.len() - 1));
    assert(subs.last() == cfg.subscriptions@[bodies.len() - 1]);
    if at < bodies.len() - 1 {
        let fewer = bodies.drop_last();
        assert(fewer.take(at) =~= bodies.take(at));
        bad_subscription_ends_the_update(cfg, fewer, at);
    } else {
        assert(bodies.drop_last() =~= bodies.take(at));
    }
    update_course(cfg, bodies);
}

/// As long as every subscription can be added, an update goes on to the next one, with all
/// that came before in the pool, and begins with an empty pool.
pub proof fn update_goes_on(cfg: AppConfig, bodies: Seq<Seq<char>>)
    requires
        bodies.len() < cfg.subscriptions@.len(),
        merged(bodies, cfg.subscriptions@.take(bodies.len() as int)) is Ok,
    ensures
        after_downloads(cfg, bodies) == (Updating::Fetch {
            done: bodies.len(),
            pool: merged(bodies, cfg.subscriptions@.take(bodies.len() as int))->Ok_0,
        }),
        bodies.len() == 0 ==> {
            let pool = merged(bodies, cfg.subscriptions@.take(0))->Ok_0;
            pool.proxies.len() == 0 && pool.names.len() == 0
        },
{
    update_course(cfg, bodies);
}

/// Each step of an update, and each way in which it fails, is spoken of as itself.
pub proof fn updates_are_spoken_of(document: Yaml, error: SubscriptionError, pool: ProxyPool)
    ensures
        updating(Ok(UpdateStep::Write(document))) == (Updating::Write { document: document@ }),
        updating(Err(error)) == (Updating::Failed { fault: error@ }),
        pool_outcome(Ok(pool)) == Ok::<PoolState, Fault>(pool@),
        pool_outcome(Err(error)) == Err::<PoolState, Fault>(error@),
{
}

/// A download is accepted exactly where its code is 200.
pub proof fn only_complete_downloads_are_accepted(
    name: &str,
    code: u16,
    status: &str,
    accepted: Result<(), String>,
)
    requires
        call_ensures(check_download, (name, code, status), accepted),
    ensures
        accepted is Ok <==> code == 200,
        accepted matches Err(complaint) ==> complaint@ == "subscription "@ + name@
            + " returned HTTP "@ + status@,
{
}

/// The download of a subscription is kept in a file of its name, as far as that can stand in a
/// file name, with the ending of YAML files.
pub proof fn cache_files_go_by_the_name(sub: &Subscription, file: String)
    requires
        call_ensures(cache_file, (sub,), file),
    ensures
        file@.len() == sub.name@.len() + 5,
        file@.skip(sub.name@.len() as int) == ".yaml"@,
        file@.take(sub.name@.len() as int) == sanitized(sub.name@),
{
    reveal_strlit(".yaml");
    assert(file@.skip(sub.name@.len() as int) =~= ".yaml"@);
    assert(file@.take(sub.name@.len() as int) =~= sanitized(sub.name@));
}

} // verus!
