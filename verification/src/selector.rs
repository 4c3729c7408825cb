//! The choice of the fastest proxy of the selector group.

use crate::config::{self, ProxyConfig};
use crate::number::{self, decimal_text};
use crate::text::{self, same_text};
use vstd::prelude::*;

verus! {

/// The proxies and groups that the controller knows, each under its name.
#[derive(Debug, PartialEq, Eq)]
pub struct ProxiesResponse {
    pub proxies: Vec<(String, ProxyInfo)>,
}

/// What the controller says of a proxy or group: the members of a group and the one that
/// is selected now.
#[derive(Debug, PartialEq, Eq)]
pub struct ProxyInfo {
    pub all: Vec<String>,
    pub now: Option<String>,
}

/// Why no proxy was chosen.
#[derive(Debug, PartialEq, Eq)]
pub enum SelectError {
    GroupNotFound(String),
    NoCandidates(String),
    NoReachable,
}

impl SelectError {
    /// The words in which the error is reported.
    pub open spec fn words(self) -> Seq<char> {
        match self {
            SelectError::GroupNotFound(selector) => "selector group not found: "@ + selector@,
            SelectError::NoCandidates(selector) => "selector "@ + selector@
                + " does not contain node candidates"@,
            SelectError::NoReachable => "no reachable proxy found"@,
        }
    }

    pub fn message(&self) -> (message: String)
        ensures
            message@ == self.words(),
    {
        match self {
            SelectError::GroupNotFound(selector) => {
                let mut message: String = "selector group not found: ".to_string();
                message.append(selector.as_str());
                message
            },
            SelectError::NoCandidates(selector) => {
                let mut message: String = "selector ".to_string();
                message.append(selector.as_str());
                message.append(" does not contain node candidates");
                message
            },
            SelectError::NoReachable => "no reachable proxy found".to_string(),
        }
    }
}

// ---------------------------------------------------------------------------
// Candidates
// ---------------------------------------------------------------------------

/// What the controller says under a name.
pub open spec fn info_at(proxies: Seq<(String, ProxyInfo)>, name: Seq<char>) -> Option<ProxyInfo>
    decreases proxies.len(),
{
    if proxies.len() == 0 {
        None
    } else if proxies[0].0@ == name {
        Some(proxies[0].1)
    } else {
        info_at(proxies.skip(1), name)
    }
}

impl ProxiesResponse {
    /// What the controller says under a name.
    pub fn get(&self, name: &str) -> (info: Option<&ProxyInfo>)
        ensures
            match info {
                Some(info) => info_at(self.proxies@, name@) == Some(*info),
                None => info_at(self.proxies@, name@) is None,
            },
    {
        let ghost all = self.proxies@;
        assert(all.skip(0) =~= all);
        for i in 0..self.proxies.len()
            invariant
                all == self.proxies@,
                info_at(all, name@) == info_at(all.skip(i as int), name@),
        {
            if same_text(self.proxies[i].0.as_str(), name) {
                return Some(&self.proxies[i].1);
            }
            assert(all.skip(i as int).skip(1) =~= all.skip(i + 1));
        }
        None
    }
}

/// Whether a member of the selector group is a proxy that can be chosen: neither the
/// automatic group nor one of the two members that every core has.
pub open spec fn candidate(name: Seq<char>, auto_group: Seq<char>) -> bool {
    name != auto_group && name != "DIRECT"@ && name != "REJECT"@
}

/// The members of the selector group that can be chosen, in their order.
pub open spec fn candidates_of(all: Seq<Seq<char>>, auto_group: Seq<char>) -> Seq<Seq<char>> {
    all.filter(|name: Seq<char>| candidate(name, auto_group))
}

/// The members of the selector group that can be chosen.
pub fn candidates(info: &ProxyInfo, proxy: &ProxyConfig) -> (names: Result<
    Vec<String>,
    SelectError,
>)
    ensures
        match names {
            Ok(names) => names@.len() > 0 && text::texts(names@) == candidates_of(
                text::texts(info.all@),
                proxy.auto_group@,
            ),
            Err(error) => candidates_of(text::texts(info.all@), proxy.auto_group@).len() == 0 && (
            error matches SelectError::NoCandidates(selector) && selector@ == proxy.selector@),
        },
{
    let ghost all = text::texts(info.all@);
    let ghost auto = proxy.auto_group@;
    let mut names: Vec<String> = Vec::new();
    proof {
        reveal(Seq::filter);
        assert(all.take(0) =~= Seq::<Seq<char>>::empty());
        assert(text::texts(names@) =~= Seq::<Seq<char>>::empty());
    }
    for i in 0..info.all.len()
        invariant
            all == text::texts(info.all@),
            auto == proxy.auto_group@,
            text::texts(names@) == candidates_of(all.take(i as int), auto),
    {
        let ghost before = text::texts(names@);
        let name: &str = info.all[i].as_str();
        proof {
            reveal(Seq::filter);
            assert(all.take(i + 1).drop_last() =~= all.take(i as int));
            assert(all.take(i + 1).last() == name@);
        }
        if !same_text(name, proxy.auto_group.as_str()) && !same_text(name, "DIRECT") && !same_text(
            name,
            "REJECT",
        ) {
            names.push(info.all[i].clone());
            assert(text::texts(names@) =~= before.push(name@));
        }
    }
    assert(all.take(all.len() as int) =~= all);
    if names.len() == 0 {
        return Err(SelectError::NoCandidates(proxy.selector.clone()));
    }
    Ok(names)
}

/// The selector group that the controller knows.
pub fn selector_info<'a>(response: &'a ProxiesResponse, proxy: &ProxyConfig) -> (info: Result<
    &'a ProxyInfo,
    SelectError,
>)
    ensures
        match info {
            Ok(info) => info_at(response.proxies@, proxy.selector@) == Some(*info),
            Err(error) => info_at(response.proxies@, proxy.selector@) is None && (
            error matches SelectError::GroupNotFound(selector) && selector@ == proxy.selector@),
        },
{
    match response.get(proxy.selector.as_str()) {
        Some(info) => Ok(info),
        None => Err(SelectError::GroupNotFound(proxy.selector.clone())),
    }
}

// ---------------------------------------------------------------------------
// The fastest candidate
// ---------------------------------------------------------------------------

/// A candidate and its delay in milliseconds, where it could be measured.
#[derive(Debug, PartialEq, Eq)]
pub struct Measurement {
    pub name: String,
    pub delay: Option<u64>,
}

/// A proxy that was chosen, and its delay in milliseconds.
#[derive(Debug, PartialEq, Eq)]
pub struct BestProxy {
    pub name: String,
    pub delay: u64,
}

impl BestProxy {
    /// The words in which the choice is reported.
    pub open spec fn words(self) -> Seq<char> {
        self.name@ + " ("@ + number::decimal(self.delay as nat) + " ms)"@
    }

    pub fn summary(&self) -> (summary: String)
        ensures
            summary@ == self.words(),
    {
        let mut summary: String = self.name.clone();
        summary.append(" (");
        let delay: String = decimal_text(self.delay);
        summary.append(delay.as_str());
        summary.append(" ms)");
        summary
    }
}

/// Whether a candidate of the given delay answered within the time allowed.
pub open spec fn reachable(delay: Option<u64>, timeout_ms: u64) -> bool {
    delay matches Some(millis) && millis < timeout_ms
}

/// Whether a candidate is the fastest of those that answered in time: the first of those
/// with the least delay.
pub open spec fn fastest(delays: Seq<Option<u64>>, timeout_ms: u64, at: int) -> bool {
    &&& 0 <= at < delays.len()
    &&& reachable(delays[at], timeout_ms)
    &&& forall|i: int|
        0 <= i < delays.len() && reachable(#[trigger] delays[i], timeout_ms) ==> {
            &&& delays[at]->0 <= delays[i]->0
            &&& i < at ==> delays[at]->0 < delays[i]->0
        }
}

/// Only one candidate is the fastest.
pub proof fn fastest_unique(delays: Seq<Option<u64>>, timeout_ms: u64, a: int, b: int)
    requires
        fastest(delays, timeout_ms, a),
        fastest(delays, timeout_ms, b),
    ensures
        a == b,
{
    assert(reachable(delays[a], timeout_ms));
    assert(reachable(delays[b], timeout_ms));
}

/// The fastest candidate, if one answered in time.
pub open spec fn fastest_at(delays: Seq<Option<u64>>, timeout_ms: u64) -> Option<int> {
    if exists|at: int| fastest(delays, timeout_ms, at) {
        Some(choose|at: int| fastest(delays, timeout_ms, at))
    } else {
        None
    }
}

/// The delays of candidates.
pub open spec fn delays_of(measured: Seq<Measurement>) -> Seq<Option<u64>> {
    measured.map_values(|one: Measurement| one.delay)
}

/// The names of candidates.
pub open spec fn names_of(measured: Seq<Measurement>) -> Seq<Seq<char>> {
    measured.map_values(|one: Measurement| one.name@)
}

/// What a measurement leads to: the proxy to use, and whether the selector has to be
/// switched to it.
#[derive(Debug, PartialEq, Eq)]
pub struct Choice {
    pub best: BestProxy,
    pub switch: bool,
}

/// Chooses the fastest candidate that answered in time. The selector has to be switched
/// unless it is selected now.
pub fn choose_fastest(
    measured: &Vec<Measurement>,
    timeout_ms: u64,
    now: &Option<String>,
) -> (choice: Result<Choice, SelectError>)
    ensures
        match choice {
            Ok(choice) => {
                let at = fastest_at(delays_of(measured@), timeout_ms);
                &&& at is Some
                &&& fastest(delays_of(measured@), timeout_ms, at->0)
                &&& choice.best.name@ == names_of(measured@)[at->0]
                &&& Some(choice.best.delay) == delays_of(measured@)[at->0]
                &&& choice.switch == (config::optional_text(*now) != Some(choice.best.name@))
            },
            Err(error) => {
                &&& error is NoReachable
                &&& fastest_at(delays_of(measured@), timeout_ms) is None
                &&& forall|i: int|
                    0 <= i < measured@.len() ==> !reachable(
                        (#[trigger] measured@[i]).delay,
                        timeout_ms,
                    )
            },
        },
{
    let ghost all = delays_of(measured@);
    let mut best: Option<(usize, u64)> = None;
    for i in 0..measured.len()
        invariant
            all == delays_of(measured@),
            match best {
                Some((at, delay)) => at < i && fastest(all.take(i as int), timeout_ms, at as int)
                    && all[at as int] == Some(delay),
                None => forall|j: int|
                    0 <= j < i ==> !reachable(#[trigger] all[j], timeout_ms),
            },
    {
        let ghost earlier = all.take(i as int);
        let ghost sofar = all.take(i + 1);
        let ghost old_best = best;
        if let Some(delay) = measured[i].delay {
            if delay < timeout_ms {
                let better: bool = match best {
                    Some((_, least)) => delay < least,
                    None => true,
                };
                if better {
                    best = Some((i, delay));
                }
            }
        }
        proof {
            assert(all[i as int] == measured@[i as int].delay);
            if let Some((at, delay)) = best {
                assert(sofar[at as int] == all[at as int]);
                assert forall|j: int|
                    0 <= j < sofar.len() && reachable(#[trigger] sofar[j], timeout_ms) implies ({
                    &&& sofar[at as int]->0 <= sofar[j]->0
                    &&& j < at ==> sofar[at as int]->0 < sofar[j]->0
                }) by {
                    if j < i {
                        assert(earlier[j] == all[j]);
                        assert(sofar[j] == all[j]);
                        if let Some((before, _)) = old_best {
                            assert(earlier[before as int] == all[before as int]);
                        }
                    }
                }
                assert(reachable(sofar[at as int], timeout_ms)) by {
                    if at < i {
                        assert(earlier[at as int] == all[at as int]);
                    }
                }
                assert(fastest(sofar, timeout_ms, at as int));
            }
        }
    }
    assert(all.take(all.len() as int) =~= all);
    match best {
        Some((at, delay)) => {
            let name: String = measured[at].name.clone();
            let selected: bool = match now {
                Some(current) => same_text(current.as_str(), name.as_str()),
                None => false,
            };
            proof {
                assert(fastest(all, timeout_ms, at as int));
                fastest_unique(all, timeout_ms, at as int, fastest_at(all, timeout_ms)->0);
            }
            Ok(Choice { best: BestProxy { name, delay }, switch: !selected })
        },
        None => {
            proof {
                assert forall|i: int| 0 <= i < measured@.len() implies !reachable(
                    (#[trigger] measured@[i]).delay,
                    timeout_ms,
                ) by {
                    assert(all[i] == measured@[i].delay);
                }
                assert(fastest_at(all, timeout_ms) is None);
            }
            Err(SelectError::NoReachable)
        },
    }
}

// ---------------------------------------------------------------------------
// Switching
// ---------------------------------------------------------------------------

/// The candidates of the selector group, some of which have been measured.
pub struct Measuring {
    candidates: Vec<String>,
    measured: Vec<Measurement>,
    now: Option<String>,
}

/// Where a switch to the fastest proxy stands: what is done next, or what was chosen.
pub enum SwitchStep {
    /// Ask the controller for its proxies.
    List,
    /// Measure the next candidate.
    Measure(Measuring),
    /// Have the controller select the proxy.
    Select(BestProxy),
    /// The proxy is selected.
    Done(BestProxy),
}

/// A switch as contracts speak of it.
pub enum Switching {
    List,
    Measure { names: Seq<Seq<char>>, delays: Seq<Option<u64>>, now: Option<Seq<char>> },
    Select { name: Seq<char>, delay: u64 },
    Done { name: Seq<char>, delay: u64 },
    GroupNotFound,
    NoCandidates,
    NoReachable,
}

impl Measuring {
    #[verifier::type_invariant]
    spec fn in_step(self) -> bool {
        &&& self.measured@.len() < self.candidates@.len()
        &&& forall|i: int|
            0 <= i < self.measured@.len() ==> (#[trigger] self.measured@[i]).name@
                == self.candidates@[i]@
    }

    pub closed spec fn state(self) -> Switching {
        Switching::Measure {
            names: text::texts(self.candidates@),
            delays: delays_of(self.measured@),
            now: config::optional_text(self.now),
        }
    }

    /// The candidate to measure.
    pub fn candidate(&self) -> (name: &str)
        ensures
            self.state() is Measure,
            self.state()->delays.len() < self.state()->names.len(),
            name@ == self.state()->names[self.state()->delays.len() as int],
    {
        proof {
            use_type_invariant(self);
        }
        self.candidates[self.measured.len()].as_str()
    }

    /// Takes in the delay of the candidate, if it could be measured. After the last
    /// candidate the fastest is chosen.
    pub fn measured(self, delay: Option<u64>, proxy: &ProxyConfig) -> (next: Result<
        SwitchStep,
        SelectError,
    >)
        ensures
            switching(next) == after_measure(self.state(), delay, proxy.timeout_ms),
    {
        proof {
            use_type_invariant(&self);
        }
        let ghost names = text::texts(self.candidates@);
        let ghost before = delays_of(self.measured@);
        let candidates: Vec<String> = self.candidates;
        let mut measured: Vec<Measurement> = self.measured;
        let now: Option<String> = self.now;
        let at: usize = measured.len();
        let name: String = candidates[at].clone();
        measured.push(Measurement { name, delay });
        proof {
            assert(delays_of(measured@) =~= before.push(delay));
        }
        if measured.len() < candidates.len() {
            return Ok(SwitchStep::Measure(Measuring { candidates, measured, now }));
        }
        assert(names_of(measured@) =~= names);
        match choose_fastest(&measured, proxy.timeout_ms, &now) {
            Ok(choice) => if choice.switch {
                Ok(SwitchStep::Select(choice.best))
            } else {
                Ok(SwitchStep::Done(choice.best))
            },
            Err(error) => Err(error),
        }
    }
}

/// Candidates that are being measured are nothing else.
pub proof fn measuring_state(measuring: Measuring)
    ensures
        measuring.state() is Measure,
{
}

impl SwitchStep {
    pub open spec fn state(self) -> Switching {
        match self {
            SwitchStep::List => Switching::List,
            SwitchStep::Measure(measuring) => measuring.state(),
            SwitchStep::Select(best) => Switching::Select { name: best.name@, delay: best.delay },
            SwitchStep::Done(best) => Switching::Done { name: best.name@, delay: best.delay },
        }
    }

    /// The start of a switch.
    pub fn first() -> (step: SwitchStep)
        ensures
            step.state() == Switching::List,
    {
        SwitchStep::List
    }

    /// Takes in that the controller has selected the proxy.
    pub fn selected(best: BestProxy) -> (next: SwitchStep)
        ensures
            next.state() == (Switching::Done { name: best.name@, delay: best.delay }),
    {
        SwitchStep::Done(best)
    }

    /// Takes in the proxies of the controller, and sets out to measure the candidates.
    pub fn listed(response: &ProxiesResponse, proxy: &ProxyConfig) -> (next: Result<
        SwitchStep,
        SelectError,
    >)
        ensures
            switching(next) == after_list(response.proxies@, *proxy),
            next matches Err(SelectError::GroupNotFound(name)) ==> name@ == proxy.selector@,
            next matches Err(SelectError::NoCandidates(name)) ==> name@ == proxy.selector@,
    {
        let info: &ProxyInfo = match selector_info(response, proxy) {
            Ok(info) => info,
            Err(error) => {
                return Err(error);
            },
        };
        let candidates: Vec<String> = match candidates(info, proxy) {
            Ok(names) => names,
            Err(error) => {
                return Err(error);
            },
        };
        let now: Option<String> = match &info.now {
            Some(name) => Some(name.clone()),
            None => None,
        };
        let measuring = Measuring { candidates, measured: Vec::new(), now };
        assert(measuring.state()->delays =~= Seq::<Option<u64>>::empty());
        Ok(SwitchStep::Measure(measuring))
    }
}

/// A switch after a step that succeeded or failed.
pub open spec fn switching(next: Result<SwitchStep, SelectError>) -> Switching {
    match next {
        Ok(step) => step.state(),
        Err(SelectError::GroupNotFound(_)) => Switching::GroupNotFound,
        Err(SelectError::NoCandidates(_)) => Switching::NoCandidates,
        Err(SelectError::NoReachable) => Switching::NoReachable,
    }
}

/// A switch after the controller named its proxies.
pub open spec fn after_list(proxies: Seq<(String, ProxyInfo)>, proxy: ProxyConfig) -> Switching {
    match info_at(proxies, proxy.selector@) {
        None => Switching::GroupNotFound,
        Some(info) => {
            let names = candidates_of(text::texts(info.all@), proxy.auto_group@);
            if names.len() == 0 {
                Switching::NoCandidates
            } else {
                Switching::Measure {
                    names,
                    delays: Seq::empty(),
                    now: config::optional_text(info.now),
                }
            }
        },
    }
}

/// What is chosen when every candidate is measured.
pub open spec fn chosen(
    names: Seq<Seq<char>>,
    delays: Seq<Option<u64>>,
    now: Option<Seq<char>>,
    timeout_ms: u64,
) -> Switching {
    match fastest_at(delays, timeout_ms) {
        Some(at) => if now == Some(names[at]) {
            Switching::Done { name: names[at], delay: delays[at]->0 }
        } else {
            Switching::Select { name: names[at], delay: delays[at]->0 }
        },
        None => Switching::NoReachable,
    }
}

/// A switch after the next candidate was measured.
pub open spec fn after_measure(state: Switching, delay: Option<u64>, timeout_ms: u64) -> Switching {
    match state {
        Switching::Measure { names, delays, now } => {
            let all = delays.push(delay);
            if all.len() < names.len() {
                Switching::Measure { names, delays: all, now }
            } else {
                chosen(names, all, now, timeout_ms)
            }
        },
        _ => state,
    }
}

/// A switch after the given candidates were measured, one after the other.
pub open spec fn after_measures(
    state: Switching,
    delays: Seq<Option<u64>>,
    timeout_ms: u64,
) -> Switching
    decreases delays.len(),
{
    if delays.len() == 0 {
        state
    } else {
        after_measure(
            after_measures(state, delays.drop_last(), timeout_ms),
            delays.last(),
            timeout_ms,
        )
    }
}

/// Every candidate is measured once before one is chosen, and then the fastest of all is
/// chosen. The controller is asked to select it only where it is not selected now.
pub proof fn fastest_of_all_is_chosen(
    names: Seq<Seq<char>>,
    delays: Seq<Option<u64>>,
    now: Option<Seq<char>>,
    timeout_ms: u64,
)
    requires
        0 < delays.len() <= names.len(),
    ensures
        after_measures(
            Switching::Measure { names, delays: Seq::empty(), now },
            delays,
            timeout_ms,
        ) == if delays.len() < names.len() {
            Switching::Measure { names, delays, now }
        } else {
            chosen(names, delays, now, timeout_ms)
        },
    decreases delays.len(),
{
    let start = Switching::Measure { names, delays: Seq::empty(), now };
    assert(delays.drop_last().push(delays.last()) =~= delays);
    if delays.len() == 1 {
        reveal_with_fuel(after_measures, 2);
        assert(Seq::<Option<u64>>::empty().push(delays.last()) =~= delays);
    } else {
        fastest_of_all_is_chosen(names, delays.drop_last(), now, timeout_ms);
    }
}

/// When the last candidate is measured, the proxy that is used has the least delay of all
/// that answered in time, and it is the first of those. The switch is done exactly where
/// that proxy is selected now; whatever else is selected, the controller is asked to select
/// it. There is none exactly where no candidate answered in time.
pub proof fn switch_ends_on_the_fastest(
    names: Seq<Seq<char>>,
    delays: Seq<Option<u64>>,
    now: Option<Seq<char>>,
    timeout_ms: u64,
) -> (at: int)
    requires
        0 < delays.len() == names.len(),
    ensures
        ({
            let end = after_measures(
                Switching::Measure { names, delays: Seq::empty(), now },
                delays,
                timeout_ms,
            );
            let answered = exists|i: int|
                0 <= i < delays.len() && (#[trigger] delays[i] matches Some(d) && d < timeout_ms);
            &&& answered ==> {
                &&& 0 <= at < delays.len()
                &&& delays[at] matches Some(best) && best < timeout_ms
                &&& forall|i: int|
                    0 <= i < delays.len() ==> (#[trigger] delays[i] matches Some(d) ==> d
                        < timeout_ms ==> delays[at]->0 <= d && (i < at ==> delays[at]->0 < d))
                &&& now == Some(names[at]) ==> end == (Switching::Done {
                    name: names[at],
                    delay: delays[at]->0,
                })
                &&& now != Some(names[at]) ==> end == (Switching::Select {
                    name: names[at],
                    delay: delays[at]->0,
                })
            }
            &&& !answered ==> end == Switching::NoReachable
        }),
{
    fastest_of_all_is_chosen(names, delays, now, timeout_ms);
    let answered = exists|i: int|
        0 <= i < delays.len() && (#[trigger] delays[i] matches Some(d) && d < timeout_ms);
    if answered {
        let some = choose|i: int|
            0 <= i < delays.len() && (#[trigger] delays[i] matches Some(d) && d < timeout_ms);
        lemma_some_is_fastest(delays, timeout_ms, some);
        let at = fastest_at(delays, timeout_ms)->0;
        assert(fastest(delays, timeout_ms, at));
        assert forall|i: int| 0 <= i < delays.len() implies (#[trigger] delays[i] matches Some(
            d,
        ) ==> d < timeout_ms ==> delays[at]->0 <= d && (i < at ==> delays[at]->0 < d)) by {
            if reachable(delays[i], timeout_ms) {
            }
        }
        at
    } else {
        if fastest_at(delays, timeout_ms) is Some {
            let at = fastest_at(delays, timeout_ms)->0;
            assert(fastest(delays, timeout_ms, at));
            assert(delays[at] matches Some(d) && d < timeout_ms);
        }
        0
    }
}

proof fn lemma_some_is_fastest(delays: Seq<Option<u64>>, timeout_ms: u64, some: int)
    requires
        0 <= some < delays.len(),
        reachable(delays[some], timeout_ms),
    ensures
        exists|at: int| fastest(delays, timeout_ms, at),
    decreases delays.len(),
{
    let fewer = delays.drop_last();
    let last = delays.len() - 1;
    if exists|i: int| 0 <= i < fewer.len() && reachable(#[trigger] fewer[i], timeout_ms) {
        let i = choose|i: int| 0 <= i < fewer.len() && reachable(#[trigger] fewer[i], timeout_ms);
        lemma_some_is_fastest(fewer, timeout_ms, i);
        let at = choose|at: int| fastest(fewer, timeout_ms, at);
        assert(fewer[at] == delays[at]);
        let best = if reachable(delays[last], timeout_ms) && delays[last]->0 < delays[at]->0 {
            last
        } else {
            at
        };
        assert forall|j: int| 0 <= j < delays.len() && reachable(
            #[trigger] delays[j],
            timeout_ms,
        ) implies delays[best]->0 <= delays[j]->0 && (j < best ==> delays[best]->0
            < delays[j]->0) by {
            if j < last {
                assert(fewer[j] == delays[j]);
                assert(reachable(fewer[j], timeout_ms));
            }
        }
        assert(fastest(delays, timeout_ms, best));
    } else {
        assert(some == last) by {
            if some < last {
                assert(fewer[some] == delays[some]);
            }
        }
        assert forall|j: int| 0 <= j < delays.len() && reachable(
            #[trigger] delays[j],
            timeout_ms,
        ) implies j == last by {
            if j < last {
                assert(fewer[j] == delays[j]);
                assert(reachable(fewer[j], timeout_ms));
            }
        }
        assert(fastest(delays, timeout_ms, last));
    }
}

/// Until the last candidate is measured, nothing is chosen and no measurement is lost.
pub proof fn measuring_goes_on(
    names: Seq<Seq<char>>,
    delays: Seq<Option<u64>>,
    now: Option<Seq<char>>,
    timeout_ms: u64,
)
    requires
        0 < delays.len() < names.len(),
    ensures
        after_measures(
            Switching::Measure { names, delays: Seq::empty(), now },
            delays,
            timeout_ms,
        ) == (Switching::Measure { names, delays, now }),
{
    fastest_of_all_is_chosen(names, delays, now, timeout_ms);
}

/// The candidates of a group are those of its first members and then those of the others. A
/// member is a candidate exactly where it is neither the automatic group nor `DIRECT` nor
/// `REJECT`.
pub proof fn candidates_are_members(
    a: Seq<Seq<char>>,
    b: Seq<Seq<char>>,
    name: Seq<char>,
    auto_group: Seq<char>,
)
    ensures
        candidates_of(a + b, auto_group) == candidates_of(a, auto_group) + candidates_of(
            b,
            auto_group,
        ),
        candidates_of(seq![name], auto_group) == if name == auto_group || name == "DIRECT"@ || name
            == "REJECT"@ {
            Seq::<Seq<char>>::empty()
        } else {
            seq![name]
        },
        candidates_of(Seq::empty(), auto_group) == Seq::<Seq<char>>::empty(),
    decreases b.len(),
{
    reveal(Seq::filter);
    reveal_with_fuel(Seq::filter, 2);
    let pred = |name: Seq<char>| candidate(name, auto_group);
    assert(seq![name].drop_last() =~= Seq::<Seq<char>>::empty());
    assert(Seq::<Seq<char>>::empty().push(name) =~= seq![name]);
    if b.len() == 0 {
        assert(a + b =~= a);
        assert(candidates_of(a, auto_group) + candidates_of(b, auto_group) =~= candidates_of(
            a,
            auto_group,
        ));
    } else {
        candidates_are_members(a, b.drop_last(), name, auto_group);
        assert((a + b).drop_last() =~= a + b.drop_last());
        assert((a + b).last() == b.last());
        assert(candidates_of(a + b, auto_group) =~= candidates_of(a, auto_group) + candidates_of(
            b,
            auto_group,
        ));
    }
}

/// What the controller says under a name is what stands in the first entry of that name, and
/// nothing where there is no such entry.
pub proof fn first_named_counts(proxies: Seq<(String, ProxyInfo)>, name: Seq<char>, at: int)
    ensures
        0 <= at < proxies.len() && proxies[at].0@ == name && (forall|i: int|
            0 <= i < at ==> (#[trigger] proxies[i]).0@ != name) ==> info_at(proxies, name) == Some(
            proxies[at].1,
        ),
        (forall|i: int| 0 <= i < proxies.len() ==> (#[trigger] proxies[i]).0@ != name) ==> info_at(
            proxies,
            name,
        ) is None,
    decreases proxies.len(),
{
    if proxies.len() > 0 {
        let rest = proxies.skip(1);
        first_named_counts(rest, name, at - 1);
        assert forall|i: int| 0 <= i < rest.len() implies #[trigger] rest[i] == proxies[i + 1] by {}
        if 0 <= at < proxies.len() && proxies[at].0@ == name && (forall|i: int|
            0 <= i < at ==> (#[trigger] proxies[i]).0@ != name) {
            if at > 0 {
                assert(proxies[0].0@ != name);
                assert(rest[at - 1] == proxies[at]);
            }
        }
        if forall|i: int| 0 <= i < proxies.len() ==> (#[trigger] proxies[i]).0@ != name {
            assert(proxies[0].0@ != name);
        }
    }
}

/// A switch sets out to measure exactly the candidates of the selector group, remembers what
/// the group has selected, and is refused where there is no such group or no candidate.
pub proof fn listing_leads_to_measuring(proxies: Seq<(String, ProxyInfo)>, proxy: ProxyConfig)
    ensures
        match info_at(proxies, proxy.selector@) {
            None => after_list(proxies, proxy) == Switching::GroupNotFound,
            Some(info) => {
                let names = text::texts(info.all@).filter(
                    |name: Seq<char>|
                        name != proxy.auto_group@ && name != "DIRECT"@ && name != "REJECT"@,
                );
                if names.len() == 0 {
                    after_list(proxies, proxy) == Switching::NoCandidates
                } else {
                    after_list(proxies, proxy) == (Switching::Measure {
                        names,
                        delays: Seq::empty(),
                        now: match info.now {
                            Some(now) => Some(now@),
                            None => None,
                        },
                    })
                }
            },
        },
{
    if let Some(info) = info_at(proxies, proxy.selector@) {
        let direct = |name: Seq<char>|
            name != proxy.auto_group@ && name != "DIRECT"@ && name != "REJECT"@;
        let pred = |name: Seq<char>| candidate(name, proxy.auto_group@);
        assert(direct =~= pred);
    }
}

/// The words in which a choice is reported are its name and its delay.
pub proof fn choice_words(best: BestProxy)
    ensures
        best.words() == best.name@ + " ("@ + number::decimal(best.delay as nat) + " ms)"@,
{
}

/// Each step of a switch, and each way in which it fails, is spoken of as itself.
pub proof fn steps_are_spoken_of(best: BestProxy, selector: String, step: SwitchStep)
    ensures
        (SwitchStep::List).state() == Switching::List,
        SwitchStep::Select(best).state() == (Switching::Select {
            name: best.name@,
            delay: best.delay,
        }),
        SwitchStep::Done(best).state() == (Switching::Done { name: best.name@, delay: best.delay }),
        switching(Ok(step)) == step.state(),
        switching(Err(SelectError::GroupNotFound(selector))) == Switching::GroupNotFound,
        switching(Err(SelectError::NoCandidates(selector))) == Switching::NoCandidates,
        switching(Err(SelectError::NoReachable)) == Switching::NoReachable,
{
}

/// A complaint about the selector group names it.
pub proof fn complaints_name_the_group(selector: String)
    ensures
        SelectError::GroupNotFound(selector).words() == "selector group not found: "@ + selector@,
        SelectError::NoCandidates(selector).words() == "selector "@ + selector@
            + " does not contain node candidates"@,
{
}

} // verus!
