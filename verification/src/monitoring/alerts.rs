// Alerts: construction, cooldown and deduplication, channel routing by
// severity, and severity-based escalation.
use vstd::prelude::*;
use std::collections::{HashMap, VecDeque};
use crate::support::{decimal_text, push_decimal, push_text, now_ns};
use crate::monitoring::detection_tracker::DetectionRiskLevel;

verus! {

broadcast use vstd::std_specs::vecdeque::group_vec_dequeue_axioms;

/// Alert severity, from least to most severe.
#[derive(Debug, Clone, Copy, PartialEq, Eq, PartialOrd, Structural)]
pub enum AlertSeverity {
    Info,
    Warning,
    Error,
    Critical,
    Emergency,
}

impl AlertSeverity {
    /// Rank of the severity: Info 0, Warning 1, Error 2, Critical 3,
    /// Emergency 4.
    pub open spec fn spec_rank(self) -> u8 {
        match self {
            AlertSeverity::Info => 0,
            AlertSeverity::Warning => 1,
            AlertSeverity::Error => 2,
            AlertSeverity::Critical => 3,
            AlertSeverity::Emergency => 4,
        }
    }

    /// Rank of the severity: Info 0 up to Emergency 4.
    pub fn rank(&self) -> (r: u8)
        ensures
            r == self.spec_rank(),
    {
        match self {
            AlertSeverity::Info => 0,
            AlertSeverity::Warning => 1,
            AlertSeverity::Error => 2,
            AlertSeverity::Critical => 3,
            AlertSeverity::Emergency => 4,
        }
    }

    /// `self` is at least as severe as `other`.
    pub fn at_least(&self, other: &AlertSeverity) -> (b: bool)
        ensures
            b == (self.spec_rank() >= other.spec_rank()),
    {
        self.rank() >= other.rank()
    }

    /// The severity's name in capitals, as alert titles show it.
    pub fn label(&self) -> (r: &'static str)
        ensures
            r@ == severity_label(*self),
    {
        match self {
            AlertSeverity::Info => "INFO",
            AlertSeverity::Warning => "WARNING",
            AlertSeverity::Error => "ERROR",
            AlertSeverity::Critical => "CRITICAL",
            AlertSeverity::Emergency => "EMERGENCY",
        }
    }

    /// The colour of a chat message about an alert of this severity:
    /// "danger" from Error on, "warning" for a warning, "good" for
    /// information.
    pub fn slack_color(&self) -> (r: &'static str)
        ensures
            r@ == slack_color_of(*self),
    {
        match self {
            AlertSeverity::Emergency => "danger",
            AlertSeverity::Critical => "danger",
            AlertSeverity::Error => "danger",
            AlertSeverity::Warning => "warning",
            AlertSeverity::Info => "good",
        }
    }

    /// The incident severity of a page about an alert of this severity:
    /// "critical" from Critical on, else the severity's own name.
    pub fn pagerduty_severity(&self) -> (r: &'static str)
        ensures
            r@ == pagerduty_severity_of(*self),
    {
        match self {
            AlertSeverity::Emergency => "critical",
            AlertSeverity::Critical => "critical",
            AlertSeverity::Error => "error",
            AlertSeverity::Warning => "warning",
            AlertSeverity::Info => "info",
        }
    }
}

/// Name of a severity in capitals.
pub open spec fn severity_label(s: AlertSeverity) -> Seq<char> {
    match s {
        AlertSeverity::Info => "INFO"@,
        AlertSeverity::Warning => "WARNING"@,
        AlertSeverity::Error => "ERROR"@,
        AlertSeverity::Critical => "CRITICAL"@,
        AlertSeverity::Emergency => "EMERGENCY"@,
    }
}

/// Chat colour of a severity.
pub open spec fn slack_color_of(s: AlertSeverity) -> Seq<char> {
    match s {
        AlertSeverity::Emergency | AlertSeverity::Critical | AlertSeverity::Error => "danger"@,
        AlertSeverity::Warning => "warning"@,
        AlertSeverity::Info => "good"@,
    }
}

/// Incident severity of a severity.
pub open spec fn pagerduty_severity_of(s: AlertSeverity) -> Seq<char> {
    match s {
        AlertSeverity::Emergency | AlertSeverity::Critical => "critical"@,
        AlertSeverity::Error => "error"@,
        AlertSeverity::Warning => "warning"@,
        AlertSeverity::Info => "info"@,
    }
}

/// Where an alert is delivered.
#[derive(Debug, Clone, Copy, PartialEq, Eq, Structural)]
pub enum AlertChannel {
    Log,
    Console,
    Email,
    Slack,
    PagerDuty,
    Webhook,
}

/// An alert.
#[derive(Debug)]
pub struct Alert {
    pub id: u64,
    pub title: String,
    pub message: String,
    pub severity: AlertSeverity,
    pub channel: AlertChannel,
    pub timestamp_ns: u64,
    pub source: String,
    pub metadata: HashMap<String, String>,
    pub acknowledged: bool,
    pub resolved: bool,
}

/// What an alert says, with its texts as character sequences.
pub struct AlertView {
    pub id: u64,
    pub title: Seq<char>,
    pub message: Seq<char>,
    pub severity: AlertSeverity,
    pub channel: AlertChannel,
    pub timestamp_ns: u64,
    pub source: Seq<char>,
    pub metadata: Map<String, String>,
    pub acknowledged: bool,
    pub resolved: bool,
}

impl View for Alert {
    type V = AlertView;

    open spec fn view(&self) -> AlertView {
        AlertView {
            id: self.id,
            title: self.title@,
            message: self.message@,
            severity: self.severity,
            channel: self.channel,
            timestamp_ns: self.timestamp_ns,
            source: self.source@,
            metadata: self.metadata@,
            acknowledged: self.acknowledged,
            resolved: self.resolved,
        }
    }
}

/// Title of a latency breach alert.
pub open spec fn latency_breach_title(operation: Seq<char>) -> Seq<char> {
    "Latency breach: "@ + operation
}

/// Message of a latency breach alert.
pub open spec fn latency_breach_message(operation: Seq<char>, latency_ns: u64, threshold_ns: u64) -> Seq<
    char,
> {
    operation + " latency = "@ + decimal_text(latency_ns as nat) + "ns (threshold: "@ + decimal_text(
        threshold_ns as nat,
    ) + "ns)"@
}

/// Severity of a latency breach: Critical from twice the threshold on,
/// Error below.
pub open spec fn latency_breach_severity(latency_ns: u64, threshold_ns: u64) -> AlertSeverity {
    if latency_ns >= 2 * threshold_ns {
        AlertSeverity::Critical
    } else {
        AlertSeverity::Error
    }
}

/// Severity of an alert about a detection risk: Warning for a medium
/// risk, Error for a high one, Critical for a very high one, Emergency for
/// a critical one, Info below medium.
pub open spec fn detection_severity(level: DetectionRiskLevel) -> AlertSeverity {
    match level {
        DetectionRiskLevel::Medium => AlertSeverity::Warning,
        DetectionRiskLevel::High => AlertSeverity::Error,
        DetectionRiskLevel::VeryHigh => AlertSeverity::Critical,
        DetectionRiskLevel::Critical => AlertSeverity::Emergency,
        _ => AlertSeverity::Info,
    }
}

/// An alert freshly made from a title, a message and a severity: logged,
/// from "hft-system", no metadata, neither acknowledged nor resolved.
pub open spec fn is_fresh_alert(
    a: AlertView,
    title: Seq<char>,
    message: Seq<char>,
    severity: AlertSeverity,
) -> bool {
    &&& a.title == title
    &&& a.message == message
    &&& a.severity == severity
    &&& a.channel == AlertChannel::Log
    &&& a.source == "hft-system"@
    &&& a.metadata == Map::<String, String>::empty()
    &&& !a.acknowledged
    &&& !a.resolved
}

impl Alert {
    /// A copy of the alert.
    pub fn duplicate(&self) -> (r: Alert)
        ensures
            r@ == self@,
    {
        Alert {
            id: self.id,
            title: self.title.clone(),
            message: self.message.clone(),
            severity: self.severity,
            channel: self.channel,
            timestamp_ns: self.timestamp_ns,
            source: self.source.clone(),
            metadata: self.metadata.clone(),
            acknowledged: self.acknowledged,
            resolved: self.resolved,
        }
    }

    /// A new alert stamped with `now_ns` as id and timestamp.
    pub fn new_at(title: &str, message: &str, severity: AlertSeverity, now_ns: u64) -> (a: Self)
        ensures
            is_fresh_alert(a@, title@, message@, severity),
            a.id == now_ns,
            a.timestamp_ns == now_ns,
    {
        proof {
            reveal_strlit("hft-system");
        }
        Alert {
            id: now_ns,
            title: title.to_owned(),
            message: message.to_owned(),
            severity,
            channel: AlertChannel::Log,
            timestamp_ns: now_ns,
            source: "hft-system".to_owned(),
            metadata: HashMap::new(),
            acknowledged: false,
            resolved: false,
        }
    }

    /// A new alert; its id and timestamp are read from the clock.
    pub fn new(title: &str, message: &str, severity: AlertSeverity) -> (a: Self)
        ensures
            is_fresh_alert(a@, title@, message@, severity),
    {
        let id = now_ns();
        let mut a = Alert::new_at(title, message, severity, id);
        a.timestamp_ns = now_ns();
        a
    }

    /// An alert for an operation whose latency passed its threshold.
    pub fn latency_breach(operation: &str, latency_ns: u64, threshold_ns: u64) -> (a: Self)
        ensures
            is_fresh_alert(
                a@,
                latency_breach_title(operation@),
                latency_breach_message(operation@, latency_ns, threshold_ns),
                latency_breach_severity(latency_ns, threshold_ns),
            ),
    {
        let severity = if latency_ns as u128 >= 2 * (threshold_ns as u128) {
            AlertSeverity::Critical
        } else {
            AlertSeverity::Error
        };
        let mut title = String::new();
        push_text(&mut title, "Latency breach: ");
        push_text(&mut title, operation);
        let mut message = String::new();
        push_text(&mut message, operation);
        push_text(&mut message, " latency = ");
        push_decimal(&mut message, latency_ns);
        push_text(&mut message, "ns (threshold: ");
        push_decimal(&mut message, threshold_ns);
        push_text(&mut message, "ns)");
        proof {
            assert(title@ =~= latency_breach_title(operation@));
            assert(message@ =~= latency_breach_message(operation@, latency_ns, threshold_ns));
        }
        Alert::new(title.as_str(), message.as_str(), severity)
    }

    /// Severity of an alert about a detection event of this risk level
    /// (see `detection_severity`).
    pub fn detection_risk_severity(level: DetectionRiskLevel) -> (s: AlertSeverity)
        ensures
            s == detection_severity(level),
    {
        match level {
            DetectionRiskLevel::Medium => AlertSeverity::Warning,
            DetectionRiskLevel::High => AlertSeverity::Error,
            DetectionRiskLevel::VeryHigh => AlertSeverity::Critical,
            DetectionRiskLevel::Critical => AlertSeverity::Emergency,
            _ => AlertSeverity::Info,
        }
    }

    /// An alert about a component's health: an Error when the status is
    /// "unhealthy", Info otherwise.
    pub fn system_health(component: &str, status: &str) -> (a: Self)
        ensures
            is_fresh_alert(
                a@,
                "Health: "@ + component@,
                "Component "@ + component@ + " is "@ + status@,
                if status@ == "unhealthy"@ {
                    AlertSeverity::Error
                } else {
                    AlertSeverity::Info
                },
            ),
    {
        let mut title = String::new();
        push_text(&mut title, "Health: ");
        push_text(&mut title, component);
        let mut message = String::new();
        push_text(&mut message, "Component ");
        push_text(&mut message, component);
        push_text(&mut message, " is ");
        push_text(&mut message, status);
        let status_text = status.to_owned();
        let unhealthy = "unhealthy".to_owned();
        let severity = if status_text == unhealthy {
            AlertSeverity::Error
        } else {
            AlertSeverity::Info
        };
        Alert::new(title.as_str(), message.as_str(), severity)
    }
}

/// Alert manager configuration.
#[derive(Debug, Clone)]
pub struct AlertManagerConfig {
    pub cooldown_ms: u64,
    pub max_alerts_per_minute: u32,
    pub enable_email: bool,
    pub enable_slack: bool,
    pub enable_pagerduty: bool,
    pub slack_webhook_url: String,
    pub pagerduty_integration_key: String,
}

impl Default for AlertManagerConfig {
    fn default() -> (c: Self)
        ensures
            c.cooldown_ms == 5000,
            c.max_alerts_per_minute == 60,
            !c.enable_email,
            !c.enable_slack,
            !c.enable_pagerduty,
            c.slack_webhook_url@ == Seq::<char>::empty(),
            c.pagerduty_integration_key@ == Seq::<char>::empty(),
    {
        AlertManagerConfig {
            cooldown_ms: 5000,
            max_alerts_per_minute: 60,
            enable_email: false,
            enable_slack: false,
            enable_pagerduty: false,
            slack_webhook_url: String::new(),
            pagerduty_integration_key: String::new(),
        }
    }
}

/// The channels an accepted alert goes to.
#[derive(Debug, Clone, Copy, PartialEq, Eq, Structural)]
pub struct AlertRoute {
    pub log: bool,
    pub console: bool,
    pub email: bool,
    pub slack: bool,
    pub pagerduty: bool,
}

/// Routing rule: always the log; the console from Critical on; email from
/// Error on when enabled; Slack from Warning on when enabled and a webhook
/// is set; PagerDuty from Critical on when enabled and a key is set.
pub open spec fn route_for(severity: AlertSeverity, config: AlertManagerConfig) -> AlertRoute {
    AlertRoute {
        log: true,
        console: severity.spec_rank() >= 3,
        email: config.enable_email && severity.spec_rank() >= 2,
        slack: config.enable_slack && severity.spec_rank() >= 1 && config.slack_webhook_url@.len()
            > 0,
        pagerduty: config.enable_pagerduty && severity.spec_rank() >= 3
            && config.pagerduty_integration_key@.len() > 0,
    }
}

/// The last `n` elements of `s` (all of `s` when it is shorter).
pub open spec fn keep_last<T>(s: Seq<T>, n: nat) -> Seq<T> {
    if s.len() > n {
        s.subrange(s.len() - n, s.len() as int)
    } else {
        s
    }
}

/// Key under which an alert's cooldown is kept: "source:title".
pub open spec fn cooldown_key(a: AlertView) -> Seq<char> {
    a.source + ":"@ + a.title
}

/// Views of a sequence of alerts.
pub open spec fn views(s: Seq<Alert>) -> Seq<AlertView> {
    s.map_values(|a: Alert| a@)
}

proof fn lemma_views_push(s: Seq<Alert>, x: Alert)
    ensures
        views(s.push(x)) == views(s).push(x@),
{
    assert(views(s.push(x)) =~= views(s).push(x@));
}

proof fn lemma_views_tail(s: Seq<Alert>)
    requires
        s.len() > 0,
    ensures
        views(s.subrange(1, s.len() as int)) == views(s).subrange(1, s.len() as int),
{
    assert(views(s.subrange(1, s.len() as int)) =~= views(s).subrange(1, s.len() as int));
}

/// Most recent alerts kept in the history.
pub const ALERT_HISTORY_LIMIT: usize = 10000;

/// Alert store with cooldown per source and title.
pub struct AlertManager {
    alerts: VecDeque<Alert>,
    alert_history: VecDeque<Alert>,
    last_alert_time: Vec<(String, u64)>,
    config: AlertManagerConfig,
    max_alerts: usize,
}

impl AlertManager {
    /// Alerts kept as active, oldest first.
    pub closed spec fn alerts(&self) -> Seq<AlertView> {
        views(self.alerts@)
    }

    /// Alert history, oldest first.
    pub closed spec fn history(&self) -> Seq<AlertView> {
        views(self.alert_history@)
    }

    /// When each cooldown key last let an alert through.
    pub closed spec fn last_times(&self) -> Map<Seq<char>, u64> {
        Map::new(
            |k: Seq<char>| exists|i: int| 0 <= i < self.last_alert_time@.len() && self.last_alert_time@[i].0@ == k,
            |k: Seq<char>|
                self.last_alert_time@[choose|i: int|
                    0 <= i < self.last_alert_time@.len() && self.last_alert_time@[i].0@ == k].1,
        )
    }

    /// The manager's configuration.
    pub closed spec fn config(&self) -> AlertManagerConfig {
        self.config
    }

    /// How many active alerts are kept.
    pub closed spec fn max_alerts(&self) -> nat {
        self.max_alerts as nat
    }

    pub closed spec fn wf(&self) -> bool {
        forall|i: int, j: int|
            0 <= i < j < self.last_alert_time@.len() ==> self.last_alert_time@[i].0@
                != self.last_alert_time@[j].0@
    }

    /// An empty manager with the default configuration, keeping 1000
    /// active alerts.
    pub fn new() -> (m: Self)
        ensures
            m.wf(),
            m.alerts() == Seq::<AlertView>::empty(),
            m.history() == Seq::<AlertView>::empty(),
            m.last_times() == Map::<Seq<char>, u64>::empty(),
            m.max_alerts() == 1000,
            m.config().cooldown_ms == 5000,
    {
        let m = AlertManager {
            alerts: VecDeque::new(),
            alert_history: VecDeque::new(),
            last_alert_time: Vec::new(),
            config: AlertManagerConfig::default(),
            max_alerts: 1000,
        };
        assert(m.alerts() =~= Seq::<AlertView>::empty());
        assert(m.history() =~= Seq::<AlertView>::empty());
        assert(m.last_times() =~= Map::<Seq<char>, u64>::empty());
        m
    }

    /// Whether an alert with this key would be held back at time `now_ns`:
    /// one with the same key got through less than the cooldown ago (a
    /// clock that reads earlier than the last alert counts as no time
    /// passed).
    pub open spec fn in_cooldown(&self, key: Seq<char>, now_ns: u64) -> bool {
        self.last_times().contains_key(key) && (if now_ns >= self.last_times()[key] {
            now_ns - self.last_times()[key]
        } else {
            0
        }) < self.config().cooldown_ms * 1_000_000
    }

    /// `after` with result `route` is this manager having handled `alert`
    /// at time `now_ns` (see `process_alert_at`).
    pub open spec fn handled_at(
        &self,
        after: &AlertManager,
        alert: AlertView,
        now_ns: u64,
        route: Option<AlertRoute>,
    ) -> bool {
        &&& after.wf()
        &&& after.config() == self.config()
        &&& after.max_alerts() == self.max_alerts()
        &&& self.in_cooldown(cooldown_key(alert), now_ns) ==> {
            &&& route is None
            &&& after.alerts() == self.alerts()
            &&& after.history() == self.history()
            &&& after.last_times() == self.last_times()
        }
        &&& !self.in_cooldown(cooldown_key(alert), now_ns) ==> {
            &&& route == Some(route_for(alert.severity, self.config()))
            &&& after.alerts() == keep_last(self.alerts().push(alert), self.max_alerts())
            &&& after.history() == keep_last(self.history().push(alert), ALERT_HISTORY_LIMIT as nat)
            &&& after.last_times() == self.last_times().insert(cooldown_key(alert), now_ns)
        }
    }

    /// Handles an incoming alert at time `now_ns`. An alert in cooldown is
    /// dropped and `None` returned; otherwise its key's time is set to
    /// `now_ns`, it joins the active alerts (the oldest ones beyond the
    /// limit leave) and the history (bounded likewise), and the channels to
    /// deliver it on are returned.
    pub fn process_alert_at(&mut self, alert: Alert, now_ns: u64) -> (route: Option<AlertRoute>)
        requires
            old(self).wf(),
        ensures
            final(self).wf(),
            final(self).config() == old(self).config(),
            final(self).max_alerts() == old(self).max_alerts(),
            old(self).in_cooldown(cooldown_key(alert@), now_ns) ==> {
                &&& route is None
                &&& final(self).alerts() == old(self).alerts()
                &&& final(self).history() == old(self).history()
                &&& final(self).last_times() == old(self).last_times()
            },
            !old(self).in_cooldown(cooldown_key(alert@), now_ns) ==> {
                &&& route == Some(route_for(alert.severity, old(self).config()))
                &&& final(self).alerts() == keep_last(
                    old(self).alerts().push(alert@),
                    old(self).max_alerts(),
                )
                &&& final(self).history() == keep_last(
                    old(self).history().push(alert@),
                    ALERT_HISTORY_LIMIT as nat,
                )
                &&& final(self).last_times() == old(self).last_times().insert(
                    cooldown_key(alert@),
                    now_ns,
                )
            },
    {
        let mut key = String::new();
        push_text(&mut key, alert.source.as_str());
        push_text(&mut key, ":");
        push_text(&mut key, alert.title.as_str());
        assert(key@ == cooldown_key(alert@));
        let found = self.find_key(&key);
        match found {
            Some(i) => {
                let last = self.last_alert_time[i].1;
                let elapsed: u64 = if now_ns >= last {
                    now_ns - last
                } else {
                    0
                };
                if (elapsed as u128) < (self.config.cooldown_ms as u128) * 1_000_000 {
                    proof {
                        self.lemma_last_times_at(i as int);
                    }
                    return None;
                }
                let ghost before = self.last_alert_time@;
                self.last_alert_time.set(i, (key, now_ns));
                proof {
                    self.lemma_last_times_after_set(before, i as int, now_ns);
                }
            },
            None => {
                let ghost before = self.last_alert_time@;
                let ghost key_view = key@;
                self.last_alert_time.push((key, now_ns));
                proof {
                    assert(self.last_alert_time@.subrange(0, before.len() as int) =~= before);
                    assert forall|t: int| 0 <= t < before.len() implies before[t].0@
                        != self.last_alert_time@[before.len() as int].0@ by {
                        if before[t].0@ == key_view {
                            assert(old(self).last_times().contains_key(key_view));
                        }
                    }
                    self.lemma_last_times_after_push(before, now_ns);
                }
            },
        }
        let route = self.route_alert(&alert);
        let ghost full_alerts = self.alerts().push(alert@);
        let ghost full_history = self.history().push(alert@);
        let ghost times = self.last_alert_time@;
        let ghost history_before = self.alert_history@;
        let copy = alert.duplicate();
        proof {
            lemma_views_push(self.alerts@, copy);
        }
        self.alerts.push_back(copy);
        assert(full_alerts.subrange(0, full_alerts.len() as int) =~= full_alerts);
        let ghost mut dropped: int = 0;
        while self.alerts.len() > self.max_alerts
            invariant
                0 <= dropped <= full_alerts.len(),
                self.alerts() == full_alerts.subrange(dropped, full_alerts.len() as int),
                self.alerts@.len() == full_alerts.len() - dropped,
                dropped == 0 || self.alerts@.len() >= self.max_alerts,
                self.last_alert_time@ == times,
                self.alert_history@ == history_before,
                self.config == old(self).config,
                self.max_alerts == old(self).max_alerts,
            decreases self.alerts.len(),
        {
            proof {
                lemma_views_tail(self.alerts@);
            }
            self.alerts.pop_front();
            proof {
                dropped = dropped + 1;
                assert(self.alerts() =~= full_alerts.subrange(dropped, full_alerts.len() as int));
            }
        }
        assert(self.alerts() =~= keep_last(full_alerts, self.max_alerts as nat));
        proof {
            lemma_views_push(self.alert_history@, alert);
        }
        self.alert_history.push_back(alert);
        assert(full_history.subrange(0, full_history.len() as int) =~= full_history);
        let ghost mut dropped_h: int = 0;
        while self.alert_history.len() > ALERT_HISTORY_LIMIT
            invariant
                0 <= dropped_h <= full_history.len(),
                self.history() == full_history.subrange(dropped_h, full_history.len() as int),
                self.alert_history@.len() == full_history.len() - dropped_h,
                dropped_h == 0 || self.alert_history@.len() >= ALERT_HISTORY_LIMIT,
                self.last_alert_time@ == times,
                self.alerts() == keep_last(full_alerts, old(self).max_alerts as nat),
                self.config == old(self).config,
                self.max_alerts == old(self).max_alerts,
            decreases self.alert_history.len(),
        {
            proof {
                lemma_views_tail(self.alert_history@);
            }
            self.alert_history.pop_front();
            proof {
                dropped_h = dropped_h + 1;
                assert(self.history() =~= full_history.subrange(
                    dropped_h,
                    full_history.len() as int,
                ));
            }
        }
        assert(self.history() =~= keep_last(full_history, ALERT_HISTORY_LIMIT as nat));
        Some(route)
    }

    /// Handles an incoming alert at the current clock time (see
    /// `process_alert_at`); returns the channels to deliver it on, or `None`
    /// when it was held back.
    pub fn process_alert(&mut self, alert: Alert) -> (route: Option<AlertRoute>)
        requires
            old(self).wf(),
        ensures
            final(self).wf(),
            route matches Some(r) ==> r == route_for(alert.severity, old(self).config()),
            exists|now_ns: u64| #[trigger] old(self).handled_at(final(self), alert@, now_ns, route),
            !old(self).last_times().contains_key(cooldown_key(alert@)) ==> {
                &&& route == Some(route_for(alert.severity, old(self).config()))
                &&& final(self).alerts() == keep_last(old(self).alerts().push(alert@), old(self).max_alerts())
                &&& final(self).history() == keep_last(
                    old(self).history().push(alert@),
                    ALERT_HISTORY_LIMIT as nat,
                )
            },
    {
        let now = now_ns();
        let ghost a = alert@;
        let route = self.process_alert_at(alert, now);
        assert(old(self).handled_at(self, a, now, route));
        route
    }

    /// Channels for an alert under this manager's configuration.
    pub fn route_alert(&self, alert: &Alert) -> (r: AlertRoute)
        ensures
            r == route_for(alert.severity, self.config()),
    {
        let rank = alert.severity.rank();
        AlertRoute {
            log: true,
            console: rank >= 3,
            email: self.config.enable_email && rank >= 2,
            slack: self.config.enable_slack && rank >= 1
                && !self.config.slack_webhook_url.as_str().is_empty(),
            pagerduty: self.config.enable_pagerduty && rank >= 3
                && !self.config.pagerduty_integration_key.as_str().is_empty(),
        }
    }

    /// Alerts not resolved yet, oldest first.
    pub fn get_active_alerts(&self) -> (r: Vec<Alert>)
        ensures
            views(r@) == self.alerts().filter(|a: AlertView| !a.resolved),
    {
        let mut r: Vec<Alert> = Vec::new();
        let mut i: usize = 0;
        while i < self.alerts.len()
            invariant
                0 <= i <= self.alerts@.len(),
                views(r@) == self.alerts().take(i as int).filter(|a: AlertView| !a.resolved),
            decreases self.alerts@.len() - i,
        {
            proof {
                reveal_with_fuel(Seq::<_>::filter, 1);
                assert(self.alerts().take(i + 1).drop_last() =~= self.alerts().take(i as int));
            }
            if !self.alerts[i].resolved {
                let ghost before = r@;
                let copy = self.alerts[i].duplicate();
                proof {
                    lemma_views_push(before, copy);
                }
                r.push(copy);
            }
            i = i + 1;
        }
        assert(self.alerts().take(self.alerts@.len() as int) =~= self.alerts());
        r
    }

    /// The `count` most recent alerts of the history, newest first.
    pub fn get_history(&self, count: usize) -> (r: Vec<Alert>)
        ensures
            views(r@) == self.history().reverse().take(
                if count < self.history().len() {
                    count as int
                } else {
                    self.history().len() as int
                },
            ),
    {
        let mut r: Vec<Alert> = Vec::new();
        let n = self.alert_history.len();
        let mut i: usize = 0;
        while i < count && i < n
            invariant
                n == self.alert_history@.len(),
                0 <= i <= n,
                i <= count,
                views(r@) == self.history().reverse().take(i as int),
            decreases n - i,
        {
            let ghost before = r@;
            let copy = self.alert_history[n - 1 - i].duplicate();
            proof {
                lemma_views_push(before, copy);
            }
            r.push(copy);
            assert(views(r@) =~= self.history().reverse().take(i + 1));
            i = i + 1;
        }
        r
    }

    /// Marks the first active alert with id `alert_id` acknowledged; false
    /// when there is none.
    pub fn acknowledge(&mut self, alert_id: u64) -> (found: bool)
        requires
            old(self).wf(),
        ensures
            final(self).wf(),
            final(self).history() == old(self).history(),
            final(self).last_times() == old(self).last_times(),
            final(self).config() == old(self).config(),
            final(self).max_alerts() == old(self).max_alerts(),
            found == (exists|i: int|
                0 <= i < old(self).alerts().len() && old(self).alerts()[i].id == alert_id),
            !found ==> final(self).alerts() == old(self).alerts(),
            found ==> exists|i: int|
                0 <= i < old(self).alerts().len() && old(self).alerts()[i].id == alert_id
                    && (forall|j: int| 0 <= j < i ==> old(self).alerts()[j].id != alert_id)
                    && final(self).alerts() == old(self).alerts().update(
                    i,
                    AlertView { acknowledged: true, ..old(self).alerts()[i] },
                ),
    {
        match self.position_of(alert_id) {
            Some(i) => {
                let ghost before = self.alerts@;
                let mut a = self.alerts.remove(i).unwrap();
                a.acknowledged = true;
                self.alerts.insert(i, a);
                proof {
                    assert(self.alerts@ =~= before.update(i as int, a));
                    assert(self.alerts() =~= old(self).alerts().update(
                        i as int,
                        AlertView { acknowledged: true, ..old(self).alerts()[i as int] },
                    ));
                }
                true
            },
            None => false,
        }
    }

    /// Marks the first active alert with id `alert_id` resolved; false when
    /// there is none.
    pub fn resolve(&mut self, alert_id: u64) -> (found: bool)
        requires
            old(self).wf(),
        ensures
            final(self).wf(),
            final(self).history() == old(self).history(),
            final(self).last_times() == old(self).last_times(),
            final(self).config() == old(self).config(),
            final(self).max_alerts() == old(self).max_alerts(),
            found == (exists|i: int|
                0 <= i < old(self).alerts().len() && old(self).alerts()[i].id == alert_id),
            !found ==> final(self).alerts() == old(self).alerts(),
            found ==> exists|i: int|
                0 <= i < old(self).alerts().len() && old(self).alerts()[i].id == alert_id
                    && (forall|j: int| 0 <= j < i ==> old(self).alerts()[j].id != alert_id)
                    && final(self).alerts() == old(self).alerts().update(
                    i,
                    AlertView { resolved: true, ..old(self).alerts()[i] },
                ),
    {
        match self.position_of(alert_id) {
            Some(i) => {
                let ghost before = self.alerts@;
                let mut a = self.alerts.remove(i).unwrap();
                a.resolved = true;
                self.alerts.insert(i, a);
                proof {
                    assert(self.alerts@ =~= before.update(i as int, a));
                    assert(self.alerts() =~= old(self).alerts().update(
                        i as int,
                        AlertView { resolved: true, ..old(self).alerts()[i as int] },
                    ));
                }
                true
            },
            None => false,
        }
    }

    /// Drops the resolved alerts from the active ones.
    pub fn clear_resolved(&mut self)
        requires
            old(self).wf(),
        ensures
            final(self).wf(),
            final(self).history() == old(self).history(),
            final(self).last_times() == old(self).last_times(),
            final(self).config() == old(self).config(),
            final(self).max_alerts() == old(self).max_alerts(),
            final(self).alerts() == old(self).alerts().filter(|a: AlertView| !a.resolved),
    {
        let mut kept: VecDeque<Alert> = VecDeque::new();
        let ghost all = self.alerts();
        let ghost times = self.last_alert_time@;
        let ghost hist = self.alert_history@;
        let ghost mut taken: int = 0;
        assert(all.take(0).filter(|a: AlertView| !a.resolved) =~= Seq::<AlertView>::empty());
        assert(views(kept@) =~= Seq::<AlertView>::empty());
        assert(all.subrange(0, all.len() as int) =~= all);
        while self.alerts.len() > 0
            invariant
                0 <= taken <= all.len(),
                self.alerts() == all.subrange(taken, all.len() as int),
                self.alerts@.len() == all.len() - taken,
                views(kept@) == all.take(taken).filter(|a: AlertView| !a.resolved),
                self.last_alert_time@ == times,
                self.alert_history@ == hist,
                self.config == old(self).config,
                self.max_alerts == old(self).max_alerts,
            decreases self.alerts@.len(),
        {
            proof {
                lemma_views_tail(self.alerts@);
                reveal_with_fuel(Seq::<_>::filter, 1);
                assert(all.take(taken + 1).drop_last() =~= all.take(taken));
            }
            let ghost prev = self.alerts@;
            assert(self.alerts()[0] == all[taken]);
            assert(self.alerts()[0] == prev[0]@);
            let front = self.alerts.pop_front().unwrap();
            assert(front@ == all[taken]);
            assert(all.take(taken + 1).last() == all[taken]);
            proof {
                taken = taken + 1;
                assert(self.alerts() =~= all.subrange(taken, all.len() as int));
            }
            if !front.resolved {
                let ghost before = kept@;
                proof {
                    lemma_views_push(before, front);
                }
                kept.push_back(front);
            }
        }
        assert(all.take(all.len() as int) =~= all);
        self.alerts = kept;
    }

    fn position_of(&self, alert_id: u64) -> (r: Option<usize>)
        ensures
            r is None ==> !(exists|i: int|
                0 <= i < self.alerts().len() && self.alerts()[i].id == alert_id),
            r matches Some(i) ==> i < self.alerts().len() && self.alerts()[i as int].id == alert_id
                && forall|j: int| 0 <= j < i ==> self.alerts()[j].id != alert_id,
    {
        let mut i: usize = 0;
        while i < self.alerts.len()
            invariant
                0 <= i <= self.alerts@.len(),
                forall|j: int| 0 <= j < i ==> self.alerts()[j].id != alert_id,
            decreases self.alerts@.len() - i,
        {
            if self.alerts[i].id == alert_id {
                return Some(i);
            }
            i = i + 1;
        }
        None
    }

    fn find_key(&self, key: &String) -> (r: Option<usize>)
        requires
            self.wf(),
        ensures
            r matches Some(i) ==> i < self.last_alert_time@.len() && self.last_alert_time@[i as int].0@
                == key@,
            r is None ==> !self.last_times().contains_key(key@),
    {
        let mut i: usize = 0;
        while i < self.last_alert_time.len()
            invariant
                0 <= i <= self.last_alert_time@.len(),
                forall|j: int| 0 <= j < i ==> self.last_alert_time@[j].0@ != key@,
            decreases self.last_alert_time@.len() - i,
        {
            if self.last_alert_time[i].0 == *key {
                return Some(i);
            }
            i = i + 1;
        }
        None
    }

    proof fn lemma_last_times_at(&self, i: int)
        requires
            self.wf(),
            0 <= i < self.last_alert_time@.len(),
        ensures
            self.last_times().contains_key(self.last_alert_time@[i].0@),
            self.last_times()[self.last_alert_time@[i].0@] == self.last_alert_time@[i].1,
    {
        let k = self.last_alert_time@[i].0@;
        let j = choose|j: int| 0 <= j < self.last_alert_time@.len() && self.last_alert_time@[j].0@ == k;
        assert(j == i);
    }

    proof fn lemma_last_times_after_set(&self, before: Seq<(String, u64)>, i: int, now: u64)
        requires
            0 <= i < before.len(),
            self.last_alert_time@ == before.update(i, (self.last_alert_time@[i].0, now)),
            self.last_alert_time@[i].0@ == before[i].0@,
            forall|a: int, b: int| 0 <= a < b < before.len() ==> before[a].0@ != before[b].0@,
        ensures
            self.wf(),
            self.last_times() == Map::new(
                |k: Seq<char>| exists|t: int| 0 <= t < before.len() && before[t].0@ == k,
                |k: Seq<char>| before[choose|t: int| 0 <= t < before.len() && before[t].0@ == k].1,
            ).insert(before[i].0@, now),
    {
        let old_map = Map::new(
            |k: Seq<char>| exists|t: int| 0 <= t < before.len() && before[t].0@ == k,
            |k: Seq<char>| before[choose|t: int| 0 <= t < before.len() && before[t].0@ == k].1,
        );
        let key = before[i].0@;
        assert(old_map.contains_key(key));
        assert forall|k: Seq<char>| #[trigger] self.last_times().contains_key(k) == old_map.insert(key, now).contains_key(k) by {
            if old_map.contains_key(k) {
                let t = choose|t: int| 0 <= t < before.len() && before[t].0@ == k;
                assert(self.last_alert_time@[t].0@ == k);
            }
            if self.last_times().contains_key(k) {
                let t = choose|t: int| 0 <= t < self.last_alert_time@.len() && self.last_alert_time@[t].0@ == k;
                assert(before[t].0@ == k);
            }
        }
        assert forall|k: Seq<char>| self.last_times().contains_key(k) implies self.last_times()[k] == old_map.insert(key, now)[k] by {
            let t = choose|t: int| 0 <= t < self.last_alert_time@.len() && self.last_alert_time@[t].0@ == k;
            let t2 = choose|t2: int| 0 <= t2 < before.len() && before[t2].0@ == k;
            assert(t == t2);
        }
        assert(self.last_times() =~= old_map.insert(key, now));
    }

    proof fn lemma_last_times_after_push(&self, before: Seq<(String, u64)>, now: u64)
        requires
            self.last_alert_time@.len() == before.len() + 1,
            self.last_alert_time@.subrange(0, before.len() as int) == before,
            self.last_alert_time@[before.len() as int].1 == now,
            forall|a: int, b: int| 0 <= a < b < before.len() ==> before[a].0@ != before[b].0@,
            forall|t: int| 0 <= t < before.len() ==> before[t].0@ != self.last_alert_time@[before.len() as int].0@,
        ensures
            self.wf(),
            self.last_times() == Map::new(
                |k: Seq<char>| exists|t: int| 0 <= t < before.len() && before[t].0@ == k,
                |k: Seq<char>| before[choose|t: int| 0 <= t < before.len() && before[t].0@ == k].1,
            ).insert(self.last_alert_time@[before.len() as int].0@, now),
    {
        let n = before.len() as int;
        let key = self.last_alert_time@[n].0@;
        let old_map = Map::new(
            |k: Seq<char>| exists|t: int| 0 <= t < before.len() && before[t].0@ == k,
            |k: Seq<char>| before[choose|t: int| 0 <= t < before.len() && before[t].0@ == k].1,
        );
        assert forall|t: int| 0 <= t < n implies self.last_alert_time@[t] == before[t] by {
            assert(self.last_alert_time@.subrange(0, n)[t] == self.last_alert_time@[t]);
        }
        assert forall|a: int, b: int| 0 <= a < b < self.last_alert_time@.len() implies
            self.last_alert_time@[a].0@ != self.last_alert_time@[b].0@ by {
            if b < n {
                assert(before[a].0@ != before[b].0@);
            } else {
                assert(before[a].0@ != key);
            }
        }
        assert(self.wf());
        assert forall|k: Seq<char>| #[trigger] self.last_times().contains_key(k) == old_map.insert(key, now).contains_key(k) by {
            if old_map.contains_key(k) {
                let t = choose|t: int| 0 <= t < before.len() && before[t].0@ == k;
                assert(self.last_alert_time@[t].0@ == k);
            }
            if k == key {
                assert(self.last_alert_time@[n].0@ == k);
            }
            if self.last_times().contains_key(k) {
                let t = choose|t: int| 0 <= t < self.last_alert_time@.len() && self.last_alert_time@[t].0@ == k;
                if t < n {
                    assert(before[t].0@ == k);
                }
            }
        }
        assert forall|k: Seq<char>| self.last_times().contains_key(k) implies self.last_times()[k] == old_map.insert(key, now)[k] by {
            let t = choose|t: int| 0 <= t < self.last_alert_time@.len() && self.last_alert_time@[t].0@ == k;
            if k != key {
                let t2 = choose|t2: int| 0 <= t2 < before.len() && before[t2].0@ == k;
                assert(self.last_alert_time@[t2].0@ == k);
                assert(t == t2);
            } else {
                assert(t == n);
            }
        }
        assert(self.last_times() =~= old_map.insert(key, now));
    }
}

/// Step of an escalation.
#[derive(Debug, Clone, Copy, PartialEq, Eq, Structural)]
pub enum EscalationAction {
    NotifyManager,
    NotifyTeam,
    HaltTrading,
    EmergencyShutdown,
    CallOnCall,
}

/// One escalation level: from which severity it applies, how long after
/// the previous escalation it may fire, and what it does.
#[derive(Debug)]
pub struct EscalationLevel {
    pub severity_threshold: AlertSeverity,
    pub delay_seconds: u64,
    pub actions: Vec<EscalationAction>,
}

/// Severity-driven escalation through ordered levels.
pub struct EscalationManager {
    levels: Vec<EscalationLevel>,
    current_level: usize,
    last_escalation: Option<u64>,
}

impl EscalationManager {
    /// The levels, lowest first.
    pub closed spec fn levels(&self) -> Seq<EscalationLevel> {
        self.levels@
    }

    /// Index of the next level that may fire.
    pub closed spec fn current_level(&self) -> nat {
        self.current_level as nat
    }

    /// Clock time (ns) of the last escalation, `None` before the first.
    pub closed spec fn last_escalation(&self) -> Option<u64> {
        self.last_escalation
    }

    /// Level `i` applies to `highest` at the current position.
    pub open spec fn qualifies(&self, i: int, highest: AlertSeverity) -> bool {
        &&& 0 <= i < self.levels().len()
        &&& highest.spec_rank() >= self.levels()[i].severity_threshold.spec_rank()
        &&& i >= self.current_level()
    }

    /// The first level that applies to `highest`, if any.
    pub open spec fn candidate(&self, highest: AlertSeverity) -> Option<int> {
        if exists|i: int| self.qualifies(i, highest) {
            Some(
                choose|i: int|
                    self.qualifies(i, highest) && forall|j: int|
                        0 <= j < i ==> !self.qualifies(j, highest),
            )
        } else {
            None
        }
    }

    /// Enough time has passed since the last escalation for level `i` at
    /// `now_ns` (always, before the first escalation).
    pub open spec fn due(&self, i: int, now_ns: u64) -> bool {
        match self.last_escalation() {
            None => true,
            Some(t) => (if now_ns >= t {
                now_ns - t
            } else {
                0
            }) >= self.levels()[i].delay_seconds * 1_000_000_000,
        }
    }

    /// Error after 60s notifies the team; Critical after 30s notifies the
    /// manager and halts trading; Emergency after 10s calls on-call and shuts
    /// down. Nothing has escalated yet.
    pub fn new() -> (m: Self)
        ensures
            m.levels().len() == 3,
            m.levels()[0].severity_threshold == AlertSeverity::Error,
            m.levels()[0].delay_seconds == 60,
            m.levels()[0].actions@ == seq![EscalationAction::NotifyTeam],
            m.levels()[1].severity_threshold == AlertSeverity::Critical,
            m.levels()[1].delay_seconds == 30,
            m.levels()[1].actions@ == seq![
                EscalationAction::NotifyManager,
                EscalationAction::HaltTrading,
            ],
            m.levels()[2].severity_threshold == AlertSeverity::Emergency,
            m.levels()[2].delay_seconds == 10,
            m.levels()[2].actions@ == seq![
                EscalationAction::CallOnCall,
                EscalationAction::EmergencyShutdown,
            ],
            m.current_level() == 0,
            m.last_escalation() is None,
    {
        let mut levels: Vec<EscalationLevel> = Vec::new();
        levels.push(
            EscalationLevel {
                severity_threshold: AlertSeverity::Error,
                delay_seconds: 60,
                actions: vec![EscalationAction::NotifyTeam],
            },
        );
        levels.push(
            EscalationLevel {
                severity_threshold: AlertSeverity::Critical,
                delay_seconds: 30,
                actions: vec![EscalationAction::NotifyManager, EscalationAction::HaltTrading],
            },
        );
        levels.push(
            EscalationLevel {
                severity_threshold: AlertSeverity::Emergency,
                delay_seconds: 10,
                actions: vec![EscalationAction::CallOnCall, EscalationAction::EmergencyShutdown],
            },
        );
        EscalationManager { levels, current_level: 0, last_escalation: None }
    }

    /// Escalates for `highest` at time `now_ns`: the first level at or above
    /// the current one whose threshold `highest` reaches fires when it is
    /// due, handing out its actions and moving the current level past it.
    /// `after` with result `actions` is this manager having checked for
    /// escalation at `highest` at time `now_ns` (see `check_escalation_at`).
    pub open spec fn escalated_at(
        &self,
        after: &EscalationManager,
        highest: AlertSeverity,
        now_ns: u64,
        actions: Seq<EscalationAction>,
    ) -> bool {
        &&& after.levels() == self.levels()
        &&& match self.candidate(highest) {
            Some(i) => if self.due(i, now_ns) {
                &&& actions == self.levels()[i].actions@
                &&& after.current_level() == i + 1
                &&& after.last_escalation() == Some(now_ns)
            } else {
                &&& actions == Seq::<EscalationAction>::empty()
                &&& after.current_level() == self.current_level()
                &&& after.last_escalation() == self.last_escalation()
            },
            None => {
                &&& actions == Seq::<EscalationAction>::empty()
                &&& after.current_level() == self.current_level()
                &&& after.last_escalation() == self.last_escalation()
            },
        }
    }

    pub fn check_escalation_at(&mut self, highest_severity: AlertSeverity, now_ns: u64) -> (actions:
        Vec<EscalationAction>)
        ensures
            final(self).levels() == old(self).levels(),
            match old(self).candidate(highest_severity) {
                Some(i) => if old(self).due(i, now_ns) {
                    &&& actions@ == old(self).levels()[i].actions@
                    &&& final(self).current_level() == i + 1
                    &&& final(self).last_escalation() == Some(now_ns)
                } else {
                    &&& actions@ == Seq::<EscalationAction>::empty()
                    &&& final(self).current_level() == old(self).current_level()
                    &&& final(self).last_escalation() == old(self).last_escalation()
                },
                None => {
                    &&& actions@ == Seq::<EscalationAction>::empty()
                    &&& final(self).current_level() == old(self).current_level()
                    &&& final(self).last_escalation() == old(self).last_escalation()
                },
            },
    {
        let mut actions: Vec<EscalationAction> = Vec::new();
        let mut i: usize = 0;
        let n = self.levels.len();
        while i < n
            invariant
                n == self.levels@.len(),
                0 <= i <= n,
                self.levels@ == old(self).levels@,
                self.current_level == old(self).current_level,
                self.last_escalation == old(self).last_escalation,
                actions@ == Seq::<EscalationAction>::empty(),
                forall|j: int| 0 <= j < i ==> !old(self).qualifies(j, highest_severity),
            decreases n - i,
        {
            if highest_severity.at_least(&self.levels[i].severity_threshold)
                && i >= self.current_level {
                assert(old(self).qualifies(i as int, highest_severity));
                let ghost c = old(self).candidate(highest_severity);
                assert(c == Some(i as int)) by {
                    let k = choose|k: int|
                        old(self).qualifies(k, highest_severity) && forall|j: int|
                            0 <= j < k ==> !old(self).qualifies(j, highest_severity);
                    if k < i {
                    } else if k > i {
                        assert(!old(self).qualifies(i as int, highest_severity));
                    }
                }
                let due = match self.last_escalation {
                    None => true,
                    Some(t) => {
                        let elapsed: u64 = if now_ns >= t {
                            now_ns - t
                        } else {
                            0
                        };
                        (elapsed as u128) >= (self.levels[i].delay_seconds as u128)
                            * 1_000_000_000
                    },
                };
                if due {
                    let mut k: usize = 0;
                    while k < self.levels[i].actions.len()
                        invariant
                            i < n,
                            n == self.levels@.len(),
                            0 <= k <= self.levels@[i as int].actions@.len(),
                            actions@ == self.levels@[i as int].actions@.take(k as int),
                        decreases self.levels@[i as int].actions@.len() - k,
                    {
                        actions.push(self.levels[i].actions[k]);
                        assert(actions@ =~= self.levels@[i as int].actions@.take(k + 1));
                        k = k + 1;
                    }
                    assert(actions@ =~= self.levels@[i as int].actions@);
                    self.current_level = i + 1;
                    self.last_escalation = Some(now_ns);
                }
                return actions;
            }
            i = i + 1;
        }
        assert(old(self).candidate(highest_severity) is None);
        actions
    }

    /// Escalates for `highest` at the current clock time (see
    /// `check_escalation_at`). Before the first escalation no waiting
    /// applies, so the result then does not depend on the clock.
    pub fn check_escalation(&mut self, highest_severity: AlertSeverity) -> (actions: Vec<
        EscalationAction,
    >)
        ensures
            final(self).levels() == old(self).levels(),
            old(self).candidate(highest_severity) is None ==> actions@ == Seq::<
                EscalationAction,
            >::empty(),
            old(self).candidate(highest_severity) matches Some(i) ==> (actions@ == Seq::<
                EscalationAction,
            >::empty() || actions@ == old(self).levels()[i].actions@),
            old(self).last_escalation() is None ==> (old(self).candidate(
                highest_severity,
            ) matches Some(i) ==> actions@ == old(self).levels()[i].actions@),
            exists|now_ns: u64|
                #[trigger] old(self).escalated_at(final(self), highest_severity, now_ns, actions@),
            final(self).current_level() >= old(self).current_level(),
    {
        let now = now_ns();
        let actions = self.check_escalation_at(highest_severity, now);
        assert(old(self).escalated_at(self, highest_severity, now, actions@));
        proof {
            law_escalation_never_goes_back(*old(self), *self, highest_severity, now, actions@);
        }
        actions
    }

    /// Starts over from the first level, waiting from now.
    pub fn reset(&mut self)
        ensures
            final(self).levels() == old(self).levels(),
            final(self).current_level() == 0,
            final(self).last_escalation() is Some,
    {
        self.current_level = 0;
        self.last_escalation = Some(now_ns());
    }
}


/// Once an alert has got through at `passed_ns`, another with the same key
/// before the cooldown has elapsed is held back.
pub proof fn law_repeat_within_cooldown_is_dropped(
    m: AlertManager,
    key: Seq<char>,
    passed_ns: u64,
    later_ns: u64,
)
    requires
        m.last_times().contains_key(key),
        m.last_times()[key] == passed_ns,
        passed_ns <= later_ns,
        later_ns - passed_ns < m.config().cooldown_ms * 1_000_000,
    ensures
        m.in_cooldown(key, later_ns),
{
}

/// An alert that got through at `t0` holds back a second one with the same
/// source and title handled before the cooldown has elapsed: it is dropped
/// and the active alerts, the history and the cooldown times stay as they
/// were.
pub proof fn law_cooldown_drops_repeat(
    m: AlertManager,
    m1: AlertManager,
    m2: AlertManager,
    a1: AlertView,
    a2: AlertView,
    t0: u64,
    t: u64,
    r1: Option<AlertRoute>,
    r2: Option<AlertRoute>,
)
    requires
        m.handled_at(&m1, a1, t0, r1),
        r1 is Some,
        m1.handled_at(&m2, a2, t, r2),
        cooldown_key(a2) == cooldown_key(a1),
        t0 <= t,
        t - t0 < m.config().cooldown_ms * 1_000_000,
    ensures
        r2 is None,
        m2.alerts() == m1.alerts(),
        m2.history() == m1.history(),
        m2.last_times() == m1.last_times(),
{
    assert(m1.last_times()[cooldown_key(a1)] == t0);
    assert(m1.in_cooldown(cooldown_key(a2), t));
}

/// Escalation only moves up: a level that applies is at or above the
/// current position, so escalating to it moves the position forward.
pub proof fn law_escalation_moves_up(m: EscalationManager, highest: AlertSeverity)
    ensures
        m.candidate(highest) matches Some(i) ==> i >= m.current_level() && i < m.levels().len(),
{
    if exists|i: int| m.qualifies(i, highest) {
        let i = choose|i: int| m.qualifies(i, highest);
        let j = lemma_first_qualifying(m, highest, i);
    }
}

/// A check for escalation never moves the level back: it stays, or moves
/// past the level that fired, and the same level cannot fire twice.
pub proof fn law_escalation_never_goes_back(
    m: EscalationManager,
    after: EscalationManager,
    highest: AlertSeverity,
    now_ns: u64,
    actions: Seq<EscalationAction>,
)
    requires
        m.escalated_at(&after, highest, now_ns, actions),
    ensures
        after.current_level() >= m.current_level(),
        actions.len() > 0 ==> after.current_level() > m.current_level(),
{
    law_escalation_moves_up(m, highest);
}

proof fn lemma_first_qualifying(m: EscalationManager, highest: AlertSeverity, i: int) -> (j: int)
    requires
        m.qualifies(i, highest),
    ensures
        m.qualifies(j, highest),
        forall|k: int| 0 <= k < j ==> !m.qualifies(k, highest),
    decreases i,
{
    if exists|k: int| 0 <= k < i && m.qualifies(k, highest) {
        let k = choose|k: int| 0 <= k < i && m.qualifies(k, highest);
        lemma_first_qualifying(m, highest, k)
    } else {
        i
    }
}
/// Channels by severity: every accepted alert is logged; the console gets
/// only Critical and Emergency alerts; email, when enabled, gets Error and
/// above; the chat channel, when enabled with a webhook, gets Warning and
/// above; paging, when enabled with a key, gets Critical and above. Info
/// goes only to the log.
pub proof fn law_routing_by_severity(severity: AlertSeverity, config: AlertManagerConfig)
    ensures
        route_for(severity, config).log,
        route_for(severity, config).console <==> (severity == AlertSeverity::Critical || severity
            == AlertSeverity::Emergency),
        route_for(severity, config).email <==> (config.enable_email && severity != AlertSeverity::Info
            && severity != AlertSeverity::Warning),
        route_for(severity, config).slack <==> (config.enable_slack && severity != AlertSeverity::Info
            && config.slack_webhook_url@.len() > 0),
        route_for(severity, config).pagerduty <==> (config.enable_pagerduty && (severity
            == AlertSeverity::Critical || severity == AlertSeverity::Emergency)
            && config.pagerduty_integration_key@.len() > 0),
{
}

} // verus!
