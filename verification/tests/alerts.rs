use hft_stealth::monitoring::detection_tracker::DetectionRiskLevel;
use hft_stealth::monitoring::alerts::{
    Alert, AlertManager, AlertSeverity, EscalationAction, EscalationManager,
};

#[test]
fn test_alert_creation() {
    let alert = Alert::latency_breach("pipeline", 2_000_000, 1_000_000);
    assert_eq!(alert.severity, AlertSeverity::Critical);
    assert!(alert.title.contains("Latency breach"));
}

#[test]
fn test_escalation() {
    let mut escalation = EscalationManager::new();

    let actions = escalation.check_escalation(AlertSeverity::Critical);
    assert!(!actions.is_empty());
}

#[test]
fn latency_breach_severity_bands() {
    assert_eq!(Alert::latency_breach("a", 1_500_000, 1_000_000).severity, AlertSeverity::Error);
    assert_eq!(Alert::latency_breach("a", 1_999_999, 1_000_000).severity, AlertSeverity::Error);
    assert_eq!(Alert::latency_breach("a", 3_000_001, 1_000_000).severity, AlertSeverity::Critical);
}

#[test]
fn repeated_alert_within_cooldown_is_dropped() {
    let mut manager = AlertManager::new();
    let first = Alert::new_at("Disk", "full", AlertSeverity::Error, 1_000);
    let second = Alert::new_at("Disk", "still full", AlertSeverity::Error, 2_000);
    assert!(manager.process_alert_at(first, 1_000).is_some());
    assert!(manager.process_alert_at(second, 1_000 + 1_000_000).is_none());
    assert_eq!(manager.get_active_alerts().len(), 1);
    let third = Alert::new_at("Disk", "again", AlertSeverity::Error, 3_000);
    assert!(manager.process_alert_at(third, 1_000 + 10_000_000_000).is_some());
    assert_eq!(manager.get_active_alerts().len(), 2);
}

#[test]
fn acknowledge_and_resolve_are_idempotent() {
    let mut manager = AlertManager::new();
    let alert = Alert::new_at("Feed", "stale", AlertSeverity::Warning, 77);
    manager.process_alert_at(alert, 77);
    assert!(manager.acknowledge(77));
    assert!(manager.acknowledge(77));
    assert!(manager.resolve(77));
    assert!(manager.resolve(77));
    assert!(!manager.acknowledge(78));
    manager.clear_resolved();
    assert!(manager.get_active_alerts().is_empty());
}

#[test]
fn escalation_moves_up_and_waits() {
    let mut escalation = EscalationManager::new();
    let actions = escalation.check_escalation_at(AlertSeverity::Emergency, 5);
    assert_eq!(actions, vec![EscalationAction::NotifyTeam]);
    let again = escalation.check_escalation_at(AlertSeverity::Emergency, 6);
    assert!(again.is_empty());
    let later = escalation.check_escalation_at(AlertSeverity::Emergency, 5 + 30_000_000_000);
    assert_eq!(later, vec![EscalationAction::NotifyManager, EscalationAction::HaltTrading]);
    escalation.reset();
    assert!(escalation.check_escalation_at(AlertSeverity::Error, 7).is_empty());
    let restarted = escalation.check_escalation_at(AlertSeverity::Error, u64::MAX);
    assert_eq!(restarted, vec![EscalationAction::NotifyTeam]);
}

#[test]
fn info_does_not_escalate() {
    let mut escalation = EscalationManager::new();
    assert!(escalation.check_escalation_at(AlertSeverity::Info, 1).is_empty());
}

#[test]
fn detection_risk_severity_follows_the_level() {
    assert_eq!(Alert::detection_risk_severity(DetectionRiskLevel::Low), AlertSeverity::Info);
    assert_eq!(Alert::detection_risk_severity(DetectionRiskLevel::Medium), AlertSeverity::Warning);
    assert_eq!(Alert::detection_risk_severity(DetectionRiskLevel::High), AlertSeverity::Error);
    assert_eq!(Alert::detection_risk_severity(DetectionRiskLevel::VeryHigh), AlertSeverity::Critical);
    assert_eq!(Alert::detection_risk_severity(DetectionRiskLevel::Critical), AlertSeverity::Emergency);
}

#[test]
fn severity_names_and_channel_levels() {
    assert_eq!(AlertSeverity::Emergency.label(), "EMERGENCY");
    assert_eq!(AlertSeverity::Info.label(), "INFO");
    assert_eq!(AlertSeverity::Error.slack_color(), "danger");
    assert_eq!(AlertSeverity::Warning.slack_color(), "warning");
    assert_eq!(AlertSeverity::Info.slack_color(), "good");
    assert_eq!(AlertSeverity::Emergency.pagerduty_severity(), "critical");
    assert_eq!(AlertSeverity::Error.pagerduty_severity(), "error");
    assert_eq!(AlertSeverity::Warning.pagerduty_severity(), "warning");
}

#[test]
fn clock_escalation_fires_a_level_once() {
    let mut escalation = EscalationManager::new();
    let first = escalation.check_escalation(AlertSeverity::Error);
    assert_eq!(first, vec![EscalationAction::NotifyTeam]);
    assert!(escalation.check_escalation(AlertSeverity::Error).is_empty());
}
