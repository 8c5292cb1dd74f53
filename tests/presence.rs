use mc_sync::presence::{PowerEdge, PresenceDetector, VoiceTransition};

fn t(previous: Option<u64>, new: Option<u64>) -> VoiceTransition {
    VoiceTransition { previous_channel: previous, new_channel: new }
}

#[test]
fn edges_fire_once_per_zero_crossing() {
    let mut d = PresenceDetector::new();
    assert_eq!(d.observe(t(None, Some(1))), Some(PowerEdge::Activate));
    assert_eq!(d.observe(t(None, Some(1))), None);
    assert_eq!(d.connected(), 2);
    // moving between channels is no edge
    assert_eq!(d.observe(t(Some(1), Some(2))), None);
    // muting is no edge either
    assert_eq!(d.observe(t(Some(2), Some(2))), None);
    assert_eq!(d.connected(), 2);
    assert_eq!(d.observe(t(Some(2), None)), None);
    assert_eq!(d.observe(t(Some(1), None)), Some(PowerEdge::Deactivate));
    assert_eq!(d.connected(), 0);
}

#[test]
fn quit_at_zero_saturates() {
    let mut d = PresenceDetector::new();
    assert_eq!(d.observe(t(Some(3), None)), None);
    assert_eq!(d.connected(), 0);
    assert_eq!(d.observe(t(None, Some(3))), Some(PowerEdge::Activate));
    assert_eq!(d.connected(), 1);
}

#[test]
fn leaving_nowhere_is_ignored() {
    let mut d = PresenceDetector::new();
    assert_eq!(d.observe(t(None, None)), None);
    assert_eq!(d.connected(), 0);
}

#[test]
fn count_equals_joins_minus_quits() {
    let mut d = PresenceDetector::new();
    let seq = [
        t(None, Some(1)),
        t(None, Some(2)),
        t(None, Some(1)),
        t(Some(1), None),
        t(Some(2), Some(1)),
        t(None, Some(2)),
    ];
    let mut edges = Vec::new();
    for x in seq.iter() {
        if let Some(e) = d.observe(*x) {
            edges.push(e);
        }
    }
    assert_eq!(d.connected(), 3);
    assert_eq!(edges, vec![PowerEdge::Activate]);
}
