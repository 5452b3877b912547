use colony::selection::{HitCandidate, SelectedTarget, best_hit};

fn distance_key(distance: f32) -> u32 {
    distance.to_bits()
}

#[test]
fn best_hit_prefers_priority_before_distance() {
    let close_resource = HitCandidate {
        target: SelectedTarget::Resource(1),
        distance_key: distance_key(0.1),
        priority: 3,
    };
    let farther_colonist = HitCandidate {
        target: SelectedTarget::Colonist(2),
        distance_key: distance_key(0.6),
        priority: 0,
    };

    assert_eq!(
        best_hit(&[close_resource, farther_colonist]).unwrap().target,
        SelectedTarget::Colonist(2)
    );
}

#[test]
fn best_hit_uses_distance_inside_same_priority() {
    let farther = HitCandidate {
        target: SelectedTarget::Building(1),
        distance_key: distance_key(0.8),
        priority: 2,
    };
    let closer = HitCandidate {
        target: SelectedTarget::Building(2),
        distance_key: distance_key(0.2),
        priority: 2,
    };

    assert_eq!(
        best_hit(&[farther, closer]).unwrap().target,
        SelectedTarget::Building(2)
    );
}

#[test]
fn best_hit_breaks_full_ties_by_entity_id() {
    let later = HitCandidate {
        target: SelectedTarget::Resource(9),
        distance_key: distance_key(0.5),
        priority: 3,
    };
    let earlier = HitCandidate {
        target: SelectedTarget::Resource(4),
        distance_key: distance_key(0.5),
        priority: 3,
    };

    assert_eq!(best_hit(&[later, earlier]).unwrap().target, SelectedTarget::Resource(4));
    assert_eq!(SelectedTarget::Colonist(7).entity(), 7);
}

#[test]
fn best_hit_of_nothing_is_nothing() {
    assert!(best_hit(&[]).is_none());
}
