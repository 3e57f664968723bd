use raycaster::world::entity::{EffectType, EnemyState, EnemyStep, DEAD_BODY_TEXTURE};

#[test]
fn idle_enemy_notices_near_player() {
    let step = EnemyState::Idle.step(false, true);
    assert_eq!(step, EnemyStep { state: EnemyState::Chasing, dies: false, chases: false });
}

#[test]
fn idle_enemy_stays_idle_when_player_far() {
    let step = EnemyState::Idle.step(false, false);
    assert_eq!(step, EnemyStep { state: EnemyState::Idle, dies: false, chases: false });
}

#[test]
fn chasing_enemy_chases() {
    let step = EnemyState::Chasing.step(false, false);
    assert_eq!(step, EnemyStep { state: EnemyState::Chasing, dies: false, chases: true });
}

#[test]
fn depleted_enemy_dies() {
    for state in [EnemyState::Idle, EnemyState::Chasing] {
        for near in [false, true] {
            let step = state.step(true, near);
            assert_eq!(step, EnemyStep { state: EnemyState::Dead, dies: true, chases: false });
        }
    }
    assert_eq!(DEAD_BODY_TEXTURE, 8);
}

#[test]
fn dead_enemy_stays_dead() {
    let mut state = EnemyState::Dead;
    for (depleted, near) in [(true, true), (false, true), (false, false), (true, false)] {
        let step = state.step(depleted, near);
        assert!(!step.dies);
        assert!(!step.chases);
        state = step.state;
        assert_eq!(state, EnemyState::Dead);
    }
}

#[test]
fn chasing_enemy_never_goes_idle() {
    let mut state = EnemyState::Chasing;
    for near in [false, true, false] {
        state = state.step(false, near).state;
        assert_eq!(state, EnemyState::Chasing);
    }
}

#[test]
fn effect_types_compare() {
    assert_eq!(EffectType::Heal, EffectType::Heal);
    assert_ne!(EffectType::Heal, EffectType::Damage);
    assert_ne!(EffectType::Ammo, EffectType::Damage);
}
