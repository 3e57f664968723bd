use vstd::prelude::*;

verus! {

/// The states an enemy goes through.
#[derive(Clone, Copy, Debug, PartialEq, Eq, Structural)]
pub enum EnemyState {
    Idle,
    Chasing,
    Dead,
}

/// What a pickup does to the player.
#[derive(Clone, Copy, Debug, PartialEq, Eq, Structural)]
pub enum EffectType {
    Heal,
    Damage,
    Ammo,
}

/// The texture an enemy is drawn with once dead (its body).
pub const DEAD_BODY_TEXTURE: usize = 8;

/// What one update does to an enemy.
#[derive(Clone, Copy, Debug, PartialEq, Eq, Structural)]
pub struct EnemyStep {
    /// The enemy's state after the update.
    pub state: EnemyState,
    /// Whether the enemy died in this update, and is to be drawn as a dead body from now on.
    pub dies: bool,
    /// Whether the enemy chases the player in this update (moves towards them, when not
    /// already within reach).
    pub chases: bool,
}

/// The state after one update: an enemy whose health has run out dies; an idle enemy
/// that sees the player near starts chasing; otherwise the state stays.
pub open spec fn next_enemy_state(state: EnemyState, hp_depleted: bool, player_near: bool) -> EnemyState {
    if hp_depleted && state != EnemyState::Dead {
        EnemyState::Dead
    } else if state == EnemyState::Idle && player_near {
        EnemyState::Chasing
    } else {
        state
    }
}

/// The state after a run of updates, each given as (health run out, player near).
pub open spec fn enemy_state_after(state: EnemyState, updates: Seq<(bool, bool)>) -> EnemyState
    decreases updates.len(),
{
    if updates.len() == 0 {
        state
    } else {
        next_enemy_state(
            enemy_state_after(state, updates.drop_last()),
            updates.last().0,
            updates.last().1,
        )
    }
}

impl EnemyState {
    /// One update of an enemy's behaviour, given whether its health has run out
    /// (is at most 0) and whether the player is near (closer than 8 units).
    ///
    /// An enemy whose health has run out and that is not dead yet dies. Then an idle enemy
    /// starts chasing when the player is near (and moves from the next update on), a chasing
    /// enemy chases, and a dead one does nothing.
    pub fn step(self, hp_depleted: bool, player_near: bool) -> (step: EnemyStep)
        ensures
            step.state == next_enemy_state(self, hp_depleted, player_near),
            step.dies == (hp_depleted && self != EnemyState::Dead),
            step.chases == (self == EnemyState::Chasing && !hp_depleted),
    {
        let mut state = self;
        let mut dies = false;
        // if HP drops below 0 and not dead, die
        if hp_depleted && !matches!(state, EnemyState::Dead) {
            state = EnemyState::Dead;
            dies = true;
        }
        let mut chases = false;
        match state {
            EnemyState::Idle => {
                if player_near {
                    state = EnemyState::Chasing;
                }
            },
            EnemyState::Chasing => {
                chases = true;
            },
            EnemyState::Dead => {},
        }
        EnemyStep { state, dies, chases }
    }
}

/// The whole transition table of an update: the enemy is dead afterwards exactly when it
/// was dead or its health ran out; otherwise it chases exactly when it was chasing or the
/// player came near, and is idle otherwise.
pub proof fn lemma_enemy_transitions(state: EnemyState, hp_depleted: bool, player_near: bool)
    ensures
        (next_enemy_state(state, hp_depleted, player_near) == EnemyState::Dead) == (hp_depleted
            || state == EnemyState::Dead),
        (next_enemy_state(state, hp_depleted, player_near) == EnemyState::Chasing) == (!hp_depleted
            && state != EnemyState::Dead && (state == EnemyState::Chasing || player_near)),
        (next_enemy_state(state, hp_depleted, player_near) == EnemyState::Idle) == (!hp_depleted
            && state == EnemyState::Idle && !player_near),
{
}

/// A dead enemy stays dead, whatever happens afterwards.
pub proof fn lemma_dead_stays_dead(updates: Seq<(bool, bool)>)
    ensures
        enemy_state_after(EnemyState::Dead, updates) == EnemyState::Dead,
    decreases updates.len(),
{
    if updates.len() > 0 {
        lemma_dead_stays_dead(updates.drop_last());
    }
}

/// An enemy whose health has run out is dead after the update and stays dead.
pub proof fn lemma_depleted_enemy_dies(state: EnemyState, player_near: bool, later: Seq<(bool, bool)>)
    ensures
        enemy_state_after(next_enemy_state(state, true, player_near), later) == EnemyState::Dead,
{
    lemma_dead_stays_dead(later);
}

/// A chasing enemy keeps chasing until it dies: it never goes back to idle.
pub proof fn lemma_chasing_never_idles(updates: Seq<(bool, bool)>)
    ensures
        enemy_state_after(EnemyState::Chasing, updates) != EnemyState::Idle,
    decreases updates.len(),
{
    if updates.len() > 0 {
        lemma_chasing_never_idles(updates.drop_last());
    }
}

} // verus!
