//! The life of the game screen: which systems run when it is entered, on each tick
//! while it is shown, and when it is left.

use crate::game::{
    after_enemy_movement, after_player_movement, camera_in, enemies_can_move, enemies_fit,
    enemy_can_move, enemy_movement, player_can_move, player_fits, player_in,
    lemma_spawned_enemies_count, player_movement, spawn_camera, spawn_enemies, spawn_player,
    spawned_enemies, ENEMY_COUNT,
};
use crate::input::Keys;
use crate::window::Window;
use crate::world::{
    census, despawned, lemma_census_push, lemma_despawned, single, Entity, GameState, Kind, World,
};
use vstd::prelude::*;

verus! {

/// The time that the timer of the game screen runs for, in seconds.
pub const TIMER_SECONDS: u64 = 3;

/// The moments at which systems run.
#[derive(Clone, Copy, Debug, PartialEq, Eq, Structural)]
pub enum Schedule {
    /// The application has entered the state.
    OnEnter(GameState),
    /// A tick, while the application is in the state.
    Update(GameState),
    /// The application is leaving the state.
    OnExit(GameState),
}

/// What a run of systems is given from outside: the window, if there is one, the
/// keys held down and the time since the last tick, in microseconds.
#[derive(Clone, Copy, Debug)]
pub struct Frame {
    pub window: Option<Window>,
    pub keys: Keys,
    pub elapsed: u32,
}

/// `after` is `before` with what entering the game screen creates behind it: the
/// camera, then the player, then the enemies.
pub open spec fn entered(
    before: Seq<Option<Entity>>,
    after: Seq<Option<Entity>>,
    window: Window,
) -> bool {
    spawned_enemies(
        before.push(Some(camera_in(window))).push(Some(player_in(window))),
        after,
        window,
    )
}

/// The world after a tick of the game screen: the player has moved, then the
/// enemies.
pub open spec fn updated(slots: Seq<Option<Entity>>, keys: Keys, elapsed: u32) -> Seq<
    Option<Entity>,
> {
    after_enemy_movement(after_player_movement(slots, keys, elapsed), elapsed)
}

/// Every step of a tick stays within the coordinates that a position can hold.
pub open spec fn can_update(slots: Seq<Option<Entity>>, keys: Keys, elapsed: u32) -> bool {
    player_can_move(slots, keys, elapsed) && enemies_can_move(slots, elapsed)
}

/// The world after a run of the systems that the game screen has on `schedule`.
/// Entering is left out: what it creates is drawn at random.
pub open spec fn ran(slots: Seq<Option<Entity>>, schedule: Schedule, frame: Frame) -> Seq<
    Option<Entity>,
> {
    match schedule {
        Schedule::Update(GameState::Game) => updated(slots, frame.keys, frame.elapsed),
        Schedule::OnExit(GameState::Game) => despawned(slots, GameState::Game),
        _ => slots,
    }
}

/// Moving the player leaves every enemy where it is.
pub proof fn lemma_player_movement_keeps_enemies(
    slots: Seq<Option<Entity>>,
    keys: Keys,
    elapsed: u32,
)
    requires
        enemies_can_move(slots, elapsed),
    ensures
        enemies_can_move(after_player_movement(slots, keys, elapsed), elapsed),
{
    let after = after_player_movement(slots, keys, elapsed);
    assert forall|i: int| 0 <= i < after.len() implies enemy_can_move(
        #[trigger] after[i],
        elapsed,
    ) by {
        if after[i] != slots[i] {
            assert(single(slots, Kind::Player) == Some(i));
        } else {
            assert(enemy_can_move(slots[i], elapsed));
        }
    }
}

/// Entering the game screen adds one camera, one player and `ENEMY_COUNT` enemies
/// to what the game screen owns.
pub proof fn lemma_entered_count(
    before: Seq<Option<Entity>>,
    after: Seq<Option<Entity>>,
    window: Window,
)
    requires
        entered(before, after, window),
    ensures
        after.len() == before.len() + 2 + ENEMY_COUNT,
        census(after, Kind::Camera, GameState::Game) == census(
            before,
            Kind::Camera,
            GameState::Game,
        ) + 1,
        census(after, Kind::Player, GameState::Game) == census(
            before,
            Kind::Player,
            GameState::Game,
        ) + 1,
        census(after, Kind::Enemy, GameState::Game) == census(
            before,
            Kind::Enemy,
            GameState::Game,
        ) + ENEMY_COUNT,
{
    let camera = Some(camera_in(window));
    let player = Some(player_in(window));
    let with_camera = before.push(camera);
    let with_player = with_camera.push(player);
    lemma_census_push(before, camera, Kind::Camera, GameState::Game);
    lemma_census_push(before, camera, Kind::Player, GameState::Game);
    lemma_census_push(before, camera, Kind::Enemy, GameState::Game);
    lemma_census_push(with_camera, player, Kind::Camera, GameState::Game);
    lemma_census_push(with_camera, player, Kind::Player, GameState::Game);
    lemma_census_push(with_camera, player, Kind::Enemy, GameState::Game);
    lemma_spawned_enemies_count(with_player, after, window);
}

/// Leaving the game screen and entering it again gives the same counts each time:
/// the game screen then owns one camera, one player and `ENEMY_COUNT` enemies,
/// whatever the world held before.
pub proof fn lemma_reentered_count(
    slots: Seq<Option<Entity>>,
    after: Seq<Option<Entity>>,
    window: Window,
)
    requires
        entered(despawned(slots, GameState::Game), after, window),
    ensures
        census(after, Kind::Camera, GameState::Game) == 1,
        census(after, Kind::Player, GameState::Game) == 1,
        census(after, Kind::Enemy, GameState::Game) == ENEMY_COUNT,
{
    lemma_despawned(slots, GameState::Game);
    lemma_entered_count(despawned(slots, GameState::Game), after, window);
}

/// Whether the systems of `Schedule::Update(GameState::Game)` may run.
pub fn update_fits(world: &World, frame: &Frame) -> (b: bool)
    ensures
        b == can_update(world@, frame.keys, frame.elapsed),
{
    player_fits(world, &frame.keys, frame.elapsed) && enemies_fit(world, frame.elapsed)
}

/// Runs the systems that the game screen has on `schedule`, in their order.
///
/// On entering the game: the camera, the player and the enemies are created, which
/// takes a window. On a tick in the game: the player moves, then the enemies. On
/// leaving the game: every entity that the game screen owns is removed. On any
/// other schedule the game screen has no system, and the world stays as it is.
pub fn game_plugin(world: &mut World, schedule: Schedule, frame: &Frame)
    requires
        schedule == Schedule::OnEnter(GameState::Game) ==> frame.window is Some,
        schedule == Schedule::Update(GameState::Game) ==> can_update(
            old(world)@,
            frame.keys,
            frame.elapsed,
        ),
    ensures
        schedule == Schedule::OnEnter(GameState::Game) ==> entered(
            old(world)@,
            final(world)@,
            frame.window->Some_0,
        ),
        schedule != Schedule::OnEnter(GameState::Game) ==> final(world)@ == ran(
            old(world)@,
            schedule,
            *frame,
        ),
{
    match schedule {
        Schedule::OnEnter(GameState::Game) => {
            match &frame.window {
                Some(window) => {
                    spawn_camera(world, window);
                    spawn_player(world, window);
                    spawn_enemies(world, window);
                },
                None => {},
            }
        },
        Schedule::Update(GameState::Game) => {
            proof {
                lemma_player_movement_keeps_enemies(old(world)@, frame.keys, frame.elapsed);
            }
            player_movement(world, &frame.keys, frame.elapsed);
            enemy_movement(world, frame.elapsed);
        },
        Schedule::OnExit(GameState::Game) => {
            world.despawn_screen(GameState::Game);
        },
        _ => {},
    }
}

/// The state to go to once the timer of the game screen has been ticked: the menu
/// when the timer has finished, and no change before that.
pub fn game(finished: bool) -> (next: Option<GameState>)
    ensures
        next == if finished {
            Some(GameState::Menu)
        } else {
            None::<GameState>
        },
{
    if finished {
        Some(GameState::Menu)
    } else {
        None
    }
}

} // verus!
