//! The game screen: what is created when it is entered, how its entities move on
//! each tick, and what is removed when it is left.

use crate::direction::{
    length_squared, lemma_normalized_is_unit, lemma_normalized_part_range, normalize, normalized,
    Direction, UNIT_SQUARED,
};
use crate::input::{lemma_direction_is_unit, Keys};
use crate::position::{
    distance, lemma_scaled_part, lemma_step_length, lemma_step_of, step, step_of, Offset, Position,
};
use crate::window::Window;
use crate::world::{
    census, is_member, lemma_census_tail, single, Enemy, Entity, GameState, Kind, Player, Role,
    World,
};
use vstd::prelude::*;

verus! {

/// The speed of the player, in pixels per second.
pub const PLAYER_SPEED: u16 = 500;

/// The speed of an enemy, in pixels per second.
pub const ENEMY_SPEED: u16 = 200;

/// The number of enemies that are created when the screen is entered.
pub const ENEMY_COUNT: usize = 6;

/// Half the side of a sprite.
pub const HALF_SPRITE: i64 = 32_000_000;

/// The number of values that the fraction of a draw can take.
pub const DRAW_STEPS: u32 = 16_777_216;

/// The camera that looks at the middle of the window.
pub open spec fn camera_in(window: Window) -> Entity {
    Entity { position: window.center(), role: Role::Camera, screen: Some(GameState::Game) }
}

/// The player in the middle of the window.
pub open spec fn player_in(window: Window) -> Entity {
    Entity {
        position: window.center(),
        role: Role::Player(Player {  }),
        screen: Some(GameState::Game),
    }
}

/// Creates the camera of the game screen, over the middle of the window.
pub fn spawn_camera(world: &mut World, window: &Window)
    ensures
        final(world)@ == old(world)@.push(Some(camera_in(*window))),
{
    let camera = Entity {
        position: window.center(),
        role: Role::Camera,
        screen: Some(GameState::Game),
    };
    world.spawn(camera);
}

/// Creates the player in the middle of the window.
pub fn spawn_player(world: &mut World, window: &Window)
    ensures
        final(world)@ == old(world)@.push(Some(player_in(*window))),
{
    let player = Entity {
        position: window.center(),
        role: Role::Player(Player {  }),
        screen: Some(GameState::Game),
    };
    world.spawn(player);
}

/// The four random numbers that place one enemy and give it its direction.
#[derive(Clone, Copy, Debug, PartialEq, Eq, Structural)]
pub struct Draws {
    pub x: u32,
    pub y: u32,
    pub direction_x: u32,
    pub direction_y: u32,
}

/// The upper 24 bits of a draw. Divided by `DRAW_STEPS` they are a number from
/// zero up to, but not including, one.
pub open spec fn fraction(draw: u32) -> int {
    draw as int / 256
}

/// Where an enemy is put along a side of the window: the share of the side that
/// the draw gives, rounded down, moved to half a sprite from the near edge where
/// it is nearer, and else to half a sprite from the far edge where it is beyond.
pub open spec fn spawn_coordinate(draw: u32, side: int) -> int {
    let scaled = fraction(draw) * side / (DRAW_STEPS as int);
    if scaled < HALF_SPRITE {
        HALF_SPRITE as int
    } else if scaled > side - HALF_SPRITE {
        side - HALF_SPRITE
    } else {
        scaled
    }
}

/// The enemy that the draws give in the window.
pub open spec fn enemy_from(window: Window, draws: Draws) -> Entity {
    Entity {
        position: Position {
            x: spawn_coordinate(draws.x, window.width() as int) as i64,
            y: spawn_coordinate(draws.y, window.height() as int) as i64,
        },
        role: Role::Enemy(
            Enemy {
                direction: normalized(fraction(draws.direction_x), fraction(draws.direction_y)),
            },
        ),
        screen: Some(GameState::Game),
    }
}

/// The share of a side that a draw gives lies on the side.
pub proof fn lemma_scaled_draw(draw: u32, side: int)
    requires
        0 <= side,
    ensures
        0 <= fraction(draw) < DRAW_STEPS,
        0 <= fraction(draw) * side / (DRAW_STEPS as int) <= side,
        side > 0 ==> fraction(draw) * side / (DRAW_STEPS as int) < side,
{
    let k = fraction(draw);
    let p = k * side;
    assert(0 <= p <= (DRAW_STEPS - 1) * side) by (nonlinear_arith)
        requires
            0 <= k <= DRAW_STEPS - 1,
            0 <= side,
            p == k * side,
    ;
}

/// In a window that has room for a sprite, an enemy is put at least half a sprite
/// from each edge.
pub proof fn lemma_spawn_coordinate_in_bounds(draw: u32, side: int)
    requires
        2 * HALF_SPRITE <= side,
    ensures
        HALF_SPRITE <= spawn_coordinate(draw, side) <= side - HALF_SPRITE,
{
}

/// In a window that has room for a sprite, every enemy is created at least half a
/// sprite from each edge of the window.
pub proof fn lemma_enemy_position(window: Window, draws: Draws)
    requires
        2 * HALF_SPRITE <= window.width(),
        2 * HALF_SPRITE <= window.height(),
    ensures
        HALF_SPRITE <= enemy_from(window, draws).position.x <= window.width() - HALF_SPRITE,
        HALF_SPRITE <= enemy_from(window, draws).position.y <= window.height() - HALF_SPRITE,
{
    lemma_spawn_coordinate_in_bounds(draws.x, window.width() as int);
    lemma_spawn_coordinate_in_bounds(draws.y, window.height() as int);
}

/// The direction that an enemy is created with.
pub open spec fn enemy_direction(draws: Draws) -> Direction {
    normalized(fraction(draws.direction_x), fraction(draws.direction_y))
}

/// Every enemy is created with a direction whose components are not negative. The
/// direction has length one, up to rounding, unless both fractions drawn for it
/// are zero; then it is zero.
pub proof fn lemma_enemy_direction(window: Window, draws: Draws)
    ensures
        enemy_from(window, draws).role == Role::Enemy(
            Enemy { direction: enemy_direction(draws) },
        ),
        enemy_direction(draws).x >= 0,
        enemy_direction(draws).y >= 0,
        fraction(draws.direction_x) != 0 || fraction(draws.direction_y) != 0 ==> enemy_direction(
            draws,
        ).is_unit(),
        fraction(draws.direction_x) == 0 && fraction(draws.direction_y) == 0 ==> enemy_direction(
            draws,
        ).is_zero(),
{
    let a = fraction(draws.direction_x);
    let b = fraction(draws.direction_y);
    lemma_normalized_part_range(a, b);
    lemma_normalized_part_range(b, a);
    if a != 0 || b != 0 {
        lemma_normalized_is_unit(a, b);
    }
}

fn coordinate(draw: u32, side: i64) -> (c: i64)
    requires
        0 <= side,
    ensures
        c == spawn_coordinate(draw, side as int),
{
    let k: u32 = draw / 256;
    proof {
        lemma_scaled_draw(draw, side as int);
        assert(k * side <= 0x100_0000 * 0x8000_0000_0000_0000) by (nonlinear_arith)
            requires
                0 <= k <= 0x100_0000,
                0 <= side <= 0x8000_0000_0000_0000,
        ;
    }
    let product: u128 = (k as u128) * (side as u128);
    let scaled: i64 = (product / (DRAW_STEPS as u128)) as i64;
    if scaled < HALF_SPRITE {
        HALF_SPRITE
    } else if scaled > side - HALF_SPRITE {
        side - HALF_SPRITE
    } else {
        scaled
    }
}

/// The enemy that the draws give in the window.
pub fn enemy_from_draws(window: &Window, draws: &Draws) -> (enemy: Entity)
    ensures
        enemy == enemy_from(*window, *draws),
{
    let x: i64 = coordinate(draws.x, window.width());
    let y: i64 = coordinate(draws.y, window.height());
    let direction = normalize((draws.direction_x / 256) as i32, (draws.direction_y / 256) as i32);
    Entity {
        position: Position { x, y },
        role: Role::Enemy(Enemy { direction }),
        screen: Some(GameState::Game),
    }
}

/// A draw from the generator of the running thread, through `rand::random`.
/// Nothing is claimed of the number that comes back.
#[verifier::external_body]
fn random_draw() -> (draw: u32) {
    rand::random::<u32>()
}

/// The slot holds an enemy that some draws give in the window.
pub open spec fn is_new_enemy(slot: Option<Entity>, window: Window) -> bool {
    exists|draws: Draws| slot == Some(#[trigger] enemy_from(window, draws))
}

/// `after` is `before` with `ENEMY_COUNT` new enemies behind it.
pub open spec fn spawned_enemies(
    before: Seq<Option<Entity>>,
    after: Seq<Option<Entity>>,
    window: Window,
) -> bool {
    &&& after.len() == before.len() + ENEMY_COUNT
    &&& after.take(before.len() as int) == before
    &&& forall|i: int| before.len() <= i < after.len() ==> is_new_enemy(#[trigger] after[i], window)
}

/// Creating the enemies adds `ENEMY_COUNT` to the enemies of the game screen, and
/// nothing to its cameras and players.
pub proof fn lemma_spawned_enemies_count(
    before: Seq<Option<Entity>>,
    after: Seq<Option<Entity>>,
    window: Window,
)
    requires
        spawned_enemies(before, after, window),
    ensures
        census(after, Kind::Enemy, GameState::Game) == census(
            before,
            Kind::Enemy,
            GameState::Game,
        ) + ENEMY_COUNT,
        census(after, Kind::Player, GameState::Game) == census(
            before,
            Kind::Player,
            GameState::Game,
        ),
        census(after, Kind::Camera, GameState::Game) == census(
            before,
            Kind::Camera,
            GameState::Game,
        ),
{
    let n = before.len() as int;
    assert forall|i: int| n <= i < after.len() implies is_member(
        #[trigger] after[i],
        Kind::Enemy,
        GameState::Game,
    ) && !is_member(after[i], Kind::Player, GameState::Game) && !is_member(
        after[i],
        Kind::Camera,
        GameState::Game,
    ) by {
        assert(is_new_enemy(after[i], window));
    }
    lemma_census_tail(after, n, Kind::Enemy, GameState::Game);
    lemma_census_tail(after, n, Kind::Player, GameState::Game);
    lemma_census_tail(after, n, Kind::Camera, GameState::Game);
}

/// Every enemy that is created belongs to the game screen and has a direction
/// whose components are not negative, of length one up to rounding, or zero. In a
/// window that has room for a sprite it lies at least half a sprite from each edge.
pub proof fn lemma_spawned_enemy(
    before: Seq<Option<Entity>>,
    after: Seq<Option<Entity>>,
    window: Window,
    i: int,
)
    requires
        spawned_enemies(before, after, window),
        before.len() <= i < after.len(),
    ensures
        after[i] is Some,
        after[i]->Some_0.screen == Some(GameState::Game),
        after[i]->Some_0.role is Enemy,
        after[i]->Some_0.role->Enemy_0.direction.x >= 0,
        after[i]->Some_0.role->Enemy_0.direction.y >= 0,
        after[i]->Some_0.role->Enemy_0.direction.is_unit()
            || after[i]->Some_0.role->Enemy_0.direction.is_zero(),
        2 * HALF_SPRITE <= window.width() ==> HALF_SPRITE <= after[i]->Some_0.position.x
            <= window.width() - HALF_SPRITE,
        2 * HALF_SPRITE <= window.height() ==> HALF_SPRITE <= after[i]->Some_0.position.y
            <= window.height() - HALF_SPRITE,
{
    assert(is_new_enemy(after[i], window));
    let draws = choose|draws: Draws| after[i] == Some(#[trigger] enemy_from(window, draws));
    lemma_enemy_direction(window, draws);
    if 2 * HALF_SPRITE <= window.width() {
        lemma_spawn_coordinate_in_bounds(draws.x, window.width() as int);
    }
    if 2 * HALF_SPRITE <= window.height() {
        lemma_spawn_coordinate_in_bounds(draws.y, window.height() as int);
    }
}

/// Creates `ENEMY_COUNT` enemies, each placed and directed by four new draws.
pub fn spawn_enemies(world: &mut World, window: &Window)
    ensures
        spawned_enemies(old(world)@, final(world)@, *window),
{
    let ghost before = world@;
    let mut made: usize = 0;
    while made < ENEMY_COUNT
        invariant
            made <= ENEMY_COUNT,
            world@.len() == before.len() + made,
            world@.take(before.len() as int) == before,
            forall|i: int|
                before.len() <= i < world@.len() ==> is_new_enemy(#[trigger] world@[i], *window),
        decreases ENEMY_COUNT - made,
    {
        let draws = Draws {
            x: random_draw(),
            y: random_draw(),
            direction_x: random_draw(),
            direction_y: random_draw(),
        };
        let enemy = enemy_from_draws(window, &draws);
        let ghost earlier = world@;
        world.spawn(enemy);
        proof {
            assert(world@.take(before.len() as int) =~= earlier.take(before.len() as int));
            assert forall|i: int| before.len() <= i < world@.len() implies is_new_enemy(
                #[trigger] world@[i],
                *window,
            ) by {
                if i < earlier.len() {
                    assert(world@[i] == earlier[i]);
                } else {
                    assert(world@[i] == Some(enemy_from(*window, draws)));
                }
            }
        }
        made = made + 1;
    }
}

/// The step that the player takes in `elapsed` microseconds with these keys held.
pub open spec fn player_step(keys: Keys, elapsed: u32) -> Offset {
    step_of(keys.direction(), PLAYER_SPEED, elapsed)
}

/// In one tick the player moves no farther than its speed covers in the time
/// elapsed, whatever keys are held down, and exactly that far where the keys ask
/// for one direction alone.
pub proof fn lemma_player_step(keys: Keys, elapsed: u32)
    ensures
        length_squared(player_step(keys, elapsed).x as int, player_step(keys, elapsed).y as int)
            <= distance(PLAYER_SPEED as int, elapsed as int) * distance(
            PLAYER_SPEED as int,
            elapsed as int,
        ),
        keys.active() == 1 ==> length_squared(
            player_step(keys, elapsed).x as int,
            player_step(keys, elapsed).y as int,
        ) == distance(PLAYER_SPEED as int, elapsed as int) * distance(
            PLAYER_SPEED as int,
            elapsed as int,
        ),
        keys.pull_x() == 0 && keys.pull_y() == 0 ==> player_step(keys, elapsed) == (Offset {
            x: 0,
            y: 0,
        }),
{
    let d = keys.direction();
    let m = distance(PLAYER_SPEED as int, elapsed as int);
    assert(0 <= m) by (nonlinear_arith)
        requires
            m == PLAYER_SPEED * elapsed,
            0 <= elapsed,
            PLAYER_SPEED == 500,
    ;
    lemma_direction_is_unit(keys);
    lemma_step_of(d, PLAYER_SPEED, elapsed);
    lemma_scaled_part(d.x as int, m);
    lemma_scaled_part(d.y as int, m);
    assert(length_squared(d.x as int, d.y as int) <= UNIT_SQUARED) by {
        if d.is_zero() {
            assert(0int * 0int == 0) by (nonlinear_arith);
        }
    }
    lemma_step_length(d, PLAYER_SPEED as int, elapsed as int);
    if keys.active() == 1 {
        let by = player_step(keys, elapsed);
        assert(by.x == 0 && (by.y == m || by.y == -m) || by.y == 0 && (by.x == m || by.x == -m));
        assert(length_squared(by.x as int, by.y as int) == m * m) by (nonlinear_arith)
            requires
                by.x == 0 && (by.y == m || by.y == -m) || by.y == 0 && (by.x == m || by.x == -m),
        ;
    }
}

/// The entity, moved by `by`.
pub open spec fn moved(entity: Entity, by: Offset) -> Entity {
    Entity { position: entity.position.moved_by(by), role: entity.role, screen: entity.screen }
}

/// The world after the player has moved: where there is exactly one player, it
/// has taken its step; in every other case nothing has changed.
pub open spec fn after_player_movement(
    slots: Seq<Option<Entity>>,
    keys: Keys,
    elapsed: u32,
) -> Seq<Option<Entity>> {
    match single(slots, Kind::Player) {
        Some(i) => slots.update(i, Some(moved(slots[i]->Some_0, player_step(keys, elapsed)))),
        None => slots,
    }
}

/// The step of the player, if there is exactly one, stays within the coordinates
/// that a position can hold.
pub open spec fn player_can_move(slots: Seq<Option<Entity>>, keys: Keys, elapsed: u32) -> bool {
    single(slots, Kind::Player) matches Some(i) ==> slots[i]->Some_0.position.can_move_by(
        player_step(keys, elapsed),
    )
}

/// Whether `player_movement` may be called.
pub fn player_fits(world: &World, keys: &Keys, elapsed: u32) -> (b: bool)
    ensures
        b == player_can_move(world@, *keys, elapsed),
{
    match world.single(Kind::Player) {
        Some(handle) => match world.get(handle) {
            Some(entity) => {
                let by = step(keys.direction(), PLAYER_SPEED, elapsed);
                entity.position.fits(&by)
            },
            None => true,
        },
        None => true,
    }
}

/// Moves the player, if there is exactly one, along the direction that the keys
/// ask for, by the length that its speed covers in `elapsed` microseconds.
pub fn player_movement(world: &mut World, keys: &Keys, elapsed: u32)
    requires
        player_can_move(old(world)@, *keys, elapsed),
    ensures
        final(world)@ == after_player_movement(old(world)@, *keys, elapsed),
{
    match world.single(Kind::Player) {
        Some(handle) => match world.get(handle) {
            Some(entity) => {
                let by = step(keys.direction(), PLAYER_SPEED, elapsed);
                let mut position = entity.position;
                position.move_by(&by);
                world.set(handle, Some(Entity { position, role: entity.role, screen: entity.screen }));
            },
            None => {},
        },
        None => {},
    }
}

/// The slot after a tick: an enemy has taken its step, anything else is as before.
pub open spec fn tick_enemy(slot: Option<Entity>, elapsed: u32) -> Option<Entity> {
    match slot {
        Some(entity) => match entity.role {
            Role::Enemy(enemy) => Some(
                moved(entity, step_of(enemy.direction, ENEMY_SPEED, elapsed)),
            ),
            _ => slot,
        },
        None => slot,
    }
}

/// The world after every enemy has taken its step.
pub open spec fn after_enemy_movement(slots: Seq<Option<Entity>>, elapsed: u32) -> Seq<
    Option<Entity>,
> {
    Seq::new(slots.len(), |i: int| tick_enemy(slots[i], elapsed))
}

/// If the slot holds an enemy, its step stays within the coordinates that a
/// position can hold.
pub open spec fn enemy_can_move(slot: Option<Entity>, elapsed: u32) -> bool {
    match slot {
        Some(entity) => match entity.role {
            Role::Enemy(enemy) => entity.position.can_move_by(
                step_of(enemy.direction, ENEMY_SPEED, elapsed),
            ),
            _ => true,
        },
        None => true,
    }
}

/// The step of every enemy stays within the coordinates that a position can hold.
pub open spec fn enemies_can_move(slots: Seq<Option<Entity>>, elapsed: u32) -> bool {
    forall|i: int| 0 <= i < slots.len() ==> enemy_can_move(#[trigger] slots[i], elapsed)
}

/// Whether `enemy_movement` may be called.
pub fn enemies_fit(world: &World, elapsed: u32) -> (b: bool)
    ensures
        b == enemies_can_move(world@, elapsed),
{
    let n: usize = world.len();
    let mut i: usize = 0;
    while i < n
        invariant
            i <= n,
            n == world@.len(),
            forall|j: int| 0 <= j < i ==> enemy_can_move(#[trigger] world@[j], elapsed),
        decreases n - i,
    {
        match world.get(i) {
            Some(entity) => match entity.role {
                Role::Enemy(enemy) => {
                    let by = step(enemy.direction, ENEMY_SPEED, elapsed);
                    if !entity.position.fits(&by) {
                        assert(!enemy_can_move(world@[i as int], elapsed));
                        return false;
                    }
                },
                _ => {},
            },
            None => {},
        }
        i = i + 1;
    }
    true
}

/// Moves every enemy along its direction, by the length that its speed covers in
/// `elapsed` microseconds.
pub fn enemy_movement(world: &mut World, elapsed: u32)
    requires
        enemies_can_move(old(world)@, elapsed),
    ensures
        final(world)@ == after_enemy_movement(old(world)@, elapsed),
{
    let ghost before = world@;
    let n: usize = world.len();
    let mut i: usize = 0;
    while i < n
        invariant
            i <= n,
            n == before.len(),
            world@.len() == before.len(),
            enemies_can_move(before, elapsed),
            forall|j: int| 0 <= j < i ==> #[trigger] world@[j] == tick_enemy(before[j], elapsed),
            forall|j: int| i <= j < n ==> #[trigger] world@[j] == before[j],
        decreases n - i,
    {
        match world.get(i) {
            Some(entity) => match entity.role {
                Role::Enemy(enemy) => {
                    assert(enemy_can_move(before[i as int], elapsed));
                    let by = step(enemy.direction, ENEMY_SPEED, elapsed);
                    let mut position = entity.position;
                    position.move_by(&by);
                    world.set(i, Some(Entity { position, role: entity.role, screen: entity.screen }));
                },
                _ => {},
            },
            None => {},
        }
        i = i + 1;
    }
    assert(world@ =~= after_enemy_movement(before, elapsed));
}

/// The picture that an entity of the given kind is drawn with, by the name that
/// it is loaded under: the blue ball for the player, the red ball for an enemy.
/// A camera has none.
pub fn sprite(kind: Kind) -> (path: Option<&'static str>)
    ensures
        kind == Kind::Player ==> (path matches Some(p) && p@ == "sprites/ball_blue_large.png"@),
        kind == Kind::Enemy ==> (path matches Some(p) && p@ == "sprites/ball_red_large.png"@),
        kind == Kind::Camera ==> path is None,
{
    match kind {
        Kind::Player => Some("sprites/ball_blue_large.png"),
        Kind::Enemy => Some("sprites/ball_red_large.png"),
        Kind::Camera => None,
    }
}

} // verus!
