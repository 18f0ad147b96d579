use game_screen::direction::{Direction, UNIT, UNIT_SQUARED};
use game_screen::game::{
    enemies_fit, enemy_from_draws, enemy_movement, player_fits, player_movement, spawn_camera,
    spawn_enemies, spawn_player, sprite, Draws, ENEMY_COUNT, ENEMY_SPEED, HALF_SPRITE,
    PLAYER_SPEED,
};
use game_screen::input::Keys;
use game_screen::position::Position;
use game_screen::screen::{game, game_plugin, update_fits, Frame, Schedule, TIMER_SECONDS};
use game_screen::window::Window;
use game_screen::world::{Enemy, Entity, GameState, Kind, Player, Role, World};

const PIXEL: i64 = 1_000_000;

fn window() -> Window {
    Window::new(800 * PIXEL, 600 * PIXEL).unwrap()
}

fn frame(keys: Keys, elapsed: u32) -> Frame {
    Frame { window: Some(window()), keys, elapsed }
}

fn right() -> Keys {
    let mut held = Keys::none();
    held.arrow_right = true;
    held
}

fn enemy_at(x: i64, y: i64, direction: Direction, screen: Option<GameState>) -> Entity {
    Entity { position: Position { x, y }, role: Role::Enemy(Enemy { direction }), screen }
}

fn player_at(x: i64, y: i64) -> Entity {
    Entity {
        position: Position { x, y },
        role: Role::Player(Player {}),
        screen: Some(GameState::Game),
    }
}

fn slots(world: &World) -> Vec<Option<Entity>> {
    (0..world.len()).map(|handle| world.get(handle)).collect()
}

#[test]
fn constants() {
    assert_eq!(PLAYER_SPEED, 500);
    assert_eq!(ENEMY_SPEED, 200);
    assert_eq!(ENEMY_COUNT, 6);
    assert_eq!(HALF_SPRITE, 32 * PIXEL);
    assert_eq!(TIMER_SECONDS, 3);
}

#[test]
fn window_sides_are_not_negative() {
    assert!(Window::new(-1, 10).is_none());
    assert!(Window::new(10, -1).is_none());
    assert!(Window::new(i64::MIN, i64::MIN).is_none());
    let w = Window::new(0, 0).unwrap();
    assert_eq!((w.width(), w.height()), (0, 0));
    let w = Window::new(i64::MAX, 7).unwrap();
    assert_eq!((w.width(), w.height()), (i64::MAX, 7));
}

#[test]
fn window_center_is_half_of_each_side() {
    assert_eq!(window().center(), Position { x: 400 * PIXEL, y: 300 * PIXEL });
    assert_eq!(Window::new(5, 9).unwrap().center(), Position { x: 2, y: 4 });
    assert_eq!(Window::new(0, 1).unwrap().center(), Position { x: 0, y: 0 });
}

#[test]
fn new_world_is_empty() {
    let world = World::new();
    assert_eq!(world.len(), 0);
    assert_eq!(world.get(0), None);
    assert_eq!(world.single(Kind::Player), None);
    assert_eq!(world.census(Kind::Player, GameState::Game), 0);
}

#[test]
fn handles_count_up_and_stay() {
    let mut world = World::new();
    let a = world.spawn(player_at(1, 2));
    let b = world.spawn(enemy_at(3, 4, Direction { x: UNIT, y: 0 }, Some(GameState::Menu)));
    assert_eq!((a, b), (0, 1));
    world.despawn_screen(GameState::Game);
    assert_eq!(world.len(), 2);
    assert_eq!(world.get(a), None);
    assert_eq!(
        world.get(b),
        Some(enemy_at(3, 4, Direction { x: UNIT, y: 0 }, Some(GameState::Menu)))
    );
    let c = world.spawn(player_at(5, 6));
    assert_eq!(c, 2);
    assert_eq!(world.get(7), None);
}

#[test]
fn set_replaces_one_slot() {
    let mut world = World::new();
    world.spawn(player_at(1, 2));
    world.spawn(player_at(3, 4));
    world.set(0, None);
    assert_eq!(slots(&world), vec![None, Some(player_at(3, 4))]);
    world.set(1, Some(player_at(9, 9)));
    assert_eq!(slots(&world), vec![None, Some(player_at(9, 9))]);
}

#[test]
fn role_kinds() {
    assert_eq!(Role::Camera.kind(), Kind::Camera);
    assert_eq!(Role::Player(Player {}).kind(), Kind::Player);
    assert_eq!(Role::Enemy(Enemy { direction: Direction { x: 0, y: 0 } }).kind(), Kind::Enemy);
}

#[test]
fn camera_is_spawned_over_the_middle() {
    let mut world = World::new();
    spawn_camera(&mut world, &window());
    assert_eq!(
        slots(&world),
        vec![Some(Entity {
            position: Position { x: 400 * PIXEL, y: 300 * PIXEL },
            role: Role::Camera,
            screen: Some(GameState::Game),
        })]
    );
}

#[test]
fn player_is_spawned_in_the_middle() {
    let mut world = World::new();
    world.spawn(enemy_at(1, 1, Direction { x: 0, y: UNIT }, None));
    spawn_player(&mut world, &window());
    assert_eq!(world.len(), 2);
    assert_eq!(world.get(0), Some(enemy_at(1, 1, Direction { x: 0, y: UNIT }, None)));
    assert_eq!(world.get(1), Some(player_at(400 * PIXEL, 300 * PIXEL)));
    assert_eq!(world.single(Kind::Player), Some(1));
}

#[test]
fn enemy_from_the_smallest_draws() {
    let e = enemy_from_draws(&window(), &Draws { x: 0, y: 0, direction_x: 0x100, direction_y: 0 });
    assert_eq!(e, enemy_at(32 * PIXEL, 32 * PIXEL, Direction { x: UNIT, y: 0 }, Some(GameState::Game)));
}

#[test]
fn enemy_from_the_largest_draws() {
    let e = enemy_from_draws(
        &window(),
        &Draws { x: u32::MAX, y: u32::MAX, direction_x: u32::MAX, direction_y: 0 },
    );
    assert_eq!(
        e,
        enemy_at(768 * PIXEL, 568 * PIXEL, Direction { x: UNIT, y: 0 }, Some(GameState::Game))
    );
}

#[test]
fn enemy_from_middle_draws() {
    let e = enemy_from_draws(
        &window(),
        &Draws {
            x: 0x8000_0000,
            y: 0x4000_0000,
            direction_x: 0x8000_0000,
            direction_y: 0x8000_0000,
        },
    );
    assert_eq!(
        e,
        enemy_at(
            400 * PIXEL,
            150 * PIXEL,
            Direction { x: 11_863_283, y: 11_863_283 },
            Some(GameState::Game)
        )
    );
    let e = enemy_from_draws(
        &window(),
        &Draws {
            x: 0xc000_0000,
            y: 0xc000_0000,
            direction_x: 0x3000_0000,
            direction_y: 0x4000_0000,
        },
    );
    assert_eq!(
        e,
        enemy_at(
            600 * PIXEL,
            450 * PIXEL,
            Direction { x: 10_066_329, y: 13_421_772 },
            Some(GameState::Game)
        )
    );
}

#[test]
fn enemy_draw_uses_the_upper_24_bits() {
    let a = enemy_from_draws(
        &window(),
        &Draws { x: 0x1234_5600, y: 0x9abc_de00, direction_x: 0x1234_5600, direction_y: 0x9abc_de00 },
    );
    let b = enemy_from_draws(
        &window(),
        &Draws { x: 0x1234_56ff, y: 0x9abc_deff, direction_x: 0x1234_56ff, direction_y: 0x9abc_deff },
    );
    assert_eq!(a, b);
    assert_eq!(a.role, Role::Enemy(Enemy { direction: Direction { x: 1_960_270, y: 16_662_302 } }));
}

#[test]
fn enemy_with_no_direction_drawn_stands_still() {
    let e = enemy_from_draws(
        &window(),
        &Draws { x: 0x8000_0000, y: 0x8000_0000, direction_x: 0xff, direction_y: 0xff },
    );
    assert_eq!(e.role, Role::Enemy(Enemy { direction: Direction { x: 0, y: 0 } }));
}

#[test]
fn enemy_near_an_edge_is_moved_in() {
    let e = enemy_from_draws(
        &window(),
        &Draws { x: 0x0a00_0000, y: 0xf800_0000, direction_x: 1 << 8, direction_y: 0 },
    );
    assert_eq!(e.position, Position { x: 32 * PIXEL, y: 568 * PIXEL });
}

#[test]
fn enemy_in_a_window_too_small_for_a_sprite() {
    let small = Window::new(40 * PIXEL, 40 * PIXEL).unwrap();
    let e = enemy_from_draws(
        &small,
        &Draws { x: 0, y: u32::MAX, direction_x: 1 << 8, direction_y: 0 },
    );
    assert_eq!(e.position, Position { x: 32 * PIXEL, y: 8 * PIXEL });
    let e = enemy_from_draws(
        &small,
        &Draws { x: 0xd000_0000, y: 0x1000_0000, direction_x: 1 << 8, direction_y: 0 },
    );
    assert_eq!(e.position, Position { x: 8 * PIXEL, y: 32 * PIXEL });
    let empty = Window::new(0, 0).unwrap();
    let e = enemy_from_draws(
        &empty,
        &Draws { x: u32::MAX, y: 0, direction_x: 1 << 8, direction_y: 0 },
    );
    assert_eq!(e.position, Position { x: 32 * PIXEL, y: 32 * PIXEL });
}

#[test]
fn enemy_in_the_largest_window() {
    let huge = Window::new(i64::MAX, i64::MAX).unwrap();
    let e = enemy_from_draws(
        &huge,
        &Draws { x: u32::MAX, y: 0x8000_0000, direction_x: 1 << 8, direction_y: 0 },
    );
    assert_eq!(e.position.x, ((((1i128 << 24) - 1) * (i64::MAX as i128)) >> 24) as i64);
    assert_eq!(e.position.x, 9_223_371_487_098_961_919);
    assert_eq!(e.position.y, ((1i128 << 23) * (i64::MAX as i128) >> 24) as i64);
}

#[test]
fn six_enemies_are_spawned() {
    let mut world = World::new();
    world.spawn(player_at(1, 2));
    spawn_enemies(&mut world, &window());
    assert_eq!(world.len(), 7);
    assert_eq!(world.get(0), Some(player_at(1, 2)));
    assert_eq!(world.census(Kind::Enemy, GameState::Game), 6);
    for handle in 1..7 {
        let entity = world.get(handle).unwrap();
        assert_eq!(entity.screen, Some(GameState::Game));
        assert_eq!(entity.role.kind(), Kind::Enemy);
    }
}

#[test]
fn spawned_enemies_lie_within_the_window() {
    for _ in 0..50 {
        let mut world = World::new();
        spawn_enemies(&mut world, &window());
        for handle in 0..world.len() {
            let p = world.get(handle).unwrap().position;
            assert!(32 * PIXEL <= p.x && p.x <= 768 * PIXEL);
            assert!(32 * PIXEL <= p.y && p.y <= 568 * PIXEL);
        }
    }
}

#[test]
fn spawned_enemies_have_unit_directions_in_one_quadrant() {
    for _ in 0..50 {
        let mut world = World::new();
        spawn_enemies(&mut world, &window());
        for handle in 0..world.len() {
            match world.get(handle).unwrap().role {
                Role::Enemy(Enemy { direction }) => {
                    assert!(direction.x >= 0 && direction.y >= 0);
                    let len = (direction.x as i128) * (direction.x as i128)
                        + (direction.y as i128) * (direction.y as i128);
                    if len != 0 {
                        assert!(len <= UNIT_SQUARED as i128);
                        assert!(len > UNIT_SQUARED as i128 - 4 * (UNIT as i128));
                        let length = (len as f64).sqrt() / (UNIT as f64);
                        assert!((length - 1.0).abs() < 1.0e-6);
                    }
                }
                _ => panic!("not an enemy"),
            }
        }
    }
}

#[test]
fn spawned_enemies_differ_from_run_to_run() {
    let mut first = World::new();
    spawn_enemies(&mut first, &window());
    let mut second = World::new();
    spawn_enemies(&mut second, &window());
    assert_ne!(slots(&first), slots(&second));
}

#[test]
fn player_moves_right() {
    let mut world = World::new();
    spawn_player(&mut world, &window());
    assert!(player_fits(&world, &right(), 16_000));
    player_movement(&mut world, &right(), 16_000);
    assert_eq!(slots(&world), vec![Some(player_at(408 * PIXEL, 300 * PIXEL))]);
}

#[test]
fn player_moves_along_a_diagonal() {
    let mut world = World::new();
    spawn_player(&mut world, &window());
    let mut held = Keys::none();
    held.key_h = true;
    held.arrow_down = true;
    player_movement(&mut world, &held, 16_000);
    assert_eq!(
        world.get(0),
        Some(player_at(400 * PIXEL - 5_656_854, 300 * PIXEL - 5_656_854))
    );
}

#[test]
fn player_stays_without_keys_or_time() {
    let mut world = World::new();
    spawn_player(&mut world, &window());
    player_movement(&mut world, &Keys::none(), 16_000);
    assert_eq!(world.get(0), Some(player_at(400 * PIXEL, 300 * PIXEL)));
    player_movement(&mut world, &right(), 0);
    assert_eq!(world.get(0), Some(player_at(400 * PIXEL, 300 * PIXEL)));
    let mut held = right();
    held.key_h = true;
    player_movement(&mut world, &held, 16_000);
    assert_eq!(world.get(0), Some(player_at(400 * PIXEL, 300 * PIXEL)));
}

#[test]
fn player_may_leave_the_window() {
    let mut world = World::new();
    world.spawn(player_at(0, 0));
    let mut held = Keys::none();
    held.arrow_left = true;
    player_movement(&mut world, &held, 1_000_000);
    assert_eq!(world.get(0), Some(player_at(-500 * PIXEL, 0)));
}

#[test]
fn player_movement_leaves_the_others() {
    let mut world = World::new();
    let enemy = enemy_at(5, 5, Direction { x: UNIT, y: 0 }, Some(GameState::Game));
    world.spawn(enemy);
    spawn_camera(&mut world, &window());
    spawn_player(&mut world, &window());
    let camera = world.get(1);
    player_movement(&mut world, &right(), 1_000);
    assert_eq!(world.get(0), Some(enemy));
    assert_eq!(world.get(1), camera);
    assert_eq!(world.get(2), Some(player_at(400 * PIXEL + 500_000, 300 * PIXEL)));
}

#[test]
fn no_player_moves_unless_there_is_exactly_one() {
    let mut world = World::new();
    world.spawn(enemy_at(5, 5, Direction { x: UNIT, y: 0 }, None));
    let before = slots(&world);
    assert!(player_fits(&world, &right(), 16_000));
    player_movement(&mut world, &right(), 16_000);
    assert_eq!(slots(&world), before);

    world.spawn(player_at(1, 1));
    world.spawn(player_at(2, 2));
    let before = slots(&world);
    assert_eq!(world.single(Kind::Player), None);
    player_movement(&mut world, &right(), 16_000);
    assert_eq!(slots(&world), before);

    world.set(1, None);
    assert_eq!(world.single(Kind::Player), Some(2));
    player_movement(&mut world, &right(), 16_000);
    assert_eq!(world.get(2), Some(player_at(2 + 8 * PIXEL, 2)));
}

#[test]
fn player_at_the_end_of_the_coordinates_does_not_fit() {
    let mut world = World::new();
    world.spawn(player_at(i64::MAX - 10, 0));
    assert!(!player_fits(&world, &right(), 16_000));
    assert!(player_fits(&world, &Keys::none(), 16_000));
    let mut held = Keys::none();
    held.arrow_left = true;
    assert!(player_fits(&world, &held, 16_000));
    assert!(!update_fits(&world, &frame(right(), 16_000)));
    assert!(update_fits(&world, &frame(held, 16_000)));
}

#[test]
fn enemies_move_along_their_directions() {
    let mut world = World::new();
    world.spawn(enemy_at(0, 0, Direction { x: UNIT, y: 0 }, Some(GameState::Game)));
    world.spawn(player_at(7, 7));
    world.spawn(enemy_at(
        100,
        200,
        Direction { x: 10_066_329, y: 13_421_772 },
        Some(GameState::Game),
    ));
    world.spawn(enemy_at(-5, -5, Direction { x: 0, y: -UNIT }, None));
    world.spawn(enemy_at(9, 9, Direction { x: 0, y: 0 }, Some(GameState::Menu)));
    assert!(enemies_fit(&world, 1_000_000));
    enemy_movement(&mut world, 1_000_000);
    assert_eq!(
        slots(&world),
        vec![
            Some(enemy_at(200 * PIXEL, 0, Direction { x: UNIT, y: 0 }, Some(GameState::Game))),
            Some(player_at(7, 7)),
            Some(enemy_at(
                100 + 119_999_992,
                200 + 159_999_990,
                Direction { x: 10_066_329, y: 13_421_772 },
                Some(GameState::Game)
            )),
            Some(enemy_at(-5, -5 - 200 * PIXEL, Direction { x: 0, y: -UNIT }, None)),
            Some(enemy_at(9, 9, Direction { x: 0, y: 0 }, Some(GameState::Menu))),
        ]
    );
}

#[test]
fn enemy_movement_passes_over_empty_slots() {
    let mut world = World::new();
    world.spawn(enemy_at(0, 0, Direction { x: UNIT, y: 0 }, Some(GameState::Game)));
    world.spawn(enemy_at(0, 0, Direction { x: 0, y: UNIT }, Some(GameState::Menu)));
    world.despawn_screen(GameState::Game);
    enemy_movement(&mut world, 500_000);
    assert_eq!(
        slots(&world),
        vec![None, Some(enemy_at(0, 100 * PIXEL, Direction { x: 0, y: UNIT }, Some(GameState::Menu)))]
    );
}

#[test]
fn enemy_at_the_end_of_the_coordinates_does_not_fit() {
    let mut world = World::new();
    world.spawn(enemy_at(0, 0, Direction { x: UNIT, y: 0 }, Some(GameState::Game)));
    world.spawn(enemy_at(0, i64::MIN + 5, Direction { x: 0, y: -UNIT }, Some(GameState::Game)));
    assert!(!enemies_fit(&world, 1_000));
    assert!(enemies_fit(&world, 0));
    assert!(!update_fits(&world, &frame(Keys::none(), 1_000)));
}

#[test]
fn despawn_screen_removes_what_the_screen_owns_and_nothing_else() {
    let mut world = World::new();
    let menu = enemy_at(1, 1, Direction { x: UNIT, y: 0 }, Some(GameState::Menu));
    let free = Entity { position: Position { x: 2, y: 2 }, role: Role::Camera, screen: None };
    let splash = Entity {
        position: Position { x: 3, y: 3 },
        role: Role::Player(Player {}),
        screen: Some(GameState::Splash),
    };
    world.spawn(menu);
    spawn_camera(&mut world, &window());
    world.spawn(free);
    spawn_player(&mut world, &window());
    world.spawn(splash);
    spawn_enemies(&mut world, &window());
    assert_eq!(world.len(), 11);
    world.despawn_screen(GameState::Game);
    assert_eq!(
        slots(&world),
        vec![Some(menu), None, Some(free), None, Some(splash), None, None, None, None, None, None]
    );
    for kind in [Kind::Camera, Kind::Player, Kind::Enemy] {
        assert_eq!(world.census(kind, GameState::Game), 0);
    }
    assert_eq!(world.census(Kind::Enemy, GameState::Menu), 1);
    assert_eq!(world.census(Kind::Player, GameState::Splash), 1);
    world.despawn_screen(GameState::Game);
    assert_eq!(world.len(), 11);
    assert_eq!(world.get(0), Some(menu));
}

#[test]
fn census_counts_by_kind_and_screen() {
    let mut world = World::new();
    world.spawn(player_at(0, 0));
    world.spawn(player_at(0, 0));
    world.spawn(enemy_at(0, 0, Direction { x: 0, y: 0 }, Some(GameState::Game)));
    world.spawn(enemy_at(0, 0, Direction { x: 0, y: 0 }, None));
    world.spawn(enemy_at(0, 0, Direction { x: 0, y: 0 }, Some(GameState::Menu)));
    assert_eq!(world.census(Kind::Player, GameState::Game), 2);
    assert_eq!(world.census(Kind::Enemy, GameState::Game), 1);
    assert_eq!(world.census(Kind::Enemy, GameState::Menu), 1);
    assert_eq!(world.census(Kind::Enemy, GameState::Splash), 0);
    assert_eq!(world.census(Kind::Camera, GameState::Game), 0);
    assert_eq!(world.single(Kind::Player), None);
    assert_eq!(world.single(Kind::Camera), None);
}

#[test]
fn entering_creates_camera_player_and_enemies_in_that_order() {
    let mut world = World::new();
    game_plugin(&mut world, Schedule::OnEnter(GameState::Game), &frame(Keys::none(), 0));
    assert_eq!(world.len(), 8);
    assert_eq!(
        world.get(0),
        Some(Entity {
            position: Position { x: 400 * PIXEL, y: 300 * PIXEL },
            role: Role::Camera,
            screen: Some(GameState::Game),
        })
    );
    assert_eq!(world.get(1), Some(player_at(400 * PIXEL, 300 * PIXEL)));
    for handle in 2..8 {
        assert_eq!(world.get(handle).unwrap().role.kind(), Kind::Enemy);
    }
}

#[test]
fn leaving_and_entering_again_gives_the_same_counts() {
    let mut world = World::new();
    let menu = enemy_at(1, 1, Direction { x: UNIT, y: 0 }, Some(GameState::Menu));
    world.spawn(menu);
    let still = frame(Keys::none(), 0);
    for _ in 0..3 {
        game_plugin(&mut world, Schedule::OnEnter(GameState::Game), &still);
        assert_eq!(world.census(Kind::Camera, GameState::Game), 1);
        assert_eq!(world.census(Kind::Player, GameState::Game), 1);
        assert_eq!(world.census(Kind::Enemy, GameState::Game), 6);
        assert_eq!(world.single(Kind::Player).is_some(), true);
        game_plugin(&mut world, Schedule::OnExit(GameState::Game), &still);
        for kind in [Kind::Camera, Kind::Player, Kind::Enemy] {
            assert_eq!(world.census(kind, GameState::Game), 0);
        }
        assert_eq!(world.get(0), Some(menu));
    }
}

#[test]
fn a_tick_in_the_game_moves_player_and_enemies() {
    let mut world = World::new();
    world.spawn(player_at(0, 0));
    world.spawn(enemy_at(0, 0, Direction { x: 0, y: UNIT }, Some(GameState::Game)));
    let tick = frame(right(), 10_000);
    assert!(update_fits(&world, &tick));
    game_plugin(&mut world, Schedule::Update(GameState::Game), &tick);
    assert_eq!(
        slots(&world),
        vec![
            Some(player_at(5 * PIXEL, 0)),
            Some(enemy_at(0, 2 * PIXEL, Direction { x: 0, y: UNIT }, Some(GameState::Game))),
        ]
    );
}

#[test]
fn ticking_and_leaving_take_no_window() {
    let mut world = World::new();
    world.spawn(player_at(0, 0));
    let tick = Frame { window: None, keys: right(), elapsed: 2_000 };
    game_plugin(&mut world, Schedule::Update(GameState::Game), &tick);
    assert_eq!(slots(&world), vec![Some(player_at(PIXEL, 0))]);
    game_plugin(&mut world, Schedule::OnExit(GameState::Game), &tick);
    assert_eq!(slots(&world), vec![None]);
    game_plugin(&mut world, Schedule::OnEnter(GameState::Menu), &tick);
    assert_eq!(slots(&world), vec![None]);
}

#[test]
fn other_schedules_leave_the_world_alone() {
    let mut world = World::new();
    world.spawn(player_at(0, 0));
    world.spawn(enemy_at(0, 0, Direction { x: 0, y: UNIT }, Some(GameState::Game)));
    let before = slots(&world);
    let tick = frame(right(), 10_000);
    for state in [GameState::Splash, GameState::Menu] {
        game_plugin(&mut world, Schedule::OnEnter(state), &tick);
        game_plugin(&mut world, Schedule::Update(state), &tick);
        game_plugin(&mut world, Schedule::OnExit(state), &tick);
    }
    assert_eq!(slots(&world), before);
}

#[test]
fn the_timer_sends_the_game_back_to_the_menu() {
    assert_eq!(game(true), Some(GameState::Menu));
    assert_eq!(game(false), None);
}

#[test]
fn sprites_by_kind() {
    assert_eq!(sprite(Kind::Player), Some("sprites/ball_blue_large.png"));
    assert_eq!(sprite(Kind::Enemy), Some("sprites/ball_red_large.png"));
    assert_eq!(sprite(Kind::Camera), None);
}
