use arena_engine::resolver::move_fits;
use arena_engine::{
    check_food_collisions, check_player_collisions, client_connected, player_moved, Color, Food,
    Identity, MoveOutcome, Player, Position, World,
};
use spacetimedb::ReducerContext;

fn mover_identity(n: u128) -> Identity {
    Identity { hi: 0, lo: n }
}

fn mover_color() -> Color {
    Color { r: 1, g: 2, b: 3 }
}

fn mover_at(n: u128, x: i32, y: i32, radius: u32) -> Player {
    Player {
        identity: mover_identity(n),
        online: true,
        color: mover_color(),
        position: Position { x, y },
        score: 0,
        radius,
    }
}

fn food_at(x: i32, y: i32) -> Food {
    Food { id: 0, position: Position { x, y }, color: Color { r: 0, g: 200, b: 0 } }
}

fn is_spawn_state(player: &Player, identity: Identity) -> bool {
    player.identity == identity
        && player.online
        && player.position == (Position { x: 250, y: 250 })
        && player.score == 0
        && player.radius == 20
}

#[test]
fn player_on_food_eats_it() {
    let ctx = ReducerContext::__dummy();
    let mut world = World::new();
    let a = mover_identity(1);
    client_connected(&mut world, a, ctx.rng());
    world.insert_food(food_at(250, 250));
    let outcome = player_moved(&mut world, a, Position { x: 250, y: 250 }, ctx.rng());
    assert_eq!(outcome, MoveOutcome::Moved { foods_eaten: 1 });
    assert_eq!(world.food_count(), 0);
    let player = world.find_player(a).unwrap();
    assert_eq!(player.score, 1);
    assert_eq!(player.radius, 21);
    assert_eq!(player.position, Position { x: 250, y: 250 });
}

#[test]
fn larger_player_resets_smaller_player() {
    let ctx = ReducerContext::__dummy();
    let mut world = World::new();
    let a = mover_at(1, 100, 100, 30);
    let b = Player { score: 4, ..mover_at(2, 100, 100, 20) };
    world.insert_player(a);
    world.insert_player(b);
    let outcome = player_moved(&mut world, a.identity, Position { x: 100, y: 100 }, ctx.rng());
    assert_eq!(outcome, MoveOutcome::Moved { foods_eaten: 0 });
    assert_eq!(world.find_player(a.identity), Some(a));
    let reset = world.find_player(b.identity).unwrap();
    assert!(is_spawn_state(&reset, b.identity));
}

#[test]
fn similar_sizes_leave_each_other_alone() {
    let ctx = ReducerContext::__dummy();
    let mut world = World::new();
    let a = mover_at(1, 100, 100, 22);
    let b = mover_at(2, 100, 100, 20);
    world.insert_player(a);
    world.insert_player(b);
    player_moved(&mut world, a.identity, Position { x: 100, y: 100 }, ctx.rng());
    assert_eq!(world.player_list(), vec![a, b]);
    player_moved(&mut world, b.identity, Position { x: 100, y: 100 }, ctx.rng());
    assert_eq!(world.player_list(), vec![a, b]);
}

#[test]
fn a_difference_of_exactly_the_margin_is_no_meal() {
    let ctx = ReducerContext::__dummy();
    let mut world = World::new();
    let a = mover_at(1, 0, 0, 25);
    let b = mover_at(2, 0, 0, 20);
    world.insert_player(a);
    world.insert_player(b);
    player_moved(&mut world, a.identity, Position { x: 0, y: 0 }, ctx.rng());
    assert_eq!(world.player_list(), vec![a, b]);
}

#[test]
fn a_difference_just_above_the_margin_is_a_meal() {
    let ctx = ReducerContext::__dummy();
    let mut world = World::new();
    let a = mover_at(1, 0, 0, 26);
    let b = mover_at(2, 0, 0, 20);
    world.insert_player(a);
    world.insert_player(b);
    player_moved(&mut world, a.identity, Position { x: 0, y: 0 }, ctx.rng());
    assert_eq!(world.find_player(a.identity), Some(a));
    assert!(is_spawn_state(&world.find_player(b.identity).unwrap(), b.identity));
}

#[test]
fn smaller_mover_is_reset_by_the_larger_player() {
    let ctx = ReducerContext::__dummy();
    let mut world = World::new();
    let a = Player { score: 3, ..mover_at(1, 0, 0, 20) };
    let b = mover_at(2, 10, 10, 30);
    world.insert_player(a);
    world.insert_player(b);
    player_moved(&mut world, a.identity, Position { x: 10, y: 10 }, ctx.rng());
    assert!(is_spawn_state(&world.find_player(a.identity).unwrap(), a.identity));
    assert_eq!(world.find_player(b.identity), Some(b));
}

#[test]
fn players_collide_within_the_larger_radius_not_the_sum() {
    let ctx = ReducerContext::__dummy();
    let mut world = World::new();
    let a = mover_at(1, 0, 0, 30);
    let b = mover_at(2, 31, 0, 20);
    world.insert_player(a);
    world.insert_player(b);
    player_moved(&mut world, a.identity, Position { x: 0, y: 0 }, ctx.rng());
    assert_eq!(world.player_list(), vec![a, b]);
    player_moved(&mut world, a.identity, Position { x: 1, y: 0 }, ctx.rng());
    assert_eq!(world.find_player(a.identity), Some(Player { position: Position { x: 1, y: 0 }, ..a }));
    assert!(is_spawn_state(&world.find_player(b.identity).unwrap(), b.identity));
}

#[test]
fn offline_players_are_not_eaten() {
    let ctx = ReducerContext::__dummy();
    let mut world = World::new();
    let a = mover_at(1, 0, 0, 40);
    let b = Player { online: false, ..mover_at(2, 0, 0, 20) };
    world.insert_player(a);
    world.insert_player(b);
    player_moved(&mut world, a.identity, Position { x: 0, y: 0 }, ctx.rng());
    assert_eq!(world.player_list(), vec![a, b]);
}

#[test]
fn offline_players_do_not_eat() {
    let ctx = ReducerContext::__dummy();
    let mut world = World::new();
    let a = mover_at(1, 0, 0, 20);
    let b = Player { online: false, ..mover_at(2, 0, 0, 40) };
    world.insert_player(a);
    world.insert_player(b);
    player_moved(&mut world, a.identity, Position { x: 0, y: 0 }, ctx.rng());
    assert_eq!(world.player_list(), vec![a, b]);
}

#[test]
fn one_move_can_reset_several_players() {
    let ctx = ReducerContext::__dummy();
    let mut world = World::new();
    let a = mover_at(1, 0, 0, 40);
    let b = mover_at(2, 5, 5, 20);
    let c = mover_at(3, 300, 300, 20);
    let d = mover_at(4, -5, -5, 34);
    let e = mover_at(5, 0, 40, 21);
    world.insert_player(b);
    world.insert_player(c);
    world.insert_player(a);
    world.insert_player(d);
    world.insert_player(e);
    player_moved(&mut world, a.identity, Position { x: 0, y: 0 }, ctx.rng());
    let list = world.player_list();
    assert!(is_spawn_state(&list[0], b.identity));
    assert_eq!(list[1], c);
    assert_eq!(list[2], a);
    assert!(is_spawn_state(&list[3], d.identity));
    assert!(is_spawn_state(&list[4], e.identity));
}

#[test]
fn a_reset_mover_still_resets_smaller_players() {
    let ctx = ReducerContext::__dummy();
    let mut world = World::new();
    let big = mover_at(1, 0, 0, 50);
    let mover = mover_at(2, 90, 90, 30);
    let small = mover_at(3, 0, 0, 20);
    world.insert_player(big);
    world.insert_player(mover);
    world.insert_player(small);
    player_moved(&mut world, mover.identity, Position { x: 0, y: 0 }, ctx.rng());
    assert_eq!(world.find_player(big.identity), Some(big));
    assert!(is_spawn_state(&world.find_player(mover.identity).unwrap(), mover.identity));
    assert!(is_spawn_state(&world.find_player(small.identity).unwrap(), small.identity));
}

#[test]
fn eater_gains_nothing_from_a_player() {
    let ctx = ReducerContext::__dummy();
    let mut world = World::new();
    let a = Player { score: 10, ..mover_at(1, 0, 0, 30) };
    let b = Player { score: 7, ..mover_at(2, 0, 0, 20) };
    world.insert_player(a);
    world.insert_player(b);
    player_moved(&mut world, a.identity, Position { x: 0, y: 0 }, ctx.rng());
    let eater = world.find_player(a.identity).unwrap();
    assert_eq!(eater.score, 10);
    assert_eq!(eater.radius, 30);
}

#[test]
fn growth_from_food_counts_in_the_player_pass() {
    let ctx = ReducerContext::__dummy();
    let mut world = World::new();
    let a = mover_at(1, 50, 50, 25);
    let b = mover_at(2, 0, 0, 20);
    world.insert_player(a);
    world.insert_player(b);
    world.insert_food(food_at(0, 30));
    let outcome = player_moved(&mut world, a.identity, Position { x: 0, y: 0 }, ctx.rng());
    assert_eq!(outcome, MoveOutcome::Moved { foods_eaten: 1 });
    let eater = world.find_player(a.identity).unwrap();
    assert_eq!(eater.radius, 26);
    assert_eq!(eater.score, 1);
    assert!(is_spawn_state(&world.find_player(b.identity).unwrap(), b.identity));
}

#[test]
fn eating_food_grows_radius_and_score_by_the_count() {
    let ctx = ReducerContext::__dummy();
    let mut world = World::new();
    let a = Player { score: 40, ..mover_at(1, 0, 0, 60) };
    world.insert_player(a);
    world.insert_food(food_at(65, 0));
    world.insert_food(food_at(0, -65));
    world.insert_food(food_at(66, 0));
    world.insert_food(food_at(39, 52));
    world.insert_food(food_at(47, 46));
    let outcome = player_moved(&mut world, a.identity, Position { x: 0, y: 0 }, ctx.rng());
    assert_eq!(outcome, MoveOutcome::Moved { foods_eaten: 3 });
    let player = world.find_player(a.identity).unwrap();
    assert_eq!(player.score, 43);
    assert_eq!(player.radius, 63);
    let left = world.food_list();
    assert_eq!(left.len(), 2);
    assert_eq!(left[0].id, 3);
    assert_eq!(left[1].id, 5);
}

#[test]
fn food_out_of_reach_stays() {
    let ctx = ReducerContext::__dummy();
    let mut world = World::new();
    let a = mover_at(1, 0, 0, 20);
    world.insert_player(a);
    world.insert_food(food_at(26, 0));
    let outcome = player_moved(&mut world, a.identity, Position { x: 0, y: 0 }, ctx.rng());
    assert_eq!(outcome, MoveOutcome::Moved { foods_eaten: 0 });
    assert_eq!(world.food_count(), 1);
    assert_eq!(world.find_player(a.identity), Some(a));
}

#[test]
fn position_is_taken_as_given() {
    let ctx = ReducerContext::__dummy();
    let mut world = World::new();
    let a = mover_at(1, 0, 0, 20);
    world.insert_player(a);
    let far = Position { x: i32::MAX, y: i32::MIN };
    player_moved(&mut world, a.identity, far, ctx.rng());
    assert_eq!(world.find_player(a.identity), Some(Player { position: far, ..a }));
}

#[test]
fn move_of_an_unknown_caller_changes_nothing() {
    let ctx = ReducerContext::__dummy();
    let mut world = World::new();
    let a = mover_at(1, 0, 0, 40);
    world.insert_player(a);
    world.insert_food(food_at(0, 0));
    let outcome = player_moved(&mut world, mover_identity(9), Position { x: 0, y: 0 }, ctx.rng());
    assert_eq!(outcome, MoveOutcome::UnknownPlayer);
    assert_eq!(world.player_list(), vec![a]);
    assert_eq!(world.food_count(), 1);
}

#[test]
fn food_pass_counts_the_score_on_from_the_given_score() {
    let mut world = World::new();
    let a = Player { score: 100, ..mover_at(1, 0, 0, 20) };
    world.insert_player(a);
    world.insert_food(food_at(0, 0));
    world.insert_food(food_at(1, 1));
    let eaten = check_food_collisions(&mut world, a.identity, Position { x: 0, y: 0 }, 7);
    assert_eq!(eaten, Some(2));
    let player = world.find_player(a.identity).unwrap();
    assert_eq!(player.score, 9);
    assert_eq!(player.radius, 22);
    assert_eq!(player.position, a.position);
}

#[test]
fn food_pass_measures_from_the_given_position() {
    let mut world = World::new();
    let a = mover_at(1, 0, 0, 20);
    world.insert_player(a);
    world.insert_food(food_at(0, 0));
    world.insert_food(food_at(1000, 1000));
    let eaten = check_food_collisions(&mut world, a.identity, Position { x: 1000, y: 990 }, 0);
    assert_eq!(eaten, Some(1));
    assert_eq!(world.food_list()[0].position, Position { x: 0, y: 0 });
}

#[test]
fn food_pass_without_a_meal_leaves_the_player() {
    let mut world = World::new();
    let a = Player { score: 100, ..mover_at(1, 0, 0, 20) };
    world.insert_player(a);
    world.insert_food(food_at(100, 100));
    assert_eq!(check_food_collisions(&mut world, a.identity, Position { x: 0, y: 0 }, 7), Some(0));
    assert_eq!(world.find_player(a.identity), Some(a));
    assert_eq!(world.food_count(), 1);
}

#[test]
fn food_pass_for_an_unknown_caller_is_aborted() {
    let mut world = World::new();
    world.insert_food(food_at(0, 0));
    assert_eq!(check_food_collisions(&mut world, mover_identity(1), Position { x: 0, y: 0 }, 0), None);
    assert_eq!(world.food_count(), 1);
}

#[test]
fn player_pass_for_an_unknown_caller_is_aborted() {
    let ctx = ReducerContext::__dummy();
    let mut world = World::new();
    let a = mover_at(1, 0, 0, 20);
    world.insert_player(a);
    assert!(!check_player_collisions(&mut world, mover_identity(2), Position { x: 0, y: 0 }, ctx.rng()));
    assert_eq!(world.player_list(), vec![a]);
}

#[test]
fn player_pass_measures_from_the_given_position() {
    let ctx = ReducerContext::__dummy();
    let mut world = World::new();
    let a = mover_at(1, 0, 0, 40);
    let b = mover_at(2, 500, 500, 20);
    world.insert_player(a);
    world.insert_player(b);
    assert!(check_player_collisions(&mut world, a.identity, Position { x: 0, y: 0 }, ctx.rng()));
    assert_eq!(world.player_list(), vec![a, b]);
    assert!(check_player_collisions(&mut world, a.identity, Position { x: 500, y: 460 }, ctx.rng()));
    assert_eq!(world.find_player(a.identity), Some(a));
    assert!(is_spawn_state(&world.find_player(b.identity).unwrap(), b.identity));
}

#[test]
fn reset_players_get_fresh_colors() {
    let ctx = ReducerContext::__dummy();
    let mut world = World::new();
    let a = mover_at(1, 0, 0, 40);
    world.insert_player(a);
    for n in 2..18 {
        world.insert_player(mover_at(n, 0, 0, 20));
    }
    player_moved(&mut world, a.identity, Position { x: 0, y: 0 }, ctx.rng());
    let list = world.player_list();
    assert!(list[1..].iter().all(|p| is_spawn_state(p, p.identity)));
    assert!(list[1..].iter().any(|p| p.color != mover_color()));
    assert!(list[1..].iter().any(|p| p.color != list[1].color));
}

#[test]
fn move_fits_unless_the_score_or_radius_would_overflow() {
    let mut world = World::new();
    let a = Player { score: u32::MAX, ..mover_at(1, 0, 0, 20) };
    let b = Player { score: u32::MAX - 1, ..mover_at(2, 0, 0, 20) };
    let c = mover_at(3, 0, 0, u32::MAX);
    world.insert_player(a);
    world.insert_player(b);
    world.insert_player(c);
    let origin = Position { x: 0, y: 0 };
    assert!(move_fits(&world, a.identity, origin));
    world.insert_food(food_at(0, 0));
    assert!(!move_fits(&world, a.identity, origin));
    assert!(move_fits(&world, a.identity, Position { x: 26, y: 0 }));
    assert!(move_fits(&world, b.identity, origin));
    assert!(!move_fits(&world, c.identity, origin));
    assert!(move_fits(&world, mover_identity(9), origin));
    world.insert_food(food_at(3, 4));
    assert!(!move_fits(&world, b.identity, origin));
}
