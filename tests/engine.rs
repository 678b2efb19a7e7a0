use rand::rngs::StdRng;
use rand::SeedableRng;
use rugby_engine::actions::SCRUM_SIZE;
use rugby_engine::commands::{parse_command, Action, Command};
use rugby_engine::geometry::{cos_deg, isqrt, sin_deg};
use rugby_engine::model::{GameState, Phase, Side, TICK};
use rugby_engine::motion::{launch_speed, run_step};
use rugby_engine::rules::{is_forward_pass, pickup_spoiled, scrum_drift, tackle_succeeds};
use rugby_engine::text::{parse_angle, parse_milli, parse_number};

const FIELD: &str = "width=100_height=70_try=10_dir=N_switch=false_switchtime=40_switchhome=10-20/30-40_switchaway=_wind=5_winddir=90_weather=0";
const RECORD: &str = "size=180_pound=110_speed=20_foot=40_pfoot=80_ptackle=70";

fn rosters(n: usize) -> Vec<String> {
    (0..n).map(|_| RECORD.to_string()).collect()
}

fn match_with(state: &str) -> GameState {
    let mut g = GameState::new();
    g.initialize(FIELD, &rosters(23), &rosters(23), state);
    g
}

fn check_invariants(g: &GameState) {
    let carriers: Vec<(Side, usize)> = g
        .home_team
        .players
        .iter()
        .enumerate()
        .filter(|(_, p)| p.ball_pos)
        .map(|(i, _)| (Side::Home, i))
        .chain(g.away_team.players.iter().enumerate().filter(|(_, p)| p.ball_pos).map(|(i, _)| (Side::Away, i)))
        .collect();
    assert!(carriers.len() <= 1);
    assert_eq!(g.ball.is_carried, carriers.len() == 1);
    if let Some((side, i)) = carriers.first() {
        let p = match side {
            Side::Home => g.home_team.players[*i],
            Side::Away => g.away_team.players[*i],
        };
        let sign = if (g.field.home_direction_try == 'N') == (*side == Side::Home) { 1 } else { -1 };
        assert_eq!(g.ball.x, p.x + 500 * sign);
        assert_eq!(g.ball.y, p.y);
    }
    if g.ball_throw.active {
        assert!(!g.ball.is_carried);
    }
    assert!(g.ball.z >= 0);
}

#[test]
fn init_reads_field_and_rosters() {
    let g = match_with("");
    assert_eq!(g.field.width, 100);
    assert_eq!(g.field.height, 70);
    assert_eq!(g.field.try_size, 10);
    assert_eq!(g.field.home_direction_try, 'N');
    assert!(!g.field.is_switch);
    assert_eq!(g.field.switch_time, 40);
    assert_eq!(g.field.switch_home, vec![(10, 20), (30, 40)]);
    assert!(g.field.switch_away.is_empty());
    assert_eq!(g.field.wind_strength, 5);
    assert_eq!(g.field.wind_direction, 90);
    assert_eq!(g.field.weather, 0);
    assert_eq!(g.home_team.players.len(), 15);
    assert_eq!(g.home_team.bench.len(), 8);
    assert_eq!(g.away_team.players.len(), 15);
    let p = g.home_team.players[0];
    assert_eq!((p.x, p.y, p.number), (58_000, 6_000, 1));
    assert_eq!((p.size, p.pound, p.speed, p.foot, p.p_foot, p.p_tackle), (180, 110, 20_000, 40_000, 80, 70));
    assert_eq!(g.away_team.players[14].x, 90_000);
    assert_eq!(g.away_team.players[14].y, 48_000);
    assert!(g.home_team.players[9].ball_pos);
    assert_eq!((g.ball.x, g.ball.y), (58_500, 33_000));
    assert_eq!(g.state.phase, Phase::Start);
    check_invariants(&g);
}

#[test]
fn init_defaults_for_missing_values() {
    let mut g = GameState::new();
    g.initialize("", &vec!["speed=fast".to_string()], &vec![], "");
    assert_eq!((g.field.width, g.field.height, g.field.try_size), (100, 70, 10));
    assert_eq!(g.field.switch_time, 40);
    let p = g.home_team.players[0];
    assert_eq!((p.size, p.pound, p.speed, p.foot, p.p_foot, p.p_tackle), (180, 100, 10_000, 10_000, 10, 10));
    assert!(!g.ball.is_carried);
    check_invariants(&g);
}

#[test]
fn first_play_moves_only_the_runner() {
    let mut g = match_with("");
    let before = g.clone();
    let mut rng = StdRng::seed_from_u64(1);
    g.play("play\nH10:R90", &mut rng);
    assert_eq!(g.state.phase, Phase::Play);
    assert_eq!(g.time, 25);
    for i in 0..15 {
        let (a, b) = (before.home_team.players[i], g.home_team.players[i]);
        if i == 9 {
            assert_eq!(b.x, a.x);
            assert_eq!(b.y, a.y + 1388);
        } else {
            assert_eq!((a.x, a.y), (b.x, b.y));
        }
        assert_eq!(before.away_team.players[i], g.away_team.players[i]);
    }
    assert_eq!((g.ball.x, g.ball.y), (58_500, 34_388));
    let text = g.response();
    assert!(text.starts_with("play H\ntime:25\nH1: 58 6\n"));
    assert!(text.contains("H10: 58 34.388/B: 58.5 34.388\n"));
    check_invariants(&g);
}

#[test]
fn clock_advances_by_one_tick_whatever_the_commands() {
    let mut g = match_with("");
    let mut rng = StdRng::seed_from_u64(2);
    g.play("play\ngarbage\nH99:R10\nX1:Q", &mut rng);
    assert_eq!(g.time, TICK);
    g.scrum("scrum\n:::", &mut rng);
    assert_eq!(g.time, 2 * TICK);
    g.ruck("ruck\nA3:Z");
    assert_eq!(g.time, 3 * TICK);
    g.penalty("");
    assert_eq!(g.time, 4 * TICK);
    check_invariants(&g);
}

#[test]
fn forward_pass_gives_a_scrum_to_the_other_side() {
    for dir in ["271", "300", "359", "1", "45", "89"] {
        let mut g = match_with("");
        let mut rng = StdRng::seed_from_u64(3);
        let input = format!("play\nH10:P{}\nH1:R0", dir);
        let h1 = g.home_team.players[0];
        g.play(&input, &mut rng);
        assert_eq!(g.state.phase, Phase::Scrum);
        assert_eq!(g.state.team, Side::Away);
        assert_eq!(g.state.size, SCRUM_SIZE);
        assert!(!g.ball.is_carried);
        assert!(!g.ball_throw.active);
        assert_eq!((g.state.x, g.state.y), (58_000, 33_000));
        // the batch stopped at the pass: the scrum position of the loosehead stands
        assert_ne!(g.home_team.players[0].y, h1.y + 1388);
        check_invariants(&g);
    }
}

#[test]
fn backward_pass_flies() {
    let mut g = match_with("");
    assert!(!g.pass(Side::Home, 10, 180));
    assert_eq!(g.state.phase, Phase::Start);
    assert!(!g.ball.is_carried);
    assert!(g.ball_throw.active);
    // launch speed 12506 mm/s at 1 degree: cos 1 = 0.9998, sin 1 = 0.0175
    assert_eq!(g.ball_throw.vx, -12503);
    assert_eq!(g.ball_throw.vy, 0);
    assert_eq!(g.ball_throw.vz, 218);
    check_invariants(&g);
}

#[test]
fn ruck_descriptor_sets_breakdown_flags() {
    let g = match_with("ruck H 50 35 4.2 H4 A7");
    assert_eq!(g.state.phase, Phase::Ruck);
    assert_eq!(g.state.team, Side::Home);
    assert_eq!((g.state.x, g.state.y, g.state.size), (50_000, 35_000, 4_200));
    assert!(g.home_team.players[3].is_tackle && !g.home_team.players[3].is_tackler);
    assert!(g.away_team.players[6].is_tackler && !g.away_team.players[6].is_tackle);
    let flagged = g.home_team.players.iter().chain(g.away_team.players.iter()).filter(|p| p.is_tackle || p.is_tackler).count();
    assert_eq!(flagged, 2);
    check_invariants(&g);
}

#[test]
fn descriptor_places_players_and_ball() {
    let g = match_with("play A 10 20 0_B 40 30_H2 41.5 29_A5 12 13/B 0 0");
    assert_eq!(g.state.phase, Phase::Play);
    assert_eq!(g.state.team, Side::Away);
    assert_eq!((g.home_team.players[1].x, g.home_team.players[1].y), (41_500, 29_000));
    assert!(g.away_team.players[4].ball_pos);
    assert_eq!((g.ball.x, g.ball.y), (11_500, 13_000));
    check_invariants(&g);
}

#[test]
fn offside_defender_turns_ruck_pickup_into_penalty() {
    let mut g = match_with("ruck H 50 35 4.2_B 49.5 35_A1 40 35_H9 49 35.5");
    let before_home = g.home_team.players.clone();
    assert!(g.check_offside());
    assert!(g.try_catch_ball_in_ruck(Side::Home, 9));
    assert_eq!(g.state.phase, Phase::Penalty);
    assert_eq!(g.state.team, Side::Home);
    assert!(!g.ball.is_carried);
    assert_eq!(g.home_team.players, before_home);
    check_invariants(&g);
}

#[test]
fn onside_ruck_pickup_restarts_play() {
    let mut g = match_with("ruck H 50 35 4.2_B 49.5 35_H9 48.8 35.3");
    assert!(!g.check_offside());
    assert!(!g.try_catch_ball_in_ruck(Side::Home, 9));
    assert_eq!(g.state.phase, Phase::Play);
    assert!(g.home_team.players[8].ball_pos);
    assert_eq!((g.ball.x, g.ball.y), (49_300, 35_300));
    check_invariants(&g);
}

#[test]
fn tackle_with_full_accuracy_forms_a_ruck() {
    let mut g = match_with("play H 0 0 0_A2 58.5 33");
    g.away_team.players[1].p_tackle = 100;
    let mut rng = StdRng::seed_from_u64(4);
    g.tackle(Side::Away, 2, &mut rng);
    assert_eq!(g.state.phase, Phase::Ruck);
    assert_eq!(g.state.team, Side::Away);
    assert_eq!((g.state.x, g.state.y), (58_000, 33_000));
    assert!(g.home_team.players[9].is_tackle);
    assert!(g.away_team.players[1].is_tackler);
    assert!(!g.ball.is_carried);
    assert_eq!((g.ball.x, g.ball.y, g.ball.z), (57_500, 33_000, 0));
    check_invariants(&g);
}

#[test]
fn tackle_with_no_accuracy_changes_nothing() {
    let mut g = match_with("play H 0 0 0_A2 58.5 33");
    g.away_team.players[1].p_tackle = 0;
    let before = g.clone();
    let mut rng = StdRng::seed_from_u64(5);
    g.tackle(Side::Away, 2, &mut rng);
    assert_eq!(g.state, before.state);
    assert_eq!(g.home_team.players, before.home_team.players);
    assert_eq!(g.away_team.players, before.away_team.players);
    assert_eq!(g.ball, before.ball);
}

#[test]
fn tackle_out_of_reach_changes_nothing() {
    let mut g = match_with("play H 0 0 0_A2 70 33");
    g.away_team.players[1].p_tackle = 100;
    let mut rng = StdRng::seed_from_u64(6);
    g.tackle(Side::Away, 2, &mut rng);
    assert_eq!(g.state.phase, Phase::Play);
    assert!(g.ball.is_carried);
}

#[test]
fn accurate_kick_flies_as_launched() {
    let mut g = match_with("");
    g.home_team.players[9].p_foot = 100;
    let mut rng = StdRng::seed_from_u64(7);
    g.kick(Side::Home, 10, 0, 45, &mut rng);
    assert!(!g.ball.is_carried);
    assert_eq!(g.ball.z, 0);
    // launch speed of 40 m: isqrt(392400000) = 19809 -> 17686 mm/s
    assert_eq!(launch_speed(40_000), 17_686);
    assert_eq!(g.ball_throw.vx, 12_505);
    assert_eq!(g.ball_throw.vy, 0);
    assert_eq!(g.ball_throw.vz, 12_505);
    assert!(g.ball_throw.active);
    g.update_ball_velocity();
    assert_eq!(g.ball.x, 58_500 + 3_126);
    assert_eq!(g.ball.z, 3_126);
    assert_eq!(g.ball_throw.vz, 12_505 - 2_452);
    assert_eq!((g.state.x, g.state.y), (g.ball.x, g.ball.y));
    check_invariants(&g);
}

#[test]
fn kick_elevation_is_capped() {
    let mut g = match_with("");
    g.home_team.players[9].p_foot = 100;
    let mut rng = StdRng::seed_from_u64(8);
    g.kick(Side::Home, 10, 0, 120, &mut rng);
    assert_eq!(g.ball_throw.vx, 0);
    assert_eq!(g.ball_throw.vz, 17_686);
}

#[test]
fn ball_lands_and_flight_ends() {
    let mut g = match_with("play H 0 0 0_B 30 30");
    g.ball_throw.vx = 4_000;
    g.ball_throw.vy = 0;
    g.ball_throw.vz = -4_000;
    g.ball_throw.active = true;
    g.ball.z = 500;
    g.update_ball_velocity();
    assert_eq!(g.ball.z, 0);
    assert!(!g.ball_throw.active);
    assert_eq!(g.ball.x, 31_000);
    check_invariants(&g);
}

#[test]
fn loose_ball_is_gathered_in_dry_weather() {
    let mut g = match_with("play H 0 0 0_B 58.3 6");
    let mut rng = StdRng::seed_from_u64(9);
    g.update_ball_carrie(&mut rng);
    assert!(g.home_team.players[0].ball_pos);
    assert_eq!(g.state.team, Side::Home);
    assert_eq!((g.ball.x, g.ball.y, g.ball.z), (58_500, 6_000, 1_000));
    check_invariants(&g);
}

#[test]
fn high_ball_is_not_gathered() {
    let mut g = match_with("play H 0 0 0_B 58.3 6");
    g.ball.z = 4_000;
    let mut rng = StdRng::seed_from_u64(10);
    g.update_ball_carrie(&mut rng);
    assert!(!g.ball.is_carried);
}

#[test]
fn scrum_formation() {
    let mut g = match_with("");
    g.setup_scrum(Side::Home, 50_000, 20_000);
    assert_eq!(g.state.phase, Phase::Scrum);
    assert_eq!((g.state.x, g.state.y, g.state.size), (50_000, 20_000, SCRUM_SIZE));
    assert_eq!((g.ball.x, g.ball.y, g.ball.z), (49_500, 20_000, 0));
    let h = &g.home_team.players;
    let a = &g.away_team.players;
    assert_eq!((h[0].x, h[0].y), (49_500, 19_000));
    assert_eq!((h[7].x, h[7].y), (47_500, 20_000));
    assert_eq!((h[8].x, h[8].y), (49_500, 22_500));
    assert_eq!((h[10].x, h[10].y), (33_000, 10_000));
    assert_eq!((h[13].x, h[13].y), (33_000, 60_000));
    assert_eq!((a[0].x, a[0].y), (50_500, 21_000));
    assert_eq!((a[10].x, a[10].y), (67_000, 60_000));
    assert_eq!((a[13].x, a[13].y), (67_000, 10_000));
    // backs: 10, 12, 13, 15 on the line towards the far touchline (55 m)
    assert_eq!((h[9].x, h[9].y), (42_500, 28_750));
    assert_eq!((h[11].x, h[11].y), (40_000, 37_500));
    assert_eq!((h[12].x, h[12].y), (37_500, 46_250));
    assert_eq!((h[14].x, h[14].y), (35_000, 55_000));
    assert_eq!((a[9].x, a[9].y), (55_000, 28_750));
    assert!(!g.ball.is_carried);
    check_invariants(&g);
}

#[test]
fn scrum_point_is_kept_inside_the_field() {
    let mut g = match_with("");
    g.setup_scrum(Side::Away, 2_000, 69_000);
    assert_eq!((g.state.x, g.state.y), (15_000, 65_000));
    assert_eq!(g.ball.x, 15_500);
}

#[test]
fn scrum_half_gathers_at_the_base() {
    let mut g = match_with("");
    g.setup_scrum(Side::Home, 50_000, 20_000);
    g.place_player(Side::Home, 8, 49_500, 20_300);
    let mut rng = StdRng::seed_from_u64(11);
    g.scrum("scrum\nH9:T", &mut rng);
    assert_eq!(g.state.phase, Phase::Play);
    assert!(g.home_team.players[8].ball_pos);
    check_invariants(&g);
}

#[test]
fn scrum_forwards_cannot_run() {
    let mut g = match_with("");
    g.setup_scrum(Side::Home, 50_000, 20_000);
    let prop = g.home_team.players[0];
    let mut rng = StdRng::seed_from_u64(12);
    g.scrum("scrum\nH1:R90\nH12:R90", &mut rng);
    assert_eq!(g.home_team.players[0], prop);
    assert_eq!(g.home_team.players[11].y, 37_500 + 1388);
}

#[test]
fn scrum_ball_goes_back_to_the_heavier_put_in_pack() {
    let mut g = match_with("");
    g.setup_scrum(Side::Home, 50_000, 20_000);
    let mut rng = StdRng::seed_from_u64(13);
    g.scrum("scrum\nH1:S\nH2:S\nH3:S", &mut rng);
    assert_eq!(g.ball.x, 49_000);
    assert_eq!(g.state.phase, Phase::Scrum);
}

#[test]
fn ball_out_of_scrum_restarts_play() {
    let mut g = match_with("");
    g.setup_scrum(Side::Home, 50_000, 20_000);
    g.ball.x = 45_700;
    g.check_ball_out_of_scrum();
    assert_eq!(g.state.phase, Phase::Play);
    assert_eq!((g.state.x, g.state.y), (45_700, 20_000));
}

#[test]
fn heavier_pack_wins_the_drift_more_often_than_not() {
    // home has the put-in and pushes more: always back to home
    assert!((0..10_000).all(|r| scrum_drift(900, 800, 1, r) == -500));
    // away has the put-in, home pushes clearly more: home wins the drift on most rolls
    let home_wins = (0..10_000).filter(|&r| scrum_drift(800, 900, -1, r) == -500).count();
    assert!(home_wins > 5_000);
    // seeded trials through the match
    let mut toward_home = 0;
    for seed in 0..200u64 {
        let mut g = match_with("");
        g.setup_scrum(Side::Away, 50_000, 20_000);
        let x0 = g.ball.x;
        let mut rng = StdRng::seed_from_u64(seed);
        g.update_ball_position_scrum(900, 800, &mut rng);
        if g.ball.x < x0 {
            toward_home += 1;
        }
    }
    assert!(toward_home > 100);
}

#[test]
fn tackler_at_the_ruck_concedes_a_penalty() {
    let mut g = match_with("ruck H 50 35 4.2 H4 A7_A7 50.5 35");
    g.check_tackler();
    assert_eq!(g.state.phase, Phase::Penalty);
    assert_eq!(g.state.team, Side::Home);
    assert!(g.away_team.players[6].is_tackler);
}

#[test]
fn tackler_who_left_is_released() {
    let mut g = match_with("ruck H 50 35 4.2 H4 A7_A7 60 35");
    g.check_tackler();
    assert_eq!(g.state.phase, Phase::Ruck);
    assert!(!g.away_team.players[6].is_tackler);
}

#[test]
fn heavier_counter_ruck_wins_the_ball() {
    let mut g = match_with("ruck H 50 35 4.2_B 49.5 35_H1 51 35_A1 52 35_A2 50 36");
    g.check_scrap();
    assert_eq!(g.state.phase, Phase::Play);
    assert_eq!(g.state.team, Side::Away);
    assert!(g.away_team.players[1].ball_pos);
    check_invariants(&g);
}

#[test]
fn lighter_counter_ruck_changes_nothing() {
    let mut g = match_with("ruck H 50 35 4.2_B 49.5 35_H1 51 35_H2 51 34_A1 52 35");
    let before = g.clone();
    g.check_scrap();
    assert_eq!(g.state, before.state);
    assert!(!g.ball.is_carried);
}

#[test]
fn held_player_cannot_move_in_ruck() {
    let mut g = match_with("ruck H 50 35 4.2 H4 A7");
    let held = g.home_team.players[3];
    g.ruck("ruck\nH4:R90\nH5:R90");
    assert_eq!(g.home_team.players[3].x, held.x);
    assert_eq!(g.home_team.players[3].y, held.y);
    assert_eq!(g.home_team.players[4].y, 18_000 + 1388);
}

#[test]
fn positions_report() {
    let mut g = GameState::new();
    g.initialize(FIELD, &rosters(1), &rosters(1), "");
    assert_eq!(g.positions(), "B: 50 35\nH1: 58 6\nA1: 90 6\n");
    g.place_player(Side::Away, 0, -1_250, 7_005);
    assert_eq!(g.positions(), "B: 50 35\nH1: 58 6\nA1: -1.25 7.005\n");
    assert_eq!(g.response(), "start H\ntime:0\nB: 50 35\nH1: 58 6\nA1: -1.25 7.005\n");
}

#[test]
fn drawable_snapshot() {
    let mut g = match_with("");
    let d = g.get_drawable();
    assert_eq!(d.home_players.len(), 15);
    assert_eq!(d.home_players[2].number, 3);
    assert_eq!(d.state.size, 0);
    g.setup_scrum(Side::Home, 50_000, 20_000);
    let d = g.get_drawable();
    assert_eq!(d.state.name, "scrum");
    assert_eq!(d.state.size, SCRUM_SIZE);
    assert_eq!((d.state.pos.x, d.state.pos.y), (50_000, 20_000));
}

#[test]
fn command_parsing() {
    assert_eq!(parse_command(b"H12:R270"), Some(Command { side: Side::Home, number: 12, action: Action::Run(270) }));
    assert_eq!(parse_command(b"A9:K45/30"), Some(Command { side: Side::Away, number: 9, action: Action::Kick(45, 30) }));
    assert_eq!(parse_command(b"A9:K45/130/2"), Some(Command { side: Side::Away, number: 9, action: Action::Kick(45, 90) }));
    assert_eq!(parse_command(b"H3:T"), Some(Command { side: Side::Home, number: 3, action: Action::Tackle }));
    assert_eq!(parse_command(b"H3:S"), Some(Command { side: Side::Home, number: 3, action: Action::Stay }));
    assert_eq!(parse_command(b"H3:P-90"), Some(Command { side: Side::Home, number: 3, action: Action::Pass(270) }));
    assert_eq!(parse_command(b"H3:Wabc"), None);
    assert_eq!(parse_command(b"H3:Pxyz"), None);
    assert_eq!(parse_command(b"A9:K45"), None);
    assert_eq!(parse_command(b"A9:K45/"), None);
    assert_eq!(parse_command(b":R90"), None);
    assert_eq!(parse_command(b"H3:W-12.5"), Some(Command { side: Side::Home, number: 3, action: Action::Walk(348) }));
    assert_eq!(parse_command(b"H3:Q1"), None);
    assert_eq!(parse_command(b"X3:R1"), None);
    assert_eq!(parse_command(b"H:R1"), None);
    assert_eq!(parse_command(b"play"), None);
}

#[test]
fn number_parsing() {
    assert_eq!(parse_number(b"123"), Some(123));
    assert_eq!(parse_number(b""), None);
    assert_eq!(parse_number(b"12a"), None);
    assert_eq!(parse_milli(b"4.2"), Some(4_200));
    assert_eq!(parse_milli(b"-0.0015"), Some(-1));
    assert_eq!(parse_milli(b"7."), Some(7_000));
    assert_eq!(parse_milli(b".5"), None);
    assert_eq!(parse_angle(b"725.9"), 5);
    assert_eq!(parse_angle(b"-30"), 330);
    assert_eq!(parse_angle(b"x"), 0);
}

#[test]
fn fixed_point_geometry() {
    assert_eq!(sin_deg(30), 5_000);
    assert_eq!(sin_deg(210), -5_000);
    assert_eq!(cos_deg(0), 10_000);
    assert_eq!(cos_deg(180), -10_000);
    assert_eq!(cos_deg(90), 0);
    assert_eq!(cos_deg(300), 5_000);
    assert_eq!(isqrt(0), 0);
    assert_eq!(isqrt(15), 3);
    assert_eq!(isqrt(16), 4);
    assert_eq!(isqrt(u64::MAX), 4_294_967_295);
    assert_eq!(run_step(6_400), 444);
    assert_eq!(launch_speed(20_000), 12_506);
}

#[test]
fn contest_rolls() {
    assert!(tackle_succeeds(69, 70));
    assert!(!tackle_succeeds(70, 70));
    assert!(pickup_spoiled(9, 20));
    assert!(!pickup_spoiled(10, 20));
    assert!(!pickup_spoiled(0, 1));
    assert!(is_forward_pass(1, 0));
    assert!(!is_forward_pass(1, 90));
    assert!(!is_forward_pass(1, 180));
    assert!(is_forward_pass(-1, 180));
    assert_eq!(scrum_drift(100, 100, 1, 0), -500);
    assert_eq!(scrum_drift(100, 110, 1, 9_523), 500);
    assert_eq!(scrum_drift(100, 110, 1, 9_524), -500);
}

#[test]
fn malformed_tokens_are_ignored() {
    let mut g = match_with("");
    let h1 = g.home_team.players[0];
    let mut rng = StdRng::seed_from_u64(14);
    g.play("play\n:R90\nH10:K45\nH10:Rabc\nH99:R90\nH3:Z\nH1:R90", &mut rng);
    assert_eq!(g.time, 25);
    assert!(g.home_team.players[9].ball_pos);
    assert!(g.ball.is_carried);
    assert!(!g.ball_throw.active);
    assert_eq!((g.home_team.players[9].x, g.home_team.players[9].y), (58_000, 33_000));
    assert_eq!(g.home_team.players[0].y, h1.y + 1388);
    check_invariants(&g);
}

#[test]
fn default_set_up() {
    let mut g = GameState::new();
    let blank = vec![String::new(); 15];
    g.initialize("", &blank, &blank, "");
    assert_eq!(g.state.phase, Phase::Start);
    assert_eq!(g.state.team, Side::Home);
    assert_eq!(g.time, 0);
    assert_eq!(g.field.home_direction_try, 'N');
    assert!(!g.ball_throw.active);
    for i in 0..15 {
        let (h, a) = (g.home_team.players[i], g.away_team.players[i]);
        assert_eq!((h.x, h.y, h.number), (58_000, 6_000 + 3_000 * i as i64, i + 1));
        assert_eq!((a.x, a.y, a.number), (90_000, 6_000 + 3_000 * i as i64, i + 1));
        assert_eq!(h.ball_pos, i == 9);
        assert!(!a.ball_pos);
        assert!(!h.is_tackle && !h.is_tackler && !a.is_tackle && !a.is_tackler);
        assert_eq!((h.size, h.pound, h.speed, h.foot, h.p_foot, h.p_tackle), (180, 100, 10_000, 10_000, 10, 10));
    }
    assert_eq!(g.ball, rugby_engine::model::Ball { x: 58_500, y: 33_000, z: 1_000, is_carried: true });
    assert!(g.home_team.bench.is_empty());
    assert!(g.away_team.bench.is_empty());
    assert_eq!(g.response().lines().next(), Some("start H"));
}

#[test]
fn each_side_has_its_own_bench() {
    let mut g = GameState::new();
    let home = rosters(20);
    let away: Vec<String> = (0..18).map(|_| "size=170".to_string()).collect();
    g.initialize(FIELD, &home, &away, "");
    assert_eq!(g.home_team.bench.len(), 5);
    assert_eq!(g.away_team.bench.len(), 3);
    assert_eq!(g.home_team.bench[0].number, 16);
    assert_eq!(g.home_team.bench[0].size, 180);
    assert_eq!(g.away_team.bench[2].number, 18);
    assert_eq!(g.away_team.bench[2].size, 170);
}

#[test]
fn descriptor_loose_ball_takes_it_from_the_carrier() {
    let g = match_with("play H 0 0 0_B 40 30");
    assert_eq!(g.state.phase, Phase::Play);
    assert!(g.home_team.players.iter().chain(g.away_team.players.iter()).all(|p| !p.ball_pos));
    assert_eq!(g.ball, rugby_engine::model::Ball { x: 40_000, y: 30_000, z: 0, is_carried: false });
    check_invariants(&g);
}

#[test]
fn descriptor_carrier_takes_the_ball() {
    let g = match_with("play A 0 0 0_A12 40 30/B 40.5 31");
    assert_eq!(g.state.team, Side::Away);
    assert!(g.away_team.players[11].ball_pos);
    assert!(!g.home_team.players[9].ball_pos);
    assert_eq!((g.away_team.players[11].x, g.away_team.players[11].y), (40_000, 30_000));
    assert_eq!(g.ball, rugby_engine::model::Ball { x: 39_500, y: 30_000, z: 1_000, is_carried: true });
    check_invariants(&g);
}

#[test]
fn first_unspoiled_player_in_reach_gathers() {
    // ball loose between home 1 and away 1, both in reach
    let mut g = match_with("play H 0 0 0_B 60 6_H1 59.5 6_A1 60.5 6");
    g.field.weather = 100;
    let n = g.home_team.players.len() + g.away_team.players.len();
    let mut rolls = vec![99u64; n];
    // home 1 spoiled by the rain (roll below 50), away 1 not
    rolls[0] = 10;
    assert_eq!(g.pick_gatherer(&rolls), Some((Side::Away, 0)));
    rolls[0] = 50;
    assert_eq!(g.pick_gatherer(&rolls), Some((Side::Home, 0)));
    rolls[0] = 0;
    rolls[15] = 49;
    assert_eq!(g.pick_gatherer(&rolls), None);
}

#[test]
fn restart_names_every_phase() {
    assert_eq!(match_with("freekick A 50 35 0").state.phase, Phase::FreeKick);
    assert_eq!(match_with("penaltykick H 50 35 0").state.phase, Phase::PenaltyKick);
    assert_eq!(match_with("penalty H 50 35 0").state.phase, Phase::Penalty);
    assert_eq!(match_with("unknown H 50 35 0").state.phase, Phase::Start);
}
