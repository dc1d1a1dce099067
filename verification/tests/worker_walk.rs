use region_growth::buffer::{Color, PixelBuffer};
use region_growth::random::random_color;
use region_growth::worker::{
    fill_if_near_neighbor, get_random_pos, hit_wall, poll_decision, run_bounded,
    step_in_direction, worker_iteration, PollAction, Pos, WorkerStatus,
};

fn snapshot(buf: &PixelBuffer) -> Vec<Color> {
    let mut cells = Vec::new();
    for y in 0..buf.height() {
        for x in 0..buf.width() {
            cells.push(buf.cell_color(x, y));
        }
    }
    cells
}

#[test]
fn poll_decision_gates_on_running() {
    assert_eq!(poll_decision(Some(WorkerStatus::Running)), PollAction::Proceed);
    assert_eq!(poll_decision(Some(WorkerStatus::Idle)), PollAction::Backoff);
    assert_eq!(poll_decision(None), PollAction::Backoff);
}

#[test]
fn step_in_each_direction() {
    let p = Pos { x: 7, y: -3 };
    assert_eq!(step_in_direction(p, 0), Pos { x: 8, y: -3 });
    assert_eq!(step_in_direction(p, 1), Pos { x: 6, y: -3 });
    assert_eq!(step_in_direction(p, 2), Pos { x: 7, y: -2 });
    assert_eq!(step_in_direction(p, 3), Pos { x: 7, y: -4 });
}

#[test]
fn hit_wall_cases() {
    let buf = PixelBuffer::new(10, 8, Color(0, 0, 0, 0)).unwrap();
    assert!(hit_wall(&buf, Pos { x: 9, y: 4 }));
    assert!(hit_wall(&buf, Pos { x: 1, y: 4 }));
    assert!(hit_wall(&buf, Pos { x: 4, y: 7 }));
    assert!(hit_wall(&buf, Pos { x: 4, y: 1 }));
    assert!(!hit_wall(&buf, Pos { x: 4, y: 4 }));
}

#[test]
fn random_pos_in_bounds() {
    let buf = PixelBuffer::new(5, 7, Color(0, 0, 0, 0)).unwrap();
    for _ in 0..200 {
        let p = get_random_pos(&buf);
        assert!(0 <= p.x && p.x < 5);
        assert!(0 <= p.y && p.y < 7);
    }
}

#[test]
fn random_pos_on_unit_buffer_is_origin() {
    // with both dimensions 1 the only admissible draw is 0
    let buf = PixelBuffer::new(1, 1, Color(0, 0, 0, 0)).unwrap();
    for _ in 0..20 {
        let p = get_random_pos(&buf);
        assert_eq!(p, Pos { x: 0, y: 0 });
    }
}

#[test]
fn random_color_is_opaque() {
    for _ in 0..50 {
        let c = random_color();
        assert_eq!(c.3, 255);
    }
}

#[test]
fn fill_claims_cell_next_to_territory() {
    let black = Color(0, 0, 0, 255);
    let red = Color(255, 0, 0, 255);
    let mut buf = PixelBuffer::new(10, 10, black).unwrap();
    buf.set_color(5, 5, red); // territory at cell (4, 4)

    // walking at (4, 5): its east neighbor reads cell (4, 4), so the walk
    // claims its own cell (3, 4)
    let painted = fill_if_near_neighbor(&mut buf, Pos { x: 4, y: 5 }, red);
    assert!(painted);
    assert_eq!(buf.cell_color(3, 4), red);

    // far from any red cell nothing happens
    let before = snapshot(&buf);
    let painted_far = fill_if_near_neighbor(&mut buf, Pos { x: 8, y: 8 }, red);
    assert!(!painted_far);
    assert_eq!(snapshot(&buf), before);
}

#[test]
fn idle_worker_leaves_buffer_unchanged() {
    let black = Color(0, 0, 0, 255);
    let red = Color(255, 0, 0, 255);
    let mut buf = PixelBuffer::new(10, 10, black).unwrap();
    buf.set_color(5, 5, red);
    let before = snapshot(&buf);

    run_bounded(&mut buf, WorkerStatus::Idle, red, 500);
    assert_eq!(snapshot(&buf), before);

    worker_iteration(&mut buf, WorkerStatus::Idle, red);
    assert_eq!(snapshot(&buf), before);
}

#[test]
fn running_worker_only_claims_cells() {
    let black = Color(0, 0, 0, 255);
    let red = Color(255, 0, 0, 255);
    let mut buf = PixelBuffer::new(10, 10, black).unwrap();
    buf.set_color(5, 5, red);

    run_bounded(&mut buf, WorkerStatus::Running, red, 200);

    // growth is monotonic: every cell is still black or was claimed red,
    // and the seed itself was never un-painted
    assert_eq!(buf.cell_color(4, 4), red);
    for x in 0..10 {
        for y in 0..10 {
            let c = buf.cell_color(x, y);
            assert!(c == black || c == red);
        }
    }
}

#[test]
fn other_groups_overwrite_but_never_unpaint() {
    let black = Color(0, 0, 0, 255);
    let red = Color(255, 0, 0, 255);
    let blue = Color(0, 0, 255, 255);
    let mut buf = PixelBuffer::new(10, 10, black).unwrap();

    buf.set_color(5, 5, red);
    run_bounded(&mut buf, WorkerStatus::Running, red, 100);
    let mut red_cells = Vec::new();
    for x in 0..10 {
        for y in 0..10 {
            if buf.cell_color(x, y) == red {
                red_cells.push((x, y));
            }
        }
    }

    // a second group races over the same buffer with its own color: it may
    // overwrite red territory by contention, but never resets it to anything
    // else
    buf.set_color(2, 2, blue);
    run_bounded(&mut buf, WorkerStatus::Running, blue, 100);
    for (x, y) in red_cells {
        let c = buf.cell_color(x, y);
        assert!(c == red || c == blue);
    }
    for x in 0..10 {
        for y in 0..10 {
            let c = buf.cell_color(x, y);
            assert!(c == black || c == red || c == blue);
        }
    }
}

#[test]
fn grown_region_is_connected_to_seed() {
    let black = Color(0, 0, 0, 255);
    let red = Color(255, 0, 0, 255);
    let mut buf = PixelBuffer::new(10, 10, black).unwrap();
    buf.set_color(5, 5, red); // seed at cell (4, 4)

    let mut painted = 1;
    let mut rounds = 0;
    while painted < 50 && rounds < 20000 {
        worker_iteration(&mut buf, WorkerStatus::Running, red);
        rounds += 1;
        painted = 0;
        for x in 0..10 {
            for y in 0..10 {
                if buf.cell_color(x, y) == red {
                    painted += 1;
                }
            }
        }
    }
    assert!(painted >= 50, "growth stalled after {rounds} rounds at {painted} cells");

    // the walkable grid is the 9 x 9 torus; the last row and column are
    // never reached by the wraparound
    for k in 0..10 {
        assert_eq!(buf.cell_color(9, k), black);
        assert_eq!(buf.cell_color(k, 9), black);
    }

    // every red cell connects back to the seed through red torus neighbors
    let mut seen = [[false; 9]; 9];
    let mut queue = vec![(4u32, 4u32)];
    seen[4][4] = true;
    while let Some((x, y)) = queue.pop() {
        let neighbors = [
            ((x + 1) % 9, y),
            ((x + 8) % 9, y),
            (x, (y + 1) % 9),
            (x, (y + 8) % 9),
        ];
        for (nx, ny) in neighbors {
            if !seen[nx as usize][ny as usize] && buf.cell_color(nx, ny) == red {
                seen[nx as usize][ny as usize] = true;
                queue.push((nx, ny));
            }
        }
    }
    for x in 0..9 {
        for y in 0..9 {
            if buf.cell_color(x, y) == red {
                assert!(seen[x as usize][y as usize], "red cell ({x}, {y}) not connected to seed");
            }
        }
    }
}
