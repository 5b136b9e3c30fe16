use life::Cell;
use life::Density;
use life::Universe;

#[test]
fn test_basic() {
    let mut u = Universe::new(60, 40);
    assert_eq!(60, u.width());
    assert_eq!(40, u.height());
    assert_eq!(Cell::Empty, u.get(6, 4));

    u.set(6, 4, Cell::Alive);
    assert_eq!(Cell::Alive, u.get(6, 4));

    u.toggle(6, 4);
    assert_eq!(Cell::Empty, u.get(6, 4));
    u.toggle(6, 4);
    assert_eq!(Cell::Alive, u.get(6, 4));

    assert_eq!(20u8, Density::Low.percent());
    u.random(Density::Medium);
}

#[test]
fn test_next() {
    let map = vec![(5, 4), (5, 5), (5, 6), (4, 5), (6, 5)];
    let mut u = Universe::new(30, 11);
    u.fill(Cell::Dead);
    for (x, y) in map.iter() {
        u.toggle(*x as u32, *y as u32);
    }
    println!("{}", u.render());

    let mut exp1: Option<String> = None;
    let mut exp2: Option<String> = None;
    for i in 0..12 {
        u.next();
        println!("{}.", i);
        println!("{}", u.render());

        if i == 5 {
            exp1 = Some(u.render());
        } else if i == 6 {
            exp2 = Some(u.render());
        } else if i >= 7 {
            if i % 2 == 0 {
                assert_eq!(exp2, Some(u.render()));
            } else {
                assert_eq!(exp1, Some(u.render()));
            }
        }
    }
}

#[test]
fn test_circular() {
    let map = vec![(0, 5), (0, 0), (0, 1)];
    let mut u = Universe::new(10, 6);
    u.fill(Cell::Dead);
    for (x, y) in map.iter() {
        u.toggle(*x as u32, *y as u32);
    }
    println!("{}", u.render());

    let mut exp1: Option<String> = None;
    let mut exp2: Option<String> = None;
    for i in 0..5 {
        u.next();
        println!("{}.", i);
        println!("{}", u.render());

        match i {
            0 => exp1 = Some(u.render()),
            1 => exp2 = Some(u.render()),
            _ => {
                if i % 2 == 0 {
                    assert_eq!(exp1, Some(u.render()));
                } else {
                    assert_eq!(exp2, Some(u.render()));
                }
            }
        }
    }
}

#[test]
fn test_no_circular() {
    let map = vec![(0, 4), (0, 0), (0, 1)];
    let mut u = Universe::new(9, 5);
    u.set_circular(false);
    u.fill(Cell::Dead);
    for (x, y) in map.iter() {
        u.toggle(*x as u32, *y as u32);
    }
    println!("{}", u.render());

    u.next();
    println!("{}", u.render());
    for x in 0..u.width() {
        for y in 0..u.height() {
            assert_eq!(Cell::Dead, u.get(x, y));
        }
    }

    let map = vec![(4, 1), (4, 2), (4, 3)];
    for (x, y) in map.iter() {
        u.toggle(*x as u32, *y as u32);
    }
    println!("{}", u.render());

    let mut exp1: Option<String> = None;
    let mut exp2: Option<String> = None;
    for i in 0..5 {
        u.next();
        println!("{}.", i);
        println!("{}", u.render());

        match i {
            0 => exp1 = Some(u.render()),
            1 => exp2 = Some(u.render()),
            _ => {
                if i % 2 == 0 {
                    assert_eq!(exp1, Some(u.render()));
                } else {
                    assert_eq!(exp2, Some(u.render()));
                }
            }
        }
    }
}

#[test]
fn test_dimensions_and_topology_default() {
    let mut u = Universe::new(9, 5);
    assert_eq!(9, u.width());
    assert_eq!(5, u.height());
    assert!(u.is_circular());
    u.set_circular(false);
    assert!(!u.is_circular());
    u.set_circular(true);
    assert!(u.is_circular());
}

#[test]
fn test_toggle_two_cycle() {
    let mut u = Universe::new(4, 4);
    // Empty toggles to Alive, and toggling twice returns to Empty.
    assert_eq!(Cell::Empty, u.get(1, 1));
    u.toggle(1, 1);
    assert_eq!(Cell::Alive, u.get(1, 1));
    u.toggle(1, 1);
    assert_eq!(Cell::Empty, u.get(1, 1));
    // Dead toggles to Alive, not back to Empty.
    u.set(2, 2, Cell::Dead);
    u.toggle(2, 2);
    assert_eq!(Cell::Alive, u.get(2, 2));
}

#[test]
fn test_fill_overwrites_everything() {
    let mut u = Universe::new(7, 3);
    u.set(0, 0, Cell::Alive);
    u.set(3, 2, Cell::Dead);
    u.fill(Cell::Alive);
    for x in 0..u.width() {
        for y in 0..u.height() {
            assert_eq!(Cell::Alive, u.get(x, y));
        }
    }
    u.fill(Cell::Dead);
    for x in 0..u.width() {
        for y in 0..u.height() {
            assert_eq!(Cell::Dead, u.get(x, y));
        }
    }
}

#[test]
fn test_neighbor_count_bounds() {
    // On a fully live bounded grid the count equals the number of checked
    // neighbors: 3 in a corner, 5 on an edge, 8 in the interior.
    let mut u = Universe::new(9, 5);
    u.set_circular(false);
    u.fill(Cell::Alive);
    assert_eq!(3, u.live_neighbor_count(0, 0));
    assert_eq!(3, u.live_neighbor_count(8, 0));
    assert_eq!(3, u.live_neighbor_count(0, 4));
    assert_eq!(3, u.live_neighbor_count(8, 4));
    assert_eq!(5, u.live_neighbor_count(4, 0));
    assert_eq!(5, u.live_neighbor_count(0, 2));
    assert_eq!(5, u.live_neighbor_count(8, 2));
    assert_eq!(5, u.live_neighbor_count(4, 4));
    assert_eq!(8, u.live_neighbor_count(4, 2));
    // On a fully live toroidal grid every cell has all 8 neighbors.
    u.set_circular(true);
    assert_eq!(8, u.live_neighbor_count(0, 0));
    assert_eq!(8, u.live_neighbor_count(8, 4));
}

#[test]
fn test_toroidal_wrap() {
    let mut u = Universe::new(10, 6);
    u.set(0, 2, Cell::Alive);
    // The live cell in column 0 is a neighbor of the last column's cells in
    // the adjacent rows, through the wrap.
    assert_eq!(1, u.live_neighbor_count(9, 1));
    assert_eq!(1, u.live_neighbor_count(9, 2));
    assert_eq!(1, u.live_neighbor_count(9, 3));
    // Without the wrap it is not.
    u.set_circular(false);
    assert_eq!(0, u.live_neighbor_count(9, 1));
    assert_eq!(0, u.live_neighbor_count(9, 2));
    assert_eq!(0, u.live_neighbor_count(9, 3));
    // The y axis wraps symmetrically.
    u.set_circular(true);
    u.fill(Cell::Empty);
    u.set(3, 0, Cell::Alive);
    assert_eq!(1, u.live_neighbor_count(3, 5));
    u.set_circular(false);
    assert_eq!(0, u.live_neighbor_count(3, 5));
}

#[test]
fn test_transition_rule() {
    // A live cell with one live neighbor dies to Dead; its neighbor too.
    let mut u = Universe::new(6, 6);
    u.set_circular(false);
    u.set(1, 1, Cell::Alive);
    u.set(1, 2, Cell::Alive);
    u.next();
    assert_eq!(Cell::Dead, u.get(1, 1));
    assert_eq!(Cell::Dead, u.get(1, 2));
    // An Empty cell with exactly 3 live neighbors becomes Alive; with 2 it
    // stays Empty; a Dead cell with 2 stays Dead.
    let mut u = Universe::new(6, 6);
    u.set_circular(false);
    u.set(0, 0, Cell::Alive);
    u.set(1, 0, Cell::Alive);
    u.set(2, 0, Cell::Alive);
    u.set(3, 1, Cell::Dead);
    u.next();
    // (1,1) saw 3 live neighbors and is born.
    assert_eq!(Cell::Alive, u.get(1, 1));
    // (1,0) had 2 live neighbors and survives.
    assert_eq!(Cell::Alive, u.get(1, 0));
    // (0,0) and (2,0) had 1 live neighbor each and die.
    assert_eq!(Cell::Dead, u.get(0, 0));
    assert_eq!(Cell::Dead, u.get(2, 0));
    // (0,1) saw only 2 live neighbors and stays Empty.
    assert_eq!(Cell::Empty, u.get(0, 1));
    // (3,1) saw 1 live neighbor and stays Dead.
    assert_eq!(Cell::Dead, u.get(3, 1));
}

#[test]
fn test_determinism() {
    let seeds = [(2u32, 1u32), (3, 1), (4, 1), (4, 2), (3, 3)];
    let mut a = Universe::new(12, 8);
    let mut b = Universe::new(12, 8);
    for (x, y) in seeds.iter() {
        a.set(*x, *y, Cell::Alive);
        b.set(*x, *y, Cell::Alive);
    }
    for _ in 0..10 {
        a.next();
        b.next();
        assert_eq!(a.render(), b.render());
    }
}

#[test]
fn test_blinker_bounded() {
    let mut u = Universe::new(9, 5);
    u.set_circular(false);
    u.fill(Cell::Dead);
    u.set(4, 1, Cell::Alive);
    u.set(4, 2, Cell::Alive);
    u.set(4, 3, Cell::Alive);
    u.next();
    // The endpoints had one neighbor each and die; the middle row of three
    // cells each saw exactly 3 live neighbors and is alive.
    assert_eq!(Cell::Dead, u.get(4, 1));
    assert_eq!(Cell::Dead, u.get(4, 3));
    assert_eq!(Cell::Alive, u.get(3, 2));
    assert_eq!(Cell::Alive, u.get(4, 2));
    assert_eq!(Cell::Alive, u.get(5, 2));
    // The blinker oscillates with period 2 from here on.
    let horizontal = u.render();
    u.next();
    let vertical = u.render();
    u.next();
    assert_eq!(horizontal, u.render());
    u.next();
    assert_eq!(vertical, u.render());
}

#[test]
fn test_isolated_points_die_bounded() {
    let mut u = Universe::new(9, 5);
    u.set_circular(false);
    u.fill(Cell::Dead);
    u.set(0, 0, Cell::Alive);
    u.set(0, 1, Cell::Alive);
    u.set(0, 4, Cell::Alive);
    u.next();
    // None of the seeds had 2 or more neighbors in the bounded grid, so no
    // cell is alive after one step.
    for x in 0..u.width() {
        for y in 0..u.height() {
            assert_ne!(Cell::Alive, u.get(x, y));
        }
    }
}

#[test]
fn test_render_glyphs() {
    let mut u = Universe::new(3, 2);
    u.set(1, 0, Cell::Alive);
    u.set(2, 1, Cell::Dead);
    assert_eq!(" \u{25fc} \n  \u{25fb}\n", u.render());
}

#[test]
fn test_density_percentages() {
    assert_eq!(20u8, Density::Low.percent());
    assert_eq!(35u8, Density::Medium.percent());
    assert_eq!(50u8, Density::High.percent());
}

#[test]
fn test_random_seeds_only_alive_or_empty() {
    let mut u = Universe::new(20, 20);
    u.fill(Cell::Dead);
    u.random(Density::High);
    // Random seeding overwrites every cell with Alive or Empty; no Dead
    // cell survives, though the exact pattern is stochastic.
    for x in 0..u.width() {
        for y in 0..u.height() {
            assert_ne!(Cell::Dead, u.get(x, y));
        }
    }
}
