use wfc_mapgen::buffer::get_matrix;
use wfc_mapgen::buffer::get_sub_view;
use wfc_mapgen::buffer::insert_matrix;
use wfc_mapgen::cave::CaveMapGenerator;
use wfc_mapgen::components::CollisionComponent;
use wfc_mapgen::components::Direction;
use wfc_mapgen::components::EnergyComponent;
use wfc_mapgen::components::MovementComponent;
use wfc_mapgen::components::RenderComponent;
use wfc_mapgen::dijkstra_maps::DijkstraMap;
use wfc_mapgen::dijkstra_maps::Influence;
use wfc_mapgen::enemy_ai::Action;
use wfc_mapgen::enemy_ai::lowest_direction;
use wfc_mapgen::enemy_ai::roll_down_player;
use wfc_mapgen::enemy_ai::simple_down;
use wfc_mapgen::generations::GenerationalIndex;
use wfc_mapgen::generations::GenerationalIndexAllocator;
use wfc_mapgen::generations::GenerationalIndexArray;
use wfc_mapgen::randomness::RngSource;

#[test]
fn get_matrix_fills_span() {
    let m = get_matrix((2, 3), (4, 4), 7);
    assert_eq!(m, vec![vec![7, 7], vec![7, 7], vec![7, 7]]);
    let single = get_matrix((5, 5), (5, 5), 9);
    assert_eq!(single, vec![vec![9]]);
}

#[test]
fn insert_matrix_overwrites_window() {
    let mut buffer = vec![vec![0u8; 4]; 4];
    let stamp = vec![vec![1u8, 2], vec![3, 4]];
    insert_matrix(&mut buffer, (1, 2), &stamp);
    assert_eq!(buffer[1][2], 1);
    assert_eq!(buffer[1][3], 2);
    assert_eq!(buffer[2][2], 3);
    assert_eq!(buffer[2][3], 4);
    assert_eq!(buffer[0][0], 0);
    assert_eq!(buffer[1][1], 0);
}

#[test]
fn get_sub_view_copies_window() {
    let mut buffer = vec![vec![0u8; 5]; 5];
    for x in 0..5 {
        for y in 0..5 {
            buffer[x][y] = (x * 10 + y) as u8;
        }
    }
    let view = get_sub_view(&buffer, (1, 2), 3, 2);
    assert_eq!(view, vec![vec![12, 13], vec![22, 23], vec![32, 33]]);
}

#[test]
fn energy_component_holds_value() {
    let e = EnergyComponent::new(25);
    assert_eq!(e.energy, 25);
}

#[test]
fn collision_component_holds_fields() {
    let c = CollisionComponent::new((3, 4), vec![vec![1]], 2);
    assert_eq!(c.position, (3, 4));
    assert_eq!(c.matrix, vec![vec![1]]);
    assert_eq!(c.layer, 2);
}

#[test]
fn render_component_make_render_maps_cells() {
    let matrix = vec![vec![0u8, 1, 5]];
    let mut r = RenderComponent::new(2, 10, (0, 0), matrix, 0);
    assert!(r.visible);
    let rendered = r.make_render();
    // 0 shows the background, 1 background plus glyph, anything else 0
    assert_eq!(rendered, vec![vec![10, 12, 0]]);
}

#[test]
fn movement_component_moves_each_direction() {
    let mut m = MovementComponent::new((5, 5));
    m.move_desired(Direction::Up);
    assert_eq!(m.desired_position, (5, 4));
    m.move_desired(Direction::Down);
    assert_eq!(m.desired_position, (5, 5));
    m.move_desired(Direction::Left);
    assert_eq!(m.desired_position, (4, 5));
    m.move_desired(Direction::Right);
    assert_eq!(m.desired_position, (5, 5));
}

#[test]
fn allocator_allocates_and_reuses_slots() {
    let mut alloc = GenerationalIndexAllocator::new(2);
    let a = alloc.allocate();
    let b = alloc.allocate();
    assert_eq!(a.index, 0);
    assert_eq!(a.generation, 1);
    assert_eq!(b.index, 1);
    assert_eq!(b.generation, 1);
    assert_eq!(a.index(), 0);

    // allocating past the initial size grows the store
    let c = alloc.allocate();
    assert_eq!(c.index, 2);
    assert_eq!(c.generation, 1);

    assert!(alloc.is_live(a));
    assert!(alloc.deallocate(a));
    // the slot record is untouched by design, so the handle still reads live
    assert!(alloc.is_live(a));
    // a second deallocation pushes the slot again but reports the same state
    assert!(alloc.deallocate(a));

    // the freed slot is reused, with a bumped generation
    let d = alloc.allocate();
    assert_eq!(d.index, 0);
    assert_eq!(d.generation, 2);
}

#[test]
fn allocator_get_vec_lists_live_handles() {
    let mut alloc = GenerationalIndexAllocator::new(3);
    let a = alloc.allocate();
    let b = alloc.allocate();
    let live = alloc.get_vec();
    assert_eq!(live.len(), 2);
    assert_eq!(live[0].index, a.index);
    assert_eq!(live[1].index, b.index);
    assert_eq!(alloc.expose_entries().len(), 3);
}

#[test]
fn array_set_get_respects_generations() {
    let mut array: GenerationalIndexArray<u64> = GenerationalIndexArray::new();
    assert_eq!(array.get_len(), 0);

    let handle = GenerationalIndex { index: 2, generation: 1 };
    array.set(handle, 40);
    assert_eq!(array.get_len(), 3);
    assert_eq!(array.get(handle), Some(&40));

    // an out-of-range or stale handle reads nothing
    let far = GenerationalIndex { index: 9, generation: 1 };
    assert_eq!(array.get(far), None);
    let stale = GenerationalIndex { index: 2, generation: 7 };
    assert_eq!(array.get(stale), None);
    let empty_slot = GenerationalIndex { index: 0, generation: 1 };
    assert_eq!(array.get(empty_slot), None);

    if let Some(v) = array.get_mut(handle) {
        *v = 41;
    } else {
        panic!("current handle must reach its slot");
    }
    assert_eq!(array.get(handle), Some(&41));
    assert!(array.get_mut(stale).is_none());
}

#[test]
fn dijkstra_new_starts_far_everywhere() {
    let map = DijkstraMap::new((3, 2), Vec::new());
    assert_eq!(map.dimensions, (3, 2));
    for col in &map.current_generation {
        for v in col {
            assert_eq!(*v, u32::MAX - 1);
        }
    }
}

#[test]
fn dijkstra_apply_influences_stamps_masked_cells() {
    let influence = Influence {
        position: (1, 0),
        matrix: vec![vec![1, 0], vec![1, 1]],
        value: 0,
    };
    let override_influence = Influence {
        position: (1, 0),
        matrix: vec![vec![0, 0], vec![1, 0]],
        value: 9,
    };
    let mut map = DijkstraMap::new((4, 3), vec![influence, override_influence]);
    map.apply_influences();
    assert_eq!(map.current_generation[1][0], 0);
    assert_eq!(map.current_generation[1][1], u32::MAX - 1);
    // the later influence wins where both stamp
    assert_eq!(map.current_generation[2][0], 9);
    assert_eq!(map.current_generation[2][1], 0);
    assert_eq!(map.current_generation[0][0], u32::MAX - 1);
}

#[test]
fn dijkstra_flood_fill_radiates_from_seed() {
    let seed = Influence {
        position: (1, 1),
        matrix: vec![vec![1]],
        value: 0,
    };
    let mut map = DijkstraMap::new((3, 3), vec![seed]);
    map.new_implementation();
    assert_eq!(map.current_generation[1][1], 0);
    assert_eq!(map.current_generation[0][1], 1);
    assert_eq!(map.current_generation[2][1], 1);
    assert_eq!(map.current_generation[1][0], 1);
    assert_eq!(map.current_generation[1][2], 1);
    assert_eq!(map.current_generation[0][0], 2);
    assert_eq!(map.current_generation[2][2], 2);
}

#[test]
fn dijkstra_flood_fill_keeps_walls() {
    let wall = Influence {
        position: (1, 0),
        matrix: vec![vec![1, 1, 1]],
        value: u32::MAX,
    };
    let seed = Influence {
        position: (0, 1),
        matrix: vec![vec![1]],
        value: 0,
    };
    let mut map = DijkstraMap::new((3, 3), vec![wall, seed]);
    map.new_implementation();
    // the wall column stays impassable
    assert_eq!(map.current_generation[1][0], u32::MAX);
    assert_eq!(map.current_generation[1][1], u32::MAX);
    assert_eq!(map.current_generation[1][2], u32::MAX);
    // the seed side is filled, the far side stays unreached
    assert_eq!(map.current_generation[0][1], 0);
    assert_eq!(map.current_generation[0][0], 1);
    assert_eq!(map.current_generation[0][2], 1);
    assert_eq!(map.current_generation[2][1], u32::MAX - 1);
}

#[test]
fn dijkstra_make_render_shifts_values() {
    let seed = Influence {
        position: (0, 0),
        matrix: vec![vec![1]],
        value: 3,
    };
    let mut map = DijkstraMap::new((2, 1), vec![seed]);
    map.apply_influences();
    let rendered = map.make_render();
    assert_eq!(rendered[0][0], 11);
    // a far cell renders flat
    assert_eq!(rendered[1][0], 5);
}

#[test]
fn simple_down_blocked_and_free() {
    let mut buffer = vec![vec![0u8; 3]; 3];
    let free = simple_down((1, 1), &buffer);
    assert_eq!(free.1, 10);
    assert!(matches!(free.0, Action::Move(Direction::Down)));

    buffer[0][1] = 1;
    let blocked = simple_down((1, 1), &buffer);
    assert!(matches!(blocked.0, Action::DoNothing));
}

#[test]
fn lowest_direction_picks_strict_minimum() {
    // only the left neighbour is low, so every seed picks it
    let mut dijk = vec![vec![50u32; 3]; 3];
    dijk[0][1] = 1;
    for seed in 0..10u64 {
        let mut rng = RngSource::from_seed(seed);
        let picked = lowest_direction((1, 1), &dijk, &mut rng).unwrap();
        assert_eq!(picked.0, (0, 1));
        assert!(matches!(picked.1, Direction::Left));
    }
}

#[test]
fn roll_down_player_respects_collisions() {
    let mut dijk = vec![vec![50u32; 3]; 3];
    dijk[0][1] = 1;
    let open = vec![vec![0u8; 3]; 3];
    let mut rng = RngSource::from_seed(0);
    let moved = roll_down_player((1, 1), &open, &dijk, &mut rng);
    assert!(matches!(moved.0, Action::Move(Direction::Left)));
    assert_eq!(moved.1, 10);

    let mut walls = vec![vec![0u8; 3]; 3];
    walls[0][1] = 1;
    let stuck = roll_down_player((1, 1), &walls, &dijk, &mut rng);
    assert!(matches!(stuck.0, Action::DoNothing));
}

#[test]
fn cave_new_is_open_everywhere() {
    let cave = CaveMapGenerator::new((4, 4));
    assert_eq!(cave.dimensions, (4, 4));
    for col in &cave.current_generation {
        for v in col {
            assert_eq!(*v, 0);
        }
    }
}

#[test]
fn cave_randomize_walls_rim_and_mask() {
    let mut cave = CaveMapGenerator::new((5, 5));
    let mut mask = vec![vec![false; 5]; 5];
    mask[2][2] = true;
    cave.randomize(&mask);
    // the rim is solid
    assert_eq!(cave.current_generation[0][0], 1);
    assert_eq!(cave.current_generation[4][2], 1);
    assert_eq!(cave.current_generation[2][0], 1);
    // the masked interior cell is solid, an unmasked one stays open
    assert_eq!(cave.current_generation[2][2], 1);
    assert_eq!(cave.current_generation[3][2], 0);
    assert_eq!(cave.current_generation[2][3], 0);
}

#[test]
fn cave_run_generation_applies_neighbour_rule() {
    let mut cave = CaveMapGenerator::new((5, 5));
    let mask = vec![vec![false; 5]; 5];
    cave.randomize(&mask);
    // rim solid, the four interior cells (2..=3, 2..=3) open
    assert_eq!(cave.current_generation[2][2], 0);
    cave.run_generation();
    // the previous generation is kept
    assert_eq!(cave.last_generation[0][0], 1);
    assert_eq!(cave.last_generation[2][2], 0);
    // each open interior cell sees five wall neighbours, so it fills in
    assert_eq!(cave.current_generation[2][2], 1);
    assert_eq!(cave.current_generation[3][3], 1);
    // the rim is never rewritten
    assert_eq!(cave.current_generation[0][0], 1);
    assert_eq!(cave.dimensions, (5, 5));
}

#[test]
fn cave_make_render_maps_cells() {
    let mut cave = CaveMapGenerator::new((4, 4));
    let mask = vec![vec![false; 4]; 4];
    cave.randomize(&mask);
    cave.run_generation();
    let rendered = cave.make_render();
    for x in 0..4 {
        for y in 0..4 {
            let expected = if cave.last_generation[x][y] == 0 { 1 } else { 3 };
            assert_eq!(rendered[x][y], expected);
        }
    }
}

#[test]
fn cave_generate_keeps_shape() {
    let mut cave = CaveMapGenerator::new((6, 6));
    let mut mask = vec![vec![false; 6]; 6];
    mask[2][3] = true;
    mask[3][2] = true;
    cave.randomize(&mask);
    cave.generate();
    assert_eq!(cave.current_generation.len(), 6);
    for col in &cave.current_generation {
        assert_eq!(col.len(), 6);
        for v in col {
            assert!(*v <= 1);
        }
    }
}
