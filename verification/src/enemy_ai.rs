use vstd::prelude::*;
use crate::buffer::Buffer;
use crate::components::Direction;
use crate::randomness::RngSource;

verus! {

#[derive(Clone, Debug)]
pub enum AIType {
    SimpleDown,
    SimpleLeft,
    RollDownPlayer,
}

#[derive(Clone, Debug)]
pub struct EnemyAIComponent {
    pub ai_type: AIType,
}

impl EnemyAIComponent {
    pub fn new(ai_type: AIType) -> (r: EnemyAIComponent)
        ensures
            r.ai_type == ai_type,
    {
        EnemyAIComponent { ai_type }
    }
}

#[derive(Clone, Copy, Debug, PartialEq, Eq, Structural)]
pub enum Action {
    DoNothing,
    Move(Direction),
}

/// The grid offset one step from the centre of a 3x3 neighbourhood, for
/// each of the four scan slots: left, up, down, right.
pub open spec fn slot_offset(i: int) -> (int, int) {
    if i == 0 {
        (0, 1)
    } else if i == 1 {
        (1, 0)
    } else if i == 2 {
        (1, 2)
    } else {
        (2, 1)
    }
}

pub open spec fn slot_direction(i: int) -> Direction {
    if i == 0 {
        Direction::Left
    } else if i == 1 {
        Direction::Up
    } else if i == 2 {
        Direction::Down
    } else {
        Direction::Right
    }
}

/// The influence-field value at the neighbour of `target` in scan slot `i`.
pub open spec fn slot_value(dijk: Seq<Vec<u32>>, target: (u16, u16), i: int) -> u32 {
    dijk[target.0 + slot_offset(i).0 - 1]@[target.1 + slot_offset(i).1 - 1]
}

/// The full 3x3 neighbourhood of `target` lies inside the field.
pub open spec fn neighbourhood_in(dijk: Seq<Vec<u32>>, target: (u16, u16)) -> bool {
    &&& 1 <= target.0
    &&& 1 <= target.1
    &&& target.0 + 1 < dijk.len()
    &&& forall|x: int| 0 <= x < dijk.len() ==> target.1 + 1 < (#[trigger] dijk[x])@.len()
}

/// Moves one row down unless the collision buffer blocks it; always costs
/// ten energy.
pub fn simple_down(position: (u16, u16), collision_buffer: &Buffer) -> (r: (Action, u8))
    requires
        position.0 >= 1,
        position.0 < collision_buffer@.len(),
        position.1 < collision_buffer@[position.0 - 1]@.len(),
    ensures
        r.1 == 10,
        r.0 == (if collision_buffer@[position.0 - 1]@[position.1 as int] == 1 {
            Action::DoNothing
        } else {
            Action::Move(Direction::Down)
        }),
{
    if collision_buffer[position.0 as usize - 1][position.1 as usize] == 1 {
        (Action::DoNothing, 10)
    } else {
        (Action::Move(Direction::Down), 10)
    }
}

/// Picks, uniformly at random among ties, a neighbouring cell whose
/// influence-field value is lowest, returning its offset and direction.
pub fn lowest_direction(target: (u16, u16), dijk: &Vec<Vec<u32>>, rng: &mut RngSource)
    -> (r: Option<((u16, u16), Direction)>)
    requires
        neighbourhood_in(dijk@, target),
    ensures
        r matches Some(p) ==> exists|i: int| {
            &&& 0 <= i < 4
            &&& p.0 == ((#[trigger] slot_offset(i)).0 as u16, slot_offset(i).1 as u16)
            &&& p.1 == slot_direction(i)
            &&& forall|j: int| 0 <= j < 4
                ==> slot_value(dijk@, target, i) <= #[trigger] slot_value(dijk@, target, j)
        },
        r is Some,
{
    let tx = target.0 as usize;
    let ty = target.1 as usize;

    let v0 = dijk[tx - 1][ty];
    let v1 = dijk[tx][ty - 1];
    let v2 = dijk[tx][ty + 1];
    let v3 = dijk[tx + 1][ty];

    proof {
        assert(v0 == slot_value(dijk@, target, 0));
        assert(v1 == slot_value(dijk@, target, 1));
        assert(v2 == slot_value(dijk@, target, 2));
        assert(v3 == slot_value(dijk@, target, 3));
    }

    let mut lowest = v0;
    if v1 < lowest {
        lowest = v1;
    }
    if v2 < lowest {
        lowest = v2;
    }
    if v3 < lowest {
        lowest = v3;
    }

    let mut equal_lowest: Vec<usize> = Vec::new();
    if v0 <= lowest {
        equal_lowest.push(0);
    }
    if v1 <= lowest {
        equal_lowest.push(1);
    }
    if v2 <= lowest {
        equal_lowest.push(2);
    }
    if v3 <= lowest {
        equal_lowest.push(3);
    }

    proof {
        assert(equal_lowest@.len() >= 1);
        assert forall|k: int| 0 <= k < equal_lowest@.len() implies {
            &&& 0 <= #[trigger] equal_lowest@[k] < 4
            &&& slot_value(dijk@, target, equal_lowest@[k] as int) == lowest
        } by {
        }
    }

    let random_idx = rng.pick(equal_lowest.len());
    let slot = equal_lowest[random_idx];

    let offset: (u16, u16);
    let direction: Direction;
    if slot == 0 {
        offset = (0, 1);
        direction = Direction::Left;
    } else if slot == 1 {
        offset = (1, 0);
        direction = Direction::Up;
    } else if slot == 2 {
        offset = (1, 2);
        direction = Direction::Down;
    } else {
        offset = (2, 1);
        direction = Direction::Right;
    }

    proof {
        let i = slot as int;
        assert(slot_value(dijk@, target, i) == lowest);
        assert(forall|j: int| 0 <= j < 4
            ==> lowest <= #[trigger] slot_value(dijk@, target, j));
    }

    Some((offset, direction))
}

/// Rolls towards the lowest neighbouring influence-field value: moves in
/// that direction unless the collision buffer blocks the step; always costs
/// ten energy.
pub fn roll_down_player(position: (u16, u16), collision_buffer: &Buffer,
    player_dijk: &Vec<Vec<u32>>, rng: &mut RngSource) -> (r: (Action, u8))
    requires
        neighbourhood_in(player_dijk@, position),
        position.0 + 1 < collision_buffer@.len(),
        forall|x: int| 0 <= x < collision_buffer@.len()
            ==> position.1 + 1 < (#[trigger] collision_buffer@[x])@.len(),
    ensures
        r.1 == 10,
{
    let lowest = lowest_direction(position, player_dijk, rng);

    match lowest {
        Some(direction) => {
            let cx = position.0 as usize + (direction.0).0 as usize - 1;
            let cy = position.1 as usize + (direction.0).1 as usize - 1;
            if collision_buffer[cx][cy] == 1 {
                (Action::DoNothing, 10)
            } else {
                (Action::Move(direction.1), 10)
            }
        },
        None => (Action::DoNothing, 10),
    }
}

} // verus!
