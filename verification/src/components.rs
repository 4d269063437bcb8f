use vstd::prelude::*;
use crate::buffer::Buffer;

verus! {

/// The four cardinal directions, as seen from a source cell: `Left` is the
/// neighbour at `x - 1`, `Up` at `y - 1`, `Down` at `y + 1`, `Right` at `x + 1`.
#[derive(Clone, Copy, Debug, PartialEq, Eq, Structural)]
pub enum Direction {
    Up,
    Down,
    Left,
    Right,
}

pub open spec fn opposite(d: Direction) -> Direction {
    match d {
        Direction::Up => Direction::Down,
        Direction::Down => Direction::Up,
        Direction::Left => Direction::Right,
        Direction::Right => Direction::Left,
    }
}

#[derive(Debug)]
pub enum ComponentList {
    Render(RenderComponent),
    Collision(CollisionComponent),
    Energy(EnergyComponent),
    Movement(MovementComponent),
}

#[derive(Clone, Debug)]
pub struct EnergyComponent {
    pub energy: u8,
}

impl EnergyComponent {
    pub fn new(energy: u8) -> (r: EnergyComponent)
        ensures
            r.energy == energy,
    {
        EnergyComponent { energy }
    }
}

#[derive(Debug)]
pub struct CollisionComponent {
    pub position: (u16, u16),
    pub matrix: Vec<Vec<u8>>,
    pub layer: u8,
}

impl CollisionComponent {
    pub fn new(position: (u16, u16), matrix: Vec<Vec<u8>>, layer: u8) -> (r: CollisionComponent)
        ensures
            r.position == position,
            r.matrix == matrix,
            r.layer == layer,
    {
        CollisionComponent { position, matrix, layer }
    }
}

#[derive(Debug)]
pub struct RenderComponent {
    pub character: u8,
    pub backgroud: u8,
    pub position_tl: (u16, u16),
    pub matrix: Buffer,
    pub visible: bool,
    pub layer: u16,
}

impl RenderComponent {
    pub fn new(character: u8, backgroud: u8, position_tl: (u16, u16), matrix: Buffer, layer: u16)
        -> (r: RenderComponent)
        ensures
            r.character == character,
            r.backgroud == backgroud,
            r.position_tl == position_tl,
            r.matrix == matrix,
            r.visible == true,
            r.layer == layer,
    {
        RenderComponent { character, backgroud, position_tl, matrix, visible: true, layer }
    }

    /// Renders the mask `matrix` into display values: a 0 cell shows the
    /// background, a 1 cell the background plus the character glyph offset,
    /// anything else the value 0.
    pub fn make_render(&mut self) -> (result: Buffer)
        requires
            old(self).backgroud + old(self).character <= u8::MAX,
        ensures
            *final(self) == *old(self),
            result@.len() == old(self).matrix@.len(),
            forall|x: int| 0 <= x < old(self).matrix@.len()
                ==> (#[trigger] result@[x])@.len() == old(self).matrix@[x]@.len(),
            forall|x: int, y: int|
                0 <= x < old(self).matrix@.len() && 0 <= y < old(self).matrix@[x]@.len()
                    ==> #[trigger] result@[x]@[y] == (if old(self).matrix@[x]@[y] == 0 {
                        old(self).backgroud
                    } else if old(self).matrix@[x]@[y] == 1 {
                        (old(self).backgroud + old(self).character) as u8
                    } else {
                        0u8
                    }),
    {
        let mut result: Buffer = Vec::new();

        let mut x: usize = 0;
        while x < self.matrix.len()
            invariant
                *self == *old(self),
                self.backgroud + self.character <= u8::MAX,
                x <= self.matrix@.len(),
                result@.len() == x,
                forall|i: int| 0 <= i < x
                    ==> (#[trigger] result@[i])@.len() == self.matrix@[i]@.len(),
                forall|i: int, j: int|
                    0 <= i < x && 0 <= j < self.matrix@[i]@.len()
                        ==> #[trigger] result@[i]@[j] == (if self.matrix@[i]@[j] == 0 {
                            self.backgroud
                        } else if self.matrix@[i]@[j] == 1 {
                            (self.backgroud + self.character) as u8
                        } else {
                            0u8
                        }),
            decreases self.matrix@.len() - x,
        {
            let col = &self.matrix[x];
            let mut out: Vec<u8> = Vec::new();
            let mut y: usize = 0;
            while y < col.len()
                invariant
                    *self == *old(self),
                    self.backgroud + self.character <= u8::MAX,
                    x < self.matrix@.len(),
                    col == self.matrix@[x as int],
                    y <= col@.len(),
                    out@.len() == y,
                    forall|j: int| 0 <= j < y
                        ==> out@[j] == (if (#[trigger] col@[j]) == 0 {
                            self.backgroud
                        } else if col@[j] == 1 {
                            (self.backgroud + self.character) as u8
                        } else {
                            0u8
                        }),
                decreases col@.len() - y,
            {
                let val = col[y];
                if val == 0 {
                    out.push(self.backgroud);
                } else if val == 1 {
                    out.push(self.backgroud + self.character);
                } else {
                    out.push(0);
                }
                y = y + 1;
            }
            result.push(out);
            x = x + 1;
        }
        result
    }
}

#[derive(Debug)]
pub struct MovementComponent {
    pub desired_position: (u16, u16),
}

impl MovementComponent {
    pub fn new(position: (u16, u16)) -> (r: MovementComponent)
        ensures
            r.desired_position == position,
    {
        MovementComponent { desired_position: position }
    }

    /// Moves the desired position one step in `direction`.
    pub fn move_desired(&mut self, direction: Direction)
        requires
            direction == Direction::Up ==> old(self).desired_position.1 > 0,
            direction == Direction::Down ==> old(self).desired_position.1 < u16::MAX,
            direction == Direction::Left ==> old(self).desired_position.0 > 0,
            direction == Direction::Right ==> old(self).desired_position.0 < u16::MAX,
        ensures
            final(self).desired_position == (match direction {
                Direction::Up => (old(self).desired_position.0, (old(self).desired_position.1 - 1) as u16),
                Direction::Down => (old(self).desired_position.0, (old(self).desired_position.1 + 1) as u16),
                Direction::Left => ((old(self).desired_position.0 - 1) as u16, old(self).desired_position.1),
                Direction::Right => ((old(self).desired_position.0 + 1) as u16, old(self).desired_position.1),
            }),
    {
        match direction {
            Direction::Up => {
                self.desired_position.1 = self.desired_position.1 - 1;
            },
            Direction::Down => {
                self.desired_position.1 = self.desired_position.1 + 1;
            },
            Direction::Left => {
                self.desired_position.0 = self.desired_position.0 - 1;
            },
            Direction::Right => {
                self.desired_position.0 = self.desired_position.0 + 1;
            },
        }
    }
}

} // verus!
