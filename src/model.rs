use vstd::prelude::*;

verus! {

/// The rectangle `[0, x] x [0, y]` the hoover may move in; both bounds are inclusive.
#[derive(PartialEq, Eq, Structural, Debug, Clone, Copy)]
pub struct Grid {
    pub x: u8,
    pub y: u8,
}

impl Grid {
    /// The point `(x, y)` lies in the closed rectangle.
    pub open spec fn contains(self, x: int, y: int) -> bool {
        0 <= x <= self.x && 0 <= y <= self.y
    }

    pub fn new(x: u8, y: u8) -> (g: Grid)
        ensures
            g.x == x,
            g.y == y,
    {
        Grid { x: x, y: y }
    }

    pub fn is_valid(&self, x: i8, y: i8) -> (r: bool)
        ensures
            r == self.contains(x as int, y as int),
    {
        if x < 0 || x as u8 > self.x {
            return false;
        }
        if y < 0 || y as u8 > self.y {
            return false;
        }
        true
    }
}

/// A heading, with its angle in degrees measured clockwise from North.
#[derive(PartialEq, Eq, Structural, Debug, Clone, Copy)]
pub enum Orientation {
    North,
    East,
    South,
    West,
}

impl Orientation {
    pub open spec fn angle(self) -> int {
        match self {
            Orientation::North => 0,
            Orientation::East => 90,
            Orientation::South => 180,
            Orientation::West => 270,
        }
    }

    /// The heading named by an angle; only these six angles name one.
    pub open spec fn of_angle(a: int) -> Option<Orientation> {
        if a == 0 || a == 360 {
            Some(Orientation::North)
        } else if a == 90 {
            Some(Orientation::East)
        } else if a == 180 {
            Some(Orientation::South)
        } else if a == 270 || a == -90 {
            Some(Orientation::West)
        } else {
            None
        }
    }

    /// The heading after turning by `degree`, if the resulting angle names one.
    pub open spec fn rotated(self, degree: int) -> Option<Orientation> {
        Self::of_angle(self.angle() + degree)
    }

    /// The unit step taken when moving forward.
    pub open spec fn step(self) -> (int, int) {
        match self {
            Orientation::North => (0, 1),
            Orientation::East => (1, 0),
            Orientation::South => (0, -1),
            Orientation::West => (-1, 0),
        }
    }

    /// The heading a one-letter token names: `N`, `E`, `S` or `W`.
    pub open spec fn of_token(t: Seq<char>) -> Option<Orientation> {
        if t == seq!['N'] {
            Some(Orientation::North)
        } else if t == seq!['E'] {
            Some(Orientation::East)
        } else if t == seq!['S'] {
            Some(Orientation::South)
        } else if t == seq!['W'] {
            Some(Orientation::West)
        } else {
            None
        }
    }

    pub fn from_token(t: &Vec<char>) -> (r: Option<Orientation>)
        ensures
            r == Self::of_token(t@),
    {
        if t.len() != 1 {
            assert(t@ != seq!['N'] && t@ != seq!['E'] && t@ != seq!['S'] && t@ != seq!['W']);
            return None;
        }
        let c = t[0];
        assert(t@ =~= seq![c]);
        if c == 'N' {
            Some(Orientation::North)
        } else if c == 'E' {
            Some(Orientation::East)
        } else if c == 'S' {
            Some(Orientation::South)
        } else if c == 'W' {
            Some(Orientation::West)
        } else {
            assert(seq![c] != seq!['N'] && seq![c] != seq!['E'] && seq![c] != seq!['S'] && seq![c] != seq!['W']) by {
                assert(seq![c][0] == c);
            }
            None
        }
    }

    pub fn radian(&self) -> (r: i16)
        ensures
            r == self.angle(),
    {
        match *self {
            Orientation::North => 0,
            Orientation::East => 90,
            Orientation::South => 180,
            Orientation::West => 270,
        }
    }

    pub fn rotate(&self, degree: i16) -> (r: Result<Orientation, HooverError>)
        ensures
            match self.rotated(degree as int) {
                Some(o) => r == Ok::<Orientation, HooverError>(o),
                None => r == Err::<Orientation, HooverError>(
                    HooverError::UnsupportedRotation { degree },
                ),
            },
    {
        let a: i32 = self.radian() as i32 + degree as i32;
        if a == 0 || a == 360 {
            Ok(Orientation::North)
        } else if a == 90 {
            Ok(Orientation::East)
        } else if a == 180 {
            Ok(Orientation::South)
        } else if a == 270 || a == -90 {
            Ok(Orientation::West)
        } else {
            Err(HooverError::UnsupportedRotation { degree })
        }
    }
}

/// A point of the plane and a heading.
#[derive(PartialEq, Eq, Structural, Debug, Clone, Copy)]
pub struct Position {
    pub x: i8,
    pub y: i8,
    pub orientation: Orientation,
}

impl Position {
    pub fn new(x: i8, y: i8, orientation: Orientation) -> (p: Position)
        ensures
            p.x == x,
            p.y == y,
            p.orientation == orientation,
    {
        Position { x: x, y: y, orientation: orientation }
    }

    /// The point one unit ahead along the heading.
    pub open spec fn ahead(self) -> (int, int) {
        (self.x + self.orientation.step().0, self.y + self.orientation.step().1)
    }
}

#[derive(PartialEq, Eq, Structural, Debug, Clone, Copy)]
pub enum Command {
    Forward,
    RotateLeft,
    RotateRight,
}

impl Command {
    /// The command a letter names: `A` moves forward, `G` turns left, `D` turns right.
    pub open spec fn of_char(c: char) -> Option<Command> {
        if c == 'A' {
            Some(Command::Forward)
        } else if c == 'G' {
            Some(Command::RotateLeft)
        } else if c == 'D' {
            Some(Command::RotateRight)
        } else {
            None
        }
    }

    pub fn from_char(c: char) -> (r: Option<Command>)
        ensures
            r == Self::of_char(c),
    {
        if c == 'A' {
            Some(Command::Forward)
        } else if c == 'G' {
            Some(Command::RotateLeft)
        } else if c == 'D' {
            Some(Command::RotateRight)
        } else {
            None
        }
    }
}

/// Why a command could not be carried out.
#[derive(PartialEq, Eq, Structural, Debug, Clone, Copy)]
pub enum HooverError {
    /// The angle reached by this turn names no heading.
    UnsupportedRotation { degree: i16 },
    /// Moving forward would reach `(x, y)`, which is off the grid (or beyond
    /// what a coordinate can hold).
    OutOfGrid { x: i16, y: i16, grid: Grid },
}

/// A coordinate the hoover's position can hold.
pub open spec fn is_coordinate(v: int) -> bool {
    i8::MIN <= v <= i8::MAX
}

/// The hoover: a grid and its current position on it.
#[derive(PartialEq, Eq, Structural, Debug, Clone, Copy)]
pub struct Hoover {
    pub grid: Grid,
    pub position: Position,
}

impl Hoover {
    /// The hoover facing `o`, at the same point.
    pub open spec fn facing(self, o: Orientation) -> Hoover {
        Hoover { position: Position { orientation: o, ..self.position }, ..self }
    }

    /// The outcome of turning by `degree`.
    pub open spec fn turned(self, degree: int) -> Result<Hoover, HooverError> {
        match self.position.orientation.rotated(degree) {
            Some(o) => Ok(self.facing(o)),
            None => Err(HooverError::UnsupportedRotation { degree: degree as i16 }),
        }
    }

    /// The outcome of moving one unit forward: the point ahead if it lies on the
    /// grid, else an error that names it and the grid.
    pub open spec fn advanced(self) -> Result<Hoover, HooverError> {
        let (x, y) = self.position.ahead();
        if self.grid.contains(x, y) && is_coordinate(x) && is_coordinate(y) {
            Ok(Hoover { position: Position { x: x as i8, y: y as i8, ..self.position }, ..self })
        } else {
            Err(HooverError::OutOfGrid { x: x as i16, y: y as i16, grid: self.grid })
        }
    }

    /// The outcome of one command.
    pub open spec fn step(self, cmd: Command) -> Result<Hoover, HooverError> {
        match cmd {
            Command::RotateLeft => self.turned(-90),
            Command::RotateRight => self.turned(90),
            Command::Forward => self.advanced(),
        }
    }

    /// The outcome of a sequence of commands, applied in order: the last state
    /// reached, and the error of the command that failed, if one did.
    pub open spec fn run_from(self, cmds: Seq<Command>) -> (Hoover, Option<HooverError>)
        decreases cmds.len(),
    {
        if cmds.len() == 0 {
            (self, None)
        } else {
            match self.step(cmds[0]) {
                Ok(h) => h.run_from(cmds.drop_first()),
                Err(e) => (self, Some(e)),
            }
        }
    }

    pub fn new(grid: Grid, position: Position) -> (h: Hoover)
        ensures
            h.grid == grid,
            h.position == position,
    {
        Hoover { grid: grid, position: position }
    }

    /// Carries out one command. On failure nothing changes.
    pub fn execute(&mut self, cmd: &Command) -> (r: Result<(), HooverError>)
        ensures
            match old(self).step(*cmd) {
                Ok(h) => r is Ok && *final(self) == h,
                Err(e) => r == Err::<(), HooverError>(e) && *final(self) == *old(self),
            },
            *cmd != Command::Forward ==> r is Ok,
    {
        match *cmd {
            Command::RotateLeft => self.rotate(-90),
            Command::RotateRight => self.rotate(90),
            Command::Forward => self.forward(),
        }
    }

    fn rotate(&mut self, degree: i16) -> (r: Result<(), HooverError>)
        ensures
            match old(self).turned(degree as int) {
                Ok(h) => r is Ok && *final(self) == h,
                Err(e) => r == Err::<(), HooverError>(e) && *final(self) == *old(self),
            },
    {
        match self.position.orientation.rotate(degree) {
            Ok(o) => {
                self.position.orientation = o;
                Ok(())
            },
            Err(e) => Err(e),
        }
    }

    fn forward(&mut self) -> (r: Result<(), HooverError>)
        ensures
            match old(self).advanced() {
                Ok(h) => r is Ok && *final(self) == h,
                Err(e) => r == Err::<(), HooverError>(e) && *final(self) == *old(self),
            },
    {
        let px = self.position.x as i16;
        let py = self.position.y as i16;
        let (x, y): (i16, i16) = match self.position.orientation {
            Orientation::North => (px, py + 1),
            Orientation::East => (px + 1, py),
            Orientation::South => (px, py - 1),
            Orientation::West => (px - 1, py),
        };
        if x < i8::MIN as i16 || x > i8::MAX as i16 || y < i8::MIN as i16 || y > i8::MAX as i16 {
            return Err(HooverError::OutOfGrid { x, y, grid: self.grid });
        }
        if !self.grid.is_valid(x as i8, y as i8) {
            return Err(HooverError::OutOfGrid { x, y, grid: self.grid });
        }
        self.position.x = x as i8;
        self.position.y = y as i8;
        Ok(())
    }

    /// Carries out the commands in order, stopping at the first that fails; the
    /// hoover then stays where that command found it.
    pub fn run(&mut self, cmds: &Vec<Command>) -> (r: Result<(), HooverError>)
        ensures
            *final(self) == old(self).run_from(cmds@).0,
            match old(self).run_from(cmds@).1 {
                None => r is Ok,
                Some(e) => r == Err::<(), HooverError>(e),
            },
    {
        let ghost start = *self;
        assert(cmds@.subrange(0, cmds@.len() as int) =~= cmds@);
        let mut i: usize = 0;
        while i < cmds.len()
            invariant
                i <= cmds.len(),
                start == *old(self),
                start.run_from(cmds@) == self.run_from(cmds@.subrange(i as int, cmds@.len() as int)),
            decreases cmds.len() - i,
        {
            let ghost rest = cmds@.subrange(i as int, cmds@.len() as int);
            assert(rest.drop_first() =~= cmds@.subrange(i + 1, cmds@.len() as int));
            assert(rest[0] == cmds@[i as int]);
            let ghost before = *self;
            let res = self.execute(&cmds[i]);
            if let Err(e) = res {
                assert(before.run_from(rest) == (before, Some(e)));
                return Err(e);
            }
            i = i + 1;
        }
        assert(cmds@.subrange(i as int, cmds@.len() as int) =~= Seq::<Command>::empty());
        Ok(())
    }
}

/// A quarter turn right undoes a quarter turn left, and the other way round.
pub proof fn lemma_rotate_inverse(o: Orientation)
    ensures
        o.rotated(90) is Some,
        o.rotated(90)->0.rotated(-90) == Some(o),
        o.rotated(-90) is Some,
        o.rotated(-90)->0.rotated(90) == Some(o),
{
}

/// Four quarter turns right bring every heading back to itself.
pub proof fn lemma_rotate_cycle(o: Orientation)
    ensures
        o.rotated(90) is Some,
        o.rotated(90)->0.rotated(90) is Some,
        o.rotated(90)->0.rotated(90)->0.rotated(90) is Some,
        o.rotated(90)->0.rotated(90)->0.rotated(90)->0.rotated(90) == Some(o),
{
}

/// Running no command changes nothing and reports no error.
pub proof fn lemma_run_empty(h: Hoover)
    ensures
        h.run_from(Seq::<Command>::empty()) == (h, None::<HooverError>),
{
}

/// A command that succeeds from a point of the grid ends on a point of the grid.
pub proof fn lemma_step_stays_on_grid(h: Hoover, cmd: Command)
    requires
        h.grid.contains(h.position.x as int, h.position.y as int),
        h.step(cmd) is Ok,
    ensures
        h.step(cmd)->Ok_0.grid == h.grid,
        h.grid.contains(h.step(cmd)->Ok_0.position.x as int, h.step(cmd)->Ok_0.position.y as int),
{
}

} // verus!
