use vstd::prelude::*;
use vstd::std_specs::iter::IteratorSpec;
use crate::model::{Command, Grid, Orientation, Position};

verus! {

/// The part of the input that a decode error is about.
#[derive(PartialEq, Eq, Structural, Debug, Clone, Copy)]
pub enum Field {
    GridLine,
    GridX,
    GridY,
    PositionLine,
    PositionX,
    PositionY,
    Orientation,
    CommandsLine,
    Command,
}

/// A part of the input that is missing (`token` is `None`) or that does not
/// read as what it should be (`token` holds it).
#[derive(PartialEq, Eq, Debug, Clone)]
pub struct DecodeError {
    pub field: Field,
    pub token: Option<Vec<char>>,
}

impl View for DecodeError {
    type V = (Field, Option<Seq<char>>);

    open spec fn view(&self) -> (Field, Option<Seq<char>>) {
        (
            self.field,
            match self.token {
                Some(t) => Some(t@),
                None => None,
            },
        )
    }
}

fn missing(field: Field) -> (e: DecodeError)
    ensures
        e@ == (field, None::<Seq<char>>),
{
    DecodeError { field, token: None }
}

fn invalid(field: Field, token: Vec<char>) -> (e: DecodeError)
    ensures
        e@ == (field, Some(token@)),
{
    DecodeError { field, token: Some(token) }
}

/// The characters of `s`, in order.
fn chars_of(s: &str) -> (v: Vec<char>)
    ensures
        v@ == s@,
{
    let mut v: Vec<char> = Vec::new();
    let mut it = s.chars();
    loop
        invariant
            v@ + it.remaining() == s@,
            it.decrease() is Some,
        ensures
            v@ == s@,
        decreases it.decrease()->0,
    {
        match it.next() {
            Some(c) => v.push(c),
            None => break,
        }
    }
    v
}

/// The characters with Unicode's `White_Space` property.
pub open spec fn is_white_space(c: char) -> bool {
    let n = c as u32;
    (0x9 <= n <= 0xd) || n == 0x20 || n == 0x85 || n == 0xa0 || n == 0x1680 || (0x2000 <= n
        <= 0x200a) || n == 0x2028 || n == 0x2029 || n == 0x202f || n == 0x205f || n == 0x3000
}

fn white_space(c: char) -> (r: bool)
    ensures
        r == is_white_space(c),
{
    let n = c as u32;
    (0x9 <= n && n <= 0xd) || n == 0x20 || n == 0x85 || n == 0xa0 || n == 0x1680 || (0x2000 <= n
        && n <= 0x200a) || n == 0x2028 || n == 0x2029 || n == 0x202f || n == 0x205f || n == 0x3000
}

/// `done` with the field being read, `cur`, appended if it is not empty.
pub open spec fn close_field(done: Seq<Seq<char>>, cur: Seq<char>) -> Seq<Seq<char>> {
    if cur.len() > 0 {
        done.push(cur)
    } else {
        done
    }
}

/// Reads `s` after the fields `done` and the start `cur` of a field: each white
/// space ends the field being read, every other character extends it.
pub open spec fn scan_fields(s: Seq<char>, done: Seq<Seq<char>>, cur: Seq<char>) -> Seq<
    Seq<char>,
>
    decreases s.len(),
{
    if s.len() == 0 {
        close_field(done, cur)
    } else if is_white_space(s[0]) {
        scan_fields(s.drop_first(), close_field(done, cur), Seq::empty())
    } else {
        scan_fields(s.drop_first(), done, cur.push(s[0]))
    }
}

/// The maximal runs of characters other than white space in `s`, in order.
pub open spec fn fields(s: Seq<char>) -> Seq<Seq<char>> {
    scan_fields(s, Seq::empty(), Seq::empty())
}

/// Splits a line into its fields, the runs of characters between white space.
pub fn split_fields(line: &str) -> (r: Vec<Vec<char>>)
    ensures
        r.deep_view() == fields(line@),
{
    let cs = chars_of(line);
    let mut done: Vec<Vec<char>> = Vec::new();
    let mut cur: Vec<char> = Vec::new();
    let mut i: usize = 0;
    assert(cs@.subrange(0, cs@.len() as int) =~= cs@);
    assert(done.deep_view() =~= Seq::<Seq<char>>::empty());
    while i < cs.len()
        invariant
            i <= cs.len(),
            cs@ == line@,
            fields(line@) == scan_fields(cs@.subrange(i as int, cs@.len() as int), done.deep_view(), cur@),
        decreases cs.len() - i,
    {
        let c = cs[i];
        let ghost rest = cs@.subrange(i as int, cs@.len() as int);
        assert(rest.drop_first() =~= cs@.subrange(i + 1, cs@.len() as int));
        assert(rest[0] == c);
        if white_space(c) {
            if cur.len() > 0 {
                let ghost d = done.deep_view();
                assert(cur.deep_view() =~= cur@);
                done.push(cur);
                assert(done.deep_view() =~= d.push(cur@));
                cur = Vec::new();
            }
            assert(cur@ =~= Seq::<char>::empty());
        } else {
            cur.push(c);
        }
        i = i + 1;
    }
    assert(cs@.subrange(i as int, cs@.len() as int) =~= Seq::<char>::empty());
    if cur.len() > 0 {
        let ghost d = done.deep_view();
        assert(cur.deep_view() =~= cur@);
        done.push(cur);
        assert(done.deep_view() =~= d.push(cur@));
    }
    done
}

pub open spec fn is_digit(c: char) -> bool {
    '0' as u32 <= c as u32 <= '9' as u32
}

pub open spec fn digit_value(c: char) -> int {
    c as u32 - '0' as u32
}

/// The value of a string of decimal digits, most significant first.
pub open spec fn digits_value(s: Seq<char>) -> int
    decreases s.len(),
{
    if s.len() == 0 {
        0
    } else {
        10 * digits_value(s.drop_last()) + digit_value(s.last())
    }
}

/// The number that one or more decimal digits write.
pub open spec fn unsigned_value(s: Seq<char>) -> Option<int> {
    if s.len() > 0 && forall|i: int| 0 <= i < s.len() ==> is_digit(#[trigger] s[i]) {
        Some(digits_value(s))
    } else {
        None
    }
}

/// The number that `s` writes as one or more decimal digits, if it is at most `bound`.
pub open spec fn bounded_value(s: Seq<char>, bound: int) -> Option<int> {
    match unsigned_value(s) {
        Some(n) => if n <= bound {
            Some(n)
        } else {
            None
        },
        None => None,
    }
}

/// `s` without a leading `+`.
pub open spec fn unsigned_part(s: Seq<char>) -> Seq<char> {
    if s.len() > 0 && s[0] == '+' {
        s.drop_first()
    } else {
        s
    }
}

/// The `u8` that `s` writes: decimal digits, after an optional `+`.
pub open spec fn u8_of(s: Seq<char>) -> Option<u8> {
    match bounded_value(unsigned_part(s), u8::MAX as int) {
        Some(n) => Some(n as u8),
        None => None,
    }
}

/// The `i8` that `s` writes: decimal digits, after an optional `+` or `-`.
pub open spec fn i8_of(s: Seq<char>) -> Option<i8> {
    if s.len() > 0 && s[0] == '-' {
        match bounded_value(s.drop_first(), 128) {
            Some(n) => Some((-n) as i8),
            None => None,
        }
    } else {
        match bounded_value(unsigned_part(s), i8::MAX as int) {
            Some(n) => Some(n as i8),
            None => None,
        }
    }
}

proof fn lemma_digits_grow(s: Seq<char>, i: int, j: int)
    requires
        0 <= i <= j <= s.len(),
        forall|k: int| 0 <= k < s.len() ==> is_digit(#[trigger] s[k]),
    ensures
        0 <= digits_value(s.subrange(0, i)) <= digits_value(s.subrange(0, j)),
    decreases j - i,
{
    if i < j {
        lemma_digits_grow(s, i, j - 1);
        assert(s.subrange(0, j).drop_last() =~= s.subrange(0, j - 1));
    } else {
        lemma_digits_nonneg(s.subrange(0, i));
    }
}

proof fn lemma_digits_nonneg(s: Seq<char>)
    requires
        forall|k: int| 0 <= k < s.len() ==> is_digit(#[trigger] s[k]),
    ensures
        0 <= digits_value(s),
    decreases s.len(),
{
    if s.len() > 0 {
        lemma_digits_nonneg(s.drop_last());
    }
}

/// The number that the digits `t[start..]` write, if there is at least one digit,
/// nothing else, and the number is at most `bound`.
fn digits_upto(t: &Vec<char>, start: usize, bound: u32) -> (r: Option<u32>)
    requires
        start <= t.len(),
        bound <= 128 * 2,
    ensures
        match bounded_value(t@.subrange(start as int, t@.len() as int), bound as int) {
            Some(n) => 0 <= n <= bound && r == Some(n as u32),
            None => r is None,
        },
{
    let ghost d = t@.subrange(start as int, t@.len() as int);
    if start == t.len() {
        return None;
    }
    let mut acc: u32 = 0;
    let mut i: usize = start;
    while i < t.len()
        invariant
            start <= i <= t.len(),
            bound <= 128 * 2,
            d == t@.subrange(start as int, t@.len() as int),
            acc <= bound,
            acc == digits_value(d.subrange(0, i - start)),
            forall|k: int| 0 <= k < i - start ==> is_digit(#[trigger] d[k]),
        decreases t.len() - i,
    {
        let c = t[i];
        let n = c as u32;
        assert(d[i - start] == c);
        if n < '0' as u32 || n > '9' as u32 {
            assert(!is_digit(d[i - start]));
            return None;
        }
        assert(d.subrange(0, i - start + 1).drop_last() =~= d.subrange(0, i - start));
        let next: u32 = acc * 10 + (n - '0' as u32);
        if next > bound {
            proof {
                if forall|k: int| 0 <= k < d.len() ==> is_digit(#[trigger] d[k]) {
                    lemma_digits_grow(d, i - start + 1, d.len() as int);
                    assert(d.subrange(0, d.len() as int) =~= d);
                }
            }
            return None;
        }
        acc = next;
        i = i + 1;
    }
    assert(d.subrange(0, d.len() as int) =~= d);
    Some(acc)
}

fn parse_u8(t: &Vec<char>) -> (r: Option<u8>)
    ensures
        r == u8_of(t@),
{
    let start: usize = if t.len() > 0 && t[0] == '+' {
        assert(t@.drop_first() =~= t@.subrange(1, t@.len() as int));
        1
    } else {
        assert(t@ =~= t@.subrange(0, t@.len() as int));
        0
    };
    match digits_upto(t, start, 255) {
        Some(n) => Some(n as u8),
        None => None,
    }
}

fn parse_i8(t: &Vec<char>) -> (r: Option<i8>)
    ensures
        r == i8_of(t@),
{
    if t.len() > 0 && t[0] == '-' {
        assert(t@.drop_first() =~= t@.subrange(1, t@.len() as int));
        match digits_upto(t, 1, 128) {
            Some(n) => Some((0 - n as i16) as i8),
            None => None,
        }
    } else {
        let start: usize = if t.len() > 0 && t[0] == '+' {
            assert(t@.drop_first() =~= t@.subrange(1, t@.len() as int));
            1
        } else {
            assert(t@ =~= t@.subrange(0, t@.len() as int));
            0
        };
        match digits_upto(t, start, 127) {
            Some(n) => Some(n as i8),
            None => None,
        }
    }
}

/// What a grid line's fields decode to: its width, then its height.
pub open spec fn grid_of(f: Seq<Seq<char>>) -> Result<Grid, (Field, Option<Seq<char>>)> {
    if f.len() < 1 {
        Err((Field::GridX, None))
    } else if u8_of(f[0]) is None {
        Err((Field::GridX, Some(f[0])))
    } else if f.len() < 2 {
        Err((Field::GridY, None))
    } else if u8_of(f[1]) is None {
        Err((Field::GridY, Some(f[1])))
    } else {
        Ok(Grid { x: u8_of(f[0])->0, y: u8_of(f[1])->0 })
    }
}

/// What a position line's fields decode to: `x`, `y` and a heading.
pub open spec fn position_of(f: Seq<Seq<char>>) -> Result<Position, (Field, Option<Seq<char>>)> {
    if f.len() < 1 {
        Err((Field::PositionX, None))
    } else if i8_of(f[0]) is None {
        Err((Field::PositionX, Some(f[0])))
    } else if f.len() < 2 {
        Err((Field::PositionY, None))
    } else if i8_of(f[1]) is None {
        Err((Field::PositionY, Some(f[1])))
    } else if f.len() < 3 {
        Err((Field::Orientation, None))
    } else if Orientation::of_token(f[2]) is None {
        Err((Field::Orientation, Some(f[2])))
    } else {
        Ok(
            Position {
                x: i8_of(f[0])->0,
                y: i8_of(f[1])->0,
                orientation: Orientation::of_token(f[2])->0,
            },
        )
    }
}

/// Decodes a grid line: two non-negative integers, the largest `x` and `y`.
/// Fields after the second are not read.
pub fn parse_grid(line: &str) -> (r: Result<Grid, DecodeError>)
    ensures
        match r {
            Ok(g) => grid_of(fields(line@)) == Ok::<Grid, (Field, Option<Seq<char>>)>(g),
            Err(e) => grid_of(fields(line@)) == Err::<Grid, (Field, Option<Seq<char>>)>(e@),
        },
{
    let f = split_fields(line);
    assert(f.len() == fields(line@).len());
    if f.len() < 1 {
        return Err(missing(Field::GridX));
    }
    assert(f[0]@ =~= fields(line@)[0]);
    let x = match parse_u8(&f[0]) {
        Some(x) => x,
        None => return Err(invalid(Field::GridX, f[0].clone())),
    };
    if f.len() < 2 {
        return Err(missing(Field::GridY));
    }
    assert(f[1]@ =~= fields(line@)[1]);
    let y = match parse_u8(&f[1]) {
        Some(y) => y,
        None => return Err(invalid(Field::GridY, f[1].clone())),
    };
    Ok(Grid::new(x, y))
}

/// Decodes a position line: two integers and a heading letter. Fields after the
/// third are not read.
pub fn parse_position(line: &str) -> (r: Result<Position, DecodeError>)
    ensures
        match r {
            Ok(p) => position_of(fields(line@)) == Ok::<Position, (Field, Option<Seq<char>>)>(p),
            Err(e) => position_of(fields(line@)) == Err::<Position, (Field, Option<Seq<char>>)>(e@),
        },
{
    let f = split_fields(line);
    assert(f.len() == fields(line@).len());
    if f.len() < 1 {
        return Err(missing(Field::PositionX));
    }
    assert(f[0]@ =~= fields(line@)[0]);
    let x = match parse_i8(&f[0]) {
        Some(x) => x,
        None => return Err(invalid(Field::PositionX, f[0].clone())),
    };
    if f.len() < 2 {
        return Err(missing(Field::PositionY));
    }
    assert(f[1]@ =~= fields(line@)[1]);
    let y = match parse_i8(&f[1]) {
        Some(y) => y,
        None => return Err(invalid(Field::PositionY, f[1].clone())),
    };
    if f.len() < 3 {
        return Err(missing(Field::Orientation));
    }
    assert(f[2]@ =~= fields(line@)[2]);
    let o = match Orientation::from_token(&f[2]) {
        Some(o) => o,
        None => return Err(invalid(Field::Orientation, f[2].clone())),
    };
    Ok(Position::new(x, y, o))
}

/// Every character of `s` names a command.
pub open spec fn all_commands(s: Seq<char>) -> bool {
    forall|i: int| 0 <= i < s.len() ==> (#[trigger] Command::of_char(s[i])) is Some
}

/// The commands that the characters of `s` name, in order.
pub open spec fn commands_of(s: Seq<char>) -> Seq<Command> {
    s.map_values(|c: char| Command::of_char(c)->0)
}

/// `k` is the first position of `s` whose character names no command.
pub open spec fn first_bad_command(s: Seq<char>, k: int) -> bool {
    &&& 0 <= k < s.len()
    &&& Command::of_char(s[k]) is None
    &&& forall|j: int| 0 <= j < k ==> (#[trigger] Command::of_char(s[j])) is Some
}

/// Decodes a command line: one letter per command, with no separator.
pub fn parse_commands(line: &str) -> (r: Result<Vec<Command>, DecodeError>)
    ensures
        r is Ok <==> all_commands(line@),
        r is Ok ==> r->Ok_0@ == commands_of(line@),
        r is Err ==> exists|k: int|
            first_bad_command(line@, k) && r->Err_0@ == (Field::Command, Some(seq![line@[k]])),
{
    let cs = chars_of(line);
    let mut v: Vec<Command> = Vec::new();
    let mut i: usize = 0;
    while i < cs.len()
        invariant
            i <= cs.len(),
            cs@ == line@,
            v@ == commands_of(cs@.subrange(0, i as int)),
            all_commands(cs@.subrange(0, i as int)),
        decreases cs.len() - i,
    {
        let c = cs[i];
        match Command::from_char(c) {
            Some(cmd) => {
                v.push(cmd);
                assert(cs@.subrange(0, i + 1) =~= cs@.subrange(0, i as int).push(c));
                assert(v@ =~= commands_of(cs@.subrange(0, i + 1)));
            },
            None => {
                let mut t: Vec<char> = Vec::new();
                t.push(c);
                assert(t@ =~= seq![c]);
                assert(forall|j: int| 0 <= j < i ==> cs@.subrange(0, i as int)[j] == cs@[j]);
                assert(first_bad_command(line@, i as int));
                return Err(invalid(Field::Command, t));
            },
        }
        i = i + 1;
    }
    assert(cs@.subrange(0, i as int) =~= cs@);
    Ok(v)
}

/// The three decoded lines of an input: the grid, the starting position and
/// the commands.
#[derive(PartialEq, Debug)]
pub struct ParsingResult {
    pub grid: Grid,
    pub position: Position,
    pub commands: Vec<Command>,
}

/// What the lines of an input decode to: the grid, the position and the
/// commands, each from its own line, or the first fault met in that order.
/// Lines after the third are not read.
pub open spec fn input_of(lines: Seq<Seq<char>>) -> Result<
    (Grid, Position, Seq<Command>),
    (Field, Option<Seq<char>>),
> {
    if lines.len() < 1 {
        Err((Field::GridLine, None))
    } else if grid_of(fields(lines[0])) is Err {
        Err(grid_of(fields(lines[0]))->Err_0)
    } else if lines.len() < 2 {
        Err((Field::PositionLine, None))
    } else if position_of(fields(lines[1])) is Err {
        Err(position_of(fields(lines[1]))->Err_0)
    } else if lines.len() < 3 {
        Err((Field::CommandsLine, None))
    } else if !all_commands(lines[2]) {
        Err((Field::Command, Some(seq![lines[2][choose|k: int| first_bad_command(lines[2], k)]])))
    } else {
        Ok(
            (
                grid_of(fields(lines[0]))->Ok_0,
                position_of(fields(lines[1]))->Ok_0,
                commands_of(lines[2]),
            ),
        )
    }
}

/// Decodes the lines of an input.
pub fn parse_lines(lines: &Vec<String>) -> (r: Result<ParsingResult, DecodeError>)
    ensures
        match r {
            Ok(p) => input_of(lines@.map_values(|l: String| l@)) == Ok::<
                (Grid, Position, Seq<Command>),
                (Field, Option<Seq<char>>),
            >((p.grid, p.position, p.commands@)),
            Err(e) => input_of(lines@.map_values(|l: String| l@)) == Err::<
                (Grid, Position, Seq<Command>),
                (Field, Option<Seq<char>>),
            >(e@),
        },
{
    let ghost ls = lines@.map_values(|l: String| l@);
    if lines.len() < 1 {
        return Err(missing(Field::GridLine));
    }
    assert(ls[0] == lines[0]@);
    let grid = match parse_grid(lines[0].as_str()) {
        Ok(g) => g,
        Err(e) => return Err(e),
    };
    if lines.len() < 2 {
        return Err(missing(Field::PositionLine));
    }
    assert(ls[1] == lines[1]@);
    let position = match parse_position(lines[1].as_str()) {
        Ok(p) => p,
        Err(e) => return Err(e),
    };
    if lines.len() < 3 {
        return Err(missing(Field::CommandsLine));
    }
    assert(ls[2] == lines[2]@);
    let commands = match parse_commands(lines[2].as_str()) {
        Ok(c) => c,
        Err(e) => {
            proof {
                let k = choose|k: int| first_bad_command(ls[2], k);
                assert(first_bad_command(ls[2], k));
                let k2 = choose|k2: int| first_bad_command(ls[2], k2) && e@ == (Field::Command, Some(seq![ls[2][k2]]));
                if k < k2 {
                    assert(Command::of_char(ls[2][k]) is Some);
                } else if k2 < k {
                    assert(Command::of_char(ls[2][k2]) is Some);
                }
            }
            return Err(e);
        },
    };
    Ok(ParsingResult { grid, position, commands })
}

impl std::str::FromStr for Orientation {
    type Err = DecodeError;

    /// Reads a heading from its letter (see `Orientation::from_token`).
    fn from_str(s: &str) -> (r: Result<Orientation, DecodeError>)
        ensures
            match Orientation::of_token(s@) {
                Some(o) => r == Ok::<Orientation, DecodeError>(o),
                None => r is Err && r->Err_0@ == (Field::Orientation, Some(s@)),
            },
    {
        let t = chars_of(s);
        match Orientation::from_token(&t) {
            Some(o) => Ok(o),
            None => Err(invalid(Field::Orientation, t)),
        }
    }
}

impl std::str::FromStr for Command {
    type Err = DecodeError;

    /// Reads a command from its letter (see `Command::from_char`).
    fn from_str(s: &str) -> (r: Result<Command, DecodeError>)
        ensures
            s@.len() == 1 && Command::of_char(s@[0]) is Some ==> r == Ok::<Command, DecodeError>(
                Command::of_char(s@[0])->0,
            ),
            !(s@.len() == 1 && Command::of_char(s@[0]) is Some) ==> r is Err && r->Err_0@ == (
                Field::Command,
                Some(s@),
            ),
    {
        let t = chars_of(s);
        if t.len() == 1 {
            if let Some(c) = Command::from_char(t[0]) {
                return Ok(c);
            }
        }
        Err(invalid(Field::Command, t))
    }
}

} // verus!
