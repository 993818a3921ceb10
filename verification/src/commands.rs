//! The packed command buffer of a path: each command is one tag byte followed
//! by its payload, the coordinates being stored as the native-endian bytes of
//! 32-bit floats.
use vstd::prelude::*;
use crate::style::Winding;

verus! {

/// The initial capacity, in bytes, of a command buffer.
pub const INIT_COMMANDS_SIZE: usize = 256;

/// A point given by the native-endian bytes of its two 32-bit float
/// coordinates.
#[derive(Debug, Clone, Copy, PartialEq, Eq, Hash)]
pub struct PointBytes {
    pub x: [u8; 4],
    pub y: [u8; 4],
}

impl View for PointBytes {
    type V = Seq<u8>;

    /// The eight bytes of the point, `x` first.
    open spec fn view(&self) -> Seq<u8> {
        self.x@ + self.y@
    }
}

/// A path command as the decoder sees it: points are their eight bytes.
pub enum SpecCommand {
    MoveTo(Seq<u8>),
    LineTo(Seq<u8>),
    BezierTo { pos: Seq<u8>, h1_pos: Seq<u8>, h2_pos: Seq<u8> },
    Close,
    Winding(Winding),
}

/// A path command.
#[derive(Debug, Clone, Copy, PartialEq, Eq)]
pub enum Command {
    MoveTo(PointBytes),
    LineTo(PointBytes),
    BezierTo { pos: PointBytes, h1_pos: PointBytes, h2_pos: PointBytes },
    Close,
    Winding(Winding),
}

impl View for Command {
    type V = SpecCommand;

    open spec fn view(&self) -> SpecCommand {
        match *self {
            Command::MoveTo(p) => SpecCommand::MoveTo(p@),
            Command::LineTo(p) => SpecCommand::LineTo(p@),
            Command::BezierTo { pos, h1_pos, h2_pos } => SpecCommand::BezierTo {
                pos: pos@,
                h1_pos: h1_pos@,
                h2_pos: h2_pos@,
            },
            Command::Close => SpecCommand::Close,
            Command::Winding(w) => SpecCommand::Winding(w),
        }
    }
}

/// The tag byte that starts each command.
#[derive(Debug, Clone, Copy, PartialEq, Eq, Structural)]
pub enum CommandType {
    MoveTo,
    LineTo,
    BezierTo,
    ClosePath,
    Winding,
}

impl CommandType {
    /// The command type of a tag byte, if it is one.
    pub open spec fn spec_from_u8(c: u8) -> Option<CommandType> {
        if c == 0 {
            Some(CommandType::MoveTo)
        } else if c == 1 {
            Some(CommandType::LineTo)
        } else if c == 2 {
            Some(CommandType::BezierTo)
        } else if c == 3 {
            Some(CommandType::ClosePath)
        } else if c == 4 {
            Some(CommandType::Winding)
        } else {
            None
        }
    }

    pub fn from_u8(c: u8) -> (r: Option<CommandType>)
        ensures
            r == CommandType::spec_from_u8(c),
    {
        match c {
            0 => Some(CommandType::MoveTo),
            1 => Some(CommandType::LineTo),
            2 => Some(CommandType::BezierTo),
            3 => Some(CommandType::ClosePath),
            4 => Some(CommandType::Winding),
            _ => None,
        }
    }
}

/// Whether a spec command is a well-formed command: every point has eight
/// bytes.
pub open spec fn well_formed(c: SpecCommand) -> bool {
    match c {
        SpecCommand::MoveTo(p) => p.len() == 8,
        SpecCommand::LineTo(p) => p.len() == 8,
        SpecCommand::BezierTo { pos, h1_pos, h2_pos } => pos.len() == 8 && h1_pos.len() == 8
            && h2_pos.len() == 8,
        _ => true,
    }
}

/// The bytes of one command in the buffer.
pub open spec fn encode_command(c: SpecCommand) -> Seq<u8> {
    match c {
        SpecCommand::MoveTo(p) => seq![0u8] + p,
        SpecCommand::LineTo(p) => seq![1u8] + p,
        SpecCommand::BezierTo { pos, h1_pos, h2_pos } => seq![2u8] + pos + h1_pos + h2_pos,
        SpecCommand::Close => seq![3u8],
        SpecCommand::Winding(w) => seq![4u8, w.spec_byte()],
    }
}

/// The bytes of a sequence of commands, one after the other.
pub open spec fn encode_commands(cs: Seq<SpecCommand>) -> Seq<u8>
    decreases cs.len(),
{
    if cs.len() == 0 {
        Seq::empty()
    } else {
        encode_command(cs[0]) + encode_commands(cs.drop_first())
    }
}

/// One step of the decoder at byte `curr`: the command read, if any, and the
/// position from which the next step reads.
///
/// A step that finds no valid tag leaves the position where it is; a step
/// whose tag is followed by too few bytes has moved past the tag. A winding
/// command is read without moving past its winding byte.
pub open spec fn decode_step(data: Seq<u8>, curr: int) -> (Option<SpecCommand>, int) {
    if !(0 <= curr < data.len()) {
        (None, curr)
    } else {
        let c1 = curr + 1;
        match CommandType::spec_from_u8(data[curr]) {
            None => (None, curr),
            Some(CommandType::MoveTo) => if c1 + 8 > data.len() {
                (None, c1)
            } else {
                (Some(SpecCommand::MoveTo(data.subrange(c1, c1 + 8))), c1 + 8)
            },
            Some(CommandType::LineTo) => if c1 + 8 > data.len() {
                (None, c1)
            } else {
                (Some(SpecCommand::LineTo(data.subrange(c1, c1 + 8))), c1 + 8)
            },
            Some(CommandType::BezierTo) => if c1 + 24 > data.len() {
                (None, c1)
            } else {
                (
                    Some(
                        SpecCommand::BezierTo {
                            pos: data.subrange(c1, c1 + 8),
                            h1_pos: data.subrange(c1 + 8, c1 + 16),
                            h2_pos: data.subrange(c1 + 16, c1 + 24),
                        },
                    ),
                    c1 + 24,
                )
            },
            Some(CommandType::ClosePath) => (Some(SpecCommand::Close), c1),
            Some(CommandType::Winding) => if c1 == data.len() {
                (None, c1)
            } else {
                (Some(SpecCommand::Winding(Winding::spec_from_u8(data[c1]))), c1)
            },
        }
    }
}

/// The commands that the decoder yields from byte `curr` until its first
/// failed step.
pub open spec fn decode_from(data: Seq<u8>, curr: int) -> Seq<SpecCommand>
    decreases data.len() - curr,
{
    if 0 <= curr < data.len() {
        match decode_step(data, curr).0 {
            Some(c) => seq![c] + decode_from(data, decode_step(data, curr).1),
            None => Seq::empty(),
        }
    } else {
        Seq::empty()
    }
}


/// Appending one command to a sequence appends its bytes to the encoding.
pub proof fn lemma_encode_commands_push(cs: Seq<SpecCommand>, c: SpecCommand)
    ensures
        encode_commands(cs.push(c)) == encode_commands(cs) + encode_command(c),
    decreases cs.len(),
{
    if cs.len() == 0 {
        assert(cs.push(c).drop_first() =~= Seq::<SpecCommand>::empty());
        assert(cs.push(c)[0] == c);
        assert(encode_commands(cs.push(c).drop_first()) =~= Seq::<u8>::empty());
        assert(encode_commands(cs.push(c)) =~= encode_command(c) + Seq::<u8>::empty());
        assert(encode_commands(cs) =~= Seq::<u8>::empty());
    } else {
        lemma_encode_commands_push(cs.drop_first(), c);
        assert(cs.push(c).drop_first() =~= cs.drop_first().push(c));
        assert(encode_commands(cs.push(c)) =~= encode_commands(cs) + encode_command(c));
    }
}

/// The decoder reads a command back from its bytes, wherever they stand.
proof fn lemma_decode_step_encoded(pre: Seq<u8>, c: SpecCommand, rest: Seq<u8>)
    requires
        well_formed(c),
    ensures
        decode_step(pre + encode_command(c) + rest, pre.len() as int) == (
            Some(c),
            if c is Winding {
                pre.len() + 1int
            } else {
                pre.len() + encode_command(c).len() as int
            },
        ),
{
    let data = pre + encode_command(c) + rest;
    let n = pre.len() as int;
    assert(data[n] == encode_command(c)[0]);
    match c {
        SpecCommand::MoveTo(p) => {
            assert(data.subrange(n + 1, n + 9) =~= p);
        },
        SpecCommand::LineTo(p) => {
            assert(data.subrange(n + 1, n + 9) =~= p);
        },
        SpecCommand::BezierTo { pos, h1_pos, h2_pos } => {
            assert(data.subrange(n + 1, n + 9) =~= pos);
            assert(data.subrange(n + 9, n + 17) =~= h1_pos);
            assert(data.subrange(n + 17, n + 25) =~= h2_pos);
        },
        SpecCommand::Close => {},
        SpecCommand::Winding(w) => {
            assert(data[n + 1] == w.spec_byte());
            crate::style::lemma_winding_byte_roundtrip(w);
        },
    }
}

/// Decoding from the start of the bytes of some commands gives the commands
/// back, when no winding command stands before the last one.
proof fn lemma_decode_encoded_from(pre: Seq<u8>, cs: Seq<SpecCommand>)
    requires
        forall|i: int| 0 <= i < cs.len() ==> well_formed(#[trigger] cs[i]),
        forall|i: int| 0 <= i < cs.len() - 1 ==> !(#[trigger] cs[i] is Winding),
    ensures
        decode_from(pre + encode_commands(cs), pre.len() as int) == cs,
    decreases cs.len(),
{
    let data = pre + encode_commands(cs);
    let n = pre.len() as int;
    if cs.len() == 0 {
        assert(data.len() == n);
        assert(decode_from(data, n) =~= cs);
    } else {
        let c = cs[0];
        let tail = cs.drop_first();
        assert(data =~= pre + encode_command(c) + encode_commands(tail));
        lemma_decode_step_encoded(pre, c, encode_commands(tail));
        if c is Winding {
            assert(tail.len() == 0);
            assert(encode_commands(tail) =~= Seq::<u8>::empty());
            assert(data.len() == n + 2);
            let w = c->Winding_0;
            assert(data[n + 1] == w.spec_byte());
            assert(decode_step(data, n + 1).0 is None);
            assert(decode_from(data, n + 1) =~= Seq::<SpecCommand>::empty());
            assert(decode_from(data, n) =~= seq![c]);
            assert(cs =~= seq![c]);
        } else {
            let pre2 = pre + encode_command(c);
            assert(forall|i: int| 0 <= i < tail.len() ==> tail[i] == cs[i + 1]);
            lemma_decode_encoded_from(pre2, tail);
            assert(pre2 + encode_commands(tail) =~= data);
            assert(decode_from(data, n) =~= seq![c] + tail);
            assert(cs =~= seq![c] + tail);
        }
    }
}

/// Reading back the bytes that a sequence of commands was written as gives
/// that sequence back, provided that no winding command stands before the
/// last command (the decoder does not step over the byte of a winding).
pub proof fn lemma_decode_encode_roundtrip(cs: Seq<SpecCommand>)
    requires
        forall|i: int| 0 <= i < cs.len() ==> well_formed(#[trigger] cs[i]),
        forall|i: int| 0 <= i < cs.len() - 1 ==> !(#[trigger] cs[i] is Winding),
    ensures
        decode_from(encode_commands(cs), 0) == cs,
{
    lemma_decode_encoded_from(Seq::empty(), cs);
    assert(Seq::<u8>::empty() + encode_commands(cs) =~= encode_commands(cs));
}

/// A path's commands, packed into bytes.
#[derive(Debug, Clone, PartialEq, Eq, Hash)]
pub struct PackedCommandBuffer {
    pub data: Vec<u8>,
}

/// Appends the eight bytes of a point.
fn push_point(data: &mut Vec<u8>, p: &PointBytes)
    ensures
        final(data)@ == old(data)@ + p@,
{
    data.push(p.x[0]);
    data.push(p.x[1]);
    data.push(p.x[2]);
    data.push(p.x[3]);
    data.push(p.y[0]);
    data.push(p.y[1]);
    data.push(p.y[2]);
    data.push(p.y[3]);
    assert(final(data)@ =~= old(data)@ + p@);
}

impl PackedCommandBuffer {
    pub fn new() -> (r: PackedCommandBuffer)
        ensures
            r.data@ == Seq::<u8>::empty(),
    {
        PackedCommandBuffer { data: Vec::with_capacity(INIT_COMMANDS_SIZE) }
    }

    /// Removes every command.
    pub fn clear(&mut self)
        ensures
            final(self).data@ == Seq::<u8>::empty(),
    {
        self.data.clear();
    }

    pub fn move_to(&mut self, pos: PointBytes)
        ensures
            final(self).data@ == old(self).data@ + encode_command(SpecCommand::MoveTo(pos@)),
    {
        self.data.push(0u8);
        push_point(&mut self.data, &pos);
        assert(final(self).data@ =~= old(self).data@ + encode_command(SpecCommand::MoveTo(pos@)));
    }

    pub fn line_to(&mut self, pos: PointBytes)
        ensures
            final(self).data@ == old(self).data@ + encode_command(SpecCommand::LineTo(pos@)),
    {
        self.data.push(1u8);
        push_point(&mut self.data, &pos);
        assert(final(self).data@ =~= old(self).data@ + encode_command(SpecCommand::LineTo(pos@)));
    }

    pub fn bezier_to(&mut self, pos: PointBytes, h1_pos: PointBytes, h2_pos: PointBytes)
        ensures
            final(self).data@ == old(self).data@ + encode_command(
                SpecCommand::BezierTo { pos: pos@, h1_pos: h1_pos@, h2_pos: h2_pos@ },
            ),
    {
        self.data.push(2u8);
        push_point(&mut self.data, &pos);
        push_point(&mut self.data, &h1_pos);
        push_point(&mut self.data, &h2_pos);
        assert(final(self).data@ =~= old(self).data@ + encode_command(
            SpecCommand::BezierTo { pos: pos@, h1_pos: h1_pos@, h2_pos: h2_pos@ },
        ));
    }

    pub fn close_path(&mut self)
        ensures
            final(self).data@ == old(self).data@ + encode_command(SpecCommand::Close),
    {
        self.data.push(3u8);
        assert(final(self).data@ =~= old(self).data@ + encode_command(SpecCommand::Close));
    }

    pub fn winding(&mut self, winding: Winding)
        ensures
            final(self).data@ == old(self).data@ + encode_command(SpecCommand::Winding(winding)),
    {
        self.data.push(4u8);
        let b = winding.to_u8();
        self.data.push(b);
        assert(final(self).data@ =~= old(self).data@ + encode_command(
            SpecCommand::Winding(winding),
        ));
    }

    /// A decoder positioned at the first command.
    pub fn iter<'a>(&'a self) -> (r: CommandIterator<'a>)
        ensures
            r.data@ == self.data@,
            r.curr == 0,
    {
        CommandIterator { data: self.data.as_slice(), curr: 0 }
    }

    /// Every command that the decoder yields, in order, until its first
    /// failed step.
    pub fn commands(&self) -> (r: Vec<Command>)
        ensures
            r@.map_values(|c: Command| c@) == decode_from(self.data@, 0),
    {
        let mut it = self.iter();
        it.collect_commands()
    }
}

/// The recorded part of a path builder: its commands and whether it is
/// antialiased.
#[derive(Debug, Clone, PartialEq, Eq, Hash)]
pub struct PathBuilderInner {
    pub command_buffer: PackedCommandBuffer,
    pub antialias: bool,
}

impl PathBuilderInner {
    /// A decoder positioned at the first command.
    pub fn iter_commands<'a>(&'a self) -> (r: CommandIterator<'a>)
        ensures
            r.data@ == self.command_buffer.data@,
            r.curr == 0,
    {
        CommandIterator { data: self.command_buffer.data.as_slice(), curr: 0 }
    }
}

/// A decoder over the bytes of a command buffer.
pub struct CommandIterator<'a> {
    pub data: &'a [u8],
    pub curr: usize,
}

impl<'a> CommandIterator<'a> {
    /// Reads the next command, as `decode_step` says.
    pub fn next(&mut self) -> (r: Option<Command>)
        ensures
            final(self).data@ == old(self).data@,
            (match r {
                Some(c) => Some(c@),
                None => None,
            }, final(self).curr as int) == decode_step(old(self).data@, old(self).curr as int),
    {
        let len = self.data.len();
        if self.curr >= len {
            return None;
        }
        let cmd_byte = self.data[self.curr];
        let cmd_type = match CommandType::from_u8(cmd_byte) {
            Some(t) => t,
            None => return None,
        };
        self.curr = self.curr + 1;
        let c = self.curr;
        let ghost d = self.data@;
        match cmd_type {
            CommandType::MoveTo => {
                if len - c < 8 {
                    return None;
                }
                let p = read_point(self.data, c);
                self.curr = c + 8;
                Some(Command::MoveTo(p))
            },
            CommandType::LineTo => {
                if len - c < 8 {
                    return None;
                }
                let p = read_point(self.data, c);
                self.curr = c + 8;
                Some(Command::LineTo(p))
            },
            CommandType::BezierTo => {
                if len - c < 24 {
                    return None;
                }
                let pos = read_point(self.data, c);
                let h1_pos = read_point(self.data, c + 8);
                let h2_pos = read_point(self.data, c + 16);
                self.curr = c + 24;
                assert(d.subrange(c as int + 8, c as int + 16) == d.subrange(
                    c as int + 8,
                    c as int + 8 + 8,
                ));
                Some(Command::BezierTo { pos, h1_pos, h2_pos })
            },
            CommandType::Winding => {
                if c == len {
                    return None;
                }
                let w = Winding::from_u8(self.data[c]);
                Some(Command::Winding(w))
            },
            CommandType::ClosePath => Some(Command::Close),
        }
    }

    /// Every command from the current position on, until the first failed
    /// step.
    pub fn collect_commands(&mut self) -> (r: Vec<Command>)
        ensures
            r@.map_values(|c: Command| c@) == decode_from(old(self).data@, old(self).curr as int),
    {
        let mut out: Vec<Command> = Vec::new();
        let ghost data = self.data@;
        let ghost start = self.curr as int;
        loop
            invariant
                self.data@ == data,
                data == old(self).data@,
                start == old(self).curr as int,
                out@.map_values(|c: Command| c@) + decode_from(data, self.curr as int)
                    == decode_from(data, start),
            decreases data.len() - self.curr,
        {
            let ghost before = self.curr as int;
            let r = self.next();
            match r {
                Some(c) => {
                    proof {
                        assert(0 <= before < data.len());
                        assert(decode_from(data, before) == seq![c@] + decode_from(
                            data,
                            self.curr as int,
                        ));
                    }
                    let ghost old_out = out@;
                    out.push(c);
                    proof {
                        assert(out@.map_values(|c: Command| c@) =~= old_out.map_values(
                            |c: Command| c@,
                        ).push(c@));
                        assert(out@.map_values(|c: Command| c@) + decode_from(
                            data,
                            self.curr as int,
                        ) =~= old_out.map_values(|c: Command| c@) + decode_from(data, before));
                    }
                },
                None => {
                    proof {
                        assert(decode_from(data, before) =~= Seq::<SpecCommand>::empty());
                        assert(out@.map_values(|c: Command| c@) =~= out@.map_values(
                            |c: Command| c@,
                        ) + decode_from(data, before));
                    }
                    return out;
                },
            }
        }
    }
}

/// Reads the point whose eight bytes start at `at`.
fn read_point(data: &[u8], at: usize) -> (r: PointBytes)
    requires
        at + 8 <= data@.len(),
    ensures
        r@ == data@.subrange(at as int, at as int + 8),
{
    let x = [data[at], data[at + 1], data[at + 2], data[at + 3]];
    let y = [data[at + 4], data[at + 5], data[at + 6], data[at + 7]];
    let r = PointBytes { x, y };
    assert(r@ =~= data@.subrange(at as int, at as int + 8));
    r
}

} // verus!
