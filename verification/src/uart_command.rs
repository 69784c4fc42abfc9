use vstd::prelude::*;

verus! {

// The wire format. A command and a reply each travel as a 16-byte frame laid
// out as the C layout of the types: the magic byte, three zero bytes, then
// three 32-bit little-endian words.
//
//   command: magic 0x42, then  Write { size, addr } -> 0, size, addr
//                              Jump { addr }        -> 1, addr, 0
//   reply:   magic 0x53, then  the reply's tag (Write 0, Jump 1) and the
//            result:           Ok(())                                -> 2, 0
//                              Err(JumpInsideLoader { loader_end })  -> 0, loader_end
//                              Err(OverwriteLoader { loader_end })   -> 1, loader_end

/// The first byte of every command frame.
pub const COMMAND_MAGIC: u8 = 0x42;

/// The first byte of every reply frame.
pub const REPLY_MAGIC: u8 = 0x53;

/// The length in bytes of a command frame and of a reply frame.
pub const FRAME_LEN: usize = 16;

/// A command from the host, as it travels.
#[derive(Debug, Copy, Clone, PartialEq, Eq)]
pub struct UartCommand {
    pub magic: u8,
    pub cmd: Command,
}

/// What the host asks the loader to do.
#[derive(Debug, Copy, Clone, PartialEq, Eq)]
pub enum Command {
    /// Receive `size` bytes and store them from address `addr` on.
    Write { size: u32, addr: u32 },
    /// Jump to address `addr`.
    Jump { addr: u32 },
}

/// The loader's answer to a command, as it travels.
#[derive(Debug, Copy, Clone, PartialEq, Eq)]
pub struct UartReply {
    pub magic: u8,
    pub reply: Reply,
}

/// Why the loader refused a command.
#[derive(Debug, Copy, Clone, PartialEq, Eq)]
pub enum CommandError {
    JumpInsideLoader { loader_end: u32 },
    OverwriteLoader { loader_end: u32 },
}

/// The loader's answer to a command.
#[derive(Debug, Copy, Clone, PartialEq, Eq)]
pub enum Reply {
    Write(Result<(), CommandError>),
    Jump(Result<(), CommandError>),
}

/// The four bytes of `x`, least significant first.
pub open spec fn le_bytes(x: u32) -> Seq<u8> {
    seq![(x & 0xff) as u8, ((x >> 8u32) & 0xff) as u8, ((x >> 16u32) & 0xff) as u8, ((x >> 24u32) & 0xff) as u8]
}

/// The little-endian word held by bytes `i` to `i + 3` of `b`.
pub open spec fn word_at(b: Seq<u8>, i: int) -> u32 {
    (b[i] as u32) | ((b[i + 1] as u32) << 8u32) | ((b[i + 2] as u32) << 16u32) | ((b[i + 3] as u32) << 24u32)
}

/// The four bytes that start every frame whose first byte is `magic`.
pub open spec fn frame_head(magic: u8) -> Seq<u8> {
    seq![magic, 0u8, 0u8, 0u8]
}

impl Command {
    /// The three words of the command.
    pub open spec fn wire(self) -> Seq<u8> {
        match self {
            Command::Write { size, addr } => le_bytes(0) + le_bytes(size) + le_bytes(addr),
            Command::Jump { addr } => le_bytes(1) + le_bytes(addr) + le_bytes(0),
        }
    }
}

/// The two words of a result.
pub open spec fn result_wire(r: Result<(), CommandError>) -> Seq<u8> {
    match r {
        Ok(()) => le_bytes(2) + le_bytes(0),
        Err(CommandError::JumpInsideLoader { loader_end }) => le_bytes(0) + le_bytes(loader_end),
        Err(CommandError::OverwriteLoader { loader_end }) => le_bytes(1) + le_bytes(loader_end),
    }
}

impl Reply {
    /// The three words of the reply.
    pub open spec fn wire(self) -> Seq<u8> {
        match self {
            Reply::Write(r) => le_bytes(0) + result_wire(r),
            Reply::Jump(r) => le_bytes(1) + result_wire(r),
        }
    }
}

/// The frame that carries the command `cmd`.
pub open spec fn command_frame(cmd: Command) -> Seq<u8> {
    frame_head(COMMAND_MAGIC) + cmd.wire()
}

/// The frame that carries the reply `reply`.
pub open spec fn reply_frame(reply: Reply) -> Seq<u8> {
    frame_head(REPLY_MAGIC) + reply.wire()
}

/// The command that the bytes `b` begin with, if they begin with a frame: at
/// least 16 bytes, the command magic first, and a known tag word. Bytes 1 to 3,
/// and the last word of a jump, are not looked at.
pub open spec fn command_of(b: Seq<u8>) -> Option<Command> {
    if b.len() < 16 || b[0] != COMMAND_MAGIC {
        None
    } else if word_at(b, 4) == 0 {
        Some(Command::Write { size: word_at(b, 8), addr: word_at(b, 12) })
    } else if word_at(b, 4) == 1 {
        Some(Command::Jump { addr: word_at(b, 8) })
    } else {
        None
    }
}

/// The result held by the two words at byte 8 of `b`, if their first word is a
/// known code.
pub open spec fn result_of(b: Seq<u8>) -> Option<Result<(), CommandError>> {
    if word_at(b, 8) == 2 {
        Some(Ok(()))
    } else if word_at(b, 8) == 0 {
        Some(Err(CommandError::JumpInsideLoader { loader_end: word_at(b, 12) }))
    } else if word_at(b, 8) == 1 {
        Some(Err(CommandError::OverwriteLoader { loader_end: word_at(b, 12) }))
    } else {
        None
    }
}

/// The reply that the bytes `b` begin with, if they begin with a frame: at
/// least 16 bytes, the reply magic first, a known tag word and a known result
/// code. Bytes 1 to 3, and the last word of an `Ok`, are not looked at.
pub open spec fn reply_of(b: Seq<u8>) -> Option<Reply> {
    if b.len() < 16 || b[0] != REPLY_MAGIC {
        None
    } else {
        match result_of(b) {
            None => None,
            Some(r) => if word_at(b, 4) == 0 {
                Some(Reply::Write(r))
            } else if word_at(b, 4) == 1 {
                Some(Reply::Jump(r))
            } else {
                None
            },
        }
    }
}

/// Appends the four bytes of `x`, least significant first.
fn push_word(out: &mut Vec<u8>, x: u32)
    ensures
        final(out)@ == old(out)@ + le_bytes(x),
{
    out.push((x & 0xff) as u8);
    out.push(((x >> 8) & 0xff) as u8);
    out.push(((x >> 16) & 0xff) as u8);
    out.push(((x >> 24) & 0xff) as u8);
    assert(final(out)@ =~= old(out)@ + le_bytes(x));
}

/// The little-endian word held by bytes `i` to `i + 3` of `b`.
fn read_word(b: &[u8], i: usize) -> (w: u32)
    requires
        i + 4 <= b@.len(),
    ensures
        w == word_at(b@, i as int),
{
    (b[i] as u32) | ((b[i + 1] as u32) << 8) | ((b[i + 2] as u32) << 16) | ((b[i + 3] as u32) << 24)
}

/// Reading back the bytes of a word gives the word.
pub proof fn lemma_word_roundtrip(x: u32, pre: Seq<u8>, post: Seq<u8>)
    ensures
        word_at(pre + le_bytes(x) + post, pre.len() as int) == x,
{
    let b = pre + le_bytes(x) + post;
    let i = pre.len() as int;
    assert(b[i] == (x & 0xff) as u8);
    assert(b[i + 1] == ((x >> 8u32) & 0xff) as u8);
    assert(b[i + 2] == ((x >> 16u32) & 0xff) as u8);
    assert(b[i + 3] == ((x >> 24u32) & 0xff) as u8);
    assert((((x & 0xff) as u8) as u32) | ((((x >> 8u32) & 0xff) as u8) as u32) << 8u32 | ((((x
        >> 16u32) & 0xff) as u8) as u32) << 16u32 | ((((x >> 24u32) & 0xff) as u8) as u32) << 24u32
        == x) by (bit_vector);
}

/// Reading the word at byte `i` and writing it back out gives the four bytes
/// at `i`.
pub proof fn lemma_word_bytes(b: Seq<u8>, i: int)
    requires
        0 <= i && i + 4 <= b.len(),
    ensures
        le_bytes(word_at(b, i)) == b.subrange(i, i + 4),
{
    let (b0, b1, b2, b3) = (b[i], b[i + 1], b[i + 2], b[i + 3]);
    let w = word_at(b, i);
    assert(w == (b0 as u32) | ((b1 as u32) << 8u32) | ((b2 as u32) << 16u32) | ((b3 as u32) << 24u32));
    assert(((w & 0xff) as u8) == b0 && (((w >> 8u32) & 0xff) as u8) == b1 && (((w >> 16u32) & 0xff) as u8) == b2
        && (((w >> 24u32) & 0xff) as u8) == b3) by (bit_vector)
        requires
            w == (b0 as u32) | ((b1 as u32) << 8u32) | ((b2 as u32) << 16u32) | ((b3 as u32) << 24u32),
    ;
    assert(le_bytes(w) =~= b.subrange(i, i + 4));
}

/// Every command frame is 16 bytes long and starts with the command magic.
pub proof fn lemma_command_frame_shape(cmd: Command)
    ensures
        command_frame(cmd).len() == FRAME_LEN,
        command_frame(cmd)[0] == COMMAND_MAGIC,
{
}

/// Every reply frame is 16 bytes long and starts with the reply magic.
pub proof fn lemma_reply_frame_shape(reply: Reply)
    ensures
        reply_frame(reply).len() == FRAME_LEN,
        reply_frame(reply)[0] == REPLY_MAGIC,
{
}

/// A command frame is never taken for a reply, nor a reply frame for a
/// command.
pub proof fn lemma_frames_distinct(cmd: Command, reply: Reply)
    ensures
        reply_of(command_frame(cmd)) is None,
        command_of(reply_frame(reply)) is None,
{
    lemma_command_frame_shape(cmd);
    lemma_reply_frame_shape(reply);
}

/// Decoding the frame of a command gives back the command.
pub proof fn lemma_command_roundtrip(cmd: Command)
    ensures
        command_of(command_frame(cmd)) == Some(cmd),
{
    let head = frame_head(COMMAND_MAGIC);
    let f = command_frame(cmd);
    match cmd {
        Command::Write { size, addr } => {
            assert(f =~= head + le_bytes(0) + (le_bytes(size) + le_bytes(addr)));
            lemma_word_roundtrip(0, head, le_bytes(size) + le_bytes(addr));
            assert(f =~= (head + le_bytes(0)) + le_bytes(size) + le_bytes(addr));
            lemma_word_roundtrip(size, head + le_bytes(0), le_bytes(addr));
            assert(f =~= (head + le_bytes(0) + le_bytes(size)) + le_bytes(addr) + Seq::<u8>::empty());
            lemma_word_roundtrip(addr, head + le_bytes(0) + le_bytes(size), Seq::<u8>::empty());
        },
        Command::Jump { addr } => {
            assert(f =~= head + le_bytes(1) + (le_bytes(addr) + le_bytes(0)));
            lemma_word_roundtrip(1, head, le_bytes(addr) + le_bytes(0));
            assert(f =~= (head + le_bytes(1)) + le_bytes(addr) + le_bytes(0));
            lemma_word_roundtrip(addr, head + le_bytes(1), le_bytes(0));
        },
    }
}

proof fn lemma_result_roundtrip(head: Seq<u8>, r: Result<(), CommandError>)
    requires
        head.len() == 8,
    ensures
        result_of(head + result_wire(r)) == Some(r),
{
    let f = head + result_wire(r);
    match r {
        Ok(u) => {
            assert(f =~= head + le_bytes(2) + le_bytes(0));
            lemma_word_roundtrip(2, head, le_bytes(0));
            assert(u == ());
        },
        Err(CommandError::JumpInsideLoader { loader_end }) => {
            assert(f =~= head + le_bytes(0) + le_bytes(loader_end));
            lemma_word_roundtrip(0, head, le_bytes(loader_end));
            assert(f =~= (head + le_bytes(0)) + le_bytes(loader_end) + Seq::<u8>::empty());
            lemma_word_roundtrip(loader_end, head + le_bytes(0), Seq::<u8>::empty());
        },
        Err(CommandError::OverwriteLoader { loader_end }) => {
            assert(f =~= head + le_bytes(1) + le_bytes(loader_end));
            lemma_word_roundtrip(1, head, le_bytes(loader_end));
            assert(f =~= (head + le_bytes(1)) + le_bytes(loader_end) + Seq::<u8>::empty());
            lemma_word_roundtrip(loader_end, head + le_bytes(1), Seq::<u8>::empty());
        },
    }
}

/// Decoding the frame of a reply gives back the reply.
pub proof fn lemma_reply_roundtrip(reply: Reply)
    ensures
        reply_of(reply_frame(reply)) == Some(reply),
{
    let head = frame_head(REPLY_MAGIC);
    let f = reply_frame(reply);
    match reply {
        Reply::Write(r) => {
            assert(f =~= head + le_bytes(0) + result_wire(r));
            lemma_word_roundtrip(0, head, result_wire(r));
            lemma_result_roundtrip(head + le_bytes(0), r);
        },
        Reply::Jump(r) => {
            assert(f =~= head + le_bytes(1) + result_wire(r));
            lemma_word_roundtrip(1, head, result_wire(r));
            lemma_result_roundtrip(head + le_bytes(1), r);
        },
    }
}

/// A command frame whose unused bytes are zero is the frame of the command it
/// decodes to.
pub proof fn lemma_command_frame_canonical(b: Seq<u8>)
    requires
        b.len() == FRAME_LEN,
        command_of(b) is Some,
        b[1] == 0 && b[2] == 0 && b[3] == 0,
        command_of(b)->0 is Jump ==> b.subrange(12, 16) == le_bytes(0),
    ensures
        command_frame(command_of(b)->0) == b,
{
    lemma_word_bytes(b, 4);
    lemma_word_bytes(b, 8);
    lemma_word_bytes(b, 12);
    let cmd = command_of(b)->0;
    assert(b =~= frame_head(COMMAND_MAGIC) + b.subrange(4, 8) + b.subrange(8, 12) + b.subrange(12, 16));
    assert(command_frame(cmd) =~= b);
}

/// A reply frame whose unused bytes are zero is the frame of the reply it
/// decodes to.
pub proof fn lemma_reply_frame_canonical(b: Seq<u8>)
    requires
        b.len() == FRAME_LEN,
        reply_of(b) is Some,
        b[1] == 0 && b[2] == 0 && b[3] == 0,
        word_at(b, 8) == 2 ==> b.subrange(12, 16) == le_bytes(0),
    ensures
        reply_frame(reply_of(b)->0) == b,
{
    lemma_word_bytes(b, 4);
    lemma_word_bytes(b, 8);
    lemma_word_bytes(b, 12);
    assert(b =~= frame_head(REPLY_MAGIC) + b.subrange(4, 8) + b.subrange(8, 12) + b.subrange(12, 16));
    assert(reply_frame(reply_of(b)->0) =~= b);
}

impl UartCommand {
    /// The first byte of the frame.
    pub open spec fn magic_byte(self) -> u8 {
        self.magic
    }

    /// The command carried.
    pub open spec fn command(self) -> Command {
        self.cmd
    }

    /// The command `cmd`, ready to travel.
    pub fn new(cmd: Command) -> (c: UartCommand)
        ensures
            c.command() == cmd,
            c.magic_byte() == COMMAND_MAGIC,
    {
        UartCommand { magic: COMMAND_MAGIC, cmd: cmd }
    }

    /// Whether `magic` is the first byte of a command frame.
    pub fn magic_match(magic: u8) -> (b: bool)
        ensures
            b == (magic == COMMAND_MAGIC),
    {
        magic == COMMAND_MAGIC
    }

    /// The frame that carries this command.
    pub fn byte_view(&self) -> (bytes: Vec<u8>)
        ensures
            bytes@ == frame_head(self.magic_byte()) + self.command().wire(),
    {
        let mut out: Vec<u8> = Vec::new();
        out.push(self.magic);
        out.push(0);
        out.push(0);
        out.push(0);
        assert(out@ =~= frame_head(self.magic));
        match self.cmd {
            Command::Write { size, addr } => {
                push_word(&mut out, 0);
                push_word(&mut out, size);
                push_word(&mut out, addr);
            },
            Command::Jump { addr } => {
                push_word(&mut out, 1);
                push_word(&mut out, addr);
                push_word(&mut out, 0);
            },
        }
        assert(out@ =~= frame_head(self.magic) + self.cmd.wire());
        out
    }

    /// The command that `bytes` begin with, if they begin with a command frame
    /// (see `command_of`).
    pub fn from_bytes(bytes: &[u8]) -> (c: Option<UartCommand>)
        ensures
            match c {
                Some(c) => command_of(bytes@) == Some(c.command()) && c.magic_byte() == COMMAND_MAGIC,
                None => command_of(bytes@) is None,
            },
    {
        if bytes.len() < FRAME_LEN || bytes[0] != COMMAND_MAGIC {
            return None;
        }
        let tag = read_word(bytes, 4);
        if tag == 0 {
            let size = read_word(bytes, 8);
            let addr = read_word(bytes, 12);
            Some(UartCommand { magic: COMMAND_MAGIC, cmd: Command::Write { size, addr } })
        } else if tag == 1 {
            let addr = read_word(bytes, 8);
            Some(UartCommand { magic: COMMAND_MAGIC, cmd: Command::Jump { addr } })
        } else {
            None
        }
    }
}

impl UartReply {
    /// The first byte of the frame.
    pub open spec fn magic_byte(self) -> u8 {
        self.magic
    }

    /// The reply carried.
    pub open spec fn answer(self) -> Reply {
        self.reply
    }

    /// The reply `reply`, ready to travel.
    pub fn new(reply: Reply) -> (r: UartReply)
        ensures
            r.answer() == reply,
            r.magic_byte() == REPLY_MAGIC,
    {
        UartReply { magic: REPLY_MAGIC, reply: reply }
    }

    /// Whether `magic` is the first byte of a reply frame.
    pub fn magic_match(magic: u8) -> (b: bool)
        ensures
            b == (magic == REPLY_MAGIC),
    {
        magic == REPLY_MAGIC
    }

    /// The frame that carries this reply.
    pub fn byte_view(&self) -> (bytes: Vec<u8>)
        ensures
            bytes@ == frame_head(self.magic_byte()) + self.answer().wire(),
    {
        let mut out: Vec<u8> = Vec::new();
        out.push(self.magic);
        out.push(0);
        out.push(0);
        out.push(0);
        assert(out@ =~= frame_head(self.magic));
        let result = match self.reply {
            Reply::Write(r) => {
                push_word(&mut out, 0);
                r
            },
            Reply::Jump(r) => {
                push_word(&mut out, 1);
                r
            },
        };
        match result {
            Ok(()) => {
                push_word(&mut out, 2);
                push_word(&mut out, 0);
            },
            Err(CommandError::JumpInsideLoader { loader_end }) => {
                push_word(&mut out, 0);
                push_word(&mut out, loader_end);
            },
            Err(CommandError::OverwriteLoader { loader_end }) => {
                push_word(&mut out, 1);
                push_word(&mut out, loader_end);
            },
        }
        assert(out@ =~= frame_head(self.magic) + self.reply.wire());
        out
    }

    /// The reply that `bytes` begin with, if they begin with a reply frame (see
    /// `reply_of`).
    pub fn from_bytes(bytes: &[u8]) -> (r: Option<UartReply>)
        ensures
            match r {
                Some(r) => reply_of(bytes@) == Some(r.answer()) && r.magic_byte() == REPLY_MAGIC,
                None => reply_of(bytes@) is None,
            },
    {
        if bytes.len() < FRAME_LEN || bytes[0] != REPLY_MAGIC {
            return None;
        }
        let tag = read_word(bytes, 4);
        let code = read_word(bytes, 8);
        let result = if code == 2 {
            Ok(())
        } else if code == 0 {
            Err(CommandError::JumpInsideLoader { loader_end: read_word(bytes, 12) })
        } else if code == 1 {
            Err(CommandError::OverwriteLoader { loader_end: read_word(bytes, 12) })
        } else {
            return None;
        };
        if tag == 0 {
            Some(UartReply { magic: REPLY_MAGIC, reply: Reply::Write(result) })
        } else if tag == 1 {
            Some(UartReply { magic: REPLY_MAGIC, reply: Reply::Jump(result) })
        } else {
            None
        }
    }
}

} // verus!
