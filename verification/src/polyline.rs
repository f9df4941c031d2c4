//! Geometry command stream decoding and ring assembly.
//!
//! A feature's geometry is a flat sequence of unsigned 32-bit integers. Each
//! element is either a command integer (low 3 bits: opcode, remaining bits:
//! repeat count) or a zigzag-encoded parameter. MoveTo and LineTo consume two
//! parameters per repetition, interpreted as deltas from a running cursor;
//! ClosePath takes none.

use vstd::prelude::*;

verus! {

use vstd::slice::slice_to_vec;

/// Opcode of a MoveTo command integer.
pub const MOVE_TO: u32 = 0x1;
/// Opcode of a LineTo command integer.
pub const LINE_TO: u32 = 0x2;
/// Opcode of a ClosePath command integer.
pub const CLOSE_PATH: u32 = 0x7;

/// A drawing command carrying the cursor position it moves or draws to.
#[derive(Clone, Copy, Debug, PartialEq, Eq, Structural)]
pub enum Command {
    MoveTo(i32, i32),
    LineTo(i32, i32),
    ClosePath,
}

/// Why decoding a geometry command stream failed. A failed feature is
/// skipped; the error never aborts tile construction.
#[derive(Clone, Copy, Debug, PartialEq, Eq, Structural)]
pub enum DecodeError {
    /// A command integer whose opcode is not MoveTo, LineTo or ClosePath.
    UnknownOpcode(u32),
    /// The stream ended in the middle of a MoveTo/LineTo parameter pair.
    TruncatedParameters,
    /// A delta moved the running cursor outside the 32-bit signed range.
    CursorOverflow,
}

/// The signed value a zigzag-encoded parameter decodes to, matching the
/// 32-bit evaluation `(v as i32 >> 1) ^ -(v as i32 & 1)` with an arithmetic
/// right shift. Always within `[-2^30, 2^30)`.
pub open spec fn zigzag_decoded(v: u32) -> int {
    if v % 2 == 0 {
        if v < 0x8000_0000 {
            v as int / 2
        } else {
            v as int / 2 - 0x8000_0000
        }
    } else {
        if v < 0x8000_0000 {
            -((v as int + 1) / 2)
        } else {
            0x8000_0000 - (v as int + 1) / 2
        }
    }
}

/// The zigzag encoding of a delta, `((d << 1) ^ (d >> 31)) as u32`.
pub open spec fn zigzag_encoded(d: i32) -> u32 {
    if d >= 0 {
        (2 * d) as u32
    } else {
        (-2 * (d as int) - 1) as u32
    }
}

proof fn lemma_zigzag_decode_bits(v: u32)
    by (bit_vector)
    ensures
        (((v as i32) >> 1u32) ^ ((-((v as i32) & 1)) as i32)) as int == zigzag_decoded(v),
{
}

proof fn lemma_zigzag_encode_bits(d: i32)
    by (bit_vector)
    ensures
        (((d << 1u32) ^ (d >> 31u32)) as u32) == zigzag_encoded(d),
{
}

/// Decodes one zigzag parameter.
pub fn zigzag_decode(v: u32) -> (d: i32)
    ensures
        d as int == zigzag_decoded(v),
{
    let p = #[verifier::truncate] (v as i32);
    let b = p & 1;
    proof {
        assert((v as i32) & 1 == 0 || (v as i32) & 1 == 1) by (bit_vector);
        lemma_zigzag_decode_bits(v);
    }
    (p >> 1u32) ^ (-b)
}

/// Encodes a delta as a zigzag parameter.
pub fn zigzag_encode(d: i32) -> (v: u32)
    ensures
        v == zigzag_encoded(d),
{
    proof {
        lemma_zigzag_encode_bits(d);
    }
    ((d << 1u32) ^ (d >> 31u32)) as u32
}

/// Whether a mathematical integer is representable as an `i32`.
pub open spec fn fits_i32(v: int) -> bool {
    -0x8000_0000 <= v <= 0x7FFF_FFFF
}

/// The commands encoded by `data` from position `pos` onward, together with
/// the error that terminates decoding, if any. `rep` repetitions of the run
/// with opcode `op` are still owed; the running cursor is `(cx, cy)`. A run
/// whose declared repeat count is zero ends decoding cleanly, as the
/// streaming decoder does.
pub open spec fn stream(
    data: Seq<u32>,
    pos: int,
    rep: nat,
    op: u32,
    cx: int,
    cy: int,
) -> (Seq<Command>, Option<DecodeError>)
    decreases data.len() - pos, rep,
{
    if pos < 0 || pos > data.len() {
        (Seq::<Command>::empty(), None::<DecodeError>)
    } else if rep == 0 {
        if pos == data.len() {
            (Seq::<Command>::empty(), None::<DecodeError>)
        } else {
            let c = data[pos];
            let o = c & 0x7;
            let n = (c >> 3) as nat;
            if n == 0 {
                (Seq::<Command>::empty(), None::<DecodeError>)
            } else if o == MOVE_TO || o == LINE_TO || o == CLOSE_PATH {
                stream(data, pos + 1, n, o, cx, cy)
            } else {
                (Seq::<Command>::empty(), Some(DecodeError::UnknownOpcode(o)))
            }
        }
    } else if op == CLOSE_PATH {
        let rest = stream(data, pos, (rep - 1) as nat, op, cx, cy);
        (seq![Command::ClosePath] + rest.0, rest.1)
    } else if op == MOVE_TO || op == LINE_TO {
        if pos + 2 > data.len() {
            (Seq::<Command>::empty(), Some(DecodeError::TruncatedParameters))
        } else {
            let nx = cx + zigzag_decoded(data[pos]);
            let ny = cy + zigzag_decoded(data[pos + 1]);
            if !fits_i32(nx) || !fits_i32(ny) {
                (Seq::<Command>::empty(), Some(DecodeError::CursorOverflow))
            } else {
                let cmd = if op == MOVE_TO {
                    Command::MoveTo(nx as i32, ny as i32)
                } else {
                    Command::LineTo(nx as i32, ny as i32)
                };
                let rest = stream(data, pos + 2, (rep - 1) as nat, op, nx, ny);
                (seq![cmd] + rest.0, rest.1)
            }
        }
    } else {
        (Seq::<Command>::empty(), None::<DecodeError>)
    }
}

/// The full decoding of a geometry array: the commands it yields and the
/// error that stops it, if any. Decoding is a function of the array alone.
pub open spec fn decoded_stream(data: Seq<u32>) -> (Seq<Command>, Option<DecodeError>) {
    stream(data, 0, 0, MOVE_TO, 0, 0)
}

/// Zigzag round-trip: a delta encoded as `(d << 1) ^ (d >> 31)` and decoded
/// as `(v >> 1) ^ -(v & 1)` comes back unchanged. Under the 32-bit signed
/// evaluation of the decoder this holds exactly for deltas in
/// `[-2^30, 2^30)`; outside that range the encoded value has its top bit
/// set and the arithmetic right shift corrupts it.
pub proof fn lemma_zigzag_roundtrip(d: i32)
    requires
        -0x4000_0000 <= d < 0x4000_0000,
    ensures
        zigzag_decoded(zigzag_encoded(d)) == d as int,
{
}

/// A streaming decoder for one feature's geometry command array. Commands
/// are produced one at a time and never materialized as a whole.
pub struct GeometryParser {
    pub data: Vec<u32>,
    pub pos: usize,
    pub repeating: u32,
    pub current_command: Option<u32>,
    pub cursor: (i32, i32),
}

impl GeometryParser {
    /// The opcode of the run being repeated; irrelevant between runs.
    pub open spec fn cur_op(self) -> u32 {
        match self.current_command {
            Some(o) => o,
            None => MOVE_TO,
        }
    }

    /// Well-formedness: the position is inside the array and a pending run
    /// carries a known opcode.
    pub open spec fn inv(self) -> bool {
        &&& self.pos <= self.data@.len()
        &&& (self.repeating > 0 ==> self.current_command == Some(MOVE_TO) || self.current_command
            == Some(LINE_TO) || self.current_command == Some(CLOSE_PATH))
    }

    /// The commands this parser will still yield, and how it terminates.
    pub open spec fn remaining(self) -> (Seq<Command>, Option<DecodeError>) {
        stream(
            self.data@,
            self.pos as int,
            self.repeating as nat,
            self.cur_op(),
            self.cursor.0 as int,
            self.cursor.1 as int,
        )
    }

    /// A fresh parser over `data`, with the cursor at the origin.
    pub fn new(data: &[u32]) -> (p: Self)
        ensures
            p.inv(),
            p.remaining() == decoded_stream(data@),
    {
        Self {
            data: slice_to_vec(data),
            pos: 0,
            repeating: 0,
            current_command: None,
            cursor: (0, 0),
        }
    }

    /// Reads the zigzag-encoded parameter under the position and advances
    /// past it; the cursor and the run state are untouched.
    pub fn read_param(&mut self) -> (d: i32)
        requires
            old(self).pos < old(self).data@.len(),
        ensures
            d as int == zigzag_decoded(old(self).data@[old(self).pos as int]),
            final(self).data@ == old(self).data@,
            final(self).pos == old(self).pos + 1,
            final(self).repeating == old(self).repeating,
            final(self).current_command == old(self).current_command,
            final(self).cursor == old(self).cursor,
    {
        let param = self.data[self.pos];
        let end = self.data.len();
        assert(self.pos < end);
        self.pos = self.pos + 1;
        zigzag_decode(param)
    }

    /// Yields the next command, `Ok(None)` at a clean end of the stream, or
    /// the error that makes the stream malformed. After an end or an error
    /// the parser stays at a clean end.
    pub fn next(&mut self) -> (r: Result<Option<Command>, DecodeError>)
        requires
            old(self).inv(),
        ensures
            final(self).inv(),
            final(self).data@ == old(self).data@,
            ({
                let (cmds, err) = old(self).remaining();
                match r {
                    Ok(Some(cmd)) => cmds.len() > 0 && cmd == cmds[0] && final(self).remaining()
                        == (cmds.skip(1), err),
                    Ok(None) => cmds.len() == 0 && err is None && final(self).remaining() == (
                        Seq::<Command>::empty(),
                        None::<DecodeError>,
                    ),
                    Err(e) => cmds.len() == 0 && err == Some(e) && final(self).remaining() == (
                        Seq::<Command>::empty(),
                        None::<DecodeError>,
                    ),
                }
            }),
    {
        if self.repeating == 0 {
            if self.pos == self.data.len() {
                return Ok(None);
            }
            let cmdint = self.data[self.pos];
            self.pos = self.pos + 1;
            let cmd = cmdint & 0x7;
            let count = cmdint >> 3u32;
            proof {
                assert(cmdint & 0x7 < 8) by (bit_vector);
            }
            if count == 0 {
                self.pos = self.data.len();
                self.current_command = None;
                return Ok(None);
            }
            if !(cmd == MOVE_TO || cmd == LINE_TO || cmd == CLOSE_PATH) {
                self.pos = self.data.len();
                self.current_command = None;
                return Err(DecodeError::UnknownOpcode(cmd));
            }
            self.current_command = Some(cmd);
            self.repeating = count;
        }
        let ghost s1 = *self;
        proof {
            assert(old(self).remaining() == s1.remaining());
        }
        let op = self.current_command.unwrap();
        self.repeating = self.repeating - 1;
        if op == CLOSE_PATH {
            proof {
                let rest = stream(
                    s1.data@,
                    s1.pos as int,
                    (s1.repeating - 1) as nat,
                    CLOSE_PATH,
                    s1.cursor.0 as int,
                    s1.cursor.1 as int,
                );
                assert(s1.remaining().0 == seq![Command::ClosePath] + rest.0);
                assert((seq![Command::ClosePath] + rest.0).skip(1) =~= rest.0);
            }
            return Ok(Some(Command::ClosePath));
        }
        if self.data.len() - self.pos < 2 {
            self.pos = self.data.len();
            self.repeating = 0;
            self.current_command = None;
            assert(s1.remaining().1 == Some(DecodeError::TruncatedParameters));
            return Err(DecodeError::TruncatedParameters);
        }
        let dx = self.read_param();
        let dy = self.read_param();
        let nx = self.cursor.0 as i64 + dx as i64;
        let ny = self.cursor.1 as i64 + dy as i64;
        if nx < -0x8000_0000i64 || nx > 0x7FFF_FFFFi64 || ny < -0x8000_0000i64
            || ny > 0x7FFF_FFFFi64 {
            self.pos = self.data.len();
            self.repeating = 0;
            self.current_command = None;
            assert(s1.remaining().1 == Some(DecodeError::CursorOverflow));
            return Err(DecodeError::CursorOverflow);
        }
        self.cursor = (nx as i32, ny as i32);
        let cmd0 = if op == MOVE_TO {
            Command::MoveTo(nx as i32, ny as i32)
        } else {
            Command::LineTo(nx as i32, ny as i32)
        };
        proof {
            let rest = stream(
                s1.data@,
                s1.pos + 2,
                (s1.repeating - 1) as nat,
                op,
                nx as int,
                ny as int,
            );
            assert(s1.remaining().0 == seq![cmd0] + rest.0);
            assert((seq![cmd0] + rest.0).skip(1) =~= rest.0);
        }
        Ok(Some(cmd0))
    }
}

/// A well-formed command stream from `pos` onward with cursor `(cx, cy)`: a
/// sequence of complete runs whose opcodes are known, whose repeat counts
/// are at least one, whose MoveTo/LineTo runs carry a full pair of
/// parameters per repetition, and whose cursor never leaves the 32-bit
/// signed range.
pub open spec fn well_formed_from(data: Seq<u32>, pos: int, cx: int, cy: int) -> bool
    decreases data.len() - pos, 0nat, 0nat,
{
    if pos < 0 || pos > data.len() {
        false
    } else if pos == data.len() {
        true
    } else {
        let c = data[pos];
        let o = c & 0x7;
        let n = (c >> 3) as nat;
        n >= 1 && if o == CLOSE_PATH {
            well_formed_from(data, pos + 1, cx, cy)
        } else if o == MOVE_TO || o == LINE_TO {
            well_formed_run(data, pos + 1, n, cx, cy)
        } else {
            false
        }
    }
}

/// A well-formed run of `n` remaining MoveTo/LineTo repetitions starting at
/// `pos`: each reads a full parameter pair and keeps the cursor in range,
/// and what follows the run is itself well formed.
pub open spec fn well_formed_run(data: Seq<u32>, pos: int, n: nat, cx: int, cy: int) -> bool
    decreases data.len() - pos, 1nat, n,
{
    if pos < 0 || pos > data.len() {
        false
    } else if n == 0 {
        well_formed_from(data, pos, cx, cy)
    } else if pos + 2 > data.len() {
        false
    } else {
        let nx = cx + zigzag_decoded(data[pos]);
        let ny = cy + zigzag_decoded(data[pos + 1]);
        fits_i32(nx) && fits_i32(ny) && well_formed_run(data, pos + 2, (n - 1) as nat, nx, ny)
    }
}

/// The sum of the repeat counts declared by the command integers of the
/// stream from `pos` onward, following each run to the next command
/// integer. Runs that end decoding (zero counts, unknown opcodes, truncated
/// parameters) contribute nothing further.
pub open spec fn declared_count(data: Seq<u32>, pos: int) -> nat
    decreases data.len() - pos,
{
    if pos < 0 || pos >= data.len() {
        0
    } else {
        let c = data[pos];
        let o = c & 0x7;
        let n = (c >> 3) as nat;
        if n == 0 {
            0
        } else if o == CLOSE_PATH {
            n + declared_count(data, pos + 1)
        } else if (o == MOVE_TO || o == LINE_TO) && pos + 1 + 2 * n <= data.len() {
            n + declared_count(data, pos + 1 + 2 * n)
        } else {
            0
        }
    }
}

/// A ClosePath run yields exactly its remaining repetitions before the
/// stream continues at the next command integer.
proof fn lemma_close_run(data: Seq<u32>, pos: int, n: nat, cx: int, cy: int)
    requires
        0 <= pos <= data.len(),
    ensures
        stream(data, pos, n, CLOSE_PATH, cx, cy).0.len() == n + stream(
            data,
            pos,
            0,
            CLOSE_PATH,
            cx,
            cy,
        ).0.len(),
        stream(data, pos, n, CLOSE_PATH, cx, cy).1 == stream(data, pos, 0, CLOSE_PATH, cx, cy).1,
    decreases n,
{
    if n > 0 {
        lemma_close_run(data, pos, (n - 1) as nat, cx, cy);
    }
}

/// A well-formed run's parameters all lie inside the array.
proof fn lemma_wf_run_bound(data: Seq<u32>, pos: int, n: nat, cx: int, cy: int)
    requires
        well_formed_run(data, pos, n, cx, cy),
    ensures
        pos + 2 * n <= data.len(),
    decreases n,
{
    if n > 0 {
        let nx = cx + zigzag_decoded(data[pos]);
        let ny = cy + zigzag_decoded(data[pos + 1]);
        lemma_wf_run_bound(data, pos + 2, (n - 1) as nat, nx, ny);
    }
}

/// Decoding a well-formed stream from between runs yields no error and
/// exactly the declared number of commands.
proof fn lemma_wf_stream(data: Seq<u32>, pos: int, op: u32, cx: int, cy: int)
    requires
        well_formed_from(data, pos, cx, cy),
    ensures
        stream(data, pos, 0, op, cx, cy).1 is None,
        stream(data, pos, 0, op, cx, cy).0.len() == declared_count(data, pos),
    decreases data.len() - pos, 0nat, 0nat,
{
    if pos == data.len() {
    } else {
        let c = data[pos];
        let o = c & 0x7;
        let n = (c >> 3) as nat;
        if o == CLOSE_PATH {
            lemma_close_run(data, pos + 1, n, cx, cy);
            lemma_wf_stream(data, pos + 1, CLOSE_PATH, cx, cy);
        } else {
            lemma_wf_run_bound(data, pos + 1, n, cx, cy);
            lemma_wf_run(data, pos + 1, n, o, cx, cy);
        }
    }
}

/// Decoding a well-formed MoveTo/LineTo run yields no error and its
/// remaining repetitions plus whatever the rest of the stream declares.
proof fn lemma_wf_run(data: Seq<u32>, pos: int, n: nat, op: u32, cx: int, cy: int)
    requires
        op == MOVE_TO || op == LINE_TO,
        well_formed_run(data, pos, n, cx, cy),
    ensures
        stream(data, pos, n, op, cx, cy).1 is None,
        stream(data, pos, n, op, cx, cy).0.len() == n + declared_count(data, pos + 2 * n),
    decreases data.len() - pos, 1nat, n,
{
    if n == 0 {
        lemma_wf_stream(data, pos, op, cx, cy);
    } else {
        let nx = cx + zigzag_decoded(data[pos]);
        let ny = cy + zigzag_decoded(data[pos + 1]);
        lemma_wf_run(data, pos + 2, (n - 1) as nat, op, nx, ny);
    }
}

/// Decoding is complete on well-formed streams: it reports no error, and
/// the number of yielded commands equals the sum of the declared repeat
/// counts. Decoding is also a pure function of the stream alone
/// (`decoded_stream`), so repeating it on the same input yields the same
/// commands.
pub proof fn lemma_well_formed_decode(data: Seq<u32>)
    requires
        well_formed_from(data, 0, 0, 0),
    ensures
        decoded_stream(data).1 is None,
        decoded_stream(data).0.len() == declared_count(data, 0),
{
    lemma_wf_stream(data, 0, MOVE_TO, 0, 0);
}

/// A point in tile-pixel space, as produced by the command decoder.
#[derive(Clone, Copy, Debug, PartialEq, Eq, Structural)]
pub struct PixelPoint {
    pub x: i32,
    pub y: i32,
}

/// An ordered point path, open or closed; kept only when it holds more
/// points than the assembler's minimum threshold.
#[derive(Clone, Debug)]
pub struct Ring {
    pub points: Vec<PixelPoint>,
}

impl View for Ring {
    type V = Seq<PixelPoint>;

    open spec fn view(&self) -> Seq<PixelPoint> {
        self.points@
    }
}

impl Ring {
    /// Ring-closing normalization hook, reserved for polygon support;
    /// deliberately leaves the points untouched.
    pub fn close(&mut self)
        ensures
            final(self)@ == old(self)@,
    {
        if self.points.len() > 1 {
        }
    }
}

/// The ordered rings decoded from one feature's geometry.
#[derive(Clone, Debug)]
pub struct Polyline {
    pub rings: Vec<Ring>,
}

impl View for Polyline {
    type V = Seq<Seq<PixelPoint>>;

    open spec fn view(&self) -> Seq<Seq<PixelPoint>> {
        self.rings@.map_values(|r: Ring| r@)
    }
}

/// Rings retained by `Polyline::from_geometry` hold more points than this.
pub const MIN_RING_POINTS: usize = 1;

/// Shorthand for a pixel point in specifications.
pub open spec fn pt(x: i32, y: i32) -> PixelPoint {
    PixelPoint { x, y }
}

/// The rings assembled from `cmds[i..]` when the current ring buffer holds
/// `cur`: MoveTo finalizes the buffer (kept only above `min` points) and
/// seeds a new one, LineTo extends it, ClosePath finalizes and empties it,
/// and the end of the commands finalizes whatever is left.
pub open spec fn assembled(
    cmds: Seq<Command>,
    i: int,
    cur: Seq<PixelPoint>,
    min: nat,
) -> Seq<Seq<PixelPoint>>
    decreases cmds.len() - i,
{
    if i < 0 || i >= cmds.len() {
        if cur.len() > min {
            seq![cur]
        } else {
            Seq::<Seq<PixelPoint>>::empty()
        }
    } else {
        match cmds[i] {
            Command::MoveTo(x, y) => if cur.len() > min {
                seq![cur] + assembled(cmds, i + 1, seq![pt(x, y)], min)
            } else {
                assembled(cmds, i + 1, seq![pt(x, y)], min)
            },
            Command::LineTo(x, y) => assembled(cmds, i + 1, cur.push(pt(x, y)), min),
            Command::ClosePath => if cur.len() > min {
                seq![cur] + assembled(cmds, i + 1, Seq::<PixelPoint>::empty(), min)
            } else {
                assembled(cmds, i + 1, Seq::<PixelPoint>::empty(), min)
            },
        }
    }
}

/// The rings assembled from a whole command sequence.
pub open spec fn assembled_rings(cmds: Seq<Command>, min: nat) -> Seq<Seq<PixelPoint>> {
    assembled(cmds, 0, Seq::<PixelPoint>::empty(), min)
}

/// The assembler never emits a ring with point count at or below the
/// configured minimum threshold: every assembled ring holds more than `min`
/// points, whatever buffer it starts from.
pub proof fn lemma_ring_length_floor(cmds: Seq<Command>, i: int, cur: Seq<PixelPoint>, min: nat)
    ensures
        forall|k: int|
            0 <= k < assembled(cmds, i, cur, min).len() ==> #[trigger] assembled(
                cmds,
                i,
                cur,
                min,
            )[k].len() > min,
    decreases cmds.len() - i,
{
    if i < 0 || i >= cmds.len() {
    } else {
        let next_cur = match cmds[i] {
            Command::MoveTo(x, y) => seq![pt(x, y)],
            Command::LineTo(x, y) => cur.push(pt(x, y)),
            Command::ClosePath => Seq::<PixelPoint>::empty(),
        };
        lemma_ring_length_floor(cmds, i + 1, next_cur, min);
        let rest = assembled(cmds, i + 1, next_cur, min);
        if !(cmds[i] is LineTo) && cur.len() > min {
            assert forall|k: int| 0 <= k < (seq![cur] + rest).len() implies #[trigger] (seq![cur]
                + rest)[k].len() > min by {
                if k > 0 {
                    assert((seq![cur] + rest)[k] == rest[k - 1]);
                }
            }
            assert(assembled(cmds, i, cur, min) == seq![cur] + rest);
        }
    }
}

/// One assembler transition: the rings emitted so far and the current
/// buffer, after consuming `cmd`.
pub open spec fn assembler_step(
    rings: Seq<Seq<PixelPoint>>,
    cur: Seq<PixelPoint>,
    cmd: Command,
    min: nat,
) -> (Seq<Seq<PixelPoint>>, Seq<PixelPoint>) {
    match cmd {
        Command::MoveTo(x, y) => if cur.len() > min {
            (rings.push(cur), seq![pt(x, y)])
        } else {
            (rings, seq![pt(x, y)])
        },
        Command::LineTo(x, y) => (rings, cur.push(pt(x, y))),
        Command::ClosePath => if cur.len() > min {
            (rings.push(cur), Seq::<PixelPoint>::empty())
        } else {
            (rings, Seq::<PixelPoint>::empty())
        },
    }
}

/// Taking one assembler step preserves the rings that the rest of the
/// commands will produce.
proof fn lemma_assembler_step_fold(
    cmds: Seq<Command>,
    i: int,
    rings: Seq<Seq<PixelPoint>>,
    cur: Seq<PixelPoint>,
    min: nat,
)
    requires
        0 <= i < cmds.len(),
    ensures
        ({
            let (rings2, cur2) = assembler_step(rings, cur, cmds[i], min);
            rings + assembled(cmds, i, cur, min) == rings2 + assembled(cmds, i + 1, cur2, min)
        }),
{
    let (rings2, cur2) = assembler_step(rings, cur, cmds[i], min);
    match cmds[i] {
        Command::MoveTo(x, y) => {
            if cur.len() > min {
                assert(rings + (seq![cur] + assembled(cmds, i + 1, seq![pt(x, y)], min))
                    =~= rings.push(cur) + assembled(cmds, i + 1, seq![pt(x, y)], min));
            }
        },
        Command::LineTo(x, y) => {},
        Command::ClosePath => {
            if cur.len() > min {
                assert(rings + (seq![cur] + assembled(cmds, i + 1, Seq::<PixelPoint>::empty(), min))
                    =~= rings.push(cur) + assembled(cmds, i + 1, Seq::<PixelPoint>::empty(), min));
            }
        },
    }
}

/// Consumes one feature's command sequence and collects the rings it forms.
pub struct RingAssembler {
    pub rings: Vec<Ring>,
    pub current: Vec<PixelPoint>,
    pub min_points: usize,
}

impl RingAssembler {
    /// The rings emitted so far, as point sequences.
    pub open spec fn rings_view(self) -> Seq<Seq<PixelPoint>> {
        self.rings@.map_values(|r: Ring| r@)
    }

    /// A fresh assembler that drops rings of `min_points` or fewer points.
    pub fn new(min_points: usize) -> (a: Self)
        ensures
            a.rings_view() == Seq::<Seq<PixelPoint>>::empty(),
            a.current@ == Seq::<PixelPoint>::empty(),
            a.min_points == min_points,
    {
        let a = RingAssembler { rings: Vec::new(), current: Vec::new(), min_points };
        proof {
            assert(a.rings_view() =~= Seq::<Seq<PixelPoint>>::empty());
        }
        a
    }

    /// Applies one command to the ring under construction.
    pub fn push_command(&mut self, cmd: Command)
        ensures
            (final(self).rings_view(), final(self).current@) == assembler_step(
                old(self).rings_view(),
                old(self).current@,
                cmd,
                old(self).min_points as nat,
            ),
            final(self).min_points == old(self).min_points,
    {
        match cmd {
            Command::MoveTo(x, y) => {
                let mut fresh: Vec<PixelPoint> = Vec::new();
                fresh.push(PixelPoint { x, y });
                core::mem::swap(&mut self.current, &mut fresh);
                if fresh.len() > self.min_points {
                    let mut ring = Ring { points: fresh };
                    ring.close();
                    self.rings.push(ring);
                    proof {
                        assert(self.rings_view() =~= old(self).rings_view().push(
                            old(self).current@,
                        ));
                    }
                }
            },
            Command::LineTo(x, y) => {
                self.current.push(PixelPoint { x, y });
            },
            Command::ClosePath => {
                let mut fresh: Vec<PixelPoint> = Vec::new();
                core::mem::swap(&mut self.current, &mut fresh);
                if fresh.len() > self.min_points {
                    let mut ring = Ring { points: fresh };
                    ring.close();
                    self.rings.push(ring);
                    proof {
                        assert(self.rings_view() =~= old(self).rings_view().push(
                            old(self).current@,
                        ));
                    }
                }
            },
        }
    }

    /// Ends the stream: the buffered ring is kept if it is long enough.
    pub fn finish(self) -> (rings: Vec<Ring>)
        ensures
            rings@.map_values(|r: Ring| r@) == if self.current@.len() > self.min_points as nat {
                self.rings_view().push(self.current@)
            } else {
                self.rings_view()
            },
    {
        let RingAssembler { mut rings, current, min_points } = self;
        if current.len() > min_points {
            let mut ring = Ring { points: current };
            ring.close();
            rings.push(ring);
            proof {
                assert(rings@.map_values(|r: Ring| r@) =~= self.rings_view().push(self.current@));
            }
        }
        rings
    }
}

impl Polyline {
    /// Decodes one feature's geometry array and assembles its rings, with
    /// the minimum ring length fixed at `MIN_RING_POINTS`. A malformed
    /// stream yields exactly the error that terminates its decoding.
    pub fn from_geometry(geom: &[u32]) -> (r: Result<Polyline, DecodeError>)
        ensures
            ({
                let (cmds, err) = decoded_stream(geom@);
                match r {
                    Ok(p) => err is None && p@ == assembled_rings(cmds, MIN_RING_POINTS as nat)
                        && forall|k: int|
                        0 <= k < p@.len() ==> #[trigger] p@[k].len() > MIN_RING_POINTS,
                    Err(e) => err == Some(e),
                }
            }),
    {
        let ghost (cmds, err) = decoded_stream(geom@);
        let ghost min = MIN_RING_POINTS as nat;
        let mut parser = GeometryParser::new(geom);
        let mut assembler = RingAssembler::new(MIN_RING_POINTS);
        let ghost mut idx: int = 0;
        proof {
            assert(cmds.skip(0) =~= cmds);
            assert(Seq::<Seq<PixelPoint>>::empty() + assembled_rings(cmds, min) =~= assembled_rings(
                cmds,
                min,
            ));
        }
        loop
            invariant_except_break
                decoded_stream(geom@) == (cmds, err),
                min == MIN_RING_POINTS as nat,
                parser.inv(),
                0 <= idx <= cmds.len(),
                parser.remaining() == (cmds.skip(idx), err),
                assembler.min_points == MIN_RING_POINTS,
                assembler.rings_view() + assembled(cmds, idx, assembler.current@, min)
                    == assembled_rings(cmds, min),
            ensures
                decoded_stream(geom@) == (cmds, err),
                min == MIN_RING_POINTS as nat,
                err is None,
                assembler.min_points == MIN_RING_POINTS,
                assembler.rings_view() + assembled(
                    cmds,
                    cmds.len() as int,
                    assembler.current@,
                    min,
                ) == assembled_rings(cmds, min),
            decreases cmds.len() - idx,
        {
            match parser.next() {
                Ok(Some(cmd)) => {
                    proof {
                        assert(cmds.skip(idx).len() > 0);
                        assert(cmd == cmds.skip(idx)[0]);
                        assert(cmds.skip(idx)[0] == cmds[idx]);
                        assert(cmds.skip(idx).skip(1) =~= cmds.skip(idx + 1));
                        lemma_assembler_step_fold(
                            cmds,
                            idx,
                            assembler.rings_view(),
                            assembler.current@,
                            min,
                        );
                    }
                    assembler.push_command(cmd);
                    proof {
                        idx = idx + 1;
                    }
                },
                Ok(None) => {
                    proof {
                        assert(cmds.skip(idx).len() == 0);
                        assert(idx == cmds.len());
                    }
                    break ;
                },
                Err(e) => {
                    return Err(e);
                },
            }
        }
        let rings = assembler.finish();
        proof {
            lemma_ring_length_floor(cmds, 0, Seq::<PixelPoint>::empty(), min);
        }
        Ok(Polyline { rings })
    }
}

} // verus!
